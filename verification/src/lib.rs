//! Verified core of the DKGKit threshold-cryptography SDK.
pub mod text;
pub mod types;
pub mod wire;
pub mod transport;
pub mod nostr;
pub mod record;
pub mod packages;
pub mod signers;
pub mod scalar;
pub mod linear;
pub mod birkhoff;
pub mod requests;
pub mod curve;
pub mod htss_dkg;
pub mod htss_keys;
pub mod htss_sign;
pub mod frost_backend;
pub mod frost_session;
pub mod bitcoin_backend;
pub mod bitcoin;
pub mod sdk;
