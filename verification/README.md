# dkgkit

Threshold cryptography for Bitcoin: FROST and hierarchical (HTSS) key
generation, threshold Schnorr signing, Taproot address and spend helpers, and
a transport-agnostic message envelope with a Nostr mapping. The library in
`src/` is written in Verus; every function there carries a contract that Verus
proves.

Layout of `src/`:

- `text`, `types`, `wire`: session ids, participants, threshold
  configurations, protocol messages and their JSON wire form.
- `record`, `packages`: the payload records of the protocol packages and their
  envelopes.
- `transport`, `nostr`: the transport trait, an in-memory transport, and
  Nostr envelope events with a local event transport.
- `signers`, `scalar`, `linear`, `birkhoff`: signer-set checks, arithmetic
  modulo the group order, a Gauss-Jordan solver and Birkhoff interpolation.
- `curve`, `frost_backend`, `bitcoin_backend`: the calls into secp256kfun,
  schnorr_fun, bincode, bitcoin, sha2 and hex, each with the contract the
  verified code relies on.
- `htss_dkg`, `htss_keys`, `htss_sign`: HTSS key generation (dealt and
  distributed), reconstruction and threshold signing.
- `requests`, `frost_session`: signing requests and the FROST DKG and signing
  sessions.
- `bitcoin`: Taproot addresses, child key tweaks, key-path spends and BIP-340
  verification.
- `sdk`: the session builder, the packaging coordinator over a transport, and
  the high-level helpers.

`app/` holds the serde and error-type companions of library types; `tests/`
runs the library against the real outside crates.
