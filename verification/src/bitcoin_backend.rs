//! The Bitcoin primitives the helpers rely on, from the bitcoin crate (and
//! the secp256k1, hashes and bip32 parts it carries), sha2 and hex, with
//! keys as 33-byte compressed or 32-byte x-only arrays and scalars as
//! 32-byte big-endian arrays.
use vstd::prelude::*;
use crate::scalar::{be_value, group_order};
use bitcoin::bip32::{ChainCode, ChildNumber, Fingerprint, Xpub};
use bitcoin::hashes::{sha512, HashEngine, Hmac, HmacEngine};
use bitcoin::hashes::Hash as _;
use bitcoin::key::TapTweak;
use bitcoin::secp256k1::{schnorr, Message, Parity, PublicKey, Scalar, Secp256k1, SecretKey, XOnlyPublicKey};
use bitcoin::sighash::{Prevouts, SighashCache, TapSighashType};
use bitcoin::taproot::TapTweakHash;
use bitcoin::{
    absolute::LockTime, consensus, key::TweakedPublicKey, transaction::Version, Address, Amount,
    Network, NetworkKind, OutPoint, ScriptBuf, Sequence, Transaction, TxIn, TxOut, Txid, Witness,
};
use sha2::{Digest, Sha256};
use std::str::FromStr;

verus! {

/// The networks a Bitcoin address can belong to.
#[derive(Debug, Clone, Copy, PartialEq, Eq, Structural)]
pub enum BitcoinNetwork {
    Bitcoin,
    Testnet,
    Testnet4,
    Signet,
    Regtest,
}

/// A number for each network, for the names below.
pub open spec fn network_code(n: BitcoinNetwork) -> nat {
    match n {
        BitcoinNetwork::Bitcoin => 0,
        BitcoinNetwork::Testnet => 1,
        BitcoinNetwork::Testnet4 => 2,
        BitcoinNetwork::Signet => 3,
        BitcoinNetwork::Regtest => 4,
    }
}

/// SHA-256 of the bytes.
pub uninterp spec fn sha256_of(b: Seq<u8>) -> Seq<u8>;

/// HMAC-SHA512 of `data` under `key`.
pub uninterp spec fn hmac_sha512_of(key: Seq<u8>, data: Seq<u8>) -> Seq<u8>;

/// Whether `XOnlyPublicKey::from_slice` accepts the 32 bytes.
pub uninterp spec fn secp_xonly_valid(x: Seq<u8>) -> bool;

/// `add_exp_tweak` of a compressed key by a scalar, `None` when it fails.
pub uninterp spec fn point_add_tweak(p: Seq<u8>, t: Seq<u8>) -> Option<Seq<u8>>;

/// `Xpub::ckd_pub` of a key and chain code at a normal index: the child key
/// and chain code, `None` when it fails.
pub uninterp spec fn bip32_child(p: Seq<u8>, chain: Seq<u8>, index: u32) -> Option<(Seq<u8>, Seq<u8>)>;

/// The `TapTweakHash` of an x-only key without a script tree.
pub uninterp spec fn tap_tweak_hash(x: Seq<u8>) -> Seq<u8>;

/// `tap_tweak` of an x-only key without a script tree: the output key and
/// whether its y is odd.
pub uninterp spec fn tap_output(x: Seq<u8>) -> (Seq<u8>, bool);

/// The text of `Address::p2tr_tweaked` for an x-only output key.
pub uninterp spec fn p2tr_address_text(x: Seq<u8>, network: nat) -> Seq<char>;

/// Whether `verify_schnorr` accepts the signature over the digest.
pub uninterp spec fn secp_schnorr_valid(x: Seq<u8>, digest: Seq<u8>, sig: Seq<u8>) -> bool;

/// The script of an address text that parses for the network, `None`
/// when `Address::from_str` or `require_network` refuses it.
pub uninterp spec fn address_script(text: Seq<char>, network: nat) -> Option<Seq<u8>>;

/// The bytes of `Txid::from_str`, `None` when it refuses the text.
pub uninterp spec fn txid_of(text: Seq<char>) -> Option<Seq<u8>>;

/// The hex of an unsigned transaction of the given version and lock time
/// whose inputs (outpoint, with the given sequence) and outputs (value,
/// script) are given.
pub uninterp spec fn spend_hex(version: i32, lock_time: u32, sequence: u32, inputs: Seq<(Seq<u8>, u32)>, outputs: Seq<(u64, Seq<u8>)>) -> Seq<char>;

/// The BIP-341 key-path sighash, of the sighash type with the given
/// consensus byte, of one input of the transaction a hex text decodes to,
/// with the given prevouts (value, script); `None` when it fails.
pub uninterp spec fn spend_sighash(hex: Seq<char>, prevouts: Seq<(u64, Seq<u8>)>, index: nat, sighash_type: u8) -> Option<Seq<u8>>;
/// The input count of the transaction a hex text decodes to, `None` when
/// it does not decode.
pub uninterp spec fn tx_inputs(hex: Seq<char>) -> Option<nat>;

/// The hex of the decoded transaction with the witness of input `index`
/// set to the one element `sig`.
pub uninterp spec fn with_witness(hex: Seq<char>, index: nat, sig: Seq<u8>) -> Seq<char>;

/// The `compute_txid` text of the transaction a hex text decodes to.
pub uninterp spec fn txid_text(hex: Seq<char>) -> Seq<char>;

/// The lowercase hexadecimal digit of a value below 16.
pub open spec fn hex_digit(v: nat) -> char {
    if v < 10 {
        ((v + 48) as u8) as char
    } else {
        ((v + 87) as u8) as char
    }
}

/// Lowercase hexadecimal text of bytes, two digits per byte.
pub open spec fn hex_text(b: Seq<u8>) -> Seq<char>
    decreases b.len(),
{
    if b.len() == 0 {
        Seq::empty()
    } else {
        hex_text(b.drop_last()) + seq![hex_digit(b.last() as nat / 16), hex_digit(b.last() as nat % 16)]
    }
}

/// The value of a hexadecimal digit of either case.
pub open spec fn hex_value(c: char) -> Option<nat> {
    if '0' <= c <= '9' {
        Some(((c as nat) - 48) as nat)
    } else if 'a' <= c <= 'f' {
        Some(((c as nat) - 87) as nat)
    } else if 'A' <= c <= 'F' {
        Some(((c as nat) - 55) as nat)
    } else {
        None
    }
}

/// The bytes that hexadecimal text of even length stands for.
pub open spec fn hex_bytes(t: Seq<char>) -> Option<Seq<u8>>
    decreases t.len(),
{
    if t.len() % 2 == 1 {
        None
    } else if t.len() == 0 {
        Some(Seq::empty())
    } else {
        match (hex_bytes(t.take(t.len() - 2)), hex_value(t[t.len() - 2]), hex_value(t[t.len() - 1])) {
            (Some(b), Some(h), Some(l)) => Some(b.push((h * 16 + l) as u8)),
            _ => None,
        }
    }
}

/// `Sha256::digest` of sha2.
#[verifier::external_body]
pub(crate) fn sha256_digest(bytes: &[u8]) -> (r: [u8; 32])
    ensures
        r@ == sha256_of(bytes@),
{
    Sha256::digest(bytes).into()
}

/// `hex::encode`: lowercase, two digits per byte.
#[verifier::external_body]
pub(crate) fn hex_encode(bytes: &[u8]) -> (r: String)
    ensures
        r@ == hex_text(bytes@),
{
    hex::encode(bytes)
}

/// `hex::decode`: digits of either case, in pairs.
#[verifier::external_body]
pub(crate) fn hex_decode(text: &str) -> (r: Option<Vec<u8>>)
    ensures
        match hex_bytes(text@) {
            Some(b) => r matches Some(v) && v@ == b,
            None => r is None,
        },
{
    hex::decode(text).ok()
}

/// `XOnlyPublicKey::from_slice` then `public_key(Parity::Even)`, serialized:
/// the even lift `2 || x`, when the key is valid.
#[verifier::external_body]
pub(crate) fn lift_even_xonly(x: [u8; 32]) -> (r: Result<[u8; 33], String>)
    ensures
        r is Ok == secp_xonly_valid(x@),
        r matches Ok(p) ==> p@ == seq![2u8] + x@,
{
    XOnlyPublicKey::from_slice(&x).map(|k| k.public_key(Parity::Even).serialize()).map_err(|err| err.to_string())
}

/// `PublicKey::x_only_public_key` of a compressed key: its last 32 bytes,
/// and whether its y is odd (prefix 3).
#[verifier::external_body]
pub(crate) fn split_xonly(p: [u8; 33]) -> (r: ([u8; 32], bool))
    requires
        p@[0] == 2 || p@[0] == 3,
        secp_xonly_valid(p@.subrange(1, 33)),
    ensures
        r.0@ == p@.subrange(1, 33),
        r.1 == (p@[0] == 3),
{
    let (x, parity) = PublicKey::from_slice(&p).expect("valid key").x_only_public_key();
    (x.serialize(), parity == Parity::Odd)
}

/// `PublicKey::add_exp_tweak`: `p + t·G`, refused when the sum is the point at
/// infinity; the error's text.
#[verifier::external_body]
pub(crate) fn add_exp_tweak(p: [u8; 33], t: [u8; 32]) -> (r: Result<[u8; 33], String>)
    requires
        p@[0] == 2 || p@[0] == 3,
        secp_xonly_valid(p@.subrange(1, 33)),
        be_value(t@) < group_order(),
    ensures
        match point_add_tweak(p@, t@) {
            Some(q) => r matches Ok(v) && v@ == q,
            None => r is Err,
        },
        r matches Ok(q) ==> (q@[0] == 2 || q@[0] == 3) && secp_xonly_valid(q@.subrange(1, 33)),
{
    let key = PublicKey::from_slice(&p).expect("valid key");
    let tweak = Scalar::from_be_bytes(t).expect("scalar below the order");
    key.add_exp_tweak(&Secp256k1::verification_only(), &tweak).map(|q| q.serialize()).map_err(|err| err.to_string())
}

/// `Xpub::ckd_pub` at a normal index of the extended key with the given key
/// and chain code; the child key and chain code, or the error's text. The
/// extended key's network, depth, parent fingerprint and child number do not
/// enter the derivation, so the call fills them with mainnet, depth zero,
/// the default fingerprint and child zero.
#[verifier::external_body]
pub(crate) fn ckd_pub(p: [u8; 33], chain: [u8; 32], index: u32) -> (r: Result<([u8; 33], [u8; 32]), String>)
    requires
        index < 0x8000_0000,
        p@[0] == 2 || p@[0] == 3,
        secp_xonly_valid(p@.subrange(1, 33)),
    ensures
        r is Ok == bip32_child(p@, chain@, index) is Some,
        r matches Ok(v) ==> bip32_child(p@, chain@, index) == Some((v.0@, v.1@)) && (v.0@[0] == 2 || v.0@[0] == 3)
            && secp_xonly_valid(v.0@.subrange(1, 33)),
{
    let xpub = Xpub {
        network: NetworkKind::Main,
        depth: 0,
        parent_fingerprint: Fingerprint::default(),
        child_number: ChildNumber::Normal { index: 0 },
        public_key: PublicKey::from_slice(&p).expect("valid key"),
        chain_code: ChainCode::from(chain),
    };
    let child_number = ChildNumber::from_normal_idx(index).expect("normal index");
    let child = xpub.ckd_pub(&Secp256k1::verification_only(), child_number).map_err(|err| err.to_string())?;
    Ok((child.public_key.serialize(), child.chain_code.to_bytes()))
}

/// `HmacEngine::<sha512::Hash>` keyed with the chain code over `data`.
#[verifier::external_body]
pub(crate) fn hmac_sha512(key: [u8; 32], data: &[u8]) -> (r: [u8; 64])
    ensures
        r@ == hmac_sha512_of(key@, data@),
{
    let mut engine = HmacEngine::<sha512::Hash>::new(&key);
    engine.input(data);
    Hmac::<sha512::Hash>::from_engine(engine).to_byte_array()
}


/// `Scalar::from_be_bytes` of secp256k1: accepted below the group order.
#[verifier::external_body]
pub(crate) fn secp_scalar(b: [u8; 32]) -> (r: Result<[u8; 32], String>)
    ensures
        r is Ok == (be_value(b@) < group_order()),
        r matches Ok(v) ==> v == b,
{
    Scalar::from_be_bytes(b).map(|s| s.to_be_bytes()).map_err(|err| err.to_string())
}

/// `SecretKey::from_slice` of secp256k1: accepted when non-zero and below the group order.
#[verifier::external_body]
pub(crate) fn secret_key(b: [u8; 32]) -> (r: Result<[u8; 32], String>)
    ensures
        r is Ok == (0 < be_value(b@) < group_order()),
        r matches Ok(v) ==> v == b,
{
    SecretKey::from_slice(&b).map(|s| s.secret_bytes()).map_err(|err| err.to_string())
}

/// `SecretKey::add_tweak`: the sum modulo the group order, refused when it is zero.
#[verifier::external_body]
pub(crate) fn secret_add_tweak(a: [u8; 32], t: [u8; 32]) -> (r: Result<[u8; 32], String>)
    requires
        0 < be_value(a@) < group_order(),
        be_value(t@) < group_order(),
    ensures
        ((be_value(a@) + be_value(t@)) % group_order() == 0) == r is Err,
        r matches Ok(s) ==> be_value(s@) == (be_value(a@) + be_value(t@)) % group_order(),
{
    let key = SecretKey::from_slice(&a).expect("valid secret");
    let tweak = Scalar::from_be_bytes(t).expect("scalar below the order");
    key.add_tweak(&tweak).map(|s| s.secret_bytes()).map_err(|err| err.to_string())
}

/// `SecretKey::negate`: the group order minus the secret.
#[verifier::external_body]
pub(crate) fn secret_negate(a: [u8; 32]) -> (r: [u8; 32])
    requires
        0 < be_value(a@) < group_order(),
    ensures
        be_value(r@) == group_order() - be_value(a@),
{
    SecretKey::from_slice(&a).expect("valid secret").negate().secret_bytes()
}

/// `TapTweakHash::from_key_and_tweak(x, None)`, as bytes.
#[verifier::external_body]
pub(crate) fn tap_tweak_bytes(x: [u8; 32]) -> (r: [u8; 32])
    requires
        secp_xonly_valid(x@),
    ensures
        r@ == tap_tweak_hash(x@),
{
    let key = XOnlyPublicKey::from_slice(&x).expect("valid x-only key");
    TapTweakHash::from_key_and_tweak(key, None).to_byte_array()
}

/// `tap_tweak(x, None)`: the output key and whether its y is odd. It panics
/// when the tweak hash reaches the group order, or when the tweaked key (the
/// even lift of `x` plus the tweak times `G`) is the point at infinity; the
/// requirements leave both out.
#[verifier::external_body]
pub(crate) fn tap_tweak_output(x: [u8; 32]) -> (r: ([u8; 32], bool))
    requires
        secp_xonly_valid(x@),
        be_value(tap_tweak_hash(x@)) < group_order(),
        point_add_tweak(seq![2u8] + x@, tap_tweak_hash(x@)) is Some,
    ensures
        (r.0@, r.1) == tap_output(x@),
        secp_xonly_valid(r.0@),
{
    let key = XOnlyPublicKey::from_slice(&x).expect("valid x-only key");
    let (output, parity) = key.tap_tweak(&Secp256k1::verification_only(), None);
    (output.to_x_only_public_key().serialize(), parity == Parity::Odd)
}

/// `Address::p2tr_tweaked` of an x-only output key, as text.
#[verifier::external_body]
pub(crate) fn p2tr_address(x: [u8; 32], network: BitcoinNetwork) -> (r: String)
    requires
        secp_xonly_valid(x@),
    ensures
        r@ == p2tr_address_text(x@, network_code(network)),
{
    let key = XOnlyPublicKey::from_slice(&x).expect("valid x-only key");
    let network = match network {
        BitcoinNetwork::Bitcoin => Network::Bitcoin,
        BitcoinNetwork::Testnet => Network::Testnet,
        BitcoinNetwork::Testnet4 => Network::Testnet4,
        BitcoinNetwork::Signet => Network::Signet,
        BitcoinNetwork::Regtest => Network::Regtest,
    };
    Address::p2tr_tweaked(TweakedPublicKey::dangerous_assume_tweaked(key), network).to_string()
}

/// `verify_schnorr` of secp256k1 over a digest. It checks a signature as
/// BIP-340 defines, as schnorr_fun's `Schnorr::verify` does, so both accept
/// the same signatures.
#[verifier::external_body]
pub(crate) fn verify_schnorr(x: [u8; 32], digest: [u8; 32], sig: [u8; 64]) -> (r: bool)
    requires
        secp_xonly_valid(x@),
    ensures
        r == secp_schnorr_valid(x@, digest@, sig@),
        r == crate::curve::bip340_verifies(x@, digest@, sig@),
{
    let key = XOnlyPublicKey::from_slice(&x).expect("valid x-only key");
    let signature = schnorr::Signature::from_slice(&sig).expect("64 bytes");
    Secp256k1::verification_only().verify_schnorr(&signature, &Message::from_digest(digest), &key).is_ok()
}

/// Why an address text was refused.
pub enum AddressFailure {
    /// `Address::from_str` refused it; the error's text.
    Invalid(String),
    /// `require_network` refused it; the error's text.
    WrongNetwork(String),
}

/// `Address::from_str`, `require_network` and `script_pubkey`.
#[verifier::external_body]
pub(crate) fn address_script_pubkey(text: &str, network: BitcoinNetwork) -> (r: Result<Vec<u8>, AddressFailure>)
    ensures
        match address_script(text@, network_code(network)) {
            Some(s) => r matches Ok(v) && v@ == s,
            None => r is Err,
        },
{
    let network = match network {
        BitcoinNetwork::Bitcoin => Network::Bitcoin,
        BitcoinNetwork::Testnet => Network::Testnet,
        BitcoinNetwork::Testnet4 => Network::Testnet4,
        BitcoinNetwork::Signet => Network::Signet,
        BitcoinNetwork::Regtest => Network::Regtest,
    };
    let unchecked = Address::from_str(text).map_err(|err| AddressFailure::Invalid(err.to_string()))?;
    let address = unchecked.require_network(network).map_err(|err| AddressFailure::WrongNetwork(err.to_string()))?;
    Ok(address.script_pubkey().into_bytes())
}

/// `Txid::from_str`, as bytes; the error's text.
#[verifier::external_body]
pub(crate) fn parse_txid(text: &str) -> (r: Result<[u8; 32], String>)
    ensures
        match txid_of(text@) {
            Some(b) => r matches Ok(v) && v@ == b,
            None => r is Err,
        },
{
    Txid::from_str(text).map(|t| t.to_byte_array()).map_err(|err| err.to_string())
}

/// The inputs and outputs of an unsigned spend as plain values.
pub open spec fn input_views(v: Seq<([u8; 32], u32)>) -> Seq<(Seq<u8>, u32)> {
    v.map_values(|i: ([u8; 32], u32)| (i.0@, i.1))
}

pub open spec fn output_views(v: Seq<(u64, Vec<u8>)>) -> Seq<(u64, Seq<u8>)> {
    v.map_values(|o: (u64, Vec<u8>)| (o.0, o.1@))
}

/// The longest transaction hex that `deserialize_hex` reads: two digits per
/// byte of `MAX_VEC_SIZE`, the most bytes `consensus_decode` takes.
pub const MAX_DECODABLE_HEX: usize = 8_000_000;

/// `consensus::encode::serialize_hex` of the unsigned transaction with the
/// given version, lock time (`LockTime::from_consensus`), inputs (each with
/// the given sequence and an empty script and witness) and outputs. When the
/// hex is no longer than `MAX_DECODABLE_HEX`, `deserialize_hex` reads it back
/// with its inputs; a longer one is cut off by the decoder's size cap, and
/// nothing is said of it.
#[verifier::external_body]
pub(crate) fn unsigned_spend_hex(
    version: i32,
    lock_time: u32,
    sequence: u32,
    inputs: &Vec<([u8; 32], u32)>,
    outputs: &Vec<(u64, Vec<u8>)>,
) -> (r: String)
    ensures
        r@ == spend_hex(version, lock_time, sequence, input_views(inputs@), output_views(outputs@)),
        r@.len() <= MAX_DECODABLE_HEX ==> tx_inputs(r@) == Some(inputs@.len()),
{
    let tx = Transaction {
        version: Version(version),
        lock_time: LockTime::from_consensus(lock_time),
        input: inputs.iter().map(|(t, v)| TxIn { previous_output: OutPoint::new(Txid::from_byte_array(*t), *v), sequence: Sequence(sequence), ..TxIn::default() }).collect(),
        output: outputs.iter().map(|(v, s)| TxOut { value: Amount::from_sat(*v), script_pubkey: ScriptBuf::from_bytes(s.clone()) }).collect(),
    };
    consensus::encode::serialize_hex(&tx)
}

/// `SighashCache::taproot_key_spend_signature_hash` of one input of the
/// transaction the hex decodes to, with the given prevouts (value, script)
/// and the sighash type `TapSighashType::from_consensus_u8` gives for the
/// byte; the error's text.
#[verifier::external_body]
pub(crate) fn key_spend_sighash(hex: &str, prevouts: &Vec<(u64, Vec<u8>)>, index: usize, sighash_type: u8) -> (r: Result<[u8; 32], String>)
    requires
        tx_inputs(hex@) is Some,
    ensures
        match spend_sighash(hex@, output_views(prevouts@), index as nat, sighash_type) {
            Some(h) => r matches Ok(v) && v@ == h,
            None => r is Err,
        },
{
    let tx: Transaction = consensus::encode::deserialize_hex(hex).expect("decodable transaction");
    let prevouts: Vec<TxOut> = prevouts.iter().map(|(v, s)| TxOut { value: Amount::from_sat(*v), script_pubkey: ScriptBuf::from_bytes(s.clone()) }).collect();
    let sighash_type = TapSighashType::from_consensus_u8(sighash_type).map_err(|err| err.to_string())?;
    SighashCache::new(&tx).taproot_key_spend_signature_hash(index, &Prevouts::All(&prevouts), sighash_type)
        .map(|h| h.to_byte_array()).map_err(|err| err.to_string())
}

/// `consensus::encode::deserialize_hex` of a transaction: its input count;
/// the error's text.
#[verifier::external_body]
pub(crate) fn transaction_inputs(hex: &str) -> (r: Result<usize, String>)
    ensures
        match tx_inputs(hex@) {
            Some(n) => n <= usize::MAX && r == Ok::<usize, String>(n as usize),
            None => r is Err,
        },
{
    consensus::encode::deserialize_hex::<Transaction>(hex).map(|tx| tx.input.len()).map_err(|err| err.to_string())
}

/// `consensus::encode::deserialize_hex` of a transaction, the witness of
/// input `index` set to the one element `signature` (`Witness::from_slice`),
/// then `serialize_hex`. When the result is no longer than
/// `MAX_DECODABLE_HEX` it decodes with the same input count; nothing is said
/// of a longer one.
#[verifier::external_body]
pub(crate) fn witness_input(hex: &str, index: usize, signature: [u8; 64]) -> (r: String)
    requires
        tx_inputs(hex@) matches Some(n) && index < n,
    ensures
        r@ == with_witness(hex@, index as nat, signature@),
        r@.len() <= MAX_DECODABLE_HEX ==> tx_inputs(r@) == tx_inputs(hex@),
{
    let mut tx: Transaction = consensus::encode::deserialize_hex(hex).expect("decodable transaction");
    tx.input[index].witness = Witness::from_slice(&[signature]);
    consensus::encode::serialize_hex(&tx)
}

/// `compute_txid` of the transaction the hex decodes to, as text.
#[verifier::external_body]
pub(crate) fn transaction_txid(hex: &str) -> (r: String)
    requires
        tx_inputs(hex@) is Some,
    ensures
        r@ == txid_text(hex@),
{
    let tx: Transaction = consensus::encode::deserialize_hex(hex).expect("decodable transaction");
    tx.compute_txid().to_string()
}

} // verus!
