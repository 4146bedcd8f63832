//! The FROST key generation and signing steps of schnorr_fun's `frost`
//! module (the simplepedpop key generation, binonces, sign sessions), with
//! their values moved in and out as bytes: scalars and x-only keys as
//! 32-byte arrays, public nonces as 66 bytes, secret nonces as 64 bytes, and
//! keys, shares and signatures in their bincode encoding.
use vstd::prelude::*;
use crate::scalar::{be_bytes, be_value, is_scalar};
use crate::curve::bip340_verifies;
use schnorr_fun::binonce::{Nonce, SecretNonce};
use schnorr_fun::frost::chilldkg::simplepedpop::{self, Coordinator, KeygenInput};
use schnorr_fun::frost::{self, PairedSecretShare, PartyIndex, SecretShare, SharedKey};
use schnorr_fun::Message;
use secp256kfun::marker::{EvenY, Public, Secret, Zero};
use secp256kfun::Scalar;
use sha2::Sha256;
use std::collections::{BTreeMap, BTreeSet};

verus! {

#[verifier::external_type_specification]
#[verifier::external_body]
pub struct ExKeygenInput(KeygenInput);

#[verifier::external_type_specification]
#[verifier::external_body]
pub struct ExCoordinator(Coordinator);


/// Why a paired share or shared key could not be produced.
#[derive(Debug)]
pub enum ShareFailure {
    /// `receive_share` refused the share; the error's debug text.
    Rejected(String),
    /// The share (or key) is zero.
    Zero,
    /// bincode could not encode the value; its error text.
    Encoding(String),
    /// The coordinator still misses an input.
    Incomplete,
}

/// The bincode encoding of a `Scalar<Secret, Zero>` given by its bytes.
pub uninterp spec fn secret_scalar_bincode(s: Seq<u8>) -> Seq<u8>;

/// Whether bincode decodes the bytes as a `SharedKey<EvenY>`.
pub uninterp spec fn shared_key_decodes(b: Seq<u8>) -> bool;

/// `threshold()` of the shared key the bytes decode to.
pub uninterp spec fn shared_key_threshold(b: Seq<u8>) -> nat;

/// `public_key().to_xonly_bytes()` of the shared key the bytes decode to.
pub uninterp spec fn shared_key_xonly(b: Seq<u8>) -> Seq<u8>;

/// The inputs a simplepedpop coordinator holds: contributor index to the
/// bincode encoding of that contributor's `KeygenInput`.
pub uninterp spec fn coordinator_inputs(c: Coordinator) -> Map<u32, Seq<u8>>;

/// The number of contributors a coordinator was made for.
pub uninterp spec fn coordinator_size(c: Coordinator) -> nat;

/// The threshold a coordinator was made for.
pub uninterp spec fn coordinator_threshold(c: Coordinator) -> nat;

/// The bincode encoding of the `KeygenInput` that bincode decodes from `b`.
pub uninterp spec fn keygen_input_canonical(b: Seq<u8>) -> Seq<u8>;

/// The x-only public key and the bincode encoding of the non-zero, even-Y
/// shared key of the aggregated inputs held by a coordinator; `None` when the
/// key is zero or does not encode.
pub uninterp spec fn aggregated_shared_key(inputs: Map<u32, Seq<u8>>) -> Option<(Seq<u8>, Seq<u8>)>;

/// Whether `Coordinator::add_input` takes the input bincode decodes from
/// `b` for a coordinator of the threshold (from an expected contributor
/// that has none yet): it decodes, has `threshold` commitments and its
/// proof of possession verifies.
pub uninterp spec fn keygen_input_accepted(threshold: nat, b: Seq<u8>) -> bool;

/// The bincode encoding of the non-zero, even-Y paired share that
/// `receive_share` gives for the secret share `(index, share)` against the
/// aggregate of the inputs held by a coordinator made for `size`
/// contributors and the threshold; `None` when an input is missing or any
/// step refuses.
pub uninterp spec fn paired_share_of(inputs: Map<u32, Seq<u8>>, size: nat, threshold: nat, index: u16, share: Seq<u8>) -> Option<Seq<u8>>;

/// The scalar bytes of the `Scalar<Secret, Zero>` bincode decodes from `b`,
/// `None` when it does not decode.
pub uninterp spec fn secret_scalar_decoded(b: Seq<u8>) -> Option<Seq<u8>>;

/// Whether bincode decodes the bytes as a `PairedSecretShare<EvenY>`.
pub uninterp spec fn paired_share_decodes(b: Seq<u8>) -> bool;

/// `index().to_bytes()` of the paired share the bytes decode to.
pub uninterp spec fn paired_share_index(b: Seq<u8>) -> Seq<u8>;

/// `public_key().to_xonly_bytes()` of the paired share the bytes decode to.
pub uninterp spec fn paired_share_xonly(b: Seq<u8>) -> Seq<u8>;

/// Whether `binonce::Nonce::from_bytes` accepts the 66 bytes.
pub uninterp spec fn public_nonce_valid(b: Seq<u8>) -> bool;

/// Whether `binonce::SecretNonce::from_bytes` accepts the 64 bytes.
pub uninterp spec fn secret_nonce_valid(b: Seq<u8>) -> bool;

/// The 66 bytes of the `binonce::Nonce` bincode decodes from `b`, `None`
/// when it does not decode.
pub uninterp spec fn public_nonce_decoded(b: Seq<u8>) -> Option<Seq<u8>>;

/// The bincode encoding of the FROST signature share that `frost_sign_share`
/// makes for the shared key, the paired share, the parties' public nonces,
/// the digest and the secret nonce given as bytes; `None` when encoding fails.
pub uninterp spec fn frost_signature_share(key: Seq<u8>, share: Seq<u8>, nonces: Seq<(u32, Seq<u8>)>, digest: Seq<u8>, secret_nonce: Seq<u8>) -> Option<Seq<u8>>;

/// The scalar bytes of the `Scalar<Public, Zero>` bincode decodes from `b`,
/// `None` when it does not decode.
pub uninterp spec fn signature_share_decoded(b: Seq<u8>) -> Option<Seq<u8>>;

/// The 64 signature bytes that `verify_and_combine_signature_shares` gives
/// for the shared key, the parties' public nonces, the digest and the
/// signature shares given as bytes; `None` when it refuses the shares.
pub uninterp spec fn combined_signature(key: Seq<u8>, nonces: Seq<(u32, Seq<u8>)>, digest: Seq<u8>, shares: Seq<(u32, Seq<u8>)>) -> Option<Seq<u8>>;

/// Signature shares with their bytes as sequences.
pub open spec fn share_pairs(v: Seq<(u32, [u8; 32])>) -> Seq<(u32, Seq<u8>)> {
    v.map_values(|p: (u32, [u8; 32])| (p.0, p.1@))
}

/// Public nonces with their bytes as sequences.
pub open spec fn nonce_pairs(v: Seq<(u32, [u8; 66])>) -> Seq<(u32, Seq<u8>)> {
    v.map_values(|p: (u32, [u8; 66])| (p.0, p.1@))
}

/// Public nonces keyed by distinct non-zero participant numbers.
pub open spec fn nonce_list_ok(nonces: Seq<(u32, [u8; 66])>) -> bool {
    &&& forall|i: int| 0 <= i < nonces.len() ==> (#[trigger] nonces[i]).0 >= 1 && public_nonce_valid(nonces[i].1@)
    &&& forall|i: int, j: int| 0 <= i < j < nonces.len() ==> (#[trigger] nonces[i]).0 != (#[trigger] nonces[j]).0
}

/// `Contributor::gen_keygen_input` for the given receivers (indices as
/// non-zero scalars), with the thread's random number generator, then
/// `bincode::serialize` of the key generation input (the error's text). It
/// gives the encoded input for the coordinator and, in receiver order, each
/// receiver's index and secret input (as scalar bytes); the contributor state
/// is not kept. The encoding is canonical (bincode reads it back to the same
/// input), and a coordinator of the same threshold takes it: it has one
/// commitment per threshold coefficient, and its proof of possession is a
/// signature by the first coefficient's key pair, which the coordinator
/// checks against the even-Y form of the first commitment with the same
/// SHA-256 Schnorr scheme.
#[verifier::external_body]
pub(crate) fn contribute_keygen_input(threshold: u16, receivers: &Vec<u32>, my_index: u32) -> (r: Result<(Vec<u8>, Vec<([u8; 32], [u8; 32])>), String>)
    requires
        threshold >= 1,
        forall|i: int| 0 <= i < receivers@.len() ==> (#[trigger] receivers@[i]) >= 1,
        forall|i: int, j: int| 0 <= i < j < receivers@.len() ==> (#[trigger] receivers@[i]) < (#[trigger] receivers@[j]),
    ensures
        r matches Ok(v) ==> keygen_input_accepted(threshold as nat, v.0@) && keygen_input_canonical(v.0@) == v.0@,
        r matches Ok(v) ==> v.1@.len() == receivers@.len(),
        r matches Ok(v) ==> forall|i: int| 0 <= i < receivers@.len() ==> be_value((#[trigger] v.1@[i]).0@) == receivers@[i] && is_scalar(v.1@[i].1),
{
    let frost = frost::new_with_deterministic_nonces::<Sha256>();
    let receivers: BTreeSet<PartyIndex> = receivers.iter().map(|i| Scalar::<Public, Zero>::from(*i).non_zero().expect("non-zero index")).collect();
    let (_, input, shares) = simplepedpop::Contributor::gen_keygen_input(
        &frost.schnorr, threshold as u32, &receivers, my_index, &mut rand::thread_rng());
    let bytes = bincode::serialize(&input).map_err(|err| err.to_string())?;
    Ok((bytes, shares.into_iter().map(|(index, share)| (index.to_bytes(), share.to_bytes())).collect()))
}

/// `bincode::serialize` of a `Scalar<Secret, Zero>`; the error's text.
#[verifier::external_body]
pub(crate) fn encode_secret_scalar(s: [u8; 32]) -> (r: Result<Vec<u8>, String>)
    ensures
        r matches Ok(b) ==> b@ == secret_scalar_bincode(s@),
{
    bincode::serialize(&Scalar::<Secret, Zero>::from_bytes_mod_order(s)).map_err(|err| err.to_string())
}

/// `bincode::deserialize` of a `Scalar<Secret, Zero>`; the error's text.
#[verifier::external_body]
pub(crate) fn decode_secret_scalar(bytes: &[u8]) -> (r: Result<[u8; 32], String>)
    ensures
        r matches Ok(s) ==> is_scalar(s),
        match secret_scalar_decoded(bytes@) {
            Some(s) => r matches Ok(x) && x@ == s,
            None => r is Err,
        },
{
    bincode::deserialize::<Scalar<Secret, Zero>>(bytes).map(|s| s.to_bytes()).map_err(|err| err.to_string())
}

/// `Coordinator::new(threshold, contributors)`, which asserts a non-zero
/// threshold: it holds no input yet and expects one from each of the
/// contributors `0..contributors`.
#[verifier::external_body]
pub(crate) fn new_coordinator(threshold: u16, contributors: u16) -> (r: Coordinator)
    requires
        threshold >= 1,
    ensures
        coordinator_inputs(r).dom() == Set::<u32>::empty(),
        coordinator_size(r) == contributors,
        coordinator_threshold(r) == threshold,
{
    Coordinator::new(threshold as u32, contributors as u32)
}

/// Why `coordinator_add_input` refused an input.
#[derive(Debug)]
pub enum AddFailure {
    /// bincode could not decode the bytes as a `KeygenInput`; its error text.
    Decode(String),
    /// `Coordinator::add_input` refused the input; its error text.
    Refused(String),
}

/// `bincode::deserialize` of a `KeygenInput`, then `Coordinator::add_input`
/// with a SHA-256 Schnorr verifier. An input is only taken for an expected
/// contributor that has none yet; it is then held in its bincode encoding.
/// A refused input leaves the coordinator as it was.
#[verifier::external_body]
pub(crate) fn coordinator_add_input(coordinator: &mut Coordinator, from: u32, bytes: &[u8]) -> (r: Result<(), AddFailure>)
    ensures
        coordinator_size(*final(coordinator)) == coordinator_size(*old(coordinator)),
        coordinator_threshold(*final(coordinator)) == coordinator_threshold(*old(coordinator)),
        r is Ok == (from < coordinator_size(*old(coordinator)) && !coordinator_inputs(*old(coordinator)).dom().contains(from)
            && keygen_input_accepted(coordinator_threshold(*old(coordinator)), bytes@)),
        r is Ok ==> from < coordinator_size(*old(coordinator)) && !coordinator_inputs(*old(coordinator)).dom().contains(from)
            && coordinator_inputs(*final(coordinator)) == coordinator_inputs(*old(coordinator)).insert(
            from, keygen_input_canonical(bytes@)),
        r is Err ==> coordinator_inputs(*final(coordinator)) == coordinator_inputs(*old(coordinator)),
{
    let input: KeygenInput = bincode::deserialize(bytes).map_err(|err| AddFailure::Decode(err.to_string()))?;
    let frost = frost::new_with_deterministic_nonces::<Sha256>();
    coordinator.add_input(&frost.schnorr, from, input).map_err(|err| AddFailure::Refused(err.to_string()))
}

/// `Coordinator::clone`: the same inputs for the same contributors.
#[verifier::external_body]
pub(crate) fn clone_coordinator(coordinator: &Coordinator) -> (r: Coordinator)
    ensures
        coordinator_inputs(r) == coordinator_inputs(*coordinator),
        coordinator_size(r) == coordinator_size(*coordinator),
        coordinator_threshold(r) == coordinator_threshold(*coordinator),
{
    coordinator.clone()
}

/// `Coordinator::finish`, which yields the aggregated input once every
/// expected contributor has one, then of its `shared_key()`: `non_zero`,
/// `into_xonly`, and the x-only public key with the key's bincode encoding.
#[verifier::external_body]
pub(crate) fn coordinator_finish(coordinator: Coordinator) -> (r: Option<Result<([u8; 32], Vec<u8>), ShareFailure>>)
    ensures
        r is Some <==> forall|i: u32| i < coordinator_size(coordinator) ==> coordinator_inputs(coordinator).dom().contains(i),
        r matches Some(k) ==> match aggregated_shared_key(coordinator_inputs(coordinator)) {
            Some((x, b)) => k matches Ok(v) && v.0@ == x && v.1@ == b,
            None => k is Err,
        },
{
    let agg = coordinator.finish()?;
    Some(match agg.shared_key().non_zero() {
        None => Err(ShareFailure::Zero),
        Some(key) => {
            let key = key.into_xonly();
            bincode::serialize(&key).map(|bytes| (key.public_key().to_xonly_bytes(), bytes)).map_err(|err| ShareFailure::Encoding(err.to_string()))
        },
    })
}

/// `Coordinator::finish`, then `simplepedpop::receive_share` of the secret
/// share `(index, share)` against the aggregate, then `non_zero`,
/// `into_xonly` and `bincode::serialize` of the paired share.
#[verifier::external_body]
pub(crate) fn coordinator_receive_share(coordinator: Coordinator, index: u16, share: [u8; 32]) -> (r: Result<Vec<u8>, ShareFailure>)
    requires
        index >= 1,
    ensures
        match paired_share_of(coordinator_inputs(coordinator), coordinator_size(coordinator),
            coordinator_threshold(coordinator), index, share@) {
            Some(b) => r matches Ok(x) && x@ == b,
            None => r is Err,
        },
{
    let agg = coordinator.finish().ok_or(ShareFailure::Incomplete)?;
    let frost = frost::new_with_deterministic_nonces::<Sha256>();
    let index = Scalar::<Secret, Zero>::from(index as u32).public().non_zero().expect("index is non-zero");
    match simplepedpop::receive_share(&frost.schnorr, &agg, SecretShare { index, share: Scalar::from_bytes_mod_order(share) }) {
        Err(err) => Err(ShareFailure::Rejected(format!("{err:?}"))),
        Ok(paired) => match paired.non_zero() {
            None => Err(ShareFailure::Zero),
            Some(paired) => bincode::serialize(&paired.into_xonly()).map_err(|err| ShareFailure::Encoding(err.to_string())),
        },
    }
}

/// `bincode::deserialize` of a `PairedSecretShare<EvenY>`, keeping only
/// whether it succeeded; the error's text.
#[verifier::external_body]
pub(crate) fn check_paired_share(bytes: &[u8]) -> (r: Result<(), String>)
    ensures
        r is Ok == paired_share_decodes(bytes@),
{
    bincode::deserialize::<PairedSecretShare<EvenY>>(bytes).map(|_| ()).map_err(|err| err.to_string())
}

/// The index and x-only public key of a decodable paired share.
#[verifier::external_body]
pub(crate) fn paired_share_parts(bytes: &[u8]) -> (r: ([u8; 32], [u8; 32]))
    requires
        paired_share_decodes(bytes@),
    ensures
        r.0@ == paired_share_index(bytes@),
        r.1@ == paired_share_xonly(bytes@),
{
    let share: PairedSecretShare<EvenY> = bincode::deserialize(bytes).expect("decodable share");
    (share.index().to_bytes(), share.public_key().to_xonly_bytes())
}

/// Bytes that bincode reads as an empty list: a zero length in the first 8.
pub open spec fn bincode_empty_list(b: Seq<u8>) -> bool {
    b.len() >= 8 && forall|i: int| 0 <= i < 8 ==> b[i] == 0
}

/// `bincode::deserialize` of a `SharedKey<EvenY>`: its threshold and x-only
/// public key; the error's text. Deserializing indexes the first point of the
/// decoded list, so an empty list is left out.
#[verifier::external_body]
pub(crate) fn decode_shared_key(bytes: &[u8]) -> (r: Result<(usize, [u8; 32]), String>)
    requires
        !bincode_empty_list(bytes@),
    ensures
        r is Ok == shared_key_decodes(bytes@),
        r matches Ok(v) ==> v.0 == shared_key_threshold(bytes@) && v.1@ == shared_key_xonly(bytes@),
{
    bincode::deserialize::<SharedKey<EvenY>>(bytes)
        .map(|key| (key.threshold(), key.public_key().to_xonly_bytes())).map_err(|err| err.to_string())
}

/// The bincode encoding of the public half of the `binonce::SecretNonce`
/// whose 64 bytes are given (`SecretNonce::public`).
pub uninterp spec fn public_of_secret_nonce(secret: Seq<u8>) -> Seq<u8>;

/// `seed_nonce_rng` (with synthetic nonces from the thread's generator) for
/// the decodable paired share and the session bytes, then `gen_nonce`: the
/// secret nonce's bytes and the bincode encoding of its public half.
#[verifier::external_body]
pub(crate) fn signing_nonce(share_bytes: &[u8], session: &[u8]) -> (r: Result<([u8; 64], Vec<u8>), String>)
    requires
        paired_share_decodes(share_bytes@),
    ensures
        r matches Ok(v) ==> secret_nonce_valid(v.0@),
        r matches Ok(v) ==> v.1@ == public_of_secret_nonce(v.0@),
{
    let share: PairedSecretShare<EvenY> = bincode::deserialize(share_bytes).expect("decodable share");
    let frost = frost::new_with_synthetic_nonces::<Sha256, rand::rngs::ThreadRng>();
    let mut rng: rand_chacha::ChaCha20Rng = frost.seed_nonce_rng(share, session);
    let nonce = frost.gen_nonce(&mut rng);
    let public = bincode::serialize(&nonce.public()).map_err(|err| err.to_string())?;
    Ok((nonce.secret().to_bytes(), public))
}

/// `bincode::deserialize` of a public `binonce::Nonce`, as its 66 bytes.
#[verifier::external_body]
pub(crate) fn decode_public_nonce(bytes: &[u8]) -> (r: Result<[u8; 66], String>)
    ensures
        r matches Ok(n) ==> public_nonce_valid(n@),
        match public_nonce_decoded(bytes@) {
            Some(n) => r matches Ok(x) && x@ == n,
            None => r is Err,
        },
{
    bincode::deserialize::<Nonce>(bytes).map(|n| n.to_bytes()).map_err(|err| err.to_string())
}

/// `bincode::deserialize` of a `Scalar<Public, Zero>` signature share.
#[verifier::external_body]
pub(crate) fn decode_signature_share(bytes: &[u8]) -> (r: Result<[u8; 32], String>)
    ensures
        r matches Ok(s) ==> is_scalar(s),
        match signature_share_decoded(bytes@) {
            Some(s) => r matches Ok(x) && x@ == s,
            None => r is Err,
        },
{
    bincode::deserialize::<Scalar<Public, Zero>>(bytes).map(|s| s.to_bytes()).map_err(|err| err.to_string())
}

/// The signature share of a paired share: `coordinator_sign_session` over
/// the shared key, nonces and digest, `party_sign_session` on its parties and
/// aggregate binonce, `sign` with the secret nonce, and bincode of the share.
/// The requirements rule out the panics of `coordinator_sign_session` (fewer
/// nonces than the threshold) and of `sign` (another key, or a share whose
/// index is not among the parties).
#[verifier::external_body]
pub(crate) fn frost_sign_share(
    key_bytes: &[u8],
    share_bytes: &[u8],
    nonces: &Vec<(u32, [u8; 66])>,
    digest: [u8; 32],
    secret_nonce: [u8; 64],
) -> (r: Result<Vec<u8>, String>)
    requires
        shared_key_decodes(key_bytes@),
        paired_share_decodes(share_bytes@),
        nonce_list_ok(nonces@),
        nonces@.len() >= shared_key_threshold(key_bytes@),
        paired_share_xonly(share_bytes@) == shared_key_xonly(key_bytes@),
        exists|k: int| 0 <= k < nonces@.len() && be_bytes(nonces@[k].0 as nat, 32) == paired_share_index(share_bytes@),
        secret_nonce_valid(secret_nonce@),
    ensures
        match frost_signature_share(key_bytes@, share_bytes@, nonce_pairs(nonces@), digest@, secret_nonce@) {
            Some(b) => r matches Ok(x) && x@ == b,
            None => r is Err,
        },
{
    let key: SharedKey<EvenY> = bincode::deserialize(key_bytes).expect("decodable key");
    let share: PairedSecretShare<EvenY> = bincode::deserialize(share_bytes).expect("decodable share");
    let map = nonces.iter().map(|(p, n)| (Scalar::from(*p).non_zero().expect("non-zero"), Nonce::from_bytes(*n).expect("valid nonce"))).collect();
    let frost = frost::new_with_deterministic_nonces::<Sha256>();
    let message = Message::raw(&digest);
    let coordinator = frost.coordinator_sign_session(&key, map, message);
    let session = frost.party_sign_session(key.public_key(), coordinator.parties(), coordinator.agg_binonce(), message);
    bincode::serialize(&session.sign(&share, SecretNonce::from_bytes(secret_nonce).expect("valid secret nonce"))).map_err(|err| err.to_string())
}


/// `coordinator_sign_session` over the shared key, nonces and digest, then
/// `verify_and_combine_signature_shares` (its error's debug text) and the
/// signature's 64 bytes, a function of its arguments (`R` then `s`, as bincode also lays them out). The
/// shares are required to come one from each nonce party, in the nonces'
/// order: each is then checked against its party's verification share, and
/// their sum is, as schnorr_fun documents for verified shares of every
/// party of the session, a signature that verifies under the shared key.
#[verifier::external_body]
pub(crate) fn frost_combine(
    key_bytes: &[u8],
    nonces: &Vec<(u32, [u8; 66])>,
    digest: [u8; 32],
    shares: &Vec<(u32, [u8; 32])>,
) -> (r: Result<[u8; 64], String>)
    requires
        shared_key_decodes(key_bytes@),
        nonce_list_ok(nonces@),
        nonces@.len() >= shared_key_threshold(key_bytes@),
        forall|i: int| 0 <= i < shares@.len() ==> (#[trigger] shares@[i]).0 >= 1 && is_scalar(shares@[i].1),
        shares@.len() == nonces@.len(),
        forall|i: int| 0 <= i < shares@.len() ==> (#[trigger] shares@[i]).0 == nonces@[i].0,
    ensures
        match combined_signature(key_bytes@, nonce_pairs(nonces@), digest@, share_pairs(shares@)) {
            Some(s) => r matches Ok(sig) && sig@ == s,
            None => r is Err,
        },
        r matches Ok(sig) ==> bip340_verifies(shared_key_xonly(key_bytes@), digest@, sig@),
{
    let key: SharedKey<EvenY> = bincode::deserialize(key_bytes).expect("decodable key");
    let map = nonces.iter().map(|(p, n)| (Scalar::from(*p).non_zero().expect("non-zero"), Nonce::from_bytes(*n).expect("valid nonce"))).collect();
    let frost = frost::new_with_deterministic_nonces::<Sha256>();
    let coordinator = frost.coordinator_sign_session(&key, map, Message::raw(&digest));
    let shares = shares.iter().map(|(p, s)| (Scalar::from(*p).non_zero().expect("non-zero"), Scalar::from_bytes_mod_order(*s))).collect();
    let signature = coordinator.verify_and_combine_signature_shares(&key, shares).map_err(|err| format!("{err:?}"))?;
    Ok(signature.to_bytes())
}

} // verus!
