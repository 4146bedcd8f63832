//! Points of secp256k1 in their 33-byte compressed encoding (33 zero bytes
//! for the point at infinity), BIP-340 Schnorr signatures, and random scalars.
//! The group operations themselves come from secp256kfun and schnorr_fun.
use vstd::prelude::*;
use crate::scalar::{be_bytes, group_order, is_scalar, sv};
use schnorr_fun::{Message, Schnorr, Signature};
use secp256kfun::marker::{EvenY, Normal, NonZero, Public, Secret, Zero};
use secp256kfun::{op, Point, Scalar, G};
use sha2::Sha256;

verus! {

/// The encoding of the point at infinity.
pub open spec fn zero_point() -> Seq<u8> {
    Seq::new(33, |i: int| 0u8)
}

/// `b` encodes a point: the point at infinity or a valid curve point.
pub open spec fn point_or_zero(b: Seq<u8>) -> bool {
    b == zero_point() || valid_point(b)
}

/// Whether `Point::<Normal, Public, NonZero>::from_bytes` accepts `b`.
pub uninterp spec fn valid_point(b: Seq<u8>) -> bool;

/// Whether `Point::<EvenY, Public>::from_xonly_bytes` accepts `b`.
pub uninterp spec fn valid_xonly(b: Seq<u8>) -> bool;

/// The encoding of `k·G`.
pub uninterp spec fn base_point_mul(k: Seq<u8>) -> Seq<u8>;

/// `v·G` for an integer `v`: the encoding of the base-point multiple of `v`
/// reduced modulo the group order, the point at infinity for a multiple of
/// the order.
pub open spec fn gmul(v: int) -> Seq<u8> {
    let r = v % (group_order() as int);
    if r == 0 {
        zero_point()
    } else {
        base_point_mul(be_bytes(r as nat, 32))
    }
}

/// `x·G` is a point with even y whose x coordinate is `p_x`: `x` is the
/// secret of the x-only key `p_x`.
pub open spec fn key_point(x: int, p_x: Seq<u8>) -> bool {
    &&& x % (group_order() as int) != 0
    &&& gmul(x)[0] == 2
    &&& gmul(x).subrange(1, 33) == p_x
}

/// A canonical scalar's base-point multiple is the one its bytes name.
pub proof fn lemma_gmul_scalar(k: [u8; 32])
    requires
        is_scalar(k),
        sv(k) != 0,
    ensures
        gmul(sv(k) as int) == base_point_mul(k@),
{
    vstd::arithmetic::div_mod::lemma_small_mod(sv(k), group_order());
    crate::scalar::lemma_scalar_bytes(k);
}

/// The encoding of `acc + k·p`.
pub uninterp spec fn scaled_sum(acc: Seq<u8>, k: Seq<u8>, p: Seq<u8>) -> Seq<u8>;

/// The encoding of `a + b`.
pub uninterp spec fn point_sum(a: Seq<u8>, b: Seq<u8>) -> Seq<u8>;

/// The BIP-340 challenge `H(R || P || m)` as a scalar.
pub uninterp spec fn bip340_challenge(r_x: Seq<u8>, p_x: Seq<u8>, digest: Seq<u8>) -> Seq<u8>;

/// Whether the 64-byte signature verifies under the x-only key for the digest.
pub uninterp spec fn bip340_verifies(p_x: Seq<u8>, digest: Seq<u8>, sig: Seq<u8>) -> bool;

/// The x-only public key of the even-Y key pair made from a secret.
pub uninterp spec fn xonly_of_secret(secret: Seq<u8>) -> Seq<u8>;

/// The deterministic-nonce BIP-340 signature of a digest under a secret.
pub uninterp spec fn bip340_signature(secret: Seq<u8>, digest: Seq<u8>) -> Seq<u8>;

/// `Point::<Normal, Public, NonZero>::from_bytes(bytes).is_some()`. A valid
/// compressed encoding starts with 2 (even y) or 3 (odd y).
#[verifier::external_body]
pub(crate) fn point_is_valid(bytes: [u8; 33]) -> (r: bool)
    ensures
        r == valid_point(bytes@),
        r ==> (bytes@[0] == 2 || bytes@[0] == 3),
{
    Point::<Normal, Public, NonZero>::from_bytes(bytes).is_some()
}

/// `Point::<EvenY, Public>::from_xonly_bytes(bytes).is_some()`.
#[verifier::external_body]
pub(crate) fn xonly_is_valid(bytes: [u8; 32]) -> (r: bool)
    ensures
        r == valid_xonly(bytes@),
{
    Point::<EvenY, Public>::from_xonly_bytes(bytes).is_some()
}

/// `op::scalar_mul_point(k, G)`, normalized and encoded. The point is at
/// infinity exactly for the zero scalar (G has the group order as its order).
#[verifier::external_body]
pub(crate) fn base_mul(k: [u8; 32]) -> (r: [u8; 33])
    requires
        is_scalar(k),
    ensures
        r@ == base_point_mul(k@),
        (sv(k) == 0) == (r@ == zero_point()),
        sv(k) != 0 ==> valid_point(r@),
{
    let s = Scalar::<Public, Zero>::from_bytes_mod_order(k);
    op::scalar_mul_point(s, G).normalize().to_bytes()
}

/// `op::point_add(acc, op::scalar_mul_point(k, p))`, normalized and encoded.
/// The arguments are decoded with `from_bytes`, which the requirements make
/// succeed. Being the group operations of secp256k1, whose base point has
/// the group order as its order, it maps base-point multiples to base-point
/// multiples: `x·G + k·(y·G) = (x + k·y)·G`.
#[verifier::external_body]
pub(crate) fn add_scaled_point(acc: [u8; 33], k: [u8; 32], p: [u8; 33]) -> (r: [u8; 33])
    requires
        point_or_zero(acc@),
        valid_point(p@),
        is_scalar(k),
    ensures
        r@ == scaled_sum(acc@, k@, p@),
        point_or_zero(r@),
        forall|x: int, y: int| #![trigger gmul(x), gmul(y)] acc@ == gmul(x) && p@ == gmul(y) ==> r@ == gmul(x + sv(k) * y),
{
    let a = Point::<Normal, Public, Zero>::from_bytes(acc).expect("accumulator is a point");
    let q = Point::<Normal, Public, NonZero>::from_bytes(p).expect("valid point");
    let s = Scalar::<Public, Zero>::from_bytes_mod_order(k);
    op::point_add(a, op::scalar_mul_point(s, q)).normalize().to_bytes()
}

/// `op::point_add(a, b)`, normalized and encoded. The arguments are decoded
/// with `from_bytes`, which the requirements make succeed. Being the
/// addition of secp256k1, whose base point has the group order as its order,
/// it adds base-point multiples: `x·G + y·G = (x + y)·G`.
#[verifier::external_body]
pub(crate) fn add_points(a: [u8; 33], b: [u8; 33]) -> (r: [u8; 33])
    requires
        point_or_zero(a@),
        valid_point(b@),
    ensures
        r@ == point_sum(a@, b@),
        point_or_zero(r@),
        forall|x: int, y: int| #![trigger gmul(x), gmul(y)] a@ == gmul(x) && b@ == gmul(y) ==> r@ == gmul(x + y),
{
    let x = Point::<Normal, Public, Zero>::from_bytes(a).expect("accumulator is a point");
    let y = Point::<Normal, Public, NonZero>::from_bytes(b).expect("valid point");
    op::point_add(x, y).normalize().to_bytes()
}

/// `into_point_with_even_y` then `to_xonly_bytes`: the x coordinate (the last
/// 32 bytes of the compressed encoding), and whether y was odd (prefix 3), so
/// that the point had to be negated. The point kept is `v·G` for a point
/// `p = v·G`, or `(-v)·G` when it was negated: an even-y point whose x
/// coordinate is the one returned.
#[verifier::external_body]
pub(crate) fn even_y_xonly(p: [u8; 33]) -> (r: ([u8; 32], bool))
    requires
        valid_point(p@),
    ensures
        r.0@ == p@.subrange(1, 33),
        r.1 == (p@[0] == 3),
        valid_xonly(r.0@),
        forall|v: int| #[trigger] gmul(v) == p@ ==> key_point(if r.1 { -v } else { v }, r.0@),
{
    let point = Point::<Normal, Public, NonZero>::from_bytes(p).expect("valid point");
    let (even, negated) = point.into_point_with_even_y();
    (even.to_xonly_bytes(), negated)
}

/// `Schnorr::<Sha256>::challenge(R, P, Message::raw(digest))` of schnorr_fun.
#[verifier::external_body]
pub(crate) fn challenge(r_x: [u8; 32], p_x: [u8; 32], digest: [u8; 32]) -> (r: [u8; 32])
    requires
        valid_xonly(r_x@),
        valid_xonly(p_x@),
    ensures
        is_scalar(r),
        r@ == bip340_challenge(r_x@, p_x@, digest@),
{
    let schnorr = Schnorr::<Sha256>::verify_only();
    let big_r = Point::<EvenY, Public>::from_xonly_bytes(r_x).expect("valid x-only nonce");
    let big_p = Point::<EvenY, Public>::from_xonly_bytes(p_x).expect("valid x-only key");
    schnorr.challenge(&big_r, &big_p, Message::<Public>::raw(&digest)).to_bytes()
}

/// `Signature { R, s }.to_bytes()`: the nonce x coordinate then the scalar.
#[verifier::external_body]
pub(crate) fn signature_encoding(r_x: [u8; 32], s: [u8; 32]) -> (r: [u8; 64])
    requires
        valid_xonly(r_x@),
        is_scalar(s),
    ensures
        r@ == r_x@ + s@,
{
    let big_r = Point::<EvenY, Public>::from_xonly_bytes(r_x).expect("valid x-only nonce");
    let scalar = Scalar::<Public, Zero>::from_bytes_mod_order(s);
    Signature::<Public> { R: big_r, s: scalar }.to_bytes()
}

/// `Schnorr::<Sha256>::verify` of schnorr_fun on the signature `(R, s)`,
/// which checks BIP-340's equation `s·G = R + e·P` for the even-Y points `R`
/// and `P` of the x-only keys and `e` the challenge of `R`, `P` and the
/// digest. So it accepts when `P = x·G` with even y and `s = k' + e·x`,
/// where `R` is the x coordinate of `k·G` and `k'` is `k`, or `-k` when
/// `k·G` has odd y.
#[verifier::external_body]
pub(crate) fn schnorr_verify(p_x: [u8; 32], digest: [u8; 32], r_x: [u8; 32], s: [u8; 32]) -> (r: bool)
    requires
        valid_xonly(p_x@),
        valid_xonly(r_x@),
        is_scalar(s),
    ensures
        r == bip340_verifies(p_x@, digest@, r_x@ + s@),
        forall|x: int, k: int| #![trigger key_point(x, p_x@), gmul(k)]
            key_point(x, p_x@) && k % (group_order() as int) != 0 && gmul(k).subrange(1, 33) == r_x@
            && sv(s) == ((if gmul(k)[0] == 3 { -k } else { k }) + crate::scalar::be_value(
            bip340_challenge(r_x@, p_x@, digest@)) * x) % (group_order() as int) ==> r,
{
    let schnorr = Schnorr::<Sha256>::verify_only();
    let big_p = Point::<EvenY, Public>::from_xonly_bytes(p_x).expect("valid x-only key");
    let big_r = Point::<EvenY, Public>::from_xonly_bytes(r_x).expect("valid x-only nonce");
    let scalar = Scalar::<Public, Zero>::from_bytes_mod_order(s);
    let signature = Signature::<Public> { R: big_r, s: scalar };
    schnorr.verify(&big_p, Message::<Public>::raw(&digest), &signature)
}

/// `new_keypair(secret).public_key().to_xonly_bytes()` of schnorr_fun.
#[verifier::external_body]
pub(crate) fn keypair_xonly(secret: [u8; 32]) -> (r: [u8; 32])
    requires
        is_scalar(secret),
        sv(secret) != 0,
    ensures
        r@ == xonly_of_secret(secret@),
{
    let schnorr = schnorr_fun::new_with_deterministic_nonces::<Sha256>();
    let s = Scalar::<Secret, Zero>::from_bytes_mod_order(secret).non_zero().expect("non-zero secret");
    schnorr.new_keypair(s).public_key().to_xonly_bytes()
}

/// `new_keypair(secret)` of schnorr_fun: the even-Y secret (the secret or its
/// negation) and its x-only public key, which is that of the original secret;
/// the even-Y secret's point has even y (prefix 2) and that x coordinate.
#[verifier::external_body]
pub(crate) fn even_y_keypair(secret: [u8; 32]) -> (r: ([u8; 32], [u8; 32]))
    requires
        is_scalar(secret),
        sv(secret) != 0,
    ensures
        is_scalar(r.0),
        sv(r.0) != 0,
        sv(r.0) == sv(secret) || sv(r.0) == group_order() - sv(secret),
        r.1@ == xonly_of_secret(secret@),
        xonly_of_secret(r.0@) == r.1@,
        base_point_mul(r.0@)[0] == 2,
        base_point_mul(r.0@).subrange(1, 33) == r.1@,
{
    let schnorr = schnorr_fun::new_with_deterministic_nonces::<Sha256>();
    let s = Scalar::<Secret, Zero>::from_bytes_mod_order(secret).non_zero().expect("non-zero secret");
    let keypair = schnorr.new_keypair(s);
    (keypair.secret_key().to_bytes(), keypair.public_key().to_xonly_bytes())
}

/// `Schnorr::<Sha256>::sign` with deterministic nonces of schnorr_fun, encoded
/// with `to_bytes`. A signature made this way verifies under the key pair's
/// x-only public key.
#[verifier::external_body]
pub(crate) fn schnorr_sign(secret: [u8; 32], digest: [u8; 32]) -> (r: [u8; 64])
    requires
        is_scalar(secret),
        sv(secret) != 0,
    ensures
        r@ == bip340_signature(secret@, digest@),
        bip340_verifies(xonly_of_secret(secret@), digest@, r@),
{
    let schnorr = schnorr_fun::new_with_deterministic_nonces::<Sha256>();
    let s = Scalar::<Secret, Zero>::from_bytes_mod_order(secret).non_zero().expect("non-zero secret");
    let keypair = schnorr.new_keypair(s);
    schnorr.sign(&keypair, Message::<Public>::raw(&digest)).to_bytes()
}

/// `Scalar::<Secret, NonZero>::random(&mut rand::thread_rng())`: some non-zero scalar.
#[verifier::external_body]
pub(crate) fn random_nonzero_scalar() -> (r: [u8; 32])
    ensures
        is_scalar(r),
        sv(r) != 0,
{
    Scalar::<Secret, NonZero>::random(&mut rand::thread_rng()).to_bytes()
}

} // verus!
