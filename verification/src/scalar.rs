//! Arithmetic modulo the secp256k1 group order on 32-byte big-endian scalars,
//! and the derivative basis that Birkhoff interpolation is built on.
use vstd::prelude::*;
use vstd::arithmetic::power::pow;
use vstd::arithmetic::div_mod::{lemma_mul_mod_noop_left, lemma_mul_mod_noop, lemma_add_mod_noop};
use secp256kfun::marker::{Public, Secret, Zero};
use secp256kfun::{op, Scalar};

verus! {

/// The integer that big-endian bytes denote.
pub open spec fn be_value(b: Seq<u8>) -> nat
    decreases b.len(),
{
    if b.len() == 0 {
        0
    } else {
        be_value(b.drop_last()) * 256 + b.last() as nat
    }
}

/// The order of the secp256k1 group.
pub open spec fn group_order() -> nat {
    0xFFFFFFFFFFFFFFFFFFFFFFFFFFFFFFFEBAAEDCE6AF48A03BBFD25E8CD0364141nat
}

/// The integer a scalar's bytes denote.
pub open spec fn sv(s: [u8; 32]) -> nat {
    be_value(s@)
}

/// A canonical scalar: its integer is below the group order.
pub open spec fn is_scalar(s: [u8; 32]) -> bool {
    sv(s) < group_order()
}

/// The integers of a list of scalars.
pub open spec fn scalar_values(s: Seq<[u8; 32]>) -> Seq<nat> {
    s.map_values(|x: [u8; 32]| sv(x))
}

/// Every entry is canonical.
pub open spec fn all_scalars(s: Seq<[u8; 32]>) -> bool {
    forall|i: int| 0 <= i < s.len() ==> is_scalar(#[trigger] s[i])
}

/// `Scalar::<Secret, Zero>::from(u32)` of secp256kfun: the scalar whose integer is `value`.
#[verifier::external_body]
pub fn scalar_from_u32(value: u32) -> (r: [u8; 32])
    ensures
        sv(r) == value,
        is_scalar(r),
{
    Scalar::<Secret, Zero>::from(value).public().to_bytes()
}

/// `op::scalar_add` of secp256kfun: the sum modulo the group order.
#[verifier::external_body]
pub fn scalar_add(left: [u8; 32], right: [u8; 32]) -> (r: [u8; 32])
    requires
        is_scalar(left),
        is_scalar(right),
    ensures
        sv(r) == (sv(left) + sv(right)) % group_order(),
{
    let a = Scalar::<Public, Zero>::from_bytes_mod_order(left);
    let b = Scalar::<Public, Zero>::from_bytes_mod_order(right);
    op::scalar_add(a, b).public().to_bytes()
}

/// `op::scalar_sub` of secp256kfun: the difference modulo the group order.
#[verifier::external_body]
pub(crate) fn scalar_sub(left: [u8; 32], right: [u8; 32]) -> (r: [u8; 32])
    requires
        is_scalar(left),
        is_scalar(right),
    ensures
        sv(r) == (sv(left) - sv(right)) % (group_order() as int),
{
    let a = Scalar::<Public, Zero>::from_bytes_mod_order(left);
    let b = Scalar::<Public, Zero>::from_bytes_mod_order(right);
    op::scalar_sub(a, b).public().to_bytes()
}

/// `op::scalar_mul` of secp256kfun: the product modulo the group order.
#[verifier::external_body]
pub fn scalar_mul(left: [u8; 32], right: [u8; 32]) -> (r: [u8; 32])
    requires
        is_scalar(left),
        is_scalar(right),
    ensures
        sv(r) == (sv(left) * sv(right)) % group_order(),
{
    let a = Scalar::<Public, Zero>::from_bytes_mod_order(left);
    let b = Scalar::<Public, Zero>::from_bytes_mod_order(right);
    op::scalar_mul(a, b).public().to_bytes()
}

/// `non_zero` then `invert` of secp256kfun: nothing for zero, else the
/// multiplicative inverse modulo the (prime) group order.
#[verifier::external_body]
pub(crate) fn scalar_invert(value: [u8; 32]) -> (r: Option<[u8; 32]>)
    requires
        is_scalar(value),
    ensures
        r is None <==> sv(value) == 0,
        r matches Some(inv) ==> is_scalar(inv) && (sv(value) * sv(inv)) % group_order() == 1,
{
    match Scalar::<Public, Zero>::from_bytes_mod_order(value).non_zero() {
        Some(s) => Some(s.invert().to_bytes()),
        None => None,
    }
}

/// `Scalar::<Public, Zero>::from_bytes` of secp256kfun: the bytes themselves
/// when they denote an integer below the group order, else nothing.
#[verifier::external_body]
pub(crate) fn scalar_from_bytes(bytes: [u8; 32]) -> (r: Option<[u8; 32]>)
    ensures
        r is Some <==> is_scalar(bytes),
        r matches Some(s) ==> s == bytes,
{
    match Scalar::<Public, Zero>::from_bytes(bytes) {
        Some(s) => Some(s.to_bytes()),
        None => None,
    }
}

/// Tests a scalar for zero.
pub fn scalar_is_zero(value: &[u8; 32]) -> (r: bool)
    ensures
        r == (sv(*value) == 0),
{
    let mut i: usize = 0;
    while i < 32
        invariant
            i <= 32,
            be_value(value@.take(i as int)) == 0,
        decreases 32 - i,
    {
        assert(value@.take(i + 1).drop_last() =~= value@.take(i as int));
        if value[i] != 0 {
            proof {
                lemma_be_value_prefix_positive(value@, i + 1);
            }
            return false;
        }
        i += 1;
    }
    assert(value@.take(32) =~= value@);
    true
}

proof fn lemma_be_value_prefix_positive(b: Seq<u8>, k: int)
    requires
        0 < k <= b.len(),
        be_value(b.take(k)) > 0,
    ensures
        be_value(b) > 0,
    decreases b.len(),
{
    if b.len() > k {
        assert(b.drop_last().take(k) =~= b.take(k));
        lemma_be_value_prefix_positive(b.drop_last(), k);
    } else {
        assert(b.take(k) =~= b);
    }
}

/// The zero scalar.
pub fn scalar_zero() -> (r: [u8; 32])
    ensures
        sv(r) == 0,
        is_scalar(r),
{
    scalar_from_u32(0)
}

/// The scalar one.
pub fn scalar_one() -> (r: [u8; 32])
    ensures
        sv(r) == 1,
        is_scalar(r),
{
    scalar_from_u32(1)
}

/// `base` to the power `exponent`, modulo the group order.
pub fn scalar_pow(base: [u8; 32], exponent: u16) -> (r: [u8; 32])
    requires
        is_scalar(base),
    ensures
        is_scalar(r),
        sv(r) == pow(sv(base) as int, exponent as nat) % (group_order() as int),
{
    let mut value = scalar_one();
    let mut i: u16 = 0;
    proof {
        vstd::arithmetic::power::lemma_pow0(sv(base) as int);
    }
    while i < exponent
        invariant
            i <= exponent,
            is_scalar(base),
            is_scalar(value),
            sv(value) == pow(sv(base) as int, i as nat) % (group_order() as int),
        decreases exponent - i,
    {
        let next = scalar_mul(value, base);
        proof {
            let p = pow(sv(base) as int, i as nat);
            vstd::arithmetic::power::lemma_pow_adds(sv(base) as int, i as nat, 1);
            vstd::arithmetic::power::lemma_pow1(sv(base) as int);
            lemma_mul_mod_noop_left(p, sv(base) as int, group_order() as int);
        }
        value = next;
        i += 1;
    }
    value
}

/// The product `lo * (lo + 1) * ... * hi` (one when the range is empty).
pub open spec fn range_product(lo: nat, hi: nat) -> nat
    decreases hi,
{
    if hi < lo || hi == 0 {
        1
    } else {
        range_product(lo, (hi - 1) as nat) * hi
    }
}

proof fn lemma_range_product_step(lo: nat, hi: nat)
    requires
        1 <= lo <= hi,
    ensures
        range_product(lo, hi) == range_product(lo, (hi - 1) as nat) * hi,
{
}

/// The `order`-th derivative of `X^degree`, evaluated at `x`, modulo the group
/// order: `degree!/(degree-order)! * x^(degree-order)`, or zero when the
/// order exceeds the degree.
pub open spec fn basis_value(degree: nat, order: nat, x: nat) -> nat {
    if order > degree {
        0
    } else {
        ((range_product((degree - order + 1) as nat, degree) * pow(x as int, (degree - order) as nat))
            % (group_order() as int)) as nat
    }
}

proof fn lemma_pow_nonneg(x: nat, e: nat)
    ensures
        pow(x as int, e) >= 0,
    decreases e,
{
    reveal(pow);
    if e > 0 {
        lemma_pow_nonneg(x, (e - 1) as nat);
        vstd::arithmetic::mul::lemma_mul_nonnegative(x as int, pow(x as int, (e - 1) as nat));
    }
}

/// The scalar of `basis_value(degree, order, x)`.
pub fn derivative_basis_scalar(degree: u16, derivative_order: u16, x: u16) -> (r: Result<
    [u8; 32],
    crate::types::DkgKitError,
>)
    ensures
        r matches Ok(s) && is_scalar(s) && sv(s) == basis_value(
            degree as nat,
            derivative_order as nat,
            x as nat,
        ),
{
    if derivative_order > degree {
        return Ok(scalar_zero());
    }
    let lo: u32 = (degree - derivative_order) as u32 + 1;
    let mut coefficient = scalar_one();
    let mut factor: u32 = lo;
    while factor <= degree as u32
        invariant
            derivative_order <= degree,
            lo == degree - derivative_order + 1,
            lo <= factor <= degree as u32 + 1,
            is_scalar(coefficient),
            sv(coefficient) == range_product(lo as nat, (factor - 1) as nat) % group_order(),
        decreases degree as u32 + 1 - factor,
    {
        let f = scalar_from_u32(factor);
        let next = scalar_mul(coefficient, f);
        proof {
            lemma_range_product_step(lo as nat, factor as nat);
            lemma_mul_mod_noop_left(
                range_product(lo as nat, (factor - 1) as nat) as int,
                factor as int,
                group_order() as int,
            );
        }
        coefficient = next;
        factor += 1;
    }
    let power = scalar_pow(scalar_from_u32(x as u32), degree - derivative_order);
    let r = scalar_mul(coefficient, power);
    proof {
        let rp = range_product(lo as nat, degree as nat);
        let pw = pow(x as int, (degree - derivative_order) as nat);
        lemma_pow_nonneg(x as nat, (degree - derivative_order) as nat);
        lemma_mul_mod_noop(rp as int, pw, group_order() as int);
    }
    Ok(r)
}

/// `sum_d a[d] * basis_value(d, order, x)` over the first `k` coefficients.
pub open spec fn derivative_sum(a: Seq<nat>, order: nat, x: nat, k: int) -> int
    decreases k,
{
    if k <= 0 {
        0
    } else {
        derivative_sum(a, order, x, k - 1) + a[k - 1] * basis_value((k - 1) as nat, order, x)
    }
}

/// The `order`-th derivative of the polynomial with coefficients `a`
/// (constant term first), evaluated at `x`, modulo the group order.
pub open spec fn derivative_value(a: Seq<nat>, order: nat, x: nat) -> nat {
    (derivative_sum(a, order, x, a.len() as int) % (group_order() as int)) as nat
}

pub proof fn lemma_derivative_sum_nonneg(a: Seq<nat>, order: nat, x: nat, k: int)
    ensures
        derivative_sum(a, order, x, k) >= 0,
    decreases k,
{
    if k > 0 {
        lemma_derivative_sum_nonneg(a, order, x, k - 1);
        vstd::arithmetic::mul::lemma_mul_nonnegative(
            a[k - 1] as int,
            basis_value((k - 1) as nat, order, x) as int,
        );
    }
}

/// The scalar of `derivative_value(coefficients, derivative_order, x)`.
pub fn polynomial_derivative_value(coefficients: &Vec<[u8; 32]>, x: u16, derivative_order: u16) -> (r: [u8; 32])
    requires
        all_scalars(coefficients@),
        coefficients@.len() <= 65536,
    ensures
        is_scalar(r),
        sv(r) == derivative_value(scalar_values(coefficients@), derivative_order as nat, x as nat),
{
    let ghost a = scalar_values(coefficients@);
    let mut value = scalar_zero();
    let mut degree: usize = 0;
    while degree < coefficients.len()
        invariant
            a == scalar_values(coefficients@),
            all_scalars(coefficients@),
            coefficients@.len() <= 65536,
            degree <= coefficients@.len(),
            is_scalar(value),
            sv(value) == derivative_sum(a, derivative_order as nat, x as nat, degree as int) % (
            group_order() as int),
        decreases coefficients@.len() - degree,
    {
        let basis = match derivative_basis_scalar(degree as u16, derivative_order, x) {
            Ok(b) => b,
            Err(_) => scalar_zero(),
        };
        assert(is_scalar(coefficients@[degree as int]));
        let term = scalar_mul(coefficients[degree], basis);
        let next = scalar_add(value, term);
        proof {
            let s = derivative_sum(a, derivative_order as nat, x as nat, degree as int);
            let t = a[degree as int] * basis_value(degree as nat, derivative_order as nat, x as nat);
            lemma_derivative_sum_nonneg(a, derivative_order as nat, x as nat, degree as int);
            lemma_add_mod_noop(s, t as int, group_order() as int);
        }
        value = next;
        degree += 1;
    }
    value
}


/// The `len`-byte big-endian encoding of `v` (`v` reduced to `len` bytes).
pub open spec fn be_bytes(v: nat, len: nat) -> Seq<u8>
    decreases len,
{
    if len == 0 {
        Seq::empty()
    } else {
        be_bytes(v / 256, (len - 1) as nat).push((v % 256) as u8)
    }
}

/// Bytes are the big-endian encoding of their own value.
pub proof fn lemma_be_bytes(b: Seq<u8>)
    ensures
        b == be_bytes(be_value(b), b.len()),
    decreases b.len(),
{
    if b.len() > 0 {
        let p = b.drop_last();
        lemma_be_bytes(p);
        let v = be_value(b);
        assert(v == be_value(p) * 256 + b.last() as nat);
        vstd::arithmetic::div_mod::lemma_fundamental_div_mod_converse(
            v as int,
            256,
            be_value(p) as int,
            b.last() as int,
        );
        assert(b =~= p.push(b.last()));
    }
}

/// A scalar's bytes are the encoding of its value.
pub proof fn lemma_scalar_bytes(s: [u8; 32])
    ensures
        s@ == be_bytes(sv(s), 32),
{
    lemma_be_bytes(s@);
}

} // verus!
