//! The JSON wire form of envelopes and packages.
//!
//! Encoders write the compact form (no white space, fields in declaration
//! order, strings escaped as `"`, `\`, and control bytes only). Decoders accept
//! exactly that form: a byte string decodes to a value if and only if it is
//! the encoding of that value.
use vstd::prelude::*;
use crate::types::{opt_id, KindView, MessageView, ParticipantId, ProtocolMessage, ProtocolMessageKind, SessionId};
use crate::text::str_eq;

verus! {

// ---------------------------------------------------------------- literals
/// Appends a literal byte string.
pub fn put(out: &mut Vec<u8>, lit: &[u8])
    ensures
        final(out)@ == old(out)@ + lit@,
{
    let mut i: usize = 0;
    let ghost start = out@;
    while i < lit.len()
        invariant
            i <= lit@.len(),
            out@ == start + lit@.take(i as int),
        decreases lit@.len() - i,
    {
        out.push(lit[i]);
        assert(lit@.take(i + 1) =~= lit@.take(i as int).push(lit@[i as int]));
        i += 1;
    }
    assert(lit@.take(lit@.len() as int) =~= lit@);
}

/// What follows a literal at the front of `b`.
pub open spec fn after_lit(b: Seq<u8>, lit: Seq<u8>) -> Option<Seq<u8>> {
    if b.len() >= lit.len() && b.take(lit.len() as int) == lit {
        Some(b.skip(lit.len() as int))
    } else {
        None
    }
}

pub proof fn lemma_after_lit(lit: Seq<u8>, rest: Seq<u8>)
    ensures
        after_lit(lit + rest, lit) == Some(rest),
{
    assert((lit + rest).take(lit.len() as int) =~= lit);
    assert((lit + rest).skip(lit.len() as int) =~= rest);
}

pub proof fn lemma_after_lit_sound(b: Seq<u8>, lit: Seq<u8>)
    requires
        after_lit(b, lit) is Some,
    ensures
        b == lit + after_lit(b, lit)->0,
{
    assert(b =~= b.take(lit.len() as int) + b.skip(lit.len() as int));
}

/// Checks a literal at position `pos`.
pub fn expect_lit(b: &[u8], pos: usize, lit: &[u8]) -> (r: Option<usize>)
    requires
        pos <= b@.len(),
    ensures
        match after_lit(b@.skip(pos as int), lit@) {
            Some(rest) => r == Some((b@.len() - rest.len()) as usize),
            None => r is None,
        },
        r matches Some(p) ==> pos <= p <= b@.len() && p == pos + lit@.len() && b@.skip(p as int)
            == after_lit(b@.skip(pos as int), lit@).unwrap(),
{
    let n = b.len();
    if n - pos < lit.len() {
        return None;
    }
    let mut i: usize = 0;
    while i < lit.len()
        invariant
            n == b@.len(),
            pos + lit@.len() <= n,
            i <= lit@.len(),
            forall|k: int| 0 <= k < i ==> b@[pos + k] == lit@[k],
        decreases lit@.len() - i,
    {
        assert(pos + i < b@.len());
        let idx = pos + i;
        if b[idx] != lit[i] {
            assert(b@.skip(pos as int).take(lit@.len() as int)[i as int] != lit@[i as int]);
            return None;
        }
        i += 1;
    }
    assert(b@.skip(pos as int).take(lit@.len() as int) =~= lit@);
    assert(b@.skip(pos as int).skip(lit@.len() as int) =~= b@.skip(pos + lit@.len()));
    Some(pos + lit.len())
}

/// The tail of a split is the suffix of matching length.
pub proof fn lemma_suffix(b: Seq<u8>, pos: int, head: Seq<u8>, rest: Seq<u8>)
    requires
        0 <= pos <= b.len(),
        b.skip(pos) == head + rest,
    ensures
        rest == b.skip(b.len() - rest.len()),
        b.len() - rest.len() == pos + head.len(),
{
    assert(rest =~= b.skip(pos).skip(head.len() as int));
    assert(b.skip(pos).skip(head.len() as int) =~= b.skip(pos + head.len()));
}

// ---------------------------------------------------------------- numbers
pub open spec fn is_digit(x: u8) -> bool {
    48 <= x <= 57
}

pub open spec fn all_digits(s: Seq<u8>) -> bool {
    forall|i: int| 0 <= i < s.len() ==> is_digit(#[trigger] s[i])
}

/// `r` does not continue a number.
pub open spec fn no_digit_start(r: Seq<u8>) -> bool {
    r.len() == 0 || !is_digit(r[0])
}

/// Base-10 digits of `n`, without leading zeros.
pub open spec fn dec(n: nat) -> Seq<u8>
    decreases n,
{
    if n < 10 {
        seq![(48 + n) as u8]
    } else {
        dec(n / 10).push((48 + n % 10) as u8)
    }
}

/// The number a digit string denotes.
pub open spec fn digits_value(ds: Seq<u8>) -> nat
    decreases ds.len(),
{
    if ds.len() == 0 {
        0
    } else {
        digits_value(ds.drop_last()) * 10 + (ds.last() - 48) as nat
    }
}

/// Length of the run of digits at the front of `b`.
pub open spec fn digit_run(b: Seq<u8>) -> nat
    decreases b.len(),
{
    if b.len() == 0 || !is_digit(b[0]) {
        0
    } else {
        1 + digit_run(b.drop_first())
    }
}

/// Canonical: at least one digit, and no leading zero unless the number is 0.
pub open spec fn canonical_digits(ds: Seq<u8>) -> bool {
    ds.len() >= 1 && all_digits(ds) && (ds.len() == 1 || ds[0] != 48)
}

/// A number at the front of `b`, and what follows it.
pub open spec fn parse_num(b: Seq<u8>) -> Option<(nat, Seq<u8>)> {
    let ds = b.take(digit_run(b) as int);
    if canonical_digits(ds) {
        Some((digits_value(ds), b.skip(digit_run(b) as int)))
    } else {
        None
    }
}

pub proof fn lemma_dec_shape(n: nat)
    ensures
        canonical_digits(dec(n)),
        digits_value(dec(n)) == n,
    decreases n,
{
    if n >= 10 {
        lemma_dec_shape(n / 10);
        let d = dec(n / 10);
        assert(dec(n).drop_last() =~= d);
        assert(dec(n)[0] == d[0]);
        if n / 10 < 10 {
            assert(d[0] == (48 + n / 10) as u8);
            assert(d[0] != 48);
        } else {
            assert(d.len() == dec(n / 10 / 10).len() + 1);
            assert(d.len() >= 2);
        }
        assert(dec(n).len() == d.len() + 1);
        assert(dec(n)[0] != 48);
        let last = (48 + n % 10) as u8;
        assert(last == 48 + n % 10);
        assert(dec(n).last() == last);
        assert(digits_value(dec(n)) == digits_value(d) * 10 + (last - 48) as nat);
        assert(all_digits(dec(n))) by {
            assert forall|i: int| 0 <= i < dec(n).len() implies is_digit(#[trigger] dec(n)[i]) by {
                if i < d.len() {
                    assert(dec(n)[i] == d[i]);
                }
            }
        }
    } else {
        let x = (48 + n) as u8;
        assert(x == 48 + n);
        assert(dec(n) == seq![x]);
        assert(is_digit(dec(n)[0]));
        assert(dec(n).drop_last() =~= Seq::<u8>::empty());
        assert(digits_value(dec(n)) == digits_value(Seq::<u8>::empty()) * 10 + (x - 48) as nat);
    }
}

pub proof fn lemma_digit_run_bounds(b: Seq<u8>)
    ensures
        digit_run(b) <= b.len(),
        all_digits(b.take(digit_run(b) as int)),
        no_digit_start(b.skip(digit_run(b) as int)),
    decreases b.len(),
{
    if b.len() > 0 && is_digit(b[0]) {
        lemma_digit_run_bounds(b.drop_first());
        let k = digit_run(b.drop_first()) as int;
        assert(b.take(k + 1) =~= seq![b[0]] + b.drop_first().take(k));
        assert(b.skip(k + 1) =~= b.drop_first().skip(k));
    }
}

pub proof fn lemma_digit_run_concat(ds: Seq<u8>, r: Seq<u8>)
    requires
        all_digits(ds),
        no_digit_start(r),
    ensures
        digit_run(ds + r) == ds.len(),
    decreases ds.len(),
{
    if ds.len() == 0 {
        assert(ds + r =~= r);
    } else {
        assert((ds + r).drop_first() =~= ds.drop_first() + r);
        lemma_digit_run_concat(ds.drop_first(), r);
    }
}

pub proof fn lemma_digits_value_dec(ds: Seq<u8>)
    requires
        canonical_digits(ds),
    ensures
        dec(digits_value(ds)) == ds,
    decreases ds.len(),
{
    if ds.len() == 1 {
        assert(ds.drop_last() =~= Seq::<u8>::empty());
        assert(is_digit(ds[0]));
        let v = digits_value(ds);
        assert(digits_value(ds.drop_last()) == 0);
        assert(ds.last() == ds[0]);
        assert(v == (ds[0] - 48) as nat);
        assert((48 + v) as u8 == ds[0]);
        assert(dec(v) =~= ds);
    } else {
        let p = ds.drop_last();
        assert(p[0] == ds[0]);
        assert(canonical_digits(p));
        lemma_digits_value_dec(p);
        lemma_value_ge_one(p);
        let v = digits_value(ds);
        assert(v == digits_value(p) * 10 + (ds.last() - 48) as nat);
        assert(v >= 10);
        assert(v / 10 == digits_value(p));
        assert(v % 10 == (ds.last() - 48) as nat);
        assert(is_digit(ds.last()));
        assert((48 + v % 10) as u8 == ds.last());
        assert(dec(v) == dec(v / 10).push((48 + v % 10) as u8));
        assert(ds =~= p.push(ds.last()));
    }
}

/// A canonical digit string of more than one digit denotes at least 1.
pub proof fn lemma_value_ge_one(ds: Seq<u8>)
    requires
        canonical_digits(ds),
        ds[0] != 48,
    ensures
        digits_value(ds) >= 1,
    decreases ds.len(),
{
    if ds.len() > 1 {
        let p = ds.drop_last();
        assert(p[0] == ds[0]);
        lemma_value_ge_one(p);
    }
}

pub proof fn lemma_parse_num_complete(n: nat, r: Seq<u8>)
    requires
        no_digit_start(r),
    ensures
        parse_num(dec(n) + r) == Some((n, r)),
{
    lemma_dec_shape(n);
    lemma_digit_run_concat(dec(n), r);
    assert((dec(n) + r).take(dec(n).len() as int) =~= dec(n));
    assert((dec(n) + r).skip(dec(n).len() as int) =~= r);
}

pub proof fn lemma_parse_num_sound(b: Seq<u8>)
    requires
        parse_num(b) is Some,
    ensures
        b == dec(parse_num(b).unwrap().0) + parse_num(b).unwrap().1,
        no_digit_start(parse_num(b).unwrap().1),
        parse_num(b).unwrap().1.len() < b.len(),
{
    lemma_digit_run_bounds(b);
    let k = digit_run(b) as int;
    lemma_digits_value_dec(b.take(k));
    assert(b =~= b.take(k) + b.skip(k));
}

/// The value of a digit string never shrinks as digits are appended.
pub proof fn lemma_digits_value_prefix(ds: Seq<u8>, i: int)
    requires
        all_digits(ds),
        0 <= i <= ds.len(),
    ensures
        digits_value(ds.take(i)) <= digits_value(ds),
    decreases ds.len() - i,
{
    if i < ds.len() {
        lemma_digits_value_prefix(ds, i + 1);
        assert(ds.take(i + 1).drop_last() =~= ds.take(i));
    } else {
        assert(ds.take(i) =~= ds);
    }
}

/// Appends the decimal digits of `n`.
pub fn put_num(out: &mut Vec<u8>, n: u32)
    ensures
        final(out)@ == old(out)@ + dec(n as nat),
    decreases n,
{
    if n >= 10 {
        put_num(out, n / 10);
    }
    out.push((48 + n % 10) as u8);
    proof {
        if n >= 10 {
            assert(dec(n as nat) == dec((n / 10) as nat).push((48 + n % 10) as u8));
        }
    }
}

/// Reads a canonical number no larger than `max` at `pos`.
fn read_num_at(b: &[u8], pos: usize, max: u32) -> (r: Option<(u32, usize)>)
    requires
        pos <= b@.len(),
        max <= 0xFFFF_FFF,
    ensures
        match parse_num(b@.skip(pos as int)) {
            Some((v, rest)) => if v <= max as nat {
                r == Some((v as u32, (b@.len() - rest.len()) as usize))
            } else {
                r is None
            },
            None => r is None,
        },
        r matches Some((_, p)) ==> pos < p <= b@.len(),
{
    let ghost s = b@.skip(pos as int);
    proof {
        lemma_digit_run_bounds(s);
    }
    let ghost k = digit_run(s) as int;
    let mut i: usize = pos;
    let mut value: u32 = 0;
    let mut over = false;
    while i < b.len() && 48 <= b[i] && b[i] <= 57
        invariant
            pos <= i <= b@.len(),
            s == b@.skip(pos as int),
            k == digit_run(s),
            k <= s.len(),
            i - pos <= k,
            all_digits(s.take(k)),
            no_digit_start(s.skip(k)),
            forall|j: int| pos <= j < i ==> is_digit(#[trigger] b@[j]),
            max <= 0xFFFF_FFF,
            !over ==> value as nat == digits_value(s.take(i - pos)) && value <= max,
            over ==> digits_value(s.take(i - pos)) > max,
        decreases b@.len() - i,
    {
        proof {
            if i - pos == k {
                assert(s.skip(k)[0] == b@[i as int]);
            }
            assert(s.take(i - pos + 1).drop_last() =~= s.take(i - pos));
        }
        if !over {
            let next = value * 10 + (b[i] - 48) as u32;
            if next > max {
                over = true;
            } else {
                value = next;
            }
        } else {
            proof {
                lemma_digits_value_prefix(s.take(i - pos + 1), i - pos);
                assert(s.take(i - pos + 1).take(i - pos) =~= s.take(i - pos));
            }
        }
        i += 1;
    }
    proof {
        if i - pos < k {
            assert(s.take(k)[i - pos] == b@[i as int]);
        }
        assert(i - pos == k);
    }
    if i == pos {
        return None;
    }
    if b[pos] == 48 && i - pos > 1 {
        assert(s.take(k)[0] == b@[pos as int]);
        return None;
    }
    proof {
        assert(s.take(k)[0] == b@[pos as int]);
    }
    if over {
        return None;
    }
    Some((value, i))
}


// ---------------------------------------------------------------- strings
/// Lower-case hexadecimal digit for `v < 16`.
pub open spec fn hex_digit(v: nat) -> u8 {
    if v < 10 { (48 + v) as u8 } else { (87 + v) as u8 }
}

pub open spec fn is_hex(c: u8) -> bool {
    (48 <= c <= 57) || (97 <= c <= 102)
}

pub open spec fn hex_value(c: u8) -> nat {
    if c <= 57 { (c - 48) as nat } else { (c - 87) as nat }
}

/// Control bytes that have a two-character escape.
pub open spec fn short_escaped(x: u8) -> bool {
    x == 8 || x == 9 || x == 10 || x == 12 || x == 13
}

/// The escaped form of one byte inside a JSON string.
pub open spec fn esc1(x: u8) -> Seq<u8> {
    if x == 34 {
        seq![92u8, 34u8]
    } else if x == 92 {
        seq![92u8, 92u8]
    } else if x == 8 {
        seq![92u8, 98u8]
    } else if x == 12 {
        seq![92u8, 102u8]
    } else if x == 10 {
        seq![92u8, 110u8]
    } else if x == 13 {
        seq![92u8, 114u8]
    } else if x == 9 {
        seq![92u8, 116u8]
    } else if x < 32 {
        seq![92u8, 117u8, 48u8, 48u8, hex_digit(x as nat / 16), hex_digit(x as nat % 16)]
    } else {
        seq![x]
    }
}

/// The escaped form of a byte string.
pub open spec fn escape(u: Seq<u8>) -> Seq<u8>
    decreases u.len(),
{
    if u.len() == 0 {
        Seq::empty()
    } else {
        esc1(u[0]) + escape(u.drop_first())
    }
}

/// A quoted JSON string holding the given UTF-8 bytes.
pub open spec fn jbytes(u: Seq<u8>) -> Seq<u8> {
    seq![34u8] + escape(u) + seq![34u8]
}

/// A quoted JSON string holding the given text.
pub open spec fn jstr(s: Seq<char>) -> Seq<u8> {
    jbytes(vstd::utf8::encode_utf8(s))
}

/// Length of the escape unit at the front of `b`; 0 when there is none.
pub open spec fn unit_len(b: Seq<u8>) -> nat {
    if b.len() == 0 || b[0] == 34 {
        0
    } else if b[0] == 92 {
        if b.len() < 2 {
            0
        } else if b[1] == 34 || b[1] == 92 || b[1] == 98 || b[1] == 102 || b[1] == 110 || b[1]
            == 114 || b[1] == 116 {
            2
        } else if b[1] == 117 && b.len() >= 6 && b[2] == 48 && b[3] == 48 && is_hex(b[4])
            && is_hex(b[5]) && hex_value(b[4]) * 16 + hex_value(b[5]) < 32 && !short_escaped(
            (hex_value(b[4]) * 16 + hex_value(b[5])) as u8,
        ) {
            6
        } else {
            0
        }
    } else if b[0] < 32 {
        0
    } else {
        1
    }
}

/// The byte the escape unit at the front of `b` stands for.
pub open spec fn unit_byte(b: Seq<u8>) -> u8 {
    if b[0] == 92 {
        if b[1] == 34 {
            34
        } else if b[1] == 92 {
            92
        } else if b[1] == 98 {
            8
        } else if b[1] == 102 {
            12
        } else if b[1] == 110 {
            10
        } else if b[1] == 114 {
            13
        } else if b[1] == 116 {
            9
        } else {
            (hex_value(b[4]) * 16 + hex_value(b[5])) as u8
        }
    } else {
        b[0]
    }
}

/// The bytes of a string body up to its closing quote, and what follows it.
pub open spec fn body(b: Seq<u8>) -> Option<(Seq<u8>, Seq<u8>)>
    decreases b.len(),
{
    if b.len() == 0 {
        None
    } else if b[0] == 34 {
        Some((Seq::empty(), b.drop_first()))
    } else if unit_len(b) == 0 {
        None
    } else {
        match body(b.skip(unit_len(b) as int)) {
            Some((u, r)) => Some((seq![unit_byte(b)] + u, r)),
            None => None,
        }
    }
}

/// A quoted byte string at the front of `b`, and what follows it.
pub open spec fn parse_jbytes(b: Seq<u8>) -> Option<(Seq<u8>, Seq<u8>)> {
    if b.len() > 0 && b[0] == 34 {
        body(b.drop_first())
    } else {
        None
    }
}

/// A quoted text at the front of `b`, and what follows it.
pub open spec fn parse_text(b: Seq<u8>) -> Option<(Seq<char>, Seq<u8>)> {
    match parse_jbytes(b) {
        Some((u, r)) => if vstd::utf8::valid_utf8(u) {
            Some((vstd::utf8::decode_utf8(u), r))
        } else {
            None
        },
        None => None,
    }
}

pub proof fn lemma_unit_esc1(x: u8, tail: Seq<u8>)
    ensures
        unit_len(esc1(x) + tail) == esc1(x).len(),
        unit_byte(esc1(x) + tail) == x,
{
    let b = esc1(x) + tail;
    if x < 32 && !(x == 8 || x == 12 || x == 10 || x == 13 || x == 9) {
        let hi = x as nat / 16;
        let lo = x as nat % 16;
        assert(hi < 2);
        assert(b[4] == hex_digit(hi));
        assert(b[5] == hex_digit(lo));
        assert(is_hex(b[4]) && hex_value(b[4]) == hi);
        assert(is_hex(b[5]) && hex_value(b[5]) == lo);
        assert(hi * 16 + lo == x as nat);
    }
}

pub proof fn lemma_escape_concat(a: Seq<u8>, c: Seq<u8>)
    ensures
        escape(a + c) == escape(a) + escape(c),
    decreases a.len(),
{
    if a.len() == 0 {
        assert(a + c =~= c);
    } else {
        assert((a + c).drop_first() =~= a.drop_first() + c);
        lemma_escape_concat(a.drop_first(), c);
        assert(escape(a + c) =~= escape(a) + escape(c));
    }
}

pub proof fn lemma_escape_single(x: u8)
    ensures
        escape(seq![x]) == esc1(x),
{
    assert(seq![x].drop_first() =~= Seq::<u8>::empty());
    assert(escape(Seq::<u8>::empty()) =~= Seq::<u8>::empty());
    assert(seq![x][0] == x);
    assert(esc1(x) + Seq::<u8>::empty() =~= esc1(x));
}

pub proof fn lemma_body_complete(u: Seq<u8>, r: Seq<u8>)
    ensures
        body(escape(u) + seq![34u8] + r) == Some((u, r)),
    decreases u.len(),
{
    if u.len() == 0 {
        let b = escape(u) + seq![34u8] + r;
        assert(b =~= seq![34u8] + r);
        assert(b.drop_first() =~= r);
    } else {
        let x = u[0];
        let rest = escape(u.drop_first()) + seq![34u8] + r;
        let b = escape(u) + seq![34u8] + r;
        assert(b =~= esc1(x) + rest);
        lemma_unit_esc1(x, rest);
        assert(b[0] == (esc1(x) + rest)[0]);
        assert(b.skip(esc1(x).len() as int) =~= rest);
        lemma_body_complete(u.drop_first(), r);
        assert(seq![x] + u.drop_first() =~= u);
    }
}

pub proof fn lemma_unit_sound(b: Seq<u8>)
    requires
        unit_len(b) > 0,
    ensures
        b.take(unit_len(b) as int) == esc1(unit_byte(b)),
        unit_len(b) <= b.len(),
{
    let k = unit_len(b) as int;
    if b[0] == 92 && k == 6 {
        let v = hex_value(b[4]) * 16 + hex_value(b[5]);
        assert(hex_value(b[4]) < 2);
        assert(hex_digit(hex_value(b[4])) == b[4]);
        assert(hex_digit(hex_value(b[5])) == b[5]);
        assert((v as u8) as nat / 16 == hex_value(b[4]));
        assert((v as u8) as nat % 16 == hex_value(b[5]));
    }
    assert(b.take(k) =~= esc1(unit_byte(b)));
}

pub proof fn lemma_body_sound(b: Seq<u8>)
    requires
        body(b) is Some,
    ensures
        b == escape(body(b).unwrap().0) + seq![34u8] + body(b).unwrap().1,
        body(b).unwrap().1.len() < b.len(),
    decreases b.len(),
{
    if b[0] == 34 {
        assert(b =~= escape(Seq::<u8>::empty()) + seq![34u8] + b.drop_first());
    } else {
        let k = unit_len(b) as int;
        lemma_unit_sound(b);
        lemma_body_sound(b.skip(k));
        let (u, r) = body(b.skip(k)).unwrap();
        let x = unit_byte(b);
        assert((seq![x] + u).drop_first() =~= u);
        assert(escape(seq![x] + u) == esc1(x) + escape(u));
        assert(b =~= b.take(k) + b.skip(k));
        assert(b =~= escape(seq![x] + u) + seq![34u8] + r);
    }
}

pub proof fn lemma_parse_text_complete(s: Seq<char>, r: Seq<u8>)
    ensures
        parse_text(jstr(s) + r) == Some((s, r)),
{
    let u = vstd::utf8::encode_utf8(s);
    let b = jstr(s) + r;
    assert(b.drop_first() =~= escape(u) + seq![34u8] + r);
    lemma_body_complete(u, r);
    vstd::utf8::encode_utf8_valid_utf8(s);
    vstd::utf8::encode_utf8_decode_utf8(s);
}

pub proof fn lemma_parse_text_sound(b: Seq<u8>)
    requires
        parse_text(b) is Some,
    ensures
        b == jstr(parse_text(b).unwrap().0) + parse_text(b).unwrap().1,
        parse_text(b).unwrap().1.len() < b.len(),
{
    let (u, r) = parse_jbytes(b).unwrap();
    lemma_body_sound(b.drop_first());
    vstd::utf8::decode_utf8_encode_utf8(u);
    assert(b =~= seq![b[0]] + b.drop_first());
    assert(b =~= jbytes(u) + r);
}

/// Appends the escaped form of one byte.
fn put_esc1(out: &mut Vec<u8>, x: u8)
    ensures
        final(out)@ == old(out)@ + esc1(x),
{
    if x == 34 {
        out.push(92);
        out.push(34);
    } else if x == 92 {
        out.push(92);
        out.push(92);
    } else if x == 8 {
        out.push(92);
        out.push(98);
    } else if x == 12 {
        out.push(92);
        out.push(102);
    } else if x == 10 {
        out.push(92);
        out.push(110);
    } else if x == 13 {
        out.push(92);
        out.push(114);
    } else if x == 9 {
        out.push(92);
        out.push(116);
    } else if x < 32 {
        out.push(92);
        out.push(117);
        out.push(48);
        out.push(48);
        let hi = x / 16;
        let lo = x % 16;
        out.push(if hi < 10 { 48 + hi } else { 87 + hi });
        out.push(if lo < 10 { 48 + lo } else { 87 + lo });
    } else {
        out.push(x);
    }
    assert(final(out)@ =~= old(out)@ + esc1(x));
}

/// Appends a quoted, escaped byte string.
pub fn put_jbytes(out: &mut Vec<u8>, u: &[u8])
    ensures
        final(out)@ == old(out)@ + jbytes(u@),
{
    let ghost start = out@;
    out.push(34);
    let mut i: usize = 0;
    while i < u.len()
        invariant
            i <= u@.len(),
            out@ == start + seq![34u8] + escape(u@.take(i as int)),
        decreases u@.len() - i,
    {
        put_esc1(out, u[i]);
        proof {
            assert(u@.take(i + 1) =~= u@.take(i as int) + seq![u@[i as int]]);
            lemma_escape_concat(u@.take(i as int), seq![u@[i as int]]);
            lemma_escape_single(u@[i as int]);
        }
        i += 1;
    }
    out.push(34);
    assert(u@.take(u@.len() as int) =~= u@);
    assert(out@ =~= start + jbytes(u@));
}

/// Appends a quoted, escaped text.
pub fn put_str(out: &mut Vec<u8>, s: &str)
    ensures
        final(out)@ == old(out)@ + jstr(s@),
{
    put_jbytes(out, s.as_bytes());
}

fn hex_val(c: u8) -> (r: u8)
    requires
        is_hex(c),
    ensures
        r as nat == hex_value(c),
        r < 16,
{
    if c <= 57 { c - 48 } else { c - 87 }
}

/// Reads one escape unit at `i`; `None` where the bytes hold none.
fn read_unit(b: &[u8], i: usize) -> (r: Option<(u8, usize)>)
    requires
        i < b@.len(),
        b@[i as int] != 34,
    ensures
        unit_len(b@.skip(i as int)) == 0 ==> r is None,
        unit_len(b@.skip(i as int)) > 0 ==> r == Some(
            (unit_byte(b@.skip(i as int)), unit_len(b@.skip(i as int)) as usize),
        ),
{
    let ghost s = b@.skip(i as int);
    assert(s[0] == b@[i as int]);
    let n = b.len();
    let x = b[i];
    if x == 92 {
        if n - i < 2 {
            return None;
        }
        let e = b[i + 1];
        assert(s[1] == e);
        if e == 34 {
            return Some((34, 2));
        } else if e == 92 {
            return Some((92, 2));
        } else if e == 98 {
            return Some((8, 2));
        } else if e == 102 {
            return Some((12, 2));
        } else if e == 110 {
            return Some((10, 2));
        } else if e == 114 {
            return Some((13, 2));
        } else if e == 116 {
            return Some((9, 2));
        } else if e == 117 && n - i >= 6 {
            let c2 = b[i + 2];
            let c3 = b[i + 3];
            let c4 = b[i + 4];
            let c5 = b[i + 5];
            assert(s[2] == c2 && s[3] == c3 && s[4] == c4 && s[5] == c5);
            let h4 = (48 <= c4 && c4 <= 57) || (97 <= c4 && c4 <= 102);
            let h5 = (48 <= c5 && c5 <= 57) || (97 <= c5 && c5 <= 102);
            if c2 == 48 && c3 == 48 && h4 && h5 {
                let v = hex_val(c4) as u32 * 16 + hex_val(c5) as u32;
                if v < 32 {
                    let vb = v as u8;
                    if !(vb == 8 || vb == 9 || vb == 10 || vb == 12 || vb == 13) {
                        return Some((vb, 6));
                    }
                }
            }
            return None;
        } else {
            return None;
        }
    } else if x < 32 {
        return None;
    }
    Some((x, 1))
}

/// Reads a quoted byte string at `pos`.
pub fn read_jbytes(b: &[u8], pos: usize) -> (r: Option<(Vec<u8>, usize)>)
    requires
        pos <= b@.len(),
    ensures
        match parse_jbytes(b@.skip(pos as int)) {
            Some((u, rest)) => r matches Some((v, p)) && v@ == u && p == b@.len() - rest.len(),
            None => r is None,
        },
        r matches Some((_, p)) ==> pos < p <= b@.len(),
{
    let n = b.len();
    if pos >= n || b[pos] != 34 {
        return None;
    }
    let ghost s0 = b@.skip(pos + 1);
    assert(b@.skip(pos as int)[0] == b@[pos as int]);
    let mut out: Vec<u8> = Vec::new();
    let mut i: usize = pos + 1;
    assert(b@.skip(pos as int).drop_first() =~= s0);
    while i < n
        invariant
            n == b@.len(),
            pos < i <= n,
            s0 == b@.skip(pos + 1),
            b@.skip(pos as int).drop_first() == s0,
            b@.skip(pos as int).len() > 0,
            b@.skip(pos as int)[0] == 34,
            body(s0) == match body(b@.skip(i as int)) {
                Some((u, r)) => Some((out@ + u, r)),
                None => None::<(Seq<u8>, Seq<u8>)>,
            },
        decreases n - i,
    {
        let ghost s = b@.skip(i as int);
        assert(s[0] == b@[i as int]);
        if b[i] == 34 {
            assert(s.drop_first() =~= b@.skip(i + 1));
            assert(body(s) == Some((Seq::<u8>::empty(), s.drop_first())));
            assert(out@ + Seq::<u8>::empty() =~= out@);
            return Some((out, i + 1));
        }
        match read_unit(b, i) {
            None => {
                assert(body(s) is None);
                return None;
            },
            Some((x, k)) => {
                proof {
                    lemma_unit_sound(s);
                    assert(s.skip(k as int) =~= b@.skip(i + k));
                    if let Some((u, r)) = body(b@.skip(i + k)) {
                        assert(out@.push(x) + u =~= out@ + (seq![x] + u));
                    }
                }
                out.push(x);
                i = i + k;
            },
        }
    }
    assert(b@.skip(i as int) =~= Seq::<u8>::empty());
    None
}

/// Calls std's `String::from_utf8`, which gives back the text exactly when the
/// bytes are valid UTF-8, and then the text that those bytes encode.
#[verifier::external_body]
pub(crate) fn string_from_utf8(bytes: Vec<u8>) -> (r: Option<String>)
    ensures
        vstd::utf8::valid_utf8(bytes@) <==> r is Some,
        r matches Some(s) ==> s@ == vstd::utf8::decode_utf8(bytes@),
{
    String::from_utf8(bytes).ok()
}

/// Reads a quoted text at `pos`.
fn read_str_at(b: &[u8], pos: usize) -> (r: Option<(String, usize)>)
    requires
        pos <= b@.len(),
    ensures
        match parse_text(b@.skip(pos as int)) {
            Some((t, rest)) => r matches Some((v, p)) && v@ == t && p == b@.len() - rest.len(),
            None => r is None,
        },
        r matches Some((_, p)) ==> pos < p <= b@.len(),
{
    match read_jbytes(b, pos) {
        None => None,
        Some((u, p)) => match string_from_utf8(u) {
            Some(s) => Some((s, p)),
            None => None,
        },
    }
}


// ---------------------------------------------------------------- byte arrays
/// `,d1,d2,...` for the given bytes.
pub open spec fn jtail(s: Seq<u8>) -> Seq<u8>
    decreases s.len(),
{
    if s.len() == 0 {
        Seq::empty()
    } else {
        seq![44u8] + dec(s[0] as nat) + jtail(s.drop_first())
    }
}

/// A JSON array of the given bytes as numbers.
pub open spec fn jarr(s: Seq<u8>) -> Seq<u8> {
    if s.len() == 0 {
        seq![91u8, 93u8]
    } else {
        seq![91u8] + dec(s[0] as nat) + jtail(s.drop_first()) + seq![93u8]
    }
}

/// Array elements up to and including the closing bracket.
pub open spec fn elems(b: Seq<u8>) -> Option<(Seq<u8>, Seq<u8>)>
    decreases b.len(),
{
    match parse_num(b) {
        None => None,
        Some((v, r)) => {
            proof {
                lemma_parse_num_sound(b);
            }
            if v > 255 {
                None
            } else if r.len() > 0 && r[0] == 93 {
                Some((seq![v as u8], r.drop_first()))
            } else if r.len() > 0 && r[0] == 44 {
                match elems(r.drop_first()) {
                    Some((vs, r2)) => Some((seq![v as u8] + vs, r2)),
                    None => None,
                }
            } else {
                None
            }
        },
    }
}

/// A byte array at the front of `b`, and what follows it.
pub open spec fn parse_jarr(b: Seq<u8>) -> Option<(Seq<u8>, Seq<u8>)> {
    if b.len() > 0 && b[0] == 91 {
        let r = b.drop_first();
        if r.len() > 0 && r[0] == 93 {
            Some((Seq::empty(), r.drop_first()))
        } else {
            elems(r)
        }
    } else {
        None
    }
}

pub proof fn lemma_elems_complete(x: u8, t: Seq<u8>, r: Seq<u8>)
    ensures
        elems(dec(x as nat) + jtail(t) + seq![93u8] + r) == Some((seq![x] + t, r)),
    decreases t.len(),
{
    let b = dec(x as nat) + jtail(t) + seq![93u8] + r;
    let after = jtail(t) + seq![93u8] + r;
    assert(b =~= dec(x as nat) + after);
    if t.len() == 0 {
        assert(after =~= seq![93u8] + r);
        lemma_parse_num_complete(x as nat, after);
        assert(after.drop_first() =~= r);
        assert(seq![x] + t =~= seq![x]);
    } else {
        assert(after =~= seq![44u8] + (dec(t[0] as nat) + jtail(t.drop_first()) + seq![93u8] + r));
        lemma_parse_num_complete(x as nat, after);
        lemma_elems_complete(t[0], t.drop_first(), r);
        assert(after.drop_first() =~= dec(t[0] as nat) + jtail(t.drop_first()) + seq![93u8] + r);
        assert(seq![t[0]] + t.drop_first() =~= t);
        assert(seq![x] + (seq![t[0]] + t.drop_first()) =~= seq![x] + t);
    }
}

pub proof fn lemma_parse_jarr_complete(s: Seq<u8>, r: Seq<u8>)
    ensures
        parse_jarr(jarr(s) + r) == Some((s, r)),
{
    let b = jarr(s) + r;
    if s.len() == 0 {
        assert(b.drop_first() =~= seq![93u8] + r);
        assert((seq![93u8] + r).drop_first() =~= r);
        assert(s =~= Seq::<u8>::empty());
    } else {
        assert(b.drop_first() =~= dec(s[0] as nat) + jtail(s.drop_first()) + seq![93u8] + r);
        lemma_dec_shape(s[0] as nat);
        assert(b.drop_first()[0] == dec(s[0] as nat)[0]);
        lemma_elems_complete(s[0], s.drop_first(), r);
        assert(seq![s[0]] + s.drop_first() =~= s);
    }
}

#[verifier::spinoff_prover]
#[verifier::rlimit(40)]
pub proof fn lemma_elems_sound(b: Seq<u8>)
    requires
        elems(b) is Some,
    ensures
        elems(b).unwrap().0.len() > 0,
        b == dec(elems(b).unwrap().0[0] as nat) + jtail(elems(b).unwrap().0.drop_first()) + seq![
            93u8,
        ] + elems(b).unwrap().1,
    decreases b.len(),
{
    lemma_parse_num_sound(b);
    let (v, r) = parse_num(b).unwrap();
    let (vs, rest) = elems(b).unwrap();
    assert((v as u8) as nat == v);
    if r[0] == 93 {
        assert(vs =~= seq![v as u8]);
        assert(vs.drop_first() =~= Seq::<u8>::empty());
        assert(r =~= seq![93u8] + r.drop_first());
        assert(b =~= dec(v) + jtail(Seq::<u8>::empty()) + seq![93u8] + rest);
    } else {
        lemma_elems_sound(r.drop_first());
        let (ws, r2) = elems(r.drop_first()).unwrap();
        assert(vs =~= seq![v as u8] + ws);
        assert(vs.drop_first() =~= ws);
        assert(ws =~= seq![ws[0]] + ws.drop_first());
        assert(jtail(ws) =~= seq![44u8] + dec(ws[0] as nat) + jtail(ws.drop_first()));
        assert(r =~= seq![44u8] + r.drop_first());
        assert(b =~= dec(v) + jtail(vs.drop_first()) + seq![93u8] + rest);
    }
}

pub proof fn lemma_parse_jarr_sound(b: Seq<u8>)
    requires
        parse_jarr(b) is Some,
    ensures
        b == jarr(parse_jarr(b).unwrap().0) + parse_jarr(b).unwrap().1,
{
    let r = b.drop_first();
    if r.len() > 0 && r[0] == 93 {
        assert(b =~= seq![91u8, 93u8] + r.drop_first());
    } else {
        lemma_elems_sound(r);
        let (vs, rest) = elems(r).unwrap();
        assert(b =~= seq![91u8] + r);
        assert(b =~= jarr(vs) + rest);
    }
}

/// Appends a byte array as JSON numbers.
pub fn put_arr(out: &mut Vec<u8>, s: &[u8])
    ensures
        final(out)@ == old(out)@ + jarr(s@),
{
    let ghost start = out@;
    out.push(91);
    if s.len() == 0 {
        out.push(93);
        assert(out@ =~= start + jarr(s@));
        return;
    }
    put_num(out, s[0] as u32);
    let mut i: usize = 1;
    while i < s.len()
        invariant
            1 <= i <= s@.len(),
            out@ == start + seq![91u8] + dec(s@[0] as nat) + jtail(s@.subrange(1, i as int)),
        decreases s@.len() - i,
    {
        let ghost before = out@;
        out.push(44);
        put_num(out, s[i] as u32);
        proof {
            lemma_jtail_push(s@.subrange(1, i as int), s@[i as int]);
            assert(s@.subrange(1, i + 1) =~= s@.subrange(1, i as int).push(s@[i as int]));
        }
        i += 1;
    }
    out.push(93);
    assert(s@.subrange(1, s@.len() as int) =~= s@.drop_first());
    assert(out@ =~= start + jarr(s@));
}

pub proof fn lemma_jtail_push(t: Seq<u8>, x: u8)
    ensures
        jtail(t.push(x)) == jtail(t) + seq![44u8] + dec(x as nat),
    decreases t.len(),
{
    if t.len() == 0 {
        assert(t.push(x).drop_first() =~= Seq::<u8>::empty());
        assert(t.push(x)[0] == x);
        assert(jtail(Seq::<u8>::empty()) =~= Seq::<u8>::empty());
        assert(jtail(t) =~= Seq::<u8>::empty());
        assert(jtail(t.push(x)) =~= seq![44u8] + dec(x as nat));
    } else {
        assert(t.push(x).drop_first() =~= t.drop_first().push(x));
        lemma_jtail_push(t.drop_first(), x);
        assert(jtail(t.push(x)) =~= jtail(t) + seq![44u8] + dec(x as nat));
    }
}

/// Reads a byte array at `pos`.
fn read_arr_at(b: &[u8], pos: usize) -> (r: Option<(Vec<u8>, usize)>)
    requires
        pos <= b@.len(),
    ensures
        match parse_jarr(b@.skip(pos as int)) {
            Some((u, rest)) => r matches Some((v, p)) && v@ == u && p == b@.len() - rest.len(),
            None => r is None,
        },
        r matches Some((_, p)) ==> pos < p <= b@.len(),
{
    let n = b.len();
    if pos >= n || b[pos] != 91 {
        return None;
    }
    let ghost s = b@.skip(pos as int);
    assert(s[0] == b@[pos as int]);
    assert(s.drop_first() =~= b@.skip(pos + 1));
    if pos + 1 < n && b[pos + 1] == 93 {
        assert(b@.skip(pos + 1)[0] == b@[pos + 1]);
        assert(b@.skip(pos + 1).drop_first() =~= b@.skip(pos + 2));
        return Some((Vec::new(), pos + 2));
    }
    proof {
        if pos + 1 < n {
            assert(b@.skip(pos + 1)[0] == b@[pos + 1]);
        }
    }
    let ghost s0 = b@.skip(pos + 1);
    let mut out: Vec<u8> = Vec::new();
    let mut i: usize = pos + 1;
    loop
        invariant
            n == b@.len(),
            pos < i <= n,
            parse_jarr(s) == elems(s0),
            s == b@.skip(pos as int),
            elems(s0) == match elems(b@.skip(i as int)) {
                Some((u, r)) => Some((out@ + u, r)),
                None => None::<(Seq<u8>, Seq<u8>)>,
            },
        decreases n - i,
    {
        let ghost t = b@.skip(i as int);
        match read_num_at(b, i, 255) {
            None => {
                assert(elems(t) is None);
                return None;
            },
            Some((v, j)) => {
                let ghost r = b@.skip(j as int);
                proof {
                    lemma_parse_num_sound(t);
                    let rest = parse_num(t).unwrap().1;
                    assert(t =~= dec(v as nat) + rest);
                    let m = dec(v as nat).len() as int;
                    assert(rest =~= t.skip(m));
                    assert(t.skip(m) =~= b@.skip(i + m));
                    assert(j == i + m);
                    assert(rest =~= r);
                }
                if j < n && b[j] == 93 {
                    assert(r[0] == b@[j as int]);
                    assert(r.drop_first() =~= b@.skip(j + 1));
                    out.push(v as u8);
                    proof {
                        assert(out@ =~= out@.drop_last() + seq![v as u8]);
                    }
                    return Some((out, j + 1));
                } else if j < n && b[j] == 44 {
                    assert(r[0] == b@[j as int]);
                    assert(r.drop_first() =~= b@.skip(j + 1));
                    proof {
                        if let Some((u, r2)) = elems(b@.skip(j + 1)) {
                            assert(out@.push(v as u8) + u =~= out@ + (seq![v as u8] + u));
                        }
                    }
                    out.push(v as u8);
                    i = j + 1;
                } else {
                    proof {
                        if j < n {
                            assert(r[0] == b@[j as int]);
                        }
                    }
                    assert(elems(t) is None);
                    return None;
                }
            },
        }
    }
}

// ---------------------------------------------------------------- arrays of byte arrays
/// `,[..],[..]` for the given byte strings.
pub open spec fn jtail2(ss: Seq<Seq<u8>>) -> Seq<u8>
    decreases ss.len(),
{
    if ss.len() == 0 {
        Seq::empty()
    } else {
        seq![44u8] + jarr(ss[0]) + jtail2(ss.drop_first())
    }
}

/// A JSON array of byte arrays.
pub open spec fn jarr2(ss: Seq<Seq<u8>>) -> Seq<u8> {
    if ss.len() == 0 {
        seq![91u8, 93u8]
    } else {
        seq![91u8] + jarr(ss[0]) + jtail2(ss.drop_first()) + seq![93u8]
    }
}

pub open spec fn elems2(b: Seq<u8>) -> Option<(Seq<Seq<u8>>, Seq<u8>)>
    decreases b.len(),
{
    match parse_jarr(b) {
        None => None,
        Some((v, r)) => {
            proof {
                lemma_parse_jarr_sound(b);
            }
            if r.len() > 0 && r[0] == 93 {
                Some((seq![v], r.drop_first()))
            } else if r.len() > 0 && r[0] == 44 {
                match elems2(r.drop_first()) {
                    Some((vs, r2)) => Some((seq![v] + vs, r2)),
                    None => None,
                }
            } else {
                None
            }
        },
    }
}

/// An array of byte arrays at the front of `b`, and what follows it.
pub open spec fn parse_jarr2(b: Seq<u8>) -> Option<(Seq<Seq<u8>>, Seq<u8>)> {
    if b.len() > 0 && b[0] == 91 {
        let r = b.drop_first();
        if r.len() > 0 && r[0] == 93 {
            Some((Seq::empty(), r.drop_first()))
        } else {
            elems2(r)
        }
    } else {
        None
    }
}

pub proof fn lemma_elems2_complete(x: Seq<u8>, t: Seq<Seq<u8>>, r: Seq<u8>)
    ensures
        elems2(jarr(x) + jtail2(t) + seq![93u8] + r) == Some((seq![x] + t, r)),
    decreases t.len(),
{
    let b = jarr(x) + jtail2(t) + seq![93u8] + r;
    let after = jtail2(t) + seq![93u8] + r;
    assert(b =~= jarr(x) + after);
    lemma_parse_jarr_complete(x, after);
    if t.len() == 0 {
        assert(after =~= seq![93u8] + r);
        assert(after.drop_first() =~= r);
        assert(seq![x] + t =~= seq![x]);
    } else {
        assert(after =~= seq![44u8] + (jarr(t[0]) + jtail2(t.drop_first()) + seq![93u8] + r));
        lemma_elems2_complete(t[0], t.drop_first(), r);
        assert(after.drop_first() =~= jarr(t[0]) + jtail2(t.drop_first()) + seq![93u8] + r);
        assert(seq![t[0]] + t.drop_first() =~= t);
        assert(seq![x] + (seq![t[0]] + t.drop_first()) =~= seq![x] + t);
    }
}

pub proof fn lemma_parse_jarr2_complete(ss: Seq<Seq<u8>>, r: Seq<u8>)
    ensures
        parse_jarr2(jarr2(ss) + r) == Some((ss, r)),
{
    let b = jarr2(ss) + r;
    if ss.len() == 0 {
        assert(b.drop_first() =~= seq![93u8] + r);
        assert((seq![93u8] + r).drop_first() =~= r);
        assert(ss =~= Seq::<Seq<u8>>::empty());
    } else {
        assert(b.drop_first() =~= jarr(ss[0]) + jtail2(ss.drop_first()) + seq![93u8] + r);
        assert(jarr(ss[0])[0] == 91);
        assert(b.drop_first()[0] == 91);
        lemma_elems2_complete(ss[0], ss.drop_first(), r);
        assert(seq![ss[0]] + ss.drop_first() =~= ss);
    }
}

#[verifier::spinoff_prover]
#[verifier::rlimit(40)]
pub proof fn lemma_elems2_sound(b: Seq<u8>)
    requires
        elems2(b) is Some,
    ensures
        elems2(b).unwrap().0.len() > 0,
        b == jarr(elems2(b).unwrap().0[0]) + jtail2(elems2(b).unwrap().0.drop_first()) + seq![
            93u8,
        ] + elems2(b).unwrap().1,
    decreases b.len(),
{
    lemma_parse_jarr_sound(b);
    let (v, r) = parse_jarr(b).unwrap();
    let (vs, rest) = elems2(b).unwrap();
    if r[0] == 93 {
        assert(vs =~= seq![v]);
        assert(vs.drop_first() =~= Seq::<Seq<u8>>::empty());
        assert(r =~= seq![93u8] + r.drop_first());
        assert(b =~= jarr(v) + jtail2(Seq::<Seq<u8>>::empty()) + seq![93u8] + rest);
    } else {
        lemma_elems2_sound(r.drop_first());
        let (ws, r2) = elems2(r.drop_first()).unwrap();
        assert(vs =~= seq![v] + ws);
        assert(vs.drop_first() =~= ws);
        assert(ws =~= seq![ws[0]] + ws.drop_first());
        assert(jtail2(ws) =~= seq![44u8] + jarr(ws[0]) + jtail2(ws.drop_first()));
        assert(r =~= seq![44u8] + r.drop_first());
        assert(b =~= jarr(v) + jtail2(vs.drop_first()) + seq![93u8] + rest);
    }
}

pub proof fn lemma_parse_jarr2_sound(b: Seq<u8>)
    requires
        parse_jarr2(b) is Some,
    ensures
        b == jarr2(parse_jarr2(b).unwrap().0) + parse_jarr2(b).unwrap().1,
{
    let r = b.drop_first();
    if r.len() > 0 && r[0] == 93 {
        assert(b =~= seq![91u8, 93u8] + r.drop_first());
    } else {
        lemma_elems2_sound(r);
        let (vs, rest) = elems2(r).unwrap();
        assert(b =~= seq![91u8] + r);
        assert(b =~= jarr2(vs) + rest);
    }
}

pub proof fn lemma_jtail2_push(t: Seq<Seq<u8>>, x: Seq<u8>)
    ensures
        jtail2(t.push(x)) == jtail2(t) + seq![44u8] + jarr(x),
    decreases t.len(),
{
    if t.len() == 0 {
        assert(t.push(x).drop_first() =~= Seq::<Seq<u8>>::empty());
        assert(t.push(x)[0] == x);
        assert(jtail2(Seq::<Seq<u8>>::empty()) =~= Seq::<u8>::empty());
        assert(jtail2(t) =~= Seq::<u8>::empty());
        assert(jtail2(t.push(x)) =~= seq![44u8] + jarr(x));
    } else {
        assert(t.push(x).drop_first() =~= t.drop_first().push(x));
        lemma_jtail2_push(t.drop_first(), x);
        assert(jtail2(t.push(x)) =~= jtail2(t) + seq![44u8] + jarr(x));
    }
}

/// The contents of a vector of byte vectors.
pub open spec fn views2(v: Seq<Vec<u8>>) -> Seq<Seq<u8>> {
    v.map_values(|x: Vec<u8>| x@)
}

/// Appends an array of byte arrays.
pub fn put_arr2(out: &mut Vec<u8>, ss: &Vec<Vec<u8>>)
    ensures
        final(out)@ == old(out)@ + jarr2(views2(ss@)),
{
    let ghost start = out@;
    let ghost vs = views2(ss@);
    out.push(91);
    if ss.len() == 0 {
        out.push(93);
        assert(out@ =~= start + jarr2(vs));
        return;
    }
    put_arr(out, ss[0].as_slice());
    let mut i: usize = 1;
    while i < ss.len()
        invariant
            1 <= i <= ss@.len(),
            vs == views2(ss@),
            out@ == start + seq![91u8] + jarr(vs[0]) + jtail2(vs.subrange(1, i as int)),
        decreases ss@.len() - i,
    {
        out.push(44);
        put_arr(out, ss[i].as_slice());
        proof {
            lemma_jtail2_push(vs.subrange(1, i as int), vs[i as int]);
            assert(vs.subrange(1, i + 1) =~= vs.subrange(1, i as int).push(vs[i as int]));
        }
        i += 1;
    }
    out.push(93);
    assert(vs.subrange(1, ss@.len() as int) =~= vs.drop_first());
    assert(out@ =~= start + jarr2(vs));
}

/// Reads an array of byte arrays at `pos`.
fn read_arr2_at(b: &[u8], pos: usize) -> (r: Option<(Vec<Vec<u8>>, usize)>)
    requires
        pos <= b@.len(),
    ensures
        match parse_jarr2(b@.skip(pos as int)) {
            Some((u, rest)) => r matches Some((v, p)) && views2(v@) == u && p == b@.len()
                - rest.len(),
            None => r is None,
        },
        r matches Some((_, p)) ==> pos < p <= b@.len(),
{
    let n = b.len();
    if pos >= n || b[pos] != 91 {
        return None;
    }
    let ghost s = b@.skip(pos as int);
    assert(s[0] == b@[pos as int]);
    assert(s.drop_first() =~= b@.skip(pos + 1));
    if pos + 1 < n && b[pos + 1] == 93 {
        assert(b@.skip(pos + 1)[0] == b@[pos + 1]);
        assert(b@.skip(pos + 1).drop_first() =~= b@.skip(pos + 2));
        let empty: Vec<Vec<u8>> = Vec::new();
        assert(views2(empty@) =~= Seq::<Seq<u8>>::empty());
        return Some((empty, pos + 2));
    }
    proof {
        if pos + 1 < n {
            assert(b@.skip(pos + 1)[0] == b@[pos + 1]);
        }
    }
    let ghost s0 = b@.skip(pos + 1);
    let mut out: Vec<Vec<u8>> = Vec::new();
    let mut i: usize = pos + 1;
    loop
        invariant
            n == b@.len(),
            pos < i <= n,
            parse_jarr2(s) == elems2(s0),
            s == b@.skip(pos as int),
            elems2(s0) == match elems2(b@.skip(i as int)) {
                Some((u, r)) => Some((views2(out@) + u, r)),
                None => None::<(Seq<Seq<u8>>, Seq<u8>)>,
            },
        decreases n - i,
    {
        let ghost t = b@.skip(i as int);
        match read_arr_at(b, i) {
            None => {
                assert(elems2(t) is None);
                return None;
            },
            Some((v, j)) => {
                let ghost r = b@.skip(j as int);
                let ghost vv = v@;
                proof {
                    lemma_parse_jarr_sound(t);
                    let rest = parse_jarr(t).unwrap().1;
                    assert(t =~= jarr(vv) + rest);
                    let m = jarr(vv).len() as int;
                    assert(rest =~= t.skip(m));
                    assert(t.skip(m) =~= b@.skip(i + m));
                    assert(j == i + m);
                    assert(rest =~= r);
                    assert(views2(out@.push(v)) =~= views2(out@).push(vv));
                }
                if j < n && b[j] == 93 {
                    assert(r[0] == b@[j as int]);
                    assert(r.drop_first() =~= b@.skip(j + 1));
                    out.push(v);
                    proof {
                        assert(views2(out@) =~= views2(out@).drop_last() + seq![vv]);
                    }
                    return Some((out, j + 1));
                } else if j < n && b[j] == 44 {
                    assert(r[0] == b@[j as int]);
                    assert(r.drop_first() =~= b@.skip(j + 1));
                    proof {
                        if let Some((u, r2)) = elems2(b@.skip(j + 1)) {
                            assert(views2(out@).push(vv) + u =~= views2(out@) + (seq![vv] + u));
                        }
                    }
                    out.push(v);
                    i = j + 1;
                } else {
                    proof {
                        if j < n {
                            assert(r[0] == b@[j as int]);
                        }
                    }
                    assert(elems2(t) is None);
                    return None;
                }
            },
        }
    }
}

// ---------------------------------------------------------------- optional numbers
pub open spec fn null_lit() -> Seq<u8> {
    seq![110u8, 117u8, 108u8, 108u8]
}

/// `null` or the number.
pub open spec fn jopt(o: Option<u16>) -> Seq<u8> {
    match o {
        None => null_lit(),
        Some(v) => dec(v as nat),
    }
}

/// An optional number no larger than `u16::MAX`, and what follows it.
pub open spec fn parse_jopt(b: Seq<u8>) -> Option<(Option<u16>, Seq<u8>)> {
    match after_lit(b, null_lit()) {
        Some(r) => Some((None, r)),
        None => match parse_num(b) {
            Some((v, r)) => if v <= u16::MAX {
                Some((Some(v as u16), r))
            } else {
                None
            },
            None => None,
        },
    }
}

pub proof fn lemma_parse_jopt_complete(o: Option<u16>, r: Seq<u8>)
    requires
        no_digit_start(r),
    ensures
        parse_jopt(jopt(o) + r) == Some((o, r)),
{
    match o {
        None => {
            lemma_after_lit(null_lit(), r);
        },
        Some(v) => {
            lemma_dec_shape(v as nat);
            let b = dec(v as nat) + r;
            assert(b[0] == dec(v as nat)[0]);
            assert(is_digit(dec(v as nat)[0]));
            if b.len() >= 4 {
                assert(b.take(4)[0] == b[0]);
                assert(b.take(4) != null_lit());
            }
            lemma_parse_num_complete(v as nat, r);
        },
    }
}

pub proof fn lemma_parse_jopt_sound(b: Seq<u8>)
    requires
        parse_jopt(b) is Some,
    ensures
        b == jopt(parse_jopt(b).unwrap().0) + parse_jopt(b).unwrap().1,
        no_digit_start(parse_jopt(b).unwrap().1) || parse_jopt(b).unwrap().0 is None,
{
    if after_lit(b, null_lit()) is Some {
        lemma_after_lit_sound(b, null_lit());
    } else {
        lemma_parse_num_sound(b);
    }
}

/// Appends `null` or a number.
pub fn put_opt(out: &mut Vec<u8>, o: Option<u16>)
    ensures
        final(out)@ == old(out)@ + jopt(o),
{
    match o {
        None => {
            put(out, &[110u8, 117, 108, 108]);
        },
        Some(v) => {
            put_num(out, v as u32);
        },
    }
}

/// Reads `null` or a number no larger than `u16::MAX` at `pos`.
fn read_opt_at(b: &[u8], pos: usize) -> (r: Option<(Option<u16>, usize)>)
    requires
        pos <= b@.len(),
    ensures
        match parse_jopt(b@.skip(pos as int)) {
            Some((o, rest)) => r == Some((o, (b@.len() - rest.len()) as usize)),
            None => r is None,
        },
        r matches Some((_, p)) ==> pos < p <= b@.len(),
{
    let lit: [u8; 4] = [110u8, 117, 108, 108];
    assert(lit@ == null_lit());
    match expect_lit(b, pos, &lit) {
        Some(p) => Some((None, p)),
        None => match read_num_at(b, pos, 65535) {
            Some((v, p)) => Some((Some(v as u16), p)),
            None => None,
        },
    }
}


// ---------------------------------------------------------------- fixed keys
/// `{"protocol_version":`
pub open spec fn k_protocol_version() -> Seq<u8> {
    seq![123u8, 34u8, 112u8, 114u8, 111u8, 116u8, 111u8, 99u8, 111u8, 108u8, 95u8, 118u8, 101u8, 114u8, 115u8, 105u8, 111u8, 110u8, 34u8, 58u8]
}

pub fn k_protocol_version_bytes() -> (r: [u8; 20])
    ensures
        r@ == k_protocol_version(),
{
    let r: [u8; 20] = [123, 34, 112, 114, 111, 116, 111, 99, 111, 108, 95, 118, 101, 114, 115, 105, 111, 110, 34, 58];
    assert(r@ =~= k_protocol_version());
    r
}

/// `,"session_id":`
pub open spec fn k_session_id() -> Seq<u8> {
    seq![44u8, 34u8, 115u8, 101u8, 115u8, 115u8, 105u8, 111u8, 110u8, 95u8, 105u8, 100u8, 34u8, 58u8]
}

pub fn k_session_id_bytes() -> (r: [u8; 14])
    ensures
        r@ == k_session_id(),
{
    let r: [u8; 14] = [44, 34, 115, 101, 115, 115, 105, 111, 110, 95, 105, 100, 34, 58];
    assert(r@ =~= k_session_id());
    r
}

/// `,"sender":`
pub open spec fn k_sender_next() -> Seq<u8> {
    seq![44u8, 34u8, 115u8, 101u8, 110u8, 100u8, 101u8, 114u8, 34u8, 58u8]
}

pub fn k_sender_next_bytes() -> (r: [u8; 10])
    ensures
        r@ == k_sender_next(),
{
    let r: [u8; 10] = [44, 34, 115, 101, 110, 100, 101, 114, 34, 58];
    assert(r@ =~= k_sender_next());
    r
}

/// `,"recipient":`
pub open spec fn k_recipient() -> Seq<u8> {
    seq![44u8, 34u8, 114u8, 101u8, 99u8, 105u8, 112u8, 105u8, 101u8, 110u8, 116u8, 34u8, 58u8]
}

pub fn k_recipient_bytes() -> (r: [u8; 13])
    ensures
        r@ == k_recipient(),
{
    let r: [u8; 13] = [44, 34, 114, 101, 99, 105, 112, 105, 101, 110, 116, 34, 58];
    assert(r@ =~= k_recipient());
    r
}

/// `,"kind":`
pub open spec fn k_kind() -> Seq<u8> {
    seq![44u8, 34u8, 107u8, 105u8, 110u8, 100u8, 34u8, 58u8]
}

pub fn k_kind_bytes() -> (r: [u8; 8])
    ensures
        r@ == k_kind(),
{
    let r: [u8; 8] = [44, 34, 107, 105, 110, 100, 34, 58];
    assert(r@ =~= k_kind());
    r
}

/// `,"payload":`
pub open spec fn k_payload() -> Seq<u8> {
    seq![44u8, 34u8, 112u8, 97u8, 121u8, 108u8, 111u8, 97u8, 100u8, 34u8, 58u8]
}

pub fn k_payload_bytes() -> (r: [u8; 11])
    ensures
        r@ == k_payload(),
{
    let r: [u8; 11] = [44, 34, 112, 97, 121, 108, 111, 97, 100, 34, 58];
    assert(r@ =~= k_payload());
    r
}

/// `}`
pub open spec fn k_close() -> Seq<u8> {
    seq![125u8]
}

pub fn k_close_bytes() -> (r: [u8; 1])
    ensures
        r@ == k_close(),
{
    let r: [u8; 1] = [125];
    assert(r@ =~= k_close());
    r
}

/// `{"Custom":`
pub open spec fn k_custom() -> Seq<u8> {
    seq![123u8, 34u8, 67u8, 117u8, 115u8, 116u8, 111u8, 109u8, 34u8, 58u8]
}

pub fn k_custom_bytes() -> (r: [u8; 10])
    ensures
        r@ == k_custom(),
{
    let r: [u8; 10] = [123, 34, 67, 117, 115, 116, 111, 109, 34, 58];
    assert(r@ =~= k_custom());
    r
}

/// `{"participant_id":`
pub open spec fn k_participant_id() -> Seq<u8> {
    seq![123u8, 34u8, 112u8, 97u8, 114u8, 116u8, 105u8, 99u8, 105u8, 112u8, 97u8, 110u8, 116u8, 95u8, 105u8, 100u8, 34u8, 58u8]
}

pub fn k_participant_id_bytes() -> (r: [u8; 18])
    ensures
        r@ == k_participant_id(),
{
    let r: [u8; 18] = [123, 34, 112, 97, 114, 116, 105, 99, 105, 112, 97, 110, 116, 95, 105, 100, 34, 58];
    assert(r@ =~= k_participant_id());
    r
}

/// `,"bytes":`
pub open spec fn k_bytes() -> Seq<u8> {
    seq![44u8, 34u8, 98u8, 121u8, 116u8, 101u8, 115u8, 34u8, 58u8]
}

pub fn k_bytes_bytes() -> (r: [u8; 9])
    ensures
        r@ == k_bytes(),
{
    let r: [u8; 9] = [44, 34, 98, 121, 116, 101, 115, 34, 58];
    assert(r@ =~= k_bytes());
    r
}

/// `{"sender":`
pub open spec fn k_sender() -> Seq<u8> {
    seq![123u8, 34u8, 115u8, 101u8, 110u8, 100u8, 101u8, 114u8, 34u8, 58u8]
}

pub fn k_sender_bytes() -> (r: [u8; 10])
    ensures
        r@ == k_sender(),
{
    let r: [u8; 10] = [123, 34, 115, 101, 110, 100, 101, 114, 34, 58];
    assert(r@ =~= k_sender());
    r
}

/// `,"signing_session_id":`
pub open spec fn k_signing_session_id() -> Seq<u8> {
    seq![44u8, 34u8, 115u8, 105u8, 103u8, 110u8, 105u8, 110u8, 103u8, 95u8, 115u8, 101u8, 115u8, 115u8, 105u8, 111u8, 110u8, 95u8, 105u8, 100u8, 34u8, 58u8]
}

pub fn k_signing_session_id_bytes() -> (r: [u8; 22])
    ensures
        r@ == k_signing_session_id(),
{
    let r: [u8; 22] = [44, 34, 115, 105, 103, 110, 105, 110, 103, 95, 115, 101, 115, 115, 105, 111, 110, 95, 105, 100, 34, 58];
    assert(r@ =~= k_signing_session_id());
    r
}

/// `,"public_nonce_bytes":`
pub open spec fn k_public_nonce_bytes() -> Seq<u8> {
    seq![44u8, 34u8, 112u8, 117u8, 98u8, 108u8, 105u8, 99u8, 95u8, 110u8, 111u8, 110u8, 99u8, 101u8, 95u8, 98u8, 121u8, 116u8, 101u8, 115u8, 34u8, 58u8]
}

pub fn k_public_nonce_bytes_bytes() -> (r: [u8; 22])
    ensures
        r@ == k_public_nonce_bytes(),
{
    let r: [u8; 22] = [44, 34, 112, 117, 98, 108, 105, 99, 95, 110, 111, 110, 99, 101, 95, 98, 121, 116, 101, 115, 34, 58];
    assert(r@ =~= k_public_nonce_bytes());
    r
}

/// `,"signature_share_bytes":`
pub open spec fn k_signature_share_bytes() -> Seq<u8> {
    seq![44u8, 34u8, 115u8, 105u8, 103u8, 110u8, 97u8, 116u8, 117u8, 114u8, 101u8, 95u8, 115u8, 104u8, 97u8, 114u8, 101u8, 95u8, 98u8, 121u8, 116u8, 101u8, 115u8, 34u8, 58u8]
}

pub fn k_signature_share_bytes_bytes() -> (r: [u8; 25])
    ensures
        r@ == k_signature_share_bytes(),
{
    let r: [u8; 25] = [44, 34, 115, 105, 103, 110, 97, 116, 117, 114, 101, 95, 115, 104, 97, 114, 101, 95, 98, 121, 116, 101, 115, 34, 58];
    assert(r@ =~= k_signature_share_bytes());
    r
}

/// `,"rank":`
pub open spec fn k_rank() -> Seq<u8> {
    seq![44u8, 34u8, 114u8, 97u8, 110u8, 107u8, 34u8, 58u8]
}

pub fn k_rank_bytes() -> (r: [u8; 8])
    ensures
        r@ == k_rank(),
{
    let r: [u8; 8] = [44, 34, 114, 97, 110, 107, 34, 58];
    assert(r@ =~= k_rank());
    r
}

/// `,"commitment_bytes":`
pub open spec fn k_commitment_bytes() -> Seq<u8> {
    seq![44u8, 34u8, 99u8, 111u8, 109u8, 109u8, 105u8, 116u8, 109u8, 101u8, 110u8, 116u8, 95u8, 98u8, 121u8, 116u8, 101u8, 115u8, 34u8, 58u8]
}

pub fn k_commitment_bytes_bytes() -> (r: [u8; 20])
    ensures
        r@ == k_commitment_bytes(),
{
    let r: [u8; 20] = [44, 34, 99, 111, 109, 109, 105, 116, 109, 101, 110, 116, 95, 98, 121, 116, 101, 115, 34, 58];
    assert(r@ =~= k_commitment_bytes());
    r
}

/// `,"recipient_rank":`
pub open spec fn k_recipient_rank() -> Seq<u8> {
    seq![44u8, 34u8, 114u8, 101u8, 99u8, 105u8, 112u8, 105u8, 101u8, 110u8, 116u8, 95u8, 114u8, 97u8, 110u8, 107u8, 34u8, 58u8]
}

pub fn k_recipient_rank_bytes() -> (r: [u8; 18])
    ensures
        r@ == k_recipient_rank(),
{
    let r: [u8; 18] = [44, 34, 114, 101, 99, 105, 112, 105, 101, 110, 116, 95, 114, 97, 110, 107, 34, 58];
    assert(r@ =~= k_recipient_rank());
    r
}

/// `,"share_value_bytes":`
pub open spec fn k_share_value_bytes() -> Seq<u8> {
    seq![44u8, 34u8, 115u8, 104u8, 97u8, 114u8, 101u8, 95u8, 118u8, 97u8, 108u8, 117u8, 101u8, 95u8, 98u8, 121u8, 116u8, 101u8, 115u8, 34u8, 58u8]
}

pub fn k_share_value_bytes_bytes() -> (r: [u8; 21])
    ensures
        r@ == k_share_value_bytes(),
{
    let r: [u8; 21] = [44, 34, 115, 104, 97, 114, 101, 95, 118, 97, 108, 117, 101, 95, 98, 121, 116, 101, 115, 34, 58];
    assert(r@ =~= k_share_value_bytes());
    r
}


// ---------------------------------------------------------------- message kinds
/// The serialized name of a built-in kind.
pub open spec fn variant_name(k: KindView) -> Seq<char> {
    match k {
        KindView::SessionManifest => "SessionManifest"@,
        KindView::FrostDkgRound1 => "FrostDkgRound1"@,
        KindView::FrostDkgRound2 => "FrostDkgRound2"@,
        KindView::HtssDkgRound1 => "HtssDkgRound1"@,
        KindView::HtssDkgRound2 => "HtssDkgRound2"@,
        KindView::FrostSigningNonce => "FrostSigningNonce"@,
        KindView::FrostSignatureShare => "FrostSignatureShare"@,
        KindView::HtssSigningNonce => "HtssSigningNonce"@,
        KindView::HtssSignatureShare => "HtssSignatureShare"@,
        KindView::Custom(_) => Seq::empty(),
    }
}

/// The built-in kind a serialized name stands for.
pub open spec fn kind_of_name(t: Seq<char>) -> Option<KindView> {
    if t == "SessionManifest"@ {
        Some(KindView::SessionManifest)
    } else if t == "FrostDkgRound1"@ {
        Some(KindView::FrostDkgRound1)
    } else if t == "FrostDkgRound2"@ {
        Some(KindView::FrostDkgRound2)
    } else if t == "HtssDkgRound1"@ {
        Some(KindView::HtssDkgRound1)
    } else if t == "HtssDkgRound2"@ {
        Some(KindView::HtssDkgRound2)
    } else if t == "FrostSigningNonce"@ {
        Some(KindView::FrostSigningNonce)
    } else if t == "FrostSignatureShare"@ {
        Some(KindView::FrostSignatureShare)
    } else if t == "HtssSigningNonce"@ {
        Some(KindView::HtssSigningNonce)
    } else if t == "HtssSignatureShare"@ {
        Some(KindView::HtssSignatureShare)
    } else {
        None
    }
}

/// The JSON form of a message kind.
pub open spec fn enc_kind(k: KindView) -> Seq<u8> {
    match k {
        KindView::Custom(s) => k_custom() + jstr(s) + k_close(),
        _ => jstr(variant_name(k)),
    }
}

/// A message kind at the front of `b`, and what follows it.
pub open spec fn parse_kind(b: Seq<u8>) -> Option<(KindView, Seq<u8>)> {
    match after_lit(b, k_custom()) {
        Some(b1) => match parse_text(b1) {
            Some((s, b2)) => match after_lit(b2, k_close()) {
                Some(b3) => Some((KindView::Custom(s), b3)),
                None => None,
            },
            None => None,
        },
        None => match parse_text(b) {
            Some((t, b1)) => match kind_of_name(t) {
                Some(k) => Some((k, b1)),
                None => None,
            },
            None => None,
        },
    }
}

#[verifier::spinoff_prover]
pub proof fn lemma_kind_names(k: KindView)
    requires
        !(k is Custom),
    ensures
        kind_of_name(variant_name(k)) == Some(k),
{
    reveal_strlit("SessionManifest");
    reveal_strlit("FrostDkgRound1");
    reveal_strlit("FrostDkgRound2");
    reveal_strlit("HtssDkgRound1");
    reveal_strlit("HtssDkgRound2");
    reveal_strlit("FrostSigningNonce");
    reveal_strlit("FrostSignatureShare");
    reveal_strlit("HtssSigningNonce");
    reveal_strlit("HtssSignatureShare");
    let n = variant_name(k);
    match k {
        KindView::SessionManifest => {
            assert(n == "SessionManifest"@);
        },
        KindView::FrostDkgRound1 => {
            assert(n == "FrostDkgRound1"@);
            assert(n != "SessionManifest"@) by { assert(n.len() != "SessionManifest"@.len()); }
        },
        KindView::FrostDkgRound2 => {
            assert(n == "FrostDkgRound2"@);
            assert(n != "SessionManifest"@) by { assert(n.len() != "SessionManifest"@.len()); }
            assert(n != "FrostDkgRound1"@) by { assert(n[13] != "FrostDkgRound1"@[13]); }
        },
        KindView::HtssDkgRound1 => {
            assert(n == "HtssDkgRound1"@);
            assert(n != "SessionManifest"@) by { assert(n.len() != "SessionManifest"@.len()); }
            assert(n != "FrostDkgRound1"@) by { assert(n.len() != "FrostDkgRound1"@.len()); }
            assert(n != "FrostDkgRound2"@) by { assert(n.len() != "FrostDkgRound2"@.len()); }
        },
        KindView::HtssDkgRound2 => {
            assert(n == "HtssDkgRound2"@);
            assert(n != "SessionManifest"@) by { assert(n.len() != "SessionManifest"@.len()); }
            assert(n != "FrostDkgRound1"@) by { assert(n.len() != "FrostDkgRound1"@.len()); }
            assert(n != "FrostDkgRound2"@) by { assert(n.len() != "FrostDkgRound2"@.len()); }
            assert(n != "HtssDkgRound1"@) by { assert(n[12] != "HtssDkgRound1"@[12]); }
        },
        KindView::FrostSigningNonce => {
            assert(n == "FrostSigningNonce"@);
            assert(n != "SessionManifest"@) by { assert(n.len() != "SessionManifest"@.len()); }
            assert(n != "FrostDkgRound1"@) by { assert(n.len() != "FrostDkgRound1"@.len()); }
            assert(n != "FrostDkgRound2"@) by { assert(n.len() != "FrostDkgRound2"@.len()); }
            assert(n != "HtssDkgRound1"@) by { assert(n.len() != "HtssDkgRound1"@.len()); }
            assert(n != "HtssDkgRound2"@) by { assert(n.len() != "HtssDkgRound2"@.len()); }
        },
        KindView::FrostSignatureShare => {
            assert(n == "FrostSignatureShare"@);
            assert(n != "SessionManifest"@) by { assert(n.len() != "SessionManifest"@.len()); }
            assert(n != "FrostDkgRound1"@) by { assert(n.len() != "FrostDkgRound1"@.len()); }
            assert(n != "FrostDkgRound2"@) by { assert(n.len() != "FrostDkgRound2"@.len()); }
            assert(n != "HtssDkgRound1"@) by { assert(n.len() != "HtssDkgRound1"@.len()); }
            assert(n != "HtssDkgRound2"@) by { assert(n.len() != "HtssDkgRound2"@.len()); }
            assert(n != "FrostSigningNonce"@) by { assert(n.len() != "FrostSigningNonce"@.len()); }
        },
        KindView::HtssSigningNonce => {
            assert(n == "HtssSigningNonce"@);
            assert(n != "SessionManifest"@) by { assert(n.len() != "SessionManifest"@.len()); }
            assert(n != "FrostDkgRound1"@) by { assert(n.len() != "FrostDkgRound1"@.len()); }
            assert(n != "FrostDkgRound2"@) by { assert(n.len() != "FrostDkgRound2"@.len()); }
            assert(n != "HtssDkgRound1"@) by { assert(n.len() != "HtssDkgRound1"@.len()); }
            assert(n != "HtssDkgRound2"@) by { assert(n.len() != "HtssDkgRound2"@.len()); }
            assert(n != "FrostSigningNonce"@) by { assert(n.len() != "FrostSigningNonce"@.len()); }
            assert(n != "FrostSignatureShare"@) by { assert(n.len() != "FrostSignatureShare"@.len()); }
        },
        KindView::HtssSignatureShare => {
            assert(n == "HtssSignatureShare"@);
            assert(n != "SessionManifest"@) by { assert(n.len() != "SessionManifest"@.len()); }
            assert(n != "FrostDkgRound1"@) by { assert(n.len() != "FrostDkgRound1"@.len()); }
            assert(n != "FrostDkgRound2"@) by { assert(n.len() != "FrostDkgRound2"@.len()); }
            assert(n != "HtssDkgRound1"@) by { assert(n.len() != "HtssDkgRound1"@.len()); }
            assert(n != "HtssDkgRound2"@) by { assert(n.len() != "HtssDkgRound2"@.len()); }
            assert(n != "FrostSigningNonce"@) by { assert(n.len() != "FrostSigningNonce"@.len()); }
            assert(n != "FrostSignatureShare"@) by { assert(n.len() != "FrostSignatureShare"@.len()); }
            assert(n != "HtssSigningNonce"@) by { assert(n.len() != "HtssSigningNonce"@.len()); }
        },
        KindView::Custom(_) => {},
    }
}

pub proof fn lemma_parse_kind_complete(k: KindView, r: Seq<u8>)
    ensures
        parse_kind(enc_kind(k) + r) == Some((k, r)),
{
    match k {
        KindView::Custom(s) => {
            let b = enc_kind(k) + r;
            assert(b =~= k_custom() + (jstr(s) + (k_close() + r)));
            lemma_after_lit(k_custom(), jstr(s) + (k_close() + r));
            lemma_parse_text_complete(s, k_close() + r);
            lemma_after_lit(k_close(), r);
        },
        _ => {
            let b = enc_kind(k) + r;
            assert(b[0] == 34);
            assert(after_lit(b, k_custom()) is None) by {
                if b.len() >= k_custom().len() {
                    assert(b.take(k_custom().len() as int)[0] == b[0]);
                }
            }
            lemma_parse_text_complete(variant_name(k), r);
            lemma_kind_names(k);
        },
    }
}

#[verifier::spinoff_prover]
#[verifier::rlimit(40)]
pub proof fn lemma_parse_kind_sound(b: Seq<u8>)
    requires
        parse_kind(b) is Some,
    ensures
        b == enc_kind(parse_kind(b).unwrap().0) + parse_kind(b).unwrap().1,
{
    match after_lit(b, k_custom()) {
        Some(b1) => {
            lemma_after_lit_sound(b, k_custom());
            lemma_parse_text_sound(b1);
            let (s, b2) = parse_text(b1).unwrap();
            lemma_after_lit_sound(b2, k_close());
            assert(b =~= k_custom() + jstr(s) + k_close() + after_lit(b2, k_close()).unwrap());
        },
        None => {
            lemma_parse_text_sound(b);
            let (t, b1) = parse_text(b).unwrap();
            let k = kind_of_name(t).unwrap();
            assert(variant_name(k) == t);
        },
    }
}

/// Appends the JSON form of a message kind.
pub fn put_kind(out: &mut Vec<u8>, k: &ProtocolMessageKind)
    ensures
        final(out)@ == old(out)@ + enc_kind(k@),
{
    match k {
        ProtocolMessageKind::SessionManifest => put_str(out, "SessionManifest"),
        ProtocolMessageKind::FrostDkgRound1 => put_str(out, "FrostDkgRound1"),
        ProtocolMessageKind::FrostDkgRound2 => put_str(out, "FrostDkgRound2"),
        ProtocolMessageKind::HtssDkgRound1 => put_str(out, "HtssDkgRound1"),
        ProtocolMessageKind::HtssDkgRound2 => put_str(out, "HtssDkgRound2"),
        ProtocolMessageKind::FrostSigningNonce => put_str(out, "FrostSigningNonce"),
        ProtocolMessageKind::FrostSignatureShare => put_str(out, "FrostSignatureShare"),
        ProtocolMessageKind::HtssSigningNonce => put_str(out, "HtssSigningNonce"),
        ProtocolMessageKind::HtssSignatureShare => put_str(out, "HtssSignatureShare"),
        ProtocolMessageKind::Custom(s) => {
            let ghost start = out@;
            put(out, &k_custom_bytes());
            put_str(out, s.as_str());
            put(out, &k_close_bytes());
            assert(out@ =~= start + enc_kind(k@));
        },
    }
}

/// Reads a message kind at `pos`.
fn read_kind_at(b: &[u8], pos: usize) -> (r: Option<(ProtocolMessageKind, usize)>)
    requires
        pos <= b@.len(),
    ensures
        match parse_kind(b@.skip(pos as int)) {
            Some((k, rest)) => r matches Some((v, p)) && v@ == k && p == b@.len() - rest.len(),
            None => r is None,
        },
        r matches Some((_, p)) ==> pos < p <= b@.len(),
{
    match expect_lit(b, pos, &k_custom_bytes()) {
        Some(p1) => {
            assert(b@.skip(pos as int).skip(k_custom().len() as int) =~= b@.skip(p1 as int));
            match read_str_at(b, p1) {
                Some((s, p2)) => {
                    proof {
                        let (t, rest) = parse_text(b@.skip(p1 as int)).unwrap();
                        lemma_parse_text_sound(b@.skip(p1 as int));
                        lemma_suffix(b@, p1 as int, jstr(t), rest);
                    }
                    match expect_lit(b, p2, &k_close_bytes()) {
                        Some(p3) => {
                            proof {
                                assert(b@.skip(p2 as int).skip(1) =~= b@.skip(p3 as int));
                            }
                            Some((ProtocolMessageKind::Custom(s), p3))
                        },
                        None => None,
                    }
                },
                None => None,
            }
        },
        None => match read_str_at(b, pos) {
            Some((t, p1)) => {
                proof {
                    let (tt, rest) = parse_text(b@.skip(pos as int)).unwrap();
                    lemma_parse_text_sound(b@.skip(pos as int));
                    lemma_suffix(b@, pos as int, jstr(tt), rest);
                }
                let t = t.as_str();
                if str_eq(t, "SessionManifest") {
                    Some((ProtocolMessageKind::SessionManifest, p1))
                } else if str_eq(t, "FrostDkgRound1") {
                    Some((ProtocolMessageKind::FrostDkgRound1, p1))
                } else if str_eq(t, "FrostDkgRound2") {
                    Some((ProtocolMessageKind::FrostDkgRound2, p1))
                } else if str_eq(t, "HtssDkgRound1") {
                    Some((ProtocolMessageKind::HtssDkgRound1, p1))
                } else if str_eq(t, "HtssDkgRound2") {
                    Some((ProtocolMessageKind::HtssDkgRound2, p1))
                } else if str_eq(t, "FrostSigningNonce") {
                    Some((ProtocolMessageKind::FrostSigningNonce, p1))
                } else if str_eq(t, "FrostSignatureShare") {
                    Some((ProtocolMessageKind::FrostSignatureShare, p1))
                } else if str_eq(t, "HtssSigningNonce") {
                    Some((ProtocolMessageKind::HtssSigningNonce, p1))
                } else if str_eq(t, "HtssSignatureShare") {
                    Some((ProtocolMessageKind::HtssSignatureShare, p1))
                } else {
                    None
                }
            },
            None => None,
        },
    }
}


// ---------------------------------------------------------------- cursor readers
/// Reads at `pos`; on success the position returned is where the rest begins.
pub fn read_num(b: &[u8], pos: usize, max: u32) -> (r: Option<(u32, usize)>)
    requires
        pos <= b@.len(),
        max <= 0xFFFF_FFF,
    ensures
        match parse_num(b@.skip(pos as int)) {
            Some((v, rest)) => if v <= max as nat {
                r == Some((v as u32, (b@.len() - rest.len()) as usize))
            } else {
                r is None
            },
            None => r is None,
        },
        r matches Some((_, p)) ==> pos < p <= b@.len() && b@.skip(p as int) == parse_num(
            b@.skip(pos as int),
        ).unwrap().1,
{
    let n = b.len();
    let r = read_num_at(b, pos, max);
    proof {
        assert(n == b@.len());
        if let Some((_, p)) = r {
            let x = parse_num(b@.skip(pos as int)).unwrap();
            lemma_parse_num_sound(b@.skip(pos as int));
            lemma_suffix(b@, pos as int, dec(x.0), x.1);
        }
    }
    r
}

/// Reads at `pos`; on success the position returned is where the rest begins.
pub fn read_str(b: &[u8], pos: usize) -> (r: Option<(String, usize)>)
    requires
        pos <= b@.len(),
    ensures
        match parse_text(b@.skip(pos as int)) {
            Some((t, rest)) => r matches Some((v, p)) && v@ == t && p == b@.len() - rest.len(),
            None => r is None,
        },
        r matches Some((_, p)) ==> pos < p <= b@.len() && b@.skip(p as int) == parse_text(
            b@.skip(pos as int),
        ).unwrap().1,
{
    let r = read_str_at(b, pos);
    proof {
        if let Some((_, p)) = r {
            let x = parse_text(b@.skip(pos as int)).unwrap();
            lemma_parse_text_sound(b@.skip(pos as int));
            lemma_suffix(b@, pos as int, jstr(x.0), x.1);
        }
    }
    r
}

/// Reads at `pos`; on success the position returned is where the rest begins.
pub fn read_arr(b: &[u8], pos: usize) -> (r: Option<(Vec<u8>, usize)>)
    requires
        pos <= b@.len(),
    ensures
        match parse_jarr(b@.skip(pos as int)) {
            Some((u, rest)) => r matches Some((v, p)) && v@ == u && p == b@.len() - rest.len(),
            None => r is None,
        },
        r matches Some((_, p)) ==> pos < p <= b@.len() && b@.skip(p as int) == parse_jarr(
            b@.skip(pos as int),
        ).unwrap().1,
{
    let r = read_arr_at(b, pos);
    proof {
        if let Some((_, p)) = r {
            let x = parse_jarr(b@.skip(pos as int)).unwrap();
            lemma_parse_jarr_sound(b@.skip(pos as int));
            lemma_suffix(b@, pos as int, jarr(x.0), x.1);
        }
    }
    r
}

/// Reads at `pos`; on success the position returned is where the rest begins.
pub fn read_arr2(b: &[u8], pos: usize) -> (r: Option<(Vec<Vec<u8>>, usize)>)
    requires
        pos <= b@.len(),
    ensures
        match parse_jarr2(b@.skip(pos as int)) {
            Some((u, rest)) => r matches Some((v, p)) && views2(v@) == u && p == b@.len()
                - rest.len(),
            None => r is None,
        },
        r matches Some((_, p)) ==> pos < p <= b@.len() && b@.skip(p as int) == parse_jarr2(
            b@.skip(pos as int),
        ).unwrap().1,
{
    let r = read_arr2_at(b, pos);
    proof {
        if let Some((_, p)) = r {
            let x = parse_jarr2(b@.skip(pos as int)).unwrap();
            lemma_parse_jarr2_sound(b@.skip(pos as int));
            lemma_suffix(b@, pos as int, jarr2(x.0), x.1);
        }
    }
    r
}

/// Reads at `pos`; on success the position returned is where the rest begins.
pub fn read_opt(b: &[u8], pos: usize) -> (r: Option<(Option<u16>, usize)>)
    requires
        pos <= b@.len(),
    ensures
        match parse_jopt(b@.skip(pos as int)) {
            Some((o, rest)) => r == Some((o, (b@.len() - rest.len()) as usize)),
            None => r is None,
        },
        r matches Some((_, p)) ==> pos < p <= b@.len() && b@.skip(p as int) == parse_jopt(
            b@.skip(pos as int),
        ).unwrap().1,
{
    let n = b.len();
    let r = read_opt_at(b, pos);
    proof {
        assert(n == b@.len());
        if let Some((_, p)) = r {
            let x = parse_jopt(b@.skip(pos as int)).unwrap();
            lemma_parse_jopt_sound(b@.skip(pos as int));
            lemma_suffix(b@, pos as int, jopt(x.0), x.1);
        }
    }
    r
}

/// Reads at `pos`; on success the position returned is where the rest begins.
pub fn read_kind(b: &[u8], pos: usize) -> (r: Option<(ProtocolMessageKind, usize)>)
    requires
        pos <= b@.len(),
    ensures
        match parse_kind(b@.skip(pos as int)) {
            Some((k, rest)) => r matches Some((v, p)) && v@ == k && p == b@.len() - rest.len(),
            None => r is None,
        },
        r matches Some((_, p)) ==> pos < p <= b@.len() && b@.skip(p as int) == parse_kind(
            b@.skip(pos as int),
        ).unwrap().1,
{
    let r = read_kind_at(b, pos);
    proof {
        if let Some((_, p)) = r {
            let x = parse_kind(b@.skip(pos as int)).unwrap();
            lemma_parse_kind_sound(b@.skip(pos as int));
            lemma_suffix(b@, pos as int, enc_kind(x.0), x.1);
        }
    }
    r
}


// ---------------------------------------------------------------- protocol messages
/// The JSON wire form of a protocol message.
pub open spec fn enc_message(m: MessageView) -> Seq<u8> {
    k_protocol_version() + (jstr(m.protocol_version) + (k_session_id() + (jstr(m.session_id) + (
    k_sender_next() + (dec(m.sender as nat) + (k_recipient() + (jopt(m.recipient) + (k_kind() + (
    enc_kind(m.kind) + (k_payload() + (jarr(m.payload) + k_close())))))))))))
}

/// The protocol message a byte string holds, if it holds exactly one.
pub open spec fn dec_message(b: Seq<u8>) -> Option<MessageView> {
    match after_lit(b, k_protocol_version()) {
        None => None,
        Some(b1) => match parse_text(b1) {
            None => None,
            Some((pv, b2)) => match after_lit(b2, k_session_id()) {
                None => None,
                Some(b3) => match parse_text(b3) {
                    None => None,
                    Some((sid, b4)) => match after_lit(b4, k_sender_next()) {
                        None => None,
                        Some(b5) => match parse_num(b5) {
                            None => None,
                            Some((snd, b6)) => if snd > u16::MAX {
                                None
                            } else {
                                match after_lit(b6, k_recipient()) {
                                    None => None,
                                    Some(b7) => match parse_jopt(b7) {
                                        None => None,
                                        Some((rc, b8)) => match after_lit(b8, k_kind()) {
                                            None => None,
                                            Some(b9) => match parse_kind(b9) {
                                                None => None,
                                                Some((k, b10)) => match after_lit(b10, k_payload()) {
                                                    None => None,
                                                    Some(b11) => match parse_jarr(b11) {
                                                        None => None,
                                                        Some((pl, b12)) => if b12 == k_close() {
                                                            Some(
                                                                MessageView {
                                                                    protocol_version: pv,
                                                                    session_id: sid,
                                                                    sender: snd as u16,
                                                                    recipient: rc,
                                                                    kind: k,
                                                                    payload: pl,
                                                                },
                                                            )
                                                        } else {
                                                            None
                                                        },
                                                    },
                                                },
                                            },
                                        },
                                    },
                                }
                            },
                        },
                    },
                },
            },
        },
    }
}

/// Decoding inverts encoding.
pub proof fn lemma_message_round_trip(m: MessageView)
    ensures
        dec_message(enc_message(m)) == Some(m),
{
    let t12 = k_close();
    let t11 = jarr(m.payload) + t12;
    let t10 = k_payload() + t11;
    let t9 = enc_kind(m.kind) + t10;
    let t8 = k_kind() + t9;
    let t7 = jopt(m.recipient) + t8;
    let t6 = k_recipient() + t7;
    let t5 = dec(m.sender as nat) + t6;
    let t4 = k_sender_next() + t5;
    let t3 = jstr(m.session_id) + t4;
    let t2 = k_session_id() + t3;
    let t1 = jstr(m.protocol_version) + t2;
    let t0 = k_protocol_version() + t1;
    assert(enc_message(m) == t0);
    lemma_after_lit(k_protocol_version(), t1);
    lemma_parse_text_complete(m.protocol_version, t2);
    lemma_after_lit(k_session_id(), t3);
    lemma_parse_text_complete(m.session_id, t4);
    lemma_after_lit(k_sender_next(), t5);
    lemma_parse_num_complete(m.sender as nat, t6);
    lemma_after_lit(k_recipient(), t7);
    lemma_parse_jopt_complete(m.recipient, t8);
    lemma_after_lit(k_kind(), t9);
    lemma_parse_kind_complete(m.kind, t10);
    lemma_after_lit(k_payload(), t11);
    lemma_parse_jarr_complete(m.payload, t12);
}

/// Only encodings decode: a decoded message re-encodes to the very bytes read.
pub proof fn lemma_message_decode_sound(b: Seq<u8>)
    requires
        dec_message(b) is Some,
    ensures
        b == enc_message(dec_message(b).unwrap()),
{
    let b1 = after_lit(b, k_protocol_version()).unwrap();
    lemma_after_lit_sound(b, k_protocol_version());
    let (pv, b2) = parse_text(b1).unwrap();
    lemma_parse_text_sound(b1);
    let b3 = after_lit(b2, k_session_id()).unwrap();
    lemma_after_lit_sound(b2, k_session_id());
    let (sid, b4) = parse_text(b3).unwrap();
    lemma_parse_text_sound(b3);
    let b5 = after_lit(b4, k_sender_next()).unwrap();
    lemma_after_lit_sound(b4, k_sender_next());
    let (snd, b6) = parse_num(b5).unwrap();
    lemma_parse_num_sound(b5);
    let b7 = after_lit(b6, k_recipient()).unwrap();
    lemma_after_lit_sound(b6, k_recipient());
    let (rc, b8) = parse_jopt(b7).unwrap();
    lemma_parse_jopt_sound(b7);
    let b9 = after_lit(b8, k_kind()).unwrap();
    lemma_after_lit_sound(b8, k_kind());
    let (k, b10) = parse_kind(b9).unwrap();
    lemma_parse_kind_sound(b9);
    let b11 = after_lit(b10, k_payload()).unwrap();
    lemma_after_lit_sound(b10, k_payload());
    let (pl, b12) = parse_jarr(b11).unwrap();
    lemma_parse_jarr_sound(b11);
    let m = dec_message(b).unwrap();
    assert((snd as u16) as nat == snd);
    assert(b == enc_message(m));
}

/// Joins two byte vectors.
pub fn cat(a: Vec<u8>, b: Vec<u8>) -> (r: Vec<u8>)
    ensures
        r@ == a@ + b@,
{
    let mut a = a;
    let mut b = b;
    a.append(&mut b);
    a
}

/// A vector holding a literal.
pub fn lit_vec(lit: &[u8]) -> (r: Vec<u8>)
    ensures
        r@ == lit@,
{
    let mut out = Vec::new();
    put(&mut out, lit);
    out
}

/// The quoted form of a text as a vector.
pub fn str_vec(s: &str) -> (r: Vec<u8>)
    ensures
        r@ == jstr(s@),
{
    let mut out = Vec::new();
    put_str(&mut out, s);
    out
}

/// The decimal digits of a number as a vector.
pub fn num_vec(n: u32) -> (r: Vec<u8>)
    ensures
        r@ == dec(n as nat),
{
    let mut out = Vec::new();
    put_num(&mut out, n);
    out
}

/// A byte array as a vector.
pub fn arr_vec(s: &[u8]) -> (r: Vec<u8>)
    ensures
        r@ == jarr(s@),
{
    let mut out = Vec::new();
    put_arr(&mut out, s);
    out
}

/// Writes the JSON wire form of a message.
pub fn encode_message(m: &ProtocolMessage) -> (r: Vec<u8>)
    ensures
        r@ == enc_message(m@),
{
    let rc = match m.recipient {
        Some(p) => Some(p.0),
        None => None,
    };
    let mut kind_bytes = Vec::new();
    put_kind(&mut kind_bytes, &m.kind);
    let mut opt_bytes = Vec::new();
    put_opt(&mut opt_bytes, rc);
    let t = cat(arr_vec(m.payload.as_slice()), lit_vec(&k_close_bytes()));
    let t = cat(lit_vec(&k_payload_bytes()), t);
    let t = cat(kind_bytes, t);
    let t = cat(lit_vec(&k_kind_bytes()), t);
    let t = cat(opt_bytes, t);
    let t = cat(lit_vec(&k_recipient_bytes()), t);
    let t = cat(num_vec(m.sender.0 as u32), t);
    let t = cat(lit_vec(&k_sender_next_bytes()), t);
    let t = cat(str_vec(m.session_id.0.as_str()), t);
    let t = cat(lit_vec(&k_session_id_bytes()), t);
    let t = cat(str_vec(m.protocol_version.as_str()), t);
    let t = cat(lit_vec(&k_protocol_version_bytes()), t);
    assert(opt_bytes@ == jopt(opt_id(m.recipient)));
    t
}

/// Reads a protocol message from exactly the given bytes.
pub fn decode_message(b: &[u8]) -> (r: Option<ProtocolMessage>)
    ensures
        match dec_message(b@) {
            Some(m) => r matches Some(x) && x@ == m,
            None => r is None,
        },
{
    let n = b.len();
    assert(b@.skip(0) =~= b@);
    let p1 = match expect_lit(b, 0, &k_protocol_version_bytes()) {
        Some(p) => p,
        None => return None,
    };
    let (pv, p2) = match read_str(b, p1) {
        Some(x) => x,
        None => return None,
    };
    let p3 = match expect_lit(b, p2, &k_session_id_bytes()) {
        Some(p) => p,
        None => return None,
    };
    let (sid, p4) = match read_str(b, p3) {
        Some(x) => x,
        None => return None,
    };
    let p5 = match expect_lit(b, p4, &k_sender_next_bytes()) {
        Some(p) => p,
        None => return None,
    };
    let (snd, p6) = match read_num(b, p5, 65535) {
        Some(x) => x,
        None => {
            assert(dec_message(b@) is None);
            return None;
        },
    };
    let p7 = match expect_lit(b, p6, &k_recipient_bytes()) {
        Some(p) => p,
        None => return None,
    };
    let (rc, p8) = match read_opt(b, p7) {
        Some(x) => x,
        None => return None,
    };
    let p9 = match expect_lit(b, p8, &k_kind_bytes()) {
        Some(p) => p,
        None => return None,
    };
    let (kind, p10) = match read_kind(b, p9) {
        Some(x) => x,
        None => return None,
    };
    let p11 = match expect_lit(b, p10, &k_payload_bytes()) {
        Some(p) => p,
        None => return None,
    };
    let (payload, p12) = match read_arr(b, p11) {
        Some(x) => x,
        None => return None,
    };
    let p13 = match expect_lit(b, p12, &k_close_bytes()) {
        Some(p) => p,
        None => {
            assert(b@.skip(p12 as int) != k_close()) by {
                if b@.skip(p12 as int) == k_close() {
                    assert(b@.skip(p12 as int).take(1) =~= k_close());
                }
            }
            return None;
        },
    };
    if p13 != n {
        assert(b@.skip(p12 as int) != k_close()) by {
            if b@.skip(p12 as int) == k_close() {
                assert(b@.skip(p12 as int).skip(1).len() == 0);
            }
        }
        return None;
    }
    assert(b@.skip(p12 as int) =~= k_close()) by {
        assert(b@.skip(p12 as int).take(1) == k_close());
        assert(b@.skip(p12 as int).len() == 1);
    }
    let recipient = match rc {
        Some(v) => Some(ParticipantId(v)),
        None => None,
    };
    Some(
        ProtocolMessage {
            protocol_version: pv,
            session_id: SessionId(sid),
            sender: ParticipantId(snd as u16),
            recipient,
            kind,
            payload,
        },
    )
}


// ---------------------------------------------------------------- the wire form is text
/// Every byte is below 0x80.
pub open spec fn ascii_bytes(b: Seq<u8>) -> bool {
    forall|i: int| 0 <= i < b.len() ==> #[trigger] b[i] < 128
}

proof fn lemma_ascii_concat(a: Seq<u8>, b: Seq<u8>)
    requires
        ascii_bytes(a),
        ascii_bytes(b),
    ensures
        ascii_bytes(a + b),
{
    assert forall|i: int| 0 <= i < (a + b).len() implies #[trigger] (a + b)[i] < 128 by {
        if i < a.len() {
            assert((a + b)[i] == a[i]);
        } else {
            assert((a + b)[i] == b[i - a.len()]);
        }
    }
}

/// ASCII bytes are UTF-8.
proof fn lemma_ascii_utf8(b: Seq<u8>)
    requires
        ascii_bytes(b),
    ensures
        vstd::utf8::valid_utf8(b),
    decreases b.len(),
{
    if b.len() > 0 {
        let x = b[0];
        assert(x < 128);
        assert((x & 0x7F) as u32 <= 0x7F) by (bit_vector);
        assert(vstd::utf8::valid_first_scalar(b));
        let rest = vstd::utf8::pop_first_scalar(b);
        assert(rest =~= b.drop_first());
        lemma_ascii_utf8(rest);
    }
}

proof fn lemma_dec_ascii(n: nat)
    ensures
        ascii_bytes(dec(n)),
    decreases n,
{
    if n >= 10 {
        lemma_dec_ascii(n / 10);
        assert(ascii_bytes(seq![(48 + n % 10) as u8]));
        lemma_ascii_concat(dec(n / 10), seq![(48 + n % 10) as u8]);
        assert(dec(n / 10).push((48 + n % 10) as u8) =~= dec(n / 10) + seq![(48 + n % 10) as u8]);
    }
}

proof fn lemma_jtail_ascii(s: Seq<u8>)
    ensures
        ascii_bytes(jtail(s)),
    decreases s.len(),
{
    if s.len() > 0 {
        lemma_jtail_ascii(s.drop_first());
        lemma_dec_ascii(s[0] as nat);
        lemma_ascii_concat(seq![44u8], dec(s[0] as nat));
        lemma_ascii_concat(seq![44u8] + dec(s[0] as nat), jtail(s.drop_first()));
    }
}

proof fn lemma_jarr_ascii(s: Seq<u8>)
    ensures
        ascii_bytes(jarr(s)),
{
    if s.len() > 0 {
        lemma_dec_ascii(s[0] as nat);
        lemma_jtail_ascii(s.drop_first());
        lemma_ascii_concat(seq![91u8], dec(s[0] as nat));
        lemma_ascii_concat(seq![91u8] + dec(s[0] as nat), jtail(s.drop_first()));
        lemma_ascii_concat(seq![91u8] + dec(s[0] as nat) + jtail(s.drop_first()), seq![93u8]);
    }
}

/// Escaping keeps bytes from 0x80 up and turns the others into ASCII.
proof fn lemma_esc1(x: u8)
    ensures
        x >= 128 ==> esc1(x) == seq![x],
        x < 128 ==> ascii_bytes(esc1(x)),
{
    if x < 128 && x < 32 && x != 8 && x != 12 && x != 10 && x != 13 && x != 9 {
        assert(hex_digit(x as nat / 16) < 128);
        assert(hex_digit(x as nat % 16) < 128);
    }
}

/// Bytes from 0x80 up pass through escaping unchanged.
proof fn lemma_escape_high(u: Seq<u8>)
    requires
        forall|i: int| 0 <= i < u.len() ==> #[trigger] u[i] >= 128,
    ensures
        escape(u) == u,
    decreases u.len(),
{
    if u.len() > 0 {
        lemma_escape_high(u.drop_first());
        lemma_esc1(u[0]);
        assert(seq![u[0]] + u.drop_first() =~= u);
    }
}

/// Escaping UTF-8 text gives UTF-8 text.
proof fn lemma_escape_utf8(u: Seq<u8>)
    requires
        vstd::utf8::valid_utf8(u),
    ensures
        vstd::utf8::valid_utf8(escape(u)),
    decreases u.len(),
{
    if u.len() > 0 {
        let l = vstd::utf8::length_of_first_scalar(u);
        let f = u.subrange(0, l);
        let rest = vstd::utf8::pop_first_scalar(u);
        assert(1 <= l <= 4 && l <= u.len());
        assert(u =~= f + rest);
        lemma_escape_concat(f, rest);
        lemma_escape_utf8(rest);
        if l == 1 {
            lemma_esc1(u[0]);
            assert(f =~= seq![u[0]]);
            assert(escape(f) =~= esc1(u[0]) + escape(f.drop_first()));
            assert(f.drop_first() =~= Seq::<u8>::empty());
            assert(escape(f) =~= esc1(u[0]));
            lemma_ascii_utf8(escape(f));
        } else {
            assert forall|i: int| 0 <= i < f.len() implies #[trigger] f[i] >= 128 by {
                assert(f[i] == u[i]);
            }
            lemma_escape_high(f);
            reveal_with_fuel(vstd::utf8::valid_utf8, 2);
            assert(vstd::utf8::valid_first_scalar(f));
            assert(vstd::utf8::pop_first_scalar(f) =~= Seq::<u8>::empty());
        }
        vstd::utf8::valid_utf8_concat(escape(f), escape(rest));
    }
}

/// A quoted JSON string of any text is UTF-8.
proof fn lemma_jstr_utf8(s: Seq<char>)
    ensures
        vstd::utf8::valid_utf8(jstr(s)),
{
    vstd::utf8::encode_utf8_valid_utf8(s);
    lemma_escape_utf8(vstd::utf8::encode_utf8(s));
    lemma_ascii_utf8(seq![34u8]);
    vstd::utf8::valid_utf8_concat(seq![34u8], escape(vstd::utf8::encode_utf8(s)));
    vstd::utf8::valid_utf8_concat(seq![34u8] + escape(vstd::utf8::encode_utf8(s)), seq![34u8]);
}

proof fn lemma_ascii_then(a: Seq<u8>, b: Seq<u8>)
    requires
        ascii_bytes(a),
        vstd::utf8::valid_utf8(b),
    ensures
        vstd::utf8::valid_utf8(a + b),
{
    lemma_ascii_utf8(a);
    vstd::utf8::valid_utf8_concat(a, b);
}

proof fn lemma_utf8_then(a: Seq<u8>, b: Seq<u8>)
    requires
        vstd::utf8::valid_utf8(a),
        vstd::utf8::valid_utf8(b),
    ensures
        vstd::utf8::valid_utf8(a + b),
{
    vstd::utf8::valid_utf8_concat(a, b);
}

/// The wire form of every message is UTF-8 text, so it can travel as the
/// content of a text event.
pub proof fn lemma_wire_is_utf8(m: MessageView)
    ensures
        vstd::utf8::valid_utf8(enc_message(m)),
{
    let tail0 = k_close();
    assert(ascii_bytes(k_close()));
    lemma_ascii_utf8(tail0);
    lemma_jarr_ascii(m.payload);
    let t1 = jarr(m.payload) + tail0;
    lemma_ascii_then(jarr(m.payload), tail0);
    assert(ascii_bytes(k_payload()));
    lemma_ascii_then(k_payload(), t1);
    let t2 = k_payload() + t1;
    match m.kind {
        KindView::Custom(s) => {
            lemma_jstr_utf8(s);
            assert(ascii_bytes(k_custom()));
            lemma_ascii_then(k_custom(), jstr(s));
            lemma_utf8_then(k_custom() + jstr(s), k_close());
        },
        _ => {
            lemma_jstr_utf8(variant_name(m.kind));
        },
    }
    lemma_utf8_then(enc_kind(m.kind), t2);
    let t3 = enc_kind(m.kind) + t2;
    assert(ascii_bytes(k_kind()));
    lemma_ascii_then(k_kind(), t3);
    let t4 = k_kind() + t3;
    match m.recipient {
        Some(v) => lemma_dec_ascii(v as nat),
        None => assert(ascii_bytes(null_lit())),
    }
    lemma_ascii_then(jopt(m.recipient), t4);
    let t5 = jopt(m.recipient) + t4;
    assert(ascii_bytes(k_recipient()));
    lemma_ascii_then(k_recipient(), t5);
    let t6 = k_recipient() + t5;
    lemma_dec_ascii(m.sender as nat);
    lemma_ascii_then(dec(m.sender as nat), t6);
    let t7 = dec(m.sender as nat) + t6;
    assert(ascii_bytes(k_sender_next()));
    lemma_ascii_then(k_sender_next(), t7);
    let t8 = k_sender_next() + t7;
    lemma_jstr_utf8(m.session_id);
    lemma_utf8_then(jstr(m.session_id), t8);
    let t9 = jstr(m.session_id) + t8;
    assert(ascii_bytes(k_session_id()));
    lemma_ascii_then(k_session_id(), t9);
    let t10 = k_session_id() + t9;
    lemma_jstr_utf8(m.protocol_version);
    lemma_utf8_then(jstr(m.protocol_version), t10);
    let t11 = jstr(m.protocol_version) + t10;
    assert(ascii_bytes(k_protocol_version()));
    lemma_ascii_then(k_protocol_version(), t11);
}

} // verus!
