//! Flat JSON objects: a fixed list of keys, each followed by one value.
//!
//! Every package payload is such an object. The form is the compact one (keys
//! in declaration order, no white space), and a byte string decodes to a list
//! of fields exactly when it is the encoding of that list.
use vstd::prelude::*;
use crate::wire::{
    after_lit, dec, expect_lit, is_digit, jarr, jarr2, jstr, k_close, k_close_bytes,
    lemma_after_lit, lemma_after_lit_sound, lemma_parse_jarr2_complete, lemma_parse_jarr2_sound,
    lemma_parse_jarr_complete, lemma_parse_jarr_sound, lemma_parse_num_complete,
    lemma_parse_num_sound, lemma_parse_text_complete, lemma_parse_text_sound, no_digit_start,
    parse_jarr, parse_jarr2, parse_num, parse_text, read_arr, read_arr2, read_num, read_str,
    views2, cat, lit_vec, str_vec, num_vec, arr_vec, put_arr2,
};

verus! {

/// The shape of one value.
#[derive(Clone, Copy, Debug, PartialEq, Eq, Structural)]
pub enum FieldKind {
    Num,
    Text,
    Bytes,
    Rows,
}

/// One value of a flat object.
#[derive(Debug)]
pub enum Field {
    Num(u16),
    Text(String),
    Bytes(Vec<u8>),
    Rows(Vec<Vec<u8>>),
}

/// A value with its contents taken as sequences.
pub enum FieldView {
    Num(u16),
    Text(Seq<char>),
    Bytes(Seq<u8>),
    Rows(Seq<Seq<u8>>),
}

impl View for Field {
    type V = FieldView;

    open spec fn view(&self) -> FieldView {
        match self {
            Field::Num(n) => FieldView::Num(*n),
            Field::Text(s) => FieldView::Text(s@),
            Field::Bytes(b) => FieldView::Bytes(b@),
            Field::Rows(r) => FieldView::Rows(views2(r@)),
        }
    }
}

pub open spec fn field_views(fs: Seq<Field>) -> Seq<FieldView> {
    fs.map_values(|f: Field| f@)
}

pub open spec fn field_kind(f: FieldView) -> FieldKind {
    match f {
        FieldView::Num(_) => FieldKind::Num,
        FieldView::Text(_) => FieldKind::Text,
        FieldView::Bytes(_) => FieldKind::Bytes,
        FieldView::Rows(_) => FieldKind::Rows,
    }
}

pub open spec fn field_kinds(fs: Seq<FieldView>) -> Seq<FieldKind> {
    fs.map_values(|f: FieldView| field_kind(f))
}

/// The JSON form of one value.
pub open spec fn enc_field(f: FieldView) -> Seq<u8> {
    match f {
        FieldView::Num(n) => dec(n as nat),
        FieldView::Text(s) => jstr(s),
        FieldView::Bytes(u) => jarr(u),
        FieldView::Rows(r) => jarr2(r),
    }
}

/// A value of the given shape at the front of `b`, and what follows it.
pub open spec fn parse_field(k: FieldKind, b: Seq<u8>) -> Option<(FieldView, Seq<u8>)> {
    match k {
        FieldKind::Num => match parse_num(b) {
            Some((v, r)) => if v <= u16::MAX {
                Some((FieldView::Num(v as u16), r))
            } else {
                None
            },
            None => None,
        },
        FieldKind::Text => match parse_text(b) {
            Some((s, r)) => Some((FieldView::Text(s), r)),
            None => None,
        },
        FieldKind::Bytes => match parse_jarr(b) {
            Some((u, r)) => Some((FieldView::Bytes(u), r)),
            None => None,
        },
        FieldKind::Rows => match parse_jarr2(b) {
            Some((u, r)) => Some((FieldView::Rows(u), r)),
            None => None,
        },
    }
}

/// The object with keys `keys` (each key literal carries its opening brace or
/// comma, its quotes and its colon) and values `fs`.
pub open spec fn enc_record(keys: Seq<Seq<u8>>, fs: Seq<FieldView>) -> Seq<u8>
    decreases fs.len(),
{
    if fs.len() == 0 {
        k_close()
    } else {
        keys[0] + (enc_field(fs[0]) + enc_record(keys.drop_first(), fs.drop_first()))
    }
}

/// The values of an object with the given keys and shapes, if `b` is one.
pub open spec fn dec_record(keys: Seq<Seq<u8>>, kinds: Seq<FieldKind>, b: Seq<u8>) -> Option<
    Seq<FieldView>,
>
    decreases kinds.len(),
{
    if kinds.len() == 0 {
        if b == k_close() {
            Some(Seq::empty())
        } else {
            None
        }
    } else {
        match after_lit(b, keys[0]) {
            None => None,
            Some(b1) => match parse_field(kinds[0], b1) {
                None => None,
                Some((f, b2)) => match dec_record(keys.drop_first(), kinds.drop_first(), b2) {
                    None => None,
                    Some(rest) => Some(seq![f] + rest),
                },
            },
        }
    }
}

/// Key literals are non-empty and cannot continue a number.
pub open spec fn keys_ok(keys: Seq<Seq<u8>>) -> bool {
    forall|i: int| 0 <= i < keys.len() ==> (#[trigger] keys[i]).len() > 0 && !is_digit(keys[i][0])
}

pub proof fn lemma_field_complete(f: FieldView, r: Seq<u8>)
    requires
        no_digit_start(r),
    ensures
        parse_field(field_kind(f), enc_field(f) + r) == Some((f, r)),
{
    match f {
        FieldView::Num(n) => {
            lemma_parse_num_complete(n as nat, r);
        },
        FieldView::Text(s) => {
            lemma_parse_text_complete(s, r);
        },
        FieldView::Bytes(u) => {
            lemma_parse_jarr_complete(u, r);
        },
        FieldView::Rows(u) => {
            lemma_parse_jarr2_complete(u, r);
        },
    }
}

pub proof fn lemma_field_sound(k: FieldKind, b: Seq<u8>)
    requires
        parse_field(k, b) is Some,
    ensures
        b == enc_field(parse_field(k, b).unwrap().0) + parse_field(k, b).unwrap().1,
        field_kind(parse_field(k, b).unwrap().0) == k,
{
    match k {
        FieldKind::Num => {
            lemma_parse_num_sound(b);
            let v = parse_num(b).unwrap().0;
            assert((v as u16) as nat == v);
        },
        FieldKind::Text => {
            lemma_parse_text_sound(b);
        },
        FieldKind::Bytes => {
            lemma_parse_jarr_sound(b);
        },
        FieldKind::Rows => {
            lemma_parse_jarr2_sound(b);
        },
    }
}

proof fn lemma_record_start(keys: Seq<Seq<u8>>, fs: Seq<FieldView>)
    requires
        keys_ok(keys),
        keys.len() == fs.len(),
    ensures
        no_digit_start(enc_record(keys, fs)),
{
    if fs.len() > 0 {
        assert(keys[0].len() > 0 && !is_digit(keys[0][0]));
        assert(enc_record(keys, fs)[0] == keys[0][0]);
    } else {
        assert(k_close()[0] == 125u8);
    }
}

/// Decoding an object gives back the values it was written from.
pub proof fn lemma_record_round_trip(keys: Seq<Seq<u8>>, fs: Seq<FieldView>)
    requires
        keys_ok(keys),
        keys.len() == fs.len(),
    ensures
        dec_record(keys, field_kinds(fs), enc_record(keys, fs)) == Some(fs),
    decreases fs.len(),
{
    if fs.len() > 0 {
        let ks = keys.drop_first();
        let rest = fs.drop_first();
        assert(keys_ok(ks)) by {
            assert forall|i: int| 0 <= i < ks.len() implies (#[trigger] ks[i]).len() > 0
                && !is_digit(ks[i][0]) by {
                assert(ks[i] == keys[i + 1]);
            }
        }
        let tail = enc_record(ks, rest);
        lemma_record_start(ks, rest);
        lemma_after_lit(keys[0], enc_field(fs[0]) + tail);
        lemma_field_complete(fs[0], tail);
        lemma_record_round_trip(ks, rest);
        assert(field_kinds(fs).drop_first() =~= field_kinds(rest));
        assert(seq![fs[0]] + rest =~= fs);
    }
}

/// Only objects of the expected shape decode, and they re-encode to the very
/// bytes read.
pub proof fn lemma_record_sound(keys: Seq<Seq<u8>>, kinds: Seq<FieldKind>, b: Seq<u8>)
    requires
        keys.len() == kinds.len(),
        dec_record(keys, kinds, b) is Some,
    ensures
        enc_record(keys, dec_record(keys, kinds, b).unwrap()) == b,
        field_kinds(dec_record(keys, kinds, b).unwrap()) == kinds,
    decreases kinds.len(),
{
    let fs = dec_record(keys, kinds, b).unwrap();
    if kinds.len() > 0 {
        let b1 = after_lit(b, keys[0]).unwrap();
        lemma_after_lit_sound(b, keys[0]);
        let (f, b2) = parse_field(kinds[0], b1).unwrap();
        lemma_field_sound(kinds[0], b1);
        let rest = dec_record(keys.drop_first(), kinds.drop_first(), b2).unwrap();
        lemma_record_sound(keys.drop_first(), kinds.drop_first(), b2);
        assert(fs == seq![f] + rest);
        assert(fs.drop_first() =~= rest);
        assert(fs[0] == f);
        assert(field_kinds(rest).len() == kinds.len() - 1);
        assert forall|i: int| 0 <= i < fs.len() implies #[trigger] field_kinds(fs)[i] == kinds[i] by {
            if i > 0 {
                assert(fs[i] == rest[i - 1]);
                assert(field_kinds(rest)[i - 1] == kinds.drop_first()[i - 1]);
            }
        }
        assert(field_kinds(fs) =~= kinds);
    } else {
        assert(fs =~= Seq::<FieldView>::empty());
        assert(field_kinds(fs) =~= kinds);
    }
}

/// Reads one value of the given shape at `pos`.
fn read_field(k: FieldKind, b: &[u8], pos: usize) -> (r: Option<(Field, usize)>)
    requires
        pos <= b@.len(),
    ensures
        match parse_field(k, b@.skip(pos as int)) {
            Some((f, rest)) => r matches Some((x, p)) && x@ == f && p <= b@.len() && b@.skip(
                p as int,
            ) == rest,
            None => r is None,
        },
{
    match k {
        FieldKind::Num => match read_num(b, pos, 65535) {
            Some((v, p)) => Some((Field::Num(v as u16), p)),
            None => None,
        },
        FieldKind::Text => match read_str(b, pos) {
            Some((s, p)) => Some((Field::Text(s), p)),
            None => None,
        },
        FieldKind::Bytes => match read_arr(b, pos) {
            Some((u, p)) => Some((Field::Bytes(u), p)),
            None => None,
        },
        FieldKind::Rows => match read_arr2(b, pos) {
            Some((u, p)) => Some((Field::Rows(u), p)),
            None => None,
        },
    }
}

/// Reads the object's values from key `i` on, starting at `pos`.
fn decode_from(
    keys: &Vec<Vec<u8>>,
    kinds: &Vec<FieldKind>,
    i: usize,
    b: &[u8],
    pos: usize,
) -> (r: Option<Vec<Field>>)
    requires
        keys@.len() == kinds@.len(),
        i <= kinds@.len(),
        pos <= b@.len(),
    ensures
        match dec_record(views2(keys@).skip(i as int), kinds@.skip(i as int), b@.skip(pos as int)) {
            Some(fs) => r matches Some(v) && field_views(v@) == fs,
            None => r is None,
        },
    decreases kinds@.len() - i,
{
    let ghost ks = views2(keys@).skip(i as int);
    let ghost kd = kinds@.skip(i as int);
    if i == kinds.len() {
        let n = b.len();
        if pos == n {
            assert(b@.skip(pos as int).len() == 0);
            return None;
        }
        let p = match expect_lit(b, pos, &k_close_bytes()) {
            Some(p) => p,
            None => {
                assert(b@.skip(pos as int) != k_close()) by {
                    if b@.skip(pos as int) == k_close() {
                        assert(b@.skip(pos as int).take(1) =~= k_close());
                    }
                }
                return None;
            },
        };
        if p != n {
            assert(b@.skip(pos as int) != k_close()) by {
                if b@.skip(pos as int) == k_close() {
                    assert(b@.skip(pos as int).skip(1).len() == 0);
                }
            }
            return None;
        }
        assert(b@.skip(pos as int) =~= k_close()) by {
            assert(b@.skip(pos as int).take(1) == k_close());
            assert(b@.skip(pos as int).len() == 1);
        }
        let v: Vec<Field> = Vec::new();
        assert(field_views(v@) =~= Seq::<FieldView>::empty());
        return Some(v);
    }
    assert(ks[0] == keys@[i as int]@);
    let p1 = match expect_lit(b, pos, keys[i].as_slice()) {
        Some(p) => p,
        None => return None,
    };
    let (f, p2) = match read_field(kinds[i], b, p1) {
        Some(x) => x,
        None => return None,
    };
    assert(ks.drop_first() =~= views2(keys@).skip(i + 1));
    assert(kd.drop_first() =~= kinds@.skip(i + 1));
    let rest = match decode_from(keys, kinds, i + 1, b, p2) {
        Some(v) => v,
        None => return None,
    };
    let ghost fv = f@;
    let mut out = rest;
    out.insert(0, f);
    assert(field_views(out@) =~= seq![fv] + field_views(rest@));
    Some(out)
}

/// Reads an object with the given keys and value shapes from exactly `b`.
pub fn decode_record(keys: &Vec<Vec<u8>>, kinds: &Vec<FieldKind>, b: &[u8]) -> (r: Option<
    Vec<Field>,
>)
    requires
        keys@.len() == kinds@.len(),
    ensures
        match dec_record(views2(keys@), kinds@, b@) {
            Some(fs) => r matches Some(v) && field_views(v@) == fs,
            None => r is None,
        },
{
    assert(views2(keys@).skip(0) =~= views2(keys@));
    assert(kinds@.skip(0) =~= kinds@);
    assert(b@.skip(0) =~= b@);
    decode_from(keys, kinds, 0, b, 0)
}

fn field_vec(f: &Field) -> (r: Vec<u8>)
    ensures
        r@ == enc_field(f@),
{
    match f {
        Field::Num(n) => num_vec(*n as u32),
        Field::Text(s) => str_vec(s.as_str()),
        Field::Bytes(u) => arr_vec(u.as_slice()),
        Field::Rows(rows) => {
            let mut out = Vec::new();
            put_arr2(&mut out, rows);
            out
        },
    }
}

fn encode_from(keys: &Vec<Vec<u8>>, fs: &Vec<Field>, i: usize) -> (r: Vec<u8>)
    requires
        keys@.len() == fs@.len(),
        i <= fs@.len(),
    ensures
        r@ == enc_record(views2(keys@).skip(i as int), field_views(fs@).skip(i as int)),
    decreases fs@.len() - i,
{
    let ghost ks = views2(keys@).skip(i as int);
    let ghost vs = field_views(fs@).skip(i as int);
    if i == fs.len() {
        return lit_vec(&k_close_bytes());
    }
    let tail = encode_from(keys, fs, i + 1);
    assert(ks.drop_first() =~= views2(keys@).skip(i + 1));
    assert(vs.drop_first() =~= field_views(fs@).skip(i + 1));
    assert(ks[0] == keys@[i as int]@);
    assert(vs[0] == fs@[i as int]@);
    let head = field_vec(&fs[i]);
    let key = lit_vec(keys[i].as_slice());
    cat(key, cat(head, tail))
}

/// Writes the object with the given keys and values.
pub fn encode_record(keys: &Vec<Vec<u8>>, fs: &Vec<Field>) -> (r: Vec<u8>)
    requires
        keys@.len() == fs@.len(),
    ensures
        r@ == enc_record(views2(keys@), field_views(fs@)),
{
    assert(views2(keys@).skip(0) =~= views2(keys@));
    assert(field_views(fs@).skip(0) =~= field_views(fs@));
    encode_from(keys, fs, 0)
}

} // verus!
