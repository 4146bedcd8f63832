//! Solving square linear systems modulo the group order by Gauss-Jordan
//! elimination.
use vstd::prelude::*;
use vstd::arithmetic::div_mod::{
    lemma_add_mod_noop, lemma_mod_bound, lemma_mul_mod_noop_left, lemma_mul_mod_noop_right,
    lemma_small_mod, lemma_sub_mod_noop,
};
use crate::scalar::{
    all_scalars, group_order, is_scalar, scalar_invert, scalar_is_zero, scalar_mul, scalar_sub,
    scalar_values, sv,
};
use crate::types::DkgKitError;

verus! {

/// `v` reduced modulo the group order.
pub open spec fn modn(v: int) -> int {
    v % (group_order() as int)
}

/// `sum_{j < k} row[j] * x[j]`.
pub open spec fn dot(row: Seq<nat>, x: Seq<nat>, k: int) -> int
    decreases k,
{
    if k <= 0 {
        0
    } else {
        dot(row, x, k - 1) + row[k - 1] * x[k - 1]
    }
}

/// `x` solves the system `m · x = t` modulo the group order.
pub open spec fn solves(m: Seq<Seq<nat>>, t: Seq<nat>, x: Seq<nat>) -> bool {
    forall|i: int| 0 <= i < m.len() ==> #[trigger] modn(dot(m[i], x, x.len() as int)) == modn(t[i] as int)
}

/// The integers of a matrix of scalars.
pub open spec fn matrix_values(m: Seq<Vec<[u8; 32]>>) -> Seq<Seq<nat>> {
    m.map_values(|row: Vec<[u8; 32]>| scalar_values(row@))
}

/// Square of size `n` with every entry canonical.
pub open spec fn square_scalars(m: Seq<Vec<[u8; 32]>>, n: nat) -> bool {
    &&& m.len() == n
    &&& forall|i: int| 0 <= i < n ==> (#[trigger] m[i])@.len() == n && all_scalars(m[i]@)
}

/// Whether the system is square: `n` rows of `n` entries and `n` targets.
pub open spec fn is_square(m: Seq<Vec<[u8; 32]>>, t: Seq<[u8; 32]>) -> bool {
    t.len() == m.len() && forall|i: int| 0 <= i < m.len() ==> (#[trigger] m[i])@.len() == m.len()
}

/// Every row has as many entries as the matrix has rows.
pub open spec fn is_square_values(m: Seq<Seq<nat>>) -> bool {
    forall|i: int| 0 <= i < m.len() ==> (#[trigger] m[i]).len() == m.len()
}

/// The vector of `n` zeros.
pub open spec fn zero_vector(n: nat) -> Seq<nat> {
    Seq::new(n, |i: int| 0nat)
}

/// Every entry is below the group order.
pub open spec fn canonical(x: Seq<nat>) -> bool {
    forall|i: int| 0 <= i < x.len() ==> #[trigger] x[i] < group_order()
}

/// `z` is a non-zero canonical vector that `m` sends to zero.
pub open spec fn in_kernel(m: Seq<Seq<nat>>, z: Seq<nat>) -> bool {
    &&& z.len() == m.len()
    &&& canonical(z)
    &&& z != zero_vector(m.len())
    &&& solves(m, zero_vector(m.len()), z)
}

/// The matrix is singular modulo the group order: some non-zero vector is
/// sent to zero.
pub open spec fn singular(m: Seq<Seq<nat>>) -> bool {
    exists|z: Seq<nat>| #[trigger] in_kernel(m, z)
}

/// Swapping two rows (and their targets) keeps the solutions.
proof fn lemma_swap_keeps_solutions(
    mb: Seq<Seq<nat>>,
    tb: Seq<nat>,
    ma: Seq<Seq<nat>>,
    ta: Seq<nat>,
    p: int,
    c: int,
)
    requires
        tb.len() == mb.len(),
        ma.len() == mb.len(),
        ta.len() == mb.len(),
        0 <= p < mb.len(),
        0 <= c < mb.len(),
        ma[p] == mb[c],
        ma[c] == mb[p],
        ta[p] == tb[c],
        ta[c] == tb[p],
        forall|i: int| 0 <= i < mb.len() && i != p && i != c ==> #[trigger] ma[i] == mb[i] && ta[i] == tb[i],
    ensures
        forall|x: Seq<nat>| #[trigger] solves(mb, tb, x) == solves(ma, ta, x),
{
    assert forall|x: Seq<nat>| #[trigger] solves(mb, tb, x) == solves(ma, ta, x) by {
        if solves(mb, tb, x) {
            assert forall|i: int| 0 <= i < ma.len() implies #[trigger] modn(dot(ma[i], x, x.len() as int))
                == modn(ta[i] as int) by {
                let src = if i == p { c } else if i == c { p } else { i };
                assert(modn(dot(mb[src], x, x.len() as int)) == modn(tb[src] as int));
            }
        }
        if solves(ma, ta, x) {
            assert forall|i: int| 0 <= i < mb.len() implies #[trigger] modn(dot(mb[i], x, x.len() as int))
                == modn(tb[i] as int) by {
                let src = if i == p { c } else if i == c { p } else { i };
                assert(modn(dot(ma[src], x, x.len() as int)) == modn(ta[src] as int));
            }
        }
    }
}

/// Scaling one row (and its target) by an invertible factor keeps the solutions.
proof fn lemma_scale_keeps_solutions(
    mb: Seq<Seq<nat>>,
    tb: Seq<nat>,
    ma: Seq<Seq<nat>>,
    ta: Seq<nat>,
    c: int,
    inv: nat,
    p: nat,
)
    requires
        is_square_values(mb),
        tb.len() == mb.len(),
        ma.len() == mb.len(),
        ta.len() == mb.len(),
        0 <= c < mb.len(),
        forall|i: int| 0 <= i < mb.len() && i != c ==> #[trigger] ma[i] == mb[i] && ta[i] == tb[i],
        ma[c].len() == mb.len(),
        forall|j: int| 0 <= j < mb.len() ==> #[trigger] ma[c][j] == (mb[c][j] * inv) % group_order(),
        modn(ta[c] as int) == modn((inv * tb[c]) as int),
        (p * inv) % group_order() == 1,
    ensures
        forall|x: Seq<nat>| x.len() == mb.len() ==> #[trigger] solves(mb, tb, x) == solves(ma, ta, x),
{
    let n = mb.len();
    assert forall|x: Seq<nat>| x.len() == n implies #[trigger] solves(mb, tb, x) == solves(ma, ta, x) by {
        let rb = mb[c];
        let ra = ma[c];
        let d = dot(rb, x, n as int);
        let d2 = dot(ra, x, n as int);
        let tc = tb[c] as int;
        let tc2 = ta[c] as int;
        lemma_dot_scale(rb, ra, inv, x, n as int);
        if solves(mb, tb, x) {
            assert(modn(d) == modn(tc));
            lemma_mod_mul_both(d, tc, inv as int);
            assert forall|i: int| 0 <= i < n implies #[trigger] modn(dot(ma[i], x, x.len() as int))
                == modn(ta[i] as int) by {
                if i != c {
                    assert(modn(dot(mb[i], x, x.len() as int)) == modn(tb[i] as int));
                }
            }
        }
        if solves(ma, ta, x) {
            assert(modn(d2) == modn(tc2));
            lemma_mod_mul_both(inv * d, inv * tc, p as int);
            assert(modn(p * (inv * d)) == modn(d)) by {
                assert(p * (inv * d) == (p * inv) * d) by (nonlinear_arith);
                lemma_mul_mod_noop_left((p * inv) as int, d, group_order() as int);
            }
            assert(modn(p * (inv * tc)) == modn(tc)) by {
                assert(p * (inv * tc) == (p * inv) * tc) by (nonlinear_arith);
                lemma_mul_mod_noop_left((p * inv) as int, tc, group_order() as int);
            }
            assert forall|i: int| 0 <= i < n implies #[trigger] modn(dot(mb[i], x, x.len() as int))
                == modn(tb[i] as int) by {
                if i != c {
                    assert(modn(dot(ma[i], x, x.len() as int)) == modn(ta[i] as int));
                }
            }
        }
    }
}

/// Subtracting a multiple of row `c` from row `r` (and the same for the
/// targets) keeps the solutions.
proof fn lemma_elim_keeps_solutions(
    mb: Seq<Seq<nat>>,
    tb: Seq<nat>,
    ma: Seq<Seq<nat>>,
    ta: Seq<nat>,
    r: int,
    c: int,
    f: nat,
)
    requires
        is_square_values(mb),
        tb.len() == mb.len(),
        ma.len() == mb.len(),
        ta.len() == mb.len(),
        0 <= r < mb.len(),
        0 <= c < mb.len(),
        r != c,
        forall|i: int| 0 <= i < mb.len() && i != r ==> #[trigger] ma[i] == mb[i] && ta[i] == tb[i],
        ma[r].len() == mb.len(),
        forall|j: int|
            0 <= j < mb.len() ==> #[trigger] ma[r][j] == (mb[r][j] - (f * mb[c][j]) % group_order()) % (
            group_order() as int),
        modn(ta[r] as int) == modn(tb[r] - f * tb[c]),
    ensures
        forall|x: Seq<nat>| x.len() == mb.len() ==> #[trigger] solves(mb, tb, x) == solves(ma, ta, x),
{
    let n = mb.len();
    let nn = group_order() as int;
    assert forall|x: Seq<nat>| x.len() == n implies #[trigger] solves(mb, tb, x) == solves(ma, ta, x) by {
        let rb = mb[r];
        let pc = mb[c];
        let ra = ma[r];
        let d = dot(rb, x, n as int);
        let dc = dot(pc, x, n as int);
        let d2 = dot(ra, x, n as int);
        let tr = tb[r] as int;
        let tc = tb[c] as int;
        let tr2 = ta[r] as int;
        lemma_dot_sub(rb, pc, ra, f, x, n as int);
        if solves(mb, tb, x) {
            assert(modn(d) == modn(tr));
            assert(modn(dc) == modn(tc));
            lemma_mod_mul_both(dc, tc, f as int);
            lemma_sub_mod_noop(d, f * dc, nn);
            lemma_sub_mod_noop(tr, f * tc, nn);
            assert forall|i: int| 0 <= i < n implies #[trigger] modn(dot(ma[i], x, x.len() as int))
                == modn(ta[i] as int) by {
                if i != r {
                    assert(modn(dot(mb[i], x, x.len() as int)) == modn(tb[i] as int));
                }
            }
        }
        if solves(ma, ta, x) {
            assert(modn(d2) == modn(tr2));
            assert(ma[c] == pc);
            assert(modn(dot(ma[c], x, x.len() as int)) == modn(ta[c] as int));
            assert(modn(dc) == modn(tc));
            lemma_mod_mul_both(dc, tc, f as int);
            lemma_add_mod_noop(d - f * dc, f * dc, nn);
            lemma_add_mod_noop(tr - f * tc, f * tc, nn);
            assert forall|i: int| 0 <= i < n implies #[trigger] modn(dot(mb[i], x, x.len() as int))
                == modn(tb[i] as int) by {
                if i != r {
                    assert(modn(dot(ma[i], x, x.len() as int)) == modn(ta[i] as int));
                }
            }
        }
    }
}

/// A dot product over a vector supported on at most two positions.
proof fn lemma_dot_support(row: Seq<nat>, x: Seq<nat>, a: int, b: int, k: int)
    requires
        0 <= k,
        a != b,
        forall|j: int| 0 <= j < k && j != a && j != b ==> #[trigger] row[j] == 0 || x[j] == 0,
    ensures
        dot(row, x, k) == (if 0 <= a < k { row[a] * x[a] } else { 0 }) + (if 0 <= b < k {
            row[b] * x[b]
        } else {
            0
        }),
    decreases k,
{
    if k > 0 {
        lemma_dot_support(row, x, a, b, k - 1);
        let j = k - 1;
        if j != a && j != b {
            assert(row[j] == 0 || x[j] == 0);
            assert(row[j] * x[j] == 0) by (nonlinear_arith)
                requires row[j] == 0 || x[j] == 0;
        }
    }
}

/// When the columns before `col` are unit vectors and column `col` is zero
/// from row `col` down, the matrix is singular.
proof fn lemma_stuck_column_singular(m: Seq<Seq<nat>>, col: int)
    requires
        is_square_values(m),
        forall|i: int, j: int| 0 <= i < m.len() && 0 <= j < m.len() ==> #[trigger] m[i][j] < group_order(),
        0 <= col < m.len(),
        forall|i: int, j: int|
            0 <= i < m.len() && 0 <= j < col ==> #[trigger] m[i][j] == (if i == j { 1nat } else { 0nat }),
        forall|i: int| col <= i < m.len() ==> #[trigger] m[i][col] == 0,
    ensures
        singular(m),
{
    let n = m.len();
    let nn = group_order();
    let z = Seq::new(
        n,
        |j: int|
            if j < col {
                if m[j][col] == 0 {
                    0nat
                } else {
                    (nn - m[j][col]) as nat
                }
            } else if j == col {
                1nat
            } else {
                0nat
            },
    );
    assert forall|i: int| 0 <= i < n implies #[trigger] modn(dot(m[i], z, z.len() as int)) == modn(
        zero_vector(n)[i] as int,
    ) by {
        let row = m[i];
        if i < col {
            assert forall|j: int| 0 <= j < n && j != i && j != col implies #[trigger] row[j] == 0 || z[j] == 0 by {
                if j < col {
                    assert(m[i][j] == 0);
                }
            }
            lemma_dot_support(row, z, i, col, n as int);
            assert(row[i] == 1);
            assert(m[i][col] < nn);
            assert(z[col] == 1);
            assert(row[i] * z[i] == z[i]) by (nonlinear_arith)
                requires row[i] == 1;
            assert(row[col] * z[col] == row[col]) by (nonlinear_arith)
                requires z[col] == 1;
            if m[i][col] == 0 {
                assert(dot(row, z, n as int) == 0);
            } else {
                assert(z[i] == nn - m[i][col]);
                assert(dot(row, z, n as int) == nn);
                vstd::arithmetic::div_mod::lemma_mod_self_0(nn as int);
            }
        } else {
            assert forall|j: int| 0 <= j < n && j != col && j != n implies #[trigger] row[j] == 0 || z[j] == 0 by {
                if j < col {
                    assert(m[i][j] == 0);
                }
            }
            lemma_dot_support(row, z, col, n as int, n as int);
            assert(row[col] == 0);
        }
    }
    assert(z[col] != zero_vector(n)[col]);
    assert(canonical(z)) by {
        assert forall|j: int| 0 <= j < z.len() implies #[trigger] z[j] < group_order() by {
            if j < col {
                assert(m[j][col] < nn);
            }
        }
    }
    assert(in_kernel(m, z));
}

proof fn lemma_n_pos()
    ensures
        group_order() > 1,
{
}

/// Scaling a row scales its dot product.
proof fn lemma_dot_scale(row: Seq<nat>, row2: Seq<nat>, c: nat, x: Seq<nat>, k: int)
    requires
        0 <= k <= row.len(),
        row2.len() == row.len(),
        k <= x.len(),
        forall|j: int| 0 <= j < row.len() ==> #[trigger] row2[j] == (row[j] * c) % group_order(),
    ensures
        modn(dot(row2, x, k)) == modn(c * dot(row, x, k)),
    decreases k,
{
    let n = group_order() as int;
    if k > 0 {
        lemma_dot_scale(row, row2, c, x, k - 1);
        let a = dot(row, x, k - 1);
        let b = dot(row2, x, k - 1);
        let r = row[k - 1] as int;
        let xv = x[k - 1] as int;
        // b + row2[k-1]*x ≡ c*a + (r*c % n)*x ≡ c*a + r*c*x ≡ c*(a + r*x)
        lemma_add_mod_noop(b, row2[k - 1] * xv, n);
        lemma_mul_mod_noop_left(r * c, xv, n);
        lemma_add_mod_noop(c * a, r * c * xv, n);
        assert(c * (a + r * xv) == c * a + r * c * xv) by (nonlinear_arith);
        assert(modn(b + row2[k - 1] * xv) == modn(modn(b) + modn(row2[k - 1] * xv)));
        assert(modn(row2[k - 1] * xv) == modn(r * c * xv));
        assert(modn(c * a + r * c * xv) == modn(modn(c * a) + modn(r * c * xv)));
    }
}

/// Subtracting a multiple of another row subtracts that multiple of its dot product.
proof fn lemma_dot_sub(row: Seq<nat>, p: Seq<nat>, row2: Seq<nat>, f: nat, x: Seq<nat>, k: int)
    requires
        0 <= k <= row.len(),
        row2.len() == row.len(),
        p.len() == row.len(),
        k <= x.len(),
        forall|j: int|
            0 <= j < row.len() ==> #[trigger] row2[j] == (row[j] - (f * p[j]) % group_order()) % (
            group_order() as int),
    ensures
        modn(dot(row2, x, k)) == modn(dot(row, x, k) - f * dot(p, x, k)),
    decreases k,
{
    let n = group_order() as int;
    if k > 0 {
        lemma_dot_sub(row, p, row2, f, x, k - 1);
        let a = dot(row, x, k - 1);
        let b = dot(row2, x, k - 1);
        let q = dot(p, x, k - 1);
        let r = row[k - 1] as int;
        let pv = p[k - 1] as int;
        let xv = x[k - 1] as int;
        let e = row2[k - 1] as int;
        // e ≡ r - f*pv
        assert(modn(e * xv) == modn((r - f * pv) * xv)) by {
            lemma_mul_mod_noop_left(r - (f * pv) % n, xv, n);
            lemma_sub_mod_noop(r, f * pv, n);
            lemma_mul_mod_noop_left(r - f * pv, xv, n);
            assert(modn(r - (f * pv) % n) == modn(r - f * pv)) by {
                lemma_sub_mod_noop(r, (f * pv) % n, n);
                vstd::arithmetic::div_mod::lemma_mod_twice(f * pv, n);
                lemma_sub_mod_noop(r, f * pv, n);
            }
        }
        assert((r - f * pv) * xv == r * xv - f * (pv * xv)) by (nonlinear_arith);
        assert(f * (q + pv * xv) == f * q + f * (pv * xv)) by (nonlinear_arith);
        lemma_add_mod_noop(b, e * xv, n);
        lemma_add_mod_noop(a - f * q, r * xv - f * (pv * xv), n);
        lemma_add_mod_noop(a - f * q, (r - f * pv) * xv, n);
        assert((a + r * xv) - f * (q + pv * xv) == (a - f * q) + (r * xv - f * (pv * xv)));
    }
}

/// A unit row picks out one entry.
proof fn lemma_dot_unit(row: Seq<nat>, x: Seq<nat>, i: int, k: int)
    requires
        0 <= k <= row.len(),
        k <= x.len(),
        forall|j: int| 0 <= j < row.len() ==> #[trigger] row[j] == (if j == i { 1nat } else { 0nat }),
    ensures
        dot(row, x, k) == (if 0 <= i < k { x[i] as int } else { 0 }),
    decreases k,
{
    if k > 0 {
        lemma_dot_unit(row, x, i, k - 1);
    }
}

/// Congruence is kept by multiplying both sides.
proof fn lemma_mod_mul_both(a: int, b: int, c: int)
    requires
        modn(a) == modn(b),
    ensures
        modn(c * a) == modn(c * b),
{
    let n = group_order() as int;
    lemma_mul_mod_noop_right(c, a, n);
    lemma_mul_mod_noop_right(c, b, n);
}

fn copy_row(row: &Vec<[u8; 32]>) -> (r: Vec<[u8; 32]>)
    ensures
        r@ == row@,
{
    let mut out: Vec<[u8; 32]> = Vec::new();
    let mut j: usize = 0;
    while j < row.len()
        invariant
            j <= row@.len(),
            out@ == row@.take(j as int),
        decreases row@.len() - j,
    {
        out.push(row[j]);
        assert(out@ =~= row@.take(j + 1));
        j += 1;
    }
    assert(row@.take(row@.len() as int) =~= row@);
    out
}

/// Exec row: `row` scaled by `c`.
fn scale_row(row: &Vec<[u8; 32]>, c: [u8; 32], from: usize) -> (r: Vec<[u8; 32]>)
    requires
        all_scalars(row@),
        is_scalar(c),
        from <= row@.len(),
    ensures
        r@.len() == row@.len(),
        all_scalars(r@),
        forall|j: int| 0 <= j < from ==> #[trigger] r@[j] == row@[j],
        forall|j: int| from <= j < row@.len() ==> sv(#[trigger] r@[j]) == (sv(row@[j]) * sv(c)) % group_order(),
{
    let mut out: Vec<[u8; 32]> = Vec::new();
    let mut j: usize = 0;
    while j < row.len()
        invariant
            all_scalars(row@),
            is_scalar(c),
            from <= row@.len(),
            j <= row@.len(),
            out@.len() == j,
            all_scalars(out@),
            forall|k: int| 0 <= k < j && k < from ==> #[trigger] out@[k] == row@[k],
            forall|k: int| from <= k < j ==> sv(#[trigger] out@[k]) == (sv(row@[k]) * sv(c)) % group_order(),
        decreases row@.len() - j,
    {
        assert(is_scalar(row@[j as int]));
        if j < from {
            out.push(row[j]);
        } else {
            let v = scalar_mul(row[j], c);
            proof {
                lemma_mod_bound((sv(row@[j as int]) * sv(c)) as int, group_order() as int);
            }
            out.push(v);
        }
        j += 1;
    }
    out
}

/// Exec row: `row - f * p`.
fn eliminate_row(row: &Vec<[u8; 32]>, p: &Vec<[u8; 32]>, f: [u8; 32], from: usize) -> (r: Vec<[u8; 32]>)
    requires
        all_scalars(row@),
        all_scalars(p@),
        p@.len() == row@.len(),
        is_scalar(f),
        from <= row@.len(),
    ensures
        r@.len() == row@.len(),
        all_scalars(r@),
        forall|j: int| 0 <= j < from ==> #[trigger] r@[j] == row@[j],
        forall|j: int|
            from <= j < row@.len() ==> sv(#[trigger] r@[j]) == (sv(row@[j]) - (sv(f) * sv(p@[j]))
                % group_order()) % (group_order() as int),
{
    let mut out: Vec<[u8; 32]> = Vec::new();
    let mut j: usize = 0;
    while j < row.len()
        invariant
            all_scalars(row@),
            all_scalars(p@),
            p@.len() == row@.len(),
            is_scalar(f),
            from <= row@.len(),
            j <= row@.len(),
            out@.len() == j,
            all_scalars(out@),
            forall|k: int| 0 <= k < j && k < from ==> #[trigger] out@[k] == row@[k],
            forall|k: int|
                from <= k < j ==> sv(#[trigger] out@[k]) == (sv(row@[k]) - (sv(f) * sv(p@[k]))
                    % group_order()) % (group_order() as int),
        decreases row@.len() - j,
    {
        assert(is_scalar(row@[j as int]));
        assert(is_scalar(p@[j as int]));
        if j < from {
            out.push(row[j]);
        } else {
            let m = scalar_mul(f, p[j]);
            proof {
                lemma_mod_bound((sv(f) * sv(p@[j as int])) as int, group_order() as int);
            }
            let v = scalar_sub(row[j], m);
            proof {
                lemma_mod_bound(sv(row@[j as int]) - sv(m), group_order() as int);
            }
            out.push(v);
        }
        j += 1;
    }
    out
}

pub open spec fn msg_not_square() -> Seq<char> {
    "Birkhoff linear system must be square"@
}

pub open spec fn msg_singular() -> Seq<char> {
    "singular Birkhoff interpolation system"@
}

fn check_square(matrix: &Vec<Vec<[u8; 32]>>, target: &Vec<[u8; 32]>) -> (r: bool)
    ensures
        r == is_square(matrix@, target@),
{
    let n = matrix.len();
    if target.len() != n {
        return false;
    }
    let mut i: usize = 0;
    while i < n
        invariant
            n == matrix@.len(),
            i <= n,
            forall|k: int| 0 <= k < i ==> (#[trigger] matrix@[k])@.len() == n,
        decreases n - i,
    {
        if matrix[i].len() != n {
            return false;
        }
        i += 1;
    }
    true
}

/// Solves `matrix · x = target` modulo the group order. A non-square system
/// is refused. A square system is solved exactly when the matrix is not
/// singular modulo the group order, and then the returned vector is its
/// only canonical solution; a singular one is refused.
pub fn solve_scalar_system(matrix: Vec<Vec<[u8; 32]>>, target: Vec<[u8; 32]>) -> (r: Result<
    Vec<[u8; 32]>,
    DkgKitError,
>)
    requires
        forall|i: int| 0 <= i < matrix@.len() ==> all_scalars((#[trigger] matrix@[i])@),
        all_scalars(target@),
    ensures
        !is_square(matrix@, target@) ==> (r matches Err(e) && e@ == crate::types::ErrorView::Protocol(msg_not_square())),
        is_square(matrix@, target@) ==> (r is Ok <==> !singular(matrix_values(matrix@))),
        is_square(matrix@, target@) ==> match r {
            Ok(x) => {
                &&& x@.len() == matrix@.len()
                &&& all_scalars(x@)
                &&& solves(matrix_values(matrix@), scalar_values(target@), scalar_values(x@))
                &&& forall|y: Seq<nat>|
                    y.len() == matrix@.len() && canonical(y) && #[trigger] solves(
                        matrix_values(matrix@),
                        scalar_values(target@),
                        y,
                    ) ==> y == scalar_values(x@)
            },
            Err(e) => e@ == crate::types::ErrorView::Protocol(msg_singular()),
        },
{
    if !check_square(&matrix, &target) {
        return Err(DkgKitError::Protocol(String::from_str("Birkhoff linear system must be square")));
    }
    eliminate(matrix, target)
}

/// Gauss-Jordan elimination on a square system. Every row operation keeps
/// the solutions of the system and of its homogeneous counterpart, so a
/// column without a pivot shows a non-zero vector in the kernel.
#[verifier::spinoff_prover]
#[verifier::rlimit(60)]
fn eliminate(matrix_in: Vec<Vec<[u8; 32]>>, target_in: Vec<[u8; 32]>) -> (r: Result<
    Vec<[u8; 32]>,
    DkgKitError,
>)
    requires
        forall|i: int| 0 <= i < matrix_in@.len() ==> all_scalars((#[trigger] matrix_in@[i])@),
        all_scalars(target_in@),
        is_square(matrix_in@, target_in@),
    ensures
        match r {
            Ok(x) => {
                &&& x@.len() == matrix_in@.len()
                &&& all_scalars(x@)
                &&& solves(matrix_values(matrix_in@), scalar_values(target_in@), scalar_values(x@))
                &&& forall|y: Seq<nat>|
                    y.len() == matrix_in@.len() && canonical(y) && #[trigger] solves(
                        matrix_values(matrix_in@),
                        scalar_values(target_in@),
                        y,
                    ) ==> y == scalar_values(x@)
                &&& !singular(matrix_values(matrix_in@))
            },
            Err(e) => e@ == crate::types::ErrorView::Protocol(msg_singular()),
        },
        r is Err ==> singular(matrix_values(matrix_in@)),
{
    let n = matrix_in.len();
    let ghost m0 = matrix_values(matrix_in@);
    let ghost t0 = scalar_values(target_in@);
    let ghost z0 = zero_vector(n as nat);

    let mut matrix = matrix_in;
    let mut target = target_in;
    let mut col: usize = 0;
    while col < n
        invariant
            n == matrix@.len(),
            col <= n,
            square_scalars(matrix@, n as nat),
            target@.len() == n,
            all_scalars(target@),
            m0.len() == n,
            t0.len() == n,
            m0 == matrix_values(matrix_in@),
            z0 == zero_vector(n as nat),
            forall|x: Seq<nat>| x.len() == n ==> (#[trigger] solves(m0, t0, x) == solves(
                matrix_values(matrix@),
                scalar_values(target@),
                x,
            )),
            forall|x: Seq<nat>| x.len() == n ==> (#[trigger] solves(m0, z0, x) == solves(
                matrix_values(matrix@),
                z0,
                x,
            )),
            forall|i: int, j: int|
                0 <= i < n && 0 <= j < col ==> sv(#[trigger] matrix@[i]@[j]) == (if i == j {
                    1nat
                } else {
                    0nat
                }),
        decreases n - col,
    {
        // find the pivot row
        let mut pivot: usize = col;
        while pivot < n && scalar_is_zero(&matrix[pivot][col])
            invariant
                n == matrix@.len(),
                col < n,
                col <= pivot <= n,
                square_scalars(matrix@, n as nat),
                forall|i: int| col <= i < pivot ==> sv(#[trigger] matrix@[i]@[col as int]) == 0,
            decreases n - pivot,
        {
            pivot += 1;
        }
        if pivot == n {
            proof {
                let m = matrix_values(matrix@);
                lemma_stuck_column_singular(m, col as int);
                let z = choose|z: Seq<nat>| #[trigger] in_kernel(m, z);
                assert(solves(m0, z0, z));
                assert(z.len() == m0.len());
                assert(canonical(z));
                assert(z != zero_vector(m0.len()));
                assert(in_kernel(m0, z));
                assert(singular(m0));
            }
            return Err(DkgKitError::Protocol(String::from_str("singular Birkhoff interpolation system")));
        }
        assert(sv(matrix@[pivot as int]@[col as int]) != 0);
        if pivot != col {
            let ghost before = matrix@;
            let ghost tb = target@;
            let a = copy_row(&matrix[pivot]);
            let b = copy_row(&matrix[col]);
            assert(a@ =~= before[pivot as int]@);
            assert(b@ =~= before[col as int]@);
            matrix.set(pivot, b);
            matrix.set(col, a);
            let ta = target[pivot];
            let tb2 = target[col];
            target.set(pivot, tb2);
            target.set(col, ta);
            proof {
                let mb = matrix_values(before);
                let ma = matrix_values(matrix@);
                assert(ma[pivot as int] == mb[col as int]);
                assert(ma[col as int] == mb[pivot as int]);
                assert forall|i: int| 0 <= i < n && i != pivot && i != col implies #[trigger] ma[i] == mb[i]
                    && scalar_values(target@)[i] == scalar_values(tb)[i] by {
                    assert(matrix@[i] == before[i]);
                }
                lemma_swap_keeps_solutions(mb, scalar_values(tb), ma, scalar_values(target@), pivot as int, col as int);
                lemma_swap_keeps_solutions(mb, z0, ma, z0, pivot as int, col as int);
                assert forall|i: int, j: int| 0 <= i < n && 0 <= j < col implies sv(
                    #[trigger] matrix@[i]@[j],
                ) == (if i == j { 1nat } else { 0nat }) by {
                    if i == pivot {
                        assert(matrix@[i]@[j] == before[col as int]@[j]);
                    } else if i == col {
                        assert(matrix@[i]@[j] == before[pivot as int]@[j]);
                    } else {
                        assert(matrix@[i] == before[i]);
                    }
                }
            }
        }
        // scale the pivot row
        assert(is_scalar(matrix@[col as int]@[col as int]));
        let inverse = match scalar_invert(matrix[col][col]) {
            Some(v) => v,
            None => {
                return Err(DkgKitError::Protocol(String::from_str("singular Birkhoff interpolation pivot")));
            },
        };
        let ghost before = matrix@;
        let ghost tb = target@;
        let scaled = scale_row(&matrix[col], inverse, col);
        let ghost sc = scaled@;
        matrix.set(col, scaled);
        assert(matrix@[col as int]@ == sc);
        assert(is_scalar(target@[col as int]));
        let tv = scalar_mul(target[col], inverse);
        target.set(col, tv);
        proof {
            lemma_n_pos();
            lemma_mod_bound((sv(tb[col as int]) * sv(inverse)) as int, group_order() as int);
            let mb = matrix_values(before);
            let ma = matrix_values(matrix@);
            let rb = mb[col as int];
            let ra = ma[col as int];
            let p = sv(before[col as int]@[col as int]);
            assert forall|j: int| 0 <= j < n implies #[trigger] ra[j] == (rb[j] * sv(inverse)) % group_order() by {
                if j < col {
                    assert(sv(before[col as int]@[j]) == 0);
                    assert(rb[j] == 0);
                    assert(ra[j] == 0);
                    assert((0 * sv(inverse)) % group_order() == 0);
                } else {
                    assert(ra[j] == sv(sc[j]));
                }
            }
            assert forall|i: int| 0 <= i < n && i != col implies #[trigger] ma[i] == mb[i]
                && scalar_values(target@)[i] == scalar_values(tb)[i] by {
                assert(matrix@[i] == before[i]);
            }
            let tc = sv(tb[col as int]) as int;
            let tc2 = sv(target@[col as int]) as int;
            assert(modn(tc2) == modn(sv(inverse) * tc)) by {
                lemma_mod_bound(tc2, group_order() as int);
                vstd::arithmetic::div_mod::lemma_mod_twice(tc * sv(inverse), group_order() as int);
                assert(tc * sv(inverse) == sv(inverse) * tc) by (nonlinear_arith);
            }
            lemma_scale_keeps_solutions(mb, scalar_values(tb), ma, scalar_values(target@), col as int, sv(inverse), p);
            assert(sv(inverse) * z0[col as int] == 0) by (nonlinear_arith)
                requires z0[col as int] == 0;
            lemma_scale_keeps_solutions(mb, z0, ma, z0, col as int, sv(inverse), p);
            assert(sv(matrix@[col as int]@[col as int]) == 1) by {
                lemma_small_mod(1, group_order());
            }
            assert forall|i: int, j: int| 0 <= i < n && 0 <= j < col implies sv(
                #[trigger] matrix@[i]@[j],
            ) == (if i == j { 1nat } else { 0nat }) by {
                if i != col {
                    assert(matrix@[i] == before[i]);
                }
            }
        }
        // clear the column in every other row
        let mut row: usize = 0;
        while row < n
            invariant
                n == matrix@.len(),
                col < n,
                row <= n,
                square_scalars(matrix@, n as nat),
                target@.len() == n,
                all_scalars(target@),
                m0.len() == n,
                t0.len() == n,
                z0 == zero_vector(n as nat),
                forall|x: Seq<nat>| x.len() == n ==> (#[trigger] solves(m0, t0, x) == solves(
                    matrix_values(matrix@),
                    scalar_values(target@),
                    x,
                )),
                forall|x: Seq<nat>| x.len() == n ==> (#[trigger] solves(m0, z0, x) == solves(
                    matrix_values(matrix@),
                    z0,
                    x,
                )),
                forall|i: int, j: int|
                    0 <= i < n && 0 <= j < col ==> sv(#[trigger] matrix@[i]@[j]) == (if i == j {
                        1nat
                    } else {
                        0nat
                    }),
                sv(matrix@[col as int]@[col as int]) == 1,
                forall|i: int| 0 <= i < row && i != col ==> sv(#[trigger] matrix@[i]@[col as int]) == 0,
            decreases n - row,
        {
            if row != col {
                assert(is_scalar(matrix@[row as int]@[col as int]));
                let factor = matrix[row][col];
                if !scalar_is_zero(&factor) {
                    let ghost before = matrix@;
                    let ghost tb = target@;
                    let updated = eliminate_row(&matrix[row], &matrix[col], factor, col);
                    let ghost up = updated@;
                    matrix.set(row, updated);
                    assert(matrix@[row as int]@ == up);
                    assert(is_scalar(target@[col as int]));
                    assert(is_scalar(target@[row as int]));
                    let m = scalar_mul(factor, target[col]);
                    proof {
                        lemma_n_pos();
                        lemma_mod_bound((sv(factor) * sv(tb[col as int])) as int, group_order() as int);
                    }
                    let tv = scalar_sub(target[row], m);
                    target.set(row, tv);
                    proof {
                        lemma_mod_bound(sv(tb[row as int]) - sv(m), group_order() as int);
                        let mb = matrix_values(before);
                        let ma = matrix_values(matrix@);
                        let rb = mb[row as int];
                        let pc = mb[col as int];
                        let ra = ma[row as int];
                        let f = sv(factor);
                        assert forall|j: int| 0 <= j < n implies #[trigger] ra[j] == (rb[j] - (f * pc[j])
                            % group_order()) % (group_order() as int) by {
                            if j < col {
                                assert(sv(before[col as int]@[j]) == 0);
                                lemma_small_mod(rb[j], group_order());
                                assert((f * pc[j]) == 0) by (nonlinear_arith)
                                    requires pc[j] == 0;
                            }
                        }
                        assert forall|i: int| 0 <= i < n && i != row implies #[trigger] ma[i] == mb[i]
                            && scalar_values(target@)[i] == scalar_values(tb)[i] by {
                            assert(matrix@[i] == before[i]);
                        }
                        let tr = sv(tb[row as int]) as int;
                        let tc = sv(tb[col as int]) as int;
                        let tr2 = sv(target@[row as int]) as int;
                        assert(modn(tr2) == modn(tr - f * tc)) by {
                            lemma_small_mod(tr2 as nat, group_order());
                            lemma_sub_mod_noop(tr, f * tc, group_order() as int);
                            lemma_sub_mod_noop(tr, (f * tc) % (group_order() as int), group_order() as int);
                            vstd::arithmetic::div_mod::lemma_mod_twice(f * tc, group_order() as int);
                            lemma_mod_bound(tr - (f * tc) % (group_order() as int), group_order() as int);
                            vstd::arithmetic::div_mod::lemma_mod_twice(tr - (f * tc) % (group_order() as int), group_order() as int);
                        }
                        lemma_elim_keeps_solutions(mb, scalar_values(tb), ma, scalar_values(target@), row as int, col as int, f);
                        assert(f * z0[col as int] == 0) by (nonlinear_arith)
                            requires z0[col as int] == 0;
                        lemma_elim_keeps_solutions(mb, z0, ma, z0, row as int, col as int, f);
                        assert(sv(matrix@[row as int]@[col as int]) == 0) by {
                            assert(ra[col as int] == (rb[col as int] - (f * 1) % group_order()) % (group_order() as int));
                            lemma_small_mod(f, group_order());
                        }
                        assert forall|i: int, j: int| 0 <= i < n && 0 <= j < col implies sv(
                            #[trigger] matrix@[i]@[j],
                        ) == (if i == j { 1nat } else { 0nat }) by {
                            if i != row {
                                assert(matrix@[i] == before[i]);
                            } else {
                                assert(matrix@[i]@[j] == before[i]@[j]);
                            }
                        }
                    }
                }
            }
            row += 1;
        }
        proof {
            assert forall|i: int, j: int| 0 <= i < n && 0 <= j < col + 1 implies sv(
                #[trigger] matrix@[i]@[j],
            ) == (if i == j { 1nat } else { 0nat }) by {
                if j == col && i != col {
                    assert(sv(matrix@[i]@[col as int]) == 0);
                }
            }
        }
        col += 1;
    }
    proof {
        let x = scalar_values(target@);
        let m = matrix_values(matrix@);
        // the reduced matrix is the identity: row i picks out entry i
        assert forall|i: int, y: Seq<nat>| 0 <= i < n && y.len() == n implies #[trigger] dot(m[i], y, n as int)
            == y[i] as int by {
            assert forall|j: int| 0 <= j < m[i].len() implies #[trigger] m[i][j] == (if j == i { 1nat } else { 0nat }) by {
                assert(sv(matrix@[i]@[j]) == (if i == j { 1nat } else { 0nat }));
            }
            lemma_dot_unit(m[i], y, i, n as int);
        }
        assert forall|i: int| 0 <= i < n implies #[trigger] modn(dot(m[i], x, x.len() as int)) == modn(x[i] as int) by {
            assert(dot(m[i], x, n as int) == x[i] as int);
        }
        assert(solves(m, x, x));
        assert forall|y: Seq<nat>| y.len() == n && canonical(y) && #[trigger] solves(m0, t0, y) implies y == x by {
            assert(solves(m, x, y));
            assert forall|i: int| 0 <= i < n implies y[i] == x[i] by {
                assert(modn(dot(m[i], y, y.len() as int)) == modn(x[i] as int));
                assert(dot(m[i], y, n as int) == y[i] as int);
                assert(is_scalar(target@[i]));
                lemma_small_mod(y[i], group_order());
                lemma_small_mod(x[i], group_order());
            }
            assert(y =~= x);
        }
        assert forall|z: Seq<nat>| !#[trigger] in_kernel(m0, z) by {
            if in_kernel(m0, z) {
                assert(solves(m, z0, z));
                assert forall|i: int| 0 <= i < n implies z[i] == z0[i] by {
                    assert(modn(dot(m[i], z, z.len() as int)) == modn(z0[i] as int));
                    assert(dot(m[i], z, n as int) == z[i] as int);
                    lemma_small_mod(z[i], group_order());
                }
                assert(z =~= z0);
            }
        }
    }
    Ok(target)
}

} // verus!
