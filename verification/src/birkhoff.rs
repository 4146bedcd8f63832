//! Birkhoff interpolation: reconstructing `f(0)` from derivative values
//! `f^(r_i)(x_i)` held by ranked signers.
use vstd::prelude::*;
use vstd::arithmetic::div_mod::{lemma_add_mod_noop, lemma_mul_mod_noop_right, lemma_mod_twice};
use crate::linear::{canonical, dot, modn, solve_scalar_system, solves, matrix_values, msg_singular, singular};
use crate::scalar::{
    all_scalars, basis_value, derivative_basis_scalar, derivative_sum, derivative_value,
    group_order, is_scalar, scalar_one, scalar_values, scalar_zero, sv,
};
use crate::signers::{
    hierarchical_signer_error, signer_ids, unranked_scan, validate_hierarchical_signer_set,
};
use crate::types::{rank_in, DkgKitError, ErrorView, HierarchicalThresholdConfig, ParticipantId};

verus! {

/// One interpolation condition: the derivative of order `derivative_order`
/// at `x`. Rank 0 is a plain evaluation, rank 1 a first derivative, and so on.
#[derive(Debug, Clone, Copy, PartialEq, Eq, Structural)]
pub struct BirkhoffPoint {
    pub participant_id: ParticipantId,
    pub x: u16,
    pub derivative_order: u16,
}

/// The weight of one signer's derivative value in the reconstruction of `f(0)`.
#[derive(Debug, Clone, Copy, PartialEq, Eq)]
pub struct BirkhoffCoefficient {
    pub participant_id: ParticipantId,
    pub derivative_order: u16,
    pub coefficient_bytes: [u8; 32],
}

pub open spec fn msg_zero_x() -> Seq<char> {
    "Birkhoff x-coordinate cannot be zero"@
}

pub open spec fn msg_no_points() -> Seq<char> {
    "Birkhoff point set cannot be empty"@
}

impl BirkhoffPoint {
    /// A condition at a non-zero `x`; `x = 0` is refused.
    pub fn new(participant_id: ParticipantId, x: u16, derivative_order: u16) -> (r: Result<
        BirkhoffPoint,
        DkgKitError,
    >)
        ensures
            x == 0 ==> (r matches Err(e) && e@ == ErrorView::Protocol(msg_zero_x())),
            x != 0 ==> r == Ok::<BirkhoffPoint, DkgKitError>(
                BirkhoffPoint { participant_id, x, derivative_order },
            ),
    {
        if x == 0 {
            return Err(DkgKitError::Protocol(String::from_str("Birkhoff x-coordinate cannot be zero")));
        }
        Ok(BirkhoffPoint { participant_id, x, derivative_order })
    }
}

/// Row `i` of the Birkhoff system: the derivative basis of point `i` for
/// every degree below `n`.
pub open spec fn birkhoff_row(p: BirkhoffPoint, n: nat) -> Seq<nat> {
    Seq::new(n, |d: int| basis_value(d as nat, p.derivative_order as nat, p.x as nat))
}

/// The Birkhoff system of a point list (rows = points, columns = degrees).
pub open spec fn birkhoff_system(points: Seq<BirkhoffPoint>) -> Seq<Seq<nat>> {
    Seq::new(points.len(), |i: int| birkhoff_row(points[i], points.len()))
}

/// The transpose of an `n`-by-`n` system.
pub open spec fn transpose(m: Seq<Seq<nat>>, n: nat) -> Seq<Seq<nat>> {
    Seq::new(n, |d: int| Seq::new(n, |i: int| m[i][d]))
}

/// The first unit vector of length `n`.
pub open spec fn unit0(n: nat) -> Seq<nat> {
    Seq::new(n, |d: int| if d == 0 { 1nat } else { 0nat })
}

/// `c` are valid Birkhoff coefficients for `points`: they solve
/// `transpose(system) · c = e_0`.
pub open spec fn coefficients_solve(points: Seq<BirkhoffPoint>, c: Seq<nat>) -> bool {
    c.len() == points.len() && solves(
        transpose(birkhoff_system(points), points.len()),
        unit0(points.len()),
        c,
    )
}

fn basis_row(p: &BirkhoffPoint, n: usize) -> (r: Vec<[u8; 32]>)
    requires
        n <= 65536,
    ensures
        r@.len() == n,
        all_scalars(r@),
        scalar_values(r@) == birkhoff_row(*p, n as nat),
{
    let mut row: Vec<[u8; 32]> = Vec::new();
    let mut d: usize = 0;
    while d < n
        invariant
            n <= 65536,
            d <= n,
            row@.len() == d,
            all_scalars(row@),
            forall|k: int| 0 <= k < d ==> sv(#[trigger] row@[k]) == basis_value(
                k as nat,
                p.derivative_order as nat,
                p.x as nat,
            ),
        decreases n - d,
    {
        let v = match derivative_basis_scalar(d as u16, p.derivative_order, p.x) {
            Ok(v) => v,
            Err(_) => scalar_zero(),
        };
        row.push(v);
        d += 1;
    }
    assert(scalar_values(row@) =~= birkhoff_row(*p, n as nat));
    row
}

/// The Birkhoff system of `points`, entry by entry.
pub fn birkhoff_matrix(points: &[BirkhoffPoint]) -> (r: Result<Vec<Vec<[u8; 32]>>, DkgKitError>)
    requires
        points@.len() <= 65536,
    ensures
        r matches Ok(m) && m@.len() == points@.len() && (forall|i: int|
            0 <= i < m@.len() ==> (#[trigger] m@[i])@.len() == points@.len() && all_scalars(m@[i]@))
            && matrix_values(m@) == birkhoff_system(points@),
{
    let n = points.len();
    let mut m: Vec<Vec<[u8; 32]>> = Vec::new();
    let mut i: usize = 0;
    while i < n
        invariant
            n == points@.len(),
            n <= 65536,
            i <= n,
            m@.len() == i,
            forall|k: int| 0 <= k < i ==> (#[trigger] m@[k])@.len() == n && all_scalars(m@[k]@)
                && scalar_values(m@[k]@) == birkhoff_row(points@[k], n as nat),
        decreases n - i,
    {
        let row = basis_row(&points[i], n);
        m.push(row);
        i += 1;
    }
    assert(matrix_values(m@) =~= birkhoff_system(points@)) by {
        assert forall|k: int| 0 <= k < n implies #[trigger] matrix_values(m@)[k]
            == birkhoff_system(points@)[k] by {
        }
    }
    Ok(m)
}

/// What `birkhoff_interpolation_coefficients` computes, as plain values.
pub open spec fn coefficient_points_match(points: Seq<BirkhoffPoint>, cs: Seq<BirkhoffCoefficient>) -> bool {
    &&& cs.len() == points.len()
    &&& forall|i: int|
        0 <= i < cs.len() ==> (#[trigger] cs[i]).participant_id == points[i].participant_id
            && cs[i].derivative_order == points[i].derivative_order
            && is_scalar(cs[i].coefficient_bytes)
}

/// The Birkhoff coefficients of `points`: a canonical solution of the
/// transposed system. When that system is not singular it is the only one.
pub open spec fn birkhoff_solution(points: Seq<BirkhoffPoint>) -> Seq<nat> {
    choose|c: Seq<nat>| canonical(c) && #[trigger] coefficients_solve(points, c)
}

/// The integers of a coefficient list.
pub open spec fn coefficient_values(cs: Seq<BirkhoffCoefficient>) -> Seq<nat> {
    cs.map_values(|c: BirkhoffCoefficient| sv(c.coefficient_bytes))
}

/// Computes Birkhoff interpolation coefficients for reconstructing `f(0)`:
/// one per point, solving the transposed Birkhoff system against `e_0`.
/// An empty point list is refused; so is a point set whose transposed system
/// is singular modulo the group order. Otherwise the coefficients are the
/// only canonical solution. (At most 65536 points: the system has one row
/// and one column per point.)
pub fn birkhoff_interpolation_coefficients(points: &[BirkhoffPoint]) -> (r: Result<
    Vec<BirkhoffCoefficient>,
    DkgKitError,
>)
    requires
        points@.len() <= 65536,
    ensures
        points@.len() == 0 ==> (r matches Err(e) && e@ == ErrorView::Protocol(msg_no_points())),
        points@.len() > 0 ==> (r is Ok <==> !singular(
            transpose(birkhoff_system(points@), points@.len()),
        )),
        points@.len() > 0 ==> match r {
            Ok(cs) => {
                &&& coefficient_points_match(points@, cs@)
                &&& coefficients_solve(points@, coefficient_values(cs@))
                &&& forall|c: Seq<nat>|
                    canonical(c) && #[trigger] coefficients_solve(points@, c) ==> c == coefficient_values(cs@)
                &&& coefficient_values(cs@) == birkhoff_solution(points@)
            },
            Err(e) => e@ == ErrorView::Protocol(msg_singular()),
        },
{
    if points.len() == 0 {
        return Err(DkgKitError::Protocol(String::from_str("Birkhoff point set cannot be empty")));
    }
    let n = points.len();
    let matrix = birkhoff_matrix(points)?;
    let ghost sys = birkhoff_system(points@);
    // transpose
    let mut transposed: Vec<Vec<[u8; 32]>> = Vec::new();
    let mut d: usize = 0;
    while d < n
        invariant
            n == points@.len(),
            n > 0,
            matrix@.len() == n,
            forall|i: int| 0 <= i < n ==> (#[trigger] matrix@[i])@.len() == n && all_scalars(matrix@[i]@),
            matrix_values(matrix@) == sys,
            d <= n,
            transposed@.len() == d,
            forall|k: int| 0 <= k < d ==> (#[trigger] transposed@[k])@.len() == n && all_scalars(transposed@[k]@)
                && scalar_values(transposed@[k]@) == transpose(sys, n as nat)[k],
        decreases n - d,
    {
        let mut column: Vec<[u8; 32]> = Vec::new();
        let mut i: usize = 0;
        while i < n
            invariant
                n == points@.len(),
                matrix@.len() == n,
                forall|k: int| 0 <= k < n ==> (#[trigger] matrix@[k])@.len() == n && all_scalars(matrix@[k]@),
                matrix_values(matrix@) == sys,
                d < n,
                i <= n,
                column@.len() == i,
                all_scalars(column@),
                forall|k: int| 0 <= k < i ==> sv(#[trigger] column@[k]) == sys[k][d as int],
            decreases n - i,
        {
            assert(sys[i as int][d as int] == sv(matrix@[i as int]@[d as int]));
            assert(is_scalar(matrix@[i as int]@[d as int]));
            column.push(matrix[i][d]);
            i += 1;
        }
        assert(scalar_values(column@) =~= transpose(sys, n as nat)[d as int]);
        transposed.push(column);
        d += 1;
    }
    let mut target: Vec<[u8; 32]> = Vec::new();
    target.push(scalar_one());
    let mut k: usize = 1;
    while k < n
        invariant
            1 <= k <= n,
            target@.len() == k,
            all_scalars(target@),
            forall|j: int| 0 <= j < k ==> sv(#[trigger] target@[j]) == unit0(n as nat)[j],
        decreases n - k,
    {
        target.push(scalar_zero());
        k += 1;
    }
    assert(scalar_values(target@) =~= unit0(n as nat));
    assert(matrix_values(transposed@) =~= transpose(sys, n as nat)) by {
        assert forall|j: int| 0 <= j < n implies #[trigger] matrix_values(transposed@)[j]
            == transpose(sys, n as nat)[j] by {
        }
    }
    assert(crate::linear::is_square(transposed@, target@));
    let values = solve_scalar_system(transposed, target)?;
    let mut out: Vec<BirkhoffCoefficient> = Vec::new();
    let mut i: usize = 0;
    while i < n
        invariant
            n == points@.len(),
            values@.len() == n,
            all_scalars(values@),
            i <= n,
            out@.len() == i,
            forall|j: int| 0 <= j < i ==> (#[trigger] out@[j]).participant_id == points@[j].participant_id
                && out@[j].derivative_order == points@[j].derivative_order
                && out@[j].coefficient_bytes == values@[j],
        decreases n - i,
    {
        out.push(
            BirkhoffCoefficient {
                participant_id: points[i].participant_id,
                derivative_order: points[i].derivative_order,
                coefficient_bytes: values[i],
            },
        );
        i += 1;
    }
    assert(coefficient_values(out@) =~= scalar_values(values@));
    proof {
        let c = coefficient_values(out@);
        assert(canonical(c));
        assert(coefficients_solve(points@, c));
        let w = birkhoff_solution(points@);
        assert(canonical(w) && coefficients_solve(points@, w));
    }
    Ok(out)
}

// ---------------------------------------------------------------- the reconstruction law
/// `sum_{i < k} f(i)`.
pub open spec fn sum_to(f: spec_fn(int) -> int, k: int) -> int
    decreases k,
{
    if k <= 0 {
        0
    } else {
        sum_to(f, k - 1) + f(k - 1)
    }
}

/// Sums of products of naturals are naturals.
pub proof fn lemma_sum_nonneg_products(c: Seq<nat>, v: Seq<nat>, k: int)
    ensures
        sum_to(|i: int| (c[i] * v[i]) as int, k) >= 0,
    decreases k,
{
    if k > 0 {
        lemma_sum_nonneg_products(c, v, k - 1);
    }
}

pub proof fn lemma_sum_ext(f: spec_fn(int) -> int, g: spec_fn(int) -> int, k: int)
    requires
        forall|i: int| 0 <= i < k ==> #[trigger] f(i) == g(i),
    ensures
        sum_to(f, k) == sum_to(g, k),
    decreases k,
{
    if k > 0 {
        lemma_sum_ext(f, g, k - 1);
    }
}

pub proof fn lemma_sum_add(f: spec_fn(int) -> int, g: spec_fn(int) -> int, h: spec_fn(int) -> int, k: int)
    requires
        forall|i: int| 0 <= i < k ==> #[trigger] h(i) == f(i) + g(i),
    ensures
        sum_to(h, k) == sum_to(f, k) + sum_to(g, k),
    decreases k,
{
    if k > 0 {
        lemma_sum_add(f, g, h, k - 1);
    }
}

pub proof fn lemma_sum_scale(f: spec_fn(int) -> int, h: spec_fn(int) -> int, c: int, k: int)
    requires
        forall|i: int| 0 <= i < k ==> #[trigger] h(i) == c * f(i),
    ensures
        sum_to(h, k) == c * sum_to(f, k),
    decreases k,
{
    if k > 0 {
        lemma_sum_scale(f, h, c, k - 1);
        assert(c * (sum_to(f, k - 1) + f(k - 1)) == c * sum_to(f, k - 1) + c * f(k - 1))
            by (nonlinear_arith);
    }
}

/// Terms congruent modulo the group order give congruent sums.
pub proof fn lemma_sum_congruent(f: spec_fn(int) -> int, g: spec_fn(int) -> int, k: int)
    requires
        forall|i: int| 0 <= i < k ==> modn(#[trigger] f(i)) == modn(g(i)),
    ensures
        modn(sum_to(f, k)) == modn(sum_to(g, k)),
    decreases k,
{
    if k > 0 {
        lemma_sum_congruent(f, g, k - 1);
        let n = group_order() as int;
        lemma_add_mod_noop(sum_to(f, k - 1), f(k - 1), n);
        lemma_add_mod_noop(sum_to(g, k - 1), g(k - 1), n);
    }
}

proof fn lemma_sum_zero(f: spec_fn(int) -> int, k: int)
    requires
        forall|i: int| 0 <= i < k ==> #[trigger] f(i) == 0,
    ensures
        sum_to(f, k) == 0,
    decreases k,
{
    if k > 0 {
        lemma_sum_zero(f, k - 1);
    }
}

/// Row sums and column sums of a table.
pub open spec fn row_sums(g: spec_fn(int, int) -> int, cols: int) -> spec_fn(int) -> int {
    |i: int| sum_to(|d: int| g(i, d), cols)
}

pub open spec fn col_sums(g: spec_fn(int, int) -> int, rows: int) -> spec_fn(int) -> int {
    |d: int| sum_to(|i: int| g(i, d), rows)
}

/// Exchanging the order of a double sum.
proof fn lemma_sum_swap(g: spec_fn(int, int) -> int, rows: int, cols: int)
    requires
        rows >= 0,
    ensures
        sum_to(row_sums(g, cols), rows) == sum_to(col_sums(g, rows), cols),
    decreases rows,
{
    if rows > 0 {
        lemma_sum_swap(g, rows - 1, cols);
        let last = |d: int| g(rows - 1, d);
        assert forall|d: int| 0 <= d < cols implies #[trigger] col_sums(g, rows)(d) == col_sums(
            g,
            rows - 1,
        )(d) + last(d) by {
        }
        lemma_sum_add(col_sums(g, rows - 1), last, col_sums(g, rows), cols);
        assert(row_sums(g, cols)(rows - 1) == sum_to(last, cols)) by {
            lemma_sum_ext(|d: int| g(rows - 1, d), last, cols);
        }
        assert(sum_to(row_sums(g, cols), rows) == sum_to(row_sums(g, cols), rows - 1) + row_sums(
            g,
            cols,
        )(rows - 1));
    } else {
        assert(sum_to(row_sums(g, cols), rows) == 0);
        assert forall|d: int| 0 <= d < cols implies #[trigger] col_sums(g, rows)(d) == 0 by {
        }
        lemma_sum_zero(col_sums(g, rows), cols);
    }
}

proof fn lemma_dot_sum(row: Seq<nat>, x: Seq<nat>, k: int)
    ensures
        dot(row, x, k) == sum_to(|j: int| (row[j] * x[j]) as int, k),
    decreases k,
{
    if k > 0 {
        lemma_dot_sum(row, x, k - 1);
    }
}

proof fn lemma_derivative_sum(a: Seq<nat>, p: BirkhoffPoint, k: int)
    ensures
        derivative_sum(a, p.derivative_order as nat, p.x as nat, k) == sum_to(
            |d: int| (a[d] * basis_value(d as nat, p.derivative_order as nat, p.x as nat)) as int,
            k,
        ),
    decreases k,
{
    if k > 0 {
        lemma_derivative_sum(a, p, k - 1);
    }
}

/// The signers' weighted sum: `sum_i c_i * f^(r_i)(x_i)` for the polynomial
/// with coefficients `a` (constant term first), each derivative value taken
/// modulo the group order.
pub open spec fn weighted_reconstruction(points: Seq<BirkhoffPoint>, c: Seq<nat>, a: Seq<nat>) -> int {
    sum_to(
        |i: int| (c[i] * derivative_value(a, points[i].derivative_order as nat, points[i].x as nat)) as int,
        points.len() as int,
    )
}

/// The basis entry of point `i` at degree `d`.
pub open spec fn basis_at(points: Seq<BirkhoffPoint>, i: int, d: int) -> int {
    basis_value(d as nat, points[i].derivative_order as nat, points[i].x as nat) as int
}

/// The table `c_i * a_d * basis(i, d)`.
pub open spec fn term_table(points: Seq<BirkhoffPoint>, c: Seq<nat>, a: Seq<nat>) -> spec_fn(int, int) -> int {
    |i: int, d: int| c[i] * (a[d] * basis_at(points, i, d))
}

proof fn lemma_row_term(points: Seq<BirkhoffPoint>, c: Seq<nat>, a: Seq<nat>, i: int)
    requires
        0 <= i < points.len(),
        c.len() == points.len(),
        a.len() == points.len(),
    ensures
        modn((c[i] * derivative_value(a, points[i].derivative_order as nat, points[i].x as nat)) as int)
            == modn(row_sums(term_table(points, c, a), points.len() as int)(i)),
{
    let n = points.len() as int;
    let nn = group_order() as int;
    let p = points[i];
    let s = derivative_sum(a, p.derivative_order as nat, p.x as nat, n);
    crate::scalar::lemma_derivative_sum_nonneg(a, p.derivative_order as nat, p.x as nat, n);
    lemma_mul_mod_noop_right(c[i] as int, s, nn);
    let f = |d: int| (a[d] * basis_value(d as nat, p.derivative_order as nat, p.x as nat)) as int;
    lemma_derivative_sum(a, p, n);
    let g = term_table(points, c, a);
    let h = |d: int| g(i, d);
    assert forall|d: int| 0 <= d < n implies #[trigger] h(d) == c[i] * f(d) by {
    }
    lemma_sum_scale(f, h, c[i] as int, n);
    assert(row_sums(g, n)(i) == sum_to(h, n)) by {
        lemma_sum_ext(|d: int| g(i, d), h, n);
    }
}

proof fn lemma_col_term(points: Seq<BirkhoffPoint>, c: Seq<nat>, a: Seq<nat>, d: int)
    requires
        0 <= d < points.len(),
        coefficients_solve(points, c),
        a.len() == points.len(),
    ensures
        modn(col_sums(term_table(points, c, a), points.len() as int)(d)) == modn(
            a[d] * (if d == 0 { 1int } else { 0int }),
        ),
{
    let n = points.len() as int;
    let nn = group_order() as int;
    let g = term_table(points, c, a);
    let t = transpose(birkhoff_system(points), n as nat);
    let w = |i: int| (t[d][i] * c[i]) as int;
    assert(modn(dot(t[d], c, n)) == modn(unit0(n as nat)[d] as int));
    lemma_dot_sum(t[d], c, n);
    lemma_sum_ext(|j: int| (t[d][j] * c[j]) as int, w, n);
    let h = |i: int| g(i, d);
    assert forall|i: int| 0 <= i < n implies #[trigger] h(i) == a[d] * w(i) by {
        assert(t[d][i] == basis_at(points, i, d));
        let bb = basis_at(points, i, d);
        assert(c[i] * (a[d] * bb) == a[d] * (bb * c[i])) by (nonlinear_arith);
    }
    lemma_sum_scale(w, h, a[d] as int, n);
    assert(col_sums(g, n)(d) == sum_to(h, n)) by {
        lemma_sum_ext(|i: int| g(i, d), h, n);
    }
    lemma_mul_mod_noop_right(a[d] as int, sum_to(w, n), nn);
    lemma_mul_mod_noop_right(a[d] as int, unit0(n as nat)[d] as int, nn);
}

/// Birkhoff coefficients reconstruct the constant term: for every polynomial
/// of degree below the number of points, `f(0) = sum_i c_i * f^(r_i)(x_i)`
/// modulo the group order.
pub proof fn lemma_birkhoff_reconstructs(points: Seq<BirkhoffPoint>, c: Seq<nat>, a: Seq<nat>)
    requires
        points.len() > 0,
        coefficients_solve(points, c),
        a.len() == points.len(),
    ensures
        modn(weighted_reconstruction(points, c, a)) == modn(a[0] as int),
{
    let n = points.len() as int;
    let g = term_table(points, c, a);
    let lhs = |i: int| (c[i] * derivative_value(a, points[i].derivative_order as nat, points[i].x as nat)) as int;
    assert forall|i: int| 0 <= i < n implies modn(#[trigger] lhs(i)) == modn(row_sums(g, n)(i)) by {
        lemma_row_term(points, c, a, i);
    }
    lemma_sum_congruent(lhs, row_sums(g, n), n);
    lemma_sum_swap(g, n, n);
    let unit = |d: int| a[d] * (if d == 0 { 1int } else { 0int });
    assert forall|d: int| 0 <= d < n implies modn(#[trigger] col_sums(g, n)(d)) == modn(unit(d)) by {
        lemma_col_term(points, c, a, d);
    }
    lemma_sum_congruent(col_sums(g, n), unit, n);
    lemma_sum_unit(a, unit, n);
    assert(weighted_reconstruction(points, c, a) == sum_to(lhs, n));
}

proof fn lemma_sum_unit(a: Seq<nat>, f: spec_fn(int) -> int, k: int)
    requires
        k >= 1,
        forall|d: int| #[trigger] f(d) == a[d] * (if d == 0 { 1int } else { 0int }),
    ensures
        sum_to(f, k) == a[0],
    decreases k,
{
    if k > 1 {
        lemma_sum_unit(a, f, k - 1);
        assert(f(k - 1) == 0);
    } else {
        assert(sum_to(f, 0) == 0);
        assert(f(0) == a[0]);
    }
}

// ---------------------------------------------------------------- points of a signer set
/// The Birkhoff points of a signer list: each signer's id as `x` and its rank
/// as the derivative order.
pub open spec fn signer_points(ps: Seq<crate::types::RankedParticipant>, ids: Seq<u16>) -> Seq<BirkhoffPoint> {
    ids.map_values(|id: u16| BirkhoffPoint {
        participant_id: ParticipantId(id),
        x: id,
        derivative_order: rank_in(ps, id).unwrap().0,
    })
}

/// What `birkhoff_points_from_hierarchical_signer_set` returns.
pub open spec fn points_outcome(ids: Seq<u16>, c: HierarchicalThresholdConfig) -> Result<Seq<BirkhoffPoint>, ErrorView> {
    match hierarchical_signer_error(ids, c) {
        Some(e) => Err(e),
        None => if ids.contains(0) {
            Err(ErrorView::Protocol(msg_zero_x()))
        } else {
            Ok(signer_points(c.participants@, ids))
        },
    }
}

pub proof fn lemma_unranked_none(ps: Seq<crate::types::RankedParticipant>, ids: Seq<u16>, j: int)
    requires
        0 <= j,
        unranked_scan(ps, ids, j) is None,
    ensures
        forall|k: int| j <= k < ids.len() ==> rank_in(ps, #[trigger] ids[k]) is Some,
    decreases ids.len() - j,
{
    if j < ids.len() {
        lemma_unranked_none(ps, ids, j + 1);
    }
}

/// Every signer of an accepted signer set has a rank in the roster, and its
/// point carries that rank as the derivative order.
pub proof fn lemma_points_ranked(ids: Seq<u16>, c: HierarchicalThresholdConfig)
    requires
        points_outcome(ids, c) is Ok,
    ensures
        points_outcome(ids, c)->Ok_0 == signer_points(c.participants@, ids),
        forall|k: int| 0 <= k < ids.len() ==> rank_in(c.participants@, #[trigger] ids[k]) is Some,
{
    lemma_unranked_none(c.participants@, ids, 0);
}

/// The Birkhoff points of a validated hierarchical signer set.
pub fn birkhoff_points_from_hierarchical_signer_set(
    signers: &[ParticipantId],
    config: &HierarchicalThresholdConfig,
) -> (r: Result<Vec<BirkhoffPoint>, DkgKitError>)
    ensures
        match points_outcome(signer_ids(signers@), *config) {
            Ok(p) => r matches Ok(v) && v@ == p,
            Err(e) => r matches Err(x) && x@ == e,
        },
{
    validate_hierarchical_signer_set(signers, config)?;
    let ghost ids = signer_ids(signers@);
    proof {
        lemma_unranked_none(config.participants@, ids, 0);
    }
    let mut out: Vec<BirkhoffPoint> = Vec::new();
    let mut i: usize = 0;
    while i < signers.len()
        invariant
            ids == signer_ids(signers@),
            hierarchical_signer_error(ids, *config) is None,
            forall|k: int| 0 <= k < ids.len() ==> rank_in(config.participants@, #[trigger] ids[k]) is Some,
            i <= signers@.len(),
            !ids.take(i as int).contains(0),
            out@ == signer_points(config.participants@, ids.take(i as int)),
        decreases signers@.len() - i,
    {
        let signer = signers[i];
        assert(ids[i as int] == signer.0);
        let rank = match config.rank_of(signer) {
            Some(rank) => rank,
            None => return Err(DkgKitError::MissingRankedParticipant(signer.0)),
        };
        let point = match BirkhoffPoint::new(signer, signer.0, rank.0) {
            Ok(p) => p,
            Err(e) => {
                assert(ids.contains(0));
                return Err(e);
            },
        };
        out.push(point);
        proof {
            assert(ids.take(i + 1) =~= ids.take(i as int).push(signer.0));
            assert(signer_points(config.participants@, ids.take(i + 1)) =~= signer_points(
                config.participants@,
                ids.take(i as int),
            ).push(point));
        }
        i += 1;
    }
    assert(ids.take(i as int) =~= ids);
    Ok(out)
}

} // verus!
