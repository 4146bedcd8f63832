//! Signer-set rules: plain thresholds, the hierarchical (Birkhoff) rank rule,
//! and grouped per-rank quorums.
use vstd::prelude::*;
use vstd::relations::sorted_by;
use crate::text::{decimal, push_decimal};
use crate::types::{
    rank_in, required_sum, DkgKitError, ErrorView, GroupThresholdRequirement,
    GroupedThresholdConfig, HierarchicalThresholdConfig, ParticipantId, Rank, RankedParticipant,
    SigningPolicy, ThresholdConfig,
};

verus! {

/// The plain ids of a signer list.
pub open spec fn signer_ids(s: Seq<ParticipantId>) -> Seq<u16> {
    s.map_values(|p: ParticipantId| p.0)
}

pub open spec fn msg_not_enough(have: nat, need: u16) -> Seq<char> {
    "not enough signers: have "@ + decimal(have) + ", need "@ + decimal(need as nat)
}

/// The first signer, from position `j` on, that is out of range or repeats an
/// earlier signer.
pub open spec fn signer_scan(ids: Seq<u16>, participants: u16, j: int) -> Option<ErrorView>
    decreases ids.len() - j,
{
    if j < 0 || j >= ids.len() {
        None
    } else if ids[j] > participants {
        Some(ErrorView::ParticipantOutOfRange { participant_id: ids[j], participants })
    } else if ids.take(j).contains(ids[j]) {
        Some(ErrorView::DuplicateParticipantId(ids[j]))
    } else {
        signer_scan(ids, participants, j + 1)
    }
}

/// What `validate_signer_set` reports for a signer list, if anything.
pub open spec fn signer_set_error(ids: Seq<u16>, t: ThresholdConfig) -> Option<ErrorView> {
    if ids.len() < t.threshold {
        Some(ErrorView::Protocol(msg_not_enough(ids.len(), t.threshold)))
    } else {
        signer_scan(ids, t.participants, 0)
    }
}

/// Distinct values.
pub open spec fn distinct(ids: Seq<u16>) -> bool {
    forall|a: int, b: int| 0 <= a < b < ids.len() ==> ids[a] != ids[b]
}

proof fn lemma_signer_scan(ids: Seq<u16>, participants: u16, j: int)
    requires
        0 <= j <= ids.len(),
        forall|a: int, b: int| 0 <= a < b < j ==> ids[a] != ids[b],
    ensures
        signer_scan(ids, participants, j) is None <==> (forall|k: int|
            j <= k < ids.len() ==> ids[k] <= participants) && distinct(ids),
    decreases ids.len() - j,
{
    if j < ids.len() {
        if ids[j] > participants {
        } else if ids.take(j).contains(ids[j]) {
            let a = choose|a: int| 0 <= a < j && #[trigger] ids.take(j)[a] == ids[j];
            assert(ids[a] == ids[j]);
        } else {
            assert forall|a: int, b: int| 0 <= a < b < j + 1 implies ids[a] != ids[b] by {
                if b == j {
                    assert(ids.take(j)[a] == ids[a]);
                }
            }
            lemma_signer_scan(ids, participants, j + 1);
            if !distinct(ids) {
            }
        }
    }
}


/// A list of distinct 16-bit ids has at most 65536 entries.
pub proof fn lemma_distinct_len(ids: Seq<u16>)
    requires
        distinct(ids),
    ensures
        ids.len() <= 65536,
{
    let s = ids.map_values(|x: u16| x as int);
    assert(s.no_duplicates()) by {
        assert forall|i: int, j: int| 0 <= i < s.len() && 0 <= j < s.len() && i != j implies s[i] != s[j] by {
            if i < j {
                assert(ids[i] != ids[j]);
            } else {
                assert(ids[j] != ids[i]);
            }
        }
    }
    s.unique_seq_to_set();
    vstd::set_lib::lemma_int_range(0, 65536);
    assert(s.to_set().subset_of(vstd::set_lib::set_int_range(0, 65536))) by {
        assert forall|v: int| s.to_set().contains(v) implies vstd::set_lib::set_int_range(0, 65536).contains(v) by {
            let i = choose|i: int| 0 <= i < s.len() && s[i] == v;
            assert(s[i] == ids[i] as int);
        }
    }
    vstd::set_lib::lemma_len_subset(s.to_set(), vstd::set_lib::set_int_range(0, 65536));
}

/// A signer list passes exactly when it is long enough, in range and has no repeats.
pub proof fn lemma_signer_set_accepts(ids: Seq<u16>, t: ThresholdConfig)
    ensures
        signer_set_error(ids, t) is None <==> ids.len() >= t.threshold && (forall|k: int|
            0 <= k < ids.len() ==> ids[k] <= t.participants) && distinct(ids),
{
    lemma_signer_scan(ids, t.participants, 0);
}

/// Checks a signer list against a plain threshold.
pub fn validate_signer_set(signers: &[ParticipantId], threshold: &ThresholdConfig) -> (r: Result<
    (),
    DkgKitError,
>)
    ensures
        match signer_set_error(signer_ids(signers@), *threshold) {
            Some(e) => r matches Err(x) && x@ == e,
            None => r is Ok,
        },
{
    let ghost ids = signer_ids(signers@);
    if signers.len() < threshold.threshold as usize {
        let mut text = String::from_str("not enough signers: have ");
        push_decimal(&mut text, signers.len() as u64);
        text.append(", need ");
        push_decimal(&mut text, threshold.threshold as u64);
        return Err(DkgKitError::Protocol(text));
    }
    let participants = threshold.participants;
    let mut seen: Vec<bool> = Vec::new();
    let mut v: usize = 0;
    while v <= participants as usize
        invariant
            v <= participants as usize + 1,
            seen@.len() == v,
            forall|k: int| 0 <= k < v ==> !seen@[k],
        decreases participants as usize + 1 - v,
    {
        seen.push(false);
        v += 1;
    }
    let mut i: usize = 0;
    while i < signers.len()
        invariant
            ids == signer_ids(signers@),
            i <= signers@.len(),
            seen@.len() == participants as usize + 1,
            forall|x: int|
                0 <= x <= participants ==> (seen@[x] <==> ids.take(i as int).contains(x as u16)),
            signer_scan(ids, participants, 0) == signer_scan(ids, participants, i as int),
            signers@.len() >= threshold.threshold,
            participants == threshold.participants,
        decreases signers@.len() - i,
    {
        let id = signers[i].0;
        assert(ids[i as int] == id);
        if id > participants {
            return Err(
                DkgKitError::ParticipantOutOfRange { participant_id: id, participants },
            );
        }
        if seen[id as usize] {
            return Err(DkgKitError::DuplicateParticipantId(id));
        }
        seen.set(id as usize, true);
        proof {
            assert(ids.take(i + 1) =~= ids.take(i as int).push(id));
            assert forall|x: int| 0 <= x <= participants implies (seen@[x] <==> ids.take(
                i + 1,
            ).contains(x as u16)) by {
                if ids.take(i as int).contains(x as u16) {
                    let a = choose|a: int| 0 <= a < i && #[trigger] ids.take(i as int)[a] == x as u16;
                    assert(ids.take(i + 1)[a] == x as u16);
                }
                if ids.take(i + 1).contains(x as u16) && x != id {
                    let a = choose|a: int| 0 <= a < i + 1 && #[trigger] ids.take(i + 1)[a] == x as u16;
                    assert(a < i);
                    assert(ids.take(i as int)[a] == x as u16);
                }
                if x == id {
                    assert(ids.take(i + 1)[i as int] == id);
                }
            }
        }
        i += 1;
    }
    Ok(())
}

// ---------------------------------------------------------------- hierarchical rule
/// `s` with `x` placed before its first larger-or-equal element.
pub open spec fn sorted_insert(s: Seq<u16>, x: u16) -> Seq<u16>
    decreases s.len(),
{
    if s.len() == 0 {
        seq![x]
    } else if x <= s[0] {
        seq![x] + s
    } else {
        seq![s[0]] + sorted_insert(s.drop_first(), x)
    }
}

/// `s` in ascending order.
pub open spec fn sort_ascending(s: Seq<u16>) -> Seq<u16>
    decreases s.len(),
{
    if s.len() == 0 {
        Seq::empty()
    } else {
        sorted_insert(sort_ascending(s.drop_last()), s.last())
    }
}

proof fn lemma_sorted_insert_at(s: Seq<u16>, x: u16, p: int)
    requires
        0 <= p <= s.len(),
        forall|k: int| 0 <= k < p ==> s[k] < x,
        p == s.len() || x <= s[p],
    ensures
        sorted_insert(s, x) == s.insert(p, x),
    decreases s.len(),
{
    if s.len() > 0 && p > 0 {
        lemma_sorted_insert_at(s.drop_first(), x, p - 1);
        assert(seq![s[0]] + s.drop_first().insert(p - 1, x) =~= s.insert(p, x));
    } else if s.len() > 0 {
        assert(seq![x] + s =~= s.insert(0, x));
    } else {
        assert(seq![x] =~= s.insert(0, x));
    }
}

/// `a <= b` on ranks.
pub open spec fn rank_le() -> spec_fn(u16, u16) -> bool {
    |a: u16, b: u16| a <= b
}

proof fn lemma_sorted_insert_sorts(s: Seq<u16>, x: u16)
    requires
        sorted_by(s, rank_le()),
    ensures
        sorted_by(sorted_insert(s, x), rank_le()),
        sorted_insert(s, x).to_multiset() == s.to_multiset().insert(x),
    decreases s.len(),
{
    broadcast use vstd::seq_lib::group_to_multiset_ensures;
    broadcast use vstd::multiset::group_multiset_axioms;

    if s.len() == 0 {
        assert(s =~= Seq::<u16>::empty());
        assert(seq![x] =~= s.insert(0, x));
    } else if x <= s[0] {
        assert(seq![x] + s =~= s.insert(0, x));
        let r = seq![x] + s;
        assert forall|i: int, j: int| 0 <= i < j < r.len() implies #[trigger] rank_le()(r[i], r[j]) by {
            if i == 0 {
                if j > 1 {
                    assert(rank_le()(s[0], s[j - 1]));
                }
            } else {
                assert(rank_le()(s[i - 1], s[j - 1]));
            }
        }
    } else {
        let d = s.drop_first();
        assert forall|i: int, j: int| 0 <= i < j < d.len() implies #[trigger] rank_le()(d[i], d[j]) by {
            assert(rank_le()(s[i + 1], s[j + 1]));
        }
        lemma_sorted_insert_sorts(d, x);
        let t = sorted_insert(d, x);
        let r = seq![s[0]] + t;
        assert(r =~= t.insert(0, s[0]));
        assert(s =~= d.insert(0, s[0]));
        assert forall|k: int| 0 <= k < t.len() implies s[0] <= #[trigger] t[k] by {
            let v = t[k];
            assert(t.contains(v));
            assert(t.to_multiset().count(v) > 0);
            if v != x {
                assert(d.to_multiset().count(v) > 0);
                assert(d.contains(v));
                let i = choose|i: int| 0 <= i < d.len() && d[i] == v;
                assert(rank_le()(s[0], s[i + 1]));
            }
        }
        assert forall|i: int, j: int| 0 <= i < j < r.len() implies #[trigger] rank_le()(r[i], r[j]) by {
            if i == 0 {
                assert(s[0] <= t[j - 1]);
            } else {
                assert(rank_le()(t[i - 1], t[j - 1]));
            }
        }
        assert(r.to_multiset() == t.to_multiset().insert(s[0]));
        assert(s.to_multiset() == d.to_multiset().insert(s[0]));
        assert(r.to_multiset() =~= s.to_multiset().insert(x));
    }
}

/// Sorting yields an ascending sequence with the same elements.
pub proof fn lemma_sort_ascending_sorts(s: Seq<u16>)
    ensures
        sorted_by(sort_ascending(s), rank_le()),
        sort_ascending(s).to_multiset() == s.to_multiset(),
    decreases s.len(),
{
    broadcast use vstd::seq_lib::group_to_multiset_ensures;

    if s.len() == 0 {
        assert(s =~= Seq::<u16>::empty());
    } else {
        lemma_sort_ascending_sorts(s.drop_last());
        lemma_sorted_insert_sorts(sort_ascending(s.drop_last()), s.last());
        assert(s.drop_last().push(s.last()) =~= s);
    }
}

/// Two sequences with the same elements sort to the same sequence.
pub proof fn lemma_sort_ascending_same(s: Seq<u16>, t: Seq<u16>)
    requires
        s.to_multiset() == t.to_multiset(),
    ensures
        sort_ascending(s) == sort_ascending(t),
{
    lemma_sort_ascending_sorts(s);
    lemma_sort_ascending_sorts(t);
    vstd::seq_lib::lemma_sorted_unique(sort_ascending(s), sort_ascending(t), rank_le());
}

proof fn lemma_distinct_counts(s: Seq<u16>)
    ensures
        distinct(s) <==> forall|v: u16| #[trigger] s.to_multiset().count(v) <= 1,
    decreases s.len(),
{
    broadcast use vstd::seq_lib::group_to_multiset_ensures;
    broadcast use vstd::multiset::group_multiset_axioms;

    if s.len() == 0 {
        assert(s =~= Seq::<u16>::empty());
    } else {
        let d = s.drop_last();
        let a = s.last();
        let n = s.len() - 1;
        lemma_distinct_counts(d);
        assert(d.push(a) =~= s);
        if distinct(s) {
            assert(distinct(d)) by {
                assert forall|x: int, y: int| 0 <= x < y < d.len() implies d[x] != d[y] by {
                    assert(s[x] != s[y]);
                }
            }
            assert(!d.contains(a)) by {
                if d.contains(a) {
                    let i = choose|i: int| 0 <= i < d.len() && d[i] == a;
                    assert(s[i] == s[n]);
                }
            }
            assert(d.to_multiset().count(a) == 0);
            assert forall|v: u16| #[trigger] s.to_multiset().count(v) <= 1 by {
                assert(d.to_multiset().count(v) <= 1);
            }
        } else {
            let (x, y) = choose|x: int, y: int| 0 <= x < y < s.len() && s[x] == s[y];
            if y < n {
                assert(!distinct(d)) by {
                    assert(d[x] == d[y]);
                }
                let v = choose|v: u16| !(#[trigger] d.to_multiset().count(v) <= 1);
                assert(s.to_multiset().count(v) >= d.to_multiset().count(v));
            } else {
                assert(d[x] == a);
                assert(d.contains(a));
                assert(d.to_multiset().count(a) > 0);
                assert(s.to_multiset().count(a) > 1);
            }
        }
    }
}

proof fn lemma_map_same_elements(s: Seq<u16>, t: Seq<u16>, f: spec_fn(u16) -> u16)
    requires
        s.to_multiset() == t.to_multiset(),
    ensures
        s.map_values(f).to_multiset() == t.map_values(f).to_multiset(),
    decreases s.len(),
{
    broadcast use vstd::seq_lib::group_to_multiset_ensures;
    broadcast use vstd::multiset::group_multiset_axioms;

    if s.len() == 0 {
        vstd::seq_lib::to_multiset_len(s);
        vstd::seq_lib::to_multiset_len(t);
        assert(t.len() == 0);
        assert(s.map_values(f) =~= Seq::<u16>::empty());
        assert(t.map_values(f) =~= Seq::<u16>::empty());
    } else {
        let a = s.last();
        let d = s.drop_last();
        assert(d.push(a) =~= s);
        assert(s.to_multiset().count(a) > 0);
        assert(t.to_multiset().count(a) > 0);
        assert(t.contains(a));
        let i = choose|i: int| 0 <= i < t.len() && t[i] == a;
        let t2 = t.remove(i);
        assert(t2.to_multiset() == t.to_multiset().remove(a));
        assert(d.to_multiset() =~= s.to_multiset().remove(a));
        lemma_map_same_elements(d, t2, f);
        assert(s.map_values(f) =~= d.map_values(f).push(f(a)));
        assert(t.map_values(f) =~= t2.map_values(f).insert(i, f(a)));
    }
}

proof fn lemma_unranked_scan_all(ps: Seq<RankedParticipant>, ids: Seq<u16>, j: int)
    requires
        0 <= j,
    ensures
        unranked_scan(ps, ids, j) is None <==> forall|k: int| j <= k < ids.len() ==> rank_in(ps, #[trigger] ids[k]) is Some,
    decreases ids.len() - j,
{
    if j < ids.len() {
        lemma_unranked_scan_all(ps, ids, j + 1);
    }
}

/// Whether a hierarchical signer set is accepted does not depend on the
/// order in which its signers are listed.
pub proof fn lemma_hierarchical_signers_order_free(ids: Seq<u16>, reordered: Seq<u16>, c: HierarchicalThresholdConfig)
    requires
        ids.to_multiset() == reordered.to_multiset(),
    ensures
        (hierarchical_signer_error(ids, c) is None) == (hierarchical_signer_error(reordered, c) is None),
{
    broadcast use vstd::seq_lib::group_to_multiset_ensures;

    let ps = c.participants@;
    vstd::seq_lib::to_multiset_len(ids);
    vstd::seq_lib::to_multiset_len(reordered);
    assert(ids.len() == reordered.len());
    assert forall|v: u16| ids.contains(v) <==> reordered.contains(v) by {
        vstd::seq_lib::to_multiset_contains(ids, v);
        vstd::seq_lib::to_multiset_contains(reordered, v);
    }
    lemma_distinct_counts(ids);
    lemma_distinct_counts(reordered);
    lemma_unranked_scan_all(ps, ids, 0);
    lemma_unranked_scan_all(ps, reordered, 0);
    if let Ok(t) = ThresholdConfig::new_spec(c.threshold, ps.len() as u16) {
        lemma_signer_scan(ids, t.participants, 0);
        lemma_signer_scan(reordered, t.participants, 0);
        assert((forall|k: int| 0 <= k < ids.len() ==> ids[k] <= t.participants) <==> (forall|k: int|
            0 <= k < reordered.len() ==> reordered[k] <= t.participants)) by {
            if forall|k: int| 0 <= k < ids.len() ==> ids[k] <= t.participants {
                assert forall|k: int| 0 <= k < reordered.len() implies reordered[k] <= t.participants by {
                    assert(reordered.contains(reordered[k]));
                    let i = choose|i: int| 0 <= i < ids.len() && ids[i] == reordered[k];
                }
            }
            if forall|k: int| 0 <= k < reordered.len() ==> reordered[k] <= t.participants {
                assert forall|k: int| 0 <= k < ids.len() implies ids[k] <= t.participants by {
                    assert(ids.contains(ids[k]));
                    let i = choose|i: int| 0 <= i < reordered.len() && reordered[i] == ids[k];
                }
            }
        }
        assert((forall|k: int| 0 <= k < ids.len() ==> rank_in(ps, #[trigger] ids[k]) is Some) <==> (forall|k: int|
            0 <= k < reordered.len() ==> rank_in(ps, #[trigger] reordered[k]) is Some)) by {
            if forall|k: int| 0 <= k < ids.len() ==> rank_in(ps, #[trigger] ids[k]) is Some {
                assert forall|k: int| 0 <= k < reordered.len() implies rank_in(ps, #[trigger] reordered[k]) is Some by {
                    assert(reordered.contains(reordered[k]));
                    let i = choose|i: int| 0 <= i < ids.len() && ids[i] == reordered[k];
                    assert(rank_in(ps, ids[i]) is Some);
                }
            }
            if forall|k: int| 0 <= k < reordered.len() ==> rank_in(ps, #[trigger] reordered[k]) is Some {
                assert forall|k: int| 0 <= k < ids.len() implies rank_in(ps, #[trigger] ids[k]) is Some by {
                    assert(ids.contains(ids[k]));
                    let i = choose|i: int| 0 <= i < reordered.len() && reordered[i] == ids[k];
                    assert(rank_in(ps, reordered[i]) is Some);
                }
            }
        }
        let f = |id: u16| rank_in(ps, id).unwrap().0;
        lemma_map_same_elements(ids, reordered, f);
        assert(signer_ranks(ps, ids) =~= ids.map_values(f));
        assert(signer_ranks(ps, reordered) =~= reordered.map_values(f));
        lemma_sort_ascending_same(signer_ranks(ps, ids), signer_ranks(ps, reordered));
    }
}

fn insert_sorted(v: &mut Vec<u16>, x: u16)
    ensures
        final(v)@ == sorted_insert(old(v)@, x),
{
    let mut p: usize = 0;
    while p < v.len() && v[p] < x
        invariant
            p <= v@.len(),
            forall|k: int| 0 <= k < p ==> v@[k] < x,
        decreases v@.len() - p,
    {
        p += 1;
    }
    proof {
        lemma_sorted_insert_at(v@, x, p as int);
    }
    v.insert(p, x);
}

fn sort_values(s: &Vec<u16>) -> (r: Vec<u16>)
    ensures
        r@ == sort_ascending(s@),
{
    let mut out: Vec<u16> = Vec::new();
    let mut i: usize = 0;
    while i < s.len()
        invariant
            i <= s@.len(),
            out@ == sort_ascending(s@.take(i as int)),
        decreases s@.len() - i,
    {
        assert(s@.take(i + 1).drop_last() =~= s@.take(i as int));
        insert_sorted(&mut out, s[i]);
        i += 1;
    }
    assert(s@.take(s@.len() as int) =~= s@);
    out
}

pub open spec fn msg_rank_rule(position: nat, rank: u16) -> Seq<char> {
    "hierarchical signer set violates Birkhoff rank rule at position "@ + decimal(position)
        + ": rank "@ + decimal(rank as nat) + " > "@ + decimal(position)
}

/// The first position `i < threshold` (from `i` on) whose sorted rank exceeds `i`.
pub open spec fn rank_rule_scan(sorted: Seq<u16>, threshold: u16, i: int) -> Option<ErrorView>
    decreases sorted.len() - i,
{
    if i < 0 || i >= threshold || i >= sorted.len() {
        None
    } else if sorted[i] > i {
        Some(ErrorView::Protocol(msg_rank_rule(i as nat, sorted[i])))
    } else {
        rank_rule_scan(sorted, threshold, i + 1)
    }
}

/// The first signer, from position `j` on, that has no rank in the roster.
pub open spec fn unranked_scan(ps: Seq<RankedParticipant>, ids: Seq<u16>, j: int) -> Option<u16>
    decreases ids.len() - j,
{
    if j < 0 || j >= ids.len() {
        None
    } else if rank_in(ps, ids[j]) is None {
        Some(ids[j])
    } else {
        unranked_scan(ps, ids, j + 1)
    }
}

/// The ranks of signers that all have one, in signer order.
pub open spec fn signer_ranks(ps: Seq<RankedParticipant>, ids: Seq<u16>) -> Seq<u16> {
    ids.map_values(|id: u16| rank_in(ps, id).unwrap().0)
}

/// What `validate_hierarchical_signer_set` reports, if anything.
pub open spec fn hierarchical_signer_error(ids: Seq<u16>, c: HierarchicalThresholdConfig) -> Option<
    ErrorView,
> {
    match ThresholdConfig::new_spec(c.threshold, c.participants@.len() as u16) {
        Err(e) => Some(e@),
        Ok(t) => match signer_set_error(ids, t) {
            Some(e) => Some(e),
            None => match unranked_scan(c.participants@, ids, 0) {
                Some(id) => Some(ErrorView::MissingRankedParticipant(id)),
                None => rank_rule_scan(
                    sort_ascending(signer_ranks(c.participants@, ids)),
                    c.threshold,
                    0,
                ),
            },
        },
    }
}

/// The Birkhoff rank rule: below the threshold, the `i`-th smallest signer
/// rank is at most `i`.
pub open spec fn rank_rule_holds(ids: Seq<u16>, c: HierarchicalThresholdConfig) -> bool {
    let sorted = sort_ascending(signer_ranks(c.participants@, ids));
    forall|i: int| 0 <= i < c.threshold && i < ids.len() ==> #[trigger] sorted[i] <= i
}

proof fn lemma_rank_rule_scan_from(sorted: Seq<u16>, threshold: u16, i: int)
    requires
        0 <= i,
    ensures
        rank_rule_scan(sorted, threshold, i) is None <==> forall|k: int| i <= k < threshold && k < sorted.len()
            ==> #[trigger] sorted[k] <= k,
    decreases sorted.len() - i,
{
    if i < threshold && i < sorted.len() {
        lemma_rank_rule_scan_from(sorted, threshold, i + 1);
    }
}

/// A signer set that passes the threshold, membership and rank-lookup
/// checks is accepted exactly when it meets the rank rule.
pub proof fn lemma_rank_rule_decides(ids: Seq<u16>, c: HierarchicalThresholdConfig)
    requires
        ThresholdConfig::new_spec(c.threshold, c.participants@.len() as u16) is Ok,
        signer_set_error(ids, ThresholdConfig::new_spec(c.threshold, c.participants@.len() as u16)->Ok_0) is None,
        unranked_scan(c.participants@, ids, 0) is None,
    ensures
        hierarchical_signer_error(ids, c) is None <==> rank_rule_holds(ids, c),
{
    let ranks = signer_ranks(c.participants@, ids);
    lemma_sort_ascending_sorts(ranks);
    assert(sort_ascending(ranks).len() == ranks.len()) by {
        broadcast use vstd::seq_lib::group_to_multiset_ensures;
        assert(sort_ascending(ranks).to_multiset().len() == ranks.to_multiset().len());
    }
    lemma_rank_rule_scan_from(sort_ascending(ranks), c.threshold, 0);
}

/// An accepted hierarchical signer set meets the rank rule at every position
/// below the threshold: ordering the signer ranks ascending (the signers'
/// ranks rearranged), the `i`-th is at most `i`.
pub proof fn lemma_hierarchical_rank_rule(ids: Seq<u16>, c: HierarchicalThresholdConfig)
    requires
        hierarchical_signer_error(ids, c) is None,
    ensures
        rank_rule_holds(ids, c),
        sorted_by(sort_ascending(signer_ranks(c.participants@, ids)), rank_le()),
        sort_ascending(signer_ranks(c.participants@, ids)).to_multiset() == signer_ranks(c.participants@, ids).to_multiset(),
{
    let ranks = signer_ranks(c.participants@, ids);
    lemma_sort_ascending_sorts(ranks);
    assert(sort_ascending(ranks).len() == ranks.len()) by {
        broadcast use vstd::seq_lib::group_to_multiset_ensures;
        assert(sort_ascending(ranks).to_multiset().len() == ranks.to_multiset().len());
    }
    lemma_rank_rule_scan_from(sort_ascending(ranks), c.threshold, 0);
}

/// Looks up the rank of every signer, stopping at the first one without a rank.
fn collect_ranks(ps: &Vec<RankedParticipant>, signers: &[ParticipantId], c: &HierarchicalThresholdConfig) -> (r: Result<
    Vec<u16>,
    DkgKitError,
>)
    requires
        ps@ == c.participants@,
    ensures
        match unranked_scan(ps@, signer_ids(signers@), 0) {
            Some(id) => r matches Err(x) && x@ == ErrorView::MissingRankedParticipant(id),
            None => r matches Ok(v) && v@ == signer_ranks(ps@, signer_ids(signers@)),
        },
{
    let ghost ids = signer_ids(signers@);
    let mut out: Vec<u16> = Vec::new();
    let mut i: usize = 0;
    while i < signers.len()
        invariant
            ids == signer_ids(signers@),
            ps@ == c.participants@,
            i <= signers@.len(),
            unranked_scan(ps@, ids, 0) == unranked_scan(ps@, ids, i as int),
            out@ == signer_ranks(ps@, ids.take(i as int)),
            forall|k: int| 0 <= k < i ==> rank_in(ps@, #[trigger] ids[k]) is Some,
        decreases signers@.len() - i,
    {
        assert(ids[i as int] == signers@[i as int].0);
        match c.rank_of(signers[i]) {
            None => {
                return Err(DkgKitError::MissingRankedParticipant(signers[i].0));
            },
            Some(rank) => {
                out.push(rank.0);
                assert(signer_ranks(ps@, ids.take(i + 1)) =~= signer_ranks(ps@, ids.take(i as int)).push(rank.0));
            },
        }
        i += 1;
    }
    assert(ids.take(i as int) =~= ids);
    Ok(out)
}

/// Checks a signer list against a hierarchical configuration: the plain
/// threshold rules, then that every signer is ranked, then the Birkhoff rank
/// rule (the `i`-th smallest rank among the first `threshold` is at most `i`).
pub fn validate_hierarchical_signer_set(
    signers: &[ParticipantId],
    config: &HierarchicalThresholdConfig,
) -> (r: Result<(), DkgKitError>)
    ensures
        match hierarchical_signer_error(signer_ids(signers@), *config) {
            Some(e) => r matches Err(x) && x@ == e,
            None => r is Ok,
        },
        r is Ok ==> rank_rule_holds(signer_ids(signers@), *config),
{
    proof {
        if hierarchical_signer_error(signer_ids(signers@), *config) is None {
            lemma_hierarchical_rank_rule(signer_ids(signers@), *config);
        }
    }
    let t = config.threshold_config()?;
    validate_signer_set(signers, &t)?;
    let ranks = collect_ranks(&config.participants, signers, config)?;
    let sorted = sort_values(&ranks);
    let limit = config.threshold;
    assert(hierarchical_signer_error(signer_ids(signers@), *config) == rank_rule_scan(sorted@, limit, 0));
    let mut i: usize = 0;
    while i < sorted.len() && i < limit as usize
        invariant
            i <= sorted@.len(),
            hierarchical_signer_error(signer_ids(signers@), *config) == rank_rule_scan(sorted@, limit, 0),
            rank_rule_scan(sorted@, limit, 0) == rank_rule_scan(sorted@, limit, i as int),
        decreases sorted@.len() - i,
    {
        let rank = sorted[i];
        if rank as usize > i {
            let mut text = String::from_str(
                "hierarchical signer set violates Birkhoff rank rule at position ",
            );
            push_decimal(&mut text, i as u64);
            text.append(": rank ");
            push_decimal(&mut text, rank as u64);
            text.append(" > ");
            push_decimal(&mut text, i as u64);
            return Err(DkgKitError::Protocol(text));
        }
        i += 1;
    }
    Ok(())
}

// ---------------------------------------------------------------- grouped rule
/// How many of the signers sit at rank `r`.
pub open spec fn selected_at(ranks: Seq<u16>, r: u16) -> nat
    decreases ranks.len(),
{
    if ranks.len() == 0 {
        0
    } else {
        selected_at(ranks.drop_last(), r) + if ranks.last() == r {
            1nat
        } else {
            0nat
        }
    }
}

pub open spec fn msg_group_short(rank: u16, required: u16, got: nat) -> Seq<char> {
    "grouped threshold rank "@ + decimal(rank as nat) + " needs "@ + decimal(required as nat)
        + " signer(s), got "@ + decimal(got)
}

/// The first requirement, from `i` on, that the signers' ranks fall short of.
pub open spec fn quorum_scan(ranks: Seq<u16>, reqs: Seq<GroupThresholdRequirement>, i: int) -> Option<
    ErrorView,
>
    decreases reqs.len() - i,
{
    if i < 0 || i >= reqs.len() {
        None
    } else if selected_at(ranks, reqs[i].rank.0) < reqs[i].required {
        Some(
            ErrorView::Protocol(
                msg_group_short(
                    reqs[i].rank.0,
                    reqs[i].required,
                    selected_at(ranks, reqs[i].rank.0),
                ),
            ),
        )
    } else {
        quorum_scan(ranks, reqs, i + 1)
    }
}

/// What `validate_grouped_threshold_signer_set` reports, if anything.
pub open spec fn grouped_signer_error(ids: Seq<u16>, c: GroupedThresholdConfig) -> Option<ErrorView> {
    match ThresholdConfig::new_spec(
        required_sum(c.requirements@) as u16,
        c.participants@.len() as u16,
    ) {
        Err(e) => Some(e@),
        Ok(t) => match signer_set_error(ids, t) {
            Some(e) => Some(e),
            None => match unranked_scan(c.participants@, ids, 0) {
                Some(id) => Some(ErrorView::MissingRankedParticipant(id)),
                None => quorum_scan(signer_ranks(c.participants@, ids), c.requirements@, 0),
            },
        },
    }
}

proof fn lemma_quorum_scan_all(ranks: Seq<u16>, reqs: Seq<GroupThresholdRequirement>, i: int)
    requires
        0 <= i,
    ensures
        quorum_scan(ranks, reqs, i) is None <==> forall|j: int|
            i <= j < reqs.len() ==> selected_at(ranks, (#[trigger] reqs[j]).rank.0) >= reqs[j].required,
    decreases reqs.len() - i,
{
    if i < reqs.len() {
        lemma_quorum_scan_all(ranks, reqs, i + 1);
    }
}

/// The signer sets that `validate_grouped_threshold_signer_set` accepts, stated
/// at once: the quorum sizes make a valid threshold over the roster, there
/// are at least that many signers, all distinct roster members with a rank,
/// and each rank has at least its required number of signers.
pub open spec fn grouped_signers_accepted(ids: Seq<u16>, c: GroupedThresholdConfig) -> bool {
    let ps = c.participants@;
    let reqs = c.requirements@;
    &&& ThresholdConfig::new_spec(required_sum(reqs) as u16, ps.len() as u16) is Ok
    &&& ids.len() >= required_sum(reqs) as u16
    &&& distinct(ids)
    &&& forall|k: int| 0 <= k < ids.len() ==> #[trigger] ids[k] <= ps.len() as u16
    &&& forall|k: int| 0 <= k < ids.len() ==> rank_in(ps, #[trigger] ids[k]) is Some
    &&& forall|j: int|
        0 <= j < reqs.len() ==> selected_at(signer_ranks(ps, ids), (#[trigger] reqs[j]).rank.0) >= reqs[j].required
}

/// `validate_grouped_threshold_signer_set` accepts exactly the signer sets of
/// `grouped_signers_accepted`: per rank, enough signers of that rank.
pub proof fn lemma_grouped_signers_closed_form(ids: Seq<u16>, c: GroupedThresholdConfig)
    ensures
        grouped_signer_error(ids, c) is None <==> grouped_signers_accepted(ids, c),
{
    let ps = c.participants@;
    let reqs = c.requirements@;
    lemma_unranked_scan_all(ps, ids, 0);
    lemma_quorum_scan_all(signer_ranks(ps, ids), reqs, 0);
    if let Ok(t) = ThresholdConfig::new_spec(required_sum(reqs) as u16, ps.len() as u16) {
        lemma_signer_scan(ids, t.participants, 0);
    }
}

fn count_rank(ranks: &Vec<u16>, r: u16) -> (n: usize)
    ensures
        n == selected_at(ranks@, r),
{
    let mut n: usize = 0;
    let mut i: usize = 0;
    while i < ranks.len()
        invariant
            i <= ranks@.len(),
            n == selected_at(ranks@.take(i as int), r),
            n <= i,
        decreases ranks@.len() - i,
    {
        assert(ranks@.take(i + 1).drop_last() =~= ranks@.take(i as int));
        if ranks[i] == r {
            n += 1;
        }
        i += 1;
    }
    assert(ranks@.take(ranks@.len() as int) =~= ranks@);
    n
}

fn ranks_of_grouped(signers: &[ParticipantId], config: &GroupedThresholdConfig) -> (r: Result<
    Vec<u16>,
    DkgKitError,
>)
    ensures
        match unranked_scan(config.participants@, signer_ids(signers@), 0) {
            Some(id) => r matches Err(x) && x@ == ErrorView::MissingRankedParticipant(id),
            None => r matches Ok(v) && v@ == signer_ranks(config.participants@, signer_ids(signers@)),
        },
{
    let ghost ps = config.participants@;
    let ghost ids = signer_ids(signers@);
    let mut out: Vec<u16> = Vec::new();
    let mut i: usize = 0;
    while i < signers.len()
        invariant
            ids == signer_ids(signers@),
            ps == config.participants@,
            i <= signers@.len(),
            unranked_scan(ps, ids, 0) == unranked_scan(ps, ids, i as int),
            out@ == signer_ranks(ps, ids.take(i as int)),
        decreases signers@.len() - i,
    {
        assert(ids[i as int] == signers@[i as int].0);
        match config.rank_of(signers[i]) {
            None => {
                return Err(DkgKitError::MissingRankedParticipant(signers[i].0));
            },
            Some(rank) => {
                out.push(rank.0);
                assert(signer_ranks(ps, ids.take(i + 1)) =~= signer_ranks(ps, ids.take(i as int)).push(rank.0));
            },
        }
        i += 1;
    }
    assert(ids.take(i as int) =~= ids);
    Ok(out)
}

/// Checks a signer list against grouped per-rank quorums: the plain threshold
/// rules over the total quorum, then that every signer is ranked, then that each
/// rank contributes at least its required number of signers.
pub fn validate_grouped_threshold_signer_set(
    signers: &[ParticipantId],
    config: &GroupedThresholdConfig,
) -> (r: Result<(), DkgKitError>)
    requires
        required_sum(config.requirements@) <= u16::MAX,
    ensures
        match grouped_signer_error(signer_ids(signers@), *config) {
            Some(e) => r matches Err(x) && x@ == e,
            None => r is Ok,
        },
{
    let t = config.threshold_config()?;
    validate_signer_set(signers, &t)?;
    let ranks = ranks_of_grouped(signers, config)?;
    let ghost reqs = config.requirements@;
    assert(grouped_signer_error(signer_ids(signers@), *config) == quorum_scan(ranks@, reqs, 0));
    let mut i: usize = 0;
    while i < config.requirements.len()
        invariant
            reqs == config.requirements@,
            grouped_signer_error(signer_ids(signers@), *config) == quorum_scan(ranks@, reqs, 0),
            i <= reqs.len(),
            quorum_scan(ranks@, reqs, 0) == quorum_scan(ranks@, reqs, i as int),
        decreases reqs.len() - i,
    {
        let q = config.requirements[i];
        let selected = count_rank(&ranks, q.rank.0);
        if selected < q.required as usize {
            let mut text = String::from_str("grouped threshold rank ");
            push_decimal(&mut text, q.rank.0 as u64);
            text.append(" needs ");
            push_decimal(&mut text, q.required as u64);
            text.append(" signer(s), got ");
            push_decimal(&mut text, selected as u64);
            return Err(DkgKitError::Protocol(text));
        }
        i += 1;
    }
    Ok(())
}

/// What a policy requires of a configuration so that it can be checked.
pub open spec fn policy_checkable(policy: SigningPolicy) -> bool {
    policy matches SigningPolicy::Grouped(c) ==> required_sum(c.requirements@) <= u16::MAX
}

/// What `validate_signer_set_with_policy` reports, if anything.
pub open spec fn policy_signer_error(ids: Seq<u16>, policy: SigningPolicy) -> Option<ErrorView> {
    match policy {
        SigningPolicy::Threshold(t) => signer_set_error(ids, t),
        SigningPolicy::Hierarchical(c) => hierarchical_signer_error(ids, c),
        SigningPolicy::Grouped(c) => grouped_signer_error(ids, c),
    }
}

/// Checks a signer list against whichever rule the policy names.
pub fn validate_signer_set_with_policy(signers: &[ParticipantId], policy: &SigningPolicy) -> (r:
    Result<(), DkgKitError>)
    requires
        policy_checkable(*policy),
    ensures
        match policy_signer_error(signer_ids(signers@), *policy) {
            Some(e) => r matches Err(x) && x@ == e,
            None => r is Ok,
        },
{
    match policy {
        SigningPolicy::Threshold(threshold) => validate_signer_set(signers, threshold),
        SigningPolicy::Hierarchical(config) => validate_hierarchical_signer_set(signers, config),
        SigningPolicy::Grouped(config) => validate_grouped_threshold_signer_set(signers, config),
    }
}

} // verus!
