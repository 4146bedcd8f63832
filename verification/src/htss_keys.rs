//! HTSS keys from one local dealer, reconstruction of the secret from a
//! valid signer set, and signing with the reconstructed secret.
use vstd::prelude::*;
use crate::birkhoff::{
    birkhoff_interpolation_coefficients, birkhoff_points_from_hierarchical_signer_set,
    coefficient_points_match, coefficient_values, coefficients_solve, lemma_birkhoff_reconstructs,
    lemma_sum_ext, points_outcome, sum_to, weighted_reconstruction, BirkhoffCoefficient,
    BirkhoffPoint,
};
use crate::curve::{bip340_signature, bip340_verifies, even_y_keypair, keypair_xonly, random_nonzero_scalar, schnorr_sign, xonly_of_secret};
use crate::linear::{modn, msg_singular};
use crate::requests::{bytes32_eq, AggregateSignature, GroupKey, HtssLocalKeySet, HtssLocalKeyShare};
use crate::scalar::{
    all_scalars, be_value, derivative_sum, derivative_value, group_order, is_scalar,
    polynomial_derivative_value, scalar_add, scalar_from_bytes, scalar_is_zero, scalar_mul,
    scalar_values, scalar_zero, sv, basis_value,
};
use crate::signers::{lemma_distinct_len, lemma_signer_set_accepts, signer_ids};
use crate::text::{decimal, push_decimal};
use crate::types::{DkgKitError, ErrorView, HierarchicalThresholdConfig, ParticipantId, ThresholdConfig};

verus! {

/// The shares of a polynomial: each share is the derivative of order `rank`
/// of the polynomial with coefficients `a`, at the participant's id.
pub open spec fn shares_follow(shares: Seq<HtssLocalKeyShare>, a: Seq<nat>) -> bool {
    forall|k: int| 0 <= k < shares.len() ==> sv(#[trigger] shares[k].share_value_bytes)
        == derivative_value(a, shares[k].rank as nat, shares[k].participant_id.0 as nat)
}

/// Deals HTSS shares from one in-process dealer: a random polynomial whose
/// constant term is the (even-Y) group secret, and one derivative share per
/// roster entry. The dealer sees every share: this is for tests and demos.
pub fn run_local_htss_keygen(config: &HierarchicalThresholdConfig) -> (r: Result<HtssLocalKeySet, DkgKitError>)
    ensures
        r matches Ok(set) && set.group_key.verification_key_bytes@.len() == 0
            && set.shares@.len() == config.participants@.len()
            && (forall|j: int| 0 <= j < set.shares@.len() ==> (#[trigger] set.shares@[j]).participant_id
                == config.participants@[j].id && set.shares@[j].rank == config.participants@[j].rank.0
                && is_scalar(set.shares@[j].share_value_bytes))
            && exists|a: Seq<nat>| #![trigger shares_follow(set.shares@, a)] {
                &&& a.len() == (if config.threshold == 0 { 1 } else { config.threshold as int })
                &&& a[0] != 0
                &&& a[0] < group_order()
                &&& xonly_of_secret(crate::scalar::be_bytes(a[0], 32)) == set.group_key.xonly_public_key@
                &&& crate::curve::key_point(a[0] as int, set.group_key.xonly_public_key@)
                &&& shares_follow(set.shares@, a)
            },
        r matches Ok(set) ==> forall|m: nat| m >= config.threshold && m >= 1 ==> #[trigger] crate::htss_sign::shares_of_group_key(
            set.shares@,
            m,
            set.group_key.xonly_public_key@,
        ),
{
    let initial = random_nonzero_scalar();
    let (secret, xonly) = even_y_keypair(initial);
    let mut polynomial: Vec<[u8; 32]> = Vec::new();
    polynomial.push(secret);
    let mut i: u16 = 1;
    while i < config.threshold
        invariant
            1 <= i,
            i <= config.threshold || (config.threshold == 0 && i == 1),
            polynomial@.len() == i,
            all_scalars(polynomial@),
            polynomial@[0] == secret,
            polynomial@.len() == (if config.threshold == 0 { 1 } else { i as int }),
        decreases config.threshold - i,
    {
        polynomial.push(random_nonzero_scalar());
        i += 1;
    }
    let ghost a = scalar_values(polynomial@);
    let mut shares: Vec<HtssLocalKeyShare> = Vec::new();
    let mut j: usize = 0;
    while j < config.participants.len()
        invariant
            a == scalar_values(polynomial@),
            all_scalars(polynomial@),
            polynomial@.len() <= 65536,
            polynomial@.len() == (if config.threshold == 0 { 1 } else { config.threshold as int }),
            polynomial@[0] == secret,
            j <= config.participants@.len(),
            shares@.len() == j,
            forall|k: int| 0 <= k < j ==> (#[trigger] shares@[k]).participant_id == config.participants@[k].id
                && shares@[k].rank == config.participants@[k].rank.0 && is_scalar(shares@[k].share_value_bytes)
                && sv(shares@[k].share_value_bytes) == derivative_value(a, shares@[k].rank as nat, shares@[k].participant_id.0 as nat),
        decreases config.participants@.len() - j,
    {
        let participant = &config.participants[j];
        let value = polynomial_derivative_value(&polynomial, participant.id.0, participant.rank.0);
        shares.push(HtssLocalKeyShare { participant_id: participant.id, rank: participant.rank.0, share_value_bytes: value });
        j += 1;
    }
    proof {
        crate::scalar::lemma_scalar_bytes(secret);
        assert(a[0] == sv(secret));
        assert(shares_follow(shares@, a));
        assert(xonly_of_secret(crate::scalar::be_bytes(a[0], 32)) == xonly@);
        assert(a.len() == (if config.threshold == 0 { 1 } else { config.threshold as int }));
        assert(a[0] != 0);
        assert(a[0] < group_order());
        crate::curve::lemma_gmul_scalar(secret);
        vstd::arithmetic::div_mod::lemma_small_mod(a[0], group_order());
        assert(crate::curve::key_point(a[0] as int, xonly@));
    }
    let result = HtssLocalKeySet { group_key: GroupKey { xonly_public_key: xonly, verification_key_bytes: Vec::new() }, shares };
    assert(result.group_key.verification_key_bytes@.len() == 0);
    assert(shares_follow(result.shares@, a));
    assert(crate::curve::key_point(a[0] as int, result.group_key.xonly_public_key@));
    assert forall|m: nat| m >= config.threshold && m >= 1 implies #[trigger] crate::htss_sign::shares_of_group_key(
        result.shares@,
        m,
        result.group_key.xonly_public_key@,
    ) by {
        assert(shares_follow(result.shares@, a));
    }
    Ok(result)
}

// ---------------------------------------------------------------- reconstruction
/// The share a lookup by id finds: the last one carrying that id.
pub open spec fn share_for(shares: Seq<HtssLocalKeyShare>, id: u16) -> Option<HtssLocalKeyShare>
    decreases shares.len(),
{
    if shares.len() == 0 {
        None
    } else if shares.last().participant_id.0 == id {
        Some(shares.last())
    } else {
        share_for(shares.drop_last(), id)
    }
}

/// What is wrong with the share for coefficient `c`, if anything.
pub open spec fn share_error(shares: Seq<HtssLocalKeyShare>, c: BirkhoffCoefficient) -> Option<ErrorView> {
    match share_for(shares, c.participant_id.0) {
        None => Some(ErrorView::MissingRankedParticipant(c.participant_id.0)),
        Some(s) => if s.rank != c.derivative_order {
            Some(ErrorView::Protocol(
                "HTSS share rank mismatch for participant "@ + decimal(s.participant_id.0 as nat) + ": share rank "@
                    + decimal(s.rank as nat) + ", coefficient rank "@ + decimal(c.derivative_order as nat),
            ))
        } else if !is_scalar(s.share_value_bytes) {
            Some(ErrorView::Protocol("invalid HTSS share scalar for participant "@ + decimal(s.participant_id.0 as nat)))
        } else {
            None
        },
    }
}

/// The first share problem along the coefficient list from `j` on, if any.
pub open spec fn share_scan_from(shares: Seq<HtssLocalKeyShare>, cs: Seq<BirkhoffCoefficient>, j: int) -> Option<ErrorView>
    decreases cs.len() - j,
{
    if j < 0 || j >= cs.len() {
        None
    } else if share_error(shares, cs[j]) is Some {
        share_error(shares, cs[j])
    } else {
        share_scan_from(shares, cs, j + 1)
    }
}

/// The first share problem along the coefficient list, if any.
pub open spec fn share_scan(shares: Seq<HtssLocalKeyShare>, cs: Seq<BirkhoffCoefficient>) -> Option<ErrorView> {
    share_scan_from(shares, cs, 0)
}

/// The share values used for each coefficient.
pub open spec fn used_values(shares: Seq<HtssLocalKeyShare>, cs: Seq<BirkhoffCoefficient>) -> Seq<nat> {
    cs.map_values(|c: BirkhoffCoefficient| sv(share_for(shares, c.participant_id.0).unwrap().share_value_bytes))
}

fn find_share(shares: &[HtssLocalKeyShare], id: u16) -> (r: Option<usize>)
    ensures
        match share_for(shares@, id) {
            None => r is None,
            Some(s) => r matches Some(i) && i < shares@.len() && shares@[i as int] == s,
        },
{
    let mut i: usize = shares.len();
    assert(shares@.take(i as int) =~= shares@);
    while i > 0
        invariant
            i <= shares@.len(),
            share_for(shares@, id) == share_for(shares@.take(i as int), id),
        decreases i,
    {
        assert(shares@.take(i as int).drop_last() =~= shares@.take(i - 1));
        if shares[i - 1].participant_id.0 == id {
            return Some(i - 1);
        }
        i -= 1;
    }
    None
}

/// `a` followed by zeros up to length `n`.
pub open spec fn pad_zeros(a: Seq<nat>, n: nat) -> Seq<nat> {
    a + Seq::new((n - a.len()) as nat, |i: int| 0nat)
}

pub proof fn lemma_pad_prefix(a: Seq<nat>, n: nat, order: nat, x: nat, k: int)
    requires
        a.len() <= n,
        0 <= k <= a.len(),
    ensures
        derivative_sum(pad_zeros(a, n), order, x, k) == derivative_sum(a, order, x, k),
    decreases k,
{
    if k > 0 {
        lemma_pad_prefix(a, n, order, x, k - 1);
        assert(pad_zeros(a, n)[k - 1] == a[k - 1]);
    }
}

pub proof fn lemma_pad_tail(a: Seq<nat>, n: nat, order: nat, x: nat, k: int)
    requires
        a.len() <= k <= n,
    ensures
        derivative_sum(pad_zeros(a, n), order, x, k) == derivative_sum(a, order, x, a.len() as int),
    decreases k,
{
    if k > a.len() {
        lemma_pad_tail(a, n, order, x, k - 1);
        assert(pad_zeros(a, n)[k - 1] == 0);
    } else {
        lemma_pad_prefix(a, n, order, x, k);
    }
}

/// `secret` is the sum of the shares of the signers at `points`, each
/// weighted by its Birkhoff coefficient; when the shares are derivative values
/// of a polynomial with at most as many coefficients as signers, it is the
/// polynomial's constant term.
pub open spec fn reconstructs(shares: Seq<HtssLocalKeyShare>, points: Seq<BirkhoffPoint>, secret: [u8; 32]) -> bool {
    &&& is_scalar(secret)
    &&& exists|cs: Seq<BirkhoffCoefficient>| {
        &&& coefficient_points_match(points, cs)
        &&& coefficients_solve(points, coefficient_values(cs))
        &&& share_scan(shares, cs) is None
        &&& sv(secret) == modn(sum_to(
            |i: int| (coefficient_values(cs)[i] * used_values(shares, cs)[i]) as int,
            cs.len() as int,
        ))
    }
    &&& forall|a: Seq<nat>| 1 <= a.len() <= points.len() && #[trigger] shares_follow(shares, a)
        ==> sv(secret) == a[0] % group_order()
}

/// Reconstructs the HTSS secret `f(0)` from the shares of a valid signer set:
/// the sum of each signer's share weighted by its Birkhoff coefficient.
/// When the shares are derivative values of a polynomial with fewer
/// coefficients than signers, the result is the polynomial's constant term.
pub fn reconstruct_htss_secret_scalar(
    shares: &[HtssLocalKeyShare],
    signer_set: &[ParticipantId],
    config: &HierarchicalThresholdConfig,
) -> (r: Result<[u8; 32], DkgKitError>)
    ensures
        match points_outcome(signer_ids(signer_set@), *config) {
            Err(e) => r matches Err(x) && x@ == e,
            Ok(points) => match r {
                Err(x) => x@ == ErrorView::Protocol(msg_singular()) || exists|cs: Seq<BirkhoffCoefficient>|
                    #![trigger share_scan(shares@, cs)]
                    coefficient_points_match(points, cs) && share_scan(shares@, cs) == Some(x@),
                Ok(secret) => reconstructs(shares@, points, secret),
            },
        },
{
    let points = birkhoff_points_from_hierarchical_signer_set(signer_set, config)?;
    proof {
        let ids = signer_ids(signer_set@);
        let t = ThresholdConfig::new_spec(config.threshold, config.participants@.len() as u16)->Ok_0;
        lemma_signer_set_accepts(ids, t);
        lemma_distinct_len(ids);
    }
    let coefficients = birkhoff_interpolation_coefficients(points.as_slice())?;
    let ghost cs = coefficients@;
    let ghost cv = coefficient_values(cs);
    let n = coefficients.len();
    let mut secret = scalar_zero();
    let mut i: usize = 0;
    while i < n
        invariant
            n == cs.len(),
            cs == coefficients@,
            cv == coefficient_values(cs),
            coefficient_points_match(points@, cs),
            points_outcome(signer_ids(signer_set@), *config) == Ok::<Seq<BirkhoffPoint>, ErrorView>(points@),
            coefficients_solve(points@, cv),
            i <= n,
            share_scan_from(shares@, cs, 0) == share_scan_from(shares@, cs, i as int),
            forall|k: int| 0 <= k < i ==> (#[trigger] share_error(shares@, cs[k])) is None,
            is_scalar(secret),
            sv(secret) == modn(sum_to(|k: int| (cv[k] * used_values(shares@, cs)[k]) as int, i as int)),
        decreases n - i,
    {
        let coefficient = coefficients[i];
        let idx = match find_share(shares, coefficient.participant_id.0) {
            Some(k) => k,
            None => {
                assert(share_error(shares@, cs[i as int]) == Some(ErrorView::MissingRankedParticipant(coefficient.participant_id.0)));
                assert(share_scan(shares@, cs) == Some(ErrorView::MissingRankedParticipant(coefficient.participant_id.0)));
                return Err(DkgKitError::MissingRankedParticipant(coefficient.participant_id.0));
            },
        };
        let share = &shares[idx];
        assert(cs[i as int] == coefficient);
        if share.rank != coefficient.derivative_order {
            let mut text = String::from_str("HTSS share rank mismatch for participant ");
            push_decimal(&mut text, share.participant_id.0 as u64);
            text.append(": share rank ");
            push_decimal(&mut text, share.rank as u64);
            text.append(", coefficient rank ");
            push_decimal(&mut text, coefficient.derivative_order as u64);
            let e = DkgKitError::Protocol(text);
            assert(share_error(shares@, cs[i as int]) == Some(e@));
            assert(share_scan(shares@, cs) == Some(e@));
            return Err(e);
        }
        let share_value = match scalar_from_bytes(share.share_value_bytes) {
            Some(v) => v,
            None => {
                let mut text = String::from_str("invalid HTSS share scalar for participant ");
                push_decimal(&mut text, share.participant_id.0 as u64);
                let e = DkgKitError::Protocol(text);
                assert(share_error(shares@, cs[i as int]) == Some(e@));
                assert(share_scan(shares@, cs) == Some(e@));
                return Err(e);
            },
        };
        let coefficient_value = match scalar_from_bytes(coefficient.coefficient_bytes) {
            Some(v) => v,
            None => {
                let mut text = String::from_str("invalid Birkhoff coefficient scalar for participant ");
                push_decimal(&mut text, coefficient.participant_id.0 as u64);
                return Err(DkgKitError::Protocol(text));
            },
        };
        let term = scalar_mul(coefficient_value, share_value);
        let next = scalar_add(secret, term);
        proof {
            let prev = sum_to(|k: int| (cv[k] * used_values(shares@, cs)[k]) as int, i as int);
            let t = (cv[i as int] * used_values(shares@, cs)[i as int]) as int;
            assert(used_values(shares@, cs)[i as int] == sv(share_value));
            assert(cv[i as int] == sv(coefficient_value));
            crate::birkhoff::lemma_sum_nonneg_products(cv, used_values(shares@, cs), i as int);
            vstd::arithmetic::div_mod::lemma_add_mod_noop(prev, t, group_order() as int);
            vstd::arithmetic::div_mod::lemma_mod_twice(t, group_order() as int);
        }
        secret = next;
        i += 1;
    }
    proof {
        assert forall|a: Seq<nat>| 1 <= a.len() <= signer_set@.len() && #[trigger] shares_follow(shares@, a) implies sv(secret) == a[0] % group_order() by {
            let nn = points@.len();
            let pad = pad_zeros(a, nn);
            lemma_birkhoff_reconstructs(points@, cv, pad);
            // each used share is the polynomial's derivative value at the point
            let g1 = |k: int| (cv[k] * used_values(shares@, cs)[k]) as int;
            let g2 = |k: int| (cv[k] * derivative_value(pad, points@[k].derivative_order as nat, points@[k].x as nat)) as int;
            assert forall|k: int| 0 <= k < nn implies #[trigger] g1(k) == g2(k) by {
                assert(share_error(shares@, cs[k]) is None);
                let s = share_for(shares@, cs[k].participant_id.0).unwrap();
                crate::htss_keys::lemma_share_for_member(shares@, cs[k].participant_id.0);
                let w = choose|w: int| 0 <= w < shares@.len() && shares@[w] == s;
                assert(sv(shares@[w].share_value_bytes) == derivative_value(a, shares@[w].rank as nat, shares@[w].participant_id.0 as nat));
                lemma_pad_tail(a, nn, s.rank as nat, s.participant_id.0 as nat, nn as int);
                assert(points@[k].x == cs[k].participant_id.0) by {
                    assert(points@ == crate::birkhoff::signer_points(config.participants@, signer_ids(signer_set@)));
                }
            }
            lemma_sum_ext(g1, g2, nn as int);
            assert(pad[0] == a[0]);
        }
    }
    Ok(secret)
}

proof fn lemma_share_for_member(shares: Seq<HtssLocalKeyShare>, id: u16)
    ensures
        share_for(shares, id) matches Some(s) ==> s.participant_id.0 == id && exists|w: int| 0 <= w < shares.len() && shares[w] == s,
    decreases shares.len(),
{
    if shares.len() > 0 && shares.last().participant_id.0 != id {
        lemma_share_for_member(shares.drop_last(), id);
        if let Some(s) = share_for(shares.drop_last(), id) {
            let w = choose|w: int| 0 <= w < shares.drop_last().len() && shares.drop_last()[w] == s;
            assert(shares[w] == s);
        }
    } else if shares.len() > 0 {
        assert(shares[shares.len() - 1] == shares.last());
    }
}


pub open spec fn msg_zero_secret() -> Seq<char> {
    "reconstructed HTSS secret is zero"@
}

pub open spec fn msg_key_mismatch() -> Seq<char> {
    "reconstructed HTSS secret does not match group key"@
}

/// Signs a digest by reconstructing the HTSS secret locally from the shares
/// of a valid signer set. The combiner sees the secret: this is for demos. A
/// signature is returned only if the reconstructed secret's key is the group
/// key, and it then verifies under the group key.
pub fn sign_digest_with_local_htss_shares(
    group_key: &GroupKey,
    digest: [u8; 32],
    shares: &[HtssLocalKeyShare],
    signer_set: &[ParticipantId],
    config: &HierarchicalThresholdConfig,
) -> (r: Result<AggregateSignature, DkgKitError>)
    ensures
        points_outcome(signer_ids(signer_set@), *config) matches Err(e) ==> (r matches Err(x) && x@ == e),
        r matches Ok(sig) ==> sig.signature_bytes@.len() == 64 && bip340_verifies(
            group_key.xonly_public_key@,
            digest@,
            sig.signature_bytes@,
        ),
        r matches Ok(sig) ==> exists|secret: [u8; 32]| {
            &&& #[trigger] reconstructs(shares@, points_outcome(signer_ids(signer_set@), *config)->Ok_0, secret)
            &&& sv(secret) != 0
            &&& xonly_of_secret(secret@) == group_key.xonly_public_key@
            &&& sig.signature_bytes@ == bip340_signature(secret@, digest@)
        },
{
    let secret = reconstruct_htss_secret_scalar(shares, signer_set, config)?;
    if scalar_is_zero(&secret) {
        return Err(DkgKitError::Protocol(String::from_str("reconstructed HTSS secret is zero")));
    }
    let xonly = keypair_xonly(secret);
    if !bytes32_eq(&xonly, &group_key.xonly_public_key) {
        return Err(DkgKitError::Protocol(String::from_str("reconstructed HTSS secret does not match group key")));
    }
    let signature = schnorr_sign(secret, digest);
    let mut bytes: Vec<u8> = Vec::new();
    let mut i: usize = 0;
    while i < 64
        invariant
            i <= 64,
            bytes@ == signature@.take(i as int),
        decreases 64 - i,
    {
        bytes.push(signature[i]);
        assert(bytes@ =~= signature@.take(i + 1));
        i += 1;
    }
    assert(signature@.take(64) =~= signature@);
    assert(reconstructs(shares@, points_outcome(signer_ids(signer_set@), *config)->Ok_0, secret));
    AggregateSignature::new(bytes)
}

} // verus!
