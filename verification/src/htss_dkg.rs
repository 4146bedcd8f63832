//! Hierarchical threshold secret sharing: key generation by one local dealer
//! and by a distributed DKG in which every participant deals derivative
//! shares of its own polynomial, checked against public commitments.
use vstd::prelude::*;
use crate::curve::{
    add_points, add_scaled_point, base_mul, base_point_mul, even_y_keypair, even_y_xonly, gmul, key_point,
    point_is_valid, point_or_zero, point_sum, random_nonzero_scalar, scaled_sum, valid_point, valid_xonly,
    xonly_of_secret, zero_point,
};
use crate::packages::{HtssDkgRound1Package, HtssDkgRound2Package, HtssDkgRound1View, HtssDkgRound2View};
use crate::requests::{GroupKey, HtssLocalKeySet, HtssLocalKeyShare};
use crate::scalar::{
    all_scalars, basis_value, be_bytes, derivative_basis_scalar, derivative_value, group_order,
    is_scalar, lemma_scalar_bytes, polynomial_derivative_value, scalar_add, scalar_from_bytes,
    scalar_is_zero, scalar_sub, scalar_values, scalar_zero, sv,
};
use crate::text::{decimal, push_decimal};
use crate::types::{rank_in, DkgKitError, ErrorView, HierarchicalThresholdConfig, ParticipantId, Rank, RankedParticipant};
use crate::wire::views2;

verus! {

/// The first error among items `j..n`.
pub open spec fn first_error(f: spec_fn(int) -> Option<ErrorView>, j: int, n: int) -> Option<ErrorView>
    decreases n - j,
{
    if j >= n {
        None
    } else if f(j) is Some {
        f(j)
    } else {
        first_error(f, j + 1, n)
    }
}

/// No item among `j..n` has an error, so there is no first error.
pub proof fn lemma_first_error_all(f: spec_fn(int) -> Option<ErrorView>, j: int, n: int)
    requires
        forall|k: int| j <= k < n ==> (#[trigger] f(k)) is None,
    ensures
        first_error(f, j, n) is None,
    decreases n - j,
{
    if j < n {
        lemma_first_error_all(f, j + 1, n);
    }
}

pub(crate) fn error_num(a: &str, x: u64) -> (r: DkgKitError)
    ensures
        r@ == ErrorView::Protocol(a@ + decimal(x as nat)),
{
    let mut text = String::from_str(a);
    push_decimal(&mut text, x);
    DkgKitError::Protocol(text)
}

pub(crate) fn error_num2(a: &str, x: u64, b: &str, y: u64) -> (r: DkgKitError)
    ensures
        r@ == ErrorView::Protocol(a@ + decimal(x as nat) + b@ + decimal(y as nat)),
{
    let mut text = String::from_str(a);
    push_decimal(&mut text, x);
    text.append(b);
    push_decimal(&mut text, y);
    DkgKitError::Protocol(text)
}

pub(crate) fn error_num3(a: &str, x: u64, b: &str, y: u64, c: &str, z: u64) -> (r: DkgKitError)
    ensures
        r@ == ErrorView::Protocol(a@ + decimal(x as nat) + b@ + decimal(y as nat) + c@ + decimal(z as nat)),
{
    let mut text = String::from_str(a);
    push_decimal(&mut text, x);
    text.append(b);
    push_decimal(&mut text, y);
    text.append(c);
    push_decimal(&mut text, z);
    DkgKitError::Protocol(text)
}

fn plain_error(a: &str) -> (r: DkgKitError)
    ensures
        r@ == ErrorView::Protocol(a@),
{
    DkgKitError::Protocol(String::from_str(a))
}

// ---------------------------------------------------------------- commitments
/// Why a commitment's bytes are not a curve point, if they are not.
pub open spec fn commitment_error(c: Seq<u8>) -> Option<ErrorView> {
    if c.len() != 33 {
        Some(ErrorView::Protocol("HTSS DKG commitment must be 33 bytes, got "@ + decimal(c.len())))
    } else if !valid_point(c) {
        Some(ErrorView::Protocol("invalid HTSS DKG commitment point"@))
    } else {
        None
    }
}

fn commitment_point(bytes: &Vec<u8>) -> (r: Result<[u8; 33], DkgKitError>)
    ensures
        match commitment_error(bytes@) {
            Some(e) => r matches Err(x) && x@ == e,
            None => r matches Ok(p) && p@ == bytes@,
        },
{
    if bytes.len() != 33 {
        return Err(error_num("HTSS DKG commitment must be 33 bytes, got ", bytes.len() as u64));
    }
    let mut a = [0u8; 33];
    let mut i: usize = 0;
    while i < 33
        invariant
            bytes@.len() == 33,
            i <= 33,
            forall|k: int| 0 <= k < i ==> a@[k] == bytes@[k],
        decreases 33 - i,
    {
        a.set(i, bytes[i]);
        i += 1;
    }
    assert(a@ =~= bytes@);
    if !point_is_valid(a) {
        return Err(plain_error("invalid HTSS DKG commitment point"));
    }
    Ok(a)
}

// ---------------------------------------------------------------- round-1 set
pub open spec fn round1_ids(pkgs: Seq<HtssDkgRound1View>) -> Seq<u16> {
    pkgs.map_values(|p: HtssDkgRound1View| p.participant_id)
}

/// What is wrong with the `j`-th round-1 package, if anything.
pub open spec fn round1_item_error(pkgs: Seq<HtssDkgRound1View>, j: int, c: HierarchicalThresholdConfig) -> Option<ErrorView> {
    let p = pkgs[j];
    if round1_ids(pkgs).take(j).contains(p.participant_id) {
        Some(ErrorView::DuplicateParticipantId(p.participant_id))
    } else {
        match rank_in(c.participants@, p.participant_id) {
            None => Some(ErrorView::MissingRankedParticipant(p.participant_id)),
            Some(r) => if p.rank != r.0 {
                Some(ErrorView::Protocol(
                    "HTSS DKG round1 rank mismatch for participant "@ + decimal(p.participant_id as nat)
                        + ": got "@ + decimal(p.rank as nat) + ", expected "@ + decimal(r.0 as nat),
                ))
            } else if p.commitment_bytes.len() != c.threshold {
                Some(ErrorView::Protocol(
                    "HTSS DKG round1 participant "@ + decimal(p.participant_id as nat) + " has "@
                        + decimal(p.commitment_bytes.len()) + " commitments, expected "@ + decimal(c.threshold as nat),
                ))
            } else {
                first_error(|k: int| commitment_error(p.commitment_bytes[k]), 0, p.commitment_bytes.len() as int)
            },
        }
    }
}

/// What `validate_htss_dkg_round1_set` reports, if anything.
pub open spec fn round1_set_error(pkgs: Seq<HtssDkgRound1View>, c: HierarchicalThresholdConfig) -> Option<ErrorView> {
    match first_error(|j: int| round1_item_error(pkgs, j, c), 0, pkgs.len() as int) {
        Some(e) => Some(e),
        None => if pkgs.len() != c.participants@.len() {
            Some(ErrorView::Protocol(
                "HTSS DKG round1 set mismatch: have "@ + decimal(pkgs.len()) + ", need "@ + decimal(
                    c.participants@.len(),
                ),
            ))
        } else {
            None
        },
    }
}

pub open spec fn round1_views(v: Seq<HtssDkgRound1Package>) -> Seq<HtssDkgRound1View> {
    v.map_values(|p: HtssDkgRound1Package| p@)
}

fn contains_u16(v: &Vec<u16>, x: u16) -> (r: bool)
    ensures
        r == v@.contains(x),
{
    let mut i: usize = 0;
    while i < v.len()
        invariant
            i <= v@.len(),
            forall|k: int| 0 <= k < i ==> v@[k] != x,
        decreases v@.len() - i,
    {
        if v[i] == x {
            assert(v@[i as int] == x);
            return true;
        }
        i += 1;
    }
    false
}

fn check_commitments(p: &HtssDkgRound1Package) -> (r: Result<(), DkgKitError>)
    ensures
        match first_error(|k: int| commitment_error(p@.commitment_bytes[k]), 0, p@.commitment_bytes.len() as int) {
            Some(e) => r matches Err(x) && x@ == e,
            None => r is Ok,
        },
{
    let ghost f = |k: int| commitment_error(p@.commitment_bytes[k]);
    let n = p.commitment_bytes.len();
    let mut k: usize = 0;
    while k < n
        invariant
            n == p@.commitment_bytes.len(),
            f == (|k: int| commitment_error(p@.commitment_bytes[k])),
            k <= n,
            first_error(f, 0, n as int) == first_error(f, k as int, n as int),
        decreases n - k,
    {
        assert(p@.commitment_bytes[k as int] == p.commitment_bytes@[k as int]@);
        commitment_point(&p.commitment_bytes[k])?;
        k += 1;
    }
    Ok(())
}

/// Checks a round-1 set: no repeated sender, every sender ranked as the
/// configuration says, `threshold` valid commitments each, and one package
/// per participant.
pub fn validate_htss_dkg_round1_set(
    round1_packages: &[HtssDkgRound1Package],
    config: &HierarchicalThresholdConfig,
) -> (r: Result<(), DkgKitError>)
    ensures
        match round1_set_error(round1_views(round1_packages@), *config) {
            Some(e) => r matches Err(x) && x@ == e,
            None => r is Ok,
        },
{
    let ghost pkgs = round1_views(round1_packages@);
    let ghost f = |j: int| round1_item_error(pkgs, j, *config);
    let n = round1_packages.len();
    let mut seen: Vec<u16> = Vec::new();
    let mut i: usize = 0;
    while i < n
        invariant
            n == round1_packages@.len(),
            pkgs == round1_views(round1_packages@),
            f == (|j: int| round1_item_error(pkgs, j, *config)),
            i <= n,
            seen@ == round1_ids(pkgs).take(i as int),
            first_error(f, 0, n as int) == first_error(f, i as int, n as int),
        decreases n - i,
    {
        let p = &round1_packages[i];
        assert(pkgs[i as int] == p@);
        let id = p.participant_id.0;
        assert(round1_ids(pkgs)[i as int] == id);
        if contains_u16(&seen, id) {
            return Err(DkgKitError::DuplicateParticipantId(id));
        }
        let expected = match config.rank_of(p.participant_id) {
            Some(r) => r,
            None => return Err(DkgKitError::MissingRankedParticipant(id)),
        };
        if p.rank != expected.0 {
            return Err(error_num3(
                "HTSS DKG round1 rank mismatch for participant ",
                id as u64,
                ": got ",
                p.rank as u64,
                ", expected ",
                expected.0 as u64,
            ));
        }
        if p.commitment_bytes.len() != config.threshold as usize {
            return Err(error_num3(
                "HTSS DKG round1 participant ",
                id as u64,
                " has ",
                p.commitment_bytes.len() as u64,
                " commitments, expected ",
                config.threshold as u64,
            ));
        }
        assert(views2(p.commitment_bytes@).len() == p.commitment_bytes@.len());
        check_commitments(p)?;
        seen.push(id);
        assert(round1_ids(pkgs).take(i + 1) =~= round1_ids(pkgs).take(i as int).push(id));
        i += 1;
    }
    if n != config.participants.len() {
        return Err(error_num2(
            "HTSS DKG round1 set mismatch: have ",
            n as u64,
            ", need ",
            config.participants.len() as u64,
        ));
    }
    Ok(())
}

// ---------------------------------------------------------------- round 1 and round 2
/// A participant's round-1 output: the broadcast package and the polynomial
/// coefficients that must stay with the participant.
#[derive(Debug, PartialEq, Eq)]
pub struct HtssDkgRound1State {
    pub package: HtssDkgRound1Package,
    pub secret_coefficient_bytes: Vec<[u8; 32]>,
}

/// Deals a fresh random polynomial of `threshold` non-zero coefficients and
/// commits to each coefficient `a_i` as `a_i·G`.
pub fn htss_dkg_round1(participant_id: ParticipantId, config: &HierarchicalThresholdConfig) -> (r: Result<HtssDkgRound1State, DkgKitError>)
    ensures
        rank_in(config.participants@, participant_id.0) is None ==> (r matches Err(x)
            && x@ == ErrorView::MissingRankedParticipant(participant_id.0)),
        rank_in(config.participants@, participant_id.0) matches Some(rank) ==> (r matches Ok(s) && {
            &&& s.package.participant_id == participant_id
            &&& s.package.rank == rank.0
            &&& s.secret_coefficient_bytes@.len() == config.threshold
            &&& s.package.commitment_bytes@.len() == config.threshold
            &&& forall|i: int| 0 <= i < config.threshold ==> is_scalar(#[trigger] s.secret_coefficient_bytes@[i])
                && sv(s.secret_coefficient_bytes@[i]) != 0
                && s.package.commitment_bytes@[i]@ == base_point_mul(s.secret_coefficient_bytes@[i]@)
                && valid_point(s.package.commitment_bytes@[i]@)
                && s.package.commitment_bytes@[i]@.len() == 33
        }),
{
    let rank = match config.rank_of(participant_id) {
        Some(r) => r,
        None => return Err(DkgKitError::MissingRankedParticipant(participant_id.0)),
    };
    let mut secret_coefficient_bytes: Vec<[u8; 32]> = Vec::new();
    let mut commitment_bytes: Vec<Vec<u8>> = Vec::new();
    let mut i: u16 = 0;
    while i < config.threshold
        invariant
            i <= config.threshold,
            secret_coefficient_bytes@.len() == i,
            commitment_bytes@.len() == i,
            forall|k: int| 0 <= k < i ==> is_scalar(#[trigger] secret_coefficient_bytes@[k])
                && sv(secret_coefficient_bytes@[k]) != 0
                && commitment_bytes@[k]@ == base_point_mul(secret_coefficient_bytes@[k]@)
                && valid_point(commitment_bytes@[k]@)
                && commitment_bytes@[k]@.len() == 33,
        decreases config.threshold - i,
    {
        let coefficient = random_nonzero_scalar();
        let commitment = base_mul(coefficient);
        secret_coefficient_bytes.push(coefficient);
        let mut c: Vec<u8> = Vec::new();
        let mut k: usize = 0;
        while k < 33
            invariant
                k <= 33,
                c@ == commitment@.take(k as int),
            decreases 33 - k,
        {
            c.push(commitment[k]);
            assert(c@ =~= commitment@.take(k + 1));
            k += 1;
        }
        assert(commitment@.take(33) =~= commitment@);
        commitment_bytes.push(c);
        i += 1;
    }
    Ok(
        HtssDkgRound1State {
            package: HtssDkgRound1Package { participant_id, rank: rank.0, commitment_bytes },
            secret_coefficient_bytes,
        },
    )
}

/// The derivative share a participant deals to the `j`-th roster entry.
pub open spec fn dealt_share(coefficients: Seq<nat>, p: RankedParticipant) -> nat {
    derivative_value(coefficients, p.rank.0 as nat, p.id.0 as nat)
}

/// The checks of round 2 before any share is dealt.
pub open spec fn round2_error(state: HtssDkgRound1State, pkgs: Seq<HtssDkgRound1View>, c: HierarchicalThresholdConfig) -> Option<ErrorView> {
    let me = state.package.participant_id.0;
    match round1_set_error(pkgs, c) {
        Some(e) => Some(e),
        None => if !round1_ids(pkgs).contains(me) {
            Some(ErrorView::Protocol("missing own HTSS DKG round1 package for participant "@ + decimal(me as nat)))
        } else if state.secret_coefficient_bytes@.len() != c.threshold {
            Some(ErrorView::Protocol(
                "HTSS DKG contributor "@ + decimal(me as nat) + " has "@ + decimal(
                    state.secret_coefficient_bytes@.len(),
                ) + " coefficients, expected "@ + decimal(c.threshold as nat),
            ))
        } else if !all_scalars(state.secret_coefficient_bytes@) {
            Some(ErrorView::Protocol("invalid HTSS DKG coefficient for participant "@ + decimal(me as nat)))
        } else {
            None
        }
    }
}

/// Deals one derivative share to every roster entry, after checking the
/// round-1 set and the participant's own state.
pub fn htss_dkg_round2(
    state: &HtssDkgRound1State,
    round1_packages: &[HtssDkgRound1Package],
    config: &HierarchicalThresholdConfig,
) -> (r: Result<Vec<HtssDkgRound2Package>, DkgKitError>)
    ensures
        match round2_error(*state, round1_views(round1_packages@), *config) {
            Some(e) => r matches Err(x) && x@ == e,
            None => r matches Ok(v) && v@.len() == config.participants@.len() && forall|j: int|
                0 <= j < v@.len() ==> (#[trigger] v@[j]).sender == state.package.participant_id
                    && v@[j].recipient == config.participants@[j].id
                    && v@[j].recipient_rank == config.participants@[j].rank.0
                    && is_scalar(v@[j].share_value_bytes)
                    && sv(v@[j].share_value_bytes) == dealt_share(
                        scalar_values(state.secret_coefficient_bytes@),
                        config.participants@[j],
                    ),
        },
{
    validate_htss_dkg_round1_set(round1_packages, config)?;
    let me = state.package.participant_id;
    let mut found = false;
    let mut i: usize = 0;
    while i < round1_packages.len()
        invariant
            i <= round1_packages@.len(),
            found == round1_ids(round1_views(round1_packages@)).take(i as int).contains(me.0),
        decreases round1_packages@.len() - i,
    {
        proof {
            let ids = round1_ids(round1_views(round1_packages@));
            assert(ids.take(i + 1) =~= ids.take(i as int).push(ids[i as int]));
            assert(round1_views(round1_packages@)[i as int] == round1_packages@[i as int]@);
            assert(ids[i as int] == round1_packages@[i as int].participant_id.0);
        }
        if round1_packages[i].participant_id.0 == me.0 {
            found = true;
            proof {
                let ids = round1_ids(round1_views(round1_packages@));
                assert(ids.take(i + 1)[i as int] == me.0);
            }
        } else {
            proof {
                let ids = round1_ids(round1_views(round1_packages@));
                if ids.take(i + 1).contains(me.0) {
                    let w = choose|w: int| 0 <= w < i + 1 && #[trigger] ids.take(i + 1)[w] == me.0;
                    assert(w != i);
                    assert(ids.take(i as int)[w] == me.0);
                }
                if ids.take(i as int).contains(me.0) {
                    let w = choose|w: int| 0 <= w < i && #[trigger] ids.take(i as int)[w] == me.0;
                    assert(ids.take(i + 1)[w] == me.0);
                }
            }
        }
        i += 1;
    }
    assert(round1_ids(round1_views(round1_packages@)).take(round1_packages@.len() as int)
        =~= round1_ids(round1_views(round1_packages@)));
    if !found {
        return Err(error_num("missing own HTSS DKG round1 package for participant ", me.0 as u64));
    }
    let count = state.secret_coefficient_bytes.len();
    if count != config.threshold as usize {
        return Err(error_num3(
            "HTSS DKG contributor ",
            me.0 as u64,
            " has ",
            count as u64,
            " coefficients, expected ",
            config.threshold as u64,
        ));
    }
    let mut coefficients: Vec<[u8; 32]> = Vec::new();
    let mut k: usize = 0;
    while k < count
        invariant
            count == state.secret_coefficient_bytes@.len(),
            count == config.threshold,
            round1_set_error(round1_views(round1_packages@), *config) is None,
            round1_ids(round1_views(round1_packages@)).contains(me.0),
            me == state.package.participant_id,
            k <= count,
            coefficients@ == state.secret_coefficient_bytes@.take(k as int),
            all_scalars(coefficients@),
        decreases count - k,
    {
        match scalar_from_bytes(state.secret_coefficient_bytes[k]) {
            Some(c) => {
                coefficients.push(c);
                assert(coefficients@ =~= state.secret_coefficient_bytes@.take(k + 1));
            },
            None => {
                return Err(error_num("invalid HTSS DKG coefficient for participant ", me.0 as u64));
            },
        }
        k += 1;
    }
    assert(state.secret_coefficient_bytes@.take(count as int) =~= state.secret_coefficient_bytes@);
    let mut out: Vec<HtssDkgRound2Package> = Vec::new();
    let mut j: usize = 0;
    while j < config.participants.len()
        invariant
            me == state.package.participant_id,
            coefficients@ == state.secret_coefficient_bytes@,
            all_scalars(coefficients@),
            coefficients@.len() == config.threshold,
            j <= config.participants@.len(),
            out@.len() == j,
            forall|t: int| 0 <= t < j ==> (#[trigger] out@[t]).sender == state.package.participant_id
                && out@[t].recipient == config.participants@[t].id
                && out@[t].recipient_rank == config.participants@[t].rank.0
                && is_scalar(out@[t].share_value_bytes)
                && sv(out@[t].share_value_bytes) == dealt_share(
                    scalar_values(state.secret_coefficient_bytes@),
                    config.participants@[t],
                ),
        decreases config.participants@.len() - j,
    {
        let recipient = &config.participants[j];
        let value = polynomial_derivative_value(&coefficients, recipient.id.0, recipient.rank.0);
        out.push(
            HtssDkgRound2Package {
                sender: me,
                recipient: recipient.id,
                recipient_rank: recipient.rank.0,
                share_value_bytes: value,
            },
        );
        j += 1;
    }
    Ok(out)
}

// ---------------------------------------------------------------- round-2 set
pub open spec fn round2_senders(pkgs: Seq<HtssDkgRound2View>) -> Seq<u16> {
    pkgs.map_values(|p: HtssDkgRound2View| p.sender)
}

pub open spec fn round2_views(v: Seq<HtssDkgRound2Package>) -> Seq<HtssDkgRound2View> {
    v.map_values(|p: HtssDkgRound2Package| p@)
}

/// What is wrong with the `j`-th round-2 package for `me`, if anything.
pub open spec fn round2_item_error(pkgs: Seq<HtssDkgRound2View>, j: int, me: u16, expected: u16, c: HierarchicalThresholdConfig) -> Option<ErrorView> {
    let p = pkgs[j];
    if p.recipient != me {
        Some(ErrorView::Protocol(
            "HTSS DKG round2 package for participant "@ + decimal(p.recipient as nat)
                + " cannot finalize participant "@ + decimal(me as nat),
        ))
    } else if p.recipient_rank != expected {
        Some(ErrorView::Protocol(
            "HTSS DKG round2 recipient rank mismatch for participant "@ + decimal(me as nat) + ": got "@
                + decimal(p.recipient_rank as nat) + ", expected "@ + decimal(expected as nat),
        ))
    } else if rank_in(c.participants@, p.sender) is None {
        Some(ErrorView::MissingRankedParticipant(p.sender))
    } else if round2_senders(pkgs).take(j).contains(p.sender) {
        Some(ErrorView::DuplicateParticipantId(p.sender))
    } else {
        None
    }
}

/// What `validate_htss_dkg_round2_set` reports, if anything.
pub open spec fn round2_set_error(me: u16, pkgs: Seq<HtssDkgRound2View>, c: HierarchicalThresholdConfig) -> Option<ErrorView> {
    match rank_in(c.participants@, me) {
        None => Some(ErrorView::MissingRankedParticipant(me)),
        Some(r) => match first_error(|j: int| round2_item_error(pkgs, j, me, r.0, c), 0, pkgs.len() as int) {
            Some(e) => Some(e),
            None => if pkgs.len() != c.participants@.len() {
                Some(ErrorView::Protocol(
                    "HTSS DKG round2 set for participant "@ + decimal(me as nat) + " mismatch: have "@
                        + decimal(pkgs.len()) + ", need "@ + decimal(c.participants@.len()),
                ))
            } else {
                None
            },
        },
    }
}

/// One package from each roster participant, all addressed to `me`: the
/// senders are distinct roster ids, as many as the roster has, so that, the
/// roster ids being distinct, every participant has sent one.
pub open spec fn one_package_per_participant(me: u16, pkgs: Seq<HtssDkgRound2View>, ps: Seq<RankedParticipant>) -> bool {
    let ids = crate::types::ranked_ids(ps);
    &&& pkgs.len() == ps.len()
    &&& round2_senders(pkgs).no_duplicates()
    &&& forall|j: int| 0 <= j < pkgs.len() ==> (#[trigger] pkgs[j]).recipient == me && ids.contains(pkgs[j].sender)
    &&& ids.no_duplicates() ==> forall|x: u16| ids.contains(x) ==> round2_senders(pkgs).contains(x)
}

/// A round-2 set accepted for `me` has exactly one package from every roster
/// participant.
pub proof fn lemma_round2_set_one_per_participant(me: u16, pkgs: Seq<HtssDkgRound2View>, c: HierarchicalThresholdConfig)
    requires
        round2_set_error(me, pkgs, c) is None,
    ensures
        one_package_per_participant(me, pkgs, c.participants@),
{
    let ps = c.participants@;
    let ids = crate::types::ranked_ids(ps);
    let senders = round2_senders(pkgs);
    let r = rank_in(ps, me)->Some_0;
    let f = |j: int| round2_item_error(pkgs, j, me, r.0, c);
    lemma_first_error_none(f, 0, pkgs.len() as int);
    assert forall|j: int| 0 <= j < pkgs.len() implies (#[trigger] pkgs[j]).recipient == me && ids.contains(pkgs[j].sender)
        && !senders.take(j).contains(pkgs[j].sender) by {
        assert(f(j) is None);
        crate::types::lemma_rank_in_some(ps, pkgs[j].sender);
    }
    assert forall|a: int, b: int| 0 <= a < senders.len() && 0 <= b < senders.len() && a != b implies senders[a] != senders[b] by {
        let (lo, hi) = if a < b { (a, b) } else { (b, a) };
        assert(senders.take(hi)[lo] == senders[lo]);
        assert(!senders.take(hi).contains(pkgs[hi].sender));
    }
    if ids.no_duplicates() {
        assert forall|i: int| 0 <= i < senders.len() implies ids.contains(#[trigger] senders[i]) by {
            assert(ids.contains(pkgs[i].sender));
        }
        crate::types::lemma_distinct_cover(senders, ids);
    }
}

/// Checks the round-2 packages one participant received: all addressed to it
/// at its rank, from distinct ranked senders, one per participant.
pub fn validate_htss_dkg_round2_set(
    participant_id: ParticipantId,
    round2_packages: &[HtssDkgRound2Package],
    config: &HierarchicalThresholdConfig,
) -> (r: Result<(), DkgKitError>)
    ensures
        match round2_set_error(participant_id.0, round2_views(round2_packages@), *config) {
            Some(e) => r matches Err(x) && x@ == e,
            None => r is Ok,
        },
        r is Ok ==> one_package_per_participant(participant_id.0, round2_views(round2_packages@), config.participants@),
{
    proof {
        if round2_set_error(participant_id.0, round2_views(round2_packages@), *config) is None {
            lemma_round2_set_one_per_participant(participant_id.0, round2_views(round2_packages@), *config);
        }
    }
    let me = participant_id.0;
    let expected = match config.rank_of(participant_id) {
        Some(r) => r,
        None => return Err(DkgKitError::MissingRankedParticipant(me)),
    };
    let ghost pkgs = round2_views(round2_packages@);
    let ghost f = |j: int| round2_item_error(pkgs, j, me, expected.0, *config);
    let n = round2_packages.len();
    let mut seen: Vec<u16> = Vec::new();
    let mut i: usize = 0;
    while i < n
        invariant
            n == round2_packages@.len(),
            pkgs == round2_views(round2_packages@),
            f == (|j: int| round2_item_error(pkgs, j, me, expected.0, *config)),
            rank_in(config.participants@, me) == Some(expected),
            me == participant_id.0,
            i <= n,
            seen@ == round2_senders(pkgs).take(i as int),
            first_error(f, 0, n as int) == first_error(f, i as int, n as int),
        decreases n - i,
    {
        let p = &round2_packages[i];
        assert(pkgs[i as int] == p@);
        if p.recipient.0 != me {
            return Err(error_num2(
                "HTSS DKG round2 package for participant ",
                p.recipient.0 as u64,
                " cannot finalize participant ",
                me as u64,
            ));
        }
        if p.recipient_rank != expected.0 {
            return Err(error_num3(
                "HTSS DKG round2 recipient rank mismatch for participant ",
                me as u64,
                ": got ",
                p.recipient_rank as u64,
                ", expected ",
                expected.0 as u64,
            ));
        }
        if config.rank_of(p.sender).is_none() {
            return Err(DkgKitError::MissingRankedParticipant(p.sender.0));
        }
        assert(round2_senders(pkgs)[i as int] == p.sender.0);
        if contains_u16(&seen, p.sender.0) {
            return Err(DkgKitError::DuplicateParticipantId(p.sender.0));
        }
        seen.push(p.sender.0);
        assert(round2_senders(pkgs).take(i + 1) =~= round2_senders(pkgs).take(i as int).push(p.sender.0));
        i += 1;
    }
    if n != config.participants.len() {
        return Err(error_num3(
            "HTSS DKG round2 set for participant ",
            me as u64,
            " mismatch: have ",
            n as u64,
            ", need ",
            config.participants.len() as u64,
        ));
    }
    Ok(())
}


// ---------------------------------------------------------------- share verification
/// Big-endian bytes that denote a canonical scalar.
pub open spec fn scalar_seq_ok(b: Seq<u8>) -> bool {
    crate::scalar::be_value(b) < group_order()
}

/// `sum_k basis(k, rank, x) · C_k` over the first `k` commitments, skipping
/// zero basis values, as the point encoding the fold produces.
pub open spec fn commitment_sum(cs: Seq<Seq<u8>>, rank: u16, x: u16, k: int) -> Seq<u8>
    decreases k,
{
    if k <= 0 {
        zero_point()
    } else {
        let acc = commitment_sum(cs, rank, x, k - 1);
        let b = basis_value((k - 1) as nat, rank as nat, x as nat);
        if b == 0 {
            acc
        } else {
            scaled_sum(acc, be_bytes(b, 32), cs[k - 1])
        }
    }
}

/// A commitment that is decoded (non-zero basis) and fails to decode.
pub open spec fn decode_error(cs: Seq<Seq<u8>>, rank: u16, x: u16, k: int) -> Option<ErrorView> {
    if basis_value(k as nat, rank as nat, x as nat) == 0 {
        None
    } else {
        commitment_error(cs[k])
    }
}

/// What `verify_htss_dkg_derivative_share` reports, if anything.
pub open spec fn share_check_error(p: HtssDkgRound2View, r1: HtssDkgRound1View) -> Option<ErrorView> {
    if p.sender != r1.participant_id {
        Some(ErrorView::Protocol("HTSS DKG derivative share sender mismatch"@))
    } else if !scalar_seq_ok(p.share_value_bytes) {
        Some(ErrorView::Protocol("invalid HTSS DKG derivative share from participant "@ + decimal(p.sender as nat)))
    } else {
        match first_error(|k: int| decode_error(r1.commitment_bytes, p.recipient_rank, p.recipient, k), 0, r1.commitment_bytes.len() as int) {
            Some(e) => Some(e),
            None => if base_point_mul(p.share_value_bytes) != commitment_sum(
                r1.commitment_bytes,
                p.recipient_rank,
                p.recipient,
                r1.commitment_bytes.len() as int,
            ) {
                Some(ErrorView::Protocol(
                    "HTSS DKG derivative share from participant "@ + decimal(p.sender as nat)
                        + " failed commitment verification"@,
                ))
            } else {
                None
            },
        }
    }
}

fn bytes33_eq(a: &[u8; 33], b: &[u8; 33]) -> (r: bool)
    ensures
        r == (a@ == b@),
{
    let mut i: usize = 0;
    while i < 33
        invariant
            i <= 33,
            forall|k: int| 0 <= k < i ==> a@[k] == b@[k],
        decreases 33 - i,
    {
        if a[i] != b[i] {
            return false;
        }
        i += 1;
    }
    assert(a@ =~= b@);
    true
}

/// The commitments are valid 33-byte points `a_i·G`.
pub open spec fn commits_to(cs: Seq<Seq<u8>>, a: Seq<nat>) -> bool {
    &&& a.len() == cs.len()
    &&& forall|i: int| 0 <= i < cs.len() ==> (#[trigger] cs[i]).len() == 33 && valid_point(cs[i]) && cs[i] == gmul(
        a[i] as int,
    )
}

/// Checks a derivative share against the sender's commitments:
/// `share·G == sum_k basis(k, rank, x)·C_k`. A share dealt honestly, the
/// derivative share of the committed polynomial, passes.
pub fn verify_htss_dkg_derivative_share(package: &HtssDkgRound2Package, round1: &HtssDkgRound1Package) -> (r: Result<(), DkgKitError>)
    requires
        round1.commitment_bytes@.len() <= 65536,
    ensures
        match share_check_error(package@, round1@) {
            Some(e) => r matches Err(x) && x@ == e,
            None => r is Ok,
        },
        forall|a: Seq<nat>| #[trigger] commits_to(round1@.commitment_bytes, a) && package.sender.0 == round1.participant_id.0
            && is_scalar(package.share_value_bytes) && sv(package.share_value_bytes) == derivative_value(
            a,
            package.recipient_rank as nat,
            package.recipient.0 as nat,
        ) ==> r is Ok,
{
    if package.sender.0 != round1.participant_id.0 {
        return Err(plain_error("HTSS DKG derivative share sender mismatch"));
    }
    let share = match scalar_from_bytes(package.share_value_bytes) {
        Some(s) => s,
        None => return Err(error_num("invalid HTSS DKG derivative share from participant ", package.sender.0 as u64)),
    };
    let ghost cs = round1@.commitment_bytes;
    let ghost f = |k: int| decode_error(cs, package.recipient_rank, package.recipient.0, k);
    let n = round1.commitment_bytes.len();
    let mut expected = [0u8; 33];
    assert(expected@ =~= zero_point());
    let mut k: usize = 0;
    while k < n
        invariant
            n == round1.commitment_bytes@.len(),
            n <= 65536,
            package.sender.0 == round1.participant_id.0,
            scalar_seq_ok(package@.share_value_bytes),
            cs == round1@.commitment_bytes,
            cs.len() == n,
            f == (|k: int| decode_error(cs, package.recipient_rank, package.recipient.0, k)),
            k <= n,
            first_error(f, 0, n as int) == first_error(f, k as int, n as int),
            expected@ == commitment_sum(cs, package.recipient_rank, package.recipient.0, k as int),
            point_or_zero(expected@),
            forall|a: Seq<nat>| #[trigger] commits_to(cs, a) ==> expected@ == gmul(crate::scalar::derivative_sum(
                a,
                package.recipient_rank as nat,
                package.recipient.0 as nat,
                k as int,
            )),
        decreases n - k,
    {
        let basis = match derivative_basis_scalar(k as u16, package.recipient_rank, package.recipient.0) {
            Ok(b) => b,
            Err(_) => scalar_zero(),
        };
        proof {
            lemma_scalar_bytes(basis);
        }
        let ghost before = expected@;
        let ghost o = package.recipient_rank as nat;
        let ghost x = package.recipient.0 as nat;
        if !scalar_is_zero(&basis) {
            assert(cs[k as int] == round1.commitment_bytes@[k as int]@);
            let point = commitment_point(&round1.commitment_bytes[k])?;
            expected = add_scaled_point(expected, basis, point);
            proof {
                assert forall|a: Seq<nat>| #[trigger] commits_to(cs, a) implies expected@ == gmul(
                    crate::scalar::derivative_sum(a, o, x, k + 1),
                ) by {
                    let prev = crate::scalar::derivative_sum(a, o, x, k as int);
                    let y = a[k as int] as int;
                    assert(before == gmul(prev));
                    assert(point@ == gmul(y));
                    assert(sv(basis) * y == a[k as int] * basis_value(k as nat, o, x)) by (nonlinear_arith)
                        requires sv(basis) == basis_value(k as nat, o, x), y == a[k as int];
                }
            }
        } else {
            proof {
                assert forall|a: Seq<nat>| #[trigger] commits_to(cs, a) implies expected@ == gmul(
                    crate::scalar::derivative_sum(a, o, x, k + 1),
                ) by {
                    assert(a[k as int] * basis_value(k as nat, o, x) == 0) by (nonlinear_arith)
                        requires basis_value(k as nat, o, x) == 0;
                }
            }
        }
        k += 1;
    }
    let actual = base_mul(share);
    proof {
        if sv(share) != 0 {
            crate::curve::lemma_gmul_scalar(share);
        }
        vstd::arithmetic::div_mod::lemma_small_mod(sv(share), group_order());
        assert(actual@ == gmul(sv(share) as int));
        assert forall|a: Seq<nat>| #[trigger] commits_to(cs, a) && sv(package.share_value_bytes) == derivative_value(
            a,
            package.recipient_rank as nat,
            package.recipient.0 as nat,
        ) implies actual@ == expected@ by {
            let d = crate::scalar::derivative_sum(a, package.recipient_rank as nat, package.recipient.0 as nat, n as int);
            crate::scalar::lemma_derivative_sum_nonneg(a, package.recipient_rank as nat, package.recipient.0 as nat, n as int);
            vstd::arithmetic::div_mod::lemma_mod_twice(d, group_order() as int);
            assert(gmul(sv(share) as int) == gmul(d));
        }
    }
    if !bytes33_eq(&actual, &expected) {
        return Err(DkgKitError::Protocol({
            let mut text = String::from_str("HTSS DKG derivative share from participant ");
            push_decimal(&mut text, package.sender.0 as u64);
            text.append(" failed commitment verification");
            text
        }));
    }
    Ok(())
}

// ---------------------------------------------------------------- group key
/// The sum of the first `k` constant-term commitments.
pub open spec fn group_point(pkgs: Seq<HtssDkgRound1View>, k: int) -> Seq<u8>
    decreases k,
{
    if k <= 0 {
        zero_point()
    } else {
        point_sum(group_point(pkgs, k - 1), pkgs[k - 1].commitment_bytes[0])
    }
}

/// Why package `j` has no usable constant-term commitment, if it has none.
pub open spec fn constant_commitment_error(pkgs: Seq<HtssDkgRound1View>, j: int) -> Option<ErrorView> {
    if pkgs[j].commitment_bytes.len() == 0 {
        Some(ErrorView::Protocol(
            "HTSS DKG participant "@ + decimal(pkgs[j].participant_id as nat) + " missing constant commitment"@,
        ))
    } else {
        commitment_error(pkgs[j].commitment_bytes[0])
    }
}

/// What `htss_dkg_group_xonly_public_key` returns.
pub open spec fn group_key_outcome(pkgs: Seq<HtssDkgRound1View>) -> Result<(Seq<u8>, bool), ErrorView> {
    match first_error(|j: int| constant_commitment_error(pkgs, j), 0, pkgs.len() as int) {
        Some(e) => Err(e),
        None => {
            let p = group_point(pkgs, pkgs.len() as int);
            if p == zero_point() {
                Err(ErrorView::Protocol("HTSS DKG group key cannot be zero"@))
            } else {
                Ok((p.subrange(1, 33), p[0] == 3))
            }
        },
    }
}

/// The sum of the first `k` integers of `a`.
pub open spec fn sum_first(a: Seq<int>, k: int) -> int
    decreases k,
{
    if k <= 0 {
        0
    } else {
        sum_first(a, k - 1) + a[k - 1]
    }
}

/// Each package's constant-term commitment is `a_j·G`.
pub open spec fn constant_terms(pkgs: Seq<HtssDkgRound1View>, a: Seq<int>) -> bool {
    &&& a.len() == pkgs.len()
    &&& forall|j: int| 0 <= j < pkgs.len() ==> (#[trigger] pkgs[j]).commitment_bytes.len() > 0
        && pkgs[j].commitment_bytes[0] == gmul(a[j])
}

/// The group key is the x-only key of the sum of the constant terms, which
/// is its secret, negated when the sum had odd y.
pub open spec fn constants_give_group_key(pkgs: Seq<HtssDkgRound1View>) -> bool {
    forall|a: Seq<int>| #[trigger] constant_terms(pkgs, a) ==> (group_key_outcome(pkgs) matches Ok((x, neg)) && key_point(
        if neg { -sum_first(a, a.len() as int) } else { sum_first(a, a.len() as int) },
        x,
    ))
}

/// The x-only group key `sum_j C_j0` (made even), and whether the sum had to
/// be negated to make its y coordinate even.
pub fn htss_dkg_group_xonly_public_key(round1_packages: &[HtssDkgRound1Package]) -> (r: Result<([u8; 32], bool), DkgKitError>)
    ensures
        match group_key_outcome(round1_views(round1_packages@)) {
            Ok((x, neg)) => r matches Ok((a, b)) && a@ == x && b == neg,
            Err(e) => r matches Err(x) && x@ == e,
        },
        r is Ok ==> constants_give_group_key(round1_views(round1_packages@)),
        r matches Ok((x, _)) ==> valid_xonly(x@),
{
    let ghost pkgs = round1_views(round1_packages@);
    let ghost f = |j: int| constant_commitment_error(pkgs, j);
    let n = round1_packages.len();
    let mut aggregate = [0u8; 33];
    assert(aggregate@ =~= zero_point());
    let mut i: usize = 0;
    while i < n
        invariant
            n == round1_packages@.len(),
            pkgs == round1_views(round1_packages@),
            f == (|j: int| constant_commitment_error(pkgs, j)),
            i <= n,
            first_error(f, 0, n as int) == first_error(f, i as int, n as int),
            aggregate@ == group_point(pkgs, i as int),
            point_or_zero(aggregate@),
            forall|a: Seq<int>| #[trigger] constant_terms(pkgs, a) ==> aggregate@ == gmul(sum_first(a, i as int)),
        decreases n - i,
    {
        let p = &round1_packages[i];
        assert(pkgs[i as int] == p@);
        if p.commitment_bytes.len() == 0 {
            return Err(DkgKitError::Protocol({
                let mut text = String::from_str("HTSS DKG participant ");
                push_decimal(&mut text, p.participant_id.0 as u64);
                text.append(" missing constant commitment");
                text
            }));
        }
        assert(pkgs[i as int].commitment_bytes[0] == p.commitment_bytes@[0]@);
        let point = commitment_point(&p.commitment_bytes[0])?;
        let ghost before = aggregate@;
        aggregate = add_points(aggregate, point);
        proof {
            assert forall|a: Seq<int>| #[trigger] constant_terms(pkgs, a) implies aggregate@ == gmul(sum_first(a, i + 1)) by {
                assert(before == gmul(sum_first(a, i as int)));
                assert(point@ == gmul(a[i as int]));
                assert(sum_first(a, i + 1) == sum_first(a, i as int) + a[i as int]);
            }
        }
        i += 1;
    }
    let zero = [0u8; 33];
    assert(zero@ =~= zero_point());
    if bytes33_eq(&aggregate, &zero) {
        return Err(plain_error("HTSS DKG group key cannot be zero"));
    }
    let key = even_y_xonly(aggregate);
    proof {
        assert forall|a: Seq<int>| #[trigger] constant_terms(pkgs, a) implies (group_key_outcome(pkgs) matches Ok((x, neg))
            && key_point(if neg { -sum_first(a, a.len() as int) } else { sum_first(a, a.len() as int) }, x)) by {
            assert(aggregate@ == gmul(sum_first(a, n as int)));
        }
    }
    Ok(key)
}


// ---------------------------------------------------------------- finalization
pub proof fn lemma_first_error_none(f: spec_fn(int) -> Option<ErrorView>, j: int, n: int)
    requires
        first_error(f, j, n) is None,
    ensures
        forall|k: int| j <= k < n ==> (#[trigger] f(k)) is None,
    decreases n - j,
{
    if j < n {
        lemma_first_error_none(f, j + 1, n);
    }
}

/// The first round-1 package from `id`, if any.
pub open spec fn lookup_round1(r1: Seq<HtssDkgRound1View>, id: u16) -> Option<HtssDkgRound1View>
    decreases r1.len(),
{
    if r1.len() == 0 {
        None
    } else if r1[0].participant_id == id {
        Some(r1[0])
    } else {
        lookup_round1(r1.drop_first(), id)
    }
}

/// What is wrong with a received round-2 package at finalization, if anything.
pub open spec fn finalize_item_error(r1: Seq<HtssDkgRound1View>, p: HtssDkgRound2View) -> Option<ErrorView> {
    match lookup_round1(r1, p.sender) {
        None => Some(ErrorView::MissingRankedParticipant(p.sender)),
        Some(q) => share_check_error(p, q),
    }
}

/// The package is the derivative share of a polynomial that its sender's
/// round-1 package commits to.
pub open spec fn honest_item(r1: Seq<HtssDkgRound1View>, p: HtssDkgRound2View) -> bool {
    lookup_round1(r1, p.sender) matches Some(q) && exists|a: Seq<nat>| #[trigger] commits_to(q.commitment_bytes, a)
        && p.sender == q.participant_id && scalar_seq_ok(p.share_value_bytes) && crate::scalar::be_value(
        p.share_value_bytes,
    ) == derivative_value(a, p.recipient_rank as nat, p.recipient as nat)
}

/// Every received package is dealt honestly.
pub open spec fn honest_round2(r1: Seq<HtssDkgRound1View>, r2: Seq<HtssDkgRound2View>) -> bool {
    forall|j: int| 0 <= j < r2.len() ==> #[trigger] honest_item(r1, r2[j])
}

/// The sum of the first `k` received share values.
pub open spec fn share_total(r2: Seq<HtssDkgRound2View>, k: int) -> nat
    decreases k,
{
    if k <= 0 {
        0
    } else {
        share_total(r2, k - 1) + crate::scalar::be_value(r2[k - 1].share_value_bytes)
    }
}

/// What `finalize_htss_dkg` returns: the x-only group key, the rank, and the
/// share value (the sum of the received shares, negated when the group key was).
pub open spec fn finalize_outcome(me: u16, r1: Seq<HtssDkgRound1View>, r2: Seq<HtssDkgRound2View>, c: HierarchicalThresholdConfig) -> Result<(Seq<u8>, u16, nat), ErrorView> {
    match rank_in(c.participants@, me) {
        None => Err(ErrorView::MissingRankedParticipant(me)),
        Some(rank) => match round1_set_error(r1, c) {
            Some(e) => Err(e),
            None => match round2_set_error(me, r2, c) {
                Some(e) => Err(e),
                None => match first_error(|j: int| finalize_item_error(r1, r2[j]), 0, r2.len() as int) {
                    Some(e) => Err(e),
                    None => match group_key_outcome(r1) {
                        Err(e) => Err(e),
                        Ok((x, negated)) => {
                            let s = share_total(r2, r2.len() as int) % group_order();
                            Ok((x, rank.0, if negated { ((0 - s) % (group_order() as int)) as nat } else { s }))
                        },
                    },
                },
            },
        },
    }
}

fn find_round1(r1: &[HtssDkgRound1Package], id: u16) -> (r: Option<usize>)
    ensures
        match lookup_round1(round1_views(r1@), id) {
            None => r is None,
            Some(q) => r matches Some(i) && i < r1@.len() && r1@[i as int]@ == q,
        },
{
    let mut i: usize = 0;
    assert(round1_views(r1@).skip(0) =~= round1_views(r1@));
    while i < r1.len()
        invariant
            i <= r1@.len(),
            lookup_round1(round1_views(r1@), id) == lookup_round1(round1_views(r1@).skip(i as int), id),
        decreases r1@.len() - i,
    {
        assert(round1_views(r1@).skip(i as int).drop_first() =~= round1_views(r1@).skip(i + 1));
        assert(round1_views(r1@).skip(i as int)[0] == r1@[i as int]@);
        if r1[i].participant_id.0 == id {
            return Some(i);
        }
        i += 1;
    }
    None
}

proof fn lemma_lookup_member(r1: Seq<HtssDkgRound1View>, id: u16)
    ensures
        lookup_round1(r1, id) matches Some(q) ==> exists|j: int| 0 <= j < r1.len() && r1[j] == q,
    decreases r1.len(),
{
    if r1.len() > 0 && r1[0].participant_id != id {
        lemma_lookup_member(r1.drop_first(), id);
        if let Some(q) = lookup_round1(r1.drop_first(), id) {
            let j = choose|j: int| 0 <= j < r1.drop_first().len() && r1.drop_first()[j] == q;
            assert(r1[j + 1] == q);
        }
    }
}

/// Checks both rounds, verifies every received derivative share against its
/// sender's commitments, and sums them into the participant's share of the
/// group polynomial (negated when the group key had to be).
pub fn finalize_htss_dkg(
    participant_id: ParticipantId,
    round1_packages: &[HtssDkgRound1Package],
    round2_packages: &[HtssDkgRound2Package],
    config: &HierarchicalThresholdConfig,
) -> (r: Result<(GroupKey, HtssLocalKeyShare), DkgKitError>)
    ensures
        match finalize_outcome(participant_id.0, round1_views(round1_packages@), round2_views(round2_packages@), *config) {
            Err(e) => r matches Err(x) && x@ == e,
            Ok((x, rank, s)) => r matches Ok((g, sh)) && g.xonly_public_key@ == x && g.verification_key_bytes@.len() == 0
                && sh.participant_id == participant_id && sh.rank == rank && is_scalar(sh.share_value_bytes)
                && sv(sh.share_value_bytes) == s,
        },
        r is Ok ==> constants_give_group_key(round1_views(round1_packages@)),
        r matches Ok((g, _)) ==> valid_xonly(g.xonly_public_key@),
        r is Ok ==> one_package_per_participant(participant_id.0, round2_views(round2_packages@), config.participants@),
        rank_in(config.participants@, participant_id.0) is Some && round1_set_error(round1_views(round1_packages@), *config) is None
            && round2_set_error(participant_id.0, round2_views(round2_packages@), *config) is None
            && honest_round2(round1_views(round1_packages@), round2_views(round2_packages@)) ==> first_error(
            |j: int| finalize_item_error(round1_views(round1_packages@), round2_views(round2_packages@)[j]),
            0,
            round2_packages@.len() as int,
        ) is None,
{
    let rank = match config.rank_of(participant_id) {
        Some(r) => r,
        None => return Err(DkgKitError::MissingRankedParticipant(participant_id.0)),
    };
    validate_htss_dkg_round1_set(round1_packages, config)?;
    validate_htss_dkg_round2_set(participant_id, round2_packages, config)?;
    let ghost r1 = round1_views(round1_packages@);
    let ghost r2 = round2_views(round2_packages@);
    let ghost f = |j: int| finalize_item_error(r1, r2[j]);
    proof {
        let g = |j: int| round1_item_error(r1, j, *config);
        lemma_first_error_none(g, 0, r1.len() as int);
        assert forall|k: int| 0 <= k < r1.len() implies (#[trigger] round1_item_error(r1, k, *config)) is None by {
            assert(g(k) is None);
        }
    }
    let n = round2_packages.len();
    let mut share = scalar_zero();
    let mut j: usize = 0;
    while j < n
        invariant
            n == round2_packages@.len(),
            r1 == round1_views(round1_packages@),
            r2 == round2_views(round2_packages@),
            f == (|j: int| finalize_item_error(r1, r2[j])),
            forall|k: int| 0 <= k < r1.len() ==> (#[trigger] round1_item_error(r1, k, *config)) is None,
            rank_in(config.participants@, participant_id.0) == Some(rank),
            round1_set_error(r1, *config) is None,
            round2_set_error(participant_id.0, r2, *config) is None,
            j <= n,
            first_error(f, 0, n as int) == first_error(f, j as int, n as int),
            is_scalar(share),
            sv(share) == share_total(r2, j as int) % group_order(),
        decreases n - j,
    {
        let pkg = &round2_packages[j];
        assert(r2[j as int] == pkg@);
        proof {
            if honest_round2(r1, r2) {
                assert(honest_item(r1, r2[j as int]));
            }
        }
        let idx = match find_round1(round1_packages, pkg.sender.0) {
            Some(i) => i,
            None => return Err(DkgKitError::MissingRankedParticipant(pkg.sender.0)),
        };
        proof {
            assert(round1_item_error(r1, idx as int, *config) is None);
            assert(r1[idx as int] == round1_packages@[idx as int]@);
        }
        proof {
            if honest_round2(r1, r2) {
                assert(honest_item(r1, r2[j as int]));
                let a = choose|a: Seq<nat>| #[trigger] commits_to(r1[idx as int].commitment_bytes, a)
                    && pkg.sender.0 == r1[idx as int].participant_id && scalar_seq_ok(pkg@.share_value_bytes)
                    && crate::scalar::be_value(pkg@.share_value_bytes) == derivative_value(
                    a,
                    pkg.recipient_rank as nat,
                    pkg.recipient.0 as nat,
                );
                assert(commits_to(round1_packages@[idx as int]@.commitment_bytes, a));
            }
        }
        verify_htss_dkg_derivative_share(pkg, &round1_packages[idx])?;
        let contribution = match scalar_from_bytes(pkg.share_value_bytes) {
            Some(c) => c,
            None => return Err(error_num("invalid HTSS DKG round2 share from participant ", pkg.sender.0 as u64)),
        };
        let next = scalar_add(share, contribution);
        proof {
            vstd::arithmetic::div_mod::lemma_add_mod_noop(
                share_total(r2, j as int) as int,
                sv(contribution) as int,
                group_order() as int,
            );
            vstd::arithmetic::div_mod::lemma_small_mod(sv(contribution), group_order());
        }
        share = next;
        j += 1;
    }
    let (xonly_public_key, negated) = htss_dkg_group_xonly_public_key(round1_packages)?;
    if negated {
        share = scalar_sub(scalar_zero(), share);
        proof {
            let t = share_total(r2, n as int) % group_order();
            vstd::arithmetic::div_mod::lemma_sub_mod_noop(0, t as int, group_order() as int);
        }
    }
    Ok((
        GroupKey { xonly_public_key, verification_key_bytes: Vec::new() },
        HtssLocalKeyShare { participant_id, rank: rank.0, share_value_bytes: share },
    ))
}


/// The round-2 packages addressed to `id`, in order.
pub open spec fn addressed_round2(r2: Seq<HtssDkgRound2View>, id: u16) -> Seq<HtssDkgRound2View> {
    r2.filter(|p: HtssDkgRound2View| p.recipient == id)
}

/// `set` is what each roster entry finalizes, over the round-1 packages `r1`
/// and the round-2 packages in `r2` addressed to it: one group key for all,
/// and for the `j`-th entry its rank and share value.
pub open spec fn keyset_from_rounds(
    set: HtssLocalKeySet,
    r1: Seq<HtssDkgRound1View>,
    r2: Seq<HtssDkgRound2View>,
    c: HierarchicalThresholdConfig,
) -> bool {
    &&& set.shares@.len() == c.participants@.len()
    &&& forall|j: int| 0 <= j < set.shares@.len() ==> #[trigger] finalize_outcome(
        c.participants@[j].id.0, r1, addressed_round2(r2, c.participants@[j].id.0), c)
        == Ok::<(Seq<u8>, u16, nat), ErrorView>((set.group_key.xonly_public_key@, set.shares@[j].rank,
            sv(set.shares@[j].share_value_bytes)))
}

/// Every participant that finalizes over the same round-1 packages derives
/// the same group key, whatever round-2 packages each one received.
pub proof fn lemma_finalize_same_group_key(
    a: u16,
    b: u16,
    r1: Seq<HtssDkgRound1View>,
    r2a: Seq<HtssDkgRound2View>,
    r2b: Seq<HtssDkgRound2View>,
    c: HierarchicalThresholdConfig,
)
    requires
        finalize_outcome(a, r1, r2a, c) is Ok,
        finalize_outcome(b, r1, r2b, c) is Ok,
    ensures
        finalize_outcome(a, r1, r2a, c)->Ok_0.0 == finalize_outcome(b, r1, r2b, c)->Ok_0.0,
        group_key_outcome(r1) matches Ok((x, _)) && finalize_outcome(a, r1, r2a, c)->Ok_0.0 == x,
{
}

// ---------------------------------------------------------------- the dealt key set
/// A round-1 state as `htss_dkg_round1` deals it: `threshold` non-zero
/// canonical coefficients `a_i`, each committed to as `a_i·G`.
pub open spec fn dealt_honestly(s: HtssDkgRound1State, threshold: u16) -> bool {
    &&& s.secret_coefficient_bytes@.len() == threshold
    &&& s.package.commitment_bytes@.len() == threshold
    &&& forall|i: int| 0 <= i < threshold ==> is_scalar(#[trigger] s.secret_coefficient_bytes@[i])
        && sv(s.secret_coefficient_bytes@[i]) != 0
        && s.package.commitment_bytes@[i]@ == base_point_mul(s.secret_coefficient_bytes@[i]@)
        && valid_point(s.package.commitment_bytes@[i]@)
        && s.package.commitment_bytes@[i]@.len() == 33
}

/// The share value addressed to `id` among the first `k` packages.
pub open spec fn recipient_total(r2: Seq<HtssDkgRound2View>, id: u16, k: int) -> nat
    decreases k,
{
    if k <= 0 {
        0
    } else {
        recipient_total(r2, id, k - 1) + if r2[k - 1].recipient == id {
            crate::scalar::be_value(r2[k - 1].share_value_bytes)
        } else {
            0
        }
    }
}

/// What the first `k` dealers deal to roster entry `p`, summed.
pub open spec fn dealt_total(states: Seq<HtssDkgRound1State>, p: RankedParticipant, k: int) -> nat
    decreases k,
{
    if k <= 0 {
        0
    } else {
        dealt_total(states, p, k - 1) + dealt_share(scalar_values(states[k - 1].secret_coefficient_bytes@), p)
    }
}

/// The `i`-th coefficients of the first `k` dealers' polynomials, summed.
pub open spec fn coefficient_total(states: Seq<HtssDkgRound1State>, i: int, k: int) -> nat
    decreases k,
{
    if k <= 0 {
        0
    } else {
        coefficient_total(states, i, k - 1) + sv(states[k - 1].secret_coefficient_bytes@[i])
    }
}

/// The sum of the first `k` dealers' polynomials of `t` coefficients.
pub open spec fn summed_polynomial(states: Seq<HtssDkgRound1State>, t: nat, k: int) -> Seq<nat> {
    Seq::new(t, |i: int| coefficient_total(states, i, k))
}

proof fn lemma_recipient_total_prefix(a: Seq<HtssDkgRound2View>, b: Seq<HtssDkgRound2View>, id: u16, k: int)
    requires
        0 <= k <= a.len(),
        k <= b.len(),
        forall|i: int| 0 <= i < k ==> a[i] == b[i],
    ensures
        recipient_total(a, id, k) == recipient_total(b, id, k),
    decreases k,
{
    if k > 0 {
        lemma_recipient_total_prefix(a, b, id, k - 1);
    }
}

proof fn lemma_recipient_total_append(a: Seq<HtssDkgRound2View>, b: Seq<HtssDkgRound2View>, id: u16, k: int)
    requires
        0 <= k <= b.len(),
    ensures
        recipient_total(a + b, id, a.len() + k) == recipient_total(a, id, a.len() as int) + recipient_total(b, id, k),
    decreases k,
{
    if k == 0 {
        lemma_recipient_total_prefix(a + b, a, id, a.len() as int);
    } else {
        lemma_recipient_total_append(a, b, id, k - 1);
        assert((a + b)[a.len() + k - 1] == b[k - 1]);
    }
}

proof fn lemma_recipient_total_block(d: Seq<HtssDkgRound2View>, ps: Seq<RankedParticipant>, j: int, k: int)
    requires
        d.len() == ps.len(),
        0 <= j < ps.len(),
        0 <= k <= d.len(),
        forall|t: int| 0 <= t < d.len() ==> (#[trigger] d[t]).recipient == ps[t].id.0,
        crate::types::all_distinct(crate::types::ranked_ids(ps)),
    ensures
        recipient_total(d, ps[j].id.0, k) == if k > j { crate::scalar::be_value(d[j].share_value_bytes) } else { 0 },
    decreases k,
{
    if k > 0 {
        lemma_recipient_total_block(d, ps, j, k - 1);
        if k - 1 != j {
            let ids = crate::types::ranked_ids(ps);
            assert(ids[k - 1] == ps[k - 1].id.0 && ids[j] == ps[j].id.0);
            assert(ids[k - 1] != ids[j]);
        }
    }
}

proof fn lemma_share_total_push(s: Seq<HtssDkgRound2View>, x: HtssDkgRound2View, k: int)
    requires
        0 <= k <= s.len(),
    ensures
        share_total(s.push(x), k) == share_total(s, k),
    decreases k,
{
    if k > 0 {
        lemma_share_total_push(s, x, k - 1);
    }
}

/// The packages addressed to `id` among the first `t` sum to what the first
/// `t` packages carry for `id`.
proof fn lemma_addressed_total(r2: Seq<HtssDkgRound2View>, id: u16, t: int)
    requires
        0 <= t <= r2.len(),
    ensures
        share_total(addressed_round2(r2.take(t), id), addressed_round2(r2.take(t), id).len() as int)
            == recipient_total(r2, id, t),
    decreases t,
{
    if t > 0 {
        lemma_addressed_total(r2, id, t - 1);
        reveal_with_fuel(Seq::filter, 1);
        assert(r2.take(t).drop_last() =~= r2.take(t - 1));
        let f = addressed_round2(r2.take(t - 1), id);
        if r2[t - 1].recipient == id {
            assert(addressed_round2(r2.take(t), id) == f.push(r2[t - 1]));
            lemma_share_total_push(f, r2[t - 1], f.len() as int);
        } else {
            assert(addressed_round2(r2.take(t), id) == f);
        }
    }
}

proof fn lemma_derivative_sum_add(a: Seq<nat>, b: Seq<nat>, c: Seq<nat>, order: nat, x: nat, k: int)
    requires
        0 <= k <= a.len(),
        a.len() == b.len(),
        a.len() == c.len(),
        forall|i: int| 0 <= i < a.len() ==> #[trigger] c[i] == a[i] + b[i],
    ensures
        crate::scalar::derivative_sum(c, order, x, k) == crate::scalar::derivative_sum(a, order, x, k)
            + crate::scalar::derivative_sum(b, order, x, k),
    decreases k,
{
    if k > 0 {
        lemma_derivative_sum_add(a, b, c, order, x, k - 1);
        let bv = basis_value((k - 1) as nat, order, x);
        let u = a[k - 1];
        let v = b[k - 1];
        assert(c[k - 1] == u + v);
        assert((u + v) * bv == u * bv + v * bv) by (nonlinear_arith);
    }
}

proof fn lemma_derivative_sum_scale(a: Seq<nat>, c: Seq<nat>, m: nat, order: nat, x: nat, k: int)
    requires
        0 <= k <= a.len(),
        a.len() == c.len(),
        forall|i: int| 0 <= i < a.len() ==> #[trigger] c[i] == m * a[i],
    ensures
        crate::scalar::derivative_sum(c, order, x, k) == m * crate::scalar::derivative_sum(a, order, x, k),
    decreases k,
{
    if k > 0 {
        lemma_derivative_sum_scale(a, c, m, order, x, k - 1);
        let bv = basis_value((k - 1) as nat, order, x);
        let u = a[k - 1];
        let prev = crate::scalar::derivative_sum(a, order, x, k - 1);
        assert(c[k - 1] == m * u);
        assert((m * u) * bv == m * (u * bv)) by (nonlinear_arith);
        assert(m * prev + m * (u * bv) == m * (prev + u * bv)) by (nonlinear_arith);
    }
}

proof fn lemma_derivative_sum_zero(a: Seq<nat>, order: nat, x: nat, k: int)
    requires
        0 <= k <= a.len(),
        forall|i: int| 0 <= i < a.len() ==> #[trigger] a[i] == 0,
    ensures
        crate::scalar::derivative_sum(a, order, x, k) == 0,
    decreases k,
{
    if k > 0 {
        lemma_derivative_sum_zero(a, order, x, k - 1);
        assert(a[k - 1] == 0);
        assert(0 * basis_value((k - 1) as nat, order, x) == 0);
    }
}

/// What the first `k` dealers deal to `p` is, modulo the group order, the
/// derivative share of the sum of their polynomials.
proof fn lemma_dealt_total(states: Seq<HtssDkgRound1State>, p: RankedParticipant, t: nat, k: int)
    requires
        0 <= k <= states.len(),
        forall|kk: int| 0 <= kk < states.len() ==> (#[trigger] states[kk]).secret_coefficient_bytes@.len() == t,
    ensures
        dealt_total(states, p, k) % group_order() == crate::scalar::derivative_sum(
            summed_polynomial(states, t, k),
            p.rank.0 as nat,
            p.id.0 as nat,
            t as int,
        ) % (group_order() as int),
    decreases k,
{
    let q = group_order() as int;
    let o = p.rank.0 as nat;
    let x = p.id.0 as nat;
    if k == 0 {
        lemma_derivative_sum_zero(summed_polynomial(states, t, 0), o, x, t as int);
    } else {
        lemma_dealt_total(states, p, t, k - 1);
        let prev = summed_polynomial(states, t, k - 1);
        let cur = summed_polynomial(states, t, k);
        let ck = scalar_values(states[k - 1].secret_coefficient_bytes@);
        assert(states[k - 1].secret_coefficient_bytes@.len() == t);
        assert forall|i: int| 0 <= i < t implies #[trigger] cur[i] == prev[i] + ck[i] by {}
        lemma_derivative_sum_add(prev, ck, cur, o, x, t as int);
        crate::scalar::lemma_derivative_sum_nonneg(ck, o, x, t as int);
        crate::scalar::lemma_derivative_sum_nonneg(prev, o, x, t as int);
        let dp = dealt_total(states, p, k - 1) as int;
        let y = crate::scalar::derivative_sum(ck, o, x, t as int);
        let sp = crate::scalar::derivative_sum(prev, o, x, t as int);
        assert(dealt_share(ck, p) == y % q);
        vstd::arithmetic::div_mod::lemma_add_mod_noop(dp, y % q, q);
        vstd::arithmetic::div_mod::lemma_mod_twice(y, q);
        vstd::arithmetic::div_mod::lemma_add_mod_noop(sp, y, q);
    }
}

/// `(q - 1)·v` is `-v` modulo the group order `q`.
proof fn lemma_times_minus_one(v: int)
    ensures
        (((group_order() - 1) as int) * v) % (group_order() as int) == (0 - v % (group_order() as int)) % (
        group_order() as int),
{
    let q = group_order() as int;
    assert(((q - 1) * v) == q * v + (0 - v)) by (nonlinear_arith);
    vstd::arithmetic::div_mod::lemma_mod_multiples_vanish(v, 0 - v, q);
    vstd::arithmetic::div_mod::lemma_sub_mod_noop(0, v, q);
    assert(0int % q == 0);
}

/// Secrets that agree modulo the group order have the same key.
proof fn lemma_key_point_congruent(u: int, v: int, p_x: Seq<u8>)
    requires
        u % (group_order() as int) == v % (group_order() as int),
        key_point(u, p_x),
    ensures
        key_point(v, p_x),
{
}

proof fn lemma_sum_first_constants(states: Seq<HtssDkgRound1State>, a: Seq<int>, k: int)
    requires
        0 <= k <= a.len(),
        forall|kk: int| 0 <= kk < a.len() ==> #[trigger] a[kk] == sv(states[kk].secret_coefficient_bytes@[0]),
    ensures
        sum_first(a, k) == coefficient_total(states, 0, k),
    decreases k,
{
    if k > 0 {
        lemma_sum_first_constants(states, a, k - 1);
    }
}

/// The shares that every participant finalizes are the derivative shares of
/// the sum of the dealt polynomials, negated when the group key was, whose
/// constant term is the secret of the group key.
proof fn lemma_distributed_keyset(
    set: HtssLocalKeySet,
    states: Seq<HtssDkgRound1State>,
    r1: Seq<HtssDkgRound1View>,
    r2: Seq<HtssDkgRound2View>,
    config: HierarchicalThresholdConfig,
)
    requires
        config.wf(),
        states.len() == config.participants@.len(),
        r1.len() == states.len(),
        forall|kk: int| 0 <= kk < states.len() ==> r1[kk] == (#[trigger] states[kk]).package@ && dealt_honestly(
            states[kk],
            config.threshold,
        ),
        forall|t: int| 0 <= t < config.participants@.len() ==> recipient_total(
            r2,
            (#[trigger] config.participants@[t]).id.0,
            r2.len() as int,
        ) == dealt_total(states, config.participants@[t], states.len() as int),
        keyset_from_rounds(set, r1, r2, config),
        constants_give_group_key(r1),
        forall|j: int| 0 <= j < set.shares@.len() ==> (#[trigger] set.shares@[j]).participant_id
            == config.participants@[j].id && set.shares@[j].rank == config.participants@[j].rank.0,
    ensures
        forall|m: nat| m >= config.threshold ==> #[trigger] crate::htss_sign::shares_of_group_key(
            set.shares@,
            m,
            set.group_key.xonly_public_key@,
        ),
{
    let q = group_order() as int;
    let n = states.len() as int;
    let t = config.threshold as nat;
    let ps = config.participants@;
    assert(1 <= t && t <= n);
    let a = Seq::new(n as nat, |kk: int| sv(states[kk].secret_coefficient_bytes@[0]) as int);
    assert forall|kk: int| 0 <= kk < r1.len() implies (#[trigger] r1[kk]).commitment_bytes.len() > 0
        && r1[kk].commitment_bytes[0] == gmul(a[kk]) by {
        assert(dealt_honestly(states[kk], config.threshold));
        let c0 = states[kk].secret_coefficient_bytes@[0];
        assert(is_scalar(c0) && sv(c0) != 0);
        crate::curve::lemma_gmul_scalar(c0);
        assert(r1[kk].commitment_bytes[0] == states[kk].package.commitment_bytes@[0]@);
    }
    assert(constant_terms(r1, a));
    let (x, neg) = group_key_outcome(r1)->Ok_0;
    lemma_sum_first_constants(states, a, n);
    let big_a = summed_polynomial(states, t, n);
    let a0 = big_a[0] as int;
    assert(a0 == sum_first(a, a.len() as int));
    assert(key_point(if neg { -a0 } else { a0 }, x));
    let c: nat = if neg { (group_order() - 1) as nat } else { 1 };
    let poly = Seq::new(t, |i: int| c * big_a[i]);
    assert forall|i: int| 0 <= i < t implies #[trigger] poly[i] == c * big_a[i] by {}
    // the constant term is the group secret
    lemma_times_minus_one(a0);
    vstd::arithmetic::div_mod::lemma_sub_mod_noop(0, a0, q);
    assert(0int % q == 0);
    if neg {
        lemma_key_point_congruent(-a0, c * a0, x);
    } else {
        assert(c * a0 == a0);
    }
    assert(key_point(poly[0] as int, x));
    // every share is that polynomial's derivative share
    assert(set.group_key.xonly_public_key@ == x) by {
        lemma_finalize_same_group_key(ps[0].id.0, ps[0].id.0, r1, addressed_round2(r2, ps[0].id.0),
            addressed_round2(r2, ps[0].id.0), config);
    }
    assert forall|j: int| 0 <= j < set.shares@.len() implies sv(#[trigger] set.shares@[j].share_value_bytes)
        == derivative_value(poly, set.shares@[j].rank as nat, set.shares@[j].participant_id.0 as nat) by {
        let p = ps[j];
        let id = p.id.0;
        let o = p.rank.0 as nat;
        let r2j = addressed_round2(r2, id);
        assert(r2.take(r2.len() as int) =~= r2);
        lemma_addressed_total(r2, id, r2.len() as int);
        let s = share_total(r2j, r2j.len() as int) % group_order();
        assert(finalize_outcome(id, r1, r2j, config) is Ok);
        assert(sv(set.shares@[j].share_value_bytes) == if neg { ((0 - s) % q) as nat } else { s });
        assert forall|kk: int| 0 <= kk < states.len() implies (#[trigger] states[kk]).secret_coefficient_bytes@.len() == t by {
            assert(dealt_honestly(states[kk], config.threshold));
        }
        lemma_dealt_total(states, p, t, n);
        let d = crate::scalar::derivative_sum(big_a, o, id as nat, t as int);
        assert(s == d % q);
        lemma_derivative_sum_scale(big_a, poly, c, o, id as nat, t as int);
        assert(crate::scalar::derivative_sum(poly, o, id as nat, t as int) == c * d);
        if neg {
            lemma_times_minus_one(d);
        } else {
            assert(c * d == d);
        }
    }
    assert(crate::htss_keys::shares_follow(set.shares@, poly));
    assert forall|m: nat| m >= config.threshold implies #[trigger] crate::htss_sign::shares_of_group_key(
        set.shares@,
        m,
        set.group_key.xonly_public_key@,
    ) by {
        assert(crate::htss_keys::shares_follow(set.shares@, poly) && 1 <= poly.len() <= m && key_point(poly[0] as int, x));
    }
}

/// The packages addressed to the `t`-th roster entry: the `k`-th comes from
/// the `k`-th roster entry, at the recipient's rank, with the derivative
/// share of the `k`-th dealt polynomial.
pub open spec fn dealt_to(
    v: Seq<HtssDkgRound2View>,
    states: Seq<HtssDkgRound1State>,
    ps: Seq<RankedParticipant>,
    t: int,
) -> bool {
    forall|kk: int| 0 <= kk < v.len() ==> (#[trigger] v[kk]).sender == ps[kk].id.0 && v[kk].recipient == ps[t].id.0
        && v[kk].recipient_rank == ps[t].rank.0 && scalar_seq_ok(v[kk].share_value_bytes)
        && crate::scalar::be_value(v[kk].share_value_bytes) == dealt_share(
        scalar_values(states[kk].secret_coefficient_bytes@),
        ps[t],
    )
}

/// The round-1 packages are those the roster entries dealt, in roster order.
pub open spec fn dealt_round1(r1: Seq<HtssDkgRound1View>, states: Seq<HtssDkgRound1State>, c: HierarchicalThresholdConfig) -> bool {
    &&& states.len() == c.participants@.len()
    &&& r1.len() == states.len()
    &&& forall|kk: int| 0 <= kk < states.len() ==> r1[kk] == (#[trigger] states[kk]).package@ && dealt_honestly(
        states[kk],
        c.threshold,
    ) && states[kk].package.participant_id == c.participants@[kk].id && states[kk].package.rank
        == c.participants@[kk].rank.0
}

proof fn lemma_lookup_distinct(r1: Seq<HtssDkgRound1View>, k: int)
    requires
        0 <= k < r1.len(),
        forall|a: int, b: int| 0 <= a < b < r1.len() ==> r1[a].participant_id != r1[b].participant_id,
    ensures
        lookup_round1(r1, r1[k].participant_id) == Some(r1[k]),
    decreases k,
{
    if k > 0 {
        let t = r1.drop_first();
        assert(r1[0].participant_id != r1[k].participant_id);
        assert forall|a: int, b: int| 0 <= a < b < t.len() implies t[a].participant_id != t[b].participant_id by {
            assert(t[a] == r1[a + 1] && t[b] == r1[b + 1]);
        }
        lemma_lookup_distinct(t, k - 1);
        assert(t[k - 1] == r1[k]);
    }
}

proof fn lemma_block_filter(d: Seq<HtssDkgRound2View>, ps: Seq<RankedParticipant>, t: int, k: int)
    requires
        d.len() == ps.len(),
        0 <= t < ps.len(),
        0 <= k <= d.len(),
        forall|u: int| 0 <= u < d.len() ==> (#[trigger] d[u]).recipient == ps[u].id.0,
        crate::types::all_distinct(crate::types::ranked_ids(ps)),
    ensures
        addressed_round2(d.take(k), ps[t].id.0) == if k > t { seq![d[t]] } else { Seq::<HtssDkgRound2View>::empty() },
    decreases k,
{
    reveal_with_fuel(Seq::filter, 1);
    if k > 0 {
        lemma_block_filter(d, ps, t, k - 1);
        assert(d.take(k).drop_last() =~= d.take(k - 1));
        if k - 1 != t {
            let ids = crate::types::ranked_ids(ps);
            assert(ids[k - 1] == ps[k - 1].id.0 && ids[t] == ps[t].id.0);
            assert(ids[k - 1] != ids[t]);
        } else {
            assert(seq![d[t]] =~= Seq::<HtssDkgRound2View>::empty().push(d[t]));
        }
    } else {
        assert(d.take(0) =~= Seq::<HtssDkgRound2View>::empty());
    }
}

proof fn lemma_distinct_roster(c: HierarchicalThresholdConfig, a: int, b: int)
    requires
        c.wf(),
        0 <= a < c.participants@.len(),
        0 <= b < c.participants@.len(),
        a != b,
    ensures
        c.participants@[a].id != c.participants@[b].id,
{
    let ids = crate::types::ranked_ids(c.participants@);
    assert(ids[a] == c.participants@[a].id.0 && ids[b] == c.participants@[b].id.0);
    if a < b {
        assert(ids[a] != ids[b]);
    } else {
        assert(ids[b] != ids[a]);
    }
}

/// The dealt round-1 packages pass the round-1 checks.
proof fn lemma_dealt_round1_set(r1: Seq<HtssDkgRound1View>, states: Seq<HtssDkgRound1State>, c: HierarchicalThresholdConfig)
    requires
        c.wf(),
        dealt_round1(r1, states, c),
    ensures
        round1_set_error(r1, c) is None,
        forall|a: int, b: int| 0 <= a < b < r1.len() ==> r1[a].participant_id != r1[b].participant_id,
{
    let ps = c.participants@;
    let n = r1.len() as int;
    assert forall|a: int, b: int| 0 <= a < b < r1.len() implies r1[a].participant_id != r1[b].participant_id by {
        assert(states[a].package.participant_id == ps[a].id);
        assert(states[b].package.participant_id == ps[b].id);
        lemma_distinct_roster(c, a, b);
    }
    let g = |j: int| round1_item_error(r1, j, c);
    assert forall|j: int| 0 <= j < n implies (#[trigger] g(j)) is None by {
        let p = r1[j];
        assert(dealt_honestly(states[j], c.threshold));
        assert(states[j].package.participant_id == ps[j].id);
        if round1_ids(r1).take(j).contains(p.participant_id) {
            let w = choose|w: int| 0 <= w < j && #[trigger] round1_ids(r1).take(j)[w] == p.participant_id;
            assert(round1_ids(r1).take(j)[w] == r1[w].participant_id);
        }
        crate::types::lemma_rank_in_own(c, j);
        let cs = p.commitment_bytes;
        assert(cs.len() == c.threshold);
        let h = |k: int| commitment_error(cs[k]);
        assert forall|k: int| 0 <= k < cs.len() implies (#[trigger] h(k)) is None by {
            assert(is_scalar(states[j].secret_coefficient_bytes@[k]));
            assert(cs[k] == states[j].package.commitment_bytes@[k]@);
        }
        lemma_first_error_all(h, 0, cs.len() as int);
    }
    lemma_first_error_all(g, 0, n);
}

/// The dealt packages addressed to the `t`-th roster entry pass its
/// round-2 checks and are dealt honestly.
proof fn lemma_dealt_round2_set(
    r1: Seq<HtssDkgRound1View>,
    v: Seq<HtssDkgRound2View>,
    states: Seq<HtssDkgRound1State>,
    c: HierarchicalThresholdConfig,
    t: int,
)
    requires
        c.wf(),
        dealt_round1(r1, states, c),
        0 <= t < c.participants@.len(),
        v.len() == c.participants@.len(),
        dealt_to(v, states, c.participants@, t),
    ensures
        round2_set_error(c.participants@[t].id.0, v, c) is None,
        honest_round2(r1, v),
{
    let ps = c.participants@;
    let n = v.len() as int;
    let me = ps[t].id.0;
    crate::types::lemma_rank_in_own(c, t);
    let f = |j: int| round2_item_error(v, j, me, ps[t].rank.0, c);
    assert forall|j: int| 0 <= j < n implies (#[trigger] f(j)) is None by {
        crate::types::lemma_rank_in_own(c, j);
        assert(v[j].sender == ps[j].id.0);
        if round2_senders(v).take(j).contains(v[j].sender) {
            let w = choose|w: int| 0 <= w < j && #[trigger] round2_senders(v).take(j)[w] == v[j].sender;
            assert(round2_senders(v).take(j)[w] == v[w].sender);
            lemma_distinct_roster(c, w, j);
        }
    }
    lemma_first_error_all(f, 0, n);
    lemma_dealt_round1_set(r1, states, c);
    assert forall|j: int| 0 <= j < v.len() implies #[trigger] honest_item(r1, v[j]) by {
        lemma_lookup_distinct(r1, j);
        assert(r1[j] == states[j].package@);
        assert(dealt_honestly(states[j], c.threshold));
        let a = scalar_values(states[j].secret_coefficient_bytes@);
        let cs = r1[j].commitment_bytes;
        assert forall|i: int| 0 <= i < cs.len() implies (#[trigger] cs[i]).len() == 33 && valid_point(cs[i]) && cs[i]
            == gmul(a[i] as int) by {
            let ci = states[j].secret_coefficient_bytes@[i];
            assert(is_scalar(ci));
            assert(cs[i] == states[j].package.commitment_bytes@[i]@);
            crate::curve::lemma_gmul_scalar(ci);
        }
        assert(commits_to(cs, a));
        assert(v[j].sender == r1[j].participant_id);
        assert(crate::scalar::be_value(v[j].share_value_bytes) == derivative_value(a, v[j].recipient_rank as nat, v[j].recipient as nat));
        assert(scalar_seq_ok(v[j].share_value_bytes));
        assert(lookup_round1(r1, v[j].sender) == Some(r1[j]));
        let q = lookup_round1(r1, v[j].sender)->Some_0;
        assert(commits_to(q.commitment_bytes, a) && v[j].sender == q.participant_id && scalar_seq_ok(v[j].share_value_bytes)
            && crate::scalar::be_value(v[j].share_value_bytes) == derivative_value(a, v[j].recipient_rank as nat, v[j].recipient as nat));
    }
}

/// The dealt constant-term commitments give a group key unless they sum to
/// the point at infinity.
proof fn lemma_dealt_group_key(r1: Seq<HtssDkgRound1View>, states: Seq<HtssDkgRound1State>, c: HierarchicalThresholdConfig)
    requires
        c.wf(),
        dealt_round1(r1, states, c),
    ensures
        group_key_outcome(r1) is Ok || group_key_outcome(r1) == Err::<(Seq<u8>, bool), ErrorView>(
            ErrorView::Protocol("HTSS DKG group key cannot be zero"@),
        ),
{
    let f = |j: int| constant_commitment_error(r1, j);
    assert forall|j: int| 0 <= j < r1.len() implies (#[trigger] f(j)) is None by {
        assert(dealt_honestly(states[j], c.threshold));
        assert(is_scalar(states[j].secret_coefficient_bytes@[0]));
        assert(r1[j].commitment_bytes[0] == states[j].package.commitment_bytes@[0]@);
    }
    lemma_first_error_all(f, 0, r1.len() as int);
}

/// Runs the distributed HTSS DKG for every roster entry in one process:
/// round 1 for all, round 2 from every participant to every participant, then
/// each participant finalizes with the packages addressed to it. All
/// participants must derive the same group key. On a well-formed roster it
/// fails only when the dealt constant terms happen to sum to zero, and the
/// shares it returns are the derivative shares of one polynomial whose
/// constant term is the secret of the group key.
pub fn run_distributed_htss_keygen(config: &HierarchicalThresholdConfig) -> (r: Result<HtssLocalKeySet, DkgKitError>)
    ensures
        r matches Ok(set) ==> set.shares@.len() == config.participants@.len() && set.group_key.verification_key_bytes@.len() == 0
            && forall|j: int| 0 <= j < set.shares@.len() ==> (#[trigger] set.shares@[j]).participant_id
                == config.participants@[j].id && is_scalar(set.shares@[j].share_value_bytes) && rank_in(
                config.participants@,
                config.participants@[j].id.0,
            ) == Some(Rank(set.shares@[j].rank)),
        r matches Ok(set) ==> exists|r1: Seq<HtssDkgRound1View>, r2: Seq<HtssDkgRound2View>|
            #[trigger] keyset_from_rounds(set, r1, r2, *config),
        r matches Ok(set) ==> (config.wf() ==> forall|j: int|
            0 <= j < set.shares@.len() ==> (#[trigger] set.shares@[j]).rank == config.participants@[j].rank.0),
        r matches Ok(set) ==> valid_xonly(set.group_key.xonly_public_key@),
        config.wf() ==> (r is Ok || (r matches Err(e) && e@ == ErrorView::Protocol("HTSS DKG group key cannot be zero"@))),
        r matches Ok(set) ==> (config.wf() ==> forall|m: nat| m >= config.threshold ==> #[trigger] crate::htss_sign::shares_of_group_key(
            set.shares@,
            m,
            set.group_key.xonly_public_key@,
        )),
{
    let n = config.participants.len();
    let mut states: Vec<HtssDkgRound1State> = Vec::new();
    let mut round1_packages: Vec<HtssDkgRound1Package> = Vec::new();
    let mut i: usize = 0;
    while i < n
        invariant
            n == config.participants@.len(),
            i <= n,
            states@.len() == i,
            round1_packages@.len() == i,
            forall|kk: int| 0 <= kk < i ==> round1_packages@[kk]@ == (#[trigger] states@[kk]).package@
                && dealt_honestly(states@[kk], config.threshold)
                && states@[kk].package.participant_id == config.participants@[kk].id
                && (config.wf() ==> states@[kk].package.rank == config.participants@[kk].rank.0),
        decreases n - i,
    {
        proof {
            if config.wf() {
                crate::types::lemma_rank_in_own(*config, i as int);
            }
        }
        let state = htss_dkg_round1(config.participants[i].id, config)?;
        round1_packages.push(state.package.clone());
        states.push(state);
        i += 1;
    }
    let mut round2_packages: Vec<HtssDkgRound2Package> = Vec::new();
    let mut k: usize = 0;
    while k < states.len()
        invariant
            n == config.participants@.len(),
            k <= states@.len(),
            states@.len() == n,
            round1_packages@.len() == n,
            forall|kk: int| 0 <= kk < n ==> round1_packages@[kk]@ == (#[trigger] states@[kk]).package@
                && dealt_honestly(states@[kk], config.threshold)
                && states@[kk].package.participant_id == config.participants@[kk].id
                && (config.wf() ==> states@[kk].package.rank == config.participants@[kk].rank.0),
            config.wf() ==> forall|t: int| 0 <= t < n ==> recipient_total(
                round2_views(round2_packages@),
                (#[trigger] config.participants@[t]).id.0,
                round2_packages@.len() as int,
            ) == dealt_total(states@, config.participants@[t], k as int),
            config.wf() ==> forall|t: int| 0 <= t < n ==> (#[trigger] addressed_round2(
                round2_views(round2_packages@),
                config.participants@[t].id.0,
            )).len() == k && dealt_to(
                addressed_round2(round2_views(round2_packages@), config.participants@[t].id.0),
                states@,
                config.participants@,
                t,
            ),
        decreases states@.len() - k,
    {
        let ghost before = round2_views(round2_packages@);
        proof {
            if config.wf() {
                let r1v = round1_views(round1_packages@);
                assert forall|kk: int| 0 <= kk < n implies r1v[kk] == (#[trigger] states@[kk]).package@ && dealt_honestly(
                    states@[kk],
                    config.threshold,
                ) && states@[kk].package.participant_id == config.participants@[kk].id && states@[kk].package.rank
                    == config.participants@[kk].rank.0 by {
                    assert(r1v[kk] == round1_packages@[kk]@);
                }
                assert(dealt_round1(r1v, states@, *config));
                lemma_dealt_round1_set(r1v, states@, *config);
                assert(round1_ids(r1v)[k as int] == states@[k as int].package.participant_id.0);
                assert(dealt_honestly(states@[k as int], config.threshold));
                assert forall|u: int| 0 <= u < states@[k as int].secret_coefficient_bytes@.len() implies is_scalar(
                    #[trigger] states@[k as int].secret_coefficient_bytes@[u],
                ) by {}
            }
        }
        let mut dealt = htss_dkg_round2(&states[k], round1_packages.as_slice(), config)?;
        let ghost d = round2_views(dealt@);
        round2_packages.append(&mut dealt);
        proof {
            assert(round2_views(round2_packages@) =~= before + d);
            if config.wf() {
                assert forall|t: int| 0 <= t < n implies recipient_total(
                    round2_views(round2_packages@),
                    (#[trigger] config.participants@[t]).id.0,
                    round2_packages@.len() as int,
                ) == dealt_total(states@, config.participants@[t], k + 1) by {
                    let ps = config.participants@;
                    assert(d.len() == n);
                    assert forall|u: int| 0 <= u < d.len() implies (#[trigger] d[u]).recipient == ps[u].id.0 by {}
                    lemma_recipient_total_append(before, d, ps[t].id.0, n as int);
                    lemma_recipient_total_block(d, ps, t, n as int);
                }
                assert forall|t: int| 0 <= t < n implies (#[trigger] addressed_round2(
                    round2_views(round2_packages@),
                    config.participants@[t].id.0,
                )).len() == k + 1 && dealt_to(
                    addressed_round2(round2_views(round2_packages@), config.participants@[t].id.0),
                    states@,
                    config.participants@,
                    t,
                ) by {
                    let ps = config.participants@;
                    let id = ps[t].id.0;
                    assert forall|u: int| 0 <= u < d.len() implies (#[trigger] d[u]).recipient == ps[u].id.0 by {}
                    Seq::filter_distributes_over_add(before, d, |p: HtssDkgRound2View| p.recipient == id);
                    lemma_block_filter(d, ps, t, n as int);
                    assert(d.take(n as int) =~= d);
                    let old_a = addressed_round2(before, id);
                    let new_a = addressed_round2(round2_views(round2_packages@), id);
                    assert(new_a == old_a + seq![d[t]]);
                    assert(new_a[k as int] == d[t]);
                    assert forall|kk: int| 0 <= kk < new_a.len() implies (#[trigger] new_a[kk]).sender == ps[kk].id.0
                        && new_a[kk].recipient == ps[t].id.0 && new_a[kk].recipient_rank == ps[t].rank.0
                        && scalar_seq_ok(new_a[kk].share_value_bytes) && crate::scalar::be_value(
                        new_a[kk].share_value_bytes,
                    ) == dealt_share(scalar_values(states@[kk].secret_coefficient_bytes@), ps[t]) by {
                        if kk < k {
                            assert(new_a[kk] == old_a[kk]);
                        }
                    }
                }
            }
        }
        k += 1;
    }
    let ghost r1 = round1_views(round1_packages@);
    let ghost r2 = round2_views(round2_packages@);
    proof {
        if config.wf() {
            assert forall|kk: int| 0 <= kk < n implies r1[kk] == (#[trigger] states@[kk]).package@ && dealt_honestly(
                states@[kk],
                config.threshold,
            ) && states@[kk].package.participant_id == config.participants@[kk].id && states@[kk].package.rank
                == config.participants@[kk].rank.0 by {
                assert(r1[kk] == round1_packages@[kk]@);
            }
            assert(dealt_round1(r1, states@, *config));
        }
    }
    let mut group_key: Option<GroupKey> = None;
    let mut shares: Vec<HtssLocalKeyShare> = Vec::new();
    let mut j: usize = 0;
    while j < n
        invariant
            n == config.participants@.len(),
            j <= n,
            r1 == round1_views(round1_packages@),
            r2 == round2_views(round2_packages@),
            states@.len() == n,
            round1_packages@.len() == n,
            forall|kk: int| 0 <= kk < n ==> round1_packages@[kk]@ == (#[trigger] states@[kk]).package@
                && dealt_honestly(states@[kk], config.threshold),
            config.wf() ==> forall|t: int| 0 <= t < n ==> recipient_total(
                r2,
                (#[trigger] config.participants@[t]).id.0,
                r2.len() as int,
            ) == dealt_total(states@, config.participants@[t], n as int),
            j > 0 ==> constants_give_group_key(r1),
            config.wf() ==> dealt_round1(r1, states@, *config),
            config.wf() ==> forall|t: int| 0 <= t < n ==> (#[trigger] addressed_round2(r2, config.participants@[t].id.0)).len()
                == n && dealt_to(addressed_round2(r2, config.participants@[t].id.0), states@, config.participants@, t),
            shares@.len() == j,
            group_key matches Some(g) ==> (g.verification_key_bytes@.len() == 0 && valid_xonly(g.xonly_public_key@)
                && (group_key_outcome(r1) matches Ok((x, _)) && g.xonly_public_key@ == x)),
            j > 0 ==> group_key is Some,
            forall|t: int| 0 <= t < j ==> (#[trigger] shares@[t]).participant_id == config.participants@[t].id
                && is_scalar(shares@[t].share_value_bytes) && rank_in(
                config.participants@,
                config.participants@[t].id.0,
            ) == Some(Rank(shares@[t].rank)),
            forall|t: int| 0 <= t < j ==> (group_key matches Some(g) && #[trigger] finalize_outcome(
                config.participants@[t].id.0, r1, addressed_round2(r2, config.participants@[t].id.0), *config)
                == Ok::<(Seq<u8>, u16, nat), ErrorView>((g.xonly_public_key@, shares@[t].rank, sv(shares@[t].share_value_bytes)))),
        decreases n - j,
    {
        let participant = config.participants[j].id;
        let mut for_participant: Vec<HtssDkgRound2Package> = Vec::new();
        let ghost keep = |p: HtssDkgRound2View| p.recipient == participant.0;
        let mut t: usize = 0;
        while t < round2_packages.len()
            invariant
                t <= round2_packages@.len(),
                r2 == round2_views(round2_packages@),
                keep == (|p: HtssDkgRound2View| p.recipient == participant.0),
                round2_views(for_participant@) == r2.take(t as int).filter(keep),
            decreases round2_packages@.len() - t,
        {
            proof {
                reveal_with_fuel(Seq::filter, 1);
                assert(r2.take(t + 1).drop_last() =~= r2.take(t as int));
                assert(r2[t as int] == round2_packages@[t as int]@);
            }
            if round2_packages[t].recipient.0 == participant.0 {
                let c = round2_packages[t].clone();
                for_participant.push(c);
                assert(round2_views(for_participant@) =~= round2_views(for_participant@.drop_last()).push(c@));
            }
            t += 1;
        }
        proof {
            assert(r2.take(round2_packages@.len() as int) =~= r2);
        }
        proof {
            if config.wf() {
                crate::types::lemma_rank_in_own(*config, j as int);
                lemma_dealt_round1_set(r1, states@, *config);
                assert(addressed_round2(r2, participant.0).len() == n);
                lemma_dealt_round2_set(r1, addressed_round2(r2, participant.0), states@, *config, j as int);
                lemma_dealt_group_key(r1, states@, *config);
                assert(round2_views(for_participant@) == addressed_round2(r2, participant.0));
            }
        }
        let (participant_group_key, share) = finalize_htss_dkg(
            participant,
            round1_packages.as_slice(),
            for_participant.as_slice(),
            config,
        )?;
        match &group_key {
            Some(existing) => {
                if !crate::requests::bytes32_eq(&existing.xonly_public_key, &participant_group_key.xonly_public_key) {
                    return Err(DkgKitError::Protocol(String::from_str("HTSS DKG participants derived different group keys")));
                }
            },
            None => {
                group_key = Some(participant_group_key);
            },
        }
        shares.push(share);
        j += 1;
    }
    match group_key {
        Some(g) => {
            let set = HtssLocalKeySet { group_key: g, shares };
            let res: Result<HtssLocalKeySet, DkgKitError> = Ok(set);
            assert(keyset_from_rounds(res->Ok_0, r1, r2, *config));
            proof {
                if config.wf() {
                    assert forall|j: int| 0 <= j < n implies (#[trigger] res->Ok_0.shares@[j]).rank
                        == config.participants@[j].rank.0 by {
                        crate::types::lemma_rank_in_own(*config, j);
                    }
                    assert forall|kk: int| 0 <= kk < n implies r1[kk] == (#[trigger] states@[kk]).package@
                        && dealt_honestly(states@[kk], config.threshold) by {
                        assert(r1[kk] == round1_packages@[kk]@);
                    }
                    lemma_distributed_keyset(res->Ok_0, states@, r1, r2, *config);
                }
            }
            res
        },
        None => Err(DkgKitError::Protocol(String::from_str("missing HTSS DKG group key"))),
    }
}

} // verus!
