//! FROST key generation and signing sessions for one participant, on top of
//! schnorr_fun's simplepedpop key generation and FROST signing.
use vstd::prelude::*;
use crate::frost_backend::{
    aggregated_shared_key, clone_coordinator, coordinator_add_input, coordinator_finish, coordinator_inputs,
    coordinator_receive_share, coordinator_size, coordinator_threshold, decode_secret_scalar,
    encode_secret_scalar, keygen_input_accepted, keygen_input_canonical, new_coordinator,
    paired_share_of, secret_scalar_bincode, secret_scalar_decoded, AddFailure, ShareFailure,
};
use crate::htss_dkg::{error_num, error_num2, error_num3};
use crate::packages::{NoncePackage, NonceView, Round1Package, Round1View, Round2Package, Round2View, SignatureSharePackage, SignatureShareView};
use crate::signers::signer_ids;
use crate::frost_backend::{combined_signature, share_pairs, signature_share_decoded, frost_signature_share, nonce_list_ok, nonce_pairs, paired_share_decodes, paired_share_index, paired_share_xonly, public_nonce_decoded, public_nonce_valid, shared_key_decodes, shared_key_threshold, shared_key_xonly};
use crate::requests::{AggregateSignature, DkgSessionConfig, GroupKey, LocalKeyShare, SigningRequest};
use crate::curve::bip340_verifies;
use crate::scalar::{be_bytes, be_value, group_order, is_scalar, scalar_add, scalar_zero, sv};
use crate::text::decimal;
use crate::types::{DkgKitError, ErrorView, ParticipantId};
use schnorr_fun::frost::chilldkg::simplepedpop::Coordinator;

verus! {

/// `256^n`.
pub open spec fn pow256(n: nat) -> nat
    decreases n,
{
    if n == 0 {
        1
    } else {
        256 * pow256((n - 1) as nat)
    }
}

/// Big-endian bytes split into a head and a tail of `len - k` bytes.
pub proof fn lemma_be_value_split(s: Seq<u8>, k: int)
    requires
        0 <= k <= s.len(),
    ensures
        be_value(s) == be_value(s.take(k)) * pow256((s.len() - k) as nat) + be_value(s.skip(k)),
        be_value(s.skip(k)) < pow256((s.len() - k) as nat),
    decreases s.len() - k,
{
    if k == s.len() {
        assert(s.take(k) =~= s);
        assert(s.skip(k) =~= Seq::<u8>::empty());
        assert(pow256(0) == 1);
        assert(be_value(Seq::<u8>::empty()) == 0);
        assert(be_value(s) * 1 == be_value(s));
    } else {
        let p = s.drop_last();
        lemma_be_value_split(p, k);
        assert(s.take(k) =~= p.take(k));
        assert(s.skip(k).drop_last() =~= p.skip(k));
        let a = be_value(p.take(k));
        let b = be_value(p.skip(k));
        let q = pow256((p.len() - k) as nat);
        let l = s.last() as nat;
        assert(pow256((s.len() - k) as nat) == 256 * q);
        assert(be_value(s) == be_value(p) * 256 + l);
        assert(be_value(s.skip(k)) == b * 256 + l);
        assert(be_value(p) == a * q + b);
        assert(be_value(p) * 256 + l == (a * q + b) * 256 + l);
        assert((a * q + b) * 256 + l == a * (256 * q) + (b * 256 + l)) by (nonlinear_arith);
        assert(be_value(s) == a * pow256((s.len() - k) as nat) + be_value(s.skip(k)));
        assert(b * 256 + l < 256 * q) by (nonlinear_arith)
            requires
                b < q,
                l < 256,
        ;
    }
}

/// The participant number in the last four bytes of a scalar.
pub open spec fn low_word(bytes: [u8; 32]) -> nat {
    be_value(bytes@.subrange(28, 32))
}

/// A scalar below `2^32` is its last four bytes.
pub proof fn lemma_low_word(bytes: [u8; 32])
    requires
        be_value(bytes@) < 0x1_0000_0000,
    ensures
        low_word(bytes) == be_value(bytes@),
{
    lemma_be_value_split(bytes@, 28);
    assert(pow256(4) == 0x1_0000_0000) by {
        reveal_with_fuel(pow256, 5);
    }
    assert(bytes@.skip(28) =~= bytes@.subrange(28, 32));
    let t = be_value(bytes@.take(28));
    if t > 0 {
        assert(t * pow256(4) >= pow256(4)) by (nonlinear_arith)
            requires
                t >= 1,
        ;
        assert(false);
    }
    assert(t == 0);
    assert(t * pow256(4) == 0) by (nonlinear_arith)
        requires
            t == 0,
    ;
}

/// The participant whose share index the scalar bytes hold.
fn participant_id_from_scalar_bytes(bytes: &[u8; 32]) -> (r: Result<ParticipantId, DkgKitError>)
    ensures
        low_word(*bytes) > 65535 ==> r == Err::<ParticipantId, DkgKitError>(DkgKitError::InvalidParticipantId(65535)),
        low_word(*bytes) == 0 ==> r == Err::<ParticipantId, DkgKitError>(DkgKitError::InvalidParticipantId(0)),
        1 <= low_word(*bytes) <= 65535 ==> r == Ok::<ParticipantId, DkgKitError>(ParticipantId(low_word(*bytes) as u16)),
{
    let value: u32 = (bytes[28] as u32) * 0x100_0000 + (bytes[29] as u32) * 0x1_0000 + (bytes[30] as u32) * 0x100
        + bytes[31] as u32;
    proof {
        let w = bytes@.subrange(28, 32);
        reveal_with_fuel(be_value, 5);
        assert(w.drop_last().drop_last().drop_last().drop_last() =~= Seq::<u8>::empty());
        assert(low_word(*bytes) == value);
    }
    if value > 0xffff {
        return Err(DkgKitError::InvalidParticipantId(u16::MAX));
    }
    ParticipantId::new(value as u16)
}

/// The bincode encoding of some secret scalar.
pub open spec fn is_share_encoding(b: Seq<u8>) -> bool {
    exists|s: [u8; 32]| is_scalar(s) && b == secret_scalar_bincode(s@)
}

/// A secret share waiting to be sent to its recipient.
pub struct PendingSecretShare {
    pub recipient: ParticipantId,
    pub bytes: Vec<u8>,
}

/// What a session keeps between rounds.
struct DkgRuntime {
    pending_secret_shares: Vec<PendingSecretShare>,
    round1_packages: Vec<Round1Package>,
}

/// One participant's FROST key generation (simplepedpop).
pub struct FrostDkgSession {
    pub config: DkgSessionConfig,
    runtime: Option<DkgRuntime>,
}

/// The recipient numbers and share bytes of pending shares.
pub open spec fn pending_views(v: Seq<PendingSecretShare>) -> Seq<(u16, Seq<u8>)> {
    v.map_values(|s: PendingSecretShare| (s.recipient.0, s.bytes@))
}

/// The views of round-1 packages.
pub open spec fn round1_list(v: Seq<Round1Package>) -> Seq<Round1View> {
    v.map_values(|p: Round1Package| p@)
}

/// The first refusal of a round-1 package set: a count other than the
/// participant count, then, in order, a participant past the count or one
/// seen before.
pub open spec fn round1_set_error(ids: Seq<u16>, participants: u16) -> Option<ErrorView> {
    if ids.len() != participants {
        Some(ErrorView::ParticipantCountMismatch { expected: participants, actual: ids.len() as usize })
    } else {
        round1_scan(ids, participants, 0)
    }
}

pub open spec fn round1_scan(ids: Seq<u16>, participants: u16, i: int) -> Option<ErrorView>
    decreases ids.len() - i,
{
    if i < 0 || i >= ids.len() {
        None
    } else if ids[i] > participants {
        Some(ErrorView::ParticipantOutOfRange { participant_id: ids[i], participants })
    } else if ids.take(i).contains(ids[i]) {
        Some(ErrorView::DuplicateParticipantId(ids[i]))
    } else {
        round1_scan(ids, participants, i + 1)
    }
}

/// The participant numbers of round-1 packages.
pub open spec fn round1_ids(v: Seq<Round1Package>) -> Seq<u16> {
    v.map_values(|p: Round1Package| p.participant_id.0)
}

pub open spec fn msg_round1_first() -> Seq<char> {
    "round1 must be called before round2"@
}

pub open spec fn msg_rounds_first() -> Seq<char> {
    "round1 and round2 must be called before finalize"@
}

/// The error of the finalize checks that come before any decoding: no
/// runtime, or a round-1 count other than the participant count.
pub open spec fn msg_missing_round1(have: nat, need: u16) -> Seq<char> {
    "missing round1 packages: have "@ + decimal(have) + ", need "@ + decimal(need as nat)
}

pub open spec fn msg_missing_round2(id: u16, have: nat, need: u16) -> Seq<char> {
    "missing round2 shares for participant "@ + decimal(id as nat) + ": have "@ + decimal(have) + ", need "@
        + decimal(need as nat)
}

/// The round-2 packages that carry pending shares from `sender`.
pub open spec fn outgoing(sender: u16, pending: Seq<(u16, Seq<u8>)>) -> Seq<Round2View> {
    pending.map_values(|p: (u16, Seq<u8>)| Round2View { sender, recipient: p.0, bytes: p.1 })
}

/// The views of round-2 packages.
pub open spec fn round2_list(v: Seq<Round2Package>) -> Seq<Round2View> {
    v.map_values(|p: Round2Package| p@)
}

/// The errors that aggregating key generation inputs can end in: a package
/// that does not decode, an input the coordinator refuses, or a missing input.
pub open spec fn keygen_failure(e: ErrorView) -> bool {
    ||| e is Serialization
    ||| exists|t: Seq<char>| e == ErrorView::Protocol("invalid round1 input: "@ + t)
    ||| e == ErrorView::Protocol("coordinator missing round1 inputs"@)
}

/// The simplepedpop contributor index of participant `id`: `id - 1`.
pub open spec fn contributor_of(id: u16) -> u32 {
    if id == 0 {
        u32::MAX
    } else {
        (id - 1) as u32
    }
}

/// The inputs a coordinator holds after taking the packages in order: each
/// package's contributor index to the bincode encoding of its input.
pub open spec fn keygen_map(ps: Seq<Round1View>) -> Map<u32, Seq<u8>>
    decreases ps.len(),
{
    if ps.len() == 0 {
        Map::empty()
    } else {
        keygen_map(ps.drop_last()).insert(contributor_of(ps.last().participant_id), keygen_input_canonical(ps.last().bytes))
    }
}

/// No two packages come from the same participant.
pub open spec fn distinct_senders(ps: Seq<Round1View>) -> bool {
    forall|i: int, j: int| 0 <= i < j < ps.len() ==> (#[trigger] ps[i]).participant_id != (#[trigger] ps[j]).participant_id
}

/// With distinct senders, the coordinator holds, at each sender's
/// contributor index, that sender's input, and nothing else.
pub proof fn lemma_keygen_map_entries(ps: Seq<Round1View>)
    requires
        distinct_senders(ps),
    ensures
        forall|i: int| 0 <= i < ps.len() ==> keygen_map(ps).dom().contains(#[trigger] contributor_of(ps[i].participant_id))
            && keygen_map(ps)[contributor_of(ps[i].participant_id)] == keygen_input_canonical(ps[i].bytes),
        forall|k: u32| #[trigger] keygen_map(ps).dom().contains(k) ==> exists|i: int|
            0 <= i < ps.len() && contributor_of(ps[i].participant_id) == k,
    decreases ps.len(),
{
    if ps.len() > 0 {
        let front = ps.drop_last();
        assert(distinct_senders(front)) by {
            assert forall|i: int, j: int| 0 <= i < j < front.len() implies (#[trigger] front[i]).participant_id
                != (#[trigger] front[j]).participant_id by {
                assert(front[i] == ps[i] && front[j] == ps[j]);
            }
        }
        lemma_keygen_map_entries(front);
        let last = ps.last();
        assert forall|i: int| 0 <= i < ps.len() implies keygen_map(ps).dom().contains(#[trigger] contributor_of(ps[i].participant_id))
            && keygen_map(ps)[contributor_of(ps[i].participant_id)] == keygen_input_canonical(ps[i].bytes) by {
            if i < ps.len() - 1 {
                assert(front[i] == ps[i]);
                assert(ps[i].participant_id != last.participant_id);
                assert(contributor_of(ps[i].participant_id) != contributor_of(last.participant_id));
            }
        }
        assert forall|k: u32| #[trigger] keygen_map(ps).dom().contains(k) implies exists|i: int|
            0 <= i < ps.len() && contributor_of(ps[i].participant_id) == k by {
            if k != contributor_of(last.participant_id) {
                assert(keygen_map(front).dom().contains(k));
                let i = choose|i: int| 0 <= i < front.len() && contributor_of(front[i].participant_id) == k;
                assert(ps[i] == front[i]);
            } else {
                assert(contributor_of(ps[ps.len() - 1].participant_id) == k);
            }
        }
    }
}

/// Sessions that hold the same round-1 packages, in whatever order, hand
/// their coordinators the same inputs, and so derive the same group key.
pub proof fn lemma_same_packages_same_group_key(p: Seq<Round1View>, q: Seq<Round1View>)
    requires
        distinct_senders(p),
        distinct_senders(q),
        forall|x: Round1View| p.contains(x) <==> q.contains(x),
    ensures
        keygen_map(p) == keygen_map(q),
        aggregated_shared_key(keygen_map(p)) == aggregated_shared_key(keygen_map(q)),
{
    lemma_keygen_map_entries(p);
    lemma_keygen_map_entries(q);
    assert forall|k: u32| #[trigger] keygen_map(p).dom().contains(k) implies keygen_map(q).dom().contains(k)
        && keygen_map(p)[k] == keygen_map(q)[k] by {
        let i = choose|i: int| 0 <= i < p.len() && contributor_of(p[i].participant_id) == k;
        assert(p.contains(p[i]));
        let j = choose|j: int| 0 <= j < q.len() && q[j] == p[i];
        assert(contributor_of(q[j].participant_id) == k);
    }
    assert forall|k: u32| #[trigger] keygen_map(q).dom().contains(k) implies keygen_map(p).dom().contains(k) by {
        let j = choose|j: int| 0 <= j < q.len() && contributor_of(q[j].participant_id) == k;
        assert(q.contains(q[j]));
        let i = choose|i: int| 0 <= i < p.len() && p[i] == q[j];
        assert(contributor_of(p[i].participant_id) == k);
    }
    assert(keygen_map(p) =~= keygen_map(q));
}

/// The share bytes of the round-2 packages addressed to `me`, in order.
pub open spec fn share_bytes_to(v: Seq<Round2View>, me: u16) -> Seq<Seq<u8>>
    decreases v.len(),
{
    if v.len() == 0 {
        Seq::empty()
    } else {
        let rest = share_bytes_to(v.drop_last(), me);
        if v.last().recipient == me {
            rest.push(v.last().bytes)
        } else {
            rest
        }
    }
}

/// The sum of the scalars bincode decodes from the byte strings.
pub open spec fn decoded_total(bs: Seq<Seq<u8>>) -> nat
    decreases bs.len(),
{
    if bs.len() == 0 {
        0
    } else {
        decoded_total(bs.drop_last()) + be_value(secret_scalar_decoded(bs.last())->0)
    }
}

/// The secret share `me` collects: the sum of the decoded shares addressed
/// to it, modulo the group order, as 32 big-endian bytes.
pub open spec fn finalize_secret(v: Seq<Round2View>, me: u16) -> Seq<u8> {
    be_bytes(decoded_total(share_bytes_to(v, me)) % group_order(), 32)
}

/// The coordinator takes every package's input in turn: each comes from an
/// expected contributor that has none yet and is accepted for the threshold.
pub open spec fn inputs_accepted(held: Seq<Round1View>, size: u16, threshold: u16) -> bool {
    forall|k: int| 0 <= k < held.len() ==> {
        let from = #[trigger] contributor_of(held[k].participant_id);
        &&& from < size
        &&& !keygen_map(held.take(k)).dom().contains(from)
        &&& keygen_input_accepted(threshold as nat, held[k].bytes)
    }
}

/// When `finalize` succeeds, once its checks of the session have passed:
/// one share from each participant reaches `me`, each decodes, the
/// coordinator takes every round-1 input and has all of them, the
/// aggregated key exists, and `receive_share` pairs the collected secret.
pub open spec fn finalize_succeeds(held: Seq<Round1View>, need: u16, threshold: u16, me: u16, r2: Seq<Round2View>) -> bool {
    let senders = senders_to(r2, me);
    let bs = share_bytes_to(r2, me);
    &&& first_repeat(senders) is None
    &&& senders.len() == need
    &&& forall|k: int| 0 <= k < bs.len() ==> (#[trigger] secret_scalar_decoded(bs[k])) is Some
    &&& inputs_accepted(held, need, threshold)
    &&& forall|i: u32| i < need ==> #[trigger] keygen_map(held).dom().contains(i)
    &&& aggregated_shared_key(keygen_map(held)) is Some
    &&& paired_share_of(keygen_map(held), need as nat, threshold as nat, me, finalize_secret(r2, me)) is Some
}

/// The share bytes addressed to `me` in a prefix of the packages are a
/// prefix of those in all of them.
pub proof fn lemma_share_bytes_prefix(v: Seq<Round2View>, me: u16, j: int)
    requires
        0 <= j <= v.len(),
    ensures
        share_bytes_to(v.take(j), me).len() <= share_bytes_to(v, me).len(),
        forall|k: int| 0 <= k < share_bytes_to(v.take(j), me).len() ==> share_bytes_to(v.take(j), me)[k]
            == #[trigger] share_bytes_to(v, me)[k],
    decreases v.len() - j,
{
    if j == v.len() {
        assert(v.take(j) =~= v);
    } else {
        lemma_share_bytes_prefix(v, me, j + 1);
        assert(v.take(j + 1).drop_last() =~= v.take(j));
    }
}

/// A package whose input the coordinator refuses, after taking those before
/// it, breaks the acceptance of the whole list.
pub proof fn lemma_refused_input(views: Seq<Round1View>, i: int, before: Map<u32, Seq<u8>>, size: u16, threshold: u16)
    requires
        0 <= i < views.len(),
        before == keygen_map(views.take(i)),
        !(contributor_of(views[i].participant_id) < size && !before.dom().contains(contributor_of(views[i].participant_id))
            && keygen_input_accepted(threshold as nat, views[i].bytes)),
    ensures
        !inputs_accepted(views, size, threshold),
{
    let f = contributor_of(views[i].participant_id);
}

/// The senders of the round-2 packages addressed to `me`, in order.
pub open spec fn senders_to(v: Seq<Round2View>, me: u16) -> Seq<u16>
    decreases v.len(),
{
    if v.len() == 0 {
        Seq::empty()
    } else {
        let rest = senders_to(v.drop_last(), me);
        if v.last().recipient == me {
            rest.push(v.last().sender)
        } else {
            rest
        }
    }
}

/// The first sender that repeats among `ids`.
pub open spec fn first_repeat(ids: Seq<u16>) -> Option<u16>
    decreases ids.len(),
{
    if ids.len() == 0 {
        None
    } else if first_repeat(ids.drop_last()) is Some {
        first_repeat(ids.drop_last())
    } else if ids.drop_last().contains(ids.last()) {
        Some(ids.last())
    } else {
        None
    }
}

/// Once a prefix of the packages repeats a sender, the whole list repeats it first.
pub proof fn lemma_first_repeat_stable(v: Seq<Round2View>, me: u16, j: int)
    requires
        0 <= j <= v.len(),
        first_repeat(senders_to(v.take(j), me)) is Some,
    ensures
        first_repeat(senders_to(v, me)) == first_repeat(senders_to(v.take(j), me)),
    decreases v.len() - j,
{
    if j == v.len() {
        assert(v.take(j) =~= v);
    } else {
        assert(v.take(j + 1).drop_last() =~= v.take(j));
        let s = senders_to(v.take(j + 1), me);
        if v[j].recipient == me {
            assert(s.drop_last() =~= senders_to(v.take(j), me));
        }
        assert(first_repeat(s) == first_repeat(senders_to(v.take(j), me)));
        lemma_first_repeat_stable(v, me, j + 1);
    }
}

/// The first problem, in package order, among the round-2 packages addressed
/// to `me`: a sender that already sent one (its id), or a share that does not
/// decode (`None`).
pub open spec fn round2_problem(v: Seq<Round2View>, me: u16) -> Option<Option<u16>>
    decreases v.len(),
{
    if v.len() == 0 {
        None
    } else if round2_problem(v.drop_last(), me) is Some {
        round2_problem(v.drop_last(), me)
    } else if v.last().recipient != me {
        None
    } else if senders_to(v.drop_last(), me).contains(v.last().sender) {
        Some(Some(v.last().sender))
    } else if secret_scalar_decoded(v.last().bytes) is None {
        Some(None)
    } else {
        None
    }
}

/// A problem among the first `j` packages is the first problem of them all.
pub proof fn lemma_round2_problem_stable(v: Seq<Round2View>, me: u16, j: int)
    requires
        0 <= j <= v.len(),
        round2_problem(v.take(j), me) is Some,
    ensures
        round2_problem(v, me) == round2_problem(v.take(j), me),
    decreases v.len() - j,
{
    if j == v.len() {
        assert(v.take(j) =~= v);
    } else {
        assert(v.take(j + 1).drop_last() =~= v.take(j));
        lemma_round2_problem_stable(v, me, j + 1);
    }
}

/// The integer sum of scalars.
pub open spec fn scalar_total(v: Seq<[u8; 32]>) -> nat
    decreases v.len(),
{
    if v.len() == 0 {
        0
    } else {
        scalar_total(v.drop_last()) + sv(v.last())
    }
}

/// The sum of the secret inputs modulo the group order (simplepedpop's
/// `collect_secret_inputs`, without the index).
fn sum_secret_inputs(shares: &Vec<[u8; 32]>) -> (r: [u8; 32])
    requires
        forall|k: int| 0 <= k < shares@.len() ==> is_scalar(#[trigger] shares@[k]),
    ensures
        is_scalar(r),
        sv(r) == scalar_total(shares@) % group_order(),
{
    let mut sum = scalar_zero();
    let mut i: usize = 0;
    while i < shares.len()
        invariant
            i <= shares@.len(),
            is_scalar(sum),
            sv(sum) == scalar_total(shares@.take(i as int)) % group_order(),
            forall|k: int| 0 <= k < shares@.len() ==> is_scalar(#[trigger] shares@[k]),
        decreases shares@.len() - i,
    {
        let next = scalar_add(sum, shares[i]);
        proof {
            assert(shares@.take(i + 1).drop_last() =~= shares@.take(i as int));
            vstd::arithmetic::div_mod::lemma_add_mod_noop(
                scalar_total(shares@.take(i as int)) as int,
                sv(shares@[i as int]) as int,
                group_order() as int,
            );
            vstd::arithmetic::div_mod::lemma_mod_twice(sv(shares@[i as int]) as int, group_order() as int);
            vstd::arithmetic::div_mod::lemma_small_mod(sv(shares@[i as int]), group_order());
        }
        sum = next;
        i += 1;
    }
    assert(shares@.take(i as int) =~= shares@);
    sum
}

/// Whether `x` occurs in the list.
fn contains_id(list: &Vec<u16>, x: u16) -> (r: bool)
    ensures
        r == list@.contains(x),
{
    let mut i: usize = 0;
    while i < list.len()
        invariant
            i <= list@.len(),
            forall|k: int| 0 <= k < i ==> list@[k] != x,
        decreases list@.len() - i,
    {
        if list[i] == x {
            return true;
        }
        i += 1;
    }
    false
}

impl FrostDkgSession {
    /// The session's configuration.
    pub closed spec fn cfg(&self) -> DkgSessionConfig {
        self.config
    }

    /// Whether round 1 has run.
    pub closed spec fn started(&self) -> bool {
        self.runtime is Some
    }

    /// The round-1 packages the session holds.
    pub closed spec fn round1_held(&self) -> Seq<Round1View> {
        match self.runtime {
            Some(rt) => round1_list(rt.round1_packages@),
            None => Seq::empty(),
        }
    }

    /// The shares round 1 prepared for the other participants.
    pub closed spec fn pending(&self) -> Seq<(u16, Seq<u8>)> {
        match self.runtime {
            Some(rt) => pending_views(rt.pending_secret_shares@),
            None => Seq::empty(),
        }
    }

    pub fn new(config: DkgSessionConfig) -> (s: Self)
        ensures
            s.cfg() == config,
            !s.started(),
    {
        FrostDkgSession { config, runtime: None }
    }

    /// Generates this participant's key generation input, and the secret
    /// shares for each participant `1..=participants`, which the session keeps
    /// for round 2 (with its own round-1 package).
    pub fn round1(&mut self) -> (r: Result<Round1Package, DkgKitError>)
        requires
            old(self).cfg().threshold.threshold >= 1,
            old(self).cfg().participant_id.0 >= 1,
        ensures
            final(self).cfg() == old(self).cfg(),
            r is Err ==> final(self).started() == old(self).started() && final(self).round1_held() == old(self).round1_held()
                && final(self).pending() == old(self).pending(),
            r matches Err(e) ==> e@ is Serialization,
            r matches Ok(p) ==> {
                &&& p.participant_id == old(self).cfg().participant_id
                &&& keygen_input_accepted(old(self).cfg().threshold.threshold as nat, p.bytes@)
                &&& keygen_input_canonical(p.bytes@) == p.bytes@
                &&& final(self).started()
                &&& final(self).round1_held() == seq![p@]
                &&& final(self).pending().len() == old(self).cfg().threshold.participants
                &&& forall|i: int| 0 <= i < final(self).pending().len() ==> (#[trigger] final(self).pending()[i]).0 == i + 1
                    && is_share_encoding(final(self).pending()[i].1)
            },
    {
        let participants = self.config.threshold.participants;
        let mut receivers: Vec<u32> = Vec::new();
        let mut next: u16 = 0;
        while next < participants
            invariant
                next <= participants,
                receivers@.len() == next,
                forall|i: int| 0 <= i < next ==> #[trigger] receivers@[i] == i + 1,
            decreases participants - next,
        {
            receivers.push(next as u32 + 1);
            next += 1;
        }
        let (bytes, shares) = match crate::frost_backend::contribute_keygen_input(
            self.config.threshold.threshold,
            &receivers,
            self.config.participant_id.0 as u32 - 1,
        ) {
            Ok(v) => v,
            Err(e) => return Err(DkgKitError::Serialization(e)),
        };
        let package = Round1Package { participant_id: self.config.participant_id, bytes };
        let mut pending: Vec<PendingSecretShare> = Vec::new();
        let mut i: usize = 0;
        while i < shares.len()
            invariant
                i <= shares@.len(),
                shares@.len() == participants,
                forall|k: int| 0 <= k < participants ==> be_value((#[trigger] shares@[k]).0@) == k + 1 && is_scalar(shares@[k].1),
                pending@.len() == i,
                forall|k: int| 0 <= k < i ==> (#[trigger] pending_views(pending@)[k]).0 == k + 1
                    && is_share_encoding(pending_views(pending@)[k].1),
            decreases shares@.len() - i,
        {
            let (index, share) = shares[i];
            proof {
                lemma_low_word(index);
            }
            let recipient = participant_id_from_scalar_bytes(&index)?;
            let share_bytes = match encode_secret_scalar(share) {
                Ok(b) => b,
                Err(e) => return Err(DkgKitError::Serialization(e)),
            };
            let ghost prev = pending@;
            pending.push(PendingSecretShare { recipient, bytes: share_bytes });
            proof {
                assert(pending_views(pending@) =~= pending_views(prev).push((recipient.0, share_bytes@)));
                assert(pending_views(pending@)[i as int].1 == secret_scalar_bincode(share@));
            }
            i += 1;
        }
        let kept = package.clone();
        let mut round1_packages: Vec<Round1Package> = Vec::new();
        round1_packages.push(kept);
        proof {
            assert(round1_list(round1_packages@) =~= seq![package@]);
        }
        let ghost pv = pending_views(pending@);
        self.runtime = Some(DkgRuntime { pending_secret_shares: pending, round1_packages });
        assert(self.pending() == pv);
        assert(self.round1_held() == seq![package@]);
        assert(self.pending().len() == participants);
        let res: Result<Round1Package, DkgKitError> = Ok(package);
        assert(res->Ok_0 == package);
        res
    }

    /// Checks the round-1 package set: the participant count, then each
    /// package's participant is in range and new.
    fn validate_round1_set(&self, round1_packages: &[Round1Package]) -> (r: Result<(), DkgKitError>)
        ensures
            match round1_set_error(round1_ids(round1_packages@), self.cfg().threshold.participants) {
                Some(e) => r matches Err(x) && x@ == e,
                None => r is Ok,
            },
    {
        let participants = self.config.threshold.participants;
        let ghost ids = round1_ids(round1_packages@);
        if round1_packages.len() != participants as usize {
            return Err(DkgKitError::ParticipantCountMismatch { expected: participants, actual: round1_packages.len() });
        }
        let mut seen: Vec<u16> = Vec::new();
        let mut i: usize = 0;
        while i < round1_packages.len()
            invariant
                ids == round1_ids(round1_packages@),
                participants == self.cfg().threshold.participants,
                round1_packages@.len() == participants,
                i <= round1_packages@.len(),
                seen@ == ids.take(i as int),
                round1_scan(ids, participants, 0) == round1_scan(ids, participants, i as int),
            decreases round1_packages@.len() - i,
        {
            let id = round1_packages[i].participant_id.0;
            assert(ids[i as int] == id);
            if id > participants {
                assert(round1_scan(ids, participants, i as int) == Some(
                    ErrorView::ParticipantOutOfRange { participant_id: id, participants },
                ));
                return Err(DkgKitError::ParticipantOutOfRange { participant_id: id, participants });
            }
            if contains_id(&seen, id) {
                assert(round1_scan(ids, participants, i as int) == Some(ErrorView::DuplicateParticipantId(id)));
                return Err(DkgKitError::DuplicateParticipantId(id));
            }
            seen.push(id);
            assert(seen@ =~= ids.take(i + 1));
            i += 1;
        }
        Ok(())
    }

    /// Hands the key generation inputs of the packages to a simplepedpop
    /// coordinator; package `p` is contributor `p - 1`.
    fn collect_keygen_inputs(&self, round1_packages: &[Round1Package]) -> (r: Result<Coordinator, DkgKitError>)
        requires
            self.cfg().threshold.threshold >= 1,
        ensures
            r matches Err(e) ==> keygen_failure(e@),
            r is Ok <==> inputs_accepted(round1_list(round1_packages@), self.cfg().threshold.participants,
                self.cfg().threshold.threshold),
            r matches Ok(c) ==> coordinator_inputs(c) == keygen_map(round1_list(round1_packages@))
                && coordinator_size(c) == self.cfg().threshold.participants
                && coordinator_threshold(c) == self.cfg().threshold.threshold,
    {
        let mut coordinator = new_coordinator(self.config.threshold.threshold, self.config.threshold.participants);
        let ghost views = round1_list(round1_packages@);
        let mut i: usize = 0;
        while i < round1_packages.len()
            invariant
                i <= round1_packages@.len(),
                views == round1_list(round1_packages@),
                coordinator_inputs(coordinator) == keygen_map(views.take(i as int)),
                coordinator_size(coordinator) == self.cfg().threshold.participants,
                coordinator_threshold(coordinator) == self.cfg().threshold.threshold,
                inputs_accepted(views.take(i as int), self.cfg().threshold.participants, self.cfg().threshold.threshold),
            decreases round1_packages@.len() - i,
        {
            let package = &round1_packages[i];
            let id = package.participant_id.0;
            let from: u32 = if id == 0 { u32::MAX } else { id as u32 - 1 };
            proof {
                assert(views.take(i + 1).drop_last() =~= views.take(i as int));
                assert(views.take(i + 1).last() == package@);
            }
            let ghost before = coordinator_inputs(coordinator);
            match coordinator_add_input(&mut coordinator, from, package.bytes.as_slice()) {
                Ok(()) => {
                    proof {
                        let next = views.take(i + 1);
                        assert forall|k: int| 0 <= k < next.len() implies {
                            let f = #[trigger] contributor_of(next[k].participant_id);
                            &&& f < self.cfg().threshold.participants
                            &&& !keygen_map(next.take(k)).dom().contains(f)
                            &&& keygen_input_accepted(self.cfg().threshold.threshold as nat, next[k].bytes)
                        } by {
                            if k < i {
                                assert(next.take(k) =~= views.take(i as int).take(k));
                                assert(next[k] == views.take(i as int)[k]);
                            } else {
                                assert(next.take(k) =~= views.take(i as int));
                            }
                        }
                    }
                },
                Err(AddFailure::Decode(e)) => {
                    proof {
                        lemma_refused_input(views, i as int, before, self.cfg().threshold.participants, self.cfg().threshold.threshold);
                    }
                    return Err(DkgKitError::Serialization(e));
                },
                Err(AddFailure::Refused(e)) => {
                    proof {
                        lemma_refused_input(views, i as int, before, self.cfg().threshold.participants, self.cfg().threshold.threshold);
                    }
                    let mut text = String::from_str("invalid round1 input: ");
                    text.append(e.as_str());
                    return Err(DkgKitError::Protocol(text));
                },
            }
            i += 1;
        }
        assert(views.take(i as int) =~= views);
        Ok(coordinator)
    }

    /// Aggregates the key generation inputs of the packages with a simplepedpop
    /// coordinator, and yields the shared key of the aggregate, or why it has
    /// none.
    fn aggregate_keygen_inputs(&self, round1_packages: &[Round1Package]) -> (r: Result<
        Result<([u8; 32], Vec<u8>), ShareFailure>,
        DkgKitError,
    >)
        requires
            self.cfg().threshold.threshold >= 1,
        ensures
            r matches Err(e) ==> keygen_failure(e@),
            r matches Ok(Ok((x, b))) ==> aggregated_shared_key(keygen_map(round1_list(round1_packages@))) == Some((x@, b@)),
    {
        let coordinator = self.collect_keygen_inputs(round1_packages)?;
        match coordinator_finish(coordinator) {
            Some(key) => Ok(key),
            None => Err(DkgKitError::Protocol(String::from_str("coordinator missing round1 inputs"))),
        }
    }

    /// Checks and keeps the round-1 packages, then hands out the shares that
    /// round 1 prepared, one package per recipient.
    pub fn round2(&mut self, round1_packages: &[Round1Package]) -> (r: Result<Vec<Round2Package>, DkgKitError>)
        requires
            old(self).cfg().threshold.threshold >= 1,
        ensures
            final(self).cfg() == old(self).cfg(),
            final(self).pending() == old(self).pending(),
            final(self).started() == old(self).started(),
            match round1_set_error(round1_ids(round1_packages@), old(self).cfg().threshold.participants) {
                Some(e) => r matches Err(x) && x@ == e && final(self).round1_held() == old(self).round1_held(),
                None => if !old(self).started() {
                    r matches Err(x) && x@ == ErrorView::Protocol(msg_round1_first())
                } else {
                    &&& final(self).round1_held() == round1_list(round1_packages@)
                    &&& r matches Ok(v) ==> round2_list(v@) == outgoing(old(self).cfg().participant_id.0, old(self).pending())
                    &&& r matches Err(x) ==> keygen_failure(x@)
                },
            },
    {
        self.validate_round1_set(round1_packages)?;
        let mut rt = match self.runtime.take() {
            Some(rt) => rt,
            None => return Err(DkgKitError::Protocol(String::from_str("round1 must be called before round2"))),
        };
        let mut kept: Vec<Round1Package> = Vec::new();
        let mut i: usize = 0;
        while i < round1_packages.len()
            invariant
                i <= round1_packages@.len(),
                round1_list(kept@) == round1_list(round1_packages@.take(i as int)),
            decreases round1_packages@.len() - i,
        {
            let ghost prev = kept@;
            kept.push(round1_packages[i].clone());
            proof {
                assert(round1_list(kept@) =~= round1_list(prev).push(round1_packages@[i as int]@));
                assert(round1_packages@.take(i + 1) =~= round1_packages@.take(i as int).push(round1_packages@[i as int]));
                assert(round1_list(round1_packages@.take(i + 1)) =~= round1_list(round1_packages@.take(i as int)).push(round1_packages@[i as int]@));
            }
            i += 1;
        }
        assert(round1_packages@.take(i as int) =~= round1_packages@);
        rt.round1_packages = kept;
        let sender = self.config.participant_id;
        let mut out: Vec<Round2Package> = Vec::new();
        let mut j: usize = 0;
        while j < rt.pending_secret_shares.len()
            invariant
                j <= rt.pending_secret_shares@.len(),
                round2_list(out@) == outgoing(sender.0, pending_views(rt.pending_secret_shares@.take(j as int))),
            decreases rt.pending_secret_shares@.len() - j,
        {
            let share = &rt.pending_secret_shares[j];
            let ghost prev = out@;
            out.push(Round2Package { sender, recipient: share.recipient, bytes: share.bytes.clone() });
            proof {
                let ps = rt.pending_secret_shares@;
                assert(ps.take(j + 1) =~= ps.take(j as int).push(ps[j as int]));
                assert(pending_views(ps.take(j + 1)) =~= pending_views(ps.take(j as int)).push(pending_views(ps)[j as int]));
                assert(round2_list(out@) =~= round2_list(prev).push(out@[j as int]@));
                assert(outgoing(sender.0, pending_views(ps.take(j + 1))) =~= outgoing(sender.0, pending_views(ps.take(j as int))).push(out@[j as int]@));
            }
            j += 1;
        }
        assert(rt.pending_secret_shares@.take(j as int) =~= rt.pending_secret_shares@);
        self.runtime = Some(rt);
        let _aggregate = self.aggregate_keygen_inputs(round1_packages)?;
        Ok(out)
    }

    /// The checks of `finalize` that come before any share is read.
    pub open spec fn finalize_precheck(&self) -> Option<ErrorView> {
        if !self.started() {
            Some(ErrorView::Protocol(msg_rounds_first()))
        } else if self.round1_held().len() != self.cfg().threshold.participants {
            Some(ErrorView::Protocol(msg_missing_round1(self.round1_held().len(), self.cfg().threshold.participants)))
        } else {
            None
        }
    }

    /// Collects the secret shares addressed to this participant, checks them
    /// against the aggregated round-1 inputs, and returns the paired secret
    /// share with the group key.
    pub fn finalize(&self, round2_packages: &[Round2Package]) -> (r: Result<LocalKeyShare, DkgKitError>)
        requires
            self.cfg().threshold.threshold >= 1,
            self.cfg().participant_id.0 >= 1,
        ensures
            ({
                let me = self.cfg().participant_id.0;
                let senders = senders_to(round2_list(round2_packages@), me);
                let need = self.cfg().threshold.participants;
                match self.finalize_precheck() {
                    Some(e) => r matches Err(x) && x@ == e,
                    None => {
                        &&& match round2_problem(round2_list(round2_packages@), me) {
                            Some(Some(d)) => r matches Err(x) && x@ == ErrorView::DuplicateParticipantId(d),
                            Some(None) => r matches Err(x) && x@ is Serialization,
                            None => senders.len() != need ==> (r matches Err(x) && x@ == ErrorView::Protocol(
                                msg_missing_round2(me, senders.len(), need))),
                        }
                        &&& r is Ok <==> finalize_succeeds(self.round1_held(), need, self.cfg().threshold.threshold, me,
                            round2_list(round2_packages@))
                        &&& r matches Ok(share) ==> share.participant_id == self.cfg().participant_id
                            && first_repeat(senders) is None && senders.len() == need
                            && aggregated_shared_key(keygen_map(self.round1_held()))
                                == Some((share.group_key.xonly_public_key@, share.group_key.verification_key_bytes@))
                            && Some(share.secret_share_bytes@) == paired_share_of(keygen_map(self.round1_held()), need as nat,
                                self.cfg().threshold.threshold as nat, me, finalize_secret(round2_list(round2_packages@), me))
                    },
                }
            }),
    {
        let rt = match &self.runtime {
            Some(rt) => rt,
            None => return Err(DkgKitError::Protocol(String::from_str("round1 and round2 must be called before finalize"))),
        };
        let need = self.config.threshold.participants;
        if rt.round1_packages.len() != need as usize {
            return Err(error_num2("missing round1 packages: have ", rt.round1_packages.len() as u64, ", need ", need as u64));
        }
        let me = self.config.participant_id;
        let ghost views = round2_list(round2_packages@);
        let mut seen: Vec<u16> = Vec::new();
        let mut shares: Vec<[u8; 32]> = Vec::new();
        let mut i: usize = 0;
        while i < round2_packages.len()
            invariant
                views == round2_list(round2_packages@),
                me == self.cfg().participant_id,
                need == self.cfg().threshold.participants,
                self.finalize_precheck() is None,
                i <= round2_packages@.len(),
                seen@ == senders_to(views.take(i as int), me.0),
                first_repeat(seen@) is None,
                shares@.len() == seen@.len(),
                forall|k: int| 0 <= k < shares@.len() ==> is_scalar(#[trigger] shares@[k]),
                share_bytes_to(views.take(i as int), me.0).len() == shares@.len(),
                scalar_total(shares@) == decoded_total(share_bytes_to(views.take(i as int), me.0)),
                forall|k: int| 0 <= k < shares@.len() ==> (#[trigger] secret_scalar_decoded(
                    share_bytes_to(views.take(i as int), me.0)[k])) is Some,
                round2_problem(views.take(i as int), me.0) is None,
            decreases round2_packages@.len() - i,
        {
            let package = &round2_packages[i];
            proof {
                assert(views.take(i + 1).drop_last() =~= views.take(i as int));
                assert(views.take(i + 1).last() == package@);
            }
            if package.recipient.0 == me.0 {
                if contains_id(&seen, package.sender.0) {
                    proof {
                        assert(senders_to(views.take(i + 1), me.0) == seen@.push(package.sender.0));
                        assert(seen@.push(package.sender.0).drop_last() =~= seen@);
                        lemma_first_repeat_stable(views, me.0, i + 1);
                        assert(views.take(round2_packages@.len() as int) =~= views);
                        assert(round2_problem(views.take(i + 1), me.0) == Some(Some(package.sender.0)));
                        lemma_round2_problem_stable(views, me.0, i + 1);
                    }
                    return Err(DkgKitError::DuplicateParticipantId(package.sender.0));
                }
                let share = match decode_secret_scalar(package.bytes.as_slice()) {
                    Ok(s) => s,
                    Err(e) => {
                        proof {
                            let bs = share_bytes_to(views, me.0);
                            let k = shares@.len() as int;
                            assert(share_bytes_to(views.take(i + 1), me.0) == share_bytes_to(views.take(i as int), me.0).push(package.bytes@));
                            lemma_share_bytes_prefix(views, me.0, i + 1);
                            assert(bs[k] == package.bytes@);
                            assert(secret_scalar_decoded(bs[k]) is None);
                            assert(round2_problem(views.take(i + 1), me.0) == Some(None::<u16>));
                            lemma_round2_problem_stable(views, me.0, i + 1);
                        }
                        return Err(DkgKitError::Serialization(e));
                    },
                };
                proof {
                    assert(seen@.push(package.sender.0).drop_last() =~= seen@);
                    assert(shares@.push(share).drop_last() =~= shares@);
                    assert(share_bytes_to(views.take(i + 1), me.0) == share_bytes_to(views.take(i as int), me.0).push(package.bytes@));
                    assert(share_bytes_to(views.take(i + 1), me.0).drop_last() =~= share_bytes_to(views.take(i as int), me.0));
                    assert forall|k: int| 0 <= k < shares@.len() + 1 implies (#[trigger] secret_scalar_decoded(
                        share_bytes_to(views.take(i + 1), me.0)[k])) is Some by {
                        if k < shares@.len() {
                            assert(share_bytes_to(views.take(i + 1), me.0)[k] == share_bytes_to(views.take(i as int), me.0)[k]);
                        }
                    }
                }
                seen.push(package.sender.0);
                shares.push(share);
            }
            i += 1;
        }
        assert(views.take(i as int) =~= views);
        if shares.len() != need as usize {
            return Err(error_num3(
                "missing round2 shares for participant ",
                me.0 as u64,
                ": have ",
                shares.len() as u64,
                ", need ",
                need as u64,
            ));
        }
        let coordinator = self.collect_keygen_inputs(rt.round1_packages.as_slice())?;
        let shared_key = match coordinator_finish(clone_coordinator(&coordinator)) {
            Some(key) => key,
            None => return Err(DkgKitError::Protocol(String::from_str("coordinator missing round1 inputs"))),
        };
        let secret = sum_secret_inputs(&shares);
        proof {
            crate::scalar::lemma_scalar_bytes(secret);
            assert(secret@ == finalize_secret(views, me.0));
            assert(rt.round1_packages@.len() == need);
        }
        let secret_share_bytes = match coordinator_receive_share(coordinator, me.0, secret) {
            Ok(b) => b,
            Err(ShareFailure::Incomplete) => return Err(DkgKitError::Protocol(String::from_str("coordinator missing round1 inputs"))),
            Err(ShareFailure::Rejected(e)) => {
                let mut text = String::from_str("share verification failed: ");
                text.append(e.as_str());
                return Err(DkgKitError::Protocol(text));
            },
            Err(ShareFailure::Zero) => return Err(DkgKitError::Protocol(String::from_str("paired share is zero"))),
            Err(ShareFailure::Encoding(e)) => return Err(DkgKitError::Serialization(e)),
        };
        let (xonly_public_key, verification_key_bytes) = match shared_key {
            Ok(v) => v,
            Err(ShareFailure::Encoding(e)) => return Err(DkgKitError::Serialization(e)),
            Err(_) => return Err(DkgKitError::Protocol(String::from_str("shared key is zero"))),
        };
        Ok(LocalKeyShare {
            participant_id: me,
            group_key: GroupKey { xonly_public_key, verification_key_bytes },
            secret_share_bytes,
        })
    }
}


// ---------------------------------------------------------------- signing

pub open spec fn msg_key_mismatch() -> Seq<char> {
    "local share group key does not match signing request"@
}

pub open spec fn msg_not_signer(id: u16) -> Seq<char> {
    "participant "@ + decimal(id as nat) + " is not in signer set"@
}

pub open spec fn msg_nonce_not_signer(id: u16) -> Seq<char> {
    "nonce participant "@ + decimal(id as nat) + " is not in signer set"@
}

pub open spec fn msg_nonce_set(have: nat, need: nat) -> Seq<char> {
    "nonce set mismatch: have "@ + decimal(have) + ", need "@ + decimal(need)
}

pub open spec fn msg_share_not_signer(id: u16) -> Seq<char> {
    "signature share participant "@ + decimal(id as nat) + " is not in signer set"@
}

pub open spec fn msg_share_set(have: nat, need: nat) -> Seq<char> {
    "signature share set mismatch: have "@ + decimal(have) + ", need "@ + decimal(need)
}

/// The participant numbers of nonce packages.
pub open spec fn nonce_ids(v: Seq<NonceView>) -> Seq<u16> {
    v.map_values(|n: NonceView| n.participant_id)
}

/// The first nonce, from position `i` on, that belongs to another session,
/// comes from outside the signer set, or repeats a participant.
pub open spec fn nonce_scan(ns: Seq<NonceView>, session: Seq<char>, signers: Seq<u16>, i: int) -> Option<ErrorView>
    decreases ns.len() - i,
{
    if i < 0 || i >= ns.len() {
        None
    } else if ns[i].signing_session_id != session {
        Some(ErrorView::Protocol("nonce session mismatch"@))
    } else if !signers.contains(ns[i].participant_id) {
        Some(ErrorView::Protocol(msg_nonce_not_signer(ns[i].participant_id)))
    } else if nonce_ids(ns.take(i)).contains(ns[i].participant_id) {
        Some(ErrorView::DuplicateParticipantId(ns[i].participant_id))
    } else {
        nonce_scan(ns, session, signers, i + 1)
    }
}

/// The share ids of signature share packages.
pub open spec fn share_ids(v: Seq<SignatureShareView>) -> Seq<u16> {
    v.map_values(|p: SignatureShareView| p.participant_id)
}

/// The first share, from position `i` on, from another session, from outside
/// the signer set, or repeating a participant.
pub open spec fn share_scan(ss: Seq<SignatureShareView>, session: Seq<char>, signers: Seq<u16>, i: int) -> Option<ErrorView>
    decreases ss.len() - i,
{
    if i < 0 || i >= ss.len() {
        None
    } else if ss[i].signing_session_id != session {
        Some(ErrorView::Protocol("signature share session mismatch"@))
    } else if !signers.contains(ss[i].participant_id) {
        Some(ErrorView::Protocol(msg_share_not_signer(ss[i].participant_id)))
    } else if share_ids(ss.take(i)).contains(ss[i].participant_id) {
        Some(ErrorView::DuplicateParticipantId(ss[i].participant_id))
    } else {
        share_scan(ss, session, signers, i + 1)
    }
}

/// How a signature share set is refused: the scan, then a count other than
/// the signer count.
pub open spec fn share_set_error(ss: Seq<SignatureShareView>, session: Seq<char>, signers: Seq<u16>) -> Option<ErrorView> {
    if share_scan(ss, session, signers, 0) is Some {
        share_scan(ss, session, signers, 0)
    } else if ss.len() != signers.len() {
        Some(ErrorView::Protocol(msg_share_set(ss.len(), signers.len())))
    } else {
        None
    }
}

/// The public nonce bytes of the first nonce package of `id`.
pub open spec fn own_nonce(ns: Seq<NonceView>, id: u16) -> Option<Seq<u8>>
    decreases ns.len(),
{
    if ns.len() == 0 {
        None
    } else if own_nonce(ns.drop_last(), id) is Some {
        own_nonce(ns.drop_last(), id)
    } else if ns.last().participant_id == id {
        Some(ns.last().public_nonce_bytes)
    } else {
        None
    }
}

pub open spec fn nonce_list(v: Seq<NoncePackage>) -> Seq<NonceView> {
    v.map_values(|n: NoncePackage| n@)
}

pub open spec fn share_list(v: Seq<SignatureSharePackage>) -> Seq<SignatureShareView> {
    v.map_values(|n: SignatureSharePackage| n@)
}

/// Every signer is numbered from one.
pub open spec fn signers_numbered(signers: Seq<ParticipantId>) -> bool {
    forall|k: int| 0 <= k < signers.len() ==> (#[trigger] signers[k]).0 >= 1
}

/// Whether the signer set holds `id`.
fn signer_set_contains(signers: &Vec<ParticipantId>, id: u16) -> (r: bool)
    ensures
        r == signer_ids(signers@).contains(id),
{
    let mut i: usize = 0;
    while i < signers.len()
        invariant
            i <= signers@.len(),
            forall|k: int| 0 <= k < i ==> signers@[k].0 != id,
        decreases signers@.len() - i,
    {
        if signers[i].0 == id {
            assert(signer_ids(signers@)[i as int] == id);
            return true;
        }
        i += 1;
    }
    false
}

/// Checks the nonces against the request and decodes them: the participant
/// number and 66-byte public nonce of each, in order.
fn nonces_to_map(nonces: &[NoncePackage], request: &SigningRequest) -> (r: Result<Vec<(u32, [u8; 66])>, DkgKitError>)
    requires
        signers_numbered(request.signer_set@),
    ensures
        ({
            let ns = nonce_list(nonces@);
            let signers = signer_ids(request.signer_set@);
            &&& nonce_scan(ns, request.session_id@, signers, 0) matches Some(e) ==> (r matches Err(x)
                && (x@ == e || x@ is Serialization))
            &&& (nonce_scan(ns, request.session_id@, signers, 0) is None && ns.len() != signers.len()) ==> (r matches Err(x)
                && (x@ == ErrorView::Protocol(msg_nonce_set(ns.len(), signers.len())) || x@ is Serialization))
            &&& r is Ok <==> nonce_scan(ns, request.session_id@, signers, 0) is None && ns.len() == signers.len()
                && forall|k: int| 0 <= k < ns.len() ==> (#[trigger] public_nonce_decoded(ns[k].public_nonce_bytes)) is Some
            &&& r matches Ok(v) ==> {
                &&& nonce_scan(ns, request.session_id@, signers, 0) is None
                &&& v@.len() == ns.len() == signers.len()
                &&& nonce_list_ok(v@)
                &&& forall|i: int| 0 <= i < v@.len() ==> (#[trigger] v@[i]).0 == ns[i].participant_id
                &&& nonce_pairs(v@) == nonce_table(ns)
            }
        }),
{
    let ghost ns = nonce_list(nonces@);
    let ghost signers = signer_ids(request.signer_set@);
    let mut out: Vec<(u32, [u8; 66])> = Vec::new();
    let mut ids: Vec<u16> = Vec::new();
    let mut i: usize = 0;
    while i < nonces.len()
        invariant
            ns == nonce_list(nonces@),
            signers == signer_ids(request.signer_set@),
            signers_numbered(request.signer_set@),
            i <= nonces@.len(),
            ids@ == nonce_ids(ns.take(i as int)),
            out@.len() == i,
            forall|k: int| 0 <= k < i ==> (#[trigger] out@[k]).0 == ns[k].participant_id && public_nonce_valid(out@[k].1@)
                && Some(out@[k].1@) == public_nonce_decoded(ns[k].public_nonce_bytes),
            nonce_scan(ns, request.session_id@, signers, 0) == nonce_scan(ns, request.session_id@, signers, i as int),
            forall|a: int, b: int| 0 <= a < b < i ==> (#[trigger] ns[a]).participant_id != (#[trigger] ns[b]).participant_id,
            forall|k: int| 0 <= k < i ==> signers.contains((#[trigger] ns[k]).participant_id),
        decreases nonces@.len() - i,
    {
        let nonce = &nonces[i];
        assert(ns[i as int] == nonce@);
        if !crate::text::str_eq(nonce.signing_session_id.0.as_str(), request.session_id.0.as_str()) {
            return Err(DkgKitError::Protocol(String::from_str("nonce session mismatch")));
        }
        let id = nonce.participant_id.0;
        if !signer_set_contains(&request.signer_set, id) {
            let mut text = String::from_str("nonce participant ");
            crate::text::push_decimal(&mut text, id as u64);
            text.append(" is not in signer set");
            return Err(DkgKitError::Protocol(text));
        }
        let public = match crate::frost_backend::decode_public_nonce(nonce.public_nonce_bytes.as_slice()) {
            Ok(n) => n,
            Err(e) => {
                assert(public_nonce_decoded(ns[i as int].public_nonce_bytes) is None);
                return Err(DkgKitError::Serialization(e));
            },
        };
        if contains_id(&ids, id) {
            return Err(DkgKitError::DuplicateParticipantId(id));
        }
        proof {
            assert(nonce_ids(ns.take(i + 1)) =~= nonce_ids(ns.take(i as int)).push(id));
            assert forall|a: int| 0 <= a < i implies ns[a].participant_id != id by {
                assert(nonce_ids(ns.take(i as int))[a] == ns[a].participant_id);
            }
        }
        ids.push(id);
        out.push((id as u32, public));
        i += 1;
    }
    if out.len() != request.signer_set.len() {
        let mut text = String::from_str("nonce set mismatch: have ");
        crate::text::push_decimal(&mut text, out.len() as u64);
        text.append(", need ");
        crate::text::push_decimal(&mut text, request.signer_set.len() as u64);
        return Err(DkgKitError::Protocol(text));
    }
    proof {
        assert forall|k: int| 0 <= k < out@.len() implies (#[trigger] out@[k]).0 >= 1 by {
            let j = choose|j: int| 0 <= j < signers.len() && signers[j] == ns[k].participant_id;
            assert(request.signer_set@[j].0 >= 1);
        }
        assert(nonce_pairs(out@) =~= nonce_table(ns));
        assert forall|k: int| 0 <= k < ns.len() implies (#[trigger] public_nonce_decoded(ns[k].public_nonce_bytes)) is Some by {
            assert(Some(out@[k].1@) == public_nonce_decoded(ns[k].public_nonce_bytes));
        }
    }
    Ok(out)
}

/// The public nonces of the packages as schnorr_fun reads them: each
/// participant number with the decoded nonce bytes.
pub open spec fn nonce_table(ns: Seq<NonceView>) -> Seq<(u32, Seq<u8>)> {
    ns.map_values(|n: NonceView| (n.participant_id as u32, public_nonce_decoded(n.public_nonce_bytes)->0))
}

/// When `sign_share` succeeds, once its checks of the request, the signer
/// and the kept nonce have passed: the share and the request's key decode,
/// the nonces are one per signer of the session and decode, they reach the
/// key's threshold, the share belongs to the key, its index is among the
/// nonce parties, and schnorr_fun's signature share encodes.
pub open spec fn sign_share_succeeds(req: SigningRequest, share: Seq<u8>, ns: Seq<NonceView>, secret_nonce: Seq<u8>) -> bool {
    let key = req.group_key.verification_key_bytes@;
    let signers = signer_ids(req.signer_set@);
    &&& paired_share_decodes(share)
    &&& shared_key_decodes(key)
    &&& nonce_scan(ns, req.session_id@, signers, 0) is None
    &&& ns.len() == signers.len()
    &&& forall|k: int| 0 <= k < ns.len() ==> (#[trigger] public_nonce_decoded(ns[k].public_nonce_bytes)) is Some
    &&& ns.len() >= shared_key_threshold(key)
    &&& paired_share_xonly(share) == shared_key_xonly(key)
    &&& exists|k: int| 0 <= k < ns.len() && be_bytes(#[trigger] ns[k].participant_id as nat, 32) == paired_share_index(share)
    &&& frost_signature_share(key, share, nonce_table(ns), req.message_digest@, secret_nonce) is Some
}

/// Checks a signature share set against the request.
fn validate_signature_share_set(shares: &[SignatureSharePackage], request: &SigningRequest) -> (r: Result<(), DkgKitError>)
    ensures
        match share_set_error(share_list(shares@), request.session_id@, signer_ids(request.signer_set@)) {
            Some(e) => r matches Err(x) && x@ == e,
            None => r is Ok,
        },
{
    let ghost ss = share_list(shares@);
    let ghost signers = signer_ids(request.signer_set@);
    let mut ids: Vec<u16> = Vec::new();
    let mut i: usize = 0;
    while i < shares.len()
        invariant
            ss == share_list(shares@),
            signers == signer_ids(request.signer_set@),
            i <= shares@.len(),
            ids@ == share_ids(ss.take(i as int)),
            share_scan(ss, request.session_id@, signers, 0) == share_scan(ss, request.session_id@, signers, i as int),
        decreases shares@.len() - i,
    {
        let share = &shares[i];
        assert(ss[i as int] == share@);
        if !crate::text::str_eq(share.signing_session_id.0.as_str(), request.session_id.0.as_str()) {
            return Err(DkgKitError::Protocol(String::from_str("signature share session mismatch")));
        }
        let id = share.participant_id.0;
        if !signer_set_contains(&request.signer_set, id) {
            let mut text = String::from_str("signature share participant ");
            crate::text::push_decimal(&mut text, id as u64);
            text.append(" is not in signer set");
            return Err(DkgKitError::Protocol(text));
        }
        if contains_id(&ids, id) {
            return Err(DkgKitError::DuplicateParticipantId(id));
        }
        assert(share_ids(ss.take(i + 1)) =~= share_ids(ss.take(i as int)).push(id));
        ids.push(id);
        i += 1;
    }
    assert(ids@.len() == ss.len()) by {
        assert(ss.take(i as int) =~= ss);
    }
    if ids.len() != request.signer_set.len() {
        let mut text = String::from_str("signature share set mismatch: have ");
        crate::text::push_decimal(&mut text, ids.len() as u64);
        text.append(", need ");
        crate::text::push_decimal(&mut text, request.signer_set.len() as u64);
        return Err(DkgKitError::Protocol(text));
    }
    Ok(())
}


/// One signer's FROST signing session for a request.
pub struct FrostSigningSession {
    pub request: SigningRequest,
    nonce_runtime: Option<[u8; 64]>,
}

impl FrostSigningSession {
    /// The request being signed.
    pub closed spec fn req(&self) -> SigningRequest {
        self.request
    }

    /// Whether a secret nonce waits to be used.
    pub closed spec fn holds_nonce(&self) -> bool {
        self.nonce_runtime is Some
    }

    /// The kept secret nonce's bytes (empty when none is kept).
    pub closed spec fn kept_nonce(&self) -> Seq<u8> {
        match self.nonce_runtime {
            Some(n) => n@,
            None => Seq::empty(),
        }
    }

    /// A kept secret nonce is one that schnorr_fun can read back.
    pub closed spec fn wf(&self) -> bool {
        self.nonce_runtime matches Some(n) ==> crate::frost_backend::secret_nonce_valid(n@)
    }

    pub fn new(request: SigningRequest) -> (s: Self)
        ensures
            s.req() == request,
            !s.holds_nonce(),
            s.wf(),
    {
        FrostSigningSession { request, nonce_runtime: None }
    }

    /// Draws this signer's nonce pair for the request and keeps its secret
    /// half; the package carries the public half.
    pub fn nonce(&mut self, local_share: &LocalKeyShare) -> (r: Result<NoncePackage, DkgKitError>)
        requires
            old(self).wf(),
        ensures
            final(self).wf(),
            final(self).req() == old(self).req(),
            !(local_share.group_key.xonly_public_key == old(self).req().group_key.xonly_public_key
                && local_share.group_key.verification_key_bytes@ == old(self).req().group_key.verification_key_bytes@)
                ==> (r matches Err(e) && e@ == ErrorView::Protocol(msg_key_mismatch())),
            r is Err ==> final(self).holds_nonce() == old(self).holds_nonce(),
            (r is Err && local_share.group_key.xonly_public_key == old(self).req().group_key.xonly_public_key
                && local_share.group_key.verification_key_bytes@ == old(self).req().group_key.verification_key_bytes@)
                ==> (r matches Err(e) && e is Serialization),
            r matches Ok(p) ==> {
                &&& p.participant_id == local_share.participant_id
                &&& p.signing_session_id@ == old(self).req().session_id@
                &&& final(self).holds_nonce()
                &&& p.public_nonce_bytes@ == crate::frost_backend::public_of_secret_nonce(final(self).kept_nonce())
            },
    {
        if !local_share.group_key.same_key(&self.request.group_key) {
            return Err(DkgKitError::Protocol(String::from_str("local share group key does not match signing request")));
        }
        match crate::frost_backend::check_paired_share(local_share.secret_share_bytes.as_slice()) {
            Ok(()) => {},
            Err(e) => return Err(DkgKitError::Serialization(e)),
        }
        let (secret, public_nonce_bytes) = match crate::frost_backend::signing_nonce(
            local_share.secret_share_bytes.as_slice(),
            self.request.session_id.0.as_str().as_bytes(),
        ) {
            Ok(v) => v,
            Err(e) => return Err(DkgKitError::Serialization(e)),
        };
        self.nonce_runtime = Some(secret);
        Ok(NoncePackage {
            participant_id: local_share.participant_id,
            signing_session_id: self.request.session_id.clone(),
            public_nonce_bytes,
        })
    }

    /// Signs the request's digest with the local share and the kept nonce,
    /// which is used up whatever happens afterwards.
    pub fn sign_share(&mut self, local_share: &LocalKeyShare, nonces: &[NoncePackage]) -> (r: Result<SignatureSharePackage, DkgKitError>)
        requires
            old(self).wf(),
            signers_numbered(old(self).req().signer_set@),
            !crate::frost_backend::bincode_empty_list(old(self).req().group_key.verification_key_bytes@),
        ensures
            final(self).wf(),
            final(self).req() == old(self).req(),
            ({
                let req = old(self).req();
                let same = local_share.group_key.xonly_public_key == req.group_key.xonly_public_key
                    && local_share.group_key.verification_key_bytes@ == req.group_key.verification_key_bytes@;
                let member = signer_ids(req.signer_set@).contains(local_share.participant_id.0);
                if !same {
                    r matches Err(e) && e@ == ErrorView::Protocol(msg_key_mismatch())
                        && final(self).holds_nonce() == old(self).holds_nonce()
                } else if !member {
                    r matches Err(e) && e@ == ErrorView::Protocol(msg_not_signer(local_share.participant_id.0))
                        && final(self).holds_nonce() == old(self).holds_nonce()
                } else if !old(self).holds_nonce() {
                    r matches Err(e) && e@ == ErrorView::Protocol("nonce must be generated before sign_share"@)
                        && !final(self).holds_nonce()
                } else if own_nonce(nonce_list(nonces@), local_share.participant_id.0) is None {
                    r matches Err(e) && e@ == ErrorView::Protocol("missing local public nonce"@)
                        && !final(self).holds_nonce()
                } else {
                    &&& !final(self).holds_nonce()
                    &&& r is Ok <==> sign_share_succeeds(req, local_share.secret_share_bytes@, nonce_list(nonces@),
                        old(self).kept_nonce())
                    &&& r matches Ok(p) ==> {
                        &&& p.participant_id == local_share.participant_id
                        &&& p.signing_session_id@ == req.session_id@
                        &&& Some(p.public_nonce_bytes@) == own_nonce(nonce_list(nonces@), local_share.participant_id.0)
                        &&& Some(p.signature_share_bytes@) == frost_signature_share(req.group_key.verification_key_bytes@,
                            local_share.secret_share_bytes@, nonce_table(nonce_list(nonces@)), req.message_digest@,
                            old(self).kept_nonce())
                    }
                }
            }),
    {
        if !local_share.group_key.same_key(&self.request.group_key) {
            return Err(DkgKitError::Protocol(String::from_str("local share group key does not match signing request")));
        }
        let me = local_share.participant_id.0;
        if !signer_set_contains(&self.request.signer_set, me) {
            let mut text = String::from_str("participant ");
            crate::text::push_decimal(&mut text, me as u64);
            text.append(" is not in signer set");
            return Err(DkgKitError::Protocol(text));
        }
        let secret_nonce = match self.nonce_runtime.take() {
            Some(n) => n,
            None => return Err(DkgKitError::Protocol(String::from_str("nonce must be generated before sign_share"))),
        };
        let own_public_nonce_bytes = match find_own_nonce(nonces, me) {
            Some(b) => b,
            None => return Err(DkgKitError::Protocol(String::from_str("missing local public nonce"))),
        };
        let share_bytes = local_share.secret_share_bytes.as_slice();
        match crate::frost_backend::check_paired_share(share_bytes) {
            Ok(()) => {},
            Err(e) => return Err(DkgKitError::Serialization(e)),
        }
        let key_bytes = self.request.group_key.verification_key_bytes.as_slice();
        let (threshold, key_xonly) = match crate::frost_backend::decode_shared_key(key_bytes) {
            Ok(v) => v,
            Err(e) => return Err(DkgKitError::Serialization(e)),
        };
        let nonce_map = nonces_to_map(nonces, &self.request)?;
        if nonce_map.len() < threshold {
            return Err(DkgKitError::Protocol(String::from_str("nonces' length was less than the threshold")));
        }
        let (share_index, share_xonly) = crate::frost_backend::paired_share_parts(share_bytes);
        if !crate::requests::bytes32_eq(&share_xonly, &key_xonly) {
            return Err(DkgKitError::Protocol(String::from_str(
                "the share's shared key is not the same as the shared key of the session",
            )));
        }
        if !index_among(&nonce_map, &share_index) {
            proof {
                let ns = nonce_list(nonces@);
                assert forall|k: int| 0 <= k < ns.len() implies be_bytes(#[trigger] ns[k].participant_id as nat, 32)
                    != paired_share_index(share_bytes@) by {
                    assert(nonce_map@[k].0 == ns[k].participant_id);
                }
            }
            return Err(DkgKitError::Protocol(String::from_str("this signer is not part of this signing session")));
        }
        let signature_share_bytes = match crate::frost_backend::frost_sign_share(
            key_bytes,
            share_bytes,
            &nonce_map,
            self.request.message_digest,
            secret_nonce,
        ) {
            Ok(b) => b,
            Err(e) => return Err(DkgKitError::Serialization(e)),
        };
        Ok(SignatureSharePackage {
            participant_id: local_share.participant_id,
            signing_session_id: self.request.session_id.clone(),
            public_nonce_bytes: own_public_nonce_bytes,
            signature_share_bytes,
        })
    }

    /// Checks the share set, then verifies the shares against the group key
    /// and combines them into one BIP-340 signature.
    pub fn aggregate(&self, shares: &[SignatureSharePackage]) -> (r: Result<AggregateSignature, DkgKitError>)
        requires
            signers_numbered(self.req().signer_set@),
            !crate::frost_backend::bincode_empty_list(self.req().group_key.verification_key_bytes@),
        ensures
            match share_set_error(share_list(shares@), self.req().session_id@, signer_ids(self.req().signer_set@)) {
                Some(e) => r matches Err(x) && x@ == e,
                None => r matches Ok(sig) ==> bip340_verifies(
                    shared_key_xonly(self.req().group_key.verification_key_bytes@),
                    self.req().message_digest@,
                    sig.signature_bytes@,
                ),
            },
            share_set_error(share_list(shares@), self.req().session_id@, signer_ids(self.req().signer_set@)) is None ==> (
            r is Ok <==> frost_aggregate_accepts(
                self.req().group_key.verification_key_bytes@,
                self.req().session_id@,
                signer_ids(self.req().signer_set@),
                self.req().message_digest@,
                share_list(shares@),
            )),
            r matches Ok(sig) ==> Some(sig.signature_bytes@) == combined_signature(
                self.req().group_key.verification_key_bytes@,
                nonce_table(share_nonces(share_list(shares@))),
                self.req().message_digest@,
                decoded_shares(share_list(shares@)),
            ),
    {
        validate_signature_share_set(shares, &self.request)?;
        let key_bytes = self.request.group_key.verification_key_bytes.as_slice();
        let (threshold, _) = match crate::frost_backend::decode_shared_key(key_bytes) {
            Ok(v) => v,
            Err(e) => return Err(DkgKitError::Serialization(e)),
        };
        let mut nonces: Vec<NoncePackage> = Vec::new();
        let mut i: usize = 0;
        while i < shares.len()
            invariant
                i <= shares@.len(),
                nonces@.len() == i,
                forall|k: int| 0 <= k < i ==> (#[trigger] nonces@[k]).participant_id == shares@[k].participant_id,
                forall|k: int| 0 <= k < i ==> (#[trigger] nonces@[k])@ == share_nonces(share_list(shares@))[k],
            decreases shares@.len() - i,
        {
            let share = &shares[i];
            nonces.push(NoncePackage {
                participant_id: share.participant_id,
                signing_session_id: share.signing_session_id.clone(),
                public_nonce_bytes: share.public_nonce_bytes.clone(),
            });
            assert(share_list(shares@)[i as int] == shares@[i as int]@);
            i += 1;
        }
        assert(nonce_list(nonces@) =~= share_nonces(share_list(shares@)));
        let nonce_map = nonces_to_map(nonces.as_slice(), &self.request)?;
        proof {
            lemma_share_scan_members(share_list(shares@), self.req().session_id@, signer_ids(self.req().signer_set@), 0);
            assert forall|k: int| 0 <= k < shares@.len() implies signer_ids(self.req().signer_set@).contains(
                (#[trigger] shares@[k]).participant_id.0) by {
                assert(share_list(shares@)[k] == shares@[k]@);
                assert(signer_ids(self.req().signer_set@).contains(share_list(shares@)[k].participant_id));
            }
        }
        proof {
            assert forall|k: int| 0 <= k < shares@.len() implies (#[trigger] nonce_map@[k]).0 == shares@[k].participant_id.0 by {
                assert(nonce_list(nonces@)[k].participant_id == nonces@[k].participant_id.0);
            }
        }
        if nonce_map.len() < threshold {
            return Err(DkgKitError::Protocol(String::from_str("nonces' length was less than the threshold")));
        }
        let mut sig_shares: Vec<(u32, [u8; 32])> = Vec::new();
        let mut j: usize = 0;
        while j < shares.len()
            invariant
                j <= shares@.len(),
                signers_numbered(self.req().signer_set@),
                forall|k: int| 0 <= k < shares@.len() ==> signer_ids(self.req().signer_set@).contains((#[trigger] shares@[k]).participant_id.0),
                sig_shares@.len() == j,
                share_set_error(share_list(shares@), self.req().session_id@, signer_ids(self.req().signer_set@)) is None,
                forall|k: int| 0 <= k < j ==> (#[trigger] sig_shares@[k]).0 >= 1 && is_scalar(sig_shares@[k].1)
                    && sig_shares@[k].0 == shares@[k].participant_id.0,
                nonce_map@.len() == shares@.len(),
                forall|k: int| 0 <= k < shares@.len() ==> (#[trigger] nonce_map@[k]).0 == shares@[k].participant_id.0,
                forall|k: int| 0 <= k < j ==> (#[trigger] share_pairs(sig_shares@)[k]) == decoded_shares(share_list(shares@))[k],
                forall|k: int| 0 <= k < j ==> (#[trigger] signature_share_decoded(share_list(shares@)[k].signature_share_bytes)) is Some,
                key_bytes@ == self.req().group_key.verification_key_bytes@,
                shared_key_decodes(key_bytes@),
                nonce_map@.len() >= shared_key_threshold(key_bytes@),
                nonce_pairs(nonce_map@) == nonce_table(share_nonces(share_list(shares@))),
                nonce_scan(share_nonces(share_list(shares@)), self.req().session_id@, signer_ids(self.req().signer_set@), 0) is None,
                share_nonces(share_list(shares@)).len() == signer_ids(self.req().signer_set@).len(),
                forall|k: int| 0 <= k < share_nonces(share_list(shares@)).len() ==> (#[trigger] public_nonce_decoded(
                    share_nonces(share_list(shares@))[k].public_nonce_bytes)) is Some,
            decreases shares@.len() - j,
        {
            let share = &shares[j];
            assert(share_list(shares@)[j as int] == shares@[j as int]@);
            let s = match crate::frost_backend::decode_signature_share(share.signature_share_bytes.as_slice()) {
                Ok(s) => s,
                Err(e) => {
                    assert(signature_share_decoded(share_list(shares@)[j as int].signature_share_bytes) is None);
                    return Err(DkgKitError::Serialization(e));
                },
            };
            proof {
                let ids = signer_ids(self.req().signer_set@);
                let w = choose|w: int| 0 <= w < ids.len() && ids[w] == share.participant_id.0;
                assert(self.req().signer_set@[w].0 >= 1);
            }
            let ghost before = sig_shares@;
            sig_shares.push((share.participant_id.0 as u32, s));
            proof {
                assert(share_pairs(sig_shares@) =~= share_pairs(before).push((share.participant_id.0 as u32, s@)));
                assert(decoded_shares(share_list(shares@))[j as int] == (share.participant_id.0 as u32, s@));
            }
            j += 1;
        }
        assert(share_pairs(sig_shares@) =~= decoded_shares(share_list(shares@)));
        let signature_bytes = match crate::frost_backend::frost_combine(
            key_bytes,
            &nonce_map,
            self.request.message_digest,
            &sig_shares,
        ) {
            Ok(b) => b,
            Err(e) => {
                let mut text = String::from_str("signature share verification failed: ");
                text.append(e.as_str());
                return Err(DkgKitError::Protocol(text));
            },
        };
        AggregateSignature::new(bytes64_vec(&signature_bytes))
    }
}

/// The public nonces the signature shares carry, as a nonce list.
pub open spec fn share_nonces(ss: Seq<SignatureShareView>) -> Seq<NonceView> {
    ss.map_values(|s: SignatureShareView| NonceView {
        participant_id: s.participant_id,
        signing_session_id: s.signing_session_id,
        public_nonce_bytes: s.public_nonce_bytes,
    })
}

/// The decoded signature shares, keyed by participant.
pub open spec fn decoded_shares(ss: Seq<SignatureShareView>) -> Seq<(u32, Seq<u8>)> {
    ss.map_values(|s: SignatureShareView| (s.participant_id as u32, signature_share_decoded(s.signature_share_bytes)->0))
}

/// When `aggregate` succeeds, once the share set is valid: the group key
/// decodes, the nonces the shares carry are one per signer of the session,
/// decode and reach the key's threshold, every share decodes, and schnorr_fun
/// combines the shares into a signature.
pub open spec fn frost_aggregate_accepts(
    key: Seq<u8>,
    session: Seq<char>,
    signers: Seq<u16>,
    digest: Seq<u8>,
    ss: Seq<SignatureShareView>,
) -> bool {
    let ns = share_nonces(ss);
    &&& shared_key_decodes(key)
    &&& nonce_scan(ns, session, signers, 0) is None
    &&& ns.len() == signers.len()
    &&& forall|k: int| 0 <= k < ns.len() ==> (#[trigger] public_nonce_decoded(ns[k].public_nonce_bytes)) is Some
    &&& ns.len() >= shared_key_threshold(key)
    &&& forall|k: int| 0 <= k < ss.len() ==> (#[trigger] signature_share_decoded(ss[k].signature_share_bytes)) is Some
    &&& combined_signature(key, nonce_table(ns), digest, decoded_shares(ss)) is Some
}

/// Shares that pass the scan from `i` on all come from the signer set.
pub proof fn lemma_share_scan_members(ss: Seq<SignatureShareView>, session: Seq<char>, signers: Seq<u16>, i: int)
    requires
        0 <= i,
        share_scan(ss, session, signers, i) is None,
    ensures
        forall|k: int| i <= k < ss.len() ==> signers.contains(#[trigger] ss[k].participant_id),
    decreases ss.len() - i,
{
    if i < ss.len() {
        lemma_share_scan_members(ss, session, signers, i + 1);
    }
}

/// The 64 bytes as a vector.
fn bytes64_vec(b: &[u8; 64]) -> (r: Vec<u8>)
    ensures
        r@ == b@,
{
    let mut out: Vec<u8> = Vec::new();
    let mut i: usize = 0;
    while i < 64
        invariant
            i <= 64,
            out@ == b@.take(i as int),
        decreases 64 - i,
    {
        out.push(b[i]);
        assert(out@ =~= b@.take(i + 1));
        i += 1;
    }
    assert(b@.take(64) =~= b@);
    out
}

/// The public nonce bytes of the first nonce package of `id`.
fn find_own_nonce(nonces: &[NoncePackage], id: u16) -> (r: Option<Vec<u8>>)
    ensures
        match own_nonce(nonce_list(nonces@), id) {
            Some(b) => r matches Some(v) && v@ == b,
            None => r is None,
        },
{
    let ghost ns = nonce_list(nonces@);
    let mut i: usize = 0;
    while i < nonces.len()
        invariant
            ns == nonce_list(nonces@),
            i <= nonces@.len(),
            own_nonce(ns.take(i as int), id) is None,
        decreases nonces@.len() - i,
    {
        assert(ns.take(i + 1).drop_last() =~= ns.take(i as int));
        if nonces[i].participant_id.0 == id {
            proof {
                lemma_own_nonce_prefix(ns, id, i + 1);
            }
            return Some(nonces[i].public_nonce_bytes.clone());
        }
        i += 1;
    }
    assert(ns.take(i as int) =~= ns);
    None
}

/// A nonce found in a prefix is the one found in the whole list.
pub proof fn lemma_own_nonce_prefix(ns: Seq<NonceView>, id: u16, j: int)
    requires
        0 <= j <= ns.len(),
        own_nonce(ns.take(j), id) is Some,
    ensures
        own_nonce(ns, id) == own_nonce(ns.take(j), id),
    decreases ns.len() - j,
{
    if j == ns.len() {
        assert(ns.take(j) =~= ns);
    } else {
        assert(ns.take(j + 1).drop_last() =~= ns.take(j));
        lemma_own_nonce_prefix(ns, id, j + 1);
    }
}

/// Whether a share index is the index of one of the nonces' participants.
fn index_among(nonces: &Vec<(u32, [u8; 66])>, index: &[u8; 32]) -> (r: bool)
    ensures
        r == exists|k: int| 0 <= k < nonces@.len() && be_bytes(nonces@[k].0 as nat, 32) == index@,
{
    let mut i: usize = 0;
    while i < nonces.len()
        invariant
            i <= nonces@.len(),
            forall|k: int| 0 <= k < i ==> be_bytes(nonces@[k].0 as nat, 32) != index@,
        decreases nonces@.len() - i,
    {
        let candidate = crate::scalar::scalar_from_u32(nonces[i].0);
        proof {
            crate::scalar::lemma_scalar_bytes(candidate);
        }
        if crate::requests::bytes32_eq(&candidate, index) {
            return true;
        }
        i += 1;
    }
    false
}

} // verus!
