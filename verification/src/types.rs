//! Shared protocol types: identifiers, participants, threshold shapes, errors.
use vstd::prelude::*;
use crate::wire::{dec_message, decode_message, enc_message, encode_message};
use crate::text::{decimal, is_blank, is_blank_text, push_decimal, str_eq};

verus! {

/// Version tag carried by every protocol envelope.
pub const DKGKIT_PROTOCOL_VERSION: &'static str = "dkgkit/0.1";

/// Errors reported across the SDK.
#[derive(Debug, PartialEq, Eq)]
pub enum DkgKitError {
    InvalidThreshold { threshold: u16, participants: u16 },
    InvalidParticipantId(u16),
    ParticipantCountMismatch { expected: u16, actual: usize },
    DuplicateParticipantId(u16),
    ParticipantOutOfRange { participant_id: u16, participants: u16 },
    MissingRankedParticipant(u16),
    EmptySessionId,
    EmptyMessageKind,
    Serialization(String),
    Protocol(String),
    Transport(String),
    NotImplemented(&'static str),
}

/// An error with its texts taken as character sequences.
pub enum ErrorView {
    InvalidThreshold { threshold: u16, participants: u16 },
    InvalidParticipantId(u16),
    ParticipantCountMismatch { expected: u16, actual: usize },
    DuplicateParticipantId(u16),
    ParticipantOutOfRange { participant_id: u16, participants: u16 },
    MissingRankedParticipant(u16),
    EmptySessionId,
    EmptyMessageKind,
    Serialization(Seq<char>),
    Protocol(Seq<char>),
    Transport(Seq<char>),
    NotImplemented(Seq<char>),
}

impl View for DkgKitError {
    type V = ErrorView;

    open spec fn view(&self) -> ErrorView {
        match *self {
            DkgKitError::InvalidThreshold { threshold, participants } => ErrorView::InvalidThreshold {
                threshold,
                participants,
            },
            DkgKitError::InvalidParticipantId(v) => ErrorView::InvalidParticipantId(v),
            DkgKitError::ParticipantCountMismatch { expected, actual } => ErrorView::ParticipantCountMismatch {
                expected,
                actual,
            },
            DkgKitError::DuplicateParticipantId(v) => ErrorView::DuplicateParticipantId(v),
            DkgKitError::ParticipantOutOfRange { participant_id, participants } => ErrorView::ParticipantOutOfRange {
                participant_id,
                participants,
            },
            DkgKitError::MissingRankedParticipant(v) => ErrorView::MissingRankedParticipant(v),
            DkgKitError::EmptySessionId => ErrorView::EmptySessionId,
            DkgKitError::EmptyMessageKind => ErrorView::EmptyMessageKind,
            DkgKitError::Serialization(s) => ErrorView::Serialization(s@),
            DkgKitError::Protocol(s) => ErrorView::Protocol(s@),
            DkgKitError::Transport(s) => ErrorView::Transport(s@),
            DkgKitError::NotImplemented(s) => ErrorView::NotImplemented(s@),
        }
    }
}

/// The error carried by a failed result, as a view.
pub open spec fn err_view<T>(r: Result<T, DkgKitError>) -> Option<ErrorView> {
    match r {
        Ok(_) => None,
        Err(e) => Some(e@),
    }
}

/// The human-readable rendering of each error.
pub open spec fn error_text(e: DkgKitError) -> Seq<char> {
    match e {
        DkgKitError::InvalidThreshold { threshold, participants } => "invalid threshold config: threshold="@
            + decimal(threshold as nat) + ", participants="@ + decimal(participants as nat),
        DkgKitError::InvalidParticipantId(v) => "invalid participant id: "@ + decimal(v as nat),
        DkgKitError::ParticipantCountMismatch { expected, actual } => "participant count mismatch: expected "@
            + decimal(expected as nat) + ", got "@ + decimal(actual as nat),
        DkgKitError::DuplicateParticipantId(v) => "duplicate participant id: "@ + decimal(v as nat),
        DkgKitError::ParticipantOutOfRange { participant_id, participants } => "participant id "@
            + decimal(participant_id as nat) + " exceeds configured participant count "@ + decimal(
            participants as nat,
        ),
        DkgKitError::MissingRankedParticipant(v) => "missing ranked participant id: "@ + decimal(
            v as nat,
        ),
        DkgKitError::EmptySessionId => "session id cannot be empty"@,
        DkgKitError::EmptyMessageKind => "protocol message kind cannot be empty"@,
        DkgKitError::Serialization(s) => "serialization error: "@ + s@,
        DkgKitError::Protocol(s) => "protocol error: "@ + s@,
        DkgKitError::Transport(s) => "transport error: "@ + s@,
        DkgKitError::NotImplemented(s) => "feature not implemented yet: "@ + s@,
    }
}

impl DkgKitError {
    /// Renders the error as text.
    pub fn message(&self) -> (res: String)
        ensures
            res@ == error_text(*self),
    {
        let mut out = String::new();
        match self {
            DkgKitError::InvalidThreshold { threshold, participants } => {
                out.append("invalid threshold config: threshold=");
                push_decimal(&mut out, *threshold as u64);
                out.append(", participants=");
                push_decimal(&mut out, *participants as u64);
            },
            DkgKitError::InvalidParticipantId(v) => {
                out.append("invalid participant id: ");
                push_decimal(&mut out, *v as u64);
            },
            DkgKitError::ParticipantCountMismatch { expected, actual } => {
                out.append("participant count mismatch: expected ");
                push_decimal(&mut out, *expected as u64);
                out.append(", got ");
                push_decimal(&mut out, *actual as u64);
            },
            DkgKitError::DuplicateParticipantId(v) => {
                out.append("duplicate participant id: ");
                push_decimal(&mut out, *v as u64);
            },
            DkgKitError::ParticipantOutOfRange { participant_id, participants } => {
                out.append("participant id ");
                push_decimal(&mut out, *participant_id as u64);
                out.append(" exceeds configured participant count ");
                push_decimal(&mut out, *participants as u64);
            },
            DkgKitError::MissingRankedParticipant(v) => {
                out.append("missing ranked participant id: ");
                push_decimal(&mut out, *v as u64);
            },
            DkgKitError::EmptySessionId => {
                out.append("session id cannot be empty");
            },
            DkgKitError::EmptyMessageKind => {
                out.append("protocol message kind cannot be empty");
            },
            DkgKitError::Serialization(s) => {
                out.append("serialization error: ");
                out.append(s.as_str());
            },
            DkgKitError::Protocol(s) => {
                out.append("protocol error: ");
                out.append(s.as_str());
            },
            DkgKitError::Transport(s) => {
                out.append("transport error: ");
                out.append(s.as_str());
            },
            DkgKitError::NotImplemented(s) => {
                out.append("feature not implemented yet: ");
                out.append(*s);
            },
        }
        out
    }
}

/// Non-blank identifier of a DKG or signing session.
#[derive(Debug, PartialEq, Eq, Hash)]
pub struct SessionId(pub String);

impl View for SessionId {
    type V = Seq<char>;

    open spec fn view(&self) -> Seq<char> {
        self.0@
    }
}

impl Clone for SessionId {
    fn clone(&self) -> (res: Self)
        ensures
            res@ == self@,
    {
        SessionId(self.0.clone())
    }
}

impl SessionId {
    /// Accepts any text that is not blank after trimming white space.
    pub fn new(value: &str) -> (res: Result<SessionId, DkgKitError>)
        ensures
            is_blank_text(value@) ==> res == Err::<SessionId, DkgKitError>(DkgKitError::EmptySessionId),
            !is_blank_text(value@) ==> (res matches Ok(id) && id@ == value@),
    {
        if is_blank(value) {
            return Err(DkgKitError::EmptySessionId);
        }
        Ok(SessionId(value.to_owned()))
    }

    /// Compares two session identifiers by their text.
    pub fn same_as(&self, other: &SessionId) -> (res: bool)
        ensures
            res == (self@ == other@),
    {
        self.0 == other.0
    }
}

/// Identifier of one participant; `0` is never valid.
#[derive(Debug, Clone, Copy, PartialEq, Eq, Structural, Hash, PartialOrd, Ord)]
pub struct ParticipantId(pub u16);

impl ParticipantId {
    pub fn new(value: u16) -> (res: Result<ParticipantId, DkgKitError>)
        ensures
            value == 0 ==> res == Err::<ParticipantId, DkgKitError>(
                DkgKitError::InvalidParticipantId(value),
            ),
            value != 0 ==> res == Ok::<ParticipantId, DkgKitError>(ParticipantId(value)),
    {
        if value == 0 {
            return Err(DkgKitError::InvalidParticipantId(value));
        }
        Ok(ParticipantId(value))
    }
}

/// A `threshold`-of-`participants` signing shape.
#[derive(Debug, Clone, Copy, PartialEq, Eq, Structural)]
pub struct ThresholdConfig {
    pub threshold: u16,
    pub participants: u16,
}

/// `1 <= threshold <= participants`.
pub open spec fn threshold_shape_ok(threshold: u16, participants: u16) -> bool {
    threshold != 0 && participants != 0 && threshold <= participants
}

impl ThresholdConfig {
    pub fn new(threshold: u16, participants: u16) -> (res: Result<ThresholdConfig, DkgKitError>)
        ensures
            threshold_shape_ok(threshold, participants) ==> res == Ok::<
                ThresholdConfig,
                DkgKitError,
            >(ThresholdConfig { threshold, participants }),
            !threshold_shape_ok(threshold, participants) ==> res == Err::<
                ThresholdConfig,
                DkgKitError,
            >(DkgKitError::InvalidThreshold { threshold, participants }),
    {
        if threshold == 0 || participants == 0 || threshold > participants {
            return Err(DkgKitError::InvalidThreshold { threshold, participants });
        }
        Ok(ThresholdConfig { threshold, participants })
    }
}

/// A participant with an optional display label.
#[derive(Debug, Clone, PartialEq, Eq)]
pub struct Participant {
    pub id: ParticipantId,
    pub label: Option<String>,
}

impl Participant {
    pub fn new(id: u16, label: Option<String>) -> (res: Result<Participant, DkgKitError>)
        ensures
            id == 0 ==> res == Err::<Participant, DkgKitError>(
                DkgKitError::InvalidParticipantId(id),
            ),
            id != 0 ==> res == Ok::<Participant, DkgKitError>(
                Participant { id: ParticipantId(id), label },
            ),
    {
        let pid = ParticipantId::new(id)?;
        Ok(Participant { id: pid, label })
    }
}

/// Authority level; lower values carry more authority, rank 0 the most.
#[derive(Debug, Clone, Copy, PartialEq, Eq, Structural, Hash, PartialOrd, Ord)]
pub struct Rank(pub u16);

impl Rank {
    pub fn new(value: u16) -> (res: Rank)
        ensures
            res == Rank(value),
    {
        Rank(value)
    }
}

/// A participant placed at an authority rank.
#[derive(Debug, PartialEq, Eq)]
pub struct RankedParticipant {
    pub id: ParticipantId,
    /// Lower rank values represent higher authority. Rank 0 is the highest level.
    pub rank: Rank,
    pub label: Option<String>,
}

impl RankedParticipant {
    pub fn new(id: u16, rank: u16, label: Option<String>) -> (res: Result<
        RankedParticipant,
        DkgKitError,
    >)
        ensures
            id == 0 ==> res == Err::<RankedParticipant, DkgKitError>(
                DkgKitError::InvalidParticipantId(id),
            ),
            id != 0 ==> res == Ok::<RankedParticipant, DkgKitError>(
                RankedParticipant { id: ParticipantId(id), rank: Rank(rank), label },
            ),
    {
        let pid = ParticipantId::new(id)?;
        Ok(RankedParticipant { id: pid, rank: Rank::new(rank), label })
    }
}

/// The participant ids of a ranked roster, in roster order.
pub open spec fn ranked_ids(ps: Seq<RankedParticipant>) -> Seq<u16> {
    ps.map_values(|p: RankedParticipant| p.id.0)
}

/// The ranks of a ranked roster, in roster order.
pub open spec fn ranked_ranks(ps: Seq<RankedParticipant>) -> Seq<u16> {
    ps.map_values(|p: RankedParticipant| p.rank.0)
}

/// The participant ids of a plain roster, in roster order.
pub open spec fn participant_ids(ps: Seq<Participant>) -> Seq<u16> {
    ps.map_values(|p: Participant| p.id.0)
}

/// No value occurs twice.
pub open spec fn all_distinct(s: Seq<u16>) -> bool {
    forall|i: int, j: int| 0 <= i < j < s.len() ==> s[i] != s[j]
}

/// `j` is the first position whose value already occurred earlier.
pub open spec fn first_repeat_at(s: Seq<u16>, j: int) -> bool {
    &&& 0 <= j < s.len()
    &&& all_distinct(s.take(j))
    &&& s.take(j).contains(s[j])
}

/// The value at the first repeated position, when there is one.
pub open spec fn first_repeat(s: Seq<u16>) -> Option<u16> {
    if all_distinct(s) {
        None
    } else {
        Some(s[choose|j: int| #[trigger] first_repeat_at(s, j)])
    }
}

/// A sequence that is not duplicate-free has exactly one first repeated position.
pub proof fn lemma_first_repeat_exists(s: Seq<u16>)
    requires
        !all_distinct(s),
    ensures
        exists|j: int| #[trigger] first_repeat_at(s, j),
    decreases s.len(),
{
    let n = s.len() as int;
    if all_distinct(s.take(n - 1)) {
        assert(s.take(n - 1).contains(s[n - 1])) by {
            let (i, j) = choose|i: int, j: int| 0 <= i < j < s.len() && s[i] == s[j];
            assert(j == n - 1) by {
                if j < n - 1 {
                    assert(s.take(n - 1)[i] == s.take(n - 1)[j]);
                }
            }
            assert(s.take(n - 1)[i] == s[n - 1]);
        }
        assert(first_repeat_at(s, n - 1));
    } else {
        lemma_first_repeat_exists(s.take(n - 1));
        let j = choose|j: int| #[trigger] first_repeat_at(s.take(n - 1), j);
        assert(s.take(n - 1).take(j) =~= s.take(j));
        assert(first_repeat_at(s, j));
    }
}

/// The first repeated position is unique.
pub proof fn lemma_first_repeat_unique(s: Seq<u16>, j1: int, j2: int)
    requires
        first_repeat_at(s, j1),
        first_repeat_at(s, j2),
    ensures
        j1 == j2,
{
    if j1 < j2 {
        let i = choose|i: int| 0 <= i < j1 && s.take(j1)[i] == s[j1];
        assert(s.take(j2)[i] == s.take(j2)[j1]);
    } else if j2 < j1 {
        let i = choose|i: int| 0 <= i < j2 && s.take(j2)[i] == s[j2];
        assert(s.take(j1)[i] == s.take(j1)[j2]);
    }
}

/// Whether `v` occurs among the first `end` values of `s`.
fn occurs_before(s: &Vec<u16>, end: usize, v: u16) -> (r: bool)
    requires
        end <= s.len(),
    ensures
        r == s@.take(end as int).contains(v),
{
    let mut i: usize = 0;
    while i < end
        invariant
            end <= s.len(),
            i <= end,
            forall|k: int| 0 <= k < i ==> s@[k] != v,
        decreases end - i,
    {
        if s[i] == v {
            assert(s@.take(end as int)[i as int] == v);
            return true;
        }
        i += 1;
    }
    proof {
        if s@.take(end as int).contains(v) {
            let k = choose|k: int| 0 <= k < end && s@.take(end as int)[k] == v;
            assert(s@[k] == v);
        }
    }
    false
}

/// Finds the first value that repeats an earlier one.
pub fn find_first_repeat(s: &Vec<u16>) -> (r: Option<u16>)
    ensures
        r == first_repeat(s@),
{
    let mut j: usize = 0;
    while j < s.len()
        invariant
            j <= s.len(),
            all_distinct(s@.take(j as int)),
        decreases s.len() - j,
    {
        if occurs_before(s, j, s[j]) {
            proof {
                assert(first_repeat_at(s@, j as int));
                assert(!all_distinct(s@)) by {
                    let i = choose|i: int| 0 <= i < j && s@.take(j as int)[i] == s@[j as int];
                    assert(s@[i] == s@[j as int]);
                }
                lemma_first_repeat_exists(s@);
                let c = choose|c: int| #[trigger] first_repeat_at(s@, c);
                lemma_first_repeat_unique(s@, c, j as int);
            }
            return Some(s[j]);
        }
        proof {
            assert forall|a: int, b: int| #![trigger s@.take(j + 1)[a], s@.take(j + 1)[b]] 0 <= a < b < j + 1 implies s@.take(j + 1)[a] != s@.take(j + 1)[b] by {
                if b < j {
                    assert(s@.take(j as int)[a] != s@.take(j as int)[b]);
                } else {
                    assert(s@.take(j as int)[a] == s@[a]);
                }
            }
        }
        j += 1;
    }
    assert(s@.take(s@.len() as int) =~= s@);
    None
}

/// Ids of a ranked roster as a vector.
fn collect_ranked_ids(ps: &Vec<RankedParticipant>) -> (r: Vec<u16>)
    ensures
        r@ == ranked_ids(ps@),
{
    let mut out: Vec<u16> = Vec::new();
    let mut i: usize = 0;
    while i < ps.len()
        invariant
            i <= ps.len(),
            out@ == ranked_ids(ps@).take(i as int),
        decreases ps.len() - i,
    {
        out.push(ps[i].id.0);
        proof {
            assert(ranked_ids(ps@).take(i + 1) =~= ranked_ids(ps@).take(i as int).push(ps@[i as int].id.0));
        }
        i += 1;
    }
    assert(ranked_ids(ps@).take(ps.len() as int) =~= ranked_ids(ps@));
    out
}

/// The rank of the first roster entry carrying `id`, if any.
pub open spec fn rank_in(ps: Seq<RankedParticipant>, id: u16) -> Option<Rank>
    decreases ps.len(),
{
    if ps.len() == 0 {
        None
    } else if ps[0].id.0 == id {
        Some(ps[0].rank)
    } else {
        rank_in(ps.drop_first(), id)
    }
}

/// Looks up the rank of the first roster entry carrying `id`.
fn find_rank(ps: &Vec<RankedParticipant>, id: ParticipantId) -> (r: Option<Rank>)
    ensures
        r == rank_in(ps@, id.0),
{
    let mut i: usize = 0;
    assert(ps@.skip(0) =~= ps@);
    while i < ps.len()
        invariant
            i <= ps.len(),
            rank_in(ps@, id.0) == rank_in(ps@.skip(i as int), id.0),
        decreases ps.len() - i,
    {
        assert(ps@.skip(i as int).drop_first() =~= ps@.skip(i + 1));
        if ps[i].id.0 == id.0 {
            return Some(ps[i].rank);
        }
        i += 1;
    }
    None
}

/// `true` when `id` is in the roster, exactly when a rank is found for it.
pub proof fn lemma_rank_in_some(ps: Seq<RankedParticipant>, id: u16)
    ensures
        rank_in(ps, id) is Some <==> ranked_ids(ps).contains(id),
        rank_in(ps, id) matches Some(r) ==> exists|i: int|
            0 <= i < ps.len() && ps[i].id.0 == id && ps[i].rank == r,
    decreases ps.len(),
{
    if ps.len() > 0 {
        lemma_rank_in_some(ps.drop_first(), id);
        if ps[0].id.0 != id {
            if ranked_ids(ps).contains(id) {
                let k = choose|k: int| 0 <= k < ps.len() && ranked_ids(ps)[k] == id;
                assert(ranked_ids(ps.drop_first())[k - 1] == id);
            }
            if ranked_ids(ps.drop_first()).contains(id) {
                let k = choose|k: int|
                    0 <= k < ps.len() - 1 && ranked_ids(ps.drop_first())[k] == id;
                assert(ranked_ids(ps)[k + 1] == id);
            }
            if let Some(r) = rank_in(ps, id) {
                let i = choose|i: int|
                    0 <= i < ps.len() - 1 && ps.drop_first()[i].id.0 == id
                        && ps.drop_first()[i].rank == r;
                assert(ps[i + 1].id.0 == id);
            }
        } else {
            assert(ranked_ids(ps)[0] == id);
        }
    }
}

proof fn lemma_rank_in_distinct(ps: Seq<RankedParticipant>, j: int)
    requires
        all_distinct(ranked_ids(ps)),
        0 <= j < ps.len(),
    ensures
        rank_in(ps, ps[j].id.0) == Some(ps[j].rank),
    decreases j,
{
    if j > 0 {
        assert(ranked_ids(ps)[0] != ranked_ids(ps)[j]);
        let t = ps.drop_first();
        assert forall|a: int, b: int| 0 <= a < b < ranked_ids(t).len() implies ranked_ids(t)[a] != ranked_ids(t)[b] by {
            assert(ranked_ids(t)[a] == ranked_ids(ps)[a + 1]);
            assert(ranked_ids(t)[b] == ranked_ids(ps)[b + 1]);
        }
        lemma_rank_in_distinct(t, j - 1);
        assert(t[j - 1] == ps[j]);
    }
}

/// In a well-formed hierarchical configuration every roster entry's id looks
/// up that entry's own rank.
pub proof fn lemma_rank_in_own(c: HierarchicalThresholdConfig, j: int)
    requires
        c.wf(),
        0 <= j < c.participants@.len(),
    ensures
        rank_in(c.participants@, c.participants@[j].id.0) == Some(c.participants@[j].rank),
{
    lemma_rank_in_distinct(c.participants@, j);
}

/// A ranked roster with a signing threshold, used by HTSS.
#[derive(Debug, PartialEq, Eq)]
pub struct HierarchicalThresholdConfig {
    pub threshold: u16,
    pub participants: Vec<RankedParticipant>,
}

/// The outcome `HierarchicalThresholdConfig::new` owes for given inputs.
pub open spec fn hierarchical_check(threshold: u16, ps: Seq<RankedParticipant>) -> Option<
    DkgKitError,
> {
    if ps.len() > u16::MAX {
        Some(DkgKitError::InvalidThreshold { threshold, participants: u16::MAX })
    } else if !threshold_shape_ok(threshold, ps.len() as u16) {
        Some(DkgKitError::InvalidThreshold { threshold, participants: ps.len() as u16 })
    } else {
        match first_repeat(ranked_ids(ps)) {
            Some(d) => Some(DkgKitError::DuplicateParticipantId(d)),
            None => None,
        }
    }
}

impl HierarchicalThresholdConfig {
    /// Well-formed: a valid threshold over a roster without repeated ids.
    pub open spec fn wf(&self) -> bool {
        hierarchical_check(self.threshold, self.participants@) is None
    }

    pub fn new(threshold: u16, participants: Vec<RankedParticipant>) -> (res: Result<
        HierarchicalThresholdConfig,
        DkgKitError,
    >)
        ensures
            hierarchical_check(threshold, participants@) matches Some(e) ==> res == Err::<
                HierarchicalThresholdConfig,
                DkgKitError,
            >(e),
            hierarchical_check(threshold, participants@) is None ==> res == Ok::<
                HierarchicalThresholdConfig,
                DkgKitError,
            >(HierarchicalThresholdConfig { threshold, participants }),
    {
        if participants.len() > 65535 {
            return Err(DkgKitError::InvalidThreshold { threshold, participants: u16::MAX });
        }
        let participant_count = participants.len() as u16;
        ThresholdConfig::new(threshold, participant_count)?;
        let ids = collect_ranked_ids(&participants);
        if let Some(d) = find_first_repeat(&ids) {
            return Err(DkgKitError::DuplicateParticipantId(d));
        }
        Ok(HierarchicalThresholdConfig { threshold, participants })
    }

    pub fn participant_count(&self) -> (r: u16)
        ensures
            r == self.participants@.len() as u16,
    {
        self.participants.len() as u16
    }

    pub fn threshold_config(&self) -> (res: Result<ThresholdConfig, DkgKitError>)
        ensures
            res == ThresholdConfig::new_spec(self.threshold, self.participants@.len() as u16),
    {
        ThresholdConfig::new(self.threshold, self.participant_count())
    }

    pub fn rank_of(&self, participant_id: ParticipantId) -> (r: Option<Rank>)
        ensures
            r == rank_in(self.participants@, participant_id.0),
    {
        find_rank(&self.participants, participant_id)
    }
}

impl ThresholdConfig {
    /// What `ThresholdConfig::new` returns.
    pub open spec fn new_spec(threshold: u16, participants: u16) -> Result<
        ThresholdConfig,
        DkgKitError,
    > {
        if threshold_shape_ok(threshold, participants) {
            Ok(ThresholdConfig { threshold, participants })
        } else {
            Err(DkgKitError::InvalidThreshold { threshold, participants })
        }
    }
}


/// A quorum requirement for one rank: `required` of the `total` members at `rank`.
#[derive(Debug, Clone, Copy, PartialEq, Eq, Structural)]
pub struct GroupThresholdRequirement {
    pub rank: Rank,
    pub required: u16,
    pub total: u16,
}

impl GroupThresholdRequirement {
    pub fn new(rank: u16, required: u16, total: u16) -> (res: Result<
        GroupThresholdRequirement,
        DkgKitError,
    >)
        ensures
            threshold_shape_ok(required, total) ==> res == Ok::<
                GroupThresholdRequirement,
                DkgKitError,
            >(GroupThresholdRequirement { rank: Rank(rank), required, total }),
            !threshold_shape_ok(required, total) ==> res == Err::<
                GroupThresholdRequirement,
                DkgKitError,
            >(DkgKitError::InvalidThreshold { threshold: required, participants: total }),
    {
        if required == 0 || total == 0 || required > total {
            return Err(DkgKitError::InvalidThreshold { threshold: required, participants: total });
        }
        Ok(GroupThresholdRequirement { rank: Rank::new(rank), required, total })
    }
}

/// Number of roster entries at rank `r`.
pub open spec fn count_rank(ps: Seq<RankedParticipant>, r: u16) -> nat
    decreases ps.len(),
{
    if ps.len() == 0 {
        0
    } else {
        count_rank(ps.drop_last(), r) + if ps.last().rank.0 == r { 1nat } else { 0nat }
    }
}

/// The ranks the requirements speak of, in order.
pub open spec fn requirement_ranks(reqs: Seq<GroupThresholdRequirement>) -> Seq<u16> {
    reqs.map_values(|q: GroupThresholdRequirement| q.rank.0)
}

/// Sum of the per-rank quorums.
pub open spec fn required_sum(reqs: Seq<GroupThresholdRequirement>) -> nat
    decreases reqs.len(),
{
    if reqs.len() == 0 {
        0
    } else {
        required_sum(reqs.drop_last()) + reqs.last().required as nat
    }
}

pub open spec fn msg_duplicate_rank(r: u16) -> Seq<char> {
    "duplicate grouped threshold rank: "@ + decimal(r as nat)
}

pub open spec fn msg_total_mismatch(r: u16, declared: u16, found: nat) -> Seq<char> {
    "grouped threshold rank "@ + decimal(r as nat) + " total mismatch: declared "@ + decimal(
        declared as nat,
    ) + ", found "@ + decimal(found)
}

pub open spec fn msg_missing_requirement(r: u16) -> Seq<char> {
    "missing grouped threshold requirement for rank "@ + decimal(r as nat)
}

/// The error owed for requirement `i`, looking only at that requirement.
pub open spec fn requirement_error(
    ps: Seq<RankedParticipant>,
    reqs: Seq<GroupThresholdRequirement>,
    i: int,
) -> Option<ErrorView> {
    let q = reqs[i];
    if requirement_ranks(reqs).take(i).contains(q.rank.0) {
        Some(ErrorView::Protocol(msg_duplicate_rank(q.rank.0)))
    } else if count_rank(ps, q.rank.0) != q.total as nat {
        Some(ErrorView::Protocol(msg_total_mismatch(q.rank.0, q.total, count_rank(ps, q.rank.0))))
    } else {
        None
    }
}

/// The first requirement error at position `i` or later.
pub open spec fn requirement_scan(
    ps: Seq<RankedParticipant>,
    reqs: Seq<GroupThresholdRequirement>,
    i: int,
) -> Option<ErrorView>
    decreases reqs.len() - i,
{
    if i < 0 || i >= reqs.len() {
        None
    } else if requirement_error(ps, reqs, i) is Some {
        requirement_error(ps, reqs, i)
    } else {
        requirement_scan(ps, reqs, i + 1)
    }
}

/// The first roster entry, from position `i` on, whose rank has no requirement.
pub open spec fn coverage_scan(
    ps: Seq<RankedParticipant>,
    reqs: Seq<GroupThresholdRequirement>,
    i: int,
) -> Option<ErrorView>
    decreases ps.len() - i,
{
    if i < 0 || i >= ps.len() {
        None
    } else if !requirement_ranks(reqs).contains(ps[i].rank.0) {
        Some(ErrorView::Protocol(msg_missing_requirement(ps[i].rank.0)))
    } else {
        coverage_scan(ps, reqs, i + 1)
    }
}

/// The outcome `GroupedThresholdConfig::new` owes for given inputs.
pub open spec fn grouped_check(
    ps: Seq<RankedParticipant>,
    reqs: Seq<GroupThresholdRequirement>,
) -> Option<ErrorView> {
    if ps.len() == 0 || reqs.len() == 0 {
        Some(ErrorView::InvalidThreshold { threshold: 0, participants: ps.len() as u16 })
    } else if first_repeat(ranked_ids(ps)) is Some {
        Some(ErrorView::DuplicateParticipantId(first_repeat(ranked_ids(ps))->0))
    } else if requirement_scan(ps, reqs, 0) is Some {
        requirement_scan(ps, reqs, 0)
    } else {
        coverage_scan(ps, reqs, 0)
    }
}

/// Counts the roster entries at rank `r`.
fn count_at_rank(ps: &Vec<RankedParticipant>, r: u16) -> (n: usize)
    ensures
        n as nat == count_rank(ps@, r),
{
    let mut n: usize = 0;
    let mut i: usize = 0;
    while i < ps.len()
        invariant
            i <= ps.len(),
            n as nat == count_rank(ps@.take(i as int), r),
            n <= i,
        decreases ps.len() - i,
    {
        assert(ps@.take(i + 1).drop_last() =~= ps@.take(i as int));
        if ps[i].rank.0 == r {
            n += 1;
        }
        i += 1;
    }
    assert(ps@.take(ps.len() as int) =~= ps@);
    n
}

/// Whether some requirement among the first `end` speaks of rank `r`.
fn rank_required_before(reqs: &Vec<GroupThresholdRequirement>, end: usize, r: u16) -> (b: bool)
    requires
        end <= reqs.len(),
    ensures
        b == requirement_ranks(reqs@).take(end as int).contains(r),
{
    let mut i: usize = 0;
    while i < end
        invariant
            end <= reqs.len(),
            i <= end,
            forall|k: int| 0 <= k < i ==> reqs@[k].rank.0 != r,
        decreases end - i,
    {
        if reqs[i].rank.0 == r {
            assert(requirement_ranks(reqs@).take(end as int)[i as int] == r);
            return true;
        }
        i += 1;
    }
    proof {
        if requirement_ranks(reqs@).take(end as int).contains(r) {
            let k = choose|k: int|
                0 <= k < end && requirement_ranks(reqs@).take(end as int)[k] == r;
            assert(reqs@[k].rank.0 == r);
        }
    }
    false
}

/// Sum of the declared group sizes.
pub open spec fn total_sum(reqs: Seq<GroupThresholdRequirement>) -> nat
    decreases reqs.len(),
{
    if reqs.len() == 0 {
        0
    } else {
        total_sum(reqs.drop_last()) + reqs.last().total as nat
    }
}

/// Sum, over the requirements, of how many roster entries have each one's rank.
spec fn counted_sum(ps: Seq<RankedParticipant>, reqs: Seq<GroupThresholdRequirement>) -> nat
    decreases reqs.len(),
{
    if reqs.len() == 0 {
        0
    } else {
        counted_sum(ps, reqs.drop_last()) + count_rank(ps, reqs.last().rank.0)
    }
}

/// How many requirements speak of rank `r`.
spec fn rank_occurrences(reqs: Seq<GroupThresholdRequirement>, r: u16) -> nat
    decreases reqs.len(),
{
    if reqs.len() == 0 {
        0
    } else {
        rank_occurrences(reqs.drop_last(), r) + if reqs.last().rank.0 == r { 1nat } else { 0nat }
    }
}

proof fn lemma_counted_push(ps: Seq<RankedParticipant>, p: RankedParticipant, reqs: Seq<GroupThresholdRequirement>)
    ensures
        counted_sum(ps.push(p), reqs) == counted_sum(ps, reqs) + rank_occurrences(reqs, p.rank.0),
    decreases reqs.len(),
{
    if reqs.len() > 0 {
        lemma_counted_push(ps, p, reqs.drop_last());
        assert(ps.push(p).drop_last() =~= ps);
    }
}

proof fn lemma_counted_empty(reqs: Seq<GroupThresholdRequirement>)
    ensures
        counted_sum(Seq::<RankedParticipant>::empty(), reqs) == 0,
    decreases reqs.len(),
{
    if reqs.len() > 0 {
        lemma_counted_empty(reqs.drop_last());
    }
}

proof fn lemma_occurrences(reqs: Seq<GroupThresholdRequirement>, r: u16)
    requires
        all_distinct(requirement_ranks(reqs)),
    ensures
        rank_occurrences(reqs, r) == (if requirement_ranks(reqs).contains(r) { 1nat } else { 0nat }),
    decreases reqs.len(),
{
    if reqs.len() > 0 {
        let d = reqs.drop_last();
        let n = reqs.len() - 1;
        assert(requirement_ranks(d) =~= requirement_ranks(reqs).drop_last());
        lemma_occurrences(d, r);
        if requirement_ranks(reqs).contains(r) {
            let k = choose|k: int| 0 <= k < reqs.len() && requirement_ranks(reqs)[k] == r;
            if reqs.last().rank.0 == r {
                if requirement_ranks(d).contains(r) {
                    let j = choose|j: int| 0 <= j < d.len() && requirement_ranks(d)[j] == r;
                    assert(requirement_ranks(reqs)[j] == requirement_ranks(reqs)[n]);
                }
            } else {
                assert(k != n);
                assert(requirement_ranks(d)[k] == r);
            }
        } else {
            if requirement_ranks(d).contains(r) {
                let j = choose|j: int| 0 <= j < d.len() && requirement_ranks(d)[j] == r;
                assert(requirement_ranks(reqs)[j] == r);
            }
            assert(requirement_ranks(reqs)[n] == reqs.last().rank.0);
        }
    }
}

proof fn lemma_counted_covers(ps: Seq<RankedParticipant>, reqs: Seq<GroupThresholdRequirement>)
    requires
        all_distinct(requirement_ranks(reqs)),
        forall|k: int| 0 <= k < ps.len() ==> requirement_ranks(reqs).contains(#[trigger] ps[k].rank.0),
    ensures
        counted_sum(ps, reqs) == ps.len(),
    decreases ps.len(),
{
    if ps.len() == 0 {
        assert(ps =~= Seq::<RankedParticipant>::empty());
        lemma_counted_empty(reqs);
    } else {
        let d = ps.drop_last();
        assert forall|k: int| 0 <= k < d.len() implies requirement_ranks(reqs).contains(#[trigger] d[k].rank.0) by {
            assert(d[k] == ps[k]);
        }
        lemma_counted_covers(d, reqs);
        lemma_counted_push(d, ps.last(), reqs);
        assert(d.push(ps.last()) =~= ps);
        assert(requirement_ranks(reqs).contains(ps[ps.len() - 1].rank.0));
        lemma_occurrences(reqs, ps.last().rank.0);
    }
}

proof fn lemma_totals_counted(ps: Seq<RankedParticipant>, reqs: Seq<GroupThresholdRequirement>)
    requires
        forall|j: int| 0 <= j < reqs.len() ==> count_rank(ps, (#[trigger] reqs[j]).rank.0) == reqs[j].total as nat,
    ensures
        total_sum(reqs) == counted_sum(ps, reqs),
    decreases reqs.len(),
{
    if reqs.len() > 0 {
        let d = reqs.drop_last();
        assert forall|j: int| 0 <= j < d.len() implies count_rank(ps, (#[trigger] d[j]).rank.0) == d[j].total as nat by {
            assert(d[j] == reqs[j]);
        }
        lemma_totals_counted(ps, d);
        assert(reqs[reqs.len() - 1] == reqs.last());
    }
}

proof fn lemma_requirement_scan_none(ps: Seq<RankedParticipant>, reqs: Seq<GroupThresholdRequirement>, i: int)
    requires
        0 <= i,
        requirement_scan(ps, reqs, i) is None,
    ensures
        forall|j: int| i <= j < reqs.len() ==> #[trigger] requirement_error(ps, reqs, j) is None,
    decreases reqs.len() - i,
{
    if i < reqs.len() {
        lemma_requirement_scan_none(ps, reqs, i + 1);
    }
}

proof fn lemma_coverage_scan_none(ps: Seq<RankedParticipant>, reqs: Seq<GroupThresholdRequirement>, i: int)
    requires
        0 <= i,
        coverage_scan(ps, reqs, i) is None,
    ensures
        forall|k: int| i <= k < ps.len() ==> requirement_ranks(reqs).contains(#[trigger] ps[k].rank.0),
    decreases ps.len() - i,
{
    if i < ps.len() {
        lemma_coverage_scan_none(ps, reqs, i + 1);
    }
}

proof fn lemma_requirement_scan_all(ps: Seq<RankedParticipant>, reqs: Seq<GroupThresholdRequirement>, i: int)
    requires
        0 <= i,
        forall|j: int| i <= j < reqs.len() ==> #[trigger] requirement_error(ps, reqs, j) is None,
    ensures
        requirement_scan(ps, reqs, i) is None,
    decreases reqs.len() - i,
{
    if i < reqs.len() {
        lemma_requirement_scan_all(ps, reqs, i + 1);
    }
}

proof fn lemma_coverage_scan_all(ps: Seq<RankedParticipant>, reqs: Seq<GroupThresholdRequirement>, i: int)
    requires
        0 <= i,
        forall|k: int| i <= k < ps.len() ==> requirement_ranks(reqs).contains(#[trigger] ps[k].rank.0),
    ensures
        coverage_scan(ps, reqs, i) is None,
    decreases ps.len() - i,
{
    if i < ps.len() {
        lemma_coverage_scan_all(ps, reqs, i + 1);
    }
}

/// The configurations that `GroupedThresholdConfig::new` accepts, stated at
/// once: a non-empty roster without repeated ids, non-empty requirements
/// without repeated ranks, each requirement's total equal to the number of
/// roster entries of its rank, and every roster entry's rank required.
pub open spec fn grouped_accepts(ps: Seq<RankedParticipant>, reqs: Seq<GroupThresholdRequirement>) -> bool {
    &&& ps.len() > 0
    &&& reqs.len() > 0
    &&& all_distinct(ranked_ids(ps))
    &&& all_distinct(requirement_ranks(reqs))
    &&& forall|j: int| 0 <= j < reqs.len() ==> count_rank(ps, (#[trigger] reqs[j]).rank.0) == reqs[j].total as nat
    &&& forall|k: int| 0 <= k < ps.len() ==> requirement_ranks(reqs).contains(#[trigger] ps[k].rank.0)
}

/// `GroupedThresholdConfig::new` accepts exactly the configurations of
/// `grouped_accepts`.
pub proof fn lemma_grouped_check_closed_form(ps: Seq<RankedParticipant>, reqs: Seq<GroupThresholdRequirement>)
    ensures
        grouped_check(ps, reqs) is None <==> grouped_accepts(ps, reqs),
{
    let ranks = requirement_ranks(reqs);
    if grouped_check(ps, reqs) is None {
        lemma_requirement_scan_none(ps, reqs, 0);
        lemma_coverage_scan_none(ps, reqs, 0);
        assert forall|a: int, b: int| 0 <= a < b < ranks.len() implies ranks[a] != ranks[b] by {
            assert(requirement_error(ps, reqs, b) is None);
            assert(ranks.take(b)[a] == ranks[a]);
        }
        assert forall|j: int| 0 <= j < reqs.len() implies count_rank(ps, (#[trigger] reqs[j]).rank.0) == reqs[j].total as nat by {
            assert(requirement_error(ps, reqs, j) is None);
        }
    }
    if grouped_accepts(ps, reqs) {
        assert forall|j: int| 0 <= j < reqs.len() implies #[trigger] requirement_error(ps, reqs, j) is None by {
            if ranks.take(j).contains(reqs[j].rank.0) {
                let a = choose|a: int| 0 <= a < j && ranks.take(j)[a] == reqs[j].rank.0;
                assert(ranks[a] == ranks[j]);
            }
            assert(count_rank(ps, reqs[j].rank.0) == reqs[j].total as nat);
        }
        lemma_requirement_scan_all(ps, reqs, 0);
        lemma_coverage_scan_all(ps, reqs, 0);
    }
}

/// In a well-formed grouped configuration the declared group sizes add up
/// to the roster length: every roster entry is counted by exactly one
/// requirement.
pub proof fn lemma_group_totals_cover_roster(c: GroupedThresholdConfig)
    requires
        c.wf(),
    ensures
        total_sum(c.requirements@) == c.participants@.len(),
{
    let ps = c.participants@;
    let reqs = c.requirements@;
    lemma_grouped_check_closed_form(ps, reqs);
    lemma_totals_counted(ps, reqs);
    lemma_counted_covers(ps, reqs);
}

/// A roster partitioned into ranks, each rank with its own quorum.
#[derive(Debug, PartialEq, Eq)]
pub struct GroupedThresholdConfig {
    pub participants: Vec<RankedParticipant>,
    pub requirements: Vec<GroupThresholdRequirement>,
}

impl GroupedThresholdConfig {
    /// Well-formed: what `new` accepts.
    pub open spec fn wf(&self) -> bool {
        grouped_check(self.participants@, self.requirements@) is None
    }

    pub fn new(
        participants: Vec<RankedParticipant>,
        requirements: Vec<GroupThresholdRequirement>,
    ) -> (res: Result<GroupedThresholdConfig, DkgKitError>)
        ensures
            err_view(res) == grouped_check(participants@, requirements@),
            res is Ok ==> res == Ok::<GroupedThresholdConfig, DkgKitError>(
                GroupedThresholdConfig { participants, requirements },
            ),
    {
        if participants.len() == 0 || requirements.len() == 0 {
            return Err(
                DkgKitError::InvalidThreshold {
                    threshold: 0,
                    participants: participants.len() as u16,
                },
            );
        }
        let ids = collect_ranked_ids(&participants);
        if let Some(d) = find_first_repeat(&ids) {
            return Err(DkgKitError::DuplicateParticipantId(d));
        }
        let mut i: usize = 0;
        while i < requirements.len()
            invariant
                i <= requirements.len(),
                participants.len() > 0,
                requirements.len() > 0,
                first_repeat(ranked_ids(participants@)) is None,
                requirement_scan(participants@, requirements@, 0) == requirement_scan(
                    participants@,
                    requirements@,
                    i as int,
                ),
            decreases requirements.len() - i,
        {
            let q = requirements[i];
            if rank_required_before(&requirements, i, q.rank.0) {
                let mut msg = String::new();
                msg.append("duplicate grouped threshold rank: ");
                push_decimal(&mut msg, q.rank.0 as u64);
                return Err(DkgKitError::Protocol(msg));
            }
            let actual = count_at_rank(&participants, q.rank.0);
            if actual != q.total as usize {
                let mut msg = String::new();
                msg.append("grouped threshold rank ");
                push_decimal(&mut msg, q.rank.0 as u64);
                msg.append(" total mismatch: declared ");
                push_decimal(&mut msg, q.total as u64);
                msg.append(", found ");
                push_decimal(&mut msg, actual as u64);
                return Err(DkgKitError::Protocol(msg));
            }
            i += 1;
        }
        let mut j: usize = 0;
        while j < participants.len()
            invariant
                j <= participants.len(),
                participants.len() > 0,
                requirements.len() > 0,
                first_repeat(ranked_ids(participants@)) is None,
                requirement_scan(participants@, requirements@, 0) is None,
                coverage_scan(participants@, requirements@, 0) == coverage_scan(
                    participants@,
                    requirements@,
                    j as int,
                ),
            decreases participants.len() - j,
        {
            let r = participants[j].rank.0;
            if !rank_required_before(&requirements, requirements.len(), r) {
                assert(requirement_ranks(requirements@).take(requirements.len() as int)
                    =~= requirement_ranks(requirements@));
                let mut msg = String::new();
                msg.append("missing grouped threshold requirement for rank ");
                push_decimal(&mut msg, r as u64);
                return Err(DkgKitError::Protocol(msg));
            }
            assert(requirement_ranks(requirements@).take(requirements.len() as int)
                =~= requirement_ranks(requirements@));
            j += 1;
        }
        Ok(GroupedThresholdConfig { participants, requirements })
    }

    pub fn participant_count(&self) -> (r: u16)
        ensures
            r == self.participants@.len() as u16,
    {
        self.participants.len() as u16
    }

    /// Sum of the per-rank quorums.
    pub fn required_signer_count(&self) -> (r: u16)
        requires
            required_sum(self.requirements@) <= u16::MAX,
        ensures
            r as nat == required_sum(self.requirements@),
    {
        let mut total: u16 = 0;
        let mut i: usize = 0;
        while i < self.requirements.len()
            invariant
                i <= self.requirements.len(),
                total as nat == required_sum(self.requirements@.take(i as int)),
                required_sum(self.requirements@) <= u16::MAX,
            decreases self.requirements.len() - i,
        {
            proof {
                assert(self.requirements@.take(i + 1).drop_last() =~= self.requirements@.take(i as int));
                lemma_required_sum_prefix(self.requirements@, i + 1);
            }
            total = total + self.requirements[i].required;
            i += 1;
        }
        assert(self.requirements@.take(self.requirements.len() as int) =~= self.requirements@);
        total
    }

    pub fn threshold_config(&self) -> (res: Result<ThresholdConfig, DkgKitError>)
        requires
            required_sum(self.requirements@) <= u16::MAX,
        ensures
            res == ThresholdConfig::new_spec(
                required_sum(self.requirements@) as u16,
                self.participants@.len() as u16,
            ),
    {
        ThresholdConfig::new(self.required_signer_count(), self.participant_count())
    }

    pub fn rank_of(&self, participant_id: ParticipantId) -> (r: Option<Rank>)
        ensures
            r == rank_in(self.participants@, participant_id.0),
    {
        find_rank(&self.participants, participant_id)
    }
}

/// A prefix never sums to more than the whole.
pub proof fn lemma_required_sum_prefix(reqs: Seq<GroupThresholdRequirement>, k: int)
    requires
        0 <= k <= reqs.len(),
    ensures
        required_sum(reqs.take(k)) <= required_sum(reqs),
    decreases reqs.len(),
{
    if k < reqs.len() {
        assert(reqs.drop_last().take(k) =~= reqs.take(k));
        lemma_required_sum_prefix(reqs.drop_last(), k);
    } else {
        assert(reqs.take(k) =~= reqs);
    }
}

/// Which rule a signer set must satisfy.
#[derive(Debug, Clone, PartialEq, Eq)]
pub enum SigningPolicy {
    Threshold(ThresholdConfig),
    Hierarchical(HierarchicalThresholdConfig),
    Grouped(GroupedThresholdConfig),
}


/// The first roster entry carrying `id`, if any.
pub open spec fn participant_in(ps: Seq<Participant>, id: u16) -> Option<Participant>
    decreases ps.len(),
{
    if ps.len() == 0 {
        None
    } else if ps[0].id.0 == id {
        Some(ps[0])
    } else {
        participant_in(ps.drop_first(), id)
    }
}

/// The first roster position, from `j` on, that is out of range or repeats an id.
pub open spec fn roster_scan(ids: Seq<u16>, count: u16, j: int) -> Option<ErrorView>
    decreases ids.len() - j,
{
    if j < 0 || j >= ids.len() {
        None
    } else if ids[j] > count {
        Some(ErrorView::ParticipantOutOfRange { participant_id: ids[j], participants: count })
    } else if ids.take(j).contains(ids[j]) {
        Some(ErrorView::DuplicateParticipantId(ids[j]))
    } else {
        roster_scan(ids, count, j + 1)
    }
}

/// The outcome `SessionConfig::new` owes for given inputs.
pub open spec fn session_check(
    session_id: Seq<char>,
    threshold: u16,
    count: u16,
    ps: Seq<Participant>,
) -> Option<ErrorView> {
    if !threshold_shape_ok(threshold, count) {
        Some(ErrorView::InvalidThreshold { threshold, participants: count })
    } else if ps.len() != count as nat {
        Some(ErrorView::ParticipantCountMismatch { expected: count, actual: ps.len() as usize })
    } else if roster_scan(participant_ids(ps), count, 0) is Some {
        roster_scan(participant_ids(ps), count, 0)
    } else if is_blank_text(session_id) {
        Some(ErrorView::EmptySessionId)
    } else {
        None
    }
}

/// The scan from entry `j` on passes exactly when each later id is in range
/// and did not occur before it.
proof fn lemma_roster_scan_from(ids: Seq<u16>, count: u16, j: int)
    requires
        0 <= j <= ids.len(),
    ensures
        roster_scan(ids, count, j) is None <==> forall|i: int|
            j <= i < ids.len() ==> #[trigger] ids[i] <= count && !ids.take(i).contains(ids[i]),
    decreases ids.len() - j,
{
    if j < ids.len() {
        lemma_roster_scan_from(ids, count, j + 1);
    }
}

/// A roster passes the scan exactly when every id is at most the
/// participant count and no id occurs twice.
pub proof fn lemma_roster_scan_accepts(ids: Seq<u16>, count: u16)
    ensures
        roster_scan(ids, count, 0) is None <==> (forall|i: int| 0 <= i < ids.len() ==> #[trigger] ids[i] <= count)
            && ids.no_duplicates(),
{
    lemma_roster_scan_from(ids, count, 0);
    if roster_scan(ids, count, 0) is None {
        assert forall|a: int, b: int| 0 <= a < ids.len() && 0 <= b < ids.len() && a != b implies ids[a] != ids[b] by {
            let (lo, hi) = if a < b { (a, b) } else { (b, a) };
            assert(ids.take(hi)[lo] == ids[lo]);
            assert(!ids.take(hi).contains(ids[hi]));
        }
    }
    if (forall|i: int| 0 <= i < ids.len() ==> #[trigger] ids[i] <= count) && ids.no_duplicates() {
        assert forall|i: int| 0 <= i < ids.len() implies #[trigger] ids[i] <= count && !ids.take(i).contains(ids[i]) by {
            if ids.take(i).contains(ids[i]) {
                let w = choose|w: int| 0 <= w < ids.take(i).len() && ids.take(i)[w] == ids[i];
                assert(ids[w] == ids[i]);
            }
        }
    }
}

/// `SessionConfig::new` accepts exactly a threshold between 1 and the
/// participant count, a roster of that many participants whose ids are in
/// range and distinct, and a session id that is not blank.
pub proof fn lemma_session_config_accepts(session_id: Seq<char>, threshold: u16, count: u16, ps: Seq<Participant>)
    ensures
        session_check(session_id, threshold, count, ps) is None <==> {
            &&& 1 <= threshold <= count
            &&& ps.len() == count as nat
            &&& forall|i: int| 0 <= i < ps.len() ==> (#[trigger] ps[i]).id.0 <= count
            &&& participant_ids(ps).no_duplicates()
            &&& !is_blank_text(session_id)
        },
{
    lemma_roster_scan_accepts(participant_ids(ps), count);
    assert forall|i: int| 0 <= i < ps.len() implies #[trigger] participant_ids(ps)[i] == ps[i].id.0 by {}
    if (forall|i: int| 0 <= i < ps.len() ==> (#[trigger] ps[i]).id.0 <= count) {
        assert forall|i: int| 0 <= i < participant_ids(ps).len() implies #[trigger] participant_ids(ps)[i] <= count by {
            assert(ps[i].id.0 <= count);
        }
    }
    if (forall|i: int| 0 <= i < participant_ids(ps).len() ==> #[trigger] participant_ids(ps)[i] <= count) {
        assert forall|i: int| 0 <= i < ps.len() implies (#[trigger] ps[i]).id.0 <= count by {
            assert(participant_ids(ps)[i] <= count);
        }
    }
}

/// Distinct values, each taken from a sequence of distinct values and as
/// many as it has, are all of its values.
pub proof fn lemma_distinct_cover(a: Seq<u16>, b: Seq<u16>)
    requires
        a.no_duplicates(),
        b.no_duplicates(),
        a.len() == b.len(),
        forall|i: int| 0 <= i < a.len() ==> b.contains(#[trigger] a[i]),
    ensures
        forall|x: u16| b.contains(x) ==> a.contains(x),
{
    vstd::seq_lib::seq_to_set_is_finite(a);
    vstd::seq_lib::seq_to_set_is_finite(b);
    a.unique_seq_to_set();
    b.unique_seq_to_set();
    assert forall|x: u16| a.to_set().contains(x) implies b.to_set().contains(x) by {
        let i = choose|i: int| 0 <= i < a.len() && a[i] == x;
        assert(b.contains(a[i]));
    }
    vstd::set_lib::lemma_subset_equality(a.to_set(), b.to_set());
    assert forall|x: u16| b.contains(x) implies a.contains(x) by {
        assert(b.to_set().contains(x));
        assert(a.to_set().contains(x));
    }
}

/// Ids of a plain roster as a vector.
fn collect_participant_ids(ps: &Vec<Participant>) -> (r: Vec<u16>)
    ensures
        r@ == participant_ids(ps@),
{
    let mut out: Vec<u16> = Vec::new();
    let mut i: usize = 0;
    while i < ps.len()
        invariant
            i <= ps.len(),
            out@ == participant_ids(ps@).take(i as int),
        decreases ps.len() - i,
    {
        out.push(ps[i].id.0);
        proof {
            assert(participant_ids(ps@).take(i + 1) =~= participant_ids(ps@).take(i as int).push(
                ps@[i as int].id.0,
            ));
        }
        i += 1;
    }
    assert(participant_ids(ps@).take(ps.len() as int) =~= participant_ids(ps@));
    out
}

/// The configuration of one FROST DKG session.
#[derive(Debug, PartialEq, Eq)]
pub struct SessionConfig {
    pub session_id: SessionId,
    pub threshold: ThresholdConfig,
    pub participants: Vec<Participant>,
}

impl SessionConfig {
    pub fn new(
        session_id: &str,
        threshold: u16,
        participant_count: u16,
        participants: Vec<Participant>,
    ) -> (res: Result<SessionConfig, DkgKitError>)
        ensures
            err_view(res) == session_check(session_id@, threshold, participant_count, participants@),
            res matches Ok(c) ==> c.session_id@ == session_id@ && c.threshold == (ThresholdConfig {
                threshold,
                participants: participant_count,
            }) && c.participants == participants,
    {
        let threshold_config = ThresholdConfig::new(threshold, participant_count)?;
        if participants.len() != participant_count as usize {
            return Err(
                DkgKitError::ParticipantCountMismatch {
                    expected: participant_count,
                    actual: participants.len(),
                },
            );
        }
        let ids = collect_participant_ids(&participants);
        let mut j: usize = 0;
        while j < ids.len()
            invariant
                j <= ids.len(),
                ids@ == participant_ids(participants@),
                threshold_shape_ok(threshold, participant_count),
                participants@.len() == participant_count as nat,
                roster_scan(ids@, participant_count, 0) == roster_scan(
                    ids@,
                    participant_count,
                    j as int,
                ),
            decreases ids.len() - j,
        {
            let id = ids[j];
            if id > participant_count {
                return Err(
                    DkgKitError::ParticipantOutOfRange {
                        participant_id: id,
                        participants: participant_count,
                    },
                );
            }
            if occurs_before(&ids, j, id) {
                return Err(DkgKitError::DuplicateParticipantId(id));
            }
            j += 1;
        }
        let sid = SessionId::new(session_id)?;
        Ok(SessionConfig { session_id: sid, threshold: threshold_config, participants })
    }

    /// The first participant carrying `id`.
    pub fn participant(&self, id: ParticipantId) -> (r: Option<&Participant>)
        ensures
            match r {
                Some(p) => participant_in(self.participants@, id.0) == Some(*p),
                None => participant_in(self.participants@, id.0) is None,
            },
    {
        let mut i: usize = 0;
        assert(self.participants@.skip(0) =~= self.participants@);
        while i < self.participants.len()
            invariant
                i <= self.participants.len(),
                participant_in(self.participants@, id.0) == participant_in(
                    self.participants@.skip(i as int),
                    id.0,
                ),
            decreases self.participants.len() - i,
        {
            assert(self.participants@.skip(i as int).drop_first() =~= self.participants@.skip(
                i + 1,
            ));
            if self.participants[i].id.0 == id.0 {
                return Some(&self.participants[i]);
            }
            i += 1;
        }
        None
    }
}

/// Lifecycle of a session.
#[derive(Debug, Clone, Copy, PartialEq, Eq, Structural)]
pub enum SessionPhase {
    Created,
    Round1,
    Round2,
    Finalized,
    Signing,
    Complete,
    Failed,
}

/// A session configuration tagged with its protocol and phase.
#[derive(Debug, PartialEq, Eq)]
pub struct SessionManifest {
    pub config: SessionConfig,
    pub protocol: String,
    pub protocol_version: String,
    pub phase: SessionPhase,
}

impl SessionManifest {
    /// A freshly created FROST 0.1 manifest.
    pub fn frost_v1(config: SessionConfig) -> (res: SessionManifest)
        ensures
            res.config == config,
            res.protocol@ == "frost"@,
            res.protocol_version@ == "0.1"@,
            res.phase == SessionPhase::Created,
    {
        SessionManifest {
            config,
            protocol: String::from_str("frost"),
            protocol_version: String::from_str("0.1"),
            phase: SessionPhase::Created,
        }
    }
}

/// What a protocol message carries.
#[derive(Debug, PartialEq, Eq)]
pub enum ProtocolMessageKind {
    SessionManifest,
    FrostDkgRound1,
    FrostDkgRound2,
    HtssDkgRound1,
    HtssDkgRound2,
    FrostSigningNonce,
    FrostSignatureShare,
    HtssSigningNonce,
    HtssSignatureShare,
    Custom(String),
}

/// A message kind with its custom text taken as characters.
pub enum KindView {
    SessionManifest,
    FrostDkgRound1,
    FrostDkgRound2,
    HtssDkgRound1,
    HtssDkgRound2,
    FrostSigningNonce,
    FrostSignatureShare,
    HtssSigningNonce,
    HtssSignatureShare,
    Custom(Seq<char>),
}

impl View for ProtocolMessageKind {
    type V = KindView;

    open spec fn view(&self) -> KindView {
        match self {
            ProtocolMessageKind::SessionManifest => KindView::SessionManifest,
            ProtocolMessageKind::FrostDkgRound1 => KindView::FrostDkgRound1,
            ProtocolMessageKind::FrostDkgRound2 => KindView::FrostDkgRound2,
            ProtocolMessageKind::HtssDkgRound1 => KindView::HtssDkgRound1,
            ProtocolMessageKind::HtssDkgRound2 => KindView::HtssDkgRound2,
            ProtocolMessageKind::FrostSigningNonce => KindView::FrostSigningNonce,
            ProtocolMessageKind::FrostSignatureShare => KindView::FrostSignatureShare,
            ProtocolMessageKind::HtssSigningNonce => KindView::HtssSigningNonce,
            ProtocolMessageKind::HtssSignatureShare => KindView::HtssSignatureShare,
            ProtocolMessageKind::Custom(s) => KindView::Custom(s@),
        }
    }
}

/// A number per variant of a message kind.
pub open spec fn variant_code_of(k: KindView) -> u8 {
    match k {
        KindView::SessionManifest => 0,
        KindView::FrostDkgRound1 => 1,
        KindView::FrostDkgRound2 => 2,
        KindView::HtssDkgRound1 => 3,
        KindView::HtssDkgRound2 => 4,
        KindView::FrostSigningNonce => 5,
        KindView::FrostSignatureShare => 6,
        KindView::HtssSigningNonce => 7,
        KindView::HtssSignatureShare => 8,
        KindView::Custom(_) => 9,
    }
}

/// The wire tag of a message kind.
pub open spec fn kind_text(k: KindView) -> Seq<char> {
    match k {
        KindView::SessionManifest => "session_manifest"@,
        KindView::FrostDkgRound1 => "frost_dkg_round1"@,
        KindView::FrostDkgRound2 => "frost_dkg_round2"@,
        KindView::HtssDkgRound1 => "htss_dkg_round1"@,
        KindView::HtssDkgRound2 => "htss_dkg_round2"@,
        KindView::FrostSigningNonce => "frost_signing_nonce"@,
        KindView::FrostSignatureShare => "frost_signature_share"@,
        KindView::HtssSigningNonce => "htss_signing_nonce"@,
        KindView::HtssSignatureShare => "htss_signature_share"@,
        KindView::Custom(s) => s,
    }
}

/// The message kind a wire tag names; legacy short tags are accepted too.
pub open spec fn kind_from_text(t: Seq<char>) -> KindView {
    if t == "session_manifest"@ {
        KindView::SessionManifest
    } else if t == "frost_dkg_round1"@ || t == "round1"@ {
        KindView::FrostDkgRound1
    } else if t == "frost_dkg_round2"@ || t == "round2"@ {
        KindView::FrostDkgRound2
    } else if t == "htss_dkg_round1"@ {
        KindView::HtssDkgRound1
    } else if t == "htss_dkg_round2"@ {
        KindView::HtssDkgRound2
    } else if t == "frost_signing_nonce"@ || t == "nonce"@ {
        KindView::FrostSigningNonce
    } else if t == "frost_signature_share"@ || t == "signature_share"@ {
        KindView::FrostSignatureShare
    } else if t == "htss_signing_nonce"@ {
        KindView::HtssSigningNonce
    } else if t == "htss_signature_share"@ {
        KindView::HtssSignatureShare
    } else {
        KindView::Custom(t)
    }
}

/// The wire tag of a built-in kind reads back as that kind.
pub proof fn lemma_kind_tag_round_trip(k: KindView)
    requires
        !(k is Custom),
    ensures
        kind_from_text(kind_text(k)) == k,
{
    reveal_strlit("session_manifest");
    reveal_strlit("frost_dkg_round1");
    reveal_strlit("round1");
    reveal_strlit("frost_dkg_round2");
    reveal_strlit("round2");
    reveal_strlit("htss_dkg_round1");
    reveal_strlit("htss_dkg_round2");
    reveal_strlit("frost_signing_nonce");
    reveal_strlit("nonce");
    reveal_strlit("frost_signature_share");
    reveal_strlit("signature_share");
    reveal_strlit("htss_signing_nonce");
    reveal_strlit("htss_signature_share");
    let t = kind_text(k);
    match k {
        KindView::SessionManifest => {
            assert(t == "session_manifest"@);
        },
        KindView::FrostDkgRound1 => {
            assert(t == "frost_dkg_round1"@);
            assert(t != "session_manifest"@) by { assert(t[0] != "session_manifest"@[0]); }
        },
        KindView::FrostDkgRound2 => {
            assert(t == "frost_dkg_round2"@);
            assert(t != "session_manifest"@) by { assert(t[0] != "session_manifest"@[0]); }
            assert(t != "frost_dkg_round1"@) by { assert(t[15] != "frost_dkg_round1"@[15]); }
            assert(t != "round1"@) by { assert(t.len() != "round1"@.len()); }
        },
        KindView::HtssDkgRound1 => {
            assert(t == "htss_dkg_round1"@);
            assert(t != "session_manifest"@) by { assert(t.len() != "session_manifest"@.len()); }
            assert(t != "frost_dkg_round1"@) by { assert(t.len() != "frost_dkg_round1"@.len()); }
            assert(t != "round1"@) by { assert(t.len() != "round1"@.len()); }
            assert(t != "frost_dkg_round2"@) by { assert(t.len() != "frost_dkg_round2"@.len()); }
            assert(t != "round2"@) by { assert(t.len() != "round2"@.len()); }
        },
        KindView::HtssDkgRound2 => {
            assert(t == "htss_dkg_round2"@);
            assert(t != "session_manifest"@) by { assert(t.len() != "session_manifest"@.len()); }
            assert(t != "frost_dkg_round1"@) by { assert(t.len() != "frost_dkg_round1"@.len()); }
            assert(t != "round1"@) by { assert(t.len() != "round1"@.len()); }
            assert(t != "frost_dkg_round2"@) by { assert(t.len() != "frost_dkg_round2"@.len()); }
            assert(t != "round2"@) by { assert(t.len() != "round2"@.len()); }
            assert(t != "htss_dkg_round1"@) by { assert(t[14] != "htss_dkg_round1"@[14]); }
        },
        KindView::FrostSigningNonce => {
            assert(t == "frost_signing_nonce"@);
            assert(t != "session_manifest"@) by { assert(t.len() != "session_manifest"@.len()); }
            assert(t != "frost_dkg_round1"@) by { assert(t.len() != "frost_dkg_round1"@.len()); }
            assert(t != "round1"@) by { assert(t.len() != "round1"@.len()); }
            assert(t != "frost_dkg_round2"@) by { assert(t.len() != "frost_dkg_round2"@.len()); }
            assert(t != "round2"@) by { assert(t.len() != "round2"@.len()); }
            assert(t != "htss_dkg_round1"@) by { assert(t.len() != "htss_dkg_round1"@.len()); }
            assert(t != "htss_dkg_round2"@) by { assert(t.len() != "htss_dkg_round2"@.len()); }
        },
        KindView::FrostSignatureShare => {
            assert(t == "frost_signature_share"@);
            assert(t != "session_manifest"@) by { assert(t.len() != "session_manifest"@.len()); }
            assert(t != "frost_dkg_round1"@) by { assert(t.len() != "frost_dkg_round1"@.len()); }
            assert(t != "round1"@) by { assert(t.len() != "round1"@.len()); }
            assert(t != "frost_dkg_round2"@) by { assert(t.len() != "frost_dkg_round2"@.len()); }
            assert(t != "round2"@) by { assert(t.len() != "round2"@.len()); }
            assert(t != "htss_dkg_round1"@) by { assert(t.len() != "htss_dkg_round1"@.len()); }
            assert(t != "htss_dkg_round2"@) by { assert(t.len() != "htss_dkg_round2"@.len()); }
            assert(t != "frost_signing_nonce"@) by { assert(t.len() != "frost_signing_nonce"@.len()); }
            assert(t != "nonce"@) by { assert(t.len() != "nonce"@.len()); }
        },
        KindView::HtssSigningNonce => {
            assert(t == "htss_signing_nonce"@);
            assert(t != "session_manifest"@) by { assert(t.len() != "session_manifest"@.len()); }
            assert(t != "frost_dkg_round1"@) by { assert(t.len() != "frost_dkg_round1"@.len()); }
            assert(t != "round1"@) by { assert(t.len() != "round1"@.len()); }
            assert(t != "frost_dkg_round2"@) by { assert(t.len() != "frost_dkg_round2"@.len()); }
            assert(t != "round2"@) by { assert(t.len() != "round2"@.len()); }
            assert(t != "htss_dkg_round1"@) by { assert(t.len() != "htss_dkg_round1"@.len()); }
            assert(t != "htss_dkg_round2"@) by { assert(t.len() != "htss_dkg_round2"@.len()); }
            assert(t != "frost_signing_nonce"@) by { assert(t.len() != "frost_signing_nonce"@.len()); }
            assert(t != "nonce"@) by { assert(t.len() != "nonce"@.len()); }
            assert(t != "frost_signature_share"@) by { assert(t.len() != "frost_signature_share"@.len()); }
            assert(t != "signature_share"@) by { assert(t.len() != "signature_share"@.len()); }
        },
        KindView::HtssSignatureShare => {
            assert(t == "htss_signature_share"@);
            assert(t != "session_manifest"@) by { assert(t.len() != "session_manifest"@.len()); }
            assert(t != "frost_dkg_round1"@) by { assert(t.len() != "frost_dkg_round1"@.len()); }
            assert(t != "round1"@) by { assert(t.len() != "round1"@.len()); }
            assert(t != "frost_dkg_round2"@) by { assert(t.len() != "frost_dkg_round2"@.len()); }
            assert(t != "round2"@) by { assert(t.len() != "round2"@.len()); }
            assert(t != "htss_dkg_round1"@) by { assert(t.len() != "htss_dkg_round1"@.len()); }
            assert(t != "htss_dkg_round2"@) by { assert(t.len() != "htss_dkg_round2"@.len()); }
            assert(t != "frost_signing_nonce"@) by { assert(t.len() != "frost_signing_nonce"@.len()); }
            assert(t != "nonce"@) by { assert(t.len() != "nonce"@.len()); }
            assert(t != "frost_signature_share"@) by { assert(t.len() != "frost_signature_share"@.len()); }
            assert(t != "signature_share"@) by { assert(t.len() != "signature_share"@.len()); }
            assert(t != "htss_signing_nonce"@) by { assert(t.len() != "htss_signing_nonce"@.len()); }
        },
        KindView::Custom(_) => {},
    }
}

/// The tags read as a built-in kind: the kinds' own tags and the short
/// aliases of the FROST kinds.
pub open spec fn reserved_kind_tag(t: Seq<char>) -> bool {
    ||| t == "session_manifest"@
    ||| t == "frost_dkg_round1"@
    ||| t == "round1"@
    ||| t == "frost_dkg_round2"@
    ||| t == "round2"@
    ||| t == "htss_dkg_round1"@
    ||| t == "htss_dkg_round2"@
    ||| t == "frost_signing_nonce"@
    ||| t == "nonce"@
    ||| t == "frost_signature_share"@
    ||| t == "signature_share"@
    ||| t == "htss_signing_nonce"@
    ||| t == "htss_signature_share"@
}

/// A custom kind whose text is no reserved tag reads back from its tag as
/// itself.
pub proof fn lemma_custom_kind_round_trip(s: Seq<char>)
    requires
        !reserved_kind_tag(s),
    ensures
        kind_from_text(kind_text(KindView::Custom(s))) == KindView::Custom(s),
{
}

/// Each short alias reads as the FROST kind it abbreviates.
pub proof fn lemma_kind_aliases()
    ensures
        kind_from_text("round1"@) == KindView::FrostDkgRound1,
        kind_from_text("round2"@) == KindView::FrostDkgRound2,
        kind_from_text("nonce"@) == KindView::FrostSigningNonce,
        kind_from_text("signature_share"@) == KindView::FrostSignatureShare,
{
    reveal_strlit("session_manifest");
    reveal_strlit("frost_dkg_round1");
    reveal_strlit("round1");
    reveal_strlit("frost_dkg_round2");
    reveal_strlit("round2");
    reveal_strlit("htss_dkg_round1");
    reveal_strlit("htss_dkg_round2");
    reveal_strlit("frost_signing_nonce");
    reveal_strlit("nonce");
    reveal_strlit("signature_share");
    assert("round1"@ != "session_manifest"@) by { assert("round1"@.len() != "session_manifest"@.len()); }
    assert("round2"@ != "session_manifest"@) by { assert("round2"@.len() != "session_manifest"@.len()); }
    assert("round2"@ != "frost_dkg_round1"@) by { assert("round2"@.len() != "frost_dkg_round1"@.len()); }
    assert("round2"@ != "round1"@) by { assert("round2"@[5] != "round1"@[5]); }
    assert("nonce"@ != "session_manifest"@) by { assert("nonce"@.len() != "session_manifest"@.len()); }
    assert("nonce"@ != "frost_dkg_round1"@) by { assert("nonce"@.len() != "frost_dkg_round1"@.len()); }
    assert("nonce"@ != "round1"@) by { assert("nonce"@.len() != "round1"@.len()); }
    assert("nonce"@ != "frost_dkg_round2"@) by { assert("nonce"@.len() != "frost_dkg_round2"@.len()); }
    assert("nonce"@ != "round2"@) by { assert("nonce"@.len() != "round2"@.len()); }
    assert("nonce"@ != "htss_dkg_round1"@) by { assert("nonce"@.len() != "htss_dkg_round1"@.len()); }
    assert("nonce"@ != "htss_dkg_round2"@) by { assert("nonce"@.len() != "htss_dkg_round2"@.len()); }
    assert("signature_share"@ != "session_manifest"@) by { assert("signature_share"@.len() != "session_manifest"@.len()); }
    assert("signature_share"@ != "frost_dkg_round1"@) by { assert("signature_share"@.len() != "frost_dkg_round1"@.len()); }
    assert("signature_share"@ != "round1"@) by { assert("signature_share"@.len() != "round1"@.len()); }
    assert("signature_share"@ != "frost_dkg_round2"@) by { assert("signature_share"@.len() != "frost_dkg_round2"@.len()); }
    assert("signature_share"@ != "round2"@) by { assert("signature_share"@.len() != "round2"@.len()); }
    assert("signature_share"@ != "htss_dkg_round1"@) by { assert("signature_share"@[0] != "htss_dkg_round1"@[0]); }
    assert("signature_share"@ != "htss_dkg_round2"@) by { assert("signature_share"@[0] != "htss_dkg_round2"@[0]); }
    assert("signature_share"@ != "frost_signing_nonce"@) by { assert("signature_share"@.len() != "frost_signing_nonce"@.len()); }
    assert("signature_share"@ != "nonce"@) by { assert("signature_share"@.len() != "nonce"@.len()); }
}

impl Clone for ProtocolMessageKind {
    fn clone(&self) -> (res: Self)
        ensures
            res@ == self@,
    {
        match self {
            ProtocolMessageKind::SessionManifest => ProtocolMessageKind::SessionManifest,
            ProtocolMessageKind::FrostDkgRound1 => ProtocolMessageKind::FrostDkgRound1,
            ProtocolMessageKind::FrostDkgRound2 => ProtocolMessageKind::FrostDkgRound2,
            ProtocolMessageKind::HtssDkgRound1 => ProtocolMessageKind::HtssDkgRound1,
            ProtocolMessageKind::HtssDkgRound2 => ProtocolMessageKind::HtssDkgRound2,
            ProtocolMessageKind::FrostSigningNonce => ProtocolMessageKind::FrostSigningNonce,
            ProtocolMessageKind::FrostSignatureShare => ProtocolMessageKind::FrostSignatureShare,
            ProtocolMessageKind::HtssSigningNonce => ProtocolMessageKind::HtssSigningNonce,
            ProtocolMessageKind::HtssSignatureShare => ProtocolMessageKind::HtssSignatureShare,
            ProtocolMessageKind::Custom(s) => ProtocolMessageKind::Custom(s.clone()),
        }
    }
}

impl ProtocolMessageKind {
    /// An application-specific kind; its tag cannot be blank.
    pub fn custom(value: &str) -> (res: Result<ProtocolMessageKind, DkgKitError>)
        ensures
            is_blank_text(value@) ==> res == Err::<ProtocolMessageKind, DkgKitError>(
                DkgKitError::EmptyMessageKind,
            ),
            !is_blank_text(value@) ==> (res matches Ok(k) && k@ == KindView::Custom(value@)),
    {
        if is_blank(value) {
            return Err(DkgKitError::EmptyMessageKind);
        }
        Ok(ProtocolMessageKind::Custom(value.to_owned()))
    }

    /// The wire tag of this kind.
    pub fn as_str(&self) -> (res: &str)
        ensures
            res@ == kind_text(self@),
    {
        match self {
            ProtocolMessageKind::SessionManifest => "session_manifest",
            ProtocolMessageKind::FrostDkgRound1 => "frost_dkg_round1",
            ProtocolMessageKind::FrostDkgRound2 => "frost_dkg_round2",
            ProtocolMessageKind::HtssDkgRound1 => "htss_dkg_round1",
            ProtocolMessageKind::HtssDkgRound2 => "htss_dkg_round2",
            ProtocolMessageKind::FrostSigningNonce => "frost_signing_nonce",
            ProtocolMessageKind::FrostSignatureShare => "frost_signature_share",
            ProtocolMessageKind::HtssSigningNonce => "htss_signing_nonce",
            ProtocolMessageKind::HtssSignatureShare => "htss_signature_share",
            ProtocolMessageKind::Custom(value) => value.as_str(),
        }
    }

    /// The kind a wire tag names (unknown tags become custom kinds).
    pub fn from_tag(value: &str) -> (res: ProtocolMessageKind)
        ensures
            res@ == kind_from_text(value@),
    {
        if str_eq(value, "session_manifest") {
            ProtocolMessageKind::SessionManifest
        } else if str_eq(value, "frost_dkg_round1") || str_eq(value, "round1") {
            ProtocolMessageKind::FrostDkgRound1
        } else if str_eq(value, "frost_dkg_round2") || str_eq(value, "round2") {
            ProtocolMessageKind::FrostDkgRound2
        } else if str_eq(value, "htss_dkg_round1") {
            ProtocolMessageKind::HtssDkgRound1
        } else if str_eq(value, "htss_dkg_round2") {
            ProtocolMessageKind::HtssDkgRound2
        } else if str_eq(value, "frost_signing_nonce") || str_eq(value, "nonce") {
            ProtocolMessageKind::FrostSigningNonce
        } else if str_eq(value, "frost_signature_share") || str_eq(value, "signature_share") {
            ProtocolMessageKind::FrostSignatureShare
        } else if str_eq(value, "htss_signing_nonce") {
            ProtocolMessageKind::HtssSigningNonce
        } else if str_eq(value, "htss_signature_share") {
            ProtocolMessageKind::HtssSignatureShare
        } else {
            ProtocolMessageKind::Custom(value.to_owned())
        }
    }

    /// A number per variant.
    fn variant_code(&self) -> (c: u8)
        ensures
            c == variant_code_of(self@),
    {
        match self {
            ProtocolMessageKind::SessionManifest => 0,
            ProtocolMessageKind::FrostDkgRound1 => 1,
            ProtocolMessageKind::FrostDkgRound2 => 2,
            ProtocolMessageKind::HtssDkgRound1 => 3,
            ProtocolMessageKind::HtssDkgRound2 => 4,
            ProtocolMessageKind::FrostSigningNonce => 5,
            ProtocolMessageKind::FrostSignatureShare => 6,
            ProtocolMessageKind::HtssSigningNonce => 7,
            ProtocolMessageKind::HtssSignatureShare => 8,
            ProtocolMessageKind::Custom(_) => 9,
        }
    }

    /// Compares two kinds, custom tags by their text.
    pub fn same_kind(&self, other: &ProtocolMessageKind) -> (res: bool)
        ensures
            res == (self@ == other@),
    {
        match (self, other) {
            (ProtocolMessageKind::Custom(a), ProtocolMessageKind::Custom(b)) => str_eq(a.as_str(), b.as_str()),
            _ => self.variant_code() == other.variant_code(),
        }
    }
}

/// A transport envelope for one protocol message.
#[derive(Debug, PartialEq, Eq)]
pub struct ProtocolMessage {
    pub protocol_version: String,
    pub session_id: SessionId,
    pub sender: ParticipantId,
    pub recipient: Option<ParticipantId>,
    pub kind: ProtocolMessageKind,
    pub payload: Vec<u8>,
}

/// A protocol message with its texts and bytes taken as sequences.
pub struct MessageView {
    pub protocol_version: Seq<char>,
    pub session_id: Seq<char>,
    pub sender: u16,
    pub recipient: Option<u16>,
    pub kind: KindView,
    pub payload: Seq<u8>,
}

/// The plain number of an optional participant.
pub open spec fn opt_id(r: Option<ParticipantId>) -> Option<u16> {
    match r {
        Some(p) => Some(p.0),
        None => None,
    }
}

impl View for ProtocolMessage {
    type V = MessageView;

    open spec fn view(&self) -> MessageView {
        MessageView {
            protocol_version: self.protocol_version@,
            session_id: self.session_id@,
            sender: self.sender.0,
            recipient: opt_id(self.recipient),
            kind: self.kind@,
            payload: self.payload@,
        }
    }
}

impl Clone for ProtocolMessage {
    fn clone(&self) -> (res: Self)
        ensures
            res@ == self@,
    {
        ProtocolMessage {
            protocol_version: self.protocol_version.clone(),
            session_id: self.session_id.clone(),
            sender: self.sender,
            recipient: self.recipient,
            kind: self.kind.clone(),
            payload: self.payload.clone(),
        }
    }
}

/// The envelope `direct`/`broadcast` build.
pub open spec fn envelope(
    session_id: Seq<char>,
    sender: u16,
    recipient: Option<u16>,
    kind: KindView,
    payload: Seq<u8>,
) -> MessageView {
    MessageView {
        protocol_version: DKGKIT_PROTOCOL_VERSION@,
        session_id,
        sender,
        recipient,
        kind,
        payload,
    }
}

impl ProtocolMessage {
    /// Same as `broadcast`.
    pub fn new(
        session_id: SessionId,
        sender: ParticipantId,
        kind: ProtocolMessageKind,
        payload: Vec<u8>,
    ) -> (res: ProtocolMessage)
        ensures
            res@ == envelope(session_id@, sender.0, None, kind@, payload@),
    {
        Self::broadcast(session_id, sender, kind, payload)
    }

    /// A message for every participant of the session.
    pub fn broadcast(
        session_id: SessionId,
        sender: ParticipantId,
        kind: ProtocolMessageKind,
        payload: Vec<u8>,
    ) -> (res: ProtocolMessage)
        ensures
            res@ == envelope(session_id@, sender.0, None, kind@, payload@),
    {
        ProtocolMessage {
            protocol_version: String::from_str(DKGKIT_PROTOCOL_VERSION),
            session_id,
            sender,
            recipient: None,
            kind,
            payload,
        }
    }

    /// A message addressed to one participant.
    pub fn direct(
        session_id: SessionId,
        sender: ParticipantId,
        recipient: ParticipantId,
        kind: ProtocolMessageKind,
        payload: Vec<u8>,
    ) -> (res: ProtocolMessage)
        ensures
            res@ == envelope(session_id@, sender.0, Some(recipient.0), kind@, payload@),
    {
        ProtocolMessage {
            protocol_version: String::from_str(DKGKIT_PROTOCOL_VERSION),
            session_id,
            sender,
            recipient: Some(recipient),
            kind,
            payload,
        }
    }

    /// The JSON wire form of this message.
    pub fn encode_json(&self) -> (r: Result<Vec<u8>, DkgKitError>)
        ensures
            r matches Ok(v) && v@ == enc_message(self@),
    {
        Ok(encode_message(self))
    }

    /// Reads a message from its JSON wire form; anything else is refused.
    pub fn decode_json(bytes: &[u8]) -> (r: Result<ProtocolMessage, DkgKitError>)
        ensures
            match dec_message(bytes@) {
                Some(m) => r matches Ok(x) && x@ == m,
                None => r matches Err(DkgKitError::Serialization(_)),
            },
    {
        match decode_message(bytes) {
            Some(m) => Ok(m),
            None => Err(DkgKitError::Serialization(String::from_str("invalid protocol message encoding"))),
        }
    }

    /// Broadcasts are for everyone; direct messages only for their recipient.
    pub fn is_for(&self, participant_id: ParticipantId) -> (r: bool)
        ensures
            r == match self.recipient {
                Some(p) => p == participant_id,
                None => true,
            },
    {
        match self.recipient {
            Some(recipient) => recipient == participant_id,
            None => true,
        }
    }
}


/// The text of an optional label.
pub open spec fn label_view(l: Option<String>) -> Option<Seq<char>> {
    match l {
        Some(s) => Some(s@),
        None => None,
    }
}

fn clone_label(l: &Option<String>) -> (r: Option<String>)
    ensures
        label_view(r) == label_view(*l),
{
    match l {
        Some(s) => Some(s.clone()),
        None => None,
    }
}

impl Clone for RankedParticipant {
    fn clone(&self) -> (res: Self)
        ensures
            res.id == self.id,
            res.rank == self.rank,
            label_view(res.label) == label_view(self.label),
    {
        RankedParticipant { id: self.id, rank: self.rank, label: clone_label(&self.label) }
    }
}

/// Two rosters list the same participants, ranks and labels in the same order.
pub open spec fn same_roster(a: Seq<RankedParticipant>, b: Seq<RankedParticipant>) -> bool {
    &&& a.len() == b.len()
    &&& forall|i: int|
        0 <= i < a.len() ==> (#[trigger] a[i]).id == b[i].id && a[i].rank == b[i].rank
            && label_view(a[i].label) == label_view(b[i].label)
}

/// Copies a roster.
pub fn clone_roster(ps: &Vec<RankedParticipant>) -> (r: Vec<RankedParticipant>)
    ensures
        same_roster(r@, ps@),
{
    let mut out: Vec<RankedParticipant> = Vec::new();
    let mut i: usize = 0;
    while i < ps.len()
        invariant
            i <= ps@.len(),
            out@.len() == i,
            forall|k: int|
                0 <= k < i ==> (#[trigger] out@[k]).id == ps@[k].id && out@[k].rank == ps@[k].rank
                    && label_view(out@[k].label) == label_view(ps@[k].label),
        decreases ps@.len() - i,
    {
        out.push(ps[i].clone());
        i += 1;
    }
    out
}

/// Lookups and id lists only read ids and ranks.
pub proof fn lemma_same_roster(a: Seq<RankedParticipant>, b: Seq<RankedParticipant>, id: u16)
    requires
        same_roster(a, b),
    ensures
        rank_in(a, id) == rank_in(b, id),
        ranked_ids(a) == ranked_ids(b),
        ranked_ranks(a) == ranked_ranks(b),
    decreases a.len(),
{
    if a.len() > 0 {
        assert(same_roster(a.drop_first(), b.drop_first())) by {
            assert forall|i: int| 0 <= i < a.drop_first().len() implies (#[trigger] a.drop_first()[i]).id
                == b.drop_first()[i].id && a.drop_first()[i].rank == b.drop_first()[i].rank
                && label_view(a.drop_first()[i].label) == label_view(b.drop_first()[i].label) by {
                assert(a.drop_first()[i] == a[i + 1]);
                assert(b.drop_first()[i] == b[i + 1]);
            }
        }
        lemma_same_roster(a.drop_first(), b.drop_first(), id);
        assert(a[0].id == b[0].id);
    }
    assert(ranked_ids(a) =~= ranked_ids(b));
    assert(ranked_ranks(a) =~= ranked_ranks(b));
}

impl Clone for HierarchicalThresholdConfig {
    fn clone(&self) -> (res: Self)
        ensures
            res.threshold == self.threshold,
            same_roster(res.participants@, self.participants@),
    {
        HierarchicalThresholdConfig {
            threshold: self.threshold,
            participants: clone_roster(&self.participants),
        }
    }
}

impl Clone for GroupedThresholdConfig {
    fn clone(&self) -> (res: Self)
        ensures
            res.requirements@ == self.requirements@,
            same_roster(res.participants@, self.participants@),
    {
        GroupedThresholdConfig {
            participants: clone_roster(&self.participants),
            requirements: self.requirements.clone(),
        }
    }
}

} // verus!
