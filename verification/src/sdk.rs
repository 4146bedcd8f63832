//! The developer-facing layer: a session builder, an HTSS DKG service, and a
//! coordinator that moves packages over any transport.
use vstd::prelude::*;
use crate::htss_dkg::{
    finalize_htss_dkg, finalize_outcome, htss_dkg_round1, htss_dkg_round2, keyset_from_rounds, round1_views,
    round2_views, run_distributed_htss_keygen, HtssDkgRound1State,
};
use crate::packages::{
    enc_htss_nonce, enc_htss_round1, enc_htss_round2, enc_htss_sig_share, enc_nonce, enc_round1, enc_round2, enc_sig_share, htss_nonce_from_message, htss_round1_from_message,
    htss_round2_from_message, htss_sig_share_from_message, nonce_from_message,
    round1_from_message, round2_from_message, sig_share_from_message, HtssDkgRound1Package,
    HtssDkgRound1View, HtssDkgRound2Package, HtssDkgRound2View, HtssNoncePackage, HtssNonceView,
    HtssSignatureSharePackage, HtssSignatureShareView, NoncePackage, NonceView, Round1Package,
    Round1View, Round2Package, Round2View, SignatureShareView, SignatureSharePackage,
};
use crate::requests::{AggregateSignature, DkgSessionConfig, GroupKey, HtssLocalKeySet, HtssLocalKeyShare, LocalKeyShare, SigningRequest};
use crate::frost_session::{keygen_map, round1_list, signers_numbered, FrostDkgSession, FrostSigningSession};
use crate::frost_backend::{aggregated_shared_key, bincode_empty_list, shared_key_xonly};
use crate::curve::bip340_verifies;
use crate::signers::{
    policy_checkable, policy_signer_error, signer_ids, signer_set_error, validate_signer_set,
    validate_signer_set_with_policy,
};
use crate::text::is_blank_text;
use crate::transport::{drain_picks, reject, select, Transport};
use crate::types::{
    envelope, session_check, DkgKitError, ErrorView, HierarchicalThresholdConfig, KindView,
    MessageView, Participant, ParticipantId, ProtocolMessage, ProtocolMessageKind, SessionConfig,
    SessionId, SessionManifest, SessionPhase, SigningPolicy, ThresholdConfig, threshold_shape_ok,
};

verus! {

/// Collects the pieces of a session configuration.
#[derive(Debug)]
pub struct DkgKitSessionBuilder {
    pub session_id: Option<String>,
    pub threshold: Option<u16>,
    pub participant_count: Option<u16>,
    pub participants: Vec<Participant>,
    pub local_participant_id: Option<u16>,
}

impl Default for DkgKitSessionBuilder {
    fn default() -> (r: Self)
        ensures
            r.session_id is None,
            r.threshold is None,
            r.participant_count is None,
            r.participants@.len() == 0,
            r.local_participant_id is None,
    {
        DkgKitSessionBuilder {
            session_id: None,
            threshold: None,
            participant_count: None,
            participants: Vec::new(),
            local_participant_id: None,
        }
    }
}

/// The text a builder's session id option stands for.
pub open spec fn session_text(s: Option<String>) -> Seq<char> {
    match s {
        Some(v) => v@,
        None => "default"@,
    }
}

pub open spec fn or_zero(v: Option<u16>) -> u16 {
    match v {
        Some(x) => x,
        None => 0,
    }
}

impl DkgKitSessionBuilder {
    /// An empty builder.
    pub fn new() -> (r: Self)
        ensures
            r.session_id is None,
            r.threshold is None,
            r.participant_count is None,
            r.participants@.len() == 0,
            r.local_participant_id is None,
    {
        Self::default()
    }

    pub fn session_id(self, value: &str) -> (r: Self)
        ensures
            r.session_id matches Some(s) && s@ == value@,
            r.threshold == self.threshold,
            r.participant_count == self.participant_count,
            r.participants == self.participants,
            r.local_participant_id == self.local_participant_id,
    {
        let mut b = self;
        b.session_id = Some(String::from_str(value));
        b
    }

    pub fn threshold(self, threshold: u16, participant_count: u16) -> (r: Self)
        ensures
            r.session_id == self.session_id,
            r.threshold == Some(threshold),
            r.participant_count == Some(participant_count),
            r.participants == self.participants,
            r.local_participant_id == self.local_participant_id,
    {
        let mut b = self;
        b.threshold = Some(threshold);
        b.participant_count = Some(participant_count);
        b
    }

    /// Adds a participant; id 0 is refused.
    pub fn participant(self, id: u16, label: Option<String>) -> (r: Result<Self, DkgKitError>)
        ensures
            id == 0 ==> (r matches Err(e) && e == DkgKitError::InvalidParticipantId(0)),
            id != 0 ==> (r matches Ok(b) && b.session_id == self.session_id && b.threshold
                == self.threshold && b.participant_count == self.participant_count
                && b.local_participant_id == self.local_participant_id && b.participants@
                == self.participants@.push(Participant { id: ParticipantId(id), label })),
    {
        let p = Participant::new(id, label)?;
        let mut b = self;
        b.participants.push(p);
        Ok(b)
    }

    pub fn local_participant(self, id: u16) -> (r: Self)
        ensures
            r.session_id == self.session_id,
            r.threshold == self.threshold,
            r.participant_count == self.participant_count,
            r.participants == self.participants,
            r.local_participant_id == Some(id),
    {
        let mut b = self;
        b.local_participant_id = Some(id);
        b
    }

    /// The FROST manifest of the collected configuration; a missing session
    /// id stands for "default", a missing threshold or count for 0.
    pub fn build_manifest(self) -> (r: Result<SessionManifest, DkgKitError>)
        ensures
            crate::types::err_view(r) == session_check(
                session_text(self.session_id),
                or_zero(self.threshold),
                or_zero(self.participant_count),
                self.participants@,
            ),
            r matches Ok(m) ==> m.config.session_id@ == session_text(self.session_id)
                && m.config.threshold.threshold == or_zero(self.threshold)
                && m.config.threshold.participants == or_zero(self.participant_count)
                && m.config.participants == self.participants && m.protocol@ == "frost"@
                && m.protocol_version@ == "0.1"@ && m.phase == SessionPhase::Created,
    {
        let session_id = match self.session_id {
            Some(s) => s,
            None => String::from_str("default"),
        };
        let threshold = match self.threshold {
            Some(t) => t,
            None => 0,
        };
        let count = match self.participant_count {
            Some(c) => c,
            None => 0,
        };
        let config = SessionConfig::new(session_id.as_str(), threshold, count, self.participants)?;
        Ok(SessionManifest::frost_v1(config))
    }

    /// A FROST key generation session for the local participant (which must
    /// be set and non-zero) under the built manifest's configuration.
    pub fn build_frost_session(self) -> (r: Result<FrostDkgSession, DkgKitError>)
        ensures
            or_zero(self.local_participant_id) == 0 ==> (r matches Err(e) && e == DkgKitError::InvalidParticipantId(0)),
            or_zero(self.local_participant_id) != 0 ==> crate::types::err_view(r) == session_check(
                session_text(self.session_id),
                or_zero(self.threshold),
                or_zero(self.participant_count),
                self.participants@,
            ),
            r matches Ok(s) ==> !s.started() && s.cfg().session_id@ == session_text(self.session_id)
                && s.cfg().threshold == (ThresholdConfig { threshold: or_zero(self.threshold), participants: or_zero(self.participant_count) })
                && s.cfg().participant_id == ParticipantId(or_zero(self.local_participant_id)),
    {
        let local = match self.local_participant_id {
            Some(id) => id,
            None => 0,
        };
        let local_participant_id = ParticipantId::new(local)?;
        let manifest = self.build_manifest()?;
        let config = DkgSessionConfig {
            session_id: manifest.config.session_id,
            threshold: manifest.config.threshold,
            participant_id: local_participant_id,
        };
        Ok(FrostDkgSession::new(config))
    }
}

/// A FROST key generation session for one participant: the session id must
/// not be blank, the threshold shape must hold, and the participant must be
/// non-zero, checked in that order.
pub fn create_frost_session(session_id: &str, threshold: u16, participants: u16, participant_id: u16) -> (r: Result<
    FrostDkgSession,
    DkgKitError,
>)
    ensures
        is_blank_text(session_id@) ==> r == Err::<FrostDkgSession, DkgKitError>(DkgKitError::EmptySessionId),
        !is_blank_text(session_id@) && !threshold_shape_ok(threshold, participants) ==> r == Err::<FrostDkgSession, DkgKitError>(
            DkgKitError::InvalidThreshold { threshold, participants },
        ),
        !is_blank_text(session_id@) && threshold_shape_ok(threshold, participants) && participant_id == 0 ==> r == Err::<
            FrostDkgSession,
            DkgKitError,
        >(DkgKitError::InvalidParticipantId(0)),
        r matches Ok(s) ==> !s.started() && s.cfg().session_id@ == session_id@
            && s.cfg().threshold == (ThresholdConfig { threshold, participants })
            && s.cfg().participant_id == ParticipantId(participant_id),
        r is Ok <==> (!is_blank_text(session_id@) && threshold_shape_ok(threshold, participants) && participant_id != 0),
{
    let config = DkgSessionConfig {
        session_id: SessionId::new(session_id)?,
        threshold: ThresholdConfig::new(threshold, participants)?,
        participant_id: ParticipantId::new(participant_id)?,
    };
    Ok(FrostDkgSession::new(config))
}

/// Runs a whole FROST key generation in memory, one session per participant
/// `1..=participants`: every round-1 package goes to every session, and every
/// round-2 package to every session's finalize.
pub fn run_local_frost_dkg(session_id: &str, threshold: u16, participants: u16) -> (r: Result<Vec<LocalKeyShare>, DkgKitError>)
    ensures
        participants == 0 ==> (r matches Ok(v) && v@.len() == 0),
        participants > 0 && is_blank_text(session_id@) ==> r == Err::<Vec<LocalKeyShare>, DkgKitError>(DkgKitError::EmptySessionId),
        participants > 0 && !is_blank_text(session_id@) && !threshold_shape_ok(threshold, participants) ==> r == Err::<
            Vec<LocalKeyShare>,
            DkgKitError,
        >(DkgKitError::InvalidThreshold { threshold, participants }),
        r matches Ok(v) ==> v@.len() == participants && forall|k: int| 0 <= k < v@.len() ==> (#[trigger] v@[k]).participant_id.0 == k + 1,
        r matches Ok(v) ==> forall|j: int, k: int| 0 <= j < v@.len() && 0 <= k < v@.len()
            ==> (#[trigger] v@[j]).group_key.xonly_public_key@ == (#[trigger] v@[k]).group_key.xonly_public_key@
            && v@[j].group_key.verification_key_bytes@ == v@[k].group_key.verification_key_bytes@,
{
    let mut sessions: Vec<FrostDkgSession> = Vec::new();
    let mut made: u16 = 0;
    while made < participants
        invariant
            made <= participants,
            sessions@.len() == made,
            made > 0 ==> !is_blank_text(session_id@) && threshold_shape_ok(threshold, participants),
            forall|k: int| 0 <= k < sessions@.len() ==> (#[trigger] sessions@[k]).cfg().participant_id.0 == k + 1
                && sessions@[k].cfg().threshold.threshold >= 1,
        decreases participants - made,
    {
        let session = create_frost_session(session_id, threshold, participants, made + 1)?;
        sessions.push(session);
        made += 1;
    }
    let mut round1: Vec<Round1Package> = Vec::new();
    let mut i: usize = 0;
    while i < sessions.len()
        invariant
            i <= sessions@.len(),
            sessions@.len() == participants,
            participants > 0 ==> !is_blank_text(session_id@) && threshold_shape_ok(threshold, participants),
            forall|k: int| 0 <= k < sessions@.len() ==> (#[trigger] sessions@[k]).cfg().participant_id.0 == k + 1
                && sessions@[k].cfg().threshold.threshold >= 1,
        decreases sessions@.len() - i,
    {
        let package = sessions[i].round1()?;
        round1.push(package);
        i += 1;
    }
    let ghost held = round1_list(round1@);
    let mut round2: Vec<Round2Package> = Vec::new();
    let mut i: usize = 0;
    while i < sessions.len()
        invariant
            i <= sessions@.len(),
            sessions@.len() == participants,
            held == round1_list(round1@),
            participants > 0 ==> !is_blank_text(session_id@) && threshold_shape_ok(threshold, participants),
            forall|k: int| 0 <= k < sessions@.len() ==> (#[trigger] sessions@[k]).cfg().participant_id.0 == k + 1
                && sessions@[k].cfg().threshold.threshold >= 1,
            forall|k: int| 0 <= k < i ==> (#[trigger] sessions@[k]).round1_held() == held,
        decreases sessions@.len() - i,
    {
        let mut packages = sessions[i].round2(round1.as_slice())?;
        round2.append(&mut packages);
        i += 1;
    }
    let ghost key = aggregated_shared_key(keygen_map(held));
    let mut shares: Vec<LocalKeyShare> = Vec::new();
    let mut i: usize = 0;
    while i < sessions.len()
        invariant
            i <= sessions@.len(),
            sessions@.len() == participants,
            participants > 0 ==> !is_blank_text(session_id@) && threshold_shape_ok(threshold, participants),
            shares@.len() == i,
            forall|k: int| 0 <= k < sessions@.len() ==> (#[trigger] sessions@[k]).cfg().participant_id.0 == k + 1
                && sessions@[k].cfg().threshold.threshold >= 1,
            forall|k: int| 0 <= k < sessions@.len() ==> (#[trigger] sessions@[k]).round1_held() == held,
            key == aggregated_shared_key(keygen_map(held)),
            forall|k: int| 0 <= k < i ==> (#[trigger] shares@[k]).participant_id.0 == k + 1
                && key == Some((shares@[k].group_key.xonly_public_key@, shares@[k].group_key.verification_key_bytes@)),
        decreases sessions@.len() - i,
    {
        let share = sessions[i].finalize(round2.as_slice())?;
        shares.push(share);
        i += 1;
    }
    Ok(shares)
}

/// An HTSS DKG for one session and hierarchy.
#[derive(Debug)]
pub struct HtssDkgService {
    pub session_id: SessionId,
    pub config: HierarchicalThresholdConfig,
}

impl HtssDkgService {
    /// A service for a non-blank session id.
    pub fn new(session_id: &str, config: HierarchicalThresholdConfig) -> (r: Result<Self, DkgKitError>)
        ensures
            is_blank_text(session_id@) ==> (r matches Err(e) && e == DkgKitError::EmptySessionId),
            !is_blank_text(session_id@) ==> (r matches Ok(s) && s.session_id@ == session_id@ && s.config == config),
    {
        let sid = SessionId::new(session_id)?;
        Ok(HtssDkgService { session_id: sid, config })
    }

    pub fn begin_round1(&self, participant_id: ParticipantId) -> (r: Result<HtssDkgRound1State, DkgKitError>)
        ensures
            crate::types::rank_in(self.config.participants@, participant_id.0) is None <==> r is Err,
            r matches Ok(s) ==> s.package.participant_id == participant_id,
    {
        htss_dkg_round1(participant_id, &self.config)
    }

    /// The broadcast envelope of a round-1 package in this session.
    pub fn round1_message(&self, package: &HtssDkgRound1Package) -> (r: Result<ProtocolMessage, DkgKitError>)
        ensures
            r matches Ok(m) && m@ == envelope(
                self.session_id@,
                package.participant_id.0,
                None,
                KindView::HtssDkgRound1,
                enc_htss_round1(package@),
            ),
    {
        package.to_protocol_message(self.session_id.clone())
    }

    pub fn create_round2_packages(
        &self,
        state: &HtssDkgRound1State,
        round1_packages: &[HtssDkgRound1Package],
    ) -> (r: Result<Vec<HtssDkgRound2Package>, DkgKitError>)
        ensures
            r matches Ok(v) ==> v@.len() == self.config.participants@.len(),
            crate::htss_dkg::round2_error(*state, round1_views(round1_packages@), self.config) matches Some(e)
                ==> (r matches Err(x) && x@ == e),
    {
        htss_dkg_round2(state, round1_packages, &self.config)
    }

    /// The direct envelope of a round-2 package in this session.
    pub fn round2_message(&self, package: &HtssDkgRound2Package) -> (r: Result<ProtocolMessage, DkgKitError>)
        ensures
            r matches Ok(m) && m@ == envelope(
                self.session_id@,
                package.sender.0,
                Some(package.recipient.0),
                KindView::HtssDkgRound2,
                enc_htss_round2(package@),
            ),
    {
        package.to_protocol_message(self.session_id.clone())
    }

    pub fn finalize_participant(
        &self,
        participant_id: ParticipantId,
        round1_packages: &[HtssDkgRound1Package],
        round2_packages: &[HtssDkgRound2Package],
    ) -> (r: Result<(GroupKey, HtssLocalKeyShare), DkgKitError>)
        ensures
            match finalize_outcome(participant_id.0, round1_views(round1_packages@), round2_views(round2_packages@), self.config) {
                Err(e) => r matches Err(x) && x@ == e,
                Ok((x, rank, s)) => r matches Ok((g, sh)) && g.xonly_public_key@ == x && sh.participant_id
                    == participant_id && sh.rank == rank && crate::scalar::sv(sh.share_value_bytes) == s,
            },
    {
        finalize_htss_dkg(participant_id, round1_packages, round2_packages, &self.config)
    }

    pub fn run_local_rehearsal(&self) -> (r: Result<HtssLocalKeySet, DkgKitError>)
        ensures
            r matches Ok(set) ==> set.shares@.len() == self.config.participants@.len(),
            r matches Ok(set) ==> exists|r1: Seq<HtssDkgRound1View>, r2: Seq<HtssDkgRound2View>|
                #[trigger] keyset_from_rounds(set, r1, r2, self.config),
    {
        run_distributed_htss_keygen(&self.config)
    }
}

/// A broadcast envelope, or one sent to `recipient`.
pub open spec fn addressed_to(m: MessageView, recipient: u16) -> bool {
    match m.recipient {
        Some(p) => p == recipient,
        None => true,
    }
}

/// `v` are the packages decoded from envelopes `ms` of the session, each of kind FrostDkgRound1.
pub open spec fn drained_round1(ms: Seq<MessageView>, session: Seq<char>, v: Seq<Round1View>) -> bool {
    &&& ms.len() == v.len()
    &&& forall|i: int| 0 <= i < ms.len() ==> (#[trigger] ms[i]).session_id == session && ms[i].kind
        == KindView::FrostDkgRound1 && round1_from_message(ms[i]) == Ok::<Round1View, ErrorView>(v[i])
}

pub open spec fn frost_round1_views(v: Seq<Round1Package>) -> Seq<Round1View> {
    v.map_values(|p: Round1Package| p@)
}

/// `v` are the packages decoded from envelopes `ms` of the session, each of kind FrostDkgRound2.
pub open spec fn drained_round2(ms: Seq<MessageView>, session: Seq<char>, recipient: u16, v: Seq<Round2View>) -> bool {
    &&& ms.len() == v.len()
    &&& forall|i: int| 0 <= i < ms.len() ==> (#[trigger] ms[i]).session_id == session && ms[i].kind
        == KindView::FrostDkgRound2 && addressed_to(ms[i], recipient) && round2_from_message(ms[i]) == Ok::<Round2View, ErrorView>(v[i])
}

pub open spec fn frost_round2_views(v: Seq<Round2Package>) -> Seq<Round2View> {
    v.map_values(|p: Round2Package| p@)
}

/// `v` are the packages decoded from envelopes `ms` of the session, each of kind HtssDkgRound1.
pub open spec fn drained_htss_round1(ms: Seq<MessageView>, session: Seq<char>, v: Seq<HtssDkgRound1View>) -> bool {
    &&& ms.len() == v.len()
    &&& forall|i: int| 0 <= i < ms.len() ==> (#[trigger] ms[i]).session_id == session && ms[i].kind
        == KindView::HtssDkgRound1 && htss_round1_from_message(ms[i]) == Ok::<HtssDkgRound1View, ErrorView>(v[i])
}

/// `v` are the packages decoded from envelopes `ms` of the session, each of kind HtssDkgRound2.
pub open spec fn drained_htss_round2(ms: Seq<MessageView>, session: Seq<char>, recipient: u16, v: Seq<HtssDkgRound2View>) -> bool {
    &&& ms.len() == v.len()
    &&& forall|i: int| 0 <= i < ms.len() ==> (#[trigger] ms[i]).session_id == session && ms[i].kind
        == KindView::HtssDkgRound2 && addressed_to(ms[i], recipient) && htss_round2_from_message(ms[i]) == Ok::<HtssDkgRound2View, ErrorView>(v[i])
}

/// `v` are the packages decoded from envelopes `ms` of the session, each of kind FrostSigningNonce.
pub open spec fn drained_nonce(ms: Seq<MessageView>, session: Seq<char>, v: Seq<NonceView>) -> bool {
    &&& ms.len() == v.len()
    &&& forall|i: int| 0 <= i < ms.len() ==> (#[trigger] ms[i]).session_id == session && ms[i].kind
        == KindView::FrostSigningNonce && nonce_from_message(ms[i]) == Ok::<NonceView, ErrorView>(v[i])
}

pub open spec fn nonce_views(v: Seq<NoncePackage>) -> Seq<NonceView> {
    v.map_values(|p: NoncePackage| p@)
}

/// `v` are the packages decoded from envelopes `ms` of the session, each of kind FrostSignatureShare.
pub open spec fn drained_sig_share(ms: Seq<MessageView>, session: Seq<char>, v: Seq<SignatureShareView>) -> bool {
    &&& ms.len() == v.len()
    &&& forall|i: int| 0 <= i < ms.len() ==> (#[trigger] ms[i]).session_id == session && ms[i].kind
        == KindView::FrostSignatureShare && sig_share_from_message(ms[i]) == Ok::<SignatureShareView, ErrorView>(v[i])
}

pub open spec fn sig_share_views(v: Seq<SignatureSharePackage>) -> Seq<SignatureShareView> {
    v.map_values(|p: SignatureSharePackage| p@)
}

/// `v` are the packages decoded from envelopes `ms` of the session, each of kind HtssSigningNonce.
pub open spec fn drained_htss_nonce(ms: Seq<MessageView>, session: Seq<char>, v: Seq<HtssNonceView>) -> bool {
    &&& ms.len() == v.len()
    &&& forall|i: int| 0 <= i < ms.len() ==> (#[trigger] ms[i]).session_id == session && ms[i].kind
        == KindView::HtssSigningNonce && htss_nonce_from_message(ms[i]) == Ok::<HtssNonceView, ErrorView>(v[i])
}

pub open spec fn htss_nonce_views(v: Seq<HtssNoncePackage>) -> Seq<HtssNonceView> {
    v.map_values(|p: HtssNoncePackage| p@)
}

/// `v` are the packages decoded from envelopes `ms` of the session, each of kind HtssSignatureShare.
pub open spec fn drained_htss_sig_share(ms: Seq<MessageView>, session: Seq<char>, v: Seq<HtssSignatureShareView>) -> bool {
    &&& ms.len() == v.len()
    &&& forall|i: int| 0 <= i < ms.len() ==> (#[trigger] ms[i]).session_id == session && ms[i].kind
        == KindView::HtssSignatureShare && htss_sig_share_from_message(ms[i]) == Ok::<HtssSignatureShareView, ErrorView>(v[i])
}

pub open spec fn htss_sig_share_views(v: Seq<HtssSignatureSharePackage>) -> Seq<HtssSignatureShareView> {
    v.map_values(|p: HtssSignatureSharePackage| p@)
}

/// Decodes drained envelopes in order: every package, or the refusal of
/// the first envelope that does not decode.
pub fn round1_packages_from_messages(messages: &[ProtocolMessage]) -> (r: Result<Vec<Round1Package>, DkgKitError>)
    ensures
        match r {
            Ok(v) => v@.len() == messages@.len() && forall|i: int| 0 <= i < messages@.len()
                ==> #[trigger] round1_from_message(messages@[i]@) == Ok::<Round1View, ErrorView>(v@[i]@),
            Err(e) => exists|j: int| 0 <= j < messages@.len() && round1_from_message(messages@[j]@) == Err::<Round1View, ErrorView>(e@)
                && forall|k: int| 0 <= k < j ==> (#[trigger] round1_from_message(messages@[k]@)) is Ok,
        },
{
    let mut out: Vec<Round1Package> = Vec::new();
    let mut i: usize = 0;
    while i < messages.len()
        invariant
            i <= messages@.len(),
            out@.len() == i,
            forall|k: int| 0 <= k < i ==> #[trigger] round1_from_message(messages@[k]@) == Ok::<Round1View, ErrorView>(out@[k]@),
        decreases messages@.len() - i,
    {
        match Round1Package::from_protocol_message(&messages[i]) {
            Ok(p) => out.push(p),
            Err(e) => return Err(e),
        }
        i += 1;
    }
    Ok(out)
}

/// Decodes drained envelopes in order: every package, or the refusal of
/// the first envelope that does not decode.
pub fn round2_packages_from_messages(messages: &[ProtocolMessage]) -> (r: Result<Vec<Round2Package>, DkgKitError>)
    ensures
        match r {
            Ok(v) => v@.len() == messages@.len() && forall|i: int| 0 <= i < messages@.len()
                ==> #[trigger] round2_from_message(messages@[i]@) == Ok::<Round2View, ErrorView>(v@[i]@),
            Err(e) => exists|j: int| 0 <= j < messages@.len() && round2_from_message(messages@[j]@) == Err::<Round2View, ErrorView>(e@)
                && forall|k: int| 0 <= k < j ==> (#[trigger] round2_from_message(messages@[k]@)) is Ok,
        },
{
    let mut out: Vec<Round2Package> = Vec::new();
    let mut i: usize = 0;
    while i < messages.len()
        invariant
            i <= messages@.len(),
            out@.len() == i,
            forall|k: int| 0 <= k < i ==> #[trigger] round2_from_message(messages@[k]@) == Ok::<Round2View, ErrorView>(out@[k]@),
        decreases messages@.len() - i,
    {
        match Round2Package::from_protocol_message(&messages[i]) {
            Ok(p) => out.push(p),
            Err(e) => return Err(e),
        }
        i += 1;
    }
    Ok(out)
}

/// Decodes drained envelopes in order: every package, or the refusal of
/// the first envelope that does not decode.
pub fn htss_round1_packages_from_messages(messages: &[ProtocolMessage]) -> (r: Result<Vec<HtssDkgRound1Package>, DkgKitError>)
    ensures
        match r {
            Ok(v) => v@.len() == messages@.len() && forall|i: int| 0 <= i < messages@.len()
                ==> #[trigger] htss_round1_from_message(messages@[i]@) == Ok::<HtssDkgRound1View, ErrorView>(v@[i]@),
            Err(e) => exists|j: int| 0 <= j < messages@.len() && htss_round1_from_message(messages@[j]@) == Err::<HtssDkgRound1View, ErrorView>(e@)
                && forall|k: int| 0 <= k < j ==> (#[trigger] htss_round1_from_message(messages@[k]@)) is Ok,
        },
{
    let mut out: Vec<HtssDkgRound1Package> = Vec::new();
    let mut i: usize = 0;
    while i < messages.len()
        invariant
            i <= messages@.len(),
            out@.len() == i,
            forall|k: int| 0 <= k < i ==> #[trigger] htss_round1_from_message(messages@[k]@) == Ok::<HtssDkgRound1View, ErrorView>(out@[k]@),
        decreases messages@.len() - i,
    {
        match HtssDkgRound1Package::from_protocol_message(&messages[i]) {
            Ok(p) => out.push(p),
            Err(e) => return Err(e),
        }
        i += 1;
    }
    Ok(out)
}

/// Decodes drained envelopes in order: every package, or the refusal of
/// the first envelope that does not decode.
pub fn htss_round2_packages_from_messages(messages: &[ProtocolMessage]) -> (r: Result<Vec<HtssDkgRound2Package>, DkgKitError>)
    ensures
        match r {
            Ok(v) => v@.len() == messages@.len() && forall|i: int| 0 <= i < messages@.len()
                ==> #[trigger] htss_round2_from_message(messages@[i]@) == Ok::<HtssDkgRound2View, ErrorView>(v@[i]@),
            Err(e) => exists|j: int| 0 <= j < messages@.len() && htss_round2_from_message(messages@[j]@) == Err::<HtssDkgRound2View, ErrorView>(e@)
                && forall|k: int| 0 <= k < j ==> (#[trigger] htss_round2_from_message(messages@[k]@)) is Ok,
        },
{
    let mut out: Vec<HtssDkgRound2Package> = Vec::new();
    let mut i: usize = 0;
    while i < messages.len()
        invariant
            i <= messages@.len(),
            out@.len() == i,
            forall|k: int| 0 <= k < i ==> #[trigger] htss_round2_from_message(messages@[k]@) == Ok::<HtssDkgRound2View, ErrorView>(out@[k]@),
        decreases messages@.len() - i,
    {
        match HtssDkgRound2Package::from_protocol_message(&messages[i]) {
            Ok(p) => out.push(p),
            Err(e) => return Err(e),
        }
        i += 1;
    }
    Ok(out)
}

/// Decodes drained envelopes in order: every package, or the refusal of
/// the first envelope that does not decode.
pub fn nonce_packages_from_messages(messages: &[ProtocolMessage]) -> (r: Result<Vec<NoncePackage>, DkgKitError>)
    ensures
        match r {
            Ok(v) => v@.len() == messages@.len() && forall|i: int| 0 <= i < messages@.len()
                ==> #[trigger] nonce_from_message(messages@[i]@) == Ok::<NonceView, ErrorView>(v@[i]@),
            Err(e) => exists|j: int| 0 <= j < messages@.len() && nonce_from_message(messages@[j]@) == Err::<NonceView, ErrorView>(e@)
                && forall|k: int| 0 <= k < j ==> (#[trigger] nonce_from_message(messages@[k]@)) is Ok,
        },
{
    let mut out: Vec<NoncePackage> = Vec::new();
    let mut i: usize = 0;
    while i < messages.len()
        invariant
            i <= messages@.len(),
            out@.len() == i,
            forall|k: int| 0 <= k < i ==> #[trigger] nonce_from_message(messages@[k]@) == Ok::<NonceView, ErrorView>(out@[k]@),
        decreases messages@.len() - i,
    {
        match NoncePackage::from_protocol_message(&messages[i]) {
            Ok(p) => out.push(p),
            Err(e) => return Err(e),
        }
        i += 1;
    }
    Ok(out)
}

/// Decodes drained envelopes in order: every package, or the refusal of
/// the first envelope that does not decode.
pub fn signature_share_packages_from_messages(messages: &[ProtocolMessage]) -> (r: Result<Vec<SignatureSharePackage>, DkgKitError>)
    ensures
        match r {
            Ok(v) => v@.len() == messages@.len() && forall|i: int| 0 <= i < messages@.len()
                ==> #[trigger] sig_share_from_message(messages@[i]@) == Ok::<SignatureShareView, ErrorView>(v@[i]@),
            Err(e) => exists|j: int| 0 <= j < messages@.len() && sig_share_from_message(messages@[j]@) == Err::<SignatureShareView, ErrorView>(e@)
                && forall|k: int| 0 <= k < j ==> (#[trigger] sig_share_from_message(messages@[k]@)) is Ok,
        },
{
    let mut out: Vec<SignatureSharePackage> = Vec::new();
    let mut i: usize = 0;
    while i < messages.len()
        invariant
            i <= messages@.len(),
            out@.len() == i,
            forall|k: int| 0 <= k < i ==> #[trigger] sig_share_from_message(messages@[k]@) == Ok::<SignatureShareView, ErrorView>(out@[k]@),
        decreases messages@.len() - i,
    {
        match SignatureSharePackage::from_protocol_message(&messages[i]) {
            Ok(p) => out.push(p),
            Err(e) => return Err(e),
        }
        i += 1;
    }
    Ok(out)
}

/// Decodes drained envelopes in order: every package, or the refusal of
/// the first envelope that does not decode.
pub fn htss_nonce_packages_from_messages(messages: &[ProtocolMessage]) -> (r: Result<Vec<HtssNoncePackage>, DkgKitError>)
    ensures
        match r {
            Ok(v) => v@.len() == messages@.len() && forall|i: int| 0 <= i < messages@.len()
                ==> #[trigger] htss_nonce_from_message(messages@[i]@) == Ok::<HtssNonceView, ErrorView>(v@[i]@),
            Err(e) => exists|j: int| 0 <= j < messages@.len() && htss_nonce_from_message(messages@[j]@) == Err::<HtssNonceView, ErrorView>(e@)
                && forall|k: int| 0 <= k < j ==> (#[trigger] htss_nonce_from_message(messages@[k]@)) is Ok,
        },
{
    let mut out: Vec<HtssNoncePackage> = Vec::new();
    let mut i: usize = 0;
    while i < messages.len()
        invariant
            i <= messages@.len(),
            out@.len() == i,
            forall|k: int| 0 <= k < i ==> #[trigger] htss_nonce_from_message(messages@[k]@) == Ok::<HtssNonceView, ErrorView>(out@[k]@),
        decreases messages@.len() - i,
    {
        match HtssNoncePackage::from_protocol_message(&messages[i]) {
            Ok(p) => out.push(p),
            Err(e) => return Err(e),
        }
        i += 1;
    }
    Ok(out)
}

/// Decodes drained envelopes in order: every package, or the refusal of
/// the first envelope that does not decode.
pub fn htss_signature_share_packages_from_messages(messages: &[ProtocolMessage]) -> (r: Result<Vec<HtssSignatureSharePackage>, DkgKitError>)
    ensures
        match r {
            Ok(v) => v@.len() == messages@.len() && forall|i: int| 0 <= i < messages@.len()
                ==> #[trigger] htss_sig_share_from_message(messages@[i]@) == Ok::<HtssSignatureShareView, ErrorView>(v@[i]@),
            Err(e) => exists|j: int| 0 <= j < messages@.len() && htss_sig_share_from_message(messages@[j]@) == Err::<HtssSignatureShareView, ErrorView>(e@)
                && forall|k: int| 0 <= k < j ==> (#[trigger] htss_sig_share_from_message(messages@[k]@)) is Ok,
        },
{
    let mut out: Vec<HtssSignatureSharePackage> = Vec::new();
    let mut i: usize = 0;
    while i < messages.len()
        invariant
            i <= messages@.len(),
            out@.len() == i,
            forall|k: int| 0 <= k < i ==> #[trigger] htss_sig_share_from_message(messages@[k]@) == Ok::<HtssSignatureShareView, ErrorView>(out@[k]@),
        decreases messages@.len() - i,
    {
        match HtssSignatureSharePackage::from_protocol_message(&messages[i]) {
            Ok(p) => out.push(p),
            Err(e) => return Err(e),
        }
        i += 1;
    }
    Ok(out)
}

/// Whether a message is of the kind, and (when a recipient is given) is
/// broadcast or sent to that recipient.
pub open spec fn kind_test(kind: KindView, recipient: Option<u16>) -> spec_fn(MessageView) -> bool {
    |m: MessageView| m.kind == kind && match recipient {
        Some(p) => addressed_to(m, p),
        None => true,
    }
}

/// The pending messages a drain of the session for the kind takes.
pub open spec fn drained_kind(session: Seq<char>, kind: KindView, recipient: Option<u16>) -> spec_fn(MessageView) -> bool {
    |m: MessageView| m.session_id == session && kind_test(kind, recipient)(m)
}

/// The pending messages such a drain leaves.
pub open spec fn kept_kind(session: Seq<char>, kind: KindView, recipient: Option<u16>) -> spec_fn(MessageView) -> bool {
    |m: MessageView| !(m.session_id == session && kind_test(kind, recipient)(m))
}

/// A drain whose predicate tests the kind (and recipient) takes exactly the
/// pending messages of the session that pass the test, and keeps the rest.
pub proof fn lemma_drain_filter<F: Fn(&ProtocolMessage) -> bool>(
    pend: Seq<MessageView>,
    picks: Seq<bool>,
    session: Seq<char>,
    kind: KindView,
    recipient: Option<u16>,
    predicate: F,
)
    requires
        drain_picks(pend, session, predicate, picks),
        forall|m: ProtocolMessage, b: bool| call_ensures(predicate, (&m,), b) ==> b == kind_test(kind, recipient)(m@),
    ensures
        select(pend, picks) == pend.filter(drained_kind(session, kind, recipient)),
        reject(pend, picks) == pend.filter(kept_kind(session, kind, recipient)),
{
    assert forall|i: int| 0 <= i < pend.len() implies #[trigger] picks[i] == drained_kind(session, kind, recipient)(pend[i]) by {
        if picks[i] {
            let m = choose|m: ProtocolMessage| m@ == pend[i] && call_ensures(predicate, (&m,), true);
        } else if pend[i].session_id == session {
            let m = choose|m: ProtocolMessage| m@ == pend[i] && call_ensures(predicate, (&m,), false);
        }
    }
    assert forall|x: MessageView| #[trigger] kept_kind(session, kind, recipient)(x) == !drained_kind(session, kind, recipient)(x) by {}
    crate::transport::lemma_select_filter(pend, picks, drained_kind(session, kind, recipient), kept_kind(session, kind, recipient));
}

/// Publishes packages to, and drains them from, a transport.
#[derive(Debug)]
pub struct FrostCoordinator<T> {
    transport: T,
}

impl<T: Transport> FrostCoordinator<T> {
    /// The transport this coordinator moves packages over.
    pub closed spec fn inner(&self) -> T {
        self.transport
    }

    pub fn new(transport: T) -> (r: Self)
        ensures
            r.inner() == transport,
    {
        FrostCoordinator { transport }
    }

    pub fn transport(&self) -> (r: &T)
        ensures
            *r == self.inner(),
    {
        &self.transport
    }

    pub fn transport_mut(&mut self) -> (r: &mut T)
        ensures
            *r == old(self).inner(),
            final(self).inner() == *final(r),
    {
        &mut self.transport
    }

    pub fn into_inner(self) -> (r: T)
        ensures
            r == self.inner(),
    {
        self.transport
    }

    pub fn connect(&mut self) -> (r: Result<(), DkgKitError>) {
        self.transport.connect()
    }

    pub fn disconnect(&mut self) -> (r: Result<(), DkgKitError>) {
        self.transport.disconnect()
    }

    pub fn publish_round1(&mut self, session_id: SessionId, package: &Round1Package) -> (r: Result<(), DkgKitError>)
        ensures
            r is Ok ==> final(self).inner().pending_messages() == old(self).inner().pending_messages().push(
                envelope(session_id@, package.participant_id.0, None, KindView::FrostDkgRound1, enc_round1(package@))),
    {
        let message = package.to_protocol_message(session_id)?;
        self.transport.publish(message)
    }

    pub fn publish_round2(&mut self, session_id: SessionId, package: &Round2Package) -> (r: Result<(), DkgKitError>)
        ensures
            r is Ok ==> final(self).inner().pending_messages() == old(self).inner().pending_messages().push(
                envelope(session_id@, package.sender.0, Some(package.recipient.0), KindView::FrostDkgRound2, enc_round2(package@))),
    {
        let message = package.to_protocol_message(session_id)?;
        self.transport.publish(message)
    }

    pub fn publish_htss_dkg_round1(&mut self, session_id: SessionId, package: &HtssDkgRound1Package) -> (r: Result<(), DkgKitError>)
        ensures
            r is Ok ==> final(self).inner().pending_messages() == old(self).inner().pending_messages().push(
                envelope(session_id@, package.participant_id.0, None, KindView::HtssDkgRound1, enc_htss_round1(package@))),
    {
        let message = package.to_protocol_message(session_id)?;
        self.transport.publish(message)
    }

    pub fn publish_htss_dkg_round2(&mut self, session_id: SessionId, package: &HtssDkgRound2Package) -> (r: Result<(), DkgKitError>)
        ensures
            r is Ok ==> final(self).inner().pending_messages() == old(self).inner().pending_messages().push(
                envelope(session_id@, package.sender.0, Some(package.recipient.0), KindView::HtssDkgRound2, enc_htss_round2(package@))),
    {
        let message = package.to_protocol_message(session_id)?;
        self.transport.publish(message)
    }

    pub fn publish_nonce(&mut self, package: &NoncePackage) -> (r: Result<(), DkgKitError>)
        ensures
            r is Ok ==> final(self).inner().pending_messages() == old(self).inner().pending_messages().push(
                envelope(package.signing_session_id@, package.participant_id.0, None, KindView::FrostSigningNonce, enc_nonce(package@))),
    {
        let message = package.to_protocol_message()?;
        self.transport.publish(message)
    }

    pub fn publish_signature_share(&mut self, package: &SignatureSharePackage) -> (r: Result<(), DkgKitError>)
        ensures
            r is Ok ==> final(self).inner().pending_messages() == old(self).inner().pending_messages().push(
                envelope(package.signing_session_id@, package.participant_id.0, None, KindView::FrostSignatureShare, enc_sig_share(package@))),
    {
        let message = package.to_protocol_message()?;
        self.transport.publish(message)
    }

    pub fn publish_htss_nonce(&mut self, package: &HtssNoncePackage) -> (r: Result<(), DkgKitError>)
        ensures
            r is Ok ==> final(self).inner().pending_messages() == old(self).inner().pending_messages().push(
                envelope(package.signing_session_id@, package.participant_id.0, None, KindView::HtssSigningNonce, enc_htss_nonce(package@))),
    {
        let message = package.to_protocol_message()?;
        self.transport.publish(message)
    }

    pub fn publish_htss_signature_share(&mut self, package: &HtssSignatureSharePackage) -> (r: Result<(), DkgKitError>)
        ensures
            r is Ok ==> final(self).inner().pending_messages() == old(self).inner().pending_messages().push(
                envelope(package.signing_session_id@, package.participant_id.0, None, KindView::HtssSignatureShare, enc_htss_sig_share(package@))),
    {
        let message = package.to_protocol_message()?;
        self.transport.publish(message)
    }

    /// Drains the matching envelopes of the session and decodes each; the
    /// first envelope that does not decode is reported.
    pub fn drain_round1(&mut self, session_id: &SessionId) -> (r: Result<Vec<Round1Package>, DkgKitError>)
        ensures
            r is Ok ==> exists|ms: Seq<MessageView>| #[trigger] drained_round1(ms, session_id@, frost_round1_views(r->Ok_0@)),
            r matches Ok(v) ==> drained_round1(old(self).inner().pending_messages().filter(drained_kind(session_id@, KindView::FrostDkgRound1, None)),
                session_id@, frost_round1_views(v@)),
            r matches Ok(v) ==> final(self).inner().pending_messages() == old(self).inner().pending_messages().filter(
                kept_kind(session_id@, KindView::FrostDkgRound1, None)),
    {
        let only = |m: &ProtocolMessage| -> (b: bool)
            ensures
                b == (m.kind@ == KindView::FrostDkgRound1),
        {
            m.kind.same_kind(&ProtocolMessageKind::FrostDkgRound1)
        };
        let ghost pend = self.transport.pending_messages();
        let messages = self.transport.drain_matching(session_id, &only)?;
        let r = round1_packages_from_messages(messages.as_slice());
        proof {
            if r is Ok {
                let picks = choose|picks: Seq<bool>| #[trigger] drain_picks(pend, session_id@, only, picks)
                    && crate::transport::message_views(messages@) == select(pend, picks)
                    && self.transport.pending_messages() == reject(pend, picks);
                assert forall|m: ProtocolMessage, b: bool| call_ensures(only, (&m,), b) implies b == kind_test(KindView::FrostDkgRound1, None)(m@) by {}
                lemma_drain_filter(pend, picks, session_id@, KindView::FrostDkgRound1, None, only);
                let ms = crate::transport::message_views(messages@);
                assert forall|k: int| 0 <= k < ms.len() implies call_ensures(only, (&messages@[k],), true) by {}
                assert(frost_round1_views(r->Ok_0@).len() == ms.len());
                assert(drained_round1(ms, session_id@, frost_round1_views(r->Ok_0@)));
            }
        }
        r
    }

    /// Drains the matching envelopes of the session and decodes each; the
    /// first envelope that does not decode is reported.
    pub fn drain_round2_for(&mut self, session_id: &SessionId, recipient: ParticipantId) -> (r: Result<Vec<Round2Package>, DkgKitError>)
        ensures
            r is Ok ==> exists|ms: Seq<MessageView>| #[trigger] drained_round2(ms, session_id@, recipient.0, frost_round2_views(r->Ok_0@)),
            r matches Ok(v) ==> drained_round2(old(self).inner().pending_messages().filter(drained_kind(session_id@, KindView::FrostDkgRound2, Some(recipient.0))),
                session_id@, recipient.0, frost_round2_views(v@)),
            r matches Ok(v) ==> final(self).inner().pending_messages() == old(self).inner().pending_messages().filter(
                kept_kind(session_id@, KindView::FrostDkgRound2, Some(recipient.0))),
    {
        let only = |m: &ProtocolMessage| -> (b: bool)
            ensures
                b == (m.kind@ == KindView::FrostDkgRound2 && addressed_to(m@, recipient.0)),
        {
            m.kind.same_kind(&ProtocolMessageKind::FrostDkgRound2) && m.is_for(recipient)
        };
        let ghost pend = self.transport.pending_messages();
        let messages = self.transport.drain_matching(session_id, &only)?;
        let r = round2_packages_from_messages(messages.as_slice());
        proof {
            if r is Ok {
                let picks = choose|picks: Seq<bool>| #[trigger] drain_picks(pend, session_id@, only, picks)
                    && crate::transport::message_views(messages@) == select(pend, picks)
                    && self.transport.pending_messages() == reject(pend, picks);
                assert forall|m: ProtocolMessage, b: bool| call_ensures(only, (&m,), b) implies b == kind_test(KindView::FrostDkgRound2, Some(recipient.0))(m@) by {}
                lemma_drain_filter(pend, picks, session_id@, KindView::FrostDkgRound2, Some(recipient.0), only);
                let ms = crate::transport::message_views(messages@);
                assert forall|k: int| 0 <= k < ms.len() implies call_ensures(only, (&messages@[k],), true) by {}
                assert(frost_round2_views(r->Ok_0@).len() == ms.len());
                assert(drained_round2(ms, session_id@, recipient.0, frost_round2_views(r->Ok_0@)));
            }
        }
        r
    }

    /// Drains the matching envelopes of the session and decodes each; the
    /// first envelope that does not decode is reported.
    pub fn drain_htss_dkg_round1(&mut self, session_id: &SessionId) -> (r: Result<Vec<HtssDkgRound1Package>, DkgKitError>)
        ensures
            r is Ok ==> exists|ms: Seq<MessageView>| #[trigger] drained_htss_round1(ms, session_id@, round1_views(r->Ok_0@)),
            r matches Ok(v) ==> drained_htss_round1(old(self).inner().pending_messages().filter(drained_kind(session_id@, KindView::HtssDkgRound1, None)),
                session_id@, round1_views(v@)),
            r matches Ok(v) ==> final(self).inner().pending_messages() == old(self).inner().pending_messages().filter(
                kept_kind(session_id@, KindView::HtssDkgRound1, None)),
    {
        let only = |m: &ProtocolMessage| -> (b: bool)
            ensures
                b == (m.kind@ == KindView::HtssDkgRound1),
        {
            m.kind.same_kind(&ProtocolMessageKind::HtssDkgRound1)
        };
        let ghost pend = self.transport.pending_messages();
        let messages = self.transport.drain_matching(session_id, &only)?;
        let r = htss_round1_packages_from_messages(messages.as_slice());
        proof {
            if r is Ok {
                let picks = choose|picks: Seq<bool>| #[trigger] drain_picks(pend, session_id@, only, picks)
                    && crate::transport::message_views(messages@) == select(pend, picks)
                    && self.transport.pending_messages() == reject(pend, picks);
                assert forall|m: ProtocolMessage, b: bool| call_ensures(only, (&m,), b) implies b == kind_test(KindView::HtssDkgRound1, None)(m@) by {}
                lemma_drain_filter(pend, picks, session_id@, KindView::HtssDkgRound1, None, only);
                let ms = crate::transport::message_views(messages@);
                assert forall|k: int| 0 <= k < ms.len() implies call_ensures(only, (&messages@[k],), true) by {}
                assert(round1_views(r->Ok_0@).len() == ms.len());
                assert(drained_htss_round1(ms, session_id@, round1_views(r->Ok_0@)));
            }
        }
        r
    }

    /// Drains the matching envelopes of the session and decodes each; the
    /// first envelope that does not decode is reported.
    pub fn drain_htss_dkg_round2_for(&mut self, session_id: &SessionId, recipient: ParticipantId) -> (r: Result<Vec<HtssDkgRound2Package>, DkgKitError>)
        ensures
            r is Ok ==> exists|ms: Seq<MessageView>| #[trigger] drained_htss_round2(ms, session_id@, recipient.0, round2_views(r->Ok_0@)),
            r matches Ok(v) ==> drained_htss_round2(old(self).inner().pending_messages().filter(drained_kind(session_id@, KindView::HtssDkgRound2, Some(recipient.0))),
                session_id@, recipient.0, round2_views(v@)),
            r matches Ok(v) ==> final(self).inner().pending_messages() == old(self).inner().pending_messages().filter(
                kept_kind(session_id@, KindView::HtssDkgRound2, Some(recipient.0))),
    {
        let only = |m: &ProtocolMessage| -> (b: bool)
            ensures
                b == (m.kind@ == KindView::HtssDkgRound2 && addressed_to(m@, recipient.0)),
        {
            m.kind.same_kind(&ProtocolMessageKind::HtssDkgRound2) && m.is_for(recipient)
        };
        let ghost pend = self.transport.pending_messages();
        let messages = self.transport.drain_matching(session_id, &only)?;
        let r = htss_round2_packages_from_messages(messages.as_slice());
        proof {
            if r is Ok {
                let picks = choose|picks: Seq<bool>| #[trigger] drain_picks(pend, session_id@, only, picks)
                    && crate::transport::message_views(messages@) == select(pend, picks)
                    && self.transport.pending_messages() == reject(pend, picks);
                assert forall|m: ProtocolMessage, b: bool| call_ensures(only, (&m,), b) implies b == kind_test(KindView::HtssDkgRound2, Some(recipient.0))(m@) by {}
                lemma_drain_filter(pend, picks, session_id@, KindView::HtssDkgRound2, Some(recipient.0), only);
                let ms = crate::transport::message_views(messages@);
                assert forall|k: int| 0 <= k < ms.len() implies call_ensures(only, (&messages@[k],), true) by {}
                assert(round2_views(r->Ok_0@).len() == ms.len());
                assert(drained_htss_round2(ms, session_id@, recipient.0, round2_views(r->Ok_0@)));
            }
        }
        r
    }

    /// Drains the matching envelopes of the session and decodes each; the
    /// first envelope that does not decode is reported.
    pub fn drain_nonces(&mut self, signing_session_id: &SessionId) -> (r: Result<Vec<NoncePackage>, DkgKitError>)
        ensures
            r is Ok ==> exists|ms: Seq<MessageView>| #[trigger] drained_nonce(ms, signing_session_id@, nonce_views(r->Ok_0@)),
            r matches Ok(v) ==> drained_nonce(old(self).inner().pending_messages().filter(drained_kind(signing_session_id@, KindView::FrostSigningNonce, None)),
                signing_session_id@, nonce_views(v@)),
            r matches Ok(v) ==> final(self).inner().pending_messages() == old(self).inner().pending_messages().filter(
                kept_kind(signing_session_id@, KindView::FrostSigningNonce, None)),
    {
        let only = |m: &ProtocolMessage| -> (b: bool)
            ensures
                b == (m.kind@ == KindView::FrostSigningNonce),
        {
            m.kind.same_kind(&ProtocolMessageKind::FrostSigningNonce)
        };
        let ghost pend = self.transport.pending_messages();
        let messages = self.transport.drain_matching(signing_session_id, &only)?;
        let r = nonce_packages_from_messages(messages.as_slice());
        proof {
            if r is Ok {
                let picks = choose|picks: Seq<bool>| #[trigger] drain_picks(pend, signing_session_id@, only, picks)
                    && crate::transport::message_views(messages@) == select(pend, picks)
                    && self.transport.pending_messages() == reject(pend, picks);
                assert forall|m: ProtocolMessage, b: bool| call_ensures(only, (&m,), b) implies b == kind_test(KindView::FrostSigningNonce, None)(m@) by {}
                lemma_drain_filter(pend, picks, signing_session_id@, KindView::FrostSigningNonce, None, only);
                let ms = crate::transport::message_views(messages@);
                assert forall|k: int| 0 <= k < ms.len() implies call_ensures(only, (&messages@[k],), true) by {}
                assert(nonce_views(r->Ok_0@).len() == ms.len());
                assert(drained_nonce(ms, signing_session_id@, nonce_views(r->Ok_0@)));
            }
        }
        r
    }

    /// Drains the matching envelopes of the session and decodes each; the
    /// first envelope that does not decode is reported.
    pub fn drain_signature_shares(&mut self, signing_session_id: &SessionId) -> (r: Result<Vec<SignatureSharePackage>, DkgKitError>)
        ensures
            r is Ok ==> exists|ms: Seq<MessageView>| #[trigger] drained_sig_share(ms, signing_session_id@, sig_share_views(r->Ok_0@)),
            r matches Ok(v) ==> drained_sig_share(old(self).inner().pending_messages().filter(drained_kind(signing_session_id@, KindView::FrostSignatureShare, None)),
                signing_session_id@, sig_share_views(v@)),
            r matches Ok(v) ==> final(self).inner().pending_messages() == old(self).inner().pending_messages().filter(
                kept_kind(signing_session_id@, KindView::FrostSignatureShare, None)),
    {
        let only = |m: &ProtocolMessage| -> (b: bool)
            ensures
                b == (m.kind@ == KindView::FrostSignatureShare),
        {
            m.kind.same_kind(&ProtocolMessageKind::FrostSignatureShare)
        };
        let ghost pend = self.transport.pending_messages();
        let messages = self.transport.drain_matching(signing_session_id, &only)?;
        let r = signature_share_packages_from_messages(messages.as_slice());
        proof {
            if r is Ok {
                let picks = choose|picks: Seq<bool>| #[trigger] drain_picks(pend, signing_session_id@, only, picks)
                    && crate::transport::message_views(messages@) == select(pend, picks)
                    && self.transport.pending_messages() == reject(pend, picks);
                assert forall|m: ProtocolMessage, b: bool| call_ensures(only, (&m,), b) implies b == kind_test(KindView::FrostSignatureShare, None)(m@) by {}
                lemma_drain_filter(pend, picks, signing_session_id@, KindView::FrostSignatureShare, None, only);
                let ms = crate::transport::message_views(messages@);
                assert forall|k: int| 0 <= k < ms.len() implies call_ensures(only, (&messages@[k],), true) by {}
                assert(sig_share_views(r->Ok_0@).len() == ms.len());
                assert(drained_sig_share(ms, signing_session_id@, sig_share_views(r->Ok_0@)));
            }
        }
        r
    }

    /// Drains the matching envelopes of the session and decodes each; the
    /// first envelope that does not decode is reported.
    pub fn drain_htss_nonces(&mut self, signing_session_id: &SessionId) -> (r: Result<Vec<HtssNoncePackage>, DkgKitError>)
        ensures
            r is Ok ==> exists|ms: Seq<MessageView>| #[trigger] drained_htss_nonce(ms, signing_session_id@, htss_nonce_views(r->Ok_0@)),
            r matches Ok(v) ==> drained_htss_nonce(old(self).inner().pending_messages().filter(drained_kind(signing_session_id@, KindView::HtssSigningNonce, None)),
                signing_session_id@, htss_nonce_views(v@)),
            r matches Ok(v) ==> final(self).inner().pending_messages() == old(self).inner().pending_messages().filter(
                kept_kind(signing_session_id@, KindView::HtssSigningNonce, None)),
    {
        let only = |m: &ProtocolMessage| -> (b: bool)
            ensures
                b == (m.kind@ == KindView::HtssSigningNonce),
        {
            m.kind.same_kind(&ProtocolMessageKind::HtssSigningNonce)
        };
        let ghost pend = self.transport.pending_messages();
        let messages = self.transport.drain_matching(signing_session_id, &only)?;
        let r = htss_nonce_packages_from_messages(messages.as_slice());
        proof {
            if r is Ok {
                let picks = choose|picks: Seq<bool>| #[trigger] drain_picks(pend, signing_session_id@, only, picks)
                    && crate::transport::message_views(messages@) == select(pend, picks)
                    && self.transport.pending_messages() == reject(pend, picks);
                assert forall|m: ProtocolMessage, b: bool| call_ensures(only, (&m,), b) implies b == kind_test(KindView::HtssSigningNonce, None)(m@) by {}
                lemma_drain_filter(pend, picks, signing_session_id@, KindView::HtssSigningNonce, None, only);
                let ms = crate::transport::message_views(messages@);
                assert forall|k: int| 0 <= k < ms.len() implies call_ensures(only, (&messages@[k],), true) by {}
                assert(htss_nonce_views(r->Ok_0@).len() == ms.len());
                assert(drained_htss_nonce(ms, signing_session_id@, htss_nonce_views(r->Ok_0@)));
            }
        }
        r
    }

    /// Drains the matching envelopes of the session and decodes each; the
    /// first envelope that does not decode is reported.
    pub fn drain_htss_signature_shares(&mut self, signing_session_id: &SessionId) -> (r: Result<Vec<HtssSignatureSharePackage>, DkgKitError>)
        ensures
            r is Ok ==> exists|ms: Seq<MessageView>| #[trigger] drained_htss_sig_share(ms, signing_session_id@, htss_sig_share_views(r->Ok_0@)),
            r matches Ok(v) ==> drained_htss_sig_share(old(self).inner().pending_messages().filter(drained_kind(signing_session_id@, KindView::HtssSignatureShare, None)),
                signing_session_id@, htss_sig_share_views(v@)),
            r matches Ok(v) ==> final(self).inner().pending_messages() == old(self).inner().pending_messages().filter(
                kept_kind(signing_session_id@, KindView::HtssSignatureShare, None)),
    {
        let only = |m: &ProtocolMessage| -> (b: bool)
            ensures
                b == (m.kind@ == KindView::HtssSignatureShare),
        {
            m.kind.same_kind(&ProtocolMessageKind::HtssSignatureShare)
        };
        let ghost pend = self.transport.pending_messages();
        let messages = self.transport.drain_matching(signing_session_id, &only)?;
        let r = htss_signature_share_packages_from_messages(messages.as_slice());
        proof {
            if r is Ok {
                let picks = choose|picks: Seq<bool>| #[trigger] drain_picks(pend, signing_session_id@, only, picks)
                    && crate::transport::message_views(messages@) == select(pend, picks)
                    && self.transport.pending_messages() == reject(pend, picks);
                assert forall|m: ProtocolMessage, b: bool| call_ensures(only, (&m,), b) implies b == kind_test(KindView::HtssSignatureShare, None)(m@) by {}
                lemma_drain_filter(pend, picks, signing_session_id@, KindView::HtssSignatureShare, None, only);
                let ms = crate::transport::message_views(messages@);
                assert forall|k: int| 0 <= k < ms.len() implies call_ensures(only, (&messages@[k],), true) by {}
                assert(htss_sig_share_views(r->Ok_0@).len() == ms.len());
                assert(drained_htss_sig_share(ms, signing_session_id@, htss_sig_share_views(r->Ok_0@)));
            }
        }
        r
    }
}


/// The first signer that has no local share.
pub open spec fn missing_signer(signers: Seq<u16>, holders: Seq<u16>) -> Option<u16>
    decreases signers.len(),
{
    if signers.len() == 0 {
        None
    } else if missing_signer(signers.drop_last(), holders) is Some {
        missing_signer(signers.drop_last(), holders)
    } else if !holders.contains(signers.last()) {
        Some(signers.last())
    } else {
        None
    }
}

pub open spec fn msg_missing_share(id: u16) -> Seq<char> {
    "missing local share for signer "@ + crate::text::decimal(id as nat)
}

/// The participant numbers of local key shares.
pub open spec fn holder_ids(v: Seq<LocalKeyShare>) -> Seq<u16> {
    v.map_values(|s: LocalKeyShare| s.participant_id.0)
}

/// The first local share of participant `id`, cloned.
fn find_share(local_shares: &[LocalKeyShare], id: u16) -> (r: Option<LocalKeyShare>)
    ensures
        r is Some <==> holder_ids(local_shares@).contains(id),
        r matches Some(s) ==> s.participant_id.0 == id,
{
    let mut i: usize = 0;
    while i < local_shares.len()
        invariant
            i <= local_shares@.len(),
            forall|k: int| 0 <= k < i ==> local_shares@[k].participant_id.0 != id,
        decreases local_shares@.len() - i,
    {
        if local_shares[i].participant_id.0 == id {
            assert(holder_ids(local_shares@)[i as int] == id);
            return Some(local_shares[i].clone());
        }
        i += 1;
    }
    proof {
        assert forall|k: int| 0 <= k < local_shares@.len() implies holder_ids(local_shares@)[k] != id by {
            assert(holder_ids(local_shares@)[k] == local_shares@[k].participant_id.0);
        }
    }
    None
}

/// Signs the request's digest with the local shares of its signers: one
/// signing session per signer, a nonce round, a share round, and the
/// aggregate of the shares.
fn sign_with_request(request: SigningRequest, local_shares: &[LocalKeyShare]) -> (r: Result<AggregateSignature, DkgKitError>)
    requires
        signers_numbered(request.signer_set@),
        !bincode_empty_list(request.group_key.verification_key_bytes@),
    ensures
        missing_signer(signer_ids(request.signer_set@), holder_ids(local_shares@)) matches Some(id) ==> (r matches Err(e)
            && e@ == ErrorView::Protocol(msg_missing_share(id))),
        r matches Ok(sig) ==> bip340_verifies(
            shared_key_xonly(request.group_key.verification_key_bytes@),
            request.message_digest@,
            sig.signature_bytes@,
        ),
{
    let ghost ids = signer_ids(request.signer_set@);
    let ghost holders = holder_ids(local_shares@);
    let mut selected: Vec<LocalKeyShare> = Vec::new();
    let mut i: usize = 0;
    while i < request.signer_set.len()
        invariant
            ids == signer_ids(request.signer_set@),
            holders == holder_ids(local_shares@),
            i <= request.signer_set@.len(),
            missing_signer(ids.take(i as int), holders) is None,
            selected@.len() == i,
        decreases request.signer_set@.len() - i,
    {
        let id = request.signer_set[i].0;
        proof {
            assert(ids.take(i + 1).drop_last() =~= ids.take(i as int));
            assert(ids.take(i + 1).last() == id);
        }
        match find_share(local_shares, id) {
            Some(share) => selected.push(share),
            None => {
                proof {
                    lemma_missing_prefix(ids, holders, i + 1);
                }
                let mut text = String::from_str("missing local share for signer ");
                crate::text::push_decimal(&mut text, id as u64);
                return Err(DkgKitError::Protocol(text));
            },
        }
        i += 1;
    }
    assert(ids.take(i as int) =~= ids);
    let mut sessions: Vec<FrostSigningSession> = Vec::new();
    let mut i: usize = 0;
    while i < selected.len()
        invariant
            i <= selected@.len(),
            sessions@.len() == i,
            forall|k: int| 0 <= k < i ==> (#[trigger] sessions@[k]).wf() && same_request(sessions@[k].req(), request),
        decreases selected@.len() - i,
    {
        sessions.push(FrostSigningSession::new(request.clone()));
        i += 1;
    }
    let mut nonces: Vec<NoncePackage> = Vec::new();
    let mut i: usize = 0;
    while i < selected.len()
        invariant
            i <= selected@.len(),
            sessions@.len() == selected@.len(),
            missing_signer(signer_ids(request.signer_set@), holder_ids(local_shares@)) is None,
            forall|k: int| 0 <= k < sessions@.len() ==> (#[trigger] sessions@[k]).wf() && same_request(sessions@[k].req(), request),
        decreases selected@.len() - i,
    {
        let nonce = sessions[i].nonce(&selected[i])?;
        nonces.push(nonce);
        i += 1;
    }
    let mut shares: Vec<SignatureSharePackage> = Vec::new();
    let mut i: usize = 0;
    while i < selected.len()
        invariant
            i <= selected@.len(),
            sessions@.len() == selected@.len(),
            signers_numbered(request.signer_set@),
            !bincode_empty_list(request.group_key.verification_key_bytes@),
            missing_signer(signer_ids(request.signer_set@), holder_ids(local_shares@)) is None,
            forall|k: int| 0 <= k < sessions@.len() ==> (#[trigger] sessions@[k]).wf() && same_request(sessions@[k].req(), request),
        decreases selected@.len() - i,
    {
        let share = sessions[i].sign_share(&selected[i], nonces.as_slice())?;
        shares.push(share);
        i += 1;
    }
    let aggregator = FrostSigningSession::new(request);
    aggregator.aggregate(shares.as_slice())
}

/// Two requests with the same session, key, digest and signers.
pub open spec fn same_request(a: SigningRequest, b: SigningRequest) -> bool {
    &&& a.session_id@ == b.session_id@
    &&& a.group_key.xonly_public_key == b.group_key.xonly_public_key
    &&& a.group_key.verification_key_bytes@ == b.group_key.verification_key_bytes@
    &&& a.message_digest == b.message_digest
    &&& a.signer_set@ == b.signer_set@
}

/// A missing signer found in a prefix is the first one of the whole list.
pub proof fn lemma_missing_prefix(ids: Seq<u16>, holders: Seq<u16>, j: int)
    requires
        0 <= j <= ids.len(),
        missing_signer(ids.take(j), holders) is Some,
    ensures
        missing_signer(ids, holders) == missing_signer(ids.take(j), holders),
    decreases ids.len() - j,
{
    if j == ids.len() {
        assert(ids.take(j) =~= ids);
    } else {
        assert(ids.take(j + 1).drop_last() =~= ids.take(j));
        lemma_missing_prefix(ids, holders, j + 1);
    }
}

/// Signs a digest with the local shares of a signer set that meets a plain
/// threshold: the signer set is checked, then the session id, then each
/// signer must have a local share.
pub fn sign_digest_with_shares(
    signing_session_id: &str,
    threshold: ThresholdConfig,
    group_key: GroupKey,
    digest: [u8; 32],
    local_shares: &[LocalKeyShare],
    signer_set: Vec<ParticipantId>,
) -> (r: Result<AggregateSignature, DkgKitError>)
    requires
        signers_numbered(signer_set@),
        !bincode_empty_list(group_key.verification_key_bytes@),
    ensures
        match signer_set_error(signer_ids(signer_set@), threshold) {
            Some(e) => r matches Err(x) && x@ == e,
            None => if is_blank_text(signing_session_id@) {
                r == Err::<AggregateSignature, DkgKitError>(DkgKitError::EmptySessionId)
            } else {
                &&& missing_signer(signer_ids(signer_set@), holder_ids(local_shares@)) matches Some(id) ==> (r matches Err(x)
                    && x@ == ErrorView::Protocol(msg_missing_share(id)))
                &&& r matches Ok(sig) ==> bip340_verifies(
                    shared_key_xonly(group_key.verification_key_bytes@),
                    digest@,
                    sig.signature_bytes@,
                )
            },
        },
{
    validate_signer_set(signer_set.as_slice(), &threshold)?;
    let session = SessionId::new(signing_session_id)?;
    let request = SigningRequest::new(session, group_key, digest, signer_set, &threshold)?;
    sign_with_request(request, local_shares)
}

/// Signs a digest with the local shares of a signer set that meets a signing
/// policy: the signer set is checked, then the session id, then each signer
/// must have a local share.
pub fn sign_digest_with_shares_and_policy(
    signing_session_id: &str,
    policy: SigningPolicy,
    group_key: GroupKey,
    digest: [u8; 32],
    local_shares: &[LocalKeyShare],
    signer_set: Vec<ParticipantId>,
) -> (r: Result<AggregateSignature, DkgKitError>)
    requires
        policy_checkable(policy),
        signers_numbered(signer_set@),
        !bincode_empty_list(group_key.verification_key_bytes@),
    ensures
        match policy_signer_error(signer_ids(signer_set@), policy) {
            Some(e) => r matches Err(x) && x@ == e,
            None => if is_blank_text(signing_session_id@) {
                r == Err::<AggregateSignature, DkgKitError>(DkgKitError::EmptySessionId)
            } else {
                &&& missing_signer(signer_ids(signer_set@), holder_ids(local_shares@)) matches Some(id) ==> (r matches Err(x)
                    && x@ == ErrorView::Protocol(msg_missing_share(id)))
                &&& r matches Ok(sig) ==> bip340_verifies(
                    shared_key_xonly(group_key.verification_key_bytes@),
                    digest@,
                    sig.signature_bytes@,
                )
            },
        },
{
    validate_signer_set_with_policy(signer_set.as_slice(), &policy)?;
    let session = SessionId::new(signing_session_id)?;
    let request = SigningRequest::new_with_policy(session, group_key, digest, signer_set, &policy)?;
    sign_with_request(request, local_shares)
}

} // verus!
