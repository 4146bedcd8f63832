//! Keys, shares and signing requests.
use vstd::prelude::*;
use crate::birkhoff::{
    birkhoff_interpolation_coefficients, birkhoff_points_from_hierarchical_signer_set,
    coefficient_points_match, coefficient_values, coefficients_solve, msg_no_points,
    points_outcome, BirkhoffCoefficient, BirkhoffPoint,
};
use crate::linear::msg_singular;
use crate::signers::{
    grouped_signer_error, hierarchical_signer_error, lemma_distinct_len, lemma_signer_set_accepts,
    policy_checkable, policy_signer_error, signer_ids, signer_set_error,
    validate_grouped_threshold_signer_set, validate_signer_set, validate_signer_set_with_policy,
};
use crate::types::{
    required_sum, same_roster, DkgKitError, ErrorView, GroupedThresholdConfig,
    HierarchicalThresholdConfig, ParticipantId, SessionId, SigningPolicy, ThresholdConfig,
};

verus! {

/// The configuration of one participant's DKG session.
#[derive(Debug, Clone, PartialEq, Eq)]
pub struct DkgSessionConfig {
    pub session_id: SessionId,
    pub threshold: ThresholdConfig,
    pub participant_id: ParticipantId,
}

/// A group public key: its x-only form and the serialized shared key used
/// to verify FROST shares (empty for HTSS keys).
#[derive(Debug, PartialEq, Eq)]
pub struct GroupKey {
    pub xonly_public_key: [u8; 32],
    pub verification_key_bytes: Vec<u8>,
}

impl Clone for GroupKey {
    fn clone(&self) -> (res: Self)
        ensures
            res.xonly_public_key == self.xonly_public_key,
            res.verification_key_bytes@ == self.verification_key_bytes@,
    {
        GroupKey {
            xonly_public_key: self.xonly_public_key,
            verification_key_bytes: self.verification_key_bytes.clone(),
        }
    }
}

impl GroupKey {
    /// Compares two keys field by field.
    pub fn same_key(&self, other: &GroupKey) -> (r: bool)
        ensures
            r == (self.xonly_public_key == other.xonly_public_key
                && self.verification_key_bytes@ == other.verification_key_bytes@),
    {
        if !bytes32_eq(&self.xonly_public_key, &other.xonly_public_key) {
            return false;
        }
        crate::text::bytes_eq(self.verification_key_bytes.as_slice(), other.verification_key_bytes.as_slice())
    }
}

/// Compares two 32-byte arrays.
pub fn bytes32_eq(a: &[u8; 32], b: &[u8; 32]) -> (r: bool)
    ensures
        r == (*a == *b),
        r == (a@ == b@),
{
    let mut i: usize = 0;
    while i < 32
        invariant
            i <= 32,
            forall|k: int| 0 <= k < i ==> a@[k] == b@[k],
        decreases 32 - i,
    {
        if a[i] != b[i] {
            return false;
        }
        i += 1;
    }
    assert(*a =~= *b);
    true
}

/// A participant's FROST key share. The secret share bytes are plaintext
/// secret material; applications must encrypt them at rest.
#[derive(Debug, PartialEq, Eq)]
pub struct LocalKeyShare {
    pub participant_id: ParticipantId,
    pub group_key: GroupKey,
    pub secret_share_bytes: Vec<u8>,
}

impl Clone for LocalKeyShare {
    fn clone(&self) -> (res: Self)
        ensures
            res.participant_id == self.participant_id,
            res.group_key.xonly_public_key == self.group_key.xonly_public_key,
            res.group_key.verification_key_bytes@ == self.group_key.verification_key_bytes@,
            res.secret_share_bytes@ == self.secret_share_bytes@,
    {
        LocalKeyShare {
            participant_id: self.participant_id,
            group_key: self.group_key.clone(),
            secret_share_bytes: self.secret_share_bytes.clone(),
        }
    }
}

/// A request to sign one 32-byte digest with a set of signers.
#[derive(Debug, PartialEq, Eq)]
pub struct SigningRequest {
    pub session_id: SessionId,
    pub group_key: GroupKey,
    pub message_digest: [u8; 32],
    pub signer_set: Vec<ParticipantId>,
}

impl Clone for SigningRequest {
    fn clone(&self) -> (res: Self)
        ensures
            res.session_id@ == self.session_id@,
            res.group_key.xonly_public_key == self.group_key.xonly_public_key,
            res.group_key.verification_key_bytes@ == self.group_key.verification_key_bytes@,
            res.message_digest == self.message_digest,
            res.signer_set@ == self.signer_set@,
    {
        SigningRequest {
            session_id: self.session_id.clone(),
            group_key: self.group_key.clone(),
            message_digest: self.message_digest,
            signer_set: self.signer_set.clone(),
        }
    }
}

impl SigningRequest {
    /// A request whose signer set meets a plain threshold.
    pub fn new(
        session_id: SessionId,
        group_key: GroupKey,
        message_digest: [u8; 32],
        signer_set: Vec<ParticipantId>,
        threshold: &ThresholdConfig,
    ) -> (r: Result<SigningRequest, DkgKitError>)
        ensures
            match signer_set_error(signer_ids(signer_set@), *threshold) {
                Some(e) => r matches Err(x) && x@ == e,
                None => r == Ok::<SigningRequest, DkgKitError>(
                    SigningRequest { session_id, group_key, message_digest, signer_set },
                ),
            },
    {
        validate_signer_set(signer_set.as_slice(), threshold)?;
        Ok(SigningRequest { session_id, group_key, message_digest, signer_set })
    }

    /// A request whose signer set meets a signing policy.
    pub fn new_with_policy(
        session_id: SessionId,
        group_key: GroupKey,
        message_digest: [u8; 32],
        signer_set: Vec<ParticipantId>,
        policy: &SigningPolicy,
    ) -> (r: Result<SigningRequest, DkgKitError>)
        requires
            policy_checkable(*policy),
        ensures
            match policy_signer_error(signer_ids(signer_set@), *policy) {
                Some(e) => r matches Err(x) && x@ == e,
                None => r == Ok::<SigningRequest, DkgKitError>(
                    SigningRequest { session_id, group_key, message_digest, signer_set },
                ),
            },
    {
        validate_signer_set_with_policy(signer_set.as_slice(), policy)?;
        Ok(SigningRequest { session_id, group_key, message_digest, signer_set })
    }
}

/// A hierarchical signing request with its Birkhoff points and coefficients.
#[derive(Debug, PartialEq, Eq)]
pub struct HierarchicalSigningRequest {
    pub request: SigningRequest,
    pub points: Vec<BirkhoffPoint>,
    pub coefficients: Vec<BirkhoffCoefficient>,
}

impl HierarchicalSigningRequest {
    /// Validates the signer set against the hierarchy, then derives the
    /// Birkhoff points and the interpolation coefficients of the set.
    pub fn new(
        session_id: SessionId,
        group_key: GroupKey,
        message_digest: [u8; 32],
        signer_set: Vec<ParticipantId>,
        config: &HierarchicalThresholdConfig,
    ) -> (r: Result<HierarchicalSigningRequest, DkgKitError>)
        ensures
            match points_outcome(signer_ids(signer_set@), *config) {
                Err(e) => r matches Err(x) && x@ == e,
                Ok(points) => match r {
                    Ok(h) => h.request == (SigningRequest {
                        session_id,
                        group_key,
                        message_digest,
                        signer_set,
                    }) && h.points@ == points && coefficient_points_match(points, h.coefficients@)
                        && coefficients_solve(points, coefficient_values(h.coefficients@)),
                    Err(x) => x@ == ErrorView::Protocol(if points.len() == 0 {
                        msg_no_points()
                    } else {
                        msg_singular()
                    }),
                },
            },
    {
        let points = birkhoff_points_from_hierarchical_signer_set(signer_set.as_slice(), config)?;
        proof {
            let ids = signer_ids(signer_set@);
            let t = ThresholdConfig::new_spec(config.threshold, config.participants@.len() as u16)->Ok_0;
            lemma_signer_set_accepts(ids, t);
            lemma_distinct_len(ids);
        }
        let coefficients = birkhoff_interpolation_coefficients(points.as_slice())?;
        Ok(
            HierarchicalSigningRequest {
                request: SigningRequest { session_id, group_key, message_digest, signer_set },
                points,
                coefficients,
            },
        )
    }
}

/// A grouped signing request carrying its grouped configuration.
#[derive(Debug, PartialEq, Eq)]
pub struct GroupedSigningRequest {
    pub request: SigningRequest,
    pub config: GroupedThresholdConfig,
}

impl GroupedSigningRequest {
    pub fn new(
        session_id: SessionId,
        group_key: GroupKey,
        message_digest: [u8; 32],
        signer_set: Vec<ParticipantId>,
        config: &GroupedThresholdConfig,
    ) -> (r: Result<GroupedSigningRequest, DkgKitError>)
        requires
            required_sum(config.requirements@) <= u16::MAX,
        ensures
            match grouped_signer_error(signer_ids(signer_set@), *config) {
                Some(e) => r matches Err(x) && x@ == e,
                None => r matches Ok(g) && g.request == (SigningRequest {
                    session_id,
                    group_key,
                    message_digest,
                    signer_set,
                }) && g.config.requirements@ == config.requirements@ && same_roster(
                    g.config.participants@,
                    config.participants@,
                ),
            },
    {
        validate_grouped_threshold_signer_set(signer_set.as_slice(), config)?;
        Ok(
            GroupedSigningRequest {
                request: SigningRequest { session_id, group_key, message_digest, signer_set },
                config: config.clone(),
            },
        )
    }
}

/// An aggregate Schnorr signature.
#[derive(Debug, PartialEq, Eq)]
pub struct AggregateSignature {
    pub signature_bytes: Vec<u8>,
}

pub open spec fn msg_empty_signature() -> Seq<char> {
    "aggregate signature cannot be empty"@
}

impl AggregateSignature {
    /// Wraps non-empty signature bytes; empty bytes are refused.
    pub fn new(signature_bytes: Vec<u8>) -> (r: Result<AggregateSignature, DkgKitError>)
        ensures
            signature_bytes@.len() == 0 ==> (r matches Err(e) && e@ == ErrorView::Protocol(
                msg_empty_signature(),
            )),
            signature_bytes@.len() > 0 ==> r == Ok::<AggregateSignature, DkgKitError>(
                AggregateSignature { signature_bytes },
            ),
    {
        if signature_bytes.len() == 0 {
            return Err(DkgKitError::Protocol(String::from_str("aggregate signature cannot be empty")));
        }
        Ok(AggregateSignature { signature_bytes })
    }
}

/// A participant's HTSS derivative share `f^(rank)(id)`. The share bytes are
/// plaintext secret material; applications must encrypt them at rest.
#[derive(Debug, Clone, PartialEq, Eq)]
pub struct HtssLocalKeyShare {
    pub participant_id: ParticipantId,
    pub rank: u16,
    pub share_value_bytes: [u8; 32],
}

/// A group key with every participant's HTSS share.
#[derive(Debug, PartialEq, Eq)]
pub struct HtssLocalKeySet {
    pub group_key: GroupKey,
    pub shares: Vec<HtssLocalKeyShare>,
}

} // verus!
