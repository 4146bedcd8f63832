use dkgkit::bitcoin::verify_aggregate_signature_digest;
use dkgkit::birkhoff::{birkhoff_interpolation_coefficients, BirkhoffCoefficient, BirkhoffPoint};
use dkgkit::frost_session::{FrostDkgSession, FrostSigningSession};
use dkgkit::htss_dkg::{finalize_htss_dkg, htss_dkg_round1, htss_dkg_round2, run_distributed_htss_keygen};
use dkgkit::htss_keys::{reconstruct_htss_secret_scalar, run_local_htss_keygen, sign_digest_with_local_htss_shares};
use dkgkit::htss_sign::{
    aggregate_htss_signature_shares, htss_nonce, htss_sign_share, run_local_grouped_htss_keygen,
    sign_digest_with_local_grouped_htss_threshold_shares, sign_digest_with_local_htss_threshold_shares,
};
use dkgkit::packages::{
    encode_payload, HtssNoncePackage, HtssSignatureSharePackage, NoncePackage, Round1Package, Round2Package,
    SignatureSharePackage,
};
use dkgkit::requests::{
    DkgSessionConfig, GroupKey, GroupedSigningRequest, HierarchicalSigningRequest, LocalKeyShare, SigningRequest,
};
use dkgkit::scalar::{polynomial_derivative_value, scalar_add, scalar_from_u32, scalar_mul, scalar_one, scalar_zero};
use dkgkit::signers::{validate_grouped_threshold_signer_set, validate_hierarchical_signer_set, validate_signer_set};
use dkgkit::types::{
    DkgKitError, GroupThresholdRequirement, GroupedThresholdConfig, HierarchicalThresholdConfig, ParticipantId,
    ProtocolMessage, ProtocolMessageKind, RankedParticipant, SessionId, SigningPolicy, ThresholdConfig,
};
use schnorr_fun::{Message, Schnorr, Signature};
use secp256kfun::marker::{EvenY, Public, Secret, Zero};
use secp256kfun::{Point, Scalar};
use sha2::Sha256;

fn pid(value: u16) -> ParticipantId {
    ParticipantId::new(value).unwrap()
}

fn session(participant_id: u16) -> FrostDkgSession {
    FrostDkgSession::new(DkgSessionConfig {
        session_id: SessionId::new("dkg-demo").unwrap(),
        threshold: ThresholdConfig::new(2, 3).unwrap(),
        participant_id: pid(participant_id),
    })
}

fn htss_config() -> HierarchicalThresholdConfig {
    HierarchicalThresholdConfig::new(
        3,
        vec![
            RankedParticipant::new(1, 0, Some("ceo".to_string())).unwrap(),
            RankedParticipant::new(2, 1, Some("cfo".to_string())).unwrap(),
            RankedParticipant::new(3, 1, Some("finance".to_string())).unwrap(),
            RankedParticipant::new(4, 2, Some("operator-a".to_string())).unwrap(),
            RankedParticipant::new(5, 2, Some("operator-b".to_string())).unwrap(),
        ],
    )
    .unwrap()
}

fn grouped_config_123_of_235() -> GroupedThresholdConfig {
    GroupedThresholdConfig::new(
        vec![
            RankedParticipant::new(1, 0, Some("c-level-a".to_string())).unwrap(),
            RankedParticipant::new(2, 0, Some("c-level-b".to_string())).unwrap(),
            RankedParticipant::new(3, 1, Some("manager-a".to_string())).unwrap(),
            RankedParticipant::new(4, 1, Some("manager-b".to_string())).unwrap(),
            RankedParticipant::new(5, 1, Some("manager-c".to_string())).unwrap(),
            RankedParticipant::new(6, 2, Some("operator-a".to_string())).unwrap(),
            RankedParticipant::new(7, 2, Some("operator-b".to_string())).unwrap(),
            RankedParticipant::new(8, 2, Some("operator-c".to_string())).unwrap(),
            RankedParticipant::new(9, 2, Some("operator-d".to_string())).unwrap(),
            RankedParticipant::new(10, 2, Some("operator-e".to_string())).unwrap(),
        ],
        vec![
            GroupThresholdRequirement::new(0, 1, 2).unwrap(),
            GroupThresholdRequirement::new(1, 2, 3).unwrap(),
            GroupThresholdRequirement::new(2, 3, 5).unwrap(),
        ],
    )
    .unwrap()
}

fn reconstruct_f0(
    points: &[BirkhoffPoint],
    interpolation_coefficients: &[BirkhoffCoefficient],
    polynomial_coefficients: &Vec<[u8; 32]>,
) -> [u8; 32] {
    points
        .iter()
        .zip(interpolation_coefficients)
        .map(|(point, interpolation_coefficient)| {
            scalar_mul(
                interpolation_coefficient.coefficient_bytes,
                polynomial_derivative_value(polynomial_coefficients, point.x, point.derivative_order),
            )
        })
        .fold(scalar_zero(), scalar_add)
}

fn run_dkg() -> Vec<LocalKeyShare> {
    let mut sessions = [session(1), session(2), session(3)];
    let round1_packages = sessions.iter_mut().map(|session| session.round1().unwrap()).collect::<Vec<_>>();
    let round2_packages = sessions
        .iter_mut()
        .flat_map(|session| session.round2(&round1_packages).unwrap())
        .collect::<Vec<_>>();
    sessions.iter().map(|session| session.finalize(&round2_packages).unwrap()).collect::<Vec<_>>()
}

fn verifies(xonly: [u8; 32], digest: [u8; 32], signature_bytes: Vec<u8>) -> bool {
    let signature_bytes: [u8; 64] = signature_bytes.try_into().unwrap();
    let signature = Signature::<Public>::from_bytes(signature_bytes).unwrap();
    let public_key = Point::<EvenY, Public>::from_xonly_bytes(xonly).unwrap();
    let schnorr = Schnorr::<Sha256>::verify_only();
    schnorr.verify(&public_key, Message::<Public>::raw(&digest), &signature)
}

#[test]
fn signer_set_requires_threshold() {
    let threshold = ThresholdConfig::new(2, 3).unwrap();
    assert!(validate_signer_set(&[pid(1)], &threshold).is_err());
    assert!(validate_signer_set(&[pid(1), pid(2)], &threshold).is_ok());
}

#[test]
fn signer_set_rejects_duplicates_and_out_of_range() {
    let threshold = ThresholdConfig::new(2, 3).unwrap();
    assert!(matches!(
        validate_signer_set(&[pid(1), pid(1)], &threshold).unwrap_err(),
        DkgKitError::DuplicateParticipantId(1)
    ));
    assert!(matches!(
        validate_signer_set(&[pid(1), pid(4)], &threshold).unwrap_err(),
        DkgKitError::ParticipantOutOfRange { participant_id: 4, participants: 3 }
    ));
}

#[test]
fn hierarchical_signer_set_accepts_rank_valid_sets() {
    let config = htss_config();
    assert!(validate_hierarchical_signer_set(&[pid(1), pid(2), pid(3)], &config).is_ok());
    assert!(validate_hierarchical_signer_set(&[pid(1), pid(2), pid(4)], &config).is_ok());
}

#[test]
fn hierarchical_signer_set_rejects_missing_high_authority() {
    let config = htss_config();
    let err = validate_hierarchical_signer_set(&[pid(2), pid(4), pid(5)], &config).unwrap_err();
    assert!(err.message().contains("Birkhoff rank rule"));
}

#[test]
fn signing_request_can_validate_against_hierarchical_policy() {
    let shares = run_dkg();
    let config = HierarchicalThresholdConfig::new(
        2,
        vec![
            RankedParticipant::new(1, 0, Some("admin".to_string())).unwrap(),
            RankedParticipant::new(2, 1, Some("operator".to_string())).unwrap(),
            RankedParticipant::new(3, 1, Some("operator".to_string())).unwrap(),
        ],
    )
    .unwrap();
    let policy = SigningPolicy::Hierarchical(config);
    let request = SigningRequest::new_with_policy(
        SessionId::new("sign-demo").unwrap(),
        shares[0].group_key.clone(),
        [2u8; 32],
        vec![pid(1), pid(2)],
        &policy,
    )
    .unwrap();
    assert_eq!(request.signer_set, vec![pid(1), pid(2)]);
    assert!(SigningRequest::new_with_policy(
        SessionId::new("sign-demo-2").unwrap(),
        shares[0].group_key.clone(),
        [2u8; 32],
        vec![pid(2), pid(3)],
        &policy,
    )
    .is_err());
}

#[test]
fn grouped_threshold_signer_set_accepts_123_of_235() {
    let config = grouped_config_123_of_235();
    assert!(validate_grouped_threshold_signer_set(&[pid(1), pid(3), pid(4), pid(6), pid(7), pid(8)], &config).is_ok());
}

#[test]
fn grouped_threshold_signer_set_rejects_short_group_despite_enough_total_signers() {
    let config = grouped_config_123_of_235();
    let err = validate_grouped_threshold_signer_set(&[pid(1), pid(3), pid(6), pid(7), pid(8), pid(9)], &config)
        .unwrap_err();
    assert!(err.message().contains("rank 1 needs 2"));
}

#[test]
fn signing_request_can_validate_against_grouped_policy() {
    let group_key = GroupKey { xonly_public_key: [1u8; 32], verification_key_bytes: vec![1, 2, 3] };
    let policy = SigningPolicy::Grouped(grouped_config_123_of_235());
    assert!(SigningRequest::new_with_policy(
        SessionId::new("grouped-demo").unwrap(),
        group_key.clone(),
        [4u8; 32],
        vec![pid(1), pid(3), pid(4), pid(6), pid(7), pid(8)],
        &policy,
    )
    .is_ok());
    assert!(SigningRequest::new_with_policy(
        SessionId::new("grouped-demo-reject").unwrap(),
        group_key,
        [4u8; 32],
        vec![pid(1), pid(3), pid(6), pid(7), pid(8), pid(9)],
        &policy,
    )
    .is_err());
}

#[test]
fn grouped_signing_request_carries_grouped_config() {
    let group_key = GroupKey { xonly_public_key: [1u8; 32], verification_key_bytes: vec![1, 2, 3] };
    let config = grouped_config_123_of_235();
    let request = GroupedSigningRequest::new(
        SessionId::new("grouped-request-demo").unwrap(),
        group_key,
        [5u8; 32],
        vec![pid(1), pid(3), pid(4), pid(6), pid(7), pid(8)],
        &config,
    )
    .unwrap();
    assert_eq!(request.request.signer_set.len(), 6);
    assert_eq!(request.config.required_signer_count(), 6);
}

#[test]
fn hierarchical_signing_request_carries_birkhoff_coefficients() {
    let shares = run_dkg();
    let config = HierarchicalThresholdConfig::new(
        2,
        vec![
            RankedParticipant::new(1, 0, Some("admin".to_string())).unwrap(),
            RankedParticipant::new(2, 1, Some("operator".to_string())).unwrap(),
            RankedParticipant::new(3, 1, Some("operator".to_string())).unwrap(),
        ],
    )
    .unwrap();
    let request = HierarchicalSigningRequest::new(
        SessionId::new("htss-sign-demo").unwrap(),
        shares[0].group_key.clone(),
        [3u8; 32],
        vec![pid(1), pid(2)],
        &config,
    )
    .unwrap();
    assert_eq!(request.request.signer_set, vec![pid(1), pid(2)]);
    assert_eq!(request.points.len(), 2);
    assert_eq!(request.coefficients.len(), 2);
}

#[test]
fn birkhoff_coefficients_match_standard_lagrange_for_rank_zero_points() {
    let points = vec![BirkhoffPoint::new(pid(1), 1, 0).unwrap(), BirkhoffPoint::new(pid(2), 2, 0).unwrap()];
    let interpolation_coefficients = birkhoff_interpolation_coefficients(&points).unwrap();
    let polynomial_coefficients = vec![scalar_from_u32(5), scalar_from_u32(7)];
    assert_eq!(
        reconstruct_f0(&points, &interpolation_coefficients, &polynomial_coefficients),
        polynomial_coefficients[0]
    );
}

#[test]
fn birkhoff_coefficients_reconstruct_ranked_derivative_system() {
    let points = vec![
        BirkhoffPoint::new(pid(1), 1, 0).unwrap(),
        BirkhoffPoint::new(pid(2), 2, 1).unwrap(),
        BirkhoffPoint::new(pid(3), 3, 1).unwrap(),
    ];
    let interpolation_coefficients = birkhoff_interpolation_coefficients(&points).unwrap();
    let polynomial_coefficients = vec![scalar_from_u32(11), scalar_from_u32(5), scalar_from_u32(2)];
    assert_eq!(
        reconstruct_f0(&points, &interpolation_coefficients, &polynomial_coefficients),
        polynomial_coefficients[0]
    );
}

#[test]
fn birkhoff_coefficients_reject_singular_low_authority_system() {
    let points = vec![
        BirkhoffPoint::new(pid(1), 1, 1).unwrap(),
        BirkhoffPoint::new(pid(2), 2, 1).unwrap(),
        BirkhoffPoint::new(pid(3), 3, 2).unwrap(),
    ];
    let err = birkhoff_interpolation_coefficients(&points).unwrap_err();
    assert!(err.message().contains("singular Birkhoff"));
}

#[test]
fn local_htss_keygen_reconstructs_secret_for_valid_rank_set() {
    let config = htss_config();
    let keyset = run_local_htss_keygen(&config).unwrap();
    let signer_set = vec![pid(1), pid(2), pid(4)];
    let secret_bytes = reconstruct_htss_secret_scalar(&keyset.shares, &signer_set, &config).unwrap();
    let secret = Scalar::<Secret, Zero>::from_bytes(secret_bytes).unwrap().non_zero().unwrap();
    let schnorr = schnorr_fun::new_with_deterministic_nonces::<Sha256>();
    let keypair = schnorr.new_keypair(secret);
    assert_eq!(keypair.public_key().to_xonly_bytes(), keyset.group_key.xonly_public_key);
}

#[test]
fn local_htss_reconstruction_rejects_invalid_rank_set() {
    let config = htss_config();
    let keyset = run_local_htss_keygen(&config).unwrap();
    let err = reconstruct_htss_secret_scalar(&keyset.shares, &[pid(2), pid(4), pid(5)], &config).unwrap_err();
    assert!(err.message().contains("Birkhoff rank rule"));
}

#[test]
fn local_htss_shares_sign_digest_that_verifies_against_group_key() {
    let config = htss_config();
    let keyset = run_local_htss_keygen(&config).unwrap();
    let digest = [12u8; 32];
    let signature =
        sign_digest_with_local_htss_shares(&keyset.group_key, digest, &keyset.shares, &[pid(1), pid(2), pid(4)], &config)
            .unwrap();
    assert!(verifies(keyset.group_key.xonly_public_key, digest, signature.signature_bytes));
}

#[test]
fn local_htss_threshold_shares_sign_without_reconstructing_secret() {
    let config = htss_config();
    let keyset = run_local_htss_keygen(&config).unwrap();
    let digest = [14u8; 32];
    let signature = sign_digest_with_local_htss_threshold_shares(
        &keyset.group_key,
        digest,
        &keyset.shares,
        &[pid(1), pid(2), pid(4)],
        &config,
    )
    .unwrap();
    assert!(verifies(keyset.group_key.xonly_public_key, digest, signature.signature_bytes));
}

#[test]
fn htss_threshold_signature_passes_the_library_verifier() {
    let config = htss_config();
    let keyset = run_local_htss_keygen(&config).unwrap();
    let digest = [31u8; 32];
    let signature = sign_digest_with_local_htss_threshold_shares(
        &keyset.group_key,
        digest,
        &keyset.shares,
        &[pid(1), pid(2), pid(5)],
        &config,
    )
    .unwrap();
    assert_eq!(verify_aggregate_signature_digest(&keyset.group_key, &digest, &signature).unwrap(), true);
    let other = [32u8; 32];
    assert_eq!(verify_aggregate_signature_digest(&keyset.group_key, &other, &signature).unwrap(), false);
}

#[test]
fn distributed_htss_signature_passes_the_library_verifier() {
    let config = htss_config();
    let keyset = run_distributed_htss_keygen(&config).unwrap();
    let digest = [33u8; 32];
    let signature = sign_digest_with_local_htss_threshold_shares(
        &keyset.group_key,
        digest,
        &keyset.shares,
        &[pid(1), pid(3), pid(5)],
        &config,
    )
    .unwrap();
    assert_eq!(verify_aggregate_signature_digest(&keyset.group_key, &digest, &signature).unwrap(), true);
}

#[test]
fn distributed_htss_dkg_derives_derivative_shares_that_sign() {
    let config = htss_config();
    let keyset = run_distributed_htss_keygen(&config).unwrap();
    let signer_set = vec![pid(1), pid(2), pid(4)];
    let digest = [24u8; 32];
    let signature =
        sign_digest_with_local_htss_threshold_shares(&keyset.group_key, digest, &keyset.shares, &signer_set, &config)
            .unwrap();
    assert!(verifies(keyset.group_key.xonly_public_key, digest, signature.signature_bytes));
}

#[test]
fn distributed_htss_dkg_rejects_tampered_derivative_share() {
    let config = htss_config();
    let states = config
        .participants
        .iter()
        .map(|participant| htss_dkg_round1(participant.id, &config))
        .collect::<Result<Vec<_>, DkgKitError>>()
        .unwrap();
    let round1_packages = states.iter().map(|state| state.package.clone()).collect::<Vec<_>>();
    let mut round2_for_one = states
        .iter()
        .map(|state| htss_dkg_round2(state, &round1_packages, &config))
        .collect::<Result<Vec<_>, DkgKitError>>()
        .unwrap()
        .into_iter()
        .flatten()
        .filter(|package| package.recipient == pid(1))
        .collect::<Vec<_>>();
    round2_for_one[0].share_value_bytes = scalar_add(round2_for_one[0].share_value_bytes, scalar_one());

    let err = finalize_htss_dkg(pid(1), &round1_packages, &round2_for_one, &config).unwrap_err();
    assert!(err.message().contains("failed commitment verification"));
}

#[test]
fn local_htss_nonce_share_and_aggregate_flow_verifies() {
    let config = htss_config();
    let keyset = run_local_htss_keygen(&config).unwrap();
    let signer_set = vec![pid(1), pid(2), pid(4)];
    let digest = [15u8; 32];
    let signing_session_id = SessionId::new("htss-share-flow").unwrap();
    let selected_shares = signer_set
        .iter()
        .map(|participant_id| keyset.shares.iter().find(|share| share.participant_id == *participant_id).unwrap())
        .collect::<Vec<_>>();
    let nonces = selected_shares
        .iter()
        .map(|share| htss_nonce(signing_session_id.clone(), share).unwrap())
        .collect::<Vec<_>>();
    let public_nonces = nonces.iter().map(|nonce| nonce.package.clone()).collect::<Vec<_>>();
    let shares = selected_shares
        .iter()
        .zip(nonces.iter())
        .map(|(share, nonce)| {
            htss_sign_share(&keyset.group_key, digest, share, nonce, &public_nonces, &signer_set, &config).unwrap()
        })
        .collect::<Vec<_>>();
    let signature =
        aggregate_htss_signature_shares(&keyset.group_key, digest, &public_nonces, &shares, &signer_set, &config)
            .unwrap();
    assert_eq!(signature.signature_bytes.len(), 64);
}

#[test]
fn local_grouped_htss_threshold_shares_sign_valid_123_of_235() {
    let config = grouped_config_123_of_235();
    let keyset = run_local_grouped_htss_keygen(&config).unwrap();
    let signer_set = vec![pid(1), pid(3), pid(4), pid(6), pid(7), pid(8)];
    let digest = [17u8; 32];
    let signature = sign_digest_with_local_grouped_htss_threshold_shares(
        &keyset.group_key,
        digest,
        &keyset.shares,
        &signer_set,
        &config,
    )
    .unwrap();
    assert!(verifies(keyset.group_key.xonly_public_key, digest, signature.signature_bytes));
}

#[test]
fn local_grouped_htss_rejects_short_group_before_signing() {
    let config = grouped_config_123_of_235();
    let keyset = run_local_grouped_htss_keygen(&config).unwrap();
    let signer_set = vec![pid(1), pid(3), pid(6), pid(7), pid(8), pid(9)];
    let err = sign_digest_with_local_grouped_htss_threshold_shares(
        &keyset.group_key,
        [18u8; 32],
        &keyset.shares,
        &signer_set,
        &config,
    )
    .unwrap_err();
    assert!(err.message().contains("rank 1 needs 2"));
}

#[test]
fn signing_request_validates_signer_set() {
    let threshold = ThresholdConfig::new(2, 3).unwrap();
    let shares = run_dkg();
    let request = SigningRequest::new(
        SessionId::new("sign-demo").unwrap(),
        shares[0].group_key.clone(),
        [1u8; 32],
        vec![pid(1), pid(2)],
        &threshold,
    )
    .unwrap();
    assert_eq!(request.signer_set.len(), 2);
}

#[test]
fn round1_package_round_trips_through_protocol_message() {
    let session_id = SessionId::new("dkg-demo").unwrap();
    let package = Round1Package { participant_id: pid(1), bytes: vec![1, 2, 3] };
    let message = package.to_protocol_message(session_id).unwrap();
    assert_eq!(message.kind, ProtocolMessageKind::FrostDkgRound1);
    assert_eq!(Round1Package::from_protocol_message(&message).unwrap(), package);
}

#[test]
fn round2_package_round_trips_through_direct_protocol_message() {
    let session_id = SessionId::new("dkg-demo").unwrap();
    let package = Round2Package { sender: pid(1), recipient: pid(2), bytes: vec![4, 5, 6] };
    let message = package.to_protocol_message(session_id).unwrap();
    assert_eq!(message.kind, ProtocolMessageKind::FrostDkgRound2);
    assert_eq!(message.recipient, Some(pid(2)));
    assert_eq!(Round2Package::from_protocol_message(&message).unwrap(), package);
}

#[test]
fn package_decoder_rejects_wrong_kind() {
    let package = Round1Package { participant_id: pid(1), bytes: vec![1] };
    let message = ProtocolMessage::broadcast(
        SessionId::new("dkg-demo").unwrap(),
        pid(1),
        ProtocolMessageKind::FrostSignatureShare,
        encode_payload(&package).unwrap(),
    );
    assert!(Round1Package::from_protocol_message(&message).is_err());
}

#[test]
fn signing_packages_round_trip_through_protocol_messages() {
    let nonce = NoncePackage {
        participant_id: pid(1),
        signing_session_id: SessionId::new("sign-demo").unwrap(),
        public_nonce_bytes: vec![7, 8],
    };
    let nonce_message = nonce.to_protocol_message().unwrap();
    assert_eq!(NoncePackage::from_protocol_message(&nonce_message).unwrap(), nonce);

    let share = SignatureSharePackage {
        participant_id: pid(2),
        signing_session_id: SessionId::new("sign-demo").unwrap(),
        public_nonce_bytes: vec![7],
        signature_share_bytes: vec![9, 10],
    };
    let share_message = share.to_protocol_message().unwrap();
    assert_eq!(SignatureSharePackage::from_protocol_message(&share_message).unwrap(), share);
}

#[test]
fn htss_signing_packages_round_trip_through_protocol_messages() {
    let nonce = HtssNoncePackage {
        participant_id: pid(1),
        signing_session_id: SessionId::new("htss-sign-demo").unwrap(),
        public_nonce_bytes: vec![2; 33],
    };
    let nonce_message = nonce.to_protocol_message().unwrap();
    assert_eq!(nonce_message.kind, ProtocolMessageKind::HtssSigningNonce);
    assert_eq!(HtssNoncePackage::from_protocol_message(&nonce_message).unwrap(), nonce);

    let share = HtssSignatureSharePackage {
        participant_id: pid(2),
        signing_session_id: SessionId::new("htss-sign-demo").unwrap(),
        signature_share_bytes: [4; 32],
    };
    let share_message = share.to_protocol_message().unwrap();
    assert_eq!(share_message.kind, ProtocolMessageKind::HtssSignatureShare);
    assert_eq!(HtssSignatureSharePackage::from_protocol_message(&share_message).unwrap(), share);
}

#[test]
fn frost_dkg_sessions_derive_same_group_key() {
    let local_shares = run_dkg();
    assert_eq!(local_shares.len(), 3);
    assert_eq!(local_shares[0].group_key, local_shares[1].group_key);
    assert_eq!(local_shares[1].group_key, local_shares[2].group_key);
    assert!(local_shares.iter().all(|share| !share.secret_share_bytes.is_empty()));
}

#[test]
fn frost_signing_sessions_aggregate_valid_signature() {
    let local_shares = run_dkg();
    let threshold = ThresholdConfig::new(2, 3).unwrap();
    let request = SigningRequest::new(
        SessionId::new("sign-demo").unwrap(),
        local_shares[0].group_key.clone(),
        [42u8; 32],
        vec![pid(1), pid(2)],
        &threshold,
    )
    .unwrap();
    let mut signing_1 = FrostSigningSession::new(request.clone());
    let mut signing_2 = FrostSigningSession::new(request.clone());
    let aggregator = FrostSigningSession::new(request);
    let nonces = vec![signing_1.nonce(&local_shares[0]).unwrap(), signing_2.nonce(&local_shares[1]).unwrap()];
    let shares = vec![
        signing_1.sign_share(&local_shares[0], &nonces).unwrap(),
        signing_2.sign_share(&local_shares[1], &nonces).unwrap(),
    ];
    let aggregate = aggregator.aggregate(&shares).unwrap();
    assert!(!aggregate.signature_bytes.is_empty());
}

#[test]
fn distributed_htss_participants_finalize_to_one_group_key() {
    let config = htss_config();
    let states = config
        .participants
        .iter()
        .map(|participant| htss_dkg_round1(participant.id, &config))
        .collect::<Result<Vec<_>, DkgKitError>>()
        .unwrap();
    let round1_packages = states.iter().map(|state| state.package.clone()).collect::<Vec<_>>();
    let round2_packages = states
        .iter()
        .map(|state| htss_dkg_round2(state, &round1_packages, &config))
        .collect::<Result<Vec<_>, DkgKitError>>()
        .unwrap()
        .into_iter()
        .flatten()
        .collect::<Vec<_>>();
    let keys = config
        .participants
        .iter()
        .map(|participant| {
            let mine = round2_packages
                .iter()
                .filter(|package| package.recipient == participant.id)
                .cloned()
                .collect::<Vec<_>>();
            finalize_htss_dkg(participant.id, &round1_packages, &mine, &config).unwrap().0
        })
        .collect::<Vec<_>>();
    assert_eq!(keys.len(), config.participants.len());
    assert!(keys.iter().all(|key| key.xonly_public_key == keys[0].xonly_public_key));
}

#[test]
fn frost_dkg_sessions_agree_on_group_key_whatever_the_round1_order() {
    let mut sessions = [session(1), session(2), session(3)];
    let round1_packages = sessions.iter_mut().map(|session| session.round1().unwrap()).collect::<Vec<_>>();
    let mut reversed = round1_packages.clone();
    reversed.reverse();
    let mut round2_packages = sessions[0].round2(&round1_packages).unwrap();
    round2_packages.extend(sessions[1].round2(&reversed).unwrap());
    round2_packages.extend(sessions[2].round2(&round1_packages).unwrap());
    let shares = sessions.iter().map(|session| session.finalize(&round2_packages).unwrap()).collect::<Vec<_>>();
    assert_eq!(shares[0].group_key, shares[1].group_key);
    assert_eq!(shares[1].group_key, shares[2].group_key);
}
