use dkgkit::bitcoin::{
    taproot_child_address_descriptor_for_network, verify_aggregate_signature_digest, BitcoinAccountKey,
    BitcoinAuthorizationMessage, BitcoinDerivationPath,
};
use dkgkit::birkhoff::{birkhoff_interpolation_coefficients, birkhoff_points_from_hierarchical_signer_set};
use dkgkit::htss_keys::{run_local_htss_keygen, sign_digest_with_local_htss_shares};
use dkgkit::htss_sign::{
    run_local_grouped_htss_keygen, sign_digest_with_local_grouped_htss_threshold_shares,
    sign_digest_with_local_htss_threshold_shares,
};
use dkgkit::packages::{HtssNoncePackage, HtssSignatureSharePackage, NoncePackage, Round1Package, Round2Package, SignatureSharePackage};
use dkgkit::requests::{GroupedSigningRequest, HierarchicalSigningRequest};
use dkgkit::sdk::{
    run_local_frost_dkg, sign_digest_with_shares, sign_digest_with_shares_and_policy, DkgKitSessionBuilder,
    FrostCoordinator, HtssDkgService,
};
use dkgkit::transport::MemoryTransport;
use dkgkit::types::{
    DkgKitError, GroupThresholdRequirement, GroupedThresholdConfig, HierarchicalThresholdConfig, ParticipantId,
    RankedParticipant, SessionId, SigningPolicy, ThresholdConfig,
};

fn pid(value: u16) -> ParticipantId {
    ParticipantId::new(value).unwrap()
}

fn grouped_config_123_of_235() -> GroupedThresholdConfig {
    GroupedThresholdConfig::new(
        vec![
            RankedParticipant::new(1, 0, Some("c-level-a".to_string())).unwrap(),
            RankedParticipant::new(2, 0, Some("c-level-b".to_string())).unwrap(),
            RankedParticipant::new(3, 1, Some("manager-a".to_string())).unwrap(),
            RankedParticipant::new(4, 1, Some("manager-b".to_string())).unwrap(),
            RankedParticipant::new(5, 1, Some("manager-c".to_string())).unwrap(),
            RankedParticipant::new(6, 2, Some("operator-a".to_string())).unwrap(),
            RankedParticipant::new(7, 2, Some("operator-b".to_string())).unwrap(),
            RankedParticipant::new(8, 2, Some("operator-c".to_string())).unwrap(),
            RankedParticipant::new(9, 2, Some("operator-d".to_string())).unwrap(),
            RankedParticipant::new(10, 2, Some("operator-e".to_string())).unwrap(),
        ],
        vec![
            GroupThresholdRequirement::new(0, 1, 2).unwrap(),
            GroupThresholdRequirement::new(1, 2, 3).unwrap(),
            GroupThresholdRequirement::new(2, 3, 5).unwrap(),
        ],
    )
    .unwrap()
}

#[test]
fn builder_creates_manifest() {
    let manifest = DkgKitSessionBuilder::new()
        .session_id("demo")
        .threshold(2, 3)
        .participant(1, Some("alice".to_string()))
        .unwrap()
        .participant(2, Some("bob".to_string()))
        .unwrap()
        .participant(3, Some("carol".to_string()))
        .unwrap()
        .build_manifest()
        .unwrap();
    assert_eq!(manifest.config.threshold.threshold, 2);
    assert_eq!(manifest.config.participants.len(), 3);
}

#[test]
fn frost_coordinator_publishes_and_drains_round1_packages() {
    let session_id = SessionId::new("dkg-demo").unwrap();
    let mut coordinator = FrostCoordinator::new(MemoryTransport::default());
    coordinator.connect().unwrap();
    coordinator
        .publish_round1(session_id.clone(), &Round1Package { participant_id: pid(1), bytes: vec![1, 2, 3] })
        .unwrap();

    let packages = coordinator.drain_round1(&session_id).unwrap();
    assert_eq!(packages.len(), 1);
    assert_eq!(packages[0].participant_id, pid(1));
    assert_eq!(packages[0].bytes, vec![1, 2, 3]);
}

#[test]
fn frost_coordinator_filters_round2_by_recipient() {
    let session_id = SessionId::new("dkg-demo").unwrap();
    let mut coordinator = FrostCoordinator::new(MemoryTransport::default());
    coordinator
        .publish_round2(session_id.clone(), &Round2Package { sender: pid(1), recipient: pid(2), bytes: vec![2] })
        .unwrap();
    coordinator
        .publish_round2(session_id.clone(), &Round2Package { sender: pid(1), recipient: pid(3), bytes: vec![3] })
        .unwrap();

    let packages = coordinator.drain_round2_for(&session_id, pid(2)).unwrap();
    assert_eq!(packages.len(), 1);
    assert_eq!(packages[0].recipient, pid(2));
}

#[test]
fn htss_dkg_service_entrypoints_publish_drain_and_finalize() {
    let config = HierarchicalThresholdConfig::new(
        2,
        vec![
            RankedParticipant::new(1, 0, Some("admin".to_string())).unwrap(),
            RankedParticipant::new(2, 1, Some("ops-a".to_string())).unwrap(),
            RankedParticipant::new(3, 1, Some("ops-b".to_string())).unwrap(),
        ],
    )
    .unwrap();
    let service = HtssDkgService::new("sdk-htss-dkg-entrypoint", config).unwrap();
    let states = service
        .config
        .participants
        .iter()
        .map(|participant| service.begin_round1(participant.id))
        .collect::<Result<Vec<_>, DkgKitError>>()
        .unwrap();
    let mut coordinator = FrostCoordinator::new(MemoryTransport::default());
    for state in &states {
        coordinator.publish_htss_dkg_round1(service.session_id.clone(), &state.package).unwrap();
    }
    let round1_packages = coordinator.drain_htss_dkg_round1(&service.session_id).unwrap();
    assert_eq!(round1_packages.len(), 3);

    for state in &states {
        for package in service.create_round2_packages(state, &round1_packages).unwrap() {
            coordinator.publish_htss_dkg_round2(service.session_id.clone(), &package).unwrap();
        }
    }
    let round2_for_one = coordinator.drain_htss_dkg_round2_for(&service.session_id, pid(1)).unwrap();
    let (group_key, share) = service.finalize_participant(pid(1), &round1_packages, &round2_for_one).unwrap();
    assert_eq!(share.participant_id, pid(1));

    let account_key = BitcoinAccountKey::new(group_key.clone(), [42u8; 32]);
    let descriptor =
        taproot_child_address_descriptor_for_network(&account_key, "regtest", BitcoinDerivationPath::bip86(0, 0, 0))
            .unwrap();
    assert_eq!(descriptor.path.display_path(), "m/86'/0'/0'/0/0");
    assert!(descriptor.address.starts_with("bcrt1p"));
    assert_eq!(descriptor.account_xonly_public_key_hex.len(), 64);
    assert_ne!(descriptor.internal_xonly_public_key_hex, descriptor.account_xonly_public_key_hex);
}

#[test]
fn high_level_helpers_run_dkg_and_sign_digest() {
    let shares = run_local_frost_dkg("sdk-demo", 2, 3).unwrap();
    assert_eq!(shares.len(), 3);
    assert_eq!(shares[0].group_key, shares[1].group_key);

    let signature = sign_digest_with_shares(
        "sdk-sign",
        ThresholdConfig::new(2, 3).unwrap(),
        shares[0].group_key.clone(),
        [9u8; 32],
        &shares,
        vec![pid(1), pid(2)],
    )
    .unwrap();
    assert_eq!(signature.signature_bytes.len(), 64);
}

#[test]
fn high_level_helper_can_enforce_hierarchical_policy() {
    let shares = run_local_frost_dkg("sdk-htss-demo", 2, 3).unwrap();
    let policy = SigningPolicy::Hierarchical(
        HierarchicalThresholdConfig::new(
            2,
            vec![
                RankedParticipant::new(1, 0, Some("admin".to_string())).unwrap(),
                RankedParticipant::new(2, 1, Some("operator-a".to_string())).unwrap(),
                RankedParticipant::new(3, 1, Some("operator-b".to_string())).unwrap(),
            ],
        )
        .unwrap(),
    );

    let signature = sign_digest_with_shares_and_policy(
        "sdk-htss-sign",
        policy.clone(),
        shares[0].group_key.clone(),
        [7u8; 32],
        &shares,
        vec![pid(1), pid(2)],
    )
    .unwrap();
    assert_eq!(signature.signature_bytes.len(), 64);

    let err = sign_digest_with_shares_and_policy(
        "sdk-htss-sign-reject",
        policy,
        shares[0].group_key.clone(),
        [7u8; 32],
        &shares,
        vec![pid(2), pid(3)],
    )
    .unwrap_err();
    assert!(err.message().contains("Birkhoff rank rule"));
}

#[test]
fn sdk_exports_birkhoff_points_for_hierarchical_signer_set() {
    let config = HierarchicalThresholdConfig::new(
        3,
        vec![
            RankedParticipant::new(1, 0, Some("admin".to_string())).unwrap(),
            RankedParticipant::new(2, 1, Some("finance".to_string())).unwrap(),
            RankedParticipant::new(3, 1, Some("ops".to_string())).unwrap(),
        ],
    )
    .unwrap();
    let points = birkhoff_points_from_hierarchical_signer_set(&[pid(1), pid(2), pid(3)], &config).unwrap();
    let coefficients = birkhoff_interpolation_coefficients(&points).unwrap();
    assert_eq!(coefficients.len(), 3);
    assert_eq!(coefficients[0].participant_id, pid(1));
}

#[test]
fn sdk_exports_hierarchical_signing_request() {
    let shares = run_local_frost_dkg("sdk-hierarchical-request-demo", 2, 3).unwrap();
    let config = HierarchicalThresholdConfig::new(
        2,
        vec![
            RankedParticipant::new(1, 0, Some("admin".to_string())).unwrap(),
            RankedParticipant::new(2, 1, Some("operator-a".to_string())).unwrap(),
            RankedParticipant::new(3, 1, Some("operator-b".to_string())).unwrap(),
        ],
    )
    .unwrap();
    let request = HierarchicalSigningRequest::new(
        SessionId::new("sdk-hierarchical-request-sign").unwrap(),
        shares[0].group_key.clone(),
        [8u8; 32],
        vec![pid(1), pid(2)],
        &config,
    )
    .unwrap();
    assert_eq!(request.coefficients.len(), 2);
}

#[test]
fn sdk_exports_local_htss_keygen_and_signing() {
    let config = HierarchicalThresholdConfig::new(
        3,
        vec![
            RankedParticipant::new(1, 0, Some("admin".to_string())).unwrap(),
            RankedParticipant::new(2, 1, Some("finance".to_string())).unwrap(),
            RankedParticipant::new(3, 1, Some("ops".to_string())).unwrap(),
            RankedParticipant::new(4, 2, Some("operator".to_string())).unwrap(),
        ],
    )
    .unwrap();
    let keyset = run_local_htss_keygen(&config).unwrap();
    let digest = [13u8; 32];
    let signature =
        sign_digest_with_local_htss_shares(&keyset.group_key, digest, &keyset.shares, &[pid(1), pid(2), pid(4)], &config)
            .unwrap();
    assert!(verify_aggregate_signature_digest(&keyset.group_key, &digest, &signature).unwrap());
}

#[test]
fn sdk_exports_local_htss_threshold_share_signing() {
    let config = HierarchicalThresholdConfig::new(
        3,
        vec![
            RankedParticipant::new(1, 0, Some("admin".to_string())).unwrap(),
            RankedParticipant::new(2, 1, Some("finance".to_string())).unwrap(),
            RankedParticipant::new(3, 1, Some("ops".to_string())).unwrap(),
            RankedParticipant::new(4, 2, Some("operator".to_string())).unwrap(),
        ],
    )
    .unwrap();
    let keyset = run_local_htss_keygen(&config).unwrap();
    let digest = [16u8; 32];
    let signature = sign_digest_with_local_htss_threshold_shares(
        &keyset.group_key,
        digest,
        &keyset.shares,
        &[pid(1), pid(2), pid(4)],
        &config,
    )
    .unwrap();
    assert!(verify_aggregate_signature_digest(&keyset.group_key, &digest, &signature).unwrap());
}

#[test]
fn high_level_helper_can_enforce_grouped_threshold_policy() {
    let shares = run_local_frost_dkg("sdk-grouped-demo", 6, 10).unwrap();
    let policy = SigningPolicy::Grouped(grouped_config_123_of_235());

    let signature = sign_digest_with_shares_and_policy(
        "sdk-grouped-sign",
        policy.clone(),
        shares[0].group_key.clone(),
        [10u8; 32],
        &shares,
        vec![pid(1), pid(3), pid(4), pid(6), pid(7), pid(8)],
    )
    .unwrap();
    assert_eq!(signature.signature_bytes.len(), 64);

    let err = sign_digest_with_shares_and_policy(
        "sdk-grouped-sign-reject",
        policy,
        shares[0].group_key.clone(),
        [10u8; 32],
        &shares,
        vec![pid(1), pid(3), pid(6), pid(7), pid(8), pid(9)],
    )
    .unwrap_err();
    assert!(err.message().contains("rank 1 needs 2"));
}

#[test]
fn sdk_can_sign_grouped_policy_with_local_htss_threshold_shares() {
    let config = grouped_config_123_of_235();
    let keyset = run_local_grouped_htss_keygen(&config).unwrap();
    let signer_set = vec![pid(1), pid(3), pid(4), pid(6), pid(7), pid(8)];
    let digest = [19u8; 32];
    let signature = sign_digest_with_local_grouped_htss_threshold_shares(
        &keyset.group_key,
        digest,
        &keyset.shares,
        &signer_set,
        &config,
    )
    .unwrap();
    assert!(verify_aggregate_signature_digest(&keyset.group_key, &digest, &signature).unwrap());
}

#[test]
fn sdk_exports_grouped_signing_request() {
    let shares = run_local_frost_dkg("sdk-grouped-request-demo", 6, 10).unwrap();
    let config = grouped_config_123_of_235();
    let request = GroupedSigningRequest::new(
        SessionId::new("sdk-grouped-request-sign").unwrap(),
        shares[0].group_key.clone(),
        [11u8; 32],
        vec![pid(1), pid(3), pid(4), pid(6), pid(7), pid(8)],
        &config,
    )
    .unwrap();
    assert_eq!(request.config.required_signer_count(), 6);
}

#[test]
fn frost_coordinator_publishes_and_drains_signing_packages() {
    let signing_session_id = SessionId::new("sign-demo").unwrap();
    let mut coordinator = FrostCoordinator::new(MemoryTransport::default());
    coordinator
        .publish_nonce(&NoncePackage {
            participant_id: pid(1),
            signing_session_id: signing_session_id.clone(),
            public_nonce_bytes: vec![7],
        })
        .unwrap();
    coordinator
        .publish_signature_share(&SignatureSharePackage {
            participant_id: pid(2),
            signing_session_id: signing_session_id.clone(),
            public_nonce_bytes: vec![7],
            signature_share_bytes: vec![8],
        })
        .unwrap();

    let nonces = coordinator.drain_nonces(&signing_session_id).unwrap();
    assert_eq!(nonces.len(), 1);
    assert_eq!(nonces[0].participant_id, pid(1));

    let shares = coordinator.drain_signature_shares(&signing_session_id).unwrap();
    assert_eq!(shares.len(), 1);
    assert_eq!(shares[0].participant_id, pid(2));
}

#[test]
fn frost_coordinator_publishes_and_drains_htss_signing_packages() {
    let signing_session_id = SessionId::new("htss-sign-demo").unwrap();
    let mut coordinator = FrostCoordinator::new(MemoryTransport::default());
    coordinator
        .publish_htss_nonce(&HtssNoncePackage {
            participant_id: pid(1),
            signing_session_id: signing_session_id.clone(),
            public_nonce_bytes: vec![2; 33],
        })
        .unwrap();
    coordinator
        .publish_htss_signature_share(&HtssSignatureSharePackage {
            participant_id: pid(2),
            signing_session_id: signing_session_id.clone(),
            signature_share_bytes: [4; 32],
        })
        .unwrap();

    let nonces = coordinator.drain_htss_nonces(&signing_session_id).unwrap();
    assert_eq!(nonces.len(), 1);
    assert_eq!(nonces[0].participant_id, pid(1));

    let shares = coordinator.drain_htss_signature_shares(&signing_session_id).unwrap();
    assert_eq!(shares.len(), 1);
    assert_eq!(shares[0].participant_id, pid(2));
}

#[test]
fn bitcoin_authorization_signature_verifies_against_frost_group_key() -> Result<(), DkgKitError> {
    let threshold = ThresholdConfig::new(2, 3)?;
    let shares = run_local_frost_dkg("sdk-bitcoin-verification-dkg", 2, 3)?;
    let group_key = shares[0].group_key.clone();
    let authorization = BitcoinAuthorizationMessage {
        network: "signet".to_string(),
        action: "approve-payment".to_string(),
        recipient: Some("tb1ptestrecipient".to_string()),
        amount_sats: Some(25_000),
        memo: Some("sdk integration test".to_string()),
        nonce: "sdk-bitcoin-verification-001".to_string(),
    };
    let digest = authorization.digest();
    let signature = sign_digest_with_shares(
        "sdk-bitcoin-verification-signing",
        threshold,
        group_key.clone(),
        digest,
        &shares,
        vec![ParticipantId::new(1)?, ParticipantId::new(3)?],
    )?;

    assert!(verify_aggregate_signature_digest(&group_key, &digest, &signature).unwrap());
    Ok(())
}

#[test]
fn drained_envelopes_decode_in_order_or_report_the_first_refusal() {
    let session = SessionId::new("dkg-demo").unwrap();
    let first = Round1Package { participant_id: pid(1), bytes: vec![1, 2] };
    let second = Round1Package { participant_id: pid(2), bytes: vec![3] };
    let messages = vec![
        first.to_protocol_message(session.clone()).unwrap(),
        second.to_protocol_message(session.clone()).unwrap(),
    ];
    let decoded = dkgkit::sdk::round1_packages_from_messages(&messages).unwrap();
    assert_eq!(decoded, vec![first.clone(), second.clone()]);

    let nonce = NoncePackage { participant_id: pid(3), signing_session_id: session.clone(), public_nonce_bytes: vec![7] };
    let mixed = vec![messages[0].clone(), nonce.to_protocol_message().unwrap(), messages[1].clone()];
    assert!(dkgkit::sdk::round1_packages_from_messages(&mixed).is_err());
    assert_eq!(dkgkit::sdk::nonce_packages_from_messages(&mixed[1..2]).unwrap(), vec![nonce]);
    assert!(dkgkit::sdk::round1_packages_from_messages(&[]).unwrap().is_empty());
}
