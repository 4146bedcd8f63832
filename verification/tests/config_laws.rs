use dkgkit::htss_dkg::run_distributed_htss_keygen;
use dkgkit::signers::{validate_grouped_threshold_signer_set, validate_hierarchical_signer_set};
use dkgkit::types::{
    GroupThresholdRequirement, GroupedThresholdConfig, HierarchicalThresholdConfig, ParticipantId,
    ProtocolMessageKind, RankedParticipant,
};

fn ranked(id: u16, rank: u16) -> RankedParticipant {
    RankedParticipant::new(id, rank, Some(format!("party-{id}"))).unwrap()
}

#[test]
fn grouped_requirement_totals_add_up_to_the_roster() {
    let config = GroupedThresholdConfig::new(
        vec![ranked(1, 0), ranked(2, 0), ranked(3, 1), ranked(4, 1), ranked(5, 1), ranked(6, 2)],
        vec![
            GroupThresholdRequirement::new(2, 1, 1).unwrap(),
            GroupThresholdRequirement::new(1, 2, 3).unwrap(),
            GroupThresholdRequirement::new(0, 1, 2).unwrap(),
        ],
    )
    .unwrap();
    let totals: usize = config.requirements.iter().map(|requirement| requirement.total as usize).sum();
    assert_eq!(totals, config.participants.len());
}

#[test]
fn grouped_config_refuses_a_rank_without_requirement() {
    let err = GroupedThresholdConfig::new(
        vec![ranked(1, 0), ranked(2, 1)],
        vec![GroupThresholdRequirement::new(0, 1, 1).unwrap()],
    )
    .unwrap_err();
    assert_eq!(err.message(), "protocol error: missing grouped threshold requirement for rank 1");
}

#[test]
fn grouped_config_refuses_a_repeated_requirement_rank() {
    let err = GroupedThresholdConfig::new(
        vec![ranked(1, 0), ranked(2, 0)],
        vec![
            GroupThresholdRequirement::new(0, 1, 2).unwrap(),
            GroupThresholdRequirement::new(0, 1, 2).unwrap(),
        ],
    )
    .unwrap_err();
    assert_eq!(err.message(), "protocol error: duplicate grouped threshold rank: 0");
}

#[test]
fn built_in_kind_tags_read_back_as_their_kind() {
    let kinds = vec![
        ProtocolMessageKind::SessionManifest,
        ProtocolMessageKind::FrostDkgRound1,
        ProtocolMessageKind::FrostDkgRound2,
        ProtocolMessageKind::HtssDkgRound1,
        ProtocolMessageKind::HtssDkgRound2,
        ProtocolMessageKind::FrostSigningNonce,
        ProtocolMessageKind::FrostSignatureShare,
        ProtocolMessageKind::HtssSigningNonce,
        ProtocolMessageKind::HtssSignatureShare,
    ];
    for kind in kinds {
        assert_eq!(ProtocolMessageKind::from_tag(kind.as_str()), kind);
    }
    assert_eq!(ProtocolMessageKind::from_tag("round1"), ProtocolMessageKind::FrostDkgRound1);
}

#[test]
fn custom_kinds_and_short_aliases_read_back() {
    let custom = ProtocolMessageKind::Custom("audit_log".to_string());
    assert_eq!(ProtocolMessageKind::from_tag(custom.as_str()), custom);
    assert_eq!(ProtocolMessageKind::from_tag("round2"), ProtocolMessageKind::FrostDkgRound2);
    assert_eq!(ProtocolMessageKind::from_tag("nonce"), ProtocolMessageKind::FrostSigningNonce);
    assert_eq!(ProtocolMessageKind::from_tag("signature_share"), ProtocolMessageKind::FrostSignatureShare);
}

#[test]
fn distributed_htss_keygen_succeeds_on_a_valid_roster() {
    let config = HierarchicalThresholdConfig::new(2, vec![ranked(1, 0), ranked(2, 0), ranked(3, 1)]).unwrap();
    for _ in 0..3 {
        let keyset = run_distributed_htss_keygen(&config).unwrap();
        assert_eq!(keyset.shares.len(), 3);
    }
}

#[test]
fn distributed_htss_shares_carry_their_roster_rank() {
    let config = HierarchicalThresholdConfig::new(
        2,
        vec![ranked(1, 0), ranked(2, 1), ranked(3, 1)],
    )
    .unwrap();
    let keyset = run_distributed_htss_keygen(&config).unwrap();
    assert_eq!(keyset.shares.len(), 3);
    for (share, participant) in keyset.shares.iter().zip(config.participants.iter()) {
        assert_eq!(share.participant_id, participant.id);
        assert_eq!(share.rank, participant.rank.0);
    }
}

#[test]
fn hierarchical_signer_acceptance_ignores_signer_order() {
    let config = HierarchicalThresholdConfig::new(
        3,
        vec![ranked(1, 0), ranked(2, 1), ranked(3, 1), ranked(4, 2), ranked(5, 2)],
    )
    .unwrap();
    let ids = |values: &[u16]| values.iter().map(|value| ParticipantId::new(*value).unwrap()).collect::<Vec<_>>();
    assert!(validate_hierarchical_signer_set(&ids(&[1, 2, 4]), &config).is_ok());
    assert!(validate_hierarchical_signer_set(&ids(&[4, 1, 2]), &config).is_ok());
    assert!(validate_hierarchical_signer_set(&ids(&[2, 4, 5]), &config).is_err());
    assert!(validate_hierarchical_signer_set(&ids(&[5, 2, 4]), &config).is_err());
}

#[test]
fn grouped_signer_set_needs_each_rank_quorum() {
    let config = GroupedThresholdConfig::new(
        vec![ranked(1, 0), ranked(2, 0), ranked(3, 1), ranked(4, 1), ranked(5, 1)],
        vec![
            GroupThresholdRequirement::new(0, 1, 2).unwrap(),
            GroupThresholdRequirement::new(1, 2, 3).unwrap(),
        ],
    )
    .unwrap();
    let ids = |values: &[u16]| values.iter().map(|value| ParticipantId::new(*value).unwrap()).collect::<Vec<_>>();
    assert!(validate_grouped_threshold_signer_set(&ids(&[1, 3, 4]), &config).is_ok());
    let err = validate_grouped_threshold_signer_set(&ids(&[1, 2, 3]), &config).unwrap_err();
    assert_eq!(err.message(), "protocol error: grouped threshold rank 1 needs 2 signer(s), got 1");
}
