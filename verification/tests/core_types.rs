use dkgkit::types::{
    DkgKitError, GroupThresholdRequirement, GroupedThresholdConfig, HierarchicalThresholdConfig,
    Participant, ParticipantId, ProtocolMessage, ProtocolMessageKind, Rank, RankedParticipant,
    SessionConfig, SessionId, SessionManifest, SessionPhase, ThresholdConfig,
    DKGKIT_PROTOCOL_VERSION,
};

fn participant(id: u16) -> Participant {
    Participant::new(id, Some(format!("party-{id}"))).unwrap()
}

fn ranked(id: u16, rank: u16) -> RankedParticipant {
    RankedParticipant::new(id, rank, Some(format!("party-{id}"))).unwrap()
}

#[test]
fn threshold_config_rejects_impossible_shapes() {
    assert!(ThresholdConfig::new(0, 3).is_err());
    assert!(ThresholdConfig::new(4, 3).is_err());
    assert!(ThresholdConfig::new(2, 3).is_ok());
}

#[test]
fn hierarchical_threshold_config_allows_shared_ranks() {
    let config = HierarchicalThresholdConfig::new(
        3,
        vec![ranked(1, 0), ranked(2, 1), ranked(3, 1), ranked(4, 2)],
    )
    .unwrap();
    assert_eq!(config.participant_count(), 4);
    assert_eq!(config.rank_of(ParticipantId::new(3).unwrap()), Some(Rank(1)));
    assert_eq!(config.threshold_config().unwrap().threshold, 3);
}

#[test]
fn hierarchical_threshold_config_rejects_duplicate_participants() {
    let err = HierarchicalThresholdConfig::new(2, vec![ranked(1, 0), ranked(1, 1)]).unwrap_err();
    assert!(matches!(err, DkgKitError::DuplicateParticipantId(1)));
}

#[test]
fn grouped_threshold_config_supports_per_rank_quorums() {
    let config = GroupedThresholdConfig::new(
        vec![ranked(1, 0), ranked(2, 0), ranked(3, 1), ranked(4, 1), ranked(5, 1)],
        vec![
            GroupThresholdRequirement::new(1, 2, 3).unwrap(),
            GroupThresholdRequirement::new(0, 1, 2).unwrap(),
        ],
    )
    .unwrap();
    assert_eq!(config.participant_count(), 5);
    assert_eq!(config.required_signer_count(), 3);
    assert_eq!(config.threshold_config().unwrap().threshold, 3);
    assert_eq!(config.rank_of(ParticipantId::new(4).unwrap()), Some(Rank(1)));
}

#[test]
fn grouped_threshold_config_rejects_declared_total_mismatch() {
    let err = GroupedThresholdConfig::new(
        vec![ranked(1, 0), ranked(2, 0)],
        vec![GroupThresholdRequirement::new(1, 2, 3).unwrap()],
    )
    .unwrap_err();
    assert!(err.message().contains("total mismatch"));
}

#[test]
fn session_config_rejects_duplicate_participants() {
    let err = SessionConfig::new("demo", 2, 3, vec![participant(1), participant(1), participant(3)]).unwrap_err();
    assert!(matches!(err, DkgKitError::DuplicateParticipantId(1)));
}

#[test]
fn session_manifest_defaults_to_frost_created() {
    let config = SessionConfig::new("demo", 2, 3, vec![participant(1), participant(2), participant(3)]).unwrap();
    let manifest = SessionManifest::frost_v1(config);
    assert_eq!(manifest.protocol, "frost");
    assert_eq!(manifest.phase, SessionPhase::Created);
}

#[test]
fn protocol_message_defaults_to_broadcast_current_version() {
    let message = ProtocolMessage::new(
        SessionId::new("demo").unwrap(),
        ParticipantId::new(1).unwrap(),
        ProtocolMessageKind::FrostDkgRound1,
        vec![1, 2, 3],
    );
    assert_eq!(message.protocol_version, DKGKIT_PROTOCOL_VERSION);
    assert_eq!(message.kind.as_str(), "frost_dkg_round1");
    assert!(message.recipient.is_none());
    assert!(message.is_for(ParticipantId::new(2).unwrap()));
}

#[test]
fn direct_protocol_message_targets_one_participant() {
    let message = ProtocolMessage::direct(
        SessionId::new("demo").unwrap(),
        ParticipantId::new(1).unwrap(),
        ParticipantId::new(2).unwrap(),
        ProtocolMessageKind::FrostDkgRound2,
        vec![9],
    );
    assert!(message.is_for(ParticipantId::new(2).unwrap()));
    assert!(!message.is_for(ParticipantId::new(3).unwrap()));
}

#[test]
fn protocol_message_json_round_trips() {
    let message = ProtocolMessage::direct(
        SessionId::new("demo").unwrap(),
        ParticipantId::new(1).unwrap(),
        ParticipantId::new(2).unwrap(),
        ProtocolMessageKind::FrostSignatureShare,
        vec![1, 2, 3, 4],
    );
    let encoded = message.encode_json().unwrap();
    let decoded = ProtocolMessage::decode_json(&encoded).unwrap();
    assert_eq!(decoded, message);
}

#[test]
fn session_config_checks_come_in_order() {
    let err = SessionConfig::new(" ", 4, 3, vec![participant(1), participant(1)]).unwrap_err();
    assert!(matches!(err, DkgKitError::InvalidThreshold { threshold: 4, participants: 3 }));
    let err = SessionConfig::new(" ", 2, 3, vec![participant(1), participant(1)]).unwrap_err();
    assert!(matches!(err, DkgKitError::ParticipantCountMismatch { expected: 3, actual: 2 }));
    let err = SessionConfig::new(" ", 2, 3, vec![participant(1), participant(4), participant(1)]).unwrap_err();
    assert!(matches!(err, DkgKitError::ParticipantOutOfRange { participant_id: 4, participants: 3 }));
    let err = SessionConfig::new(" ", 2, 3, vec![participant(3), participant(1), participant(2)]).unwrap_err();
    assert!(matches!(err, DkgKitError::EmptySessionId));
    let config = SessionConfig::new("s", 3, 3, vec![participant(3), participant(1), participant(2)]).unwrap();
    assert_eq!(config.threshold, ThresholdConfig { threshold: 3, participants: 3 });
}
