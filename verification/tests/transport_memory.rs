use dkgkit::transport::{MemoryTransport, Transport};
use dkgkit::types::{ParticipantId, ProtocolMessage, ProtocolMessageKind, SessionId};

#[test]
fn memory_transport_drains_only_target_session() {
    let mut transport = MemoryTransport::default();
    let session_a = SessionId::new("a").unwrap();
    let session_b = SessionId::new("b").unwrap();
    transport.connect().unwrap();
    transport
        .publish(ProtocolMessage::new(
            session_a.clone(),
            ParticipantId::new(1).unwrap(),
            ProtocolMessageKind::FrostDkgRound1,
            vec![1],
        ))
        .unwrap();
    transport
        .publish(ProtocolMessage::new(
            session_b.clone(),
            ParticipantId::new(2).unwrap(),
            ProtocolMessageKind::FrostDkgRound1,
            vec![2],
        ))
        .unwrap();

    let drained = transport.drain_session(&session_a).unwrap();
    assert_eq!(drained.len(), 1);
    assert_eq!(transport.pending_len(), 1);
    assert_eq!(transport.peek_session(&session_b).len(), 1);
}

#[test]
fn memory_transport_selectively_drains_matching_messages() {
    let mut transport = MemoryTransport::default();
    let session = SessionId::new("signing").unwrap();
    transport
        .publish(ProtocolMessage::new(
            session.clone(),
            ParticipantId::new(1).unwrap(),
            ProtocolMessageKind::FrostSigningNonce,
            vec![1],
        ))
        .unwrap();
    transport
        .publish(ProtocolMessage::new(
            session.clone(),
            ParticipantId::new(2).unwrap(),
            ProtocolMessageKind::FrostSignatureShare,
            vec![2],
        ))
        .unwrap();

    let only_nonces = |message: &ProtocolMessage| message.kind == ProtocolMessageKind::FrostSigningNonce;
    let drained = transport.drain_matching(&session, &only_nonces).unwrap();
    assert_eq!(drained.len(), 1);
    assert_eq!(transport.pending_len(), 1);
    assert_eq!(transport.peek_session(&session)[0].kind, ProtocolMessageKind::FrostSignatureShare);
}

#[test]
fn memory_transport_drain_keeps_every_other_message_once_and_in_order() {
    let mut transport = MemoryTransport::new();
    let session = SessionId::new("signing").unwrap();
    let other = SessionId::new("other").unwrap();
    let kinds = [
        (session.clone(), ProtocolMessageKind::FrostSigningNonce, 1u8),
        (other.clone(), ProtocolMessageKind::FrostSigningNonce, 2u8),
        (session.clone(), ProtocolMessageKind::FrostSignatureShare, 3u8),
        (session.clone(), ProtocolMessageKind::FrostSigningNonce, 4u8),
        (session.clone(), ProtocolMessageKind::FrostSignatureShare, 5u8),
    ];
    for (sid, kind, byte) in kinds.iter() {
        transport
            .publish(ProtocolMessage::new(sid.clone(), ParticipantId::new(1).unwrap(), kind.clone(), vec![*byte]))
            .unwrap();
    }
    let only_nonces = |message: &ProtocolMessage| message.kind == ProtocolMessageKind::FrostSigningNonce;
    let drained = transport.drain_matching(&session, &only_nonces).unwrap();
    let drained_bytes: Vec<u8> = drained.iter().map(|m| m.payload[0]).collect();
    assert_eq!(drained_bytes, vec![1, 4]);
    assert_eq!(transport.pending_len(), 3);
    let kept_here: Vec<u8> = transport.peek_session(&session).iter().map(|m| m.payload[0]).collect();
    assert_eq!(kept_here, vec![3, 5]);
    let kept_there: Vec<u8> = transport.peek_session(&other).iter().map(|m| m.payload[0]).collect();
    assert_eq!(kept_there, vec![2]);
}
