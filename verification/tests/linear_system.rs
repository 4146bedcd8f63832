use dkgkit::htss_keys::run_local_htss_keygen;
use dkgkit::htss_sign::{aggregate_htss_signature_shares, htss_nonce, htss_sign_share};
use dkgkit::linear::solve_scalar_system;
use dkgkit::requests::HtssLocalKeyShare;
use dkgkit::scalar::{scalar_add, scalar_from_u32, scalar_one};
use dkgkit::types::{HierarchicalThresholdConfig, ParticipantId, RankedParticipant, SessionId};

fn s(value: u32) -> [u8; 32] {
    scalar_from_u32(value)
}

fn pid(value: u16) -> ParticipantId {
    ParticipantId::new(value).unwrap()
}

fn ranked_config() -> HierarchicalThresholdConfig {
    HierarchicalThresholdConfig::new(
        3,
        vec![
            RankedParticipant::new(1, 0, Some("ceo".to_string())).unwrap(),
            RankedParticipant::new(2, 1, Some("cfo".to_string())).unwrap(),
            RankedParticipant::new(3, 1, Some("finance".to_string())).unwrap(),
            RankedParticipant::new(4, 2, Some("operator-a".to_string())).unwrap(),
            RankedParticipant::new(5, 2, Some("operator-b".to_string())).unwrap(),
        ],
    )
    .unwrap()
}

#[test]
fn solve_scalar_system_solves_a_diagonal_system() {
    let matrix = vec![vec![s(2), s(0)], vec![s(0), s(3)]];
    let solution = solve_scalar_system(matrix, vec![s(4), s(9)]).unwrap();
    assert_eq!(solution, vec![s(2), s(3)]);
}

#[test]
fn solve_scalar_system_pivots_past_a_zero_entry() {
    let matrix = vec![vec![s(0), s(1)], vec![s(1), s(0)]];
    let solution = solve_scalar_system(matrix, vec![s(5), s(7)]).unwrap();
    assert_eq!(solution, vec![s(7), s(5)]);
}

#[test]
fn solve_scalar_system_refuses_a_singular_matrix() {
    let matrix = vec![vec![s(1), s(1)], vec![s(1), s(1)]];
    let err = solve_scalar_system(matrix, vec![s(1), s(2)]).unwrap_err();
    assert_eq!(err.message(), "protocol error: singular Birkhoff interpolation system");
}

#[test]
fn solve_scalar_system_refuses_a_non_square_system() {
    let matrix = vec![vec![s(1), s(2)]];
    let err = solve_scalar_system(matrix, vec![s(1)]).unwrap_err();
    assert_eq!(err.message(), "protocol error: Birkhoff linear system must be square");
}

#[test]
fn htss_sign_share_refuses_a_share_with_another_rank() {
    let config = ranked_config();
    let keyset = run_local_htss_keygen(&config).unwrap();
    let signer_set = vec![pid(1), pid(2), pid(4)];
    let session = SessionId::new("htss-rank-check").unwrap();
    let honest = keyset.shares.iter().find(|share| share.participant_id == pid(2)).unwrap();
    let forged = HtssLocalKeyShare {
        participant_id: honest.participant_id,
        rank: 2,
        share_value_bytes: honest.share_value_bytes,
    };
    let nonces = signer_set
        .iter()
        .map(|id| {
            let share = keyset.shares.iter().find(|share| share.participant_id == *id).unwrap();
            htss_nonce(session.clone(), share).unwrap()
        })
        .collect::<Vec<_>>();
    let public_nonces = nonces.iter().map(|nonce| nonce.package.clone()).collect::<Vec<_>>();
    let err = htss_sign_share(&keyset.group_key, [3u8; 32], &forged, &nonces[1], &public_nonces, &signer_set, &config)
        .unwrap_err();
    assert_eq!(
        err.message(),
        "protocol error: HTSS share rank mismatch for participant 2: share rank 2, coefficient rank 1"
    );
}

#[test]
fn aggregate_htss_signature_shares_refuses_a_tampered_share() {
    let config = ranked_config();
    let keyset = run_local_htss_keygen(&config).unwrap();
    let signer_set = vec![pid(1), pid(2), pid(4)];
    let digest = [9u8; 32];
    let session = SessionId::new("htss-tamper-check").unwrap();
    let selected = signer_set
        .iter()
        .map(|id| keyset.shares.iter().find(|share| share.participant_id == *id).unwrap())
        .collect::<Vec<_>>();
    let nonces = selected.iter().map(|share| htss_nonce(session.clone(), share).unwrap()).collect::<Vec<_>>();
    let public_nonces = nonces.iter().map(|nonce| nonce.package.clone()).collect::<Vec<_>>();
    let mut shares = selected
        .iter()
        .zip(nonces.iter())
        .map(|(share, nonce)| {
            htss_sign_share(&keyset.group_key, digest, share, nonce, &public_nonces, &signer_set, &config).unwrap()
        })
        .collect::<Vec<_>>();
    let honest =
        aggregate_htss_signature_shares(&keyset.group_key, digest, &public_nonces, &shares, &signer_set, &config);
    assert!(honest.is_ok());
    shares[0].signature_share_bytes = scalar_add(shares[0].signature_share_bytes, scalar_one());
    let err = aggregate_htss_signature_shares(&keyset.group_key, digest, &public_nonces, &shares, &signer_set, &config)
        .unwrap_err();
    assert_eq!(err.message(), "protocol error: HTSS aggregate signature verification failed");
}
