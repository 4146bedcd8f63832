use bitcoin::secp256k1::{Parity, Scalar as SecpScalar, Secp256k1, XOnlyPublicKey as SecpXOnlyPublicKey};
use bitcoin::key::TapTweak;
use dkgkit::bitcoin::{
    finalize_taproot_keyspend, parse_network, parse_xonly_public_key_hex, sha256, silent_payment_leaf_tweak,
    silent_payment_output_tweak, taproot_child_address_descriptor_for_network, taproot_child_key_tweak,
    taproot_keyspend_sighashes, verify_schnorr_digest_hex, BitcoinAccountKey, BitcoinAuthorizationMessage,
    BitcoinDerivationPath, TaprootSpendInput, TaprootSpendOutput,
};
use dkgkit::bitcoin_backend::BitcoinNetwork;
use dkgkit::requests::GroupKey;

fn demo_group_key() -> GroupKey {
    let secp = Secp256k1::new();
    let secret_key = bitcoin::secp256k1::SecretKey::from_slice(&[3u8; 32]).unwrap();
    let keypair = bitcoin::secp256k1::Keypair::from_secret_key(&secp, &secret_key);
    let (xonly_public_key, _) = keypair.x_only_public_key();
    GroupKey { xonly_public_key: xonly_public_key.serialize(), verification_key_bytes: Vec::new() }
}

/// `A·P + B·G` for the tweak, as an x-only key and its parity.
fn tweaked(group_key: &GroupKey, negate_key: bool, tweak: [u8; 32]) -> ([u8; 32], Parity) {
    let secp = Secp256k1::new();
    let p = SecpXOnlyPublicKey::from_slice(&group_key.xonly_public_key).unwrap().public_key(Parity::Even);
    let p_term = if negate_key { p.negate(&secp) } else { p };
    let q = p_term.add_exp_tweak(&secp, &SecpScalar::from_be_bytes(tweak).unwrap()).unwrap();
    let (q_xonly, q_parity) = q.x_only_public_key();
    (q_xonly.serialize(), q_parity)
}

#[test]
fn authorization_message_digest_is_stable() {
    let message = BitcoinAuthorizationMessage {
        network: "signet".to_string(),
        action: "approve-payment".to_string(),
        recipient: Some("tb1ptest".to_string()),
        amount_sats: Some(100_000),
        memo: Some("designer payout".to_string()),
        nonce: "demo-001".to_string(),
    };
    assert_eq!(message.digest(), sha256(message.canonical_text().as_bytes()));
    assert!(message.canonical_text().contains("network=signet"));
}

#[test]
fn xonly_hex_requires_32_bytes() {
    assert!(parse_xonly_public_key_hex("00").is_err());
    assert!(parse_xonly_public_key_hex(&"11".repeat(32)).is_ok());
}

#[test]
fn taproot_child_address_descriptor_derives_distinct_public_children() {
    let secp = Secp256k1::new();
    let secret_key = bitcoin::secp256k1::SecretKey::from_slice(&[1u8; 32]).unwrap();
    let keypair = bitcoin::secp256k1::Keypair::from_secret_key(&secp, &secret_key);
    let (xonly_public_key, _) = keypair.x_only_public_key();
    let account_key = BitcoinAccountKey::new(
        GroupKey { xonly_public_key: xonly_public_key.serialize(), verification_key_bytes: Vec::new() },
        [7u8; 32],
    );
    let first =
        taproot_child_address_descriptor_for_network(&account_key, "regtest", BitcoinDerivationPath::bip86(0, 0, 0))
            .unwrap();
    let second =
        taproot_child_address_descriptor_for_network(&account_key, "regtest", BitcoinDerivationPath::bip86(0, 0, 1))
            .unwrap();
    assert_eq!(first.path.display_path(), "m/86'/0'/0'/0/0");
    assert!(first.address.starts_with("bcrt1p"));
    assert_ne!(first.address, second.address);
    assert_ne!(first.internal_xonly_public_key_hex, first.account_xonly_public_key_hex);
}

#[test]
fn canonical_text_renders_every_field_in_order() {
    let message = BitcoinAuthorizationMessage {
        network: "signet".to_string(),
        action: "approve".to_string(),
        recipient: None,
        amount_sats: Some(42),
        memo: None,
        nonce: "n1".to_string(),
    };
    assert_eq!(
        message.canonical_text(),
        "DKGKit Bitcoin Authorization\nnetwork=signet\naction=approve\nrecipient=\namount_sats=42\nmemo=\nnonce=n1"
    );
}

#[test]
fn derivation_paths_render_hardened_prefix() {
    assert_eq!(BitcoinDerivationPath::bip44(1, 0, 7).display_path(), "m/44'/0'/1'/0/7");
    assert_eq!(BitcoinDerivationPath::bip86(2, 1, 3).display_path(), "m/86'/0'/2'/1/3");
}

#[test]
fn sha256_of_empty_input_is_the_known_digest() {
    let digest = sha256(&[]);
    assert_eq!(hex::encode(digest), "e3b0c44298fc1c149afbf4c8996fb92427ae41e4649b934ca495991b7852b855");
}

#[test]
fn networks_parse_by_name() {
    assert_eq!(parse_network("mainnet").unwrap(), BitcoinNetwork::Bitcoin);
    assert_eq!(parse_network("bitcoin").unwrap(), BitcoinNetwork::Bitcoin);
    assert_eq!(parse_network("testnet4").unwrap(), BitcoinNetwork::Testnet4);
    assert_eq!(parse_network("regtest").unwrap(), BitcoinNetwork::Regtest);
    let err = parse_network("moon").unwrap_err();
    assert_eq!(err.message, "unsupported Bitcoin network: moon");
}

#[test]
fn xonly_hex_accepts_uppercase_and_rejects_odd_digits() {
    assert_eq!(parse_xonly_public_key_hex(&"AB".repeat(32)).unwrap(), [0xab; 32]);
    assert_eq!(parse_xonly_public_key_hex("abc").unwrap_err().message, "x-only public key must be hex");
    assert_eq!(
        parse_xonly_public_key_hex("00").unwrap_err().message,
        "x-only public key must be exactly 32 bytes"
    );
}

#[test]
fn child_key_tweak_relates_group_key_to_address_output_key() {
    let group_key = demo_group_key();
    let account = BitcoinAccountKey::new(group_key.clone(), [42u8; 32]);
    let path = BitcoinDerivationPath::bip86(0, 0, 0);
    let descriptor = taproot_child_address_descriptor_for_network(&account, "regtest", path.clone()).unwrap();
    let tweak = taproot_child_key_tweak(&account, "regtest", path).unwrap();
    assert_eq!(hex::encode(tweak.output_xonly), descriptor.xonly_public_key_hex);
    let (q_xonly, q_parity) = tweaked(&group_key, tweak.negate_key, tweak.tweak);
    assert_eq!(q_xonly, tweak.output_xonly);
    assert_eq!(q_parity, Parity::Even);
}

#[test]
fn child_key_tweak_rejects_hardened_tail_index() {
    let account = BitcoinAccountKey::new(demo_group_key(), [42u8; 32]);
    let err = taproot_child_key_tweak(&account, "regtest", BitcoinDerivationPath::bip86(0, 0x8000_0000, 0)).unwrap_err();
    assert_eq!(err.message, "invalid child index: child number 2147483648 is invalid (not within [0, 2^31 - 1])");
}

#[test]
fn silent_payment_output_tweak_relates_group_key_to_output_key() {
    let group_key = demo_group_key();
    let k = [0x11u8; 32];
    let tweak = silent_payment_output_tweak(&group_key, k).unwrap();
    let (q_xonly, q_parity) = tweaked(&group_key, tweak.negate_key, tweak.tweak);
    assert_eq!(q_xonly, tweak.output_xonly);
    assert_eq!(q_parity, Parity::Even);
    let secp = Secp256k1::new();
    let p = SecpXOnlyPublicKey::from_slice(&group_key.xonly_public_key).unwrap().public_key(Parity::Even);
    let internal = p.add_exp_tweak(&secp, &SecpScalar::from_be_bytes(k).unwrap()).unwrap();
    let (internal_xonly, _) = internal.x_only_public_key();
    let (expected_output, _) = internal_xonly.tap_tweak(&secp, None);
    assert_eq!(expected_output.to_x_only_public_key().serialize(), tweak.output_xonly);
}

#[test]
fn silent_payment_leaf_tweak_relates_group_key_to_leaf_key() {
    let group_key = demo_group_key();
    let k = [0x22u8; 32];
    let tweak = silent_payment_leaf_tweak(&group_key, k).unwrap();
    let (q_xonly, q_parity) = tweaked(&group_key, tweak.negate_key, tweak.tweak);
    assert_eq!(q_xonly, tweak.output_xonly);
    assert_eq!(q_parity, Parity::Even);
}

#[test]
fn silent_payment_tweaks_refuse_zero_scalar() {
    let group_key = demo_group_key();
    assert!(silent_payment_output_tweak(&group_key, [0u8; 32]).is_err());
    assert!(silent_payment_leaf_tweak(&group_key, [0u8; 32]).is_err());
}

#[test]
fn keyspend_builds_one_sighash_per_input_and_finalizes_witnesses() {
    let account = BitcoinAccountKey::new(demo_group_key(), [42u8; 32]);
    let vault_address =
        taproot_child_address_descriptor_for_network(&account, "regtest", BitcoinDerivationPath::bip86(0, 0, 0))
            .unwrap()
            .address;
    let inputs = vec![
        TaprootSpendInput { txid: "ab".repeat(32), vout: 1, value_sats: 50_000 },
        TaprootSpendInput { txid: "cd".repeat(32), vout: 0, value_sats: 20_000 },
    ];
    let outputs = vec![TaprootSpendOutput { address: vault_address.clone(), value_sats: 69_000 }];
    let (unsigned_hex, sighashes) = taproot_keyspend_sighashes("regtest", &vault_address, &inputs, &outputs).unwrap();
    assert_eq!(sighashes.len(), 2);
    assert_ne!(sighashes[0], sighashes[1]);
    let (raw_hex, txid) = finalize_taproot_keyspend(&unsigned_hex, &[[1u8; 64], [2u8; 64]]).unwrap();
    assert_eq!(txid.len(), 64);
    assert!(raw_hex.len() > unsigned_hex.len());
    let err = finalize_taproot_keyspend(&unsigned_hex, &[[1u8; 64]]).unwrap_err();
    assert_eq!(err.message, "expected 2 signatures, got 1");
}

#[test]
fn keyspend_refuses_empty_inputs_and_outputs() {
    let outputs = vec![TaprootSpendOutput { address: "x".to_string(), value_sats: 1 }];
    let inputs = vec![TaprootSpendInput { txid: "ab".repeat(32), vout: 0, value_sats: 1 }];
    assert_eq!(
        taproot_keyspend_sighashes("regtest", "x", &[], &outputs).unwrap_err().message,
        "a spend needs at least one input"
    );
    assert_eq!(
        taproot_keyspend_sighashes("regtest", "x", &inputs, &[]).unwrap_err().message,
        "a spend needs at least one output"
    );
}

#[test]
fn schnorr_hex_verification_checks_lengths() {
    let key = "11".repeat(32);
    assert_eq!(verify_schnorr_digest_hex(&key, "00", &"00".repeat(64)).unwrap_err().message, "digest must be exactly 32 bytes");
    assert_eq!(verify_schnorr_digest_hex(&key, &"00".repeat(32), "zz").unwrap_err().message, "signature must be hex");
}

#[test]
fn root_descriptor_uses_group_key_as_every_key() {
    let group_key = demo_group_key();
    let descriptor = dkgkit::bitcoin::taproot_address_descriptor_for_network(
        &group_key,
        "signet",
        BitcoinDerivationPath::bip86(0, 0, 0),
    )
    .unwrap();
    assert_eq!(descriptor.network, "Signet");
    assert!(descriptor.address.starts_with("tb1p"));
    assert_eq!(descriptor.xonly_public_key_hex, hex::encode(group_key.xonly_public_key));
    assert_eq!(descriptor.chain_code_hex, "");
    let _ = BitcoinNetwork::Signet;
}
