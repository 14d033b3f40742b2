use frostwall::crypto::SessionKeys;
use frostwall::pairing::{
    combine, confirmation_token, verify_confirmation, Pairing, PairingError, Role, EPH_PUB_LEN,
};

fn agree(code: &str) -> (SessionKeys, SessionKeys) {
    let (a, msg_a) = Pairing::start(Role::A, code);
    let (b, msg_b) = Pairing::start(Role::B, code);
    let sec_a = a.finish(&msg_b).unwrap();
    let sec_b = b.finish(&msg_a).unwrap();
    (SessionKeys::derive(&sec_a), SessionKeys::derive(&sec_b))
}

#[test]
fn a_and_b_agree_on_secret() {
    let (a, msg_a) = Pairing::start(Role::A, "123456");
    let (b, msg_b) = Pairing::start(Role::B, "123456");
    let sec_a = a.finish(&msg_b).unwrap();
    let sec_b = b.finish(&msg_a).unwrap();
    assert_eq!(sec_a, sec_b);
    // combined secret is spake(32) || ecdh(32) = 64 bytes
    assert_eq!(sec_a.len(), 64);
}

#[test]
fn mismatched_code_yields_different_secret() {
    let (a, msg_a) = Pairing::start(Role::A, "111111");
    let (b, msg_b) = Pairing::start(Role::B, "222222");
    let sec_a = a.finish(&msg_b).unwrap();
    let sec_b = b.finish(&msg_a).unwrap();
    assert_ne!(sec_a, sec_b);
}

#[test]
fn honest_confirmation_round_trips() {
    let (keys_a, keys_b) = agree("654321");
    let token_a = confirmation_token(&keys_a, Role::A);
    assert!(verify_confirmation(&keys_b, Role::A, &token_a));
    let token_b = confirmation_token(&keys_b, Role::B);
    assert!(verify_confirmation(&keys_a, Role::B, &token_b));
}

#[test]
fn confirmation_rejects_wrong_secret() {
    let (keys_good, _) = agree("good-code");
    let keys_bad = SessionKeys::derive(b"attacker-controlled-secret");
    let forged = confirmation_token(&keys_bad, Role::A);
    assert!(!verify_confirmation(&keys_good, Role::A, &forged));
}

#[test]
fn finish_rejects_short_peer_message() {
    let (a, _msg_a) = Pairing::start(Role::A, "123456");
    // too short to contain an ephemeral public key
    assert_eq!(a.finish(&[0u8; 10]), Err(PairingError::TooShort));
}

#[test]
fn finish_rejects_allzero_eph_pub() {
    let (a, msg_a) = Pairing::start(Role::A, "123456");
    // Replace the ephemeral tail with all-zero.
    let mut tampered = msg_a.clone();
    let len = tampered.len();
    tampered[len - EPH_PUB_LEN..].copy_from_slice(&[0u8; EPH_PUB_LEN]);
    // Build a B that will receive this tampered A message.
    let (b, _msg_b) = Pairing::start(Role::B, "123456");
    let _ = a;
    assert_eq!(b.finish(&tampered), Err(PairingError::InvalidEphemeral));
}

#[test]
fn finish_rejects_a_low_order_eph_pub() {
    let (_, msg_a) = Pairing::start(Role::A, "123456");
    let mut tampered = msg_a.clone();
    let len = tampered.len();
    let mut one = [0u8; EPH_PUB_LEN];
    one[0] = 1;
    tampered[len - EPH_PUB_LEN..].copy_from_slice(&one);
    let (b, _) = Pairing::start(Role::B, "123456");
    assert_eq!(b.finish(&tampered), Err(PairingError::NonContributory));
}

#[test]
fn finish_rejects_its_own_side_and_other_lengths() {
    let (a, msg_a) = Pairing::start(Role::A, "123456");
    assert_eq!(a.finish(&msg_a), Err(PairingError::Malformed));
    let (a, _) = Pairing::start(Role::A, "123456");
    assert_eq!(a.finish(&[1u8; EPH_PUB_LEN]), Err(PairingError::Malformed));
}

#[test]
fn tokens_differ_between_roles() {
    let (keys, _keys2) = agree("same-code");
    let a_tok = confirmation_token(&keys, Role::A);
    let b_tok = confirmation_token(&keys, Role::B);
    assert_ne!(a_tok, b_tok);
}

#[test]
fn forward_secrecy_same_code_different_keys() {
    // Two independent pairings with the SAME code must derive DIFFERENT
    // session keys, because each uses fresh ephemerals.
    let (keys1_a, keys1_b) = agree("reused-code");
    assert_eq!(keys1_a.file_key, keys1_b.file_key); // within one session they match
    let (keys2_a, _) = agree("reused-code");
    assert_ne!(keys1_a.file_key, keys2_a.file_key); // across sessions they differ
}

#[test]
fn combining_puts_the_two_secrets_one_after_the_other() {
    assert_eq!(combine(Some(vec![1, 2]), &[9], &[3, 4], true), Ok(vec![1, 2, 3, 4]));
    assert_eq!(combine(None, &[9], &[3, 4], true), Err(PairingError::Malformed));
    assert_eq!(combine(Some(vec![1]), &[0, 0], &[3], true), Err(PairingError::InvalidEphemeral));
    assert_eq!(combine(Some(vec![1]), &[0, 1], &[3], false), Err(PairingError::NonContributory));
}

#[test]
fn each_token_rests_on_its_own_key() {
    let base = SessionKeys::derive(b"secret");
    let mut other = SessionKeys::derive(b"secret");
    other.confirm_b = [9u8; 32];
    assert_eq!(confirmation_token(&base, Role::A), confirmation_token(&other, Role::A));
    assert_ne!(confirmation_token(&base, Role::B), confirmation_token(&other, Role::B));
}
