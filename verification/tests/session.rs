use frostwall::crypto::SessionKeys;
use frostwall::internet::{peer_key, MailboxError};
use frostwall::joiner::{dialling, JoinEvent, JoinStep, Joiner};
use frostwall::mailbox::Peer;
use frostwall::host::{Host, HostEvent, HostStep};
use frostwall::pairing::{PairingError, Role};
use frostwall::session::{
    generate_pairing_code, pairing_code, Handshake, HandshakeError, PairingBudget, Session, Turn,
};

#[test]
fn pairing_code_is_six_digits() {
    for _ in 0..100 {
        let c = generate_pairing_code();
        assert_eq!(c.len(), 6);
        assert!(c.chars().all(|ch| ch.is_ascii_digit()));
    }
}

#[test]
fn pairing_codes_vary() {
    let first = generate_pairing_code();
    assert!((0..50).any(|_| generate_pairing_code() != first));
}

#[test]
fn pairing_code_pads_with_zeros() {
    assert_eq!(pairing_code(0), "000000");
    assert_eq!(pairing_code(42), "000042");
    assert_eq!(pairing_code(999_999), "999999");
}

type Ended = Result<SessionKeys, HandshakeError>;

/// One side that got a frame: what it sends, and itself or how it ended.
fn took(side: Handshake, frame: &[u8]) -> (Option<Vec<u8>>, Result<Handshake, Ended>) {
    let (answer, turn) = side.receive(frame);
    let next = match turn {
        Turn::Wait(h) => Ok(h),
        Turn::Established(keys) => Err(Ok(keys)),
        Turn::Failed(e) => Err(Err(e)),
    };
    (answer, next)
}

fn waits(next: Result<Handshake, Ended>) -> Handshake {
    match next {
        Ok(h) => h,
        Err(_) => panic!("another frame is awaited"),
    }
}

fn ended(next: Result<Handshake, Ended>) -> Ended {
    match next {
        Ok(_) => panic!("no other frame is awaited"),
        Err(e) => e,
    }
}

/// The whole handshake between a host and a joiner over a connection that closes
/// when one of them fails.
fn handshake(host_code: &str, joiner_code: &str) -> (Ended, Ended) {
    let (host, msg_a) = Handshake::start(Role::A, host_code);
    let (joiner, nothing) = Handshake::start(Role::B, joiner_code);
    assert!(nothing.is_none());
    let (msg_b, joiner) = took(joiner, &msg_a.unwrap());
    let (tok_a, host) = took(host, &msg_b.unwrap());
    let (tok_b, joiner) = took(waits(joiner), &tok_a.unwrap());
    match tok_b {
        Some(tok_b) => {
            let (nothing, host) = took(waits(host), &tok_b);
            assert!(nothing.is_none());
            (ended(host), ended(joiner))
        }
        None => {
            let closed = HandshakeError::Transport("connection closed by peer".to_string());
            (Err(closed), ended(joiner))
        }
    }
}

#[test]
fn handshake_agrees_and_liveness_matches() {
    let code = "246813";
    let (host, joiner) = handshake(code, code);
    let host = Session::new((), host.unwrap());
    let joiner = Session::new((), joiner.unwrap());
    let now = 1_700_000_000u64;
    assert_eq!(host.liveness_code(now), joiner.liveness_code(now));
    // and the shared file key must match
    assert_eq!(host.keys().file_key, joiner.keys().file_key);
}

#[test]
fn handshake_rejects_mismatched_code() {
    let (host, joiner) = handshake("111111", "222222");
    assert!(joiner.is_err(), "joiner must reject mismatched code");
    assert!(host.is_err(), "host must reject mismatched code");
}

#[test]
fn joiner_sends_no_token_to_a_host_that_has_not_proved_itself() {
    let (_, msg_a) = Handshake::start(Role::A, "111111");
    let (joiner, _) = Handshake::start(Role::B, "222222");
    let (msg_b, joiner) = took(joiner, &msg_a.unwrap());
    assert_eq!(msg_b.unwrap().len(), 65);
    let (token, joiner) = took(waits(joiner), &[0u8; 32]);
    assert!(token.is_none());
    assert!(matches!(ended(joiner), Err(HandshakeError::ConfirmationFailed)));
}

#[test]
fn handshake_rejects_a_reflected_token() {
    let (host, msg_a) = Handshake::start(Role::A, "123456");
    let (joiner, _) = Handshake::start(Role::B, "123456");
    let (msg_b, _) = took(joiner, &msg_a.unwrap());
    let (own, host) = took(host, &msg_b.unwrap());
    let (nothing, host) = took(waits(host), &own.unwrap());
    assert!(nothing.is_none());
    assert!(ended(host).is_err());
}

#[test]
fn handshake_passes_pairing_errors_on() {
    let (host, _) = Handshake::start(Role::A, "123456");
    let (nothing, host) = took(host, &[0u8; 3]);
    assert!(nothing.is_none());
    let short = HandshakeError::Pairing(PairingError::TooShort);
    assert!(matches!(ended(host), Err(e) if e == short));
    // the joiner's first message goes out before the host's is looked into
    let (joiner, _) = Handshake::start(Role::B, "123456");
    let (msg_b, joiner) = took(joiner, &[0u8; 3]);
    assert_eq!(msg_b.unwrap().len(), 65);
    assert!(matches!(ended(joiner), Err(e) if e == short));
}

#[test]
fn session_hands_its_parts_out() {
    let mut s = Session::new(vec![1u8], SessionKeys::derive(b"k"));
    s.conn_mut().push(2);
    let (conn, keys) = s.into_parts();
    assert_eq!(conn, vec![1, 2]);
    assert_eq!(keys.file_key, SessionKeys::derive(b"k").file_key);
}

#[test]
fn budget_ends_with_the_fifth_failure() {
    let mut b = PairingBudget::new();
    let wrong = HandshakeError::ConfirmationFailed;
    assert!(b.on_failure(&wrong));
    assert!(b.on_failure(&HandshakeError::TimedOut));
    assert!(b.on_failure(&HandshakeError::Transport("read: timed out".to_string())));
    assert!(b.on_failure(&HandshakeError::Transport("peer stalled".to_string())));
    assert!(b.on_failure(&HandshakeError::Pairing(PairingError::Malformed)));
    assert!(b.on_failure(&HandshakeError::Transport("connection closed by peer".to_string())));
    assert!(b.on_failure(&wrong));
    assert!(!b.on_failure(&wrong));
}

#[test]
fn host_gives_up_after_too_many_wrong_codes() {
    let mut h = Host::new(true);
    for _ in 0..4 {
        let steps = h.step(HostEvent::HandshakeFailed(HandshakeError::ConfirmationFailed));
        assert_eq!(steps, vec![HostStep::AcceptAgain]);
    }
    assert_eq!(
        h.step(HostEvent::HandshakeFailed(HandshakeError::TimedOut)),
        vec![HostStep::AcceptAgain]
    );
    assert_eq!(
        h.step(HostEvent::HandshakeFailed(HandshakeError::ConfirmationFailed)),
        vec![
            HostStep::ShowError(
                "too many failed pairing attempts (key confirmation failed (wrong code or MITM)); \
                 please regenerate the code"
                    .to_string()
            ),
            HostStep::Unregister,
            HostStep::ForgetRegistration,
            HostStep::End,
        ]
    );
}

#[test]
fn host_establishes_the_first_session_that_pairs() {
    assert_eq!(
        Host::new(false).step(HostEvent::Paired),
        vec![HostStep::StopAdvertising, HostStep::Establish, HostStep::End]
    );
    assert_eq!(
        Host::new(true).step(HostEvent::Paired)[..3],
        [HostStep::Unregister, HostStep::ForgetRegistration, HostStep::Establish]
    );
    assert_eq!(
        Host::new(false).step(HostEvent::AcceptFailed("accept: gone".to_string())),
        vec![HostStep::ShowError("accept: gone".to_string()), HostStep::End]
    );
}

#[test]
fn joiner_finds_dials_and_pairs() {
    let (mut j, first) = Joiner::on_internet();
    assert_eq!(first, JoinStep::Lookup);
    let id = "d75a980182b10ab7d54bfed3c964073a0ee172f3daa62325af021a68f707511a";
    let peer = Peer { endpoint_id: id.into(), device_name: Some("Mac".into()) };
    assert_eq!(
        j.step(JoinEvent::Found(peer)),
        vec![JoinStep::NoteName(Some("Mac".into())), JoinStep::StartEndpoint]
    );
    let key = peer_key(id).unwrap();
    assert_eq!(j.step(JoinEvent::EndpointUp), vec![JoinStep::DialInternet(key)]);
    assert_eq!(dialling(Some([7; 32])), vec![JoinStep::DialInternet([7; 32])]);
    assert_eq!(j.step(JoinEvent::Connected), vec![JoinStep::Pair]);
    assert!(!j.has_ended());
    assert_eq!(j.step(JoinEvent::Paired), vec![JoinStep::Establish, JoinStep::End]);
    assert!(j.has_ended());
}

#[test]
fn joiner_tells_why_it_failed() {
    let error = |t: &str| vec![JoinStep::ShowError(t.into()), JoinStep::End];
    let (mut j, first) = Joiner::on_lan("192.168.1.2", 7);
    assert_eq!(first, JoinStep::DialLan("192.168.1.2".into(), 7));
    assert_eq!(j.step(JoinEvent::ConnectFailed("connect: refused".into())), error("connect: refused"));
    assert!(j.has_ended());

    let (mut j, _) = Joiner::on_lan("192.168.1.2", 7);
    j.step(JoinEvent::Connected);
    assert_eq!(
        j.step(JoinEvent::HandshakeFailed(HandshakeError::ConfirmationFailed)),
        error("key confirmation failed (wrong code or MITM)")
    );

    let (mut j, _) = Joiner::on_internet();
    assert_eq!(
        j.step(JoinEvent::LookupFailed(MailboxError::Malformed("eof".into()))),
        error("mailbox returned a malformed response: eof")
    );

    let (mut j, _) = Joiner::on_internet();
    let peer = Peer { endpoint_id: "id".into(), device_name: None };
    assert_eq!(j.step(JoinEvent::Found(peer))[0], JoinStep::NoteName(None));
    assert_eq!(j.step(JoinEvent::EndpointFailed("no network".into())), error("no network"));

    let (mut j, _) = Joiner::on_internet();
    let peer = Peer { endpoint_id: "nonsense".into(), device_name: None };
    j.step(JoinEvent::Found(peer));
    assert_eq!(j.step(JoinEvent::EndpointUp), error("invalid peer address"));
    assert!(j.has_ended());
}
