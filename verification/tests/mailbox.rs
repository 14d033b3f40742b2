use frostwall::internet::authorization;
use frostwall::mailbox::{
    normalize_code, valid_code, valid_endpoint_id, LookupError, Mailbox, Peer, Status,
    LOOKUP_RATE_MAX, RATE_WINDOW, REGISTER_RATE_MAX, TTL,
};

const CLIENT: &str = "127.0.0.1";

fn register_code(m: &mut Mailbox, code: &str, endpoint_id: &str) -> String {
    m.register(CLIENT, code, endpoint_id, None, 0).unwrap()
}

#[test]
fn register_then_lookup_roundtrips() {
    let mut m = Mailbox::new();
    let token = register_code(&mut m, "123456", "deadbeef");
    let peer = m.lookup(CLIENT, "123456", 1).unwrap();
    assert_eq!(peer.endpoint_id, "deadbeef");
    assert!(token.len() > 10);
}

#[test]
fn register_twice_same_code_second_is_409() {
    let mut m = Mailbox::new();
    register_code(&mut m, "123456", "a");
    let second = m.register(CLIENT, "123456", "b", None, 1);
    assert_eq!(second, Err(Status::Conflict));
    assert_eq!(second.unwrap_err().code(), 409);
    assert_eq!(m.lookup(CLIENT, "123456", 2).unwrap().endpoint_id, "a");
}

#[test]
fn lookup_missing_code_is_404() {
    let mut m = Mailbox::new();
    let e = m.lookup(CLIENT, "000000", 0).unwrap_err();
    assert_eq!(e, LookupError::NotRegistered);
    assert_eq!(e.status().code(), 404);
    assert_eq!(e.message(), "no peer registered for this code (expired or never registered)");
}

#[test]
fn unregister_without_token_is_401() {
    let mut m = Mailbox::new();
    register_code(&mut m, "555555", "abc");
    assert_eq!(m.unregister("555555", None), Status::Unauthorized);
    assert_eq!(Status::Unauthorized.code(), 401);
}

#[test]
fn unregister_with_wrong_token_is_401() {
    let mut m = Mailbox::new();
    let token = register_code(&mut m, "555555", "abc");
    assert_eq!(m.unregister("555555", Some("Bearer nope")), Status::Unauthorized);
    assert_eq!(m.unregister("555555", Some(token.as_str())), Status::Unauthorized);
    assert_eq!(m.unregister("666666", Some(&authorization(&token))), Status::Unauthorized);
    assert!(m.lookup(CLIENT, "555555", 1).is_ok());
}

#[test]
fn unregister_with_token_removes_code() {
    let mut m = Mailbox::new();
    let token = register_code(&mut m, "555555", "abc");
    assert_eq!(m.unregister("555555", Some(&authorization(&token))), Status::NoContent);
    assert_eq!(m.lookup(CLIENT, "555555", 1), Err(LookupError::NotRegistered));
    // the code is free again
    register_code(&mut m, "555555", "def");
}

#[test]
fn normalize_code_trims_whitespace() {
    assert_eq!(normalize_code("  123456  "), "123456");
}

#[test]
fn valid_code_rejects_non_six_digit() {
    assert!(!valid_code("12345"));
    assert!(!valid_code("1234567"));
    assert!(valid_code("123456"));
}

#[test]
fn valid_code_wants_ascii_digits() {
    assert!(!valid_code("12345a"));
    assert!(!valid_code("12345٣"));
    assert!(!valid_code(" 23456"));
}

#[test]
fn valid_endpoint_id_is_neither_blank_nor_long() {
    assert!(!valid_endpoint_id("  "));
    assert!(valid_endpoint_id(" x "));
    assert!(valid_endpoint_id(&"x".repeat(256)));
    assert!(!valid_endpoint_id(&"x".repeat(257)));
    assert!(valid_endpoint_id(&format!("  {}  ", "x".repeat(256))));
    assert!(!valid_endpoint_id(&"é".repeat(129)));
}

#[test]
fn bad_requests_are_refused() {
    let mut m = Mailbox::new();
    assert_eq!(m.register(CLIENT, "12345", "x", None, 0), Err(Status::BadRequest));
    assert_eq!(m.register(CLIENT, "123456", " ", None, 0), Err(Status::BadRequest));
    let e = m.lookup(CLIENT, "12345x", 0).unwrap_err();
    assert_eq!(e.status(), Status::BadRequest);
    assert_eq!(e.message(), "invalid code format");
    assert_eq!(m.unregister("1", Some("Bearer x")), Status::BadRequest);
}

#[test]
fn names_and_identifiers_are_trimmed() {
    let mut m = Mailbox::new();
    m.register(CLIENT, " 123456\n", " id ", Some(" Mac "), 0).unwrap();
    assert_eq!(
        m.lookup(CLIENT, "123456", 0).unwrap(),
        Peer { endpoint_id: "id".into(), device_name: Some("Mac".into()) }
    );
    m.register(CLIENT, "000000", "id", Some("   "), 0).unwrap();
    assert_eq!(m.lookup(CLIENT, "000000", 0).unwrap().device_name, None);
}

#[test]
fn codes_expire() {
    let mut m = Mailbox::new();
    m.register(CLIENT, "123456", "id", None, 5).unwrap();
    assert!(m.lookup(CLIENT, "123456", 5 + TTL - 1).is_ok());
    assert_eq!(m.lookup(CLIENT, "123456", 5 + TTL), Err(LookupError::NotRegistered));
    // an expired code is taken until it is swept away
    assert_eq!(m.register(CLIENT, "123456", "id", None, 5 + TTL), Err(Status::Conflict));
    m.sweep(5 + TTL);
    assert!(m.register(CLIENT, "123456", "id", None, 5 + TTL).is_ok());
}

#[test]
fn sweeping_keeps_live_codes() {
    let mut m = Mailbox::new();
    for i in 0..10u64 {
        m.register(CLIENT, &format!("00000{i}"), "id", None, i).unwrap();
    }
    m.sweep(TTL + 4);
    for i in 0..10u64 {
        let found = m.lookup(CLIENT, &format!("00000{i}"), TTL + 4).is_ok();
        assert_eq!(found, i > 4);
    }
}

#[test]
fn registrations_are_limited_per_client_and_window() {
    let mut m = Mailbox::new();
    for _ in 0..REGISTER_RATE_MAX {
        assert_eq!(m.register("1.1.1.1", "x", "id", None, 7), Err(Status::BadRequest));
    }
    let last = 7 + RATE_WINDOW;
    assert_eq!(m.register("1.1.1.1", "123456", "id", None, last), Err(Status::TooManyRequests));
    assert!(m.register("2.2.2.2", "123456", "id", None, last).is_ok());
    assert!(m.register("1.1.1.1", "123457", "id", None, last + 1).is_ok());
    assert_eq!(Status::TooManyRequests.code(), 429);
}

#[test]
fn lookups_are_limited_apart_from_registrations() {
    let mut m = Mailbox::new();
    for _ in 0..LOOKUP_RATE_MAX {
        assert_eq!(m.lookup(CLIENT, "000000", 0), Err(LookupError::NotRegistered));
    }
    let e = m.lookup(CLIENT, "000000", 0).unwrap_err();
    assert_eq!(e, LookupError::RateExceeded);
    assert_eq!(e.status().code(), 429);
    assert_eq!(e.message(), "rate limit exceeded");
    assert!(m.register(CLIENT, "000000", "id", None, 0).is_ok());
    m.sweep(RATE_WINDOW + 1);
    assert!(m.lookup(CLIENT, "000000", RATE_WINDOW + 1).is_ok());
}

#[test]
fn allow_rate_counts_and_forgets() {
    let mut m = Mailbox::new();
    assert!(m.allow_rate("k", 2, 10));
    assert!(m.allow_rate("k", 2, 9)); // a clock that lags opens no new window
    assert!(!m.allow_rate("k", 2, 11));
    assert!(m.allow_rate("k", 2, 11 + RATE_WINDOW));
}

#[test]
fn tokens_differ() {
    let mut m = Mailbox::new();
    let a = register_code(&mut m, "111111", "a");
    let b = register_code(&mut m, "222222", "b");
    assert_ne!(a, b);
    assert_eq!(a.len(), 36);
    assert!(a.chars().all(|c| c == '-' || (c.is_ascii_hexdigit() && !c.is_ascii_uppercase())));
}
