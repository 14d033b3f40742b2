use frostwall::discovery::{
    display_name_from_instance, host_name, instance_name, PeerList, SERVICE_TYPE,
};
use frostwall::internet::{
    lookup_step, peer_key, register_outcome, LookupReply, LookupStep, Mailbox, MailboxError, RegisterReply,
    ALPN, LOOKUP_TIMEOUT_MILLIS,
};
use frostwall::mailbox::Peer;

#[test]
fn display_name_from_instance_slug() {
    assert_eq!(display_name_from_instance("frostwall-mac-mini"), "mac mini");
    assert_eq!(display_name_from_instance("other"), "other");
}

#[test]
fn display_name_is_never_empty_for_a_name() {
    assert_eq!(display_name_from_instance("frostwall-"), "frostwall-");
    assert_eq!(display_name_from_instance(""), "");
    assert_eq!(display_name_from_instance("a-b"), "a b");
}

#[test]
fn service_names_are_split_at_the_first_dot() {
    assert_eq!(instance_name("frostwall-x._frostwall._tcp.local."), "frostwall-x");
    assert_eq!(instance_name("nodots"), "nodots");
    assert_eq!(instance_name(".x"), "");
    assert_eq!(host_name("frostwall-x"), "frostwall-x.local.");
    assert_eq!(SERVICE_TYPE, "_frostwall._tcp.local.");
    assert_eq!(ALPN, "frostwall-beam/1");
}

#[test]
fn peers_are_listed_once_with_their_last_answer() {
    let mut l = PeerList::new();
    l.resolved("frostwall-a._frostwall._tcp.local.", "10.0.0.1", 1);
    l.resolved("frostwall-b._frostwall._tcp.local.", "10.0.0.2", 2);
    l.resolved("frostwall-a._frostwall._tcp.local.", "10.0.0.3", 3);
    let peers = l.into_peers();
    assert_eq!(peers.len(), 2);
    assert_eq!((peers[0].display_name.as_str(), peers[0].address.as_str(), peers[0].port), ("a", "10.0.0.3", 3));
    assert_eq!((peers[1].display_name.as_str(), peers[1].address.as_str(), peers[1].port), ("b", "10.0.0.2", 2));
}

#[test]
fn mailbox_base_url_trims_trailing_slash() {
    let mailbox = Mailbox::new("https://mailbox.example.com/");
    assert_eq!(mailbox.base_url(), "https://mailbox.example.com");
}

#[test]
fn mailbox_urls_carry_the_code() {
    let m = Mailbox::new("http://h");
    assert_eq!(m.register_url(), "http://h/register");
    assert_eq!(m.lookup_url("123456"), "http://h/lookup/123456");
    assert_eq!(m.unregister_url("123456"), "http://h/register/123456");
}

#[test]
fn registration_answers_are_told_apart() {
    let answered = |s: u16, shown: &str, t: Result<&str, &str>| {
        let token = t.map(|t| t.to_string()).map_err(|e| e.to_string());
        register_outcome(RegisterReply::Answered(s, shown.to_string(), token))
    };
    assert_eq!(answered(201, "201 Created", Ok("tok")), Ok("tok".to_string()));
    assert_eq!(answered(200, "200 OK", Err("eof")), Err(MailboxError::Malformed("eof".into())));
    assert_eq!(answered(409, "409 Conflict", Err("")), Err(MailboxError::AlreadyRegistered));
    let busy = "429 Too Many Requests";
    assert_eq!(answered(429, busy, Err("")), Err(MailboxError::Rejected(busy.into())));
    assert_eq!(
        register_outcome(RegisterReply::Failed("dns".to_string())).unwrap_err().message(),
        "mailbox unreachable: dns"
    );
    assert_eq!(
        MailboxError::Rejected("500 Internal Server Error".into()).message(),
        "mailbox rejected registration (500 Internal Server Error)"
    );
}

#[test]
fn lookups_wait_for_the_host_until_the_time_is_up() {
    let peer = Peer { endpoint_id: "id".into(), device_name: None };
    let found = LookupReply::Answered(200, Ok(peer.clone()));
    assert_eq!(lookup_step(found, 0, LOOKUP_TIMEOUT_MILLIS), LookupStep::Found(peer));
    assert_eq!(
        lookup_step(LookupReply::Answered(200, Err("eof".into())), 0, 0),
        LookupStep::Stop(MailboxError::Malformed("eof".into()))
    );
    assert_eq!(lookup_step(LookupReply::Answered(404, Err(String::new())), 5, 6), LookupStep::AskAgain);
    assert_eq!(
        lookup_step(LookupReply::Failed, 5, 4 + LOOKUP_TIMEOUT_MILLIS),
        LookupStep::AskAgain
    );
    assert_eq!(
        lookup_step(LookupReply::Failed, 5, 5 + LOOKUP_TIMEOUT_MILLIS),
        LookupStep::Stop(MailboxError::NoPeer)
    );
}

#[test]
fn endpoint_identifiers_name_keys() {
    let id = "d75a980182b10ab7d54bfed3c964073a0ee172f3daa62325af021a68f707511a";
    let key = peer_key(&format!(" {id}\n")).unwrap();
    assert_eq!((key[0], key[1], key[31]), (0xd7, 0x5a, 0x1a));
    assert_eq!(peer_key("id"), None);
    assert_eq!(peer_key(""), None);
}
