use frostwall::commands::{
    advertised_name, downloads_root, first_peer, is_system_path, is_windows_system_path,
    mdns_instance_name, AppState, CommandError, DirFacts, Registration, Teardown,
};
use frostwall::config::UserConfig;
use frostwall::discovery::DiscoveredPeer;
use frostwall::liveness::current_code;

fn state() -> AppState {
    AppState::new(UserConfig::default())
}

#[test]
fn downloads_root_is_some() {
    assert!(downloads_root(Some("/home/u/Downloads"), Some("/home/u")).is_some());
    assert_eq!(
        downloads_root(Some("/home/u/Downloads"), None),
        Some("/home/u/Downloads/Frostwall Beam".to_string())
    );
    assert_eq!(downloads_root(None, Some("/home/u")), Some("/home/u/Frostwall Beam".to_string()));
    assert_eq!(downloads_root(None, None), None);
}

#[test]
fn clear_aborts_pairing_task() {
    let mut state = state();
    state.pairing = true;
    let steps = state.clear();
    assert_eq!(steps, vec![Teardown::AbortPairing]);
    assert!(!state.pairing);
}

#[test]
fn clear_tears_everything_down_once() {
    let mut s = AppState::new(UserConfig {
        download_dir: Some("/d".into()),
        device_name: Some("Mac".into()),
        mailbox_url: None,
    });
    s.pairing = true;
    s.establish_session([1u8; 32]);
    s.pairing = true;
    s.install_cancel();
    s.in_flight = true;
    s.decision_pending = true;
    let reg = Registration {
        mailbox_url: "https://m".into(),
        code: "123456".into(),
        token: "t".into(),
    };
    s.registration = Some(reg.clone());
    assert_eq!(
        s.disconnect(),
        vec![
            Teardown::AbortPairing,
            Teardown::RaiseCancel,
            Teardown::DeclinePending,
            Teardown::CloseCommands,
            Teardown::Unregister(reg),
        ]
    );
    assert!(!s.connected && !s.in_flight && s.cancel.is_none() && s.liveness_key.is_none());
    assert_eq!(s.download_dir.as_deref(), Some("/d"));
    assert!(s.clear().is_empty());
}

#[test]
fn sessions_show_both_names_and_a_code() {
    let mut s = state();
    assert_eq!(s.current_liveness_code(60), None);
    s.peer_display_name = Some("other".into());
    s.device_name = Some("mine".into());
    let shown = s.establish_session([9u8; 32]);
    assert_eq!(shown.peer_name.as_deref(), Some("other"));
    assert_eq!(shown.local_name.as_deref(), Some("mine"));
    assert_eq!(s.peer_display_name, None);
    assert_eq!(s.current_liveness_code(60), Some(current_code(&[9u8; 32], 60)));
}

#[test]
fn sends_need_a_session_without_a_transfer() {
    let mut s = state();
    assert_eq!(s.send_files(), Err(CommandError::NotConnected));
    s.establish_session([0u8; 32]);
    assert_eq!(s.send_files(), Ok(()));
    s.in_flight = true;
    assert_eq!(s.send_files(), Err(CommandError::TransferInProgress));
    assert_eq!(CommandError::TransferInProgress.message(), "a transfer is already in progress");
}

#[test]
fn cancelling_raises_the_flag_and_keeps_the_session() {
    let mut s = state();
    s.establish_session([0u8; 32]);
    assert_eq!(s.cancel_transfer(), Err(CommandError::NoTransfer));
    s.in_flight = true;
    assert_eq!(s.cancel_transfer(), Err(CommandError::NoTransfer));
    s.install_cancel();
    assert_eq!(s.cancel, Some(false));
    assert_eq!(s.cancel_transfer(), Ok(()));
    assert_eq!(s.cancel, Some(true));
    assert!(s.connected);
    s.clear_cancel();
    assert_eq!(s.cancel, None);
}

#[test]
fn decisions_are_taken_once() {
    let mut s = state();
    assert_eq!(s.respond_incoming_transfer(true), Err(CommandError::NoPendingTransfer));
    s.decision_pending = true;
    assert_eq!(s.respond_incoming_transfer(false), Ok(false));
    assert_eq!(s.respond_incoming_transfer(true), Err(CommandError::NoPendingTransfer));
}

#[test]
fn download_dir_is_configured_default_or_here() {
    let mut s = state();
    assert_eq!(s.effective_download_dir(Some("/dl".into())), "/dl");
    assert_eq!(s.effective_download_dir(None), ".");
    s.download_dir = Some("/mine".into());
    assert_eq!(s.effective_download_dir(Some("/dl".into())), "/mine");
}

#[test]
fn system_directories_are_refused() {
    for p in ["/", "//", "/etc", "/etc/x", "/private/etc", "/usr/local", "/private/tmp/a", "/System/Library", "/tmp"] {
        assert!(is_system_path(p), "{p}");
    }
    for p in ["/home/u", "/etcetera", "/private", "/private/other", "etc", "", "/Users/u/etc"] {
        assert!(!is_system_path(p), "{p}");
    }
}

#[test]
fn windows_directories_are_refused_on_windows_only() {
    for p in ["\\\\?\\C:\\Windows", "C:\\Windows", "c:\\windows\\x", "C:\\Program Files (x86)\\a", "C:\\ProgramData"] {
        assert!(is_windows_system_path(p), "{p}");
        assert!(!is_system_path(p), "{p}");
    }
    for p in ["D:\\Windows", "C:\\Users\\u", "C:/Windows", ""] {
        assert!(!is_windows_system_path(p), "{p}");
    }
    let mut on_windows = facts(false, true, "C:\\Windows\\p");
    let mut s = state();
    assert!(s.set_download_dir("/p", &on_windows, UserConfig::default()).is_ok());
    on_windows.windows = true;
    assert_eq!(
        s.set_download_dir("/p", &on_windows, UserConfig::default()),
        Err(CommandError::DownloadDirSystem)
    );
}

fn facts(is_symlink: bool, is_dir: bool, canonical: &str) -> DirFacts {
    DirFacts { is_symlink, is_dir, canonical: canonical.into(), windows: false }
}

#[test]
fn download_dir_must_be_a_plain_directory() {
    let stored = UserConfig { device_name: Some("Mac".into()), ..UserConfig::default() };
    let mut s = state();
    let mut set = |f: DirFacts| s.set_download_dir("/p", &f, stored.clone());
    assert_eq!(set(facts(true, false, "/p")), Err(CommandError::DownloadDirSymlink));
    assert_eq!(set(facts(false, false, "/p")), Err(CommandError::DownloadDirNotADirectory));
    assert_eq!(set(facts(false, true, "/var/p")), Err(CommandError::DownloadDirSystem));
    let saved = set(facts(false, true, "/p")).unwrap();
    assert_eq!(saved.download_dir.as_deref(), Some("/p"));
    assert_eq!(saved.device_name.as_deref(), Some("Mac"));
    assert_eq!(s.download_dir.as_deref(), Some("/p"));
}

#[test]
fn device_name_must_not_be_blank() {
    let mut s = state();
    let stored = UserConfig { download_dir: Some("/d".into()), ..UserConfig::default() };
    assert_eq!(s.set_device_name(" \t ", stored.clone()), Err(CommandError::EmptyDeviceName));
    let saved = s.set_device_name("  My Mac ", stored).unwrap();
    assert_eq!(saved.device_name.as_deref(), Some("My Mac"));
    assert_eq!(saved.download_dir.as_deref(), Some("/d"));
    assert_eq!(s.get_config().device_name.as_deref(), Some("My Mac"));
}

#[test]
fn mailbox_url_is_cleared_checked_and_trimmed() {
    let mut s = state();
    assert_eq!(s.mailbox(), Err(CommandError::MailboxNotConfigured));
    let none = UserConfig::default;
    for bad in ["ftp://x", "https://", "http:///", "https:/x", "http:", "m.example"] {
        assert_eq!(s.set_mailbox_url(bad, none()), Err(CommandError::MailboxUrlScheme), "{bad}");
        assert_eq!(s.mailbox_url, None);
    }
    let saved = s.set_mailbox_url(" https://m.example// ", none()).unwrap();
    assert_eq!(saved.mailbox_url.as_deref(), Some("https://m.example"));
    assert_eq!(s.mailbox(), Ok("https://m.example".to_string()));
    s.set_mailbox_url("http://127.0.0.1:8787", none()).unwrap();
    assert_eq!(s.mailbox_url.as_deref(), Some("http://127.0.0.1:8787"));
    let saved = s.set_mailbox_url("  ", none()).unwrap();
    assert_eq!(saved.mailbox_url, None);
    assert_eq!(s.mailbox_url, None);
}

#[test]
fn advertised_names_are_slugs_or_numbers() {
    assert_eq!(advertised_name(Some("My Mac Mini!"), 7), "frostwall-my-mac-mini");
    assert_eq!(advertised_name(Some("--"), 7), "frostwall-0007");
    assert_eq!(advertised_name(Some("日本"), 42), "frostwall-0042");
    assert_eq!(advertised_name(None, 9999), "frostwall-9999");
    assert_eq!(advertised_name(Some(&"x".repeat(48)), 1), format!("frostwall-{}", "x".repeat(48)));
    assert_eq!(advertised_name(Some(&"x".repeat(49)), 1), "frostwall-0001");
    assert_eq!(mdns_instance_name(Some("Desk 1")), "frostwall-desk-1");
    let random = mdns_instance_name(None);
    assert_eq!(random.len(), "frostwall-0000".len());
    assert!((0..50).any(|_| mdns_instance_name(None) != random));
}

#[test]
fn joining_takes_the_first_host() {
    assert_eq!(first_peer(vec![]), Err(CommandError::NoPeerFound));
    let peer = |n: &str| DiscoveredPeer { display_name: n.into(), address: "10.0.0.1".into(), port: 1 };
    assert_eq!(first_peer(vec![peer("a"), peer("b")]), Ok(peer("a")));
}
