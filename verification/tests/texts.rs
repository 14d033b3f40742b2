use frostwall::crypto::CryptoError;
use frostwall::path;
use frostwall::protocol::{decode, ManifestEntry, Message, ProtocolError};
use frostwall::session::HandshakeError;
use frostwall::text;
use frostwall::transfer::{PathError, TransferError};

#[test]
fn trimming_knows_unicode_white_space() {
    assert_eq!(text::trim("\u{3000}\t a b \u{85}\n"), "a b");
    assert_eq!(text::trim("  "), "");
    assert_eq!(text::trim("\u{200b}x"), "\u{200b}x");
    for c in '\0'..=char::MAX {
        assert_eq!(text::trim(&format!("{c}x")) == "x", c.is_whitespace());
    }
}

#[test]
fn trimming_can_mind_one_character() {
    assert_eq!(text::trim_matches("--a-b--", '-'), "a-b");
    assert_eq!(text::trim_end_matches("//x//", '/'), "//x");
}

#[test]
fn numbers_are_written_in_decimal() {
    assert_eq!(text::decimal_text(0), "0");
    assert_eq!(text::decimal_text(u64::MAX), "18446744073709551615");
    assert_eq!(text::padded_text(7, 3), "007");
    assert_eq!(text::padded_text(1234, 3), "234");
}

#[test]
fn parts_are_found() {
    assert!(text::contains("abcabd", "abd"));
    assert!(!text::contains("abcab", "abd"));
    assert!(text::contains("x", ""));
    assert!(!text::contains("", "x"));
    assert!(text::starts_with("https://x", "https://"));
    assert_eq!(text::strip_prefix("abc", "ab"), Some("c".to_string()));
    assert_eq!(text::strip_prefix("abc", "b"), None);
    assert_eq!(text::replace("a-b-c", '-', ' '), "a b c");
}

#[test]
fn paths_are_split_like_components() {
    let segs = |p: &str| path::split(p).1;
    assert_eq!(path::split("/a//b/./c/"), (true, vec!["a".into(), "b".into(), "c".into()]));
    assert_eq!(segs("./a/.."), ["." , "a", ".."]);
    assert!(segs("").is_empty());
    assert!(segs("///").is_empty());
    for p in ["/a//b/./c/", "./a/..", "a/b", "", "/", "../x", "a/.", "//x"] {
        let std: Vec<String> = std::path::Path::new(p)
            .components()
            .filter(|c| !matches!(c, std::path::Component::RootDir))
            .map(|c| c.as_os_str().to_str().unwrap().to_string())
            .collect();
        assert_eq!(segs(p), std, "{p}");
    }
}

#[test]
fn parents_and_names_match_the_standard_library() {
    for p in ["/a//b/./c/", "a", "/x", "/", "", "a/..", ".", "x/y.tar.gz", "/d/.hidden"] {
        let std = std::path::Path::new(p);
        let parent = std.parent().unwrap_or_else(|| std::path::Path::new("."));
        assert_eq!(std::path::Path::new(&path::parent(p)), parent, "{p}");
        let name = std.file_name().map(|n| n.to_str().unwrap().to_string());
        assert_eq!(path::file_name(p), name, "{p}");
        if let Some(n) = name {
            let (stem, suffix) = path::split_suffix(&n);
            assert_eq!(Some(stem.as_str()), std.file_stem().and_then(|s| s.to_str()));
            let ext = std.extension().and_then(|s| s.to_str()).map(|e| format!(".{e}"));
            assert_eq!(suffix, ext.unwrap_or_default());
        }
    }
}

#[test]
fn errors_say_what_happened() {
    assert_eq!(TransferError::Cancelled.message(), "transfer cancelled");
    assert_eq!(
        TransferError::TooManyBytes { sent: 5, declared: 3 }.message(),
        "peer sent more bytes than declared (5 > 3)"
    );
    assert_eq!(
        TransferError::SizeMismatch { declared: 100, received: 1 }.message(),
        "file size mismatch: expected 100, got 1"
    );
    assert_eq!(
        TransferError::Protocol(ProtocolError::Version(9)).message(),
        "incompatible wire version: got 9, expected 1"
    );
    assert_eq!(
        TransferError::Crypto(CryptoError::Decrypt).message(),
        "AEAD decryption failed (wrong key or tampered)"
    );
    assert_eq!(TransferError::Path(PathError::Backslash).message(), "backslash in manifest path");
    assert_eq!(
        TransferError::ExpectedAccept(Message::Done).message(),
        "expected Accept, got Done"
    );
    assert_eq!(
        TransferError::SymlinkRoot("/l".into()).message(),
        "refusing to send a symlink: /l"
    );
    assert_eq!(TransferError::TooDeep.message(), "max directory depth exceeded");
    assert_eq!(TransferError::OutsideRoot.message(), "strip prefix: prefix not found");
    assert_eq!(
        PathError::UnsafeComponent("../a".into()).message(),
        "unsafe path component in manifest: ../a"
    );
    assert_eq!(HandshakeError::TimedOut.message(), "handshake timed out (peer stalled)");
    assert_eq!(HandshakeError::Transport("x".into()).message(), "x");
}

#[test]
fn an_unexpected_message_is_shown_with_all_that_it_carries() {
    let manifest = |paths: &[&str]| {
        let entry = |p: &&str| ManifestEntry { rel_path: p.to_string(), size: p.len() as u64 };
        Message::Manifest(paths.iter().map(entry).collect())
    };
    let chunk = Message::Chunk(vec![0, 17, 255]);
    assert_eq!(chunk.shown(), "Chunk([0, 17, 255])");
    assert_eq!(
        manifest(&["a\"b"]).shown(),
        "Manifest([ManifestEntry { rel_path: \"a\\\"b\", size: 3 }])"
    );
    for m in [
        chunk,
        Message::Chunk(vec![]),
        Message::Encrypted(vec![9]),
        Message::FileEnd([7; 32]),
        Message::Done,
        Message::Accept,
        Message::Reject,
        Message::Cancel,
        manifest(&[]),
        manifest(&["a", "dir/\u{e9}\n\u{202e}'\\"]),
    ] {
        assert_eq!(m.shown(), format!("{m:?}"));
        let got = format!("{m:?}");
        assert_eq!(
            TransferError::UnexpectedDuringFile(m.clone()).message(),
            format!("unexpected message during file: {got}")
        );
        assert_eq!(TransferError::ExpectedDone(m).message(), format!("expected Done, got {got}"));
    }
}

#[test]
fn an_unreadable_frame_is_explained() {
    let why = |frame: &[u8]| decode(frame).unwrap_err().message();
    assert_eq!(
        why(&[1, 9]),
        "decode message: invalid value: integer `9`, expected variant index 0 <= i < 8"
    );
    assert_eq!(
        why(&[1, 3, 0]),
        "decode message: Slice had bytes remaining after deserialization"
    );
    assert!(why(&[1, 2, 0]).starts_with("decode message: io error: "));
    assert!(why(&[1, 0, 1, 1, 0xff, 0]).starts_with("decode message: string is not valid utf8"));
    assert!(why(&[1, 253]).starts_with("decode message: io error: "));
    assert_eq!(why(&vec![1; 1_048_578]), "decode message: the size limit has been reached");
}
