use frostwall::collect::{Collector, Kind, Want};
use frostwall::crypto::{encrypt_chunk, SessionKeys};
use frostwall::protocol::{encode, ManifestEntry, Message, ProtocolError, CHUNK_SIZE};
use frostwall::receiver::{after_failure, open_manifest, Cleanup, FileStep, Receiver, RecvPhase};
use frostwall::sender::{SendPhase, Sender};
use frostwall::transfer::{
    append_suffix, check_cancel, confine_path, is_cancelled, open_control,
    path_has_dangerous_unicode, seal_control, unique_dest_path, validate_manifest, PathError,
    Progress, SendItem, TransferError, MAX_FILES, MAX_TOTAL,
};
use std::collections::HashMap;

type Files = HashMap<String, Vec<u8>>;

// ---- path confinement ----

#[test]
fn confine_rejects_traversal_and_absolute() {
    let base = "/tmp/out";
    assert!(confine_path(base, "../evil", false).is_err());
    assert!(confine_path(base, "a/../../b", false).is_err());
    assert!(confine_path(base, "/etc/passwd", false).is_err());
    assert!(confine_path(base, "", false).is_err());
    assert!(confine_path(base, "a\0b", false).is_err());
    assert!(confine_path(base, "a\\b", false).is_err());
}

#[test]
fn confine_rejects_dangerous_unicode() {
    let base = "/tmp/out";
    assert!(confine_path(base, "normal.txt", false).is_ok());
    assert!(confine_path(base, "evil\u{202e}file.txt", false).is_err());
    assert!(confine_path(base, "zero\u{200b}width.txt", false).is_err());
}

#[test]
fn confine_accepts_normal_relative() {
    let base = "/tmp/out";
    assert_eq!(confine_path(base, "a.txt", false).unwrap(), "/tmp/out/a.txt");
    assert_eq!(confine_path(base, "dir/sub/b.txt", false).unwrap(), "/tmp/out/dir/sub/b.txt");
}

#[test]
fn confine_names_each_problem() {
    assert_eq!(confine_path("d", "", false), Err(PathError::EmptyOrNul));
    assert_eq!(confine_path("d", "a\0b", false), Err(PathError::EmptyOrNul));
    assert_eq!(confine_path("d", &"x".repeat(4097), false), Err(PathError::TooLong));
    assert_eq!(confine_path("d", &"é".repeat(2049), false), Err(PathError::TooLong));
    assert!(confine_path("d", &"é".repeat(2048), false).is_ok());
    assert_eq!(confine_path("d", "a\\b", false), Err(PathError::Backslash));
    assert_eq!(confine_path("d", "a\u{7f}b", false), Err(PathError::UnsafeUnicode));
    assert_eq!(confine_path("d", "/a", false), Err(PathError::Absolute("/a".into())));
    for rel in ["./a", "a/..", "a/./b", "a/.", ".", "..", "a/../b"] {
        assert_eq!(confine_path("d", rel, false), Err(PathError::UnsafeComponent(rel.into())));
    }
    assert_eq!(confine_path("d/", "a//b", false).unwrap(), "d/a//b");
    assert_eq!(confine_path("", "a", false).unwrap(), "a");
    assert_eq!(confine_path("d", "...", false).unwrap(), "d/...");
}

#[test]
fn dangerous_unicode_covers_each_range() {
    for c in ['\u{200b}', '\u{200f}', '\u{202a}', '\u{202e}', '\u{2066}', '\u{2069}', '\u{feff}'] {
        assert!(path_has_dangerous_unicode(&format!("a{c}b")));
    }
    for c in ['\u{1}', '\u{1f}', '\u{7f}', '\u{9f}'] {
        assert!(path_has_dangerous_unicode(&format!("a{c}b")));
    }
    for c in [' ', 'é', '\u{200a}', '\u{2010}', '\u{2029}', '\u{202f}', '\u{a0}'] {
        assert!(!path_has_dangerous_unicode(&format!("a{c}b")));
    }
}

// ---- picking a destination ----

#[test]
fn unique_dest_path_avoids_collision() {
    let existing = "/tmp/dir/doc.txt";
    let alt = unique_dest_path(existing, &|p: &str| p == existing).unwrap();
    assert_ne!(alt, existing);
    assert!(alt.contains("(1)"));
    assert_eq!(alt, "/tmp/dir/doc (1).txt");
}

#[test]
fn unique_dest_path_keeps_a_free_name_and_counts_up() {
    assert_eq!(unique_dest_path("/d/doc.txt", &|_: &str| false).unwrap(), "/d/doc.txt");
    let taken = ["/d/doc.txt", "/d/doc (1).txt", "/d/doc (2).txt"];
    let next = unique_dest_path("/d/doc.txt", &|p: &str| taken.contains(&p)).unwrap();
    assert_eq!(next, "/d/doc (3).txt");
}

#[test]
fn unique_dest_path_splits_names_like_extensions() {
    let first = |d: &str| {
        let own = d.to_string();
        unique_dest_path(d, &move |p: &str| p == own).unwrap()
    };
    assert_eq!(first("/d/archive.tar.gz"), "/d/archive.tar (1).gz");
    assert_eq!(first("/d/.profile"), "/d/.profile (1)");
    assert_eq!(first("/d/noext"), "/d/noext (1)");
    assert_eq!(first("/d/trailing."), "/d/trailing (1).");
    assert_eq!(first("plain.txt"), "plain (1).txt");
    assert_eq!(first("/doc.txt"), "/doc (1).txt");
    assert_eq!(first("/d/x/.."), "/d/x/file (1)");
    assert_eq!(first("/"), "./file (1)");
}

#[test]
fn unique_dest_path_never_gives_a_taken_name() {
    assert_eq!(unique_dest_path("/d/doc.txt", &|_: &str| true), Err(TransferError::NoFreeName));
    let last = "/d/doc (9999).txt";
    assert_eq!(unique_dest_path("/d/doc.txt", &|p: &str| p != last).unwrap(), last);
}

#[test]
fn suffixes_are_appended() {
    assert_eq!(append_suffix("/d/a.txt", ".frostwallpart"), "/d/a.txt.frostwallpart");
}

// ---- manifest caps ----

#[test]
fn validate_manifest_rejects_oversized_and_unsafe() {
    let big: Vec<ManifestEntry> = (0..MAX_FILES + 1)
        .map(|i| ManifestEntry { rel_path: format!("f{i}"), size: 1 })
        .collect();
    assert!(validate_manifest(&big, false).is_err());

    let trav = vec![ManifestEntry { rel_path: "../x".into(), size: 1 }];
    assert!(validate_manifest(&trav, false).is_err());

    let huge = vec![ManifestEntry { rel_path: "a".into(), size: MAX_TOTAL + 1 }];
    assert!(validate_manifest(&huge, false).is_err());

    assert!(validate_manifest(&[], false).is_err());
}

#[test]
fn validate_manifest_sums_total() {
    let m = vec![
        ManifestEntry { rel_path: "a".into(), size: 10 },
        ManifestEntry { rel_path: "b/c".into(), size: 4096 },
    ];
    assert_eq!(validate_manifest(&m, false).unwrap(), 4106);
}

fn entry(rel_path: &str, size: u64) -> ManifestEntry {
    ManifestEntry { rel_path: rel_path.into(), size }
}

#[test]
fn validate_manifest_names_each_problem() {
    assert_eq!(validate_manifest(&[], false), Err(TransferError::EmptyManifest));
    assert_eq!(
        validate_manifest(&[entry("a", 1), entry("b", 1), entry("a", 2)], false),
        Err(TransferError::DuplicatePath)
    );
    assert_eq!(
        validate_manifest(&[entry("/a", 1)], false),
        Err(TransferError::Path(PathError::Absolute("/a".into())))
    );
    assert_eq!(
        validate_manifest(&[entry("a", u64::MAX), entry("b", 1)], false),
        Err(TransferError::ManifestOverflow)
    );
    assert_eq!(validate_manifest(&[entry("a", MAX_TOTAL)], false), Ok(MAX_TOTAL));
    assert_eq!(validate_manifest(&[entry("a", MAX_TOTAL + 1)], false), Err(TransferError::ManifestTooLarge));
    let full: Vec<ManifestEntry> = (0..MAX_FILES).map(|i| entry(&format!("f{i}"), 1)).collect();
    assert_eq!(validate_manifest(&full, false), Ok(MAX_FILES as u64));
}

// ---- control messages ----

#[test]
fn control_messages_open_to_what_was_sealed() {
    let keys = SessionKeys::derive(b"shared");
    for m in [Message::Done, Message::Accept, Message::Reject, Message::Cancel] {
        let frame = seal_control(&keys, &m).unwrap();
        assert_eq!(open_control(&keys, &frame).unwrap(), m);
    }
}

#[test]
fn control_messages_need_the_key_and_the_envelope() {
    let keys = SessionKeys::derive(b"shared");
    let other = SessionKeys::derive(b"other");
    let frame = seal_control(&keys, &Message::Done).unwrap();
    assert!(open_control(&other, &frame).is_err());
    let clear = encode(&Message::Done).unwrap();
    assert_eq!(open_control(&keys, &clear), Err(TransferError::ExpectedEncrypted(Message::Done)));
    assert_eq!(
        open_control(&keys, &[9, 9]),
        Err(TransferError::Protocol(ProtocolError::Version(9)))
    );
}

#[test]
fn cancellation_is_told_from_other_errors() {
    assert!(is_cancelled(&TransferError::Cancelled));
    assert!(is_cancelled(&TransferError::CancelledByPeer));
    assert!(!is_cancelled(&TransferError::RejectedByPeer));
    assert_eq!(check_cancel(false), Ok(()));
    assert_eq!(check_cancel(true), Err(TransferError::Cancelled));
}

// ---- a whole transfer over a perfect connection ----

fn item(source: &str, rel_path: &str) -> SendItem {
    SendItem { source: source.into(), rel_path: rel_path.into() }
}

/// Receives one file's frames into `disk`; leaves nothing behind on failure.
fn receive_file(
    rx: &mut Receiver,
    keys: &SessionKeys,
    frames: &[Vec<u8>],
    disk: &mut Files,
) -> Result<(), TransferError> {
    let existing: Vec<String> = disk.keys().cloned().collect();
    let plan = rx.begin_file(false, move |p: &str| existing.iter().any(|e| e == p))?;
    disk.insert(plan.partial.clone(), Vec::new());
    for frame in frames {
        match rx.on_frame(keys, frame) {
            Ok(FileStep::Write(bytes, _)) => {
                disk.get_mut(&plan.partial).unwrap().extend_from_slice(&bytes)
            }
            Ok(FileStep::Verified) => {
                let bytes = disk.remove(&plan.partial).unwrap();
                disk.insert(plan.dest.clone(), bytes);
                return Ok(());
            }
            Err(e) => {
                disk.remove(&plan.partial);
                return Err(e);
            }
        }
    }
    panic!("the frames end within a file");
}

/// Sends `items` from `source` to `dest` and returns the received files and
/// the sender's progress.
fn transfer(
    keys: &SessionKeys,
    items: Vec<SendItem>,
    source: &Files,
    dest: &str,
) -> (Files, Vec<Progress>) {
    let mut progress = Vec::new();
    let mut tx = Sender::new(items, false).unwrap();
    while let Some(item) = tx.unsized_item() {
        let size = source[&item.source].len() as u64;
        tx.add_size(size).unwrap();
    }
    let manifest = tx.manifest(keys).unwrap();
    let mut rx = Receiver::open(keys, &manifest, dest, false).unwrap();
    let accept = seal_control(keys, &Message::Accept).unwrap();
    tx.on_reply(keys, &accept).unwrap();
    let mut disk = Files::new();
    while !tx.all_sent() {
        let path = tx.begin_file(false).unwrap();
        let mut frames = Vec::new();
        for chunk in source[&path].chunks(CHUNK_SIZE) {
            let (frame, p) = tx.chunk(keys, chunk).unwrap();
            frames.push(frame);
            progress.push(p);
        }
        frames.push(tx.end_file(keys).unwrap());
        receive_file(&mut rx, keys, &frames, &mut disk).unwrap();
    }
    assert!(rx.all_received());
    let done = rx.done(keys).unwrap();
    assert_eq!(rx.phase(), RecvPhase::Finished);
    tx.on_done(keys, &done).unwrap();
    assert_eq!(tx.phase(), SendPhase::Finished);
    (disk, progress)
}

#[test]
fn send_recv_single_file() {
    let keys = SessionKeys::derive(b"shared-secret");
    let content = b"hello world contents".to_vec();
    let mut source = Files::new();
    source.insert("/src/hello.txt".into(), content.clone());
    let (disk, _) = transfer(&keys, vec![item("/src/hello.txt", "hello.txt")], &source, "/out");
    assert_eq!(disk["/out/hello.txt"], content);
    assert_eq!(disk.len(), 1);
}

#[test]
fn send_recv_folder_preserves_structure() {
    let keys = SessionKeys::derive(b"folder-secret");
    let mut source = Files::new();
    source.insert("/tmp/data/a.txt".into(), b"aaa".to_vec());
    source.insert("/tmp/data/sub/b.txt".into(), b"bbbbbbbb".to_vec());
    let mut c = Collector::new(false);
    c.add_root("/tmp/data", Kind::Dir).unwrap();
    loop {
        match c.next() {
            Want::Nothing => break,
            Want::Listing(dir) => c.on_listing(match dir.as_str() {
                "/tmp/data" => vec!["/tmp/data/a.txt".into(), "/tmp/data/sub".into()],
                _ => vec!["/tmp/data/sub/b.txt".into()],
            }),
            Want::Entry(p) => {
                let kind = if source.contains_key(&p) { Kind::File } else { Kind::Dir };
                c.on_entry(kind, None).unwrap();
            }
        }
    }
    let (disk, _) = transfer(&keys, c.into_items(), &source, "received");
    assert_eq!(disk["received/data/a.txt"], b"aaa");
    assert_eq!(disk["received/data/sub/b.txt"], b"bbbbbbbb");
}

#[test]
fn progress_reports_bytes() {
    let keys = SessionKeys::derive(b"prog-secret");
    let content = vec![0x11u8; CHUNK_SIZE * 2 + 1234];
    let mut source = Files::new();
    source.insert("big.bin".into(), content.clone());
    let (disk, progress) = transfer(&keys, vec![item("big.bin", "big.bin")], &source, "out");
    assert_eq!(disk["out/big.bin"], content);
    let last = progress.last().unwrap();
    assert_eq!(last.transferred * 100 / last.total.max(1), 100);
    assert_eq!(progress.len(), 3);
    assert_eq!(progress[0], Progress { transferred: CHUNK_SIZE as u64, total: content.len() as u64 });
}

#[test]
fn empty_files_travel_too() {
    let keys = SessionKeys::derive(b"k");
    let mut source = Files::new();
    source.insert("e".into(), Vec::new());
    let (disk, progress) = transfer(&keys, vec![item("e", "e")], &source, "d");
    assert_eq!(disk["d/e"], b"");
    assert!(progress.is_empty());
}

// ---- malicious senders ----

struct EvilFile {
    rel: String,
    chunks: Vec<Vec<u8>>,
    hash: Option<[u8; 32]>,     // None => correct hash over plaintext
    declared_size: Option<u64>, // None => sum of chunk lengths
}

/// The frames that a malicious sender sends: the manifest, then each file's.
fn evil_send(keys: &SessionKeys, files: Vec<EvilFile>) -> (Vec<u8>, Vec<Vec<u8>>) {
    let entries: Vec<ManifestEntry> = files
        .iter()
        .map(|f| ManifestEntry {
            rel_path: f.rel.clone(),
            size: f
                .declared_size
                .unwrap_or_else(|| f.chunks.iter().map(|c| c.len() as u64).sum()),
        })
        .collect();
    let manifest = seal_control(keys, &Message::Manifest(entries)).unwrap();
    let mut frames = Vec::new();
    for f in files {
        let mut hasher = blake3::Hasher::new();
        for pt in &f.chunks {
            hasher.update(pt);
            let ct = encrypt_chunk(&keys.file_key, pt).unwrap();
            frames.push(encode(&Message::Chunk(ct)).unwrap());
        }
        let hash = f.hash.unwrap_or_else(|| *hasher.finalize().as_bytes());
        frames.push(seal_control(keys, &Message::FileEnd(hash)).unwrap());
    }
    (manifest, frames)
}

/// What receiving an evil transfer ends with, and what it leaves on disk.
fn receive_evil(evil: Vec<EvilFile>) -> (Result<(), TransferError>, Files) {
    let keys = SessionKeys::derive(b"shared");
    let (manifest, frames) = evil_send(&keys, evil);
    let mut disk = Files::new();
    let mut rx = match Receiver::open(&keys, &manifest, "/dir/out", false) {
        Ok(rx) => rx,
        Err(e) => return (Err(e), disk),
    };
    let r = receive_file(&mut rx, &keys, &frames, &mut disk);
    (r, disk)
}

#[test]
fn recv_rejects_traversal_manifest() {
    let (r, disk) = receive_evil(vec![EvilFile {
        rel: "../evil.txt".into(),
        chunks: vec![b"pwn".to_vec()],
        hash: None,
        declared_size: None,
    }]);
    assert!(r.is_err());
    assert!(disk.is_empty());
}

#[test]
fn recv_aborts_size_overrun() {
    // declared size 3, but send 5 bytes
    let (r, disk) = receive_evil(vec![EvilFile {
        rel: "ok.txt".into(),
        chunks: vec![b"hello".to_vec()],
        hash: None,
        declared_size: Some(3),
    }]);
    assert_eq!(r, Err(TransferError::TooManyBytes { sent: 5, declared: 3 }));
    // no final file, no lingering partial
    assert!(!disk.contains_key("/dir/out/ok.txt"));
    assert!(!disk.contains_key("/dir/out/ok.txt.frostwallpart"));
}

#[test]
fn recv_cleans_partial_on_hash_mismatch() {
    let wrong_hash = [0xAAu8; 32];
    let (r, disk) = receive_evil(vec![EvilFile {
        rel: "bad.txt".into(),
        chunks: vec![b"contents".to_vec()],
        hash: Some(wrong_hash),
        declared_size: None,
    }]);
    assert_eq!(r, Err(TransferError::IntegrityFailed));
    assert!(!disk.contains_key("/dir/out/bad.txt"));
    assert!(!disk.contains_key("/dir/out/bad.txt.frostwallpart"));
}

#[test]
fn recv_rejects_undersized_file() {
    let (r, disk) = receive_evil(vec![EvilFile {
        rel: "short.txt".into(),
        chunks: vec![b"x".to_vec()],
        hash: None,
        declared_size: Some(100),
    }]);
    assert_eq!(r, Err(TransferError::SizeMismatch { declared: 100, received: 1 }));
    assert!(!disk.contains_key("/dir/out/short.txt"));
}

fn receiving(keys: &SessionKeys) -> Receiver {
    let frame = seal_control(keys, &Message::Manifest(vec![entry("a.txt", 4)])).unwrap();
    let mut rx = Receiver::open(keys, &frame, "out", false).unwrap();
    assert_eq!(rx.total(), 4);
    rx.begin_file(false, |_: &str| false).unwrap();
    rx
}

#[test]
fn recv_ends_on_cancel_and_on_anything_unexpected() {
    let keys = SessionKeys::derive(b"k");
    let sealed = |m: Message| seal_control(&keys, &m).unwrap();
    let mut rx = receiving(&keys);
    assert_eq!(rx.on_frame(&keys, &sealed(Message::Cancel)), Err(TransferError::CancelledByPeer));
    let unexpected = TransferError::UnexpectedDuringFile(Message::Done);
    assert_eq!(rx.on_frame(&keys, &sealed(Message::Done)), Err(unexpected));
    let clear = encode(&Message::FileEnd([0u8; 32])).unwrap();
    let unsealed = TransferError::ExpectedEncrypted(Message::FileEnd([0u8; 32]));
    assert_eq!(rx.on_frame(&keys, &clear), Err(unsealed));
    assert!(matches!(rx.on_frame(&keys, &[1]), Err(TransferError::Protocol(_))));
    let garbage = encode(&Message::Chunk(vec![0u8; 64])).unwrap();
    assert!(matches!(rx.on_frame(&keys, &garbage), Err(TransferError::Crypto(_))));
}

#[test]
fn recv_plans_a_free_name_in_the_directory() {
    let keys = SessionKeys::derive(b"k");
    let frame = seal_control(&keys, &Message::Manifest(vec![entry("sub/a.txt", 1)])).unwrap();
    let mut rx = Receiver::open(&keys, &frame, "/dl", false).unwrap();
    assert_eq!(rx.begin_file(true, |_: &str| false), Err(TransferError::Cancelled));
    let plan = rx.begin_file(false, |p: &str| p == "/dl/sub/a.txt").unwrap();
    assert_eq!(plan.dest, "/dl/sub/a (1).txt");
    assert_eq!(plan.partial, "/dl/sub/a (1).txt.frostwallpart");
    assert_eq!(plan.parent, "/dl/sub");
}

#[test]
fn recv_needs_a_manifest_first() {
    let keys = SessionKeys::derive(b"k");
    let frame = seal_control(&keys, &Message::Done).unwrap();
    assert_eq!(open_manifest(&keys, &frame, false), Err(TransferError::ExpectedManifest(Message::Done)));
    let frame = seal_control(&keys, &Message::Manifest(vec![])).unwrap();
    assert_eq!(open_manifest(&keys, &frame, false), Err(TransferError::EmptyManifest));
}

#[test]
fn send_refuses_cancelled_oversized_and_overflowing_lists() {
    let one = || vec![item("a", "a")];
    assert_eq!(Sender::new(one(), true).err(), Some(TransferError::Cancelled));
    let many: Vec<SendItem> = (0..MAX_FILES + 1).map(|_| item("a", "a")).collect();
    assert_eq!(Sender::new(many, false).err(), Some(TransferError::TooManyFiles));
    let mut tx = Sender::new(vec![item("a", "a"), item("b", "b")], false).unwrap();
    tx.add_size(u64::MAX).unwrap();
    assert_eq!(tx.add_size(1), Err(TransferError::TotalOverflow));
    tx.add_size(0).unwrap();
    assert_eq!(tx.total(), u64::MAX);
}

#[test]
fn send_minds_the_peers_answers() {
    let keys = SessionKeys::derive(b"k");
    let sealed = |m: Message| seal_control(&keys, &m).unwrap();
    let mut tx = Sender::new(vec![item("a", "a")], false).unwrap();
    tx.add_size(1).unwrap();
    tx.manifest(&keys).unwrap();
    assert_eq!(tx.on_reply(&keys, &sealed(Message::Reject)), Err(TransferError::RejectedByPeer));
    assert_eq!(tx.on_reply(&keys, &sealed(Message::Cancel)), Err(TransferError::CancelledByPeer));
    assert_eq!(tx.on_reply(&keys, &sealed(Message::Done)), Err(TransferError::ExpectedAccept(Message::Done)));
    tx.on_reply(&keys, &sealed(Message::Accept)).unwrap();
    assert_eq!(tx.begin_file(true), Err(TransferError::Cancelled));
    assert_eq!(tx.begin_file(false).unwrap(), "a");
    assert!(tx.chunk(&keys, &vec![0u8; 1 << 20]).is_err());
    tx.chunk(&keys, b"x").unwrap();
    let end = tx.end_file(&keys).unwrap();
    let hash = *blake3::hash(b"x").as_bytes();
    assert_eq!(open_control(&keys, &end).unwrap(), Message::FileEnd(hash));
    assert!(tx.all_sent());
    assert_eq!(tx.on_done(&keys, &sealed(Message::Cancel)), Err(TransferError::CancelledByPeer));
    assert_eq!(tx.on_done(&keys, &sealed(Message::Accept)), Err(TransferError::ExpectedDone(Message::Accept)));
    tx.on_done(&keys, &sealed(Message::Done)).unwrap();
}

#[test]
fn a_failed_file_leaves_nothing_behind() {
    cleans_up(true, false, vec![Cleanup::RemovePartial]);
    cleans_up(true, true, vec![Cleanup::RemovePartial, Cleanup::SendCancel]);
    cleans_up(false, true, vec![Cleanup::SendCancel]);
    cleans_up(false, false, vec![]);
}

fn cleans_up(in_file: bool, cancelled: bool, steps: Vec<Cleanup>) {
    assert_eq!(after_failure(in_file, cancelled), steps);
}

#[test]
fn drives_are_refused_on_windows() {
    for rel in ["C:/x", "c:/", "//srv/share/x", "//srv/share", "//./dev", "//?/C:/x"] {
        assert_eq!(confine_path("d", rel, true), Err(PathError::Absolute(rel.into())));
    }
    for rel in ["c:x", "C:", "/x", "//srv", "//srv//x", "///x"] {
        assert_eq!(confine_path("d", rel, true), Err(PathError::UnsafeComponent(rel.into())));
    }
    for p in ["c", "1:x", "ab:x", "dir/c:x"] {
        assert!(confine_path("d", p, true).is_ok(), "{p}");
    }
    assert_eq!(confine_path("d", "C:x", false).unwrap(), "d/C:x");
    assert_eq!(
        validate_manifest(&[entry("ok", 1), entry("c:x", 1)], true),
        Err(TransferError::Path(PathError::UnsafeComponent("c:x".into())))
    );
    assert_eq!(validate_manifest(&[entry("ok", 1), entry("c:x", 1)], false), Ok(2));
}

#[test]
fn no_file_of_a_manifest_overwrites_another() {
    let keys = SessionKeys::derive(b"k");
    let frame =
        seal_control(&keys, &Message::Manifest(vec![entry("a.frostwallpart", 1), entry("a", 1)]))
            .unwrap();
    let mut disk = Files::new();
    let mut rx = Receiver::open(&keys, &frame, "/dl", false).unwrap();
    for content in [b"x", b"y"] {
        let names: Vec<String> = disk.keys().cloned().collect();
        let plan = rx.begin_file(false, move |p: &str| names.iter().any(|n| n == p)).unwrap();
        assert!(!disk.contains_key(&plan.partial));
        assert!(plan.partial.ends_with(".frostwallpart"));
        disk.insert(plan.partial.clone(), Vec::new());
        let chunk = encode(&Message::Chunk(encrypt_chunk(&keys.file_key, content).unwrap())).unwrap();
        match rx.on_frame(&keys, &chunk).unwrap() {
            FileStep::Write(bytes, _) => disk.get_mut(&plan.partial).unwrap().extend(bytes),
            FileStep::Verified => panic!("a chunk does not end a file"),
        }
        let end = Message::FileEnd(*blake3::hash(content).as_bytes());
        assert_eq!(rx.on_frame(&keys, &seal_control(&keys, &end).unwrap()), Ok(FileStep::Verified));
        let done = disk.remove(&plan.partial).unwrap();
        assert!(disk.insert(plan.dest, done).is_none());
    }
    rx.done(&keys).unwrap();
    assert_eq!(disk["/dl/a.frostwallpart"], b"x");
    assert_eq!(disk["/dl/a"], b"y");
    assert_eq!(disk.len(), 2);
}

#[test]
fn recv_refuses_where_no_name_is_free() {
    let keys = SessionKeys::derive(b"k");
    let frame = seal_control(&keys, &Message::Manifest(vec![entry("a", 1)])).unwrap();
    let mut rx = Receiver::open(&keys, &frame, "/dl", false).unwrap();
    assert_eq!(rx.begin_file(false, |_: &str| true), Err(TransferError::NoFreeName));
    let partials = |p: &str| p.ends_with(".frostwallpart");
    assert_eq!(rx.begin_file(false, partials), Err(TransferError::NoFreeName));
    let plan = rx.begin_file(false, |p: &str| p == "/dl/a.frostwallpart").unwrap();
    assert_eq!((plan.dest.as_str(), plan.partial.as_str()), ("/dl/a", "/dl/a (1).frostwallpart"));
}

#[test]
fn a_sender_that_cancels_tells_the_peer() {
    let keys = SessionKeys::derive(b"k");
    let sealed = |m: Message| seal_control(&keys, &m).unwrap();
    let fresh = || {
        let mut tx = Sender::new(vec![item("a", "a")], false).unwrap();
        tx.add_size(1).unwrap();
        tx
    };
    let mut tx = fresh();
    assert_eq!(tx.cancel(&keys), None);
    assert_eq!(tx.phase(), SendPhase::Cancelled);

    let mut tx = fresh();
    let manifest = tx.manifest(&keys).unwrap();
    tx.on_reply(&keys, &sealed(Message::Accept)).unwrap();
    tx.begin_file(false).unwrap();
    let cancel = tx.cancel(&keys).unwrap();
    assert_eq!(open_control(&keys, &cancel).unwrap(), Message::Cancel);
    assert_eq!(tx.phase(), SendPhase::Cancelled);
    let mut rx = Receiver::open(&keys, &manifest, "/dl", false).unwrap();
    rx.begin_file(false, |_: &str| false).unwrap();
    assert_eq!(rx.on_frame(&keys, &cancel), Err(TransferError::CancelledByPeer));
}

#[test]
fn the_order_of_a_manifest_does_not_matter() {
    let es = [entry("a", 1), entry("b", 20), entry("c", 300)];
    let turned = [entry("c", 300), entry("a", 1), entry("b", 20)];
    assert_eq!(validate_manifest(&es, false), Ok(321));
    assert_eq!(validate_manifest(&turned, false), Ok(321));
    let bad = [entry("a", 1), entry("/b", 1), entry("a", 2)];
    let turned = [entry("a", 2), entry("a", 1), entry("/b", 1)];
    assert!(validate_manifest(&bad, false).is_err());
    assert!(validate_manifest(&turned, false).is_err());
}
