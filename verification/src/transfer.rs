//! Transfer engine: what is sent and accepted while files and folders travel
//! as encrypted chunks, each file verified with Blake3.
//!
//! Half-duplex protocol: the sender sends `Manifest`, then for each file
//! `Chunk*` and `FileEnd(hash)`, then waits for the receiver's `Done`. The
//! receiver verifies every hash before replying.
//!
//! Every field of the peer's manifest is untrusted. The receiver confines each
//! path to the download directory, caps the file count and the total size,
//! bounds the bytes written per file to the declared size, and writes to a
//! temporary file that takes its final name only once the hash verifies.
use crate::crypto;
use crate::crypto::{CryptoError, SessionKeys};
use crate::path;
use crate::protocol;
use crate::protocol::{ManifestEntry, Message, ProtocolError};
use crate::text;
use vstd::hash_set::StringHashSet;
use vstd::prelude::*;
use vstd::utf8::*;

verus! {

/// Hard cap on the number of files in one manifest.
pub const MAX_FILES: usize = 50_000;

/// Hard cap on total declared transfer size (1 TiB).
pub const MAX_TOTAL: u64 = 1_099_511_627_776;

/// Most bytes in a single relative path of a manifest.
pub const MAX_REL_PATH_LEN: usize = 4096;

/// What makes a manifest path unsafe.
#[derive(Debug, Clone, PartialEq, Eq)]
pub enum PathError {
    EmptyOrNul,
    TooLong,
    Backslash,
    UnsafeUnicode,
    /// This path is absolute.
    Absolute(String),
    /// This path has a component that is no name.
    UnsafeComponent(String),
}

/// What makes a manifest path unsafe, by contents.
pub ghost enum PathErrorView {
    EmptyOrNul,
    TooLong,
    Backslash,
    UnsafeUnicode,
    Absolute(Seq<char>),
    UnsafeComponent(Seq<char>),
}

impl View for PathError {
    type V = PathErrorView;

    open spec fn view(&self) -> PathErrorView {
        match self {
            PathError::EmptyOrNul => PathErrorView::EmptyOrNul,
            PathError::TooLong => PathErrorView::TooLong,
            PathError::Backslash => PathErrorView::Backslash,
            PathError::UnsafeUnicode => PathErrorView::UnsafeUnicode,
            PathError::Absolute(p) => PathErrorView::Absolute(p@),
            PathError::UnsafeComponent(p) => PathErrorView::UnsafeComponent(p@),
        }
    }
}

/// Why a transfer ended early.
#[derive(Debug, Clone, PartialEq, Eq)]
pub enum TransferError {
    /// The user cancelled.
    Cancelled,
    /// The peer cancelled.
    CancelledByPeer,
    /// The peer's user declined.
    RejectedByPeer,
    /// A frame could not be written or read.
    Protocol(ProtocolError),
    /// A chunk could not be sealed or opened.
    Crypto(CryptoError),
    /// This came in the clear in place of a control message.
    ExpectedEncrypted(Message),
    /// This came in place of a manifest.
    ExpectedManifest(Message),
    /// This came in place of an answer to a manifest.
    ExpectedAccept(Message),
    /// This came in place of the last word.
    ExpectedDone(Message),
    /// This came in the middle of a file.
    UnexpectedDuringFile(Message),
    /// More files to send than a manifest may list.
    TooManyFiles,
    /// The sizes of the files to send add up to more than a 64-bit number.
    TotalOverflow,
    EmptyManifest,
    ManifestTooManyFiles,
    DuplicatePath,
    Path(PathError),
    ManifestOverflow,
    ManifestTooLarge,
    /// The peer sent more bytes of a file than it declared.
    TooManyBytes { sent: u64, declared: u64 },
    FileOverflow,
    SizeMismatch { declared: u64, received: u64 },
    IntegrityFailed,
    /// A file's name and all its numbered names are taken.
    NoFreeName,
    /// This symlink is to be sent.
    SymlinkRoot(String),
    InvalidFileName,
    OutsideRoot,
    TooDeep,
}

/// Why a transfer ended early, by contents.
pub ghost enum ErrorView {
    Cancelled,
    CancelledByPeer,
    RejectedByPeer,
    Protocol(protocol::ProtocolErrorView),
    Crypto(CryptoError),
    ExpectedEncrypted(protocol::MessageView),
    ExpectedManifest(protocol::MessageView),
    ExpectedAccept(protocol::MessageView),
    ExpectedDone(protocol::MessageView),
    UnexpectedDuringFile(protocol::MessageView),
    TooManyFiles,
    TotalOverflow,
    EmptyManifest,
    ManifestTooManyFiles,
    DuplicatePath,
    Path(PathErrorView),
    ManifestOverflow,
    ManifestTooLarge,
    TooManyBytes { sent: u64, declared: u64 },
    FileOverflow,
    SizeMismatch { declared: u64, received: u64 },
    IntegrityFailed,
    NoFreeName,
    SymlinkRoot(Seq<char>),
    InvalidFileName,
    OutsideRoot,
    TooDeep,
}

impl View for TransferError {
    type V = ErrorView;

    open spec fn view(&self) -> ErrorView {
        match self {
            TransferError::Cancelled => ErrorView::Cancelled,
            TransferError::CancelledByPeer => ErrorView::CancelledByPeer,
            TransferError::RejectedByPeer => ErrorView::RejectedByPeer,
            TransferError::Protocol(e) => ErrorView::Protocol(e@),
            TransferError::Crypto(e) => ErrorView::Crypto(*e),
            TransferError::ExpectedEncrypted(m) => ErrorView::ExpectedEncrypted(m@),
            TransferError::ExpectedManifest(m) => ErrorView::ExpectedManifest(m@),
            TransferError::ExpectedAccept(m) => ErrorView::ExpectedAccept(m@),
            TransferError::ExpectedDone(m) => ErrorView::ExpectedDone(m@),
            TransferError::UnexpectedDuringFile(m) => ErrorView::UnexpectedDuringFile(m@),
            TransferError::TooManyFiles => ErrorView::TooManyFiles,
            TransferError::TotalOverflow => ErrorView::TotalOverflow,
            TransferError::EmptyManifest => ErrorView::EmptyManifest,
            TransferError::ManifestTooManyFiles => ErrorView::ManifestTooManyFiles,
            TransferError::DuplicatePath => ErrorView::DuplicatePath,
            TransferError::Path(e) => ErrorView::Path(e@),
            TransferError::ManifestOverflow => ErrorView::ManifestOverflow,
            TransferError::ManifestTooLarge => ErrorView::ManifestTooLarge,
            TransferError::TooManyBytes { sent, declared } => ErrorView::TooManyBytes {
                sent: *sent,
                declared: *declared,
            },
            TransferError::FileOverflow => ErrorView::FileOverflow,
            TransferError::SizeMismatch { declared, received } => ErrorView::SizeMismatch {
                declared: *declared,
                received: *received,
            },
            TransferError::IntegrityFailed => ErrorView::IntegrityFailed,
            TransferError::NoFreeName => ErrorView::NoFreeName,
            TransferError::SymlinkRoot(p) => ErrorView::SymlinkRoot(p@),
            TransferError::InvalidFileName => ErrorView::InvalidFileName,
            TransferError::OutsideRoot => ErrorView::OutsideRoot,
            TransferError::TooDeep => ErrorView::TooDeep,
        }
    }
}

/// Whether the user or the peer cancelled the transfer.
pub fn is_cancelled(err: &TransferError) -> (yes: bool)
    ensures
        yes == (*err is Cancelled || *err is CancelledByPeer),
{
    matches!(err, TransferError::Cancelled | TransferError::CancelledByPeer)
}

/// Fails once the user has cancelled.
pub fn check_cancel(cancelled: bool) -> (r: Result<(), TransferError>)
    ensures
        r == (if cancelled {
            Err::<(), TransferError>(TransferError::Cancelled)
        } else {
            Ok::<(), TransferError>(())
        }),
{
    if cancelled {
        Err(TransferError::Cancelled)
    } else {
        Ok(())
    }
}

/// How far a transfer has come, in bytes.
#[derive(Debug, Clone, Copy, PartialEq, Eq, Structural)]
pub struct Progress {
    pub transferred: u64,
    pub total: u64,
}

/// One file to send: read from `source`, announce on the wire as `rel_path`.
#[derive(Debug, Clone, PartialEq, Eq)]
pub struct SendItem {
    pub source: String,
    pub rel_path: String,
}

impl SendItem {
    /// Where the file is read from and what it is announced as.
    pub open spec fn view(&self) -> (Seq<char>, Seq<char>) {
        (self.source@, self.rel_path@)
    }
}

/// The sources and announced paths of items.
pub open spec fn items_view(items: Seq<SendItem>) -> Seq<(Seq<char>, Seq<char>)> {
    items.map_values(|i: SendItem| i.view())
}

/// The message that a control frame holds under a control key.
pub open spec fn opened(key: Seq<u8>, frame: Seq<u8>) -> Result<
    protocol::MessageView,
    ErrorView,
> {
    match protocol::parse_frame(frame) {
        Ok(protocol::MessageView::Encrypted(ct)) => match crypto::unpacked(key, ct) {
            Ok(inner) => match protocol::parse_frame(inner) {
                Ok(m) => Ok(m),
                Err(e) => Err(ErrorView::Protocol(e)),
            },
            Err(e) => Err(ErrorView::Crypto(e)),
        },
        Ok(m) => Err(ErrorView::ExpectedEncrypted(m)),
        Err(e) => Err(ErrorView::Protocol(e)),
    }
}

/// How many bytes sealing adds to a frame.
pub open spec fn sealed_len(m: protocol::MessageView) -> nat {
    protocol::frame_of(m).len() + crypto::NONCE_LEN as nat + crypto::TAG_LEN as nat
}

/// Whether a control message fits into a frame once it is sealed.
pub open spec fn seal_fits(m: protocol::MessageView) -> bool {
    1 + crate::wire::varint(sealed_len(m)).len() + sealed_len(m) <= protocol::DECODE_LIMIT
}

/// Whether `frame` is the control message `m` sealed under `key`, which opens to
/// the message's frame again.
pub open spec fn is_sealed(key: Seq<u8>, m: protocol::MessageView, frame: Seq<u8>) -> bool {
    exists|ct: Seq<u8>|
        #[trigger] crypto::seals(key, protocol::frame_of(m), ct) && crypto::unpacked(key, ct)
            == Ok::<Seq<u8>, CryptoError>(protocol::frame_of(m)) && frame == protocol::frame_of(
            protocol::MessageView::Encrypted(ct),
        )
}

/// Every answer of a peer, and the end of a file, can be sealed and sent.
pub proof fn law_answers_fit(m: protocol::MessageView)
    requires
        m is Done || m is Accept || m is Reject || m is Cancel || (m matches
            protocol::MessageView::FileEnd(h) && h.len() == 32),
    ensures
        seal_fits(m),
{
    crate::wire::lemma_varint_round_trip(protocol::tag_of(m) as nat, Seq::empty());
    crate::wire::lemma_varint_round_trip(sealed_len(m), Seq::empty());
}

/// Wrap a control message (manifest, accept, done, …) for the wire, under a
/// fresh nonce. What comes out opens to the message again.
pub fn seal_control(keys: &SessionKeys, msg: &Message) -> (r: Result<Vec<u8>, TransferError>)
    ensures
        match r {
            Ok(frame) => seal_fits(msg@) && is_sealed(keys.control_key@, msg@, frame@) && opened(
                keys.control_key@,
                frame@,
            ) == Ok::<protocol::MessageView, ErrorView>(msg@),
            Err(e) => !seal_fits(msg@) && e == TransferError::Protocol(ProtocolError::Encode),
        },
{
    let inner = match protocol::encode(msg) {
        Ok(inner) => inner,
        Err(e) => return Err(TransferError::Protocol(e)),
    };
    let ct = match crypto::encrypt_chunk(&keys.control_key, inner.as_slice()) {
        Ok(ct) => ct,
        Err(e) => return Err(TransferError::Crypto(e)),
    };
    let sealed = Message::Encrypted(ct);
    assert(protocol::body_of(sealed@).len() == 1 + crate::wire::varint(sealed_len(msg@)).len()
        + sealed_len(msg@));
    match protocol::encode(&sealed) {
        Ok(frame) => {
            proof {
                protocol::law_round_trip(msg@);
                protocol::law_round_trip(sealed@);
            }
            Ok(frame)
        },
        Err(e) => Err(TransferError::Protocol(e)),
    }
}

/// Unwrap a control message received on the wire.
pub fn open_control(keys: &SessionKeys, frame: &[u8]) -> (r: Result<Message, TransferError>)
    ensures
        match r {
            Ok(m) => opened(keys.control_key@, frame@) == Ok::<
                protocol::MessageView,
                ErrorView,
            >(m@),
            Err(e) => opened(keys.control_key@, frame@) == Err::<
                protocol::MessageView,
                ErrorView,
            >(e@),
        },
{
    match protocol::decode(frame) {
        Ok(Message::Encrypted(ct)) => match crypto::decrypt_chunk(
            &keys.control_key,
            ct.as_slice(),
        ) {
            Ok(inner) => match protocol::decode(inner.as_slice()) {
                Ok(m) => Ok(m),
                Err(e) => Err(TransferError::Protocol(e)),
            },
            Err(e) => Err(TransferError::Crypto(e)),
        },
        Ok(m) => Err(TransferError::ExpectedEncrypted(m)),
        Err(e) => Err(TransferError::Protocol(e)),
    }
}

/// Whether `c` is a bidirectional override, zero width, a byte order mark or a
/// control character.
pub open spec fn is_dangerous(c: char) -> bool {
    let u = c as u32;
    ||| 0x200b <= u <= 0x200f
    ||| 0x202a <= u <= 0x202e
    ||| 0x2066 <= u <= 0x2069
    ||| u == 0xfeff
    ||| u <= 0x1f
    ||| 0x7f <= u <= 0x9f
}

/// Reject bidirectional overrides, zero width and other control characters in
/// paths.
pub fn path_has_dangerous_unicode(s: &str) -> (found: bool)
    ensures
        found == exists|i: int| 0 <= i < s@.len() && is_dangerous(#[trigger] s@[i]),
{
    let cs = text::chars_of(s);
    for i in 0..cs.len()
        invariant
            cs@ == s@,
            forall|k: int| 0 <= k < i ==> !is_dangerous(#[trigger] s@[k]),
    {
        let u: u32 = cs[i] as u32;
        if (0x200b <= u && u <= 0x200f) || (0x202a <= u && u <= 0x202e) || (0x2066 <= u && u
            <= 0x2069) || u == 0xfeff || u <= 0x1f || (0x7f <= u && u <= 0x9f) {
            assert(is_dangerous(s@[i as int]));
            return true;
        }
    }
    false
}

fn has_char(s: &str, c: char) -> (found: bool)
    ensures
        found == s@.contains(c),
{
    let cs = text::chars_of(s);
    for i in 0..cs.len()
        invariant
            cs@ == s@,
            forall|k: int| 0 <= k < i ==> #[trigger] s@[k] != c,
    {
        if cs[i] == c {
            assert(s@[i as int] == c);
            return true;
        }
    }
    false
}

/// What makes a manifest path unsafe, if anything does. On Windows a root alone
/// is one of its components; with a drive in front, or a share or a device in its
/// place, the path is absolute.
pub open spec fn path_problem(rel: Seq<char>, windows: bool) -> Option<PathErrorView> {
    if rel.len() == 0 || rel.contains('\0') {
        Some(PathErrorView::EmptyOrNul)
    } else if encode_utf8(rel).len() > MAX_REL_PATH_LEN {
        Some(PathErrorView::TooLong)
    } else if rel.contains('\\') {
        Some(PathErrorView::Backslash)
    } else if exists|i: int| 0 <= i < rel.len() && is_dangerous(#[trigger] rel[i]) {
        Some(PathErrorView::UnsafeUnicode)
    } else if path::is_complete(rel, windows) {
        Some(PathErrorView::Absolute(rel))
    } else if path::is_anchored(rel, windows) || exists|k: int|
        0 <= k < path::pieces(rel).len() && !path::is_name(#[trigger] path::pieces(rel)[k]) {
        Some(PathErrorView::UnsafeComponent(rel))
    } else {
        None
    }
}

/// A safe path below a directory lies in that directory.
pub proof fn law_confined_path_lies_in_dir(dest_dir: Seq<char>, rel: Seq<char>, windows: bool)
    requires
        path_problem(rel, windows) is None,
    ensures
        path::lies_in(dest_dir, path::joined(dest_dir, rel)),
        path::segments(path::joined(dest_dir, rel)) == path::segments(dest_dir) + path::segments(
            rel,
        ),
{
    let p = path::joined(dest_dir, rel);
    path::lemma_relative_has_segment(rel);
    path::lemma_segments_are_pieces(rel);
    assert forall|j: int| 0 <= j < path::segments(rel).len() implies path::is_name(
        #[trigger] path::segments(rel)[j],
    ) by {
        let k = choose|k: int|
            0 <= k < path::pieces(rel).len() && path::pieces(rel)[k] == path::segments(rel)[j];
        assert(path::is_name(path::pieces(rel)[k]));
    }
    assert(path::is_name(path::segments(rel)[0]));
    path::lemma_joined_segments(dest_dir, rel);
    let front = path::segments(dest_dir);
    assert(front =~= path::segments(p).subrange(0, front.len() as int));
    assert forall|k: int| front.len() <= k < path::segments(p).len() implies #[trigger] path::segments(
        p,
    )[k] != seq!['.', '.'] by {
        assert(path::is_name(path::segments(rel)[k - front.len()]));
    }
    if dest_dir.len() == 0 {
        assert(p =~= rel);
    }
}

/// Confine an untrusted relative path to `dest_dir`, returning the safe
/// destination. Rejects absolute paths, `..` and `.` components, NUL characters,
/// backslashes, dangerous Unicode, empty paths and on Windows drives, so the
/// result always lies in `dest_dir`.
pub fn confine_path(dest_dir: &str, rel: &str, windows: bool) -> (r: Result<String, PathError>)
    ensures
        match r {
            Ok(p) => path_problem(rel@, windows) is None && p@ == path::joined(dest_dir@, rel@)
                && path::lies_in(dest_dir@, p@),
            Err(e) => path_problem(rel@, windows) == Some(e@),
        },
{
    let nul = has_char(rel, '\0');
    if rel.is_empty() || nul {
        return Err(PathError::EmptyOrNul);
    }
    if rel.as_bytes().len() > MAX_REL_PATH_LEN {
        return Err(PathError::TooLong);
    }
    if has_char(rel, '\\') {
        return Err(PathError::Backslash);
    }
    if path_has_dangerous_unicode(rel) {
        return Err(PathError::UnsafeUnicode);
    }
    let (complete, anchored) = path::anchor(rel, windows);
    if complete {
        return Err(PathError::Absolute(rel.to_owned()));
    }
    if anchored {
        return Err(PathError::UnsafeComponent(rel.to_owned()));
    }
    let pieces = path::piece_texts(rel);
    assert(path::texts(pieces@).len() == pieces@.len());
    for i in 0..pieces.len()
        invariant
            path::texts(pieces@) == path::pieces(rel@),
            pieces@.len() == path::pieces(rel@).len(),
            forall|k: int| 0 <= k < i ==> path::is_name(#[trigger] path::pieces(rel@)[k]),
            rel@.len() > 0,
            !rel@.contains('\0'),
            encode_utf8(rel@).len() <= MAX_REL_PATH_LEN,
            !rel@.contains('\\'),
            !(exists|k: int| 0 <= k < rel@.len() && is_dangerous(#[trigger] rel@[k])),
            !path::is_complete(rel@, windows),
            !path::is_anchored(rel@, windows),
    {
        assert(path::pieces(rel@)[i as int] == pieces@[i as int]@);
        if !path::names_something(pieces[i].as_str()) {
            return Err(PathError::UnsafeComponent(rel.to_owned()));
        }
    }
    proof {
        law_confined_path_lies_in_dir(dest_dir@, rel@, windows);
    }
    Ok(path::join(dest_dir, rel))
}

/// Whether entry `n` repeats the path of an earlier entry.
pub open spec fn repeats(es: Seq<(Seq<char>, u64)>, n: int) -> bool {
    exists|k: int| 0 <= k < n && (#[trigger] es[k]).0 == es[n].0
}

/// The sum of the sizes of the first `n` entries, or the first problem among
/// them.
pub open spec fn checked_entries(
    es: Seq<(Seq<char>, u64)>,
    n: nat,
    windows: bool,
) -> Result<u64, ErrorView>
    decreases n,
{
    if n == 0 {
        Ok(0)
    } else {
        match checked_entries(es, (n - 1) as nat, windows) {
            Err(e) => Err(e),
            Ok(total) => if repeats(es, n - 1) {
                Err(ErrorView::DuplicatePath)
            } else {
                match path_problem(es[n - 1].0, windows) {
                    Some(e) => Err(ErrorView::Path(e)),
                    None => if total + es[n - 1].1 > u64::MAX {
                        Err(ErrorView::ManifestOverflow)
                    } else {
                        Ok((total + es[n - 1].1) as u64)
                    },
                }
            },
        }
    }
}

/// What an untrusted manifest amounts to: its total size, or the first problem
/// with it.
pub open spec fn checked_manifest(es: Seq<(Seq<char>, u64)>, windows: bool) -> Result<
    u64,
    ErrorView,
> {
    if es.len() == 0 {
        Err(ErrorView::EmptyManifest)
    } else if es.len() > MAX_FILES {
        Err(ErrorView::ManifestTooManyFiles)
    } else {
        match checked_entries(es, es.len(), windows) {
            Ok(total) if total > MAX_TOTAL => Err(ErrorView::ManifestTooLarge),
            r => r,
        }
    }
}

/// The sum of the sizes of the first `n` entries.
pub open spec fn sum_sizes(es: Seq<(Seq<char>, u64)>, n: nat) -> nat
    decreases n,
{
    if n == 0 {
        0
    } else {
        sum_sizes(es, (n - 1) as nat) + es[n - 1].1 as nat
    }
}

/// A longer part of a manifest sums to no less.
pub proof fn lemma_sum_sizes_grow(es: Seq<(Seq<char>, u64)>, m: nat, n: nat)
    requires
        m <= n,
    ensures
        sum_sizes(es, m) <= sum_sizes(es, n),
    decreases n,
{
    if m < n {
        lemma_sum_sizes_grow(es, m, (n - 1) as nat);
    }
}

/// A manifest passes exactly where it lists at least one file and at most
/// `MAX_FILES`, no path twice, only safe paths, and at most `MAX_TOTAL` bytes;
/// its total is then the sum of the declared sizes.
pub proof fn law_manifest_passes_iff_safe(es: Seq<(Seq<char>, u64)>, windows: bool)
    ensures
        checked_manifest(es, windows) is Ok <==> 0 < es.len() <= MAX_FILES && (forall|i: int, j: int|
            0 <= i < j < es.len() ==> (#[trigger] es[i]).0 != (#[trigger] es[j]).0) && (forall|i: int|
            0 <= i < es.len() ==> path_problem((#[trigger] es[i]).0, windows) is None) && sum_sizes(
            es,
            es.len(),
        ) <= MAX_TOTAL,
        checked_manifest(es, windows) matches Ok(total) ==> total == sum_sizes(es, es.len()),
{
    lemma_checked_entries(es, es.len(), windows);
    if checked_manifest(es, windows) is Ok {
        assert forall|i: int, j: int| 0 <= i < j < es.len() implies (#[trigger] es[i]).0
            != (#[trigger] es[j]).0 by {
            assert(!repeats(es, j));
        }
    } else if 0 < es.len() <= MAX_FILES && (forall|i: int, j: int|
        0 <= i < j < es.len() ==> (#[trigger] es[i]).0 != (#[trigger] es[j]).0) {
        assert forall|j: int| 0 <= j < es.len() implies !#[trigger] repeats(es, j) by {}
    }
}

proof fn lemma_checked_entries(es: Seq<(Seq<char>, u64)>, n: nat, windows: bool)
    requires
        n <= es.len(),
    ensures
        checked_entries(es, n, windows) is Ok <==> (forall|j: int| 0 <= j < n ==> !#[trigger] repeats(es, j))
            && (forall|i: int| 0 <= i < n ==> path_problem((#[trigger] es[i]).0, windows) is None)
            && sum_sizes(es, n) <= u64::MAX,
        checked_entries(es, n, windows) matches Ok(total) ==> total == sum_sizes(es, n),
    decreases n,
{
    if n > 0 {
        lemma_checked_entries(es, (n - 1) as nat, windows);
        if checked_entries(es, n, windows) is Ok {
            assert(!repeats(es, n - 1));
        } else if (forall|j: int| 0 <= j < n ==> !#[trigger] repeats(es, j)) && (forall|i: int|
            0 <= i < n ==> path_problem((#[trigger] es[i]).0, windows) is None) {
            assert(!repeats(es, n - 1));
            assert(path_problem(es[n - 1].0, windows) is None);
        }
    }
}

proof fn lemma_sum_without(es: Seq<(Seq<char>, u64)>, i: int, n: nat)
    requires
        0 <= i < n <= es.len(),
    ensures
        sum_sizes(es, n) == sum_sizes(es.remove(i), (n - 1) as nat) + es[i].1,
    decreases n,
{
    if i == n - 1 {
        lemma_same_front(es, es.remove(i), i as nat);
    } else {
        lemma_sum_without(es, i, (n - 1) as nat);
    }
}

proof fn lemma_same_front(a: Seq<(Seq<char>, u64)>, b: Seq<(Seq<char>, u64)>, n: nat)
    requires
        n <= a.len(),
        n <= b.len(),
        forall|k: int| 0 <= k < n ==> a[k] == b[k],
    ensures
        sum_sizes(a, n) == sum_sizes(b, n),
    decreases n,
{
    if n > 0 {
        lemma_same_front(a, b, (n - 1) as nat);
    }
}

/// Whether no path occurs twice.
pub open spec fn no_path_twice(es: Seq<(Seq<char>, u64)>) -> bool {
    forall|i: int, j: int|
        0 <= i < j < es.len() ==> (#[trigger] es[i]).0 != (#[trigger] es[j]).0
}

proof fn lemma_reordered(a: Seq<(Seq<char>, u64)>, b: Seq<(Seq<char>, u64)>)
    requires
        a.to_multiset() == b.to_multiset(),
    ensures
        a.len() == b.len(),
        sum_sizes(a, a.len()) == sum_sizes(b, b.len()),
        no_path_twice(a) ==> no_path_twice(b),
    decreases b.len(),
{
    broadcast use vstd::seq_lib::group_to_multiset_ensures;

    assert(a.to_multiset().len() == a.len());
    assert(b.to_multiset().len() == b.len());
    if b.len() > 0 {
        let last = b.len() - 1;
        let front = b.drop_last();
        assert(b.to_multiset().contains(b[last]));
        assert(a.contains(b[last]));
        let i = choose|i: int| 0 <= i < a.len() && a[i] == b[last];
        let rest = a.remove(i);
        assert(front =~= b.remove(last));
        assert(rest.to_multiset() == front.to_multiset());
        lemma_reordered(rest, front);
        lemma_sum_without(a, i, a.len());
        lemma_same_front(b, front, front.len());
        if no_path_twice(a) {
            assert(no_path_twice(rest)) by {
                assert forall|j: int, k: int| 0 <= j < k < rest.len() implies (
                #[trigger] rest[j]).0 != (#[trigger] rest[k]).0 by {
                    assert(rest[j] == a[if j < i { j } else { j + 1 }]);
                    assert(rest[k] == a[if k < i { k } else { k + 1 }]);
                }
            }
            assert forall|j: int, k: int| 0 <= j < k < b.len() implies (#[trigger] b[j]).0
                != (#[trigger] b[k]).0 by {
                assert(b[j] == front[j]);
                if k == last {
                    assert(front.to_multiset().contains(front[j]));
                    assert(rest.to_multiset().count(front[j]) > 0);
                    assert(rest.contains(front[j]));
                    let m = choose|m: int| 0 <= m < rest.len() && rest[m] == front[j];
                    assert(rest[m] == a[if m < i { m } else { m + 1 }]);
                } else {
                    assert(b[k] == front[k]);
                }
            }
        }
    }
}

/// The order of a manifest does not matter: one with the same entries in another
/// order passes exactly where this one does, and with the same total.
pub proof fn law_manifest_order_does_not_matter(
    a: Seq<(Seq<char>, u64)>,
    b: Seq<(Seq<char>, u64)>,
    windows: bool,
)
    requires
        a.to_multiset() == b.to_multiset(),
    ensures
        checked_manifest(a, windows) is Ok <==> checked_manifest(b, windows) is Ok,
        checked_manifest(a, windows) is Ok ==> checked_manifest(a, windows) == checked_manifest(
            b,
            windows,
        ),
{
    broadcast use vstd::seq_lib::group_to_multiset_ensures;

    law_manifest_passes_iff_safe(a, windows);
    law_manifest_passes_iff_safe(b, windows);
    lemma_reordered(a, b);
    lemma_reordered(b, a);
    if checked_manifest(a, windows) is Ok {
        assert forall|i: int| 0 <= i < b.len() implies path_problem(
            (#[trigger] b[i]).0,
            windows,
        ) is None by {
            assert(b.to_multiset().contains(b[i]));
            assert(a.contains(b[i]));
        }
    }
    if checked_manifest(b, windows) is Ok {
        assert forall|i: int| 0 <= i < a.len() implies path_problem(
            (#[trigger] a[i]).0,
            windows,
        ) is None by {
            assert(a.to_multiset().contains(a[i]));
            assert(b.contains(a[i]));
        }
    }
}

/// Validate an untrusted manifest: file count, total size, and per-entry path
/// safety. Returns the summed total.
pub fn validate_manifest(entries: &[ManifestEntry], windows: bool) -> (r: Result<
    u64,
    TransferError,
>)
    ensures
        match r {
            Ok(total) => checked_manifest(protocol::entries_view(entries@), windows) == Ok::<
                u64,
                ErrorView,
            >(total),
            Err(e) => checked_manifest(protocol::entries_view(entries@), windows) == Err::<
                u64,
                ErrorView,
            >(e@),
        },
{
    let ghost es = protocol::entries_view(entries@);
    if entries.len() == 0 {
        return Err(TransferError::EmptyManifest);
    }
    if entries.len() > MAX_FILES {
        return Err(TransferError::ManifestTooManyFiles);
    }
    let mut seen = StringHashSet::new();
    let mut total: u64 = 0;
    for i in 0..entries.len()
        invariant
            es == protocol::entries_view(entries@),
            0 < entries@.len() <= MAX_FILES,
            checked_entries(es, i as nat, windows) == Ok::<u64, ErrorView>(total),
            forall|p: Seq<char>| #[trigger]
                seen@.contains(p) <==> exists|k: int| 0 <= k < i && (#[trigger] es[k]).0 == p,
    {
        proof {
            if checked_entries(es, i as nat + 1, windows) is Err {
                lemma_first_problem(es, i as nat + 1, windows);
            }
            assert(es[i as int].0 == entries@[i as int].rel_path@);
        }
        let fresh = seen.insert(entries[i].rel_path.clone());
        if !fresh {
            return Err(TransferError::DuplicatePath);
        }
        assert(!repeats(es, i as int));
        match confine_path(".", entries[i].rel_path.as_str(), windows) {
            Ok(_) => {},
            Err(e) => return Err(TransferError::Path(e)),
        }
        total = match total.checked_add(entries[i].size) {
            Some(t) => t,
            None => return Err(TransferError::ManifestOverflow),
        };
    }
    if total > MAX_TOTAL {
        return Err(TransferError::ManifestTooLarge);
    }
    Ok(total)
}

proof fn lemma_first_problem(es: Seq<(Seq<char>, u64)>, n: nat, windows: bool)
    requires
        n <= es.len(),
        checked_entries(es, n, windows) is Err,
    ensures
        checked_entries(es, es.len(), windows) == checked_entries(es, n, windows),
    decreases es.len() - n,
{
    if n < es.len() {
        lemma_first_problem(es, n + 1, windows);
    }
}

/// How many numbered names are tried when a destination is taken.
pub const MAX_COPIES: u64 = 9999;

/// The file name's stem, with `file` standing in where there is no name.
pub open spec fn dest_stem(dest: Seq<char>) -> Seq<char> {
    match path::file_name_of(dest) {
        Some(name) => path::stem_of(name),
        None => "file"@,
    }
}

/// The file name's last `.` and what follows it.
pub open spec fn dest_suffix(dest: Seq<char>) -> Seq<char> {
    match path::file_name_of(dest) {
        Some(name) => path::suffix_of(name),
        None => Seq::empty(),
    }
}

/// A numbered name: `stem (n).ext`.
pub open spec fn numbered_name(dest: Seq<char>, n: nat) -> Seq<char> {
    dest_stem(dest) + seq![' ', '('] + text::decimal(n) + seq![')'] + dest_suffix(dest)
}

/// The destination's `n`-th numbered name, beside it.
pub open spec fn numbered(dest: Seq<char>, n: nat) -> Seq<char> {
    path::joined(path::parent_text(dest), numbered_name(dest, n))
}

/// Whether `taken` can answer `b` for a path.
pub open spec fn answers<F: Fn(&str) -> bool>(taken: F, p: Seq<char>, b: bool) -> bool {
    exists|s: &str| s@ == p && #[trigger] call_ensures(taken, (s,), b)
}

/// Whether `p` is the first free name among `dest` and its numbered names.
pub open spec fn picked<F: Fn(&str) -> bool>(dest: Seq<char>, taken: F, p: Seq<char>) -> bool {
    ||| p == dest && answers(taken, dest, false)
    ||| exists|n: nat|
        1 <= n <= MAX_COPIES && p == #[trigger] numbered(dest, n) && answers(taken, p, false)
            && answers(taken, dest, true) && forall|m: nat|
            1 <= m < n ==> answers(taken, #[trigger] numbered(dest, m), true)
}

/// Whether `dest` and all its numbered names are taken.
pub open spec fn all_taken<F: Fn(&str) -> bool>(dest: Seq<char>, taken: F) -> bool {
    answers(taken, dest, true) && forall|m: nat|
        1 <= m <= MAX_COPIES ==> answers(taken, #[trigger] numbered(dest, m), true)
}

/// Pick a non-colliding destination path: the first free name among `dest`,
/// `stem (1).ext`, `stem (2).ext`, … up to `MAX_COPIES`, as `taken` tells. Where
/// all of them are taken there is none, so that nothing is ever overwritten.
pub fn unique_dest_path<F: Fn(&str) -> bool>(dest: &str, taken: &F) -> (r: Result<
    String,
    TransferError,
>)
    requires
        forall|s: &str| #[trigger] call_requires(*taken, (s,)),
    ensures
        match r {
            Ok(p) => picked(dest@, *taken, p@) && answers(*taken, p@, false),
            Err(e) => all_taken(dest@, *taken) && e == TransferError::NoFreeName,
        },
{
    if !taken(dest) {
        assert(answers(*taken, dest@, false));
        return Ok(dest.to_owned());
    }
    assert(answers(*taken, dest@, true));
    let dir = path::parent(dest);
    let (stem, suffix) = match path::file_name(dest) {
        Some(name) => path::split_suffix(name.as_str()),
        None => ("file".to_owned(), String::new()),
    };
    for n in 1..MAX_COPIES + 1
        invariant
            forall|s: &str| #[trigger] call_requires(*taken, (s,)),
            dir@ == path::parent_text(dest@),
            stem@ == dest_stem(dest@),
            suffix@ == dest_suffix(dest@),
            answers(*taken, dest@, true),
            forall|m: nat| 1 <= m < n ==> answers(*taken, #[trigger] numbered(dest@, m), true),
    {
        let mut name = stem.clone();
        name.push(' ');
        name.push('(');
        let mut name = text::concat(name.as_str(), text::decimal_text(n).as_str());
        name.push(')');
        let name = text::concat(name.as_str(), suffix.as_str());
        assert(name@ =~= dest_stem(dest@) + seq![' ', '('] + text::decimal(n as nat) + seq![')']
            + dest_suffix(dest@));
        let candidate = path::join(dir.as_str(), name.as_str());
        if !taken(candidate.as_str()) {
            assert(answers(*taken, candidate@, false));
            assert(candidate@ == numbered(dest@, n as nat));
            return Ok(candidate);
        }
        assert(answers(*taken, numbered(dest@, n as nat), true));
    }
    Err(TransferError::NoFreeName)
}

/// A picked destination was free: what is there already keeps its name.
pub proof fn law_picked_destination_was_free<F: Fn(&str) -> bool>(
    dest: Seq<char>,
    taken: F,
    p: Seq<char>,
)
    requires
        picked(dest, taken, p),
    ensures
        answers(taken, p, false),
{
}

/// A numbered name lies where the destination lies, as long as the destination
/// is more than the directory.
pub proof fn law_numbered_name_lies_in_dir(dir: Seq<char>, dest: Seq<char>, n: nat)
    requires
        path::lies_in(dir, dest),
        path::segments(dest).len() > path::segments(dir).len(),
    ensures
        path::lies_in(dir, numbered(dest, n)),
        path::segments(numbered(dest, n)) == path::segments(dest).drop_last().push(
            numbered_name(dest, n),
        ),
{
    let open = seq![' ', '('];
    let digits = text::decimal(n);
    let close = seq![')'];
    let name = numbered_name(dest, n);
    assert(name =~= dest_stem(dest) + open + digits + close + dest_suffix(dest));
    text::lemma_decimal(n);
    path::lemma_segments_plain(dest);
    reveal_strlit("file");
    let last = path::segments(dest).last();
    path::lemma_before_last_dot(last);
    assert(!last.contains('/'));
    assert forall|i: int| 0 <= i < name.len() implies name[i] != '/' by {
        let a = dest_stem(dest).len() as int;
        let b = digits.len() as int;
        if i < a {
            assert(name[i] == dest_stem(dest)[i]);
            if path::file_name_of(dest) is Some {
                assert(dest_stem(dest)[i] == last[i]);
            }
        } else if i < a + 2 {
            assert(name[i] == open[i - a]);
        } else if i < a + 2 + b {
            assert(name[i] == digits[i - a - 2]);
            assert(text::is_digit(digits[i - a - 2]));
        } else if i < a + 3 + b {
            assert(name[i] == close[i - a - 2 - b]);
        } else {
            assert(name[i] == dest_suffix(dest)[i - a - 3 - b]);
            assert(name[i] == last[path::before_last_dot(last) + i - a - 3 - b]);
        }
    }
    assert(name.len() > 2);
    path::lemma_sibling_segments(dest, name);
    let p = numbered(dest, n);
    let d = path::segments(dir);
    assert forall|k: int| 0 <= k < d.len() implies d[k] == path::segments(p)[k] by {
        assert(d[k] == path::segments(dest)[k]);
    }
    assert(d =~= path::segments(p).subrange(0, d.len() as int));
    assert forall|k: int| d.len() <= k < path::segments(p).len() implies #[trigger] path::segments(
        p,
    )[k] != seq!['.', '.'] by {
        if k < path::segments(p).len() - 1 {
            assert(path::segments(p)[k] == path::segments(dest)[k]);
        }
    }
}

/// A numbered name is longer than the name it is made from.
pub proof fn lemma_numbered_name_is_longer(dest: Seq<char>, n: nat)
    requires
        path::file_name_of(dest) is Some,
    ensures
        numbered_name(dest, n).len() > path::segments(dest).last().len(),
{
    text::lemma_decimal(n);
    path::lemma_before_last_dot(path::segments(dest).last());
}

/// Suffix of the temporary file that a transfer writes before its final rename.
pub open spec fn partial_suffix() -> Seq<char> {
    ".frostwallpart"@
}

/// `path` with `suffix` at its end.
pub fn append_suffix(path: &str, suffix: &str) -> (p: String)
    ensures
        p@ == path@ + suffix@,
{
    text::concat(path, suffix)
}

/// The characters that make a path unsafe are the control characters, the
/// zero-width characters and direction marks, the direction overrides and
/// isolates, and the byte order mark. No other character of any script does.
pub proof fn law_dangerous_characters(c: char)
    ensures
        is_dangerous(c) <==> (c <= '\u{1f}' || '\u{7f}' <= c <= '\u{9f}' || '\u{200b}' <= c
            <= '\u{200f}' || '\u{202a}' <= c <= '\u{202e}' || '\u{2066}' <= c <= '\u{2069}' || c
            == '\u{feff}'),
{
}

/// Whether a character may stand in a manifest path.
pub open spec fn may_stand_in_a_path(c: char) -> bool {
    let u = c as u32;
    &&& u > 0x1f
    &&& u < 0x7f || u > 0x9f
    &&& u < 0x200b || u > 0x200f
    &&& u < 0x202a || u > 0x202e
    &&& u < 0x2066 || u > 0x2069
    &&& u != 0xfeff
    &&& c != '\\'
}

/// Off Windows a manifest path, written as texts with separators between them,
/// passes exactly where it is not empty, has at most 4096 bytes, does not begin at
/// the root, has only characters that may stand in it, and none of the texts is
/// `.` or `..`.
pub proof fn law_safe_paths(texts: Seq<Seq<char>>)
    requires
        texts.len() > 0,
        forall|k: int| 0 <= k < texts.len() ==> !(#[trigger] texts[k]).contains('/'),
    ensures
        ({
            let rel = path::slashed(texts);
            path_problem(rel, false) is None <==> {
                &&& rel.len() > 0
                &&& encode_utf8(rel).len() <= 4096
                &&& rel[0] != '/'
                &&& forall|i: int| 0 <= i < rel.len() ==> may_stand_in_a_path(#[trigger] rel[i])
                &&& forall|k: int|
                    0 <= k < texts.len() ==> #[trigger] texts[k] != seq!['.'] && texts[k] != seq![
                        '.',
                        '.',
                    ]
            }
        }),
{
    let rel = path::slashed(texts);
    path::law_written_texts_are_the_pieces(texts);
    assert(path::pieces(rel) == texts);
    assert((exists|k: int| 0 <= k < texts.len() && !path::is_name(#[trigger] texts[k])) <==> !(
    forall|k: int|
        0 <= k < texts.len() ==> #[trigger] texts[k] != seq!['.'] && texts[k] != seq!['.', '.']));
    lemma_standing_characters(rel);
}

proof fn lemma_standing_characters(rel: Seq<char>)
    ensures
        (forall|i: int| 0 <= i < rel.len() ==> may_stand_in_a_path(#[trigger] rel[i])) <==> {
            &&& !rel.contains('\0')
            &&& !rel.contains('\\')
            &&& !(exists|i: int| 0 <= i < rel.len() && is_dangerous(#[trigger] rel[i]))
        },
{
    if forall|i: int| 0 <= i < rel.len() ==> may_stand_in_a_path(#[trigger] rel[i]) {
        assert forall|i: int| 0 <= i < rel.len() implies #[trigger] rel[i] != '\0' && rel[i] != '\\'
            && !is_dangerous(rel[i]) by {
            assert(may_stand_in_a_path(rel[i]));
        }
    } else {
        let i = choose|i: int| 0 <= i < rel.len() && !may_stand_in_a_path(#[trigger] rel[i]);
        assert(rel[i] == '\\' || is_dangerous(rel[i]));
        if rel[i] == '\\' {
            assert(rel.contains('\\'));
        }
    }
}

/// On Windows a manifest path passes exactly where it passes elsewhere and does
/// not begin with a letter and a colon.
pub proof fn law_safe_paths_on_windows(rel: Seq<char>)
    ensures
        path_problem(rel, true) is None <==> path_problem(rel, false) is None && !(rel.len() >= 2
            && rel[1] == ':' && ('a' <= rel[0] <= 'z' || 'A' <= rel[0] <= 'Z')),
        path_problem(rel, false) is None && path_problem(rel, true) is Some ==> path_problem(
            rel,
            true,
        ) == Some(
            if rel.len() > 2 && rel[2] == '/' {
                PathErrorView::Absolute(rel)
            } else {
                PathErrorView::UnsafeComponent(rel)
            },
        ),
{
    if rel.len() >= 2 && path::is_separator(rel[0]) && rel[0] != '/' {
        assert(rel.contains('\\'));
    }
}

/// A manifest passes exactly where it lists between one and fifty thousand files,
/// no path twice, only safe paths, and at most one tebibyte.
pub proof fn law_manifest_limits(es: Seq<(Seq<char>, u64)>, windows: bool)
    ensures
        checked_manifest(es, windows) is Ok <==> {
            &&& 1 <= es.len() <= 50_000
            &&& forall|i: int, j: int|
                0 <= i < j < es.len() ==> (#[trigger] es[i]).0 != (#[trigger] es[j]).0
            &&& forall|i: int|
                0 <= i < es.len() ==> path_problem((#[trigger] es[i]).0, windows) is None
            &&& sum_sizes(es, es.len()) <= 1_099_511_627_776
        },
        checked_manifest(es, windows) matches Ok(total) ==> total == sum_sizes(es, es.len()),
        es.len() == 0 ==> checked_manifest(es, windows) == Err::<u64, ErrorView>(
            ErrorView::EmptyManifest,
        ),
        es.len() > 50_000 ==> checked_manifest(es, windows) == Err::<u64, ErrorView>(
            ErrorView::ManifestTooManyFiles,
        ),
{
    law_manifest_passes_iff_safe(es, windows);
}

/// Sizes add up: nothing is zero, one more file adds its size, and nothing else
/// counts.
pub proof fn law_sizes_add_up(es: Seq<(Seq<char>, u64)>, e: (Seq<char>, u64))
    ensures
        sum_sizes(es, 0) == 0,
        sum_sizes(es.push(e), es.len() + 1) == sum_sizes(es, es.len()) + e.1,
{
    lemma_same_front(es, es.push(e), es.len());
}

/// A numbered name is the destination's name with the number in brackets before
/// its extension, beside the destination.
pub proof fn law_numbered_names(dest: Seq<char>, name: Seq<char>, n: nat)
    requires
        path::file_name_of(dest) == Some(name),
    ensures
        numbered(dest, n) == path::joined(
            path::parent_text(dest),
            path::stem_of(name) + " ("@ + text::decimal(n) + ")"@ + path::suffix_of(name),
        ),
{
    reveal_strlit(" (");
    reveal_strlit(")");
    assert(" ("@ =~= seq![' ', '(']);
    assert(")"@ =~= seq![')']);
}

/// A destination that is free is taken as it is; one that is not is numbered, from
/// one up to 9999, and the first free number counts.
pub proof fn law_first_free_name<F: Fn(&str) -> bool>(
    dest: Seq<char>,
    taken: F,
    p: Seq<char>,
)
    requires
        picked(dest, taken, p),
    ensures
        answers(taken, p, false),
        p != dest ==> answers(taken, dest, true) && exists|n: nat|
            1 <= n <= 9999 && p == #[trigger] numbered(dest, n) && forall|m: nat|
                1 <= m < n ==> answers(taken, #[trigger] numbered(dest, m), true),
{
}

/// Where no name is picked, the destination and all its numbered names up to 9999
/// are taken.
pub proof fn law_no_free_name<F: Fn(&str) -> bool>(dest: Seq<char>, taken: F)
    ensures
        all_taken(dest, taken) <==> answers(taken, dest, true) && forall|m: nat|
            1 <= m <= 9999 ==> answers(taken, #[trigger] numbered(dest, m), true),
        partial_suffix() == ".frostwallpart"@,
{
}

/// Items are seen with where they are read from and what they are announced as.
pub proof fn law_items_are_seen_whole(items: Seq<SendItem>)
    ensures
        items_view(items).len() == items.len(),
        forall|i: int|
            0 <= i < items.len() ==> #[trigger] items_view(items)[i] == (
                items[i].source@,
                items[i].rel_path@,
            ),
{
}

/// A manifest is refused only for what is wrong with its entries or with how many
/// there are.
pub proof fn law_problems_of_a_manifest(es: Seq<(Seq<char>, u64)>, windows: bool)
    ensures
        checked_manifest(es, windows) matches Err(e) ==> e is EmptyManifest
            || e is ManifestTooManyFiles || e is DuplicatePath || e is Path || e is ManifestOverflow
            || e is ManifestTooLarge,
{
    lemma_problems_of_entries(es, es.len(), windows);
}

proof fn lemma_problems_of_entries(es: Seq<(Seq<char>, u64)>, n: nat, windows: bool)
    ensures
        checked_entries(es, n, windows) matches Err(e) ==> e is DuplicatePath || e is Path
            || e is ManifestOverflow,
    decreases n,
{
    if n > 0 {
        lemma_problems_of_entries(es, (n - 1) as nat, windows);
    }
}

/// A control message can be sent exactly where it is at most one mebibyte once it
/// is sealed, which adds forty bytes, and wrapped.
pub proof fn law_what_can_be_sealed(m: protocol::MessageView)
    ensures
        ({
            let n = protocol::frame_of(m).len() + 40;
            seal_fits(m) <==> 1 + crate::wire::varint(n).len() + n <= 1_048_576
        }),
{
}

/// Opening a control frame gives the message that was sealed in it, and nothing
/// else does: what is in the clear is refused as it is, and what does not open or
/// is no message is refused for that.
pub proof fn law_opening_control_frames(key: Seq<u8>, frame: Seq<u8>, m: protocol::MessageView)
    ensures
        opened(key, frame) == Ok::<protocol::MessageView, ErrorView>(m) <==> exists|
            ct: Seq<u8>,
            inner: Seq<u8>,
        |
            protocol::parse_frame(frame) == Ok::<
                protocol::MessageView,
                protocol::ProtocolErrorView,
            >(protocol::MessageView::Encrypted(ct)) && #[trigger] crypto::unpacked(key, ct) == Ok::<
                Seq<u8>,
                CryptoError,
            >(inner) && #[trigger] protocol::parse_frame(inner) == Ok::<
                protocol::MessageView,
                protocol::ProtocolErrorView,
            >(m),
        protocol::parse_frame(frame) == Ok::<
            protocol::MessageView,
            protocol::ProtocolErrorView,
        >(m) && !(m is Encrypted) ==> opened(key, frame) == Err::<
            protocol::MessageView,
            ErrorView,
        >(ErrorView::ExpectedEncrypted(m)),
{
}

/// Errors are seen with all that they carry.
pub proof fn law_errors_are_seen_whole(e: TransferError, p: PathError)
    ensures
        p matches PathError::Absolute(t) ==> p@ == PathErrorView::Absolute(t@),
        p matches PathError::UnsafeComponent(t) ==> p@ == PathErrorView::UnsafeComponent(t@),
        p is EmptyOrNul <==> p@ is EmptyOrNul,
        p is TooLong <==> p@ is TooLong,
        p is Backslash <==> p@ is Backslash,
        p is UnsafeUnicode <==> p@ is UnsafeUnicode,
        e is Cancelled <==> e@ is Cancelled,
        e is CancelledByPeer <==> e@ is CancelledByPeer,
        e is RejectedByPeer <==> e@ is RejectedByPeer,
        e is IntegrityFailed <==> e@ is IntegrityFailed,
        e is SizeMismatch <==> e@ is SizeMismatch,
        e is TooManyBytes <==> e@ is TooManyBytes,
        e matches TransferError::Path(q) ==> e@ == ErrorView::Path(q@),
        e matches TransferError::Protocol(q) ==> e@ == ErrorView::Protocol(q@),
        e matches TransferError::Crypto(q) ==> e@ == ErrorView::Crypto(q),
        e matches TransferError::ExpectedManifest(m) ==> e@ == ErrorView::ExpectedManifest(m@),
        e matches TransferError::ExpectedEncrypted(m) ==> e@ == ErrorView::ExpectedEncrypted(m@),
        e matches TransferError::UnexpectedDuringFile(m) ==> e@ == ErrorView::UnexpectedDuringFile(
            m@,
        ),
{
}

/// What is wrong with a path is told by the first thing that is: that it is empty
/// or has a NUL, is too long, has a backslash or a dangerous character, begins at
/// the root, or has a component that is no name.
pub proof fn law_problems_of_a_path(rel: Seq<char>)
    ensures
        ({
            let e = path_problem(rel, false);
            let empty = rel.len() == 0 || rel.contains('\0');
            let long = encode_utf8(rel).len() > 4096;
            let danger = exists|i: int| 0 <= i < rel.len() && is_dangerous(#[trigger] rel[i]);
            &&& e == Some(PathErrorView::EmptyOrNul) <==> empty
            &&& e == Some(PathErrorView::TooLong) <==> !empty && long
            &&& e == Some(PathErrorView::Backslash) <==> !empty && !long && rel.contains('\\')
            &&& e == Some(PathErrorView::UnsafeUnicode) <==> !empty && !long && !rel.contains('\\')
                && danger
            &&& e == Some(PathErrorView::Absolute(rel)) <==> !empty && !long && !rel.contains('\\')
                && !danger && rel[0] == '/'
            &&& e matches Some(PathErrorView::UnsafeComponent(p)) ==> p == rel
            &&& e matches Some(PathErrorView::Absolute(p)) ==> p == rel
        }),
{
}

} // verus!
