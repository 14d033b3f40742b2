//! What the user is told when something fails.
use crate::coordinator::{Fault, FaultView, Outcome, OutcomeView};
use crate::crypto::CryptoError;
use crate::internet::MailboxError;
use crate::pairing::PairingError;
use crate::protocol;
use crate::protocol::{ManifestEntry, Message, MessageView, ProtocolError, ProtocolErrorView};
use crate::session::HandshakeError;
use crate::text;
use crate::transfer::{ErrorView, PathError, PathErrorView, TransferError};
use vstd::prelude::*;

verus! {

/// The text for an unsafe manifest path.
pub open spec fn path_text(e: PathErrorView) -> Seq<char> {
    match e {
        PathErrorView::EmptyOrNul => "empty or NUL path in manifest"@,
        PathErrorView::TooLong => "path too long in manifest"@,
        PathErrorView::Backslash => "backslash in manifest path"@,
        PathErrorView::UnsafeUnicode => "unsafe unicode in manifest path"@,
        PathErrorView::Absolute(p) => "absolute path in manifest: "@ + p,
        PathErrorView::UnsafeComponent(p) => "unsafe path component in manifest: "@ + p,
    }
}

impl PathError {
    /// What the user is told.
    pub fn message(&self) -> (m: String)
        ensures
            m@ == path_text(self@),
    {
        let m = match self {
            PathError::EmptyOrNul => "empty or NUL path in manifest",
            PathError::TooLong => "path too long in manifest",
            PathError::Backslash => "backslash in manifest path",
            PathError::UnsafeUnicode => "unsafe unicode in manifest path",
            PathError::Absolute(p) => {
                return text::concat("absolute path in manifest: ", p.as_str());
            },
            PathError::UnsafeComponent(p) => {
                return text::concat("unsafe path component in manifest: ", p.as_str());
            },
        };
        m.to_owned()
    }
}

/// The text for a failed sealing or opening.
pub open spec fn crypto_text(e: CryptoError) -> Seq<char> {
    match e {
        CryptoError::Encrypt => "AEAD encryption failed"@,
        CryptoError::ShorterThanNonce => "ciphertext shorter than nonce"@,
        CryptoError::Decrypt => "AEAD decryption failed (wrong key or tampered)"@,
    }
}

impl CryptoError {
    /// What the user is told.
    pub fn message(&self) -> (m: String)
        ensures
            m@ == crypto_text(*self),
    {
        let m = match self {
            CryptoError::Encrypt => "AEAD encryption failed",
            CryptoError::ShorterThanNonce => "ciphertext shorter than nonce",
            CryptoError::Decrypt => "AEAD decryption failed (wrong key or tampered)",
        };
        m.to_owned()
    }
}

/// The text for a failed pairing.
pub open spec fn pairing_text(e: PairingError) -> Seq<char> {
    match e {
        PairingError::TooShort => "peer handshake message too short"@,
        PairingError::Malformed => "SPAKE2 handshake failed (malformed peer message)"@,
        PairingError::InvalidEphemeral => "invalid ephemeral public key"@,
        PairingError::NonContributory => "non-contributory ephemeral exchange"@,
    }
}

impl PairingError {
    /// What the user is told.
    pub fn message(&self) -> (m: String)
        ensures
            m@ == pairing_text(*self),
    {
        let m = match self {
            PairingError::TooShort => "peer handshake message too short",
            PairingError::Malformed => "SPAKE2 handshake failed (malformed peer message)",
            PairingError::InvalidEphemeral => "invalid ephemeral public key",
            PairingError::NonContributory => "non-contributory ephemeral exchange",
        };
        m.to_owned()
    }
}

/// The text for a frame that could not be written or read.
pub open spec fn protocol_text(e: ProtocolErrorView) -> Seq<char> {
    match e {
        ProtocolErrorView::Encode => "encode message: the size limit has been reached"@,
        ProtocolErrorView::TooShort => "frame too short for a versioned message"@,
        ProtocolErrorView::Version(v) => "incompatible wire version: got "@ + text::decimal(v as nat)
            + ", expected 1"@,
        ProtocolErrorView::Decode(why) => "decode message: "@ + why,
    }
}

impl ProtocolError {
    /// What the user is told.
    pub fn message(&self) -> (m: String)
        ensures
            m@ == protocol_text(self@),
    {
        match self {
            ProtocolError::Encode => "encode message: the size limit has been reached".to_owned(),
            ProtocolError::TooShort => "frame too short for a versioned message".to_owned(),
            ProtocolError::Version(v) => {
                let got = text::concat(
                    "incompatible wire version: got ",
                    text::decimal_text(*v as u64).as_str(),
                );
                text::concat(got.as_str(), ", expected 1")
            },
            ProtocolError::Decode(why) => text::concat("decode message: ", why.as_str()),
        }
    }
}

/// A text in quotation marks, with what is special in it written out, as `Debug`
/// of a string shows it.
pub uninterp spec fn quoted(s: Seq<char>) -> Seq<char>;

/// `format!` with `{:?}` of a string: what comes out is a function of the string.
#[verifier::external_body]
fn quote(s: &str) -> (q: String)
    ensures
        q@ == quoted(s@),
{
    format!("{:?}", s)
}

/// Bytes as numbers with commas between them.
pub open spec fn bytes_text(bytes: Seq<u8>) -> Seq<char>
    decreases bytes.len(),
{
    if bytes.len() == 0 {
        Seq::empty()
    } else if bytes.len() == 1 {
        text::decimal(bytes[0] as nat)
    } else {
        bytes_text(bytes.drop_last()) + ", "@ + text::decimal(bytes.last() as nat)
    }
}

/// One file of a manifest.
pub open spec fn entry_text(e: (Seq<char>, u64)) -> Seq<char> {
    "ManifestEntry { rel_path: "@ + quoted(e.0) + ", size: "@ + text::decimal(e.1 as nat) + " }"@
}

/// Files of a manifest with commas between them.
pub open spec fn entries_text(es: Seq<(Seq<char>, u64)>) -> Seq<char>
    decreases es.len(),
{
    if es.len() == 0 {
        Seq::empty()
    } else if es.len() == 1 {
        entry_text(es[0])
    } else {
        entries_text(es.drop_last()) + ", "@ + entry_text(es.last())
    }
}

/// A message with all that it carries.
pub open spec fn message_text(m: MessageView) -> Seq<char> {
    match m {
        MessageView::Manifest(es) => "Manifest(["@ + entries_text(es) + "])"@,
        MessageView::Chunk(ct) => "Chunk(["@ + bytes_text(ct) + "])"@,
        MessageView::FileEnd(h) => "FileEnd(["@ + bytes_text(h) + "])"@,
        MessageView::Done => "Done"@,
        MessageView::Accept => "Accept"@,
        MessageView::Reject => "Reject"@,
        MessageView::Cancel => "Cancel"@,
        MessageView::Encrypted(ct) => "Encrypted(["@ + bytes_text(ct) + "])"@,
    }
}

/// `name`, then bytes in brackets.
fn tuple_of_bytes(name: &str, bytes: &[u8]) -> (s: String)
    ensures
        s@ == name@ + bytes_text(bytes@) + "])"@,
{
    let mut s = name.to_owned();
    for i in 0..bytes.len()
        invariant
            s@ == name@ + bytes_text(bytes@.take(i as int)),
    {
        proof {
            let more = bytes@.take(i + 1);
            assert(more.drop_last() =~= bytes@.take(i as int));
            if i > 0 {
                assert(s@ + ", "@ + text::decimal(more.last() as nat) =~= name@ + bytes_text(more));
            } else {
                assert(bytes_text(bytes@.take(0)) =~= Seq::empty());
                assert(s@ + text::decimal(more.last() as nat) =~= name@ + bytes_text(more));
            }
        }
        if i > 0 {
            s.append(", ");
        }
        s.append(text::decimal_text(bytes[i] as u64).as_str());
    }
    assert(bytes@.take(bytes@.len() as int) =~= bytes@);
    s.append("])");
    s
}

/// A manifest with all its files.
fn tuple_of_entries(entries: &Vec<ManifestEntry>) -> (s: String)
    ensures
        s@ == "Manifest(["@ + entries_text(protocol::entries_view(entries@)) + "])"@,
{
    let ghost es = protocol::entries_view(entries@);
    let mut s = "Manifest([".to_owned();
    for i in 0..entries.len()
        invariant
            es == protocol::entries_view(entries@),
            s@ == "Manifest(["@ + entries_text(es.take(i as int)),
    {
        let ghost before = s@;
        if i > 0 {
            s.append(", ");
        }
        s.append("ManifestEntry { rel_path: ");
        s.append(quote(entries[i].rel_path.as_str()).as_str());
        s.append(", size: ");
        s.append(text::decimal_text(entries[i].size).as_str());
        s.append(" }");
        proof {
            let more = es.take(i + 1);
            assert(more.drop_last() =~= es.take(i as int));
            assert(more.last() == entries@[i as int].view());
            if i > 0 {
                assert(s@ =~= before + ", "@ + entry_text(more.last()));
            } else {
                assert(entries_text(es.take(0)) =~= Seq::empty());
                assert(s@ =~= before + entry_text(more.last()));
            }
            assert(s@ =~= "Manifest(["@ + entries_text(more));
        }
    }
    assert(es.take(es.len() as int) =~= es);
    s.append("])");
    s
}

impl Message {
    /// The message with all that it carries, as the user is shown one that came
    /// at the wrong time.
    pub fn shown(&self) -> (s: String)
        ensures
            s@ == message_text(self@),
    {
        match self {
            Message::Manifest(es) => tuple_of_entries(es),
            Message::Chunk(ct) => tuple_of_bytes("Chunk([", ct.as_slice()),
            Message::FileEnd(h) => tuple_of_bytes("FileEnd([", h.as_slice()),
            Message::Done => "Done".to_owned(),
            Message::Accept => "Accept".to_owned(),
            Message::Reject => "Reject".to_owned(),
            Message::Cancel => "Cancel".to_owned(),
            Message::Encrypted(ct) => tuple_of_bytes("Encrypted([", ct.as_slice()),
        }
    }
}

/// The text for a transfer that ended early.
pub open spec fn transfer_text(e: ErrorView) -> Seq<char> {
    match e {
        ErrorView::Protocol(e) => protocol_text(e),
        ErrorView::Crypto(e) => crypto_text(e),
        ErrorView::Path(e) => path_text(e),
        ErrorView::TooManyBytes { sent, declared } => "peer sent more bytes than declared ("@
            + text::decimal(sent as nat) + " > "@ + text::decimal(declared as nat) + ")"@,
        ErrorView::SizeMismatch { declared, received } => "file size mismatch: expected "@
            + text::decimal(declared as nat) + ", got "@ + text::decimal(received as nat),
        ErrorView::Cancelled => "transfer cancelled"@,
        ErrorView::CancelledByPeer => "transfer cancelled by peer"@,
        ErrorView::RejectedByPeer => "transfer rejected by peer"@,
        ErrorView::ExpectedEncrypted(m) => "expected encrypted control message, got "@
            + message_text(m),
        ErrorView::ExpectedManifest(m) => "expected Manifest, got "@ + message_text(m),
        ErrorView::ExpectedAccept(m) => "expected Accept, got "@ + message_text(m),
        ErrorView::ExpectedDone(m) => "expected Done, got "@ + message_text(m),
        ErrorView::UnexpectedDuringFile(m) => "unexpected message during file: "@
            + message_text(m),
        ErrorView::TooManyFiles => "transfer exceeds 50000 files"@,
        ErrorView::TotalOverflow => "total size overflow"@,
        ErrorView::EmptyManifest => "empty manifest"@,
        ErrorView::ManifestTooManyFiles => "manifest exceeds 50000 files"@,
        ErrorView::DuplicatePath => "duplicate path in manifest"@,
        ErrorView::ManifestOverflow => "manifest size overflow"@,
        ErrorView::ManifestTooLarge => "manifest total exceeds 1099511627776 bytes"@,
        ErrorView::FileOverflow => "file size overflow"@,
        ErrorView::IntegrityFailed => "integrity check failed"@,
        ErrorView::NoFreeName => "no free name for a received file"@,
        ErrorView::SymlinkRoot(p) => "refusing to send a symlink: "@ + p,
        ErrorView::InvalidFileName => "invalid file name"@,
        ErrorView::OutsideRoot => "strip prefix: prefix not found"@,
        ErrorView::TooDeep => "max directory depth exceeded"@,
    }
}

impl TransferError {
    /// What the user is told.
    pub fn message(&self) -> (m: String)
        ensures
            m@ == transfer_text(self@),
    {
        let m = match self {
            TransferError::Protocol(e) => return e.message(),
            TransferError::Crypto(e) => return e.message(),
            TransferError::Path(e) => return e.message(),
            TransferError::TooManyBytes { sent, declared } => {
                let m = text::concat(
                    "peer sent more bytes than declared (",
                    text::decimal_text(*sent).as_str(),
                );
                let m = text::concat(m.as_str(), " > ");
                let m = text::concat(m.as_str(), text::decimal_text(*declared).as_str());
                return text::concat(m.as_str(), ")");
            },
            TransferError::SizeMismatch { declared, received } => {
                let m = text::concat(
                    "file size mismatch: expected ",
                    text::decimal_text(*declared).as_str(),
                );
                let m = text::concat(m.as_str(), ", got ");
                return text::concat(m.as_str(), text::decimal_text(*received).as_str());
            },
            TransferError::Cancelled => "transfer cancelled",
            TransferError::CancelledByPeer => "transfer cancelled by peer",
            TransferError::RejectedByPeer => "transfer rejected by peer",
            TransferError::ExpectedEncrypted(m) => {
                return text::concat("expected encrypted control message, got ", m.shown().as_str());
            },
            TransferError::ExpectedManifest(m) => {
                return text::concat("expected Manifest, got ", m.shown().as_str());
            },
            TransferError::ExpectedAccept(m) => {
                return text::concat("expected Accept, got ", m.shown().as_str());
            },
            TransferError::ExpectedDone(m) => {
                return text::concat("expected Done, got ", m.shown().as_str());
            },
            TransferError::UnexpectedDuringFile(m) => {
                return text::concat("unexpected message during file: ", m.shown().as_str());
            },
            TransferError::TooManyFiles => "transfer exceeds 50000 files",
            TransferError::TotalOverflow => "total size overflow",
            TransferError::EmptyManifest => "empty manifest",
            TransferError::ManifestTooManyFiles => "manifest exceeds 50000 files",
            TransferError::DuplicatePath => "duplicate path in manifest",
            TransferError::ManifestOverflow => "manifest size overflow",
            TransferError::ManifestTooLarge => "manifest total exceeds 1099511627776 bytes",
            TransferError::FileOverflow => "file size overflow",
            TransferError::IntegrityFailed => "integrity check failed",
            TransferError::NoFreeName => "no free name for a received file",
            TransferError::SymlinkRoot(p) => {
                return text::concat("refusing to send a symlink: ", p.as_str());
            },
            TransferError::InvalidFileName => "invalid file name",
            TransferError::OutsideRoot => "strip prefix: prefix not found",
            TransferError::TooDeep => "max directory depth exceeded",
        };
        m.to_owned()
    }
}

/// The text for a failed handshake.
pub open spec fn handshake_text(e: HandshakeError) -> Seq<char> {
    match e {
        HandshakeError::TimedOut => "handshake timed out (peer stalled)"@,
        HandshakeError::Transport(t) => t@,
        HandshakeError::Pairing(e) => pairing_text(e),
        HandshakeError::ConfirmationFailed => "key confirmation failed (wrong code or MITM)"@,
    }
}

impl HandshakeError {
    /// What the user is told.
    pub fn message(&self) -> (m: String)
        ensures
            m@ == handshake_text(*self),
    {
        match self {
            HandshakeError::TimedOut => "handshake timed out (peer stalled)".to_owned(),
            HandshakeError::Transport(t) => t.clone(),
            HandshakeError::Pairing(e) => e.message(),
            HandshakeError::ConfirmationFailed => "key confirmation failed (wrong code or MITM)".to_owned(),
        }
    }
}

/// The text for a mailbox service that could not be used.
pub open spec fn mailbox_text(e: MailboxError) -> Seq<char> {
    match e {
        MailboxError::Unreachable(t) => "mailbox unreachable: "@ + t@,
        MailboxError::Malformed(t) => "mailbox returned a malformed response: "@ + t@,
        MailboxError::AlreadyRegistered => "this pairing code is already registered"@,
        MailboxError::Rejected(shown) => "mailbox rejected registration ("@ + shown@ + ")"@,
        MailboxError::NoPeer => "no peer found for this code (it may have expired, or the host hasn't started yet)"@,
    }
}

impl MailboxError {
    /// What the user is told.
    pub fn message(&self) -> (m: String)
        ensures
            m@ == mailbox_text(*self),
    {
        match self {
            MailboxError::Unreachable(t) => text::concat("mailbox unreachable: ", t.as_str()),
            MailboxError::Malformed(t) => text::concat(
                "mailbox returned a malformed response: ",
                t.as_str(),
            ),
            MailboxError::AlreadyRegistered => "this pairing code is already registered".to_owned(),
            MailboxError::Rejected(shown) => {
                let m = text::concat("mailbox rejected registration (", shown.as_str());
                text::concat(m.as_str(), ")")
            },
            MailboxError::NoPeer => "no peer found for this code (it may have expired, or the host hasn't started yet)".to_owned(),
        }
    }
}

/// The text for how a transfer ended.
pub open spec fn outcome_text(o: OutcomeView) -> Seq<char> {
    match o {
        OutcomeView::Completed => "transfer complete"@,
        OutcomeView::Failed(e) => transfer_text(e),
        OutcomeView::Broken(t) => t,
    }
}

impl Outcome {
    /// What the user is told.
    pub fn message(&self) -> (m: String)
        ensures
            m@ == outcome_text(self@),
    {
        match self {
            Outcome::Completed => "transfer complete".to_owned(),
            Outcome::Failed(e) => e.message(),
            Outcome::Broken(t) => t.clone(),
        }
    }
}

/// The text for an error of a session.
pub open spec fn fault_text(f: FaultView) -> Seq<char> {
    match f {
        FaultView::Transfer(o) => outcome_text(o),
        FaultView::UnexpectedMessage(m) => "unexpected message: "@ + message_text(m),
        FaultView::AcceptFailed(t) => t,
    }
}

impl Fault {
    /// What the user is told.
    pub fn message(&self) -> (m: String)
        ensures
            m@ == fault_text(self@),
    {
        match self {
            Fault::Transfer(o) => o.message(),
            Fault::UnexpectedMessage(m) => text::concat(
                "unexpected message: ",
                m.shown().as_str(),
            ),
            Fault::AcceptFailed(t) => t.clone(),
        }
    }
}

/// What the user is told of a frame, a path, a pairing or a cipher that failed
/// names what is wrong, with the value that is.
pub proof fn law_texts_of_failures(v: u8, why: Seq<char>, p: Seq<char>)
    ensures
        protocol_text(ProtocolErrorView::Encode)
            == "encode message: the size limit has been reached"@,
        protocol_text(ProtocolErrorView::TooShort) == "frame too short for a versioned message"@,
        protocol_text(ProtocolErrorView::Version(v)) == "incompatible wire version: got "@
            + text::decimal(v as nat) + ", expected 1"@,
        protocol_text(ProtocolErrorView::Decode(why)) == "decode message: "@ + why,
        path_text(PathErrorView::EmptyOrNul) == "empty or NUL path in manifest"@,
        path_text(PathErrorView::TooLong) == "path too long in manifest"@,
        path_text(PathErrorView::Backslash) == "backslash in manifest path"@,
        path_text(PathErrorView::UnsafeUnicode) == "unsafe unicode in manifest path"@,
        path_text(PathErrorView::Absolute(p)) == "absolute path in manifest: "@ + p,
        path_text(PathErrorView::UnsafeComponent(p)) == "unsafe path component in manifest: "@ + p,
        crypto_text(CryptoError::Encrypt) == "AEAD encryption failed"@,
        crypto_text(CryptoError::ShorterThanNonce) == "ciphertext shorter than nonce"@,
        crypto_text(CryptoError::Decrypt) == "AEAD decryption failed (wrong key or tampered)"@,
        pairing_text(PairingError::TooShort) == "peer handshake message too short"@,
        pairing_text(PairingError::Malformed)
            == "SPAKE2 handshake failed (malformed peer message)"@,
        pairing_text(PairingError::InvalidEphemeral) == "invalid ephemeral public key"@,
        pairing_text(PairingError::NonContributory) == "non-contributory ephemeral exchange"@,
{
}

/// What the user is told of a transfer that ended early names why, with the
/// numbers, the message or the path that it is about.
pub proof fn law_texts_of_transfers(m: MessageView, a: u64, b: u64, p: Seq<char>)
    ensures
        transfer_text(ErrorView::Cancelled) == "transfer cancelled"@,
        transfer_text(ErrorView::CancelledByPeer) == "transfer cancelled by peer"@,
        transfer_text(ErrorView::RejectedByPeer) == "transfer rejected by peer"@,
        transfer_text(ErrorView::ExpectedEncrypted(m)) == "expected encrypted control message, got "@
            + message_text(m),
        transfer_text(ErrorView::ExpectedManifest(m)) == "expected Manifest, got "@ + message_text(m),
        transfer_text(ErrorView::ExpectedAccept(m)) == "expected Accept, got "@ + message_text(m),
        transfer_text(ErrorView::ExpectedDone(m)) == "expected Done, got "@ + message_text(m),
        transfer_text(ErrorView::UnexpectedDuringFile(m)) == "unexpected message during file: "@
            + message_text(m),
        transfer_text(ErrorView::TooManyBytes { sent: a, declared: b })
            == "peer sent more bytes than declared ("@ + text::decimal(a as nat) + " > "@
            + text::decimal(b as nat) + ")"@,
        transfer_text(ErrorView::SizeMismatch { declared: a, received: b })
            == "file size mismatch: expected "@ + text::decimal(a as nat) + ", got "@
            + text::decimal(b as nat),
        transfer_text(ErrorView::SymlinkRoot(p)) == "refusing to send a symlink: "@ + p,
        transfer_text(ErrorView::TooManyFiles) == "transfer exceeds 50000 files"@,
        transfer_text(ErrorView::TotalOverflow) == "total size overflow"@,
        transfer_text(ErrorView::EmptyManifest) == "empty manifest"@,
        transfer_text(ErrorView::ManifestTooManyFiles) == "manifest exceeds 50000 files"@,
        transfer_text(ErrorView::DuplicatePath) == "duplicate path in manifest"@,
        transfer_text(ErrorView::ManifestOverflow) == "manifest size overflow"@,
        transfer_text(ErrorView::ManifestTooLarge) == "manifest total exceeds 1099511627776 bytes"@,
        transfer_text(ErrorView::FileOverflow) == "file size overflow"@,
        transfer_text(ErrorView::IntegrityFailed) == "integrity check failed"@,
        transfer_text(ErrorView::InvalidFileName) == "invalid file name"@,
        transfer_text(ErrorView::OutsideRoot) == "strip prefix: prefix not found"@,
        transfer_text(ErrorView::TooDeep) == "max directory depth exceeded"@,
{
}

/// Errors within errors are told in their own words.
pub proof fn law_texts_within_texts(
    e: ErrorView,
    pe: ProtocolErrorView,
    path: PathErrorView,
    c: CryptoError,
    pairing: PairingError,
    h: HandshakeError,
    t: String,
    m: MailboxError,
    shown: Seq<char>,
    msg: MessageView,
)
    ensures
        transfer_text(ErrorView::Protocol(pe)) == protocol_text(pe),
        transfer_text(ErrorView::Path(path)) == path_text(path),
        transfer_text(ErrorView::Crypto(c)) == crypto_text(c),
        outcome_text(OutcomeView::Failed(e)) == transfer_text(e),
        outcome_text(OutcomeView::Broken(shown)) == shown,
        fault_text(FaultView::Transfer(OutcomeView::Failed(e))) == transfer_text(e),
        fault_text(FaultView::UnexpectedMessage(msg)) == "unexpected message: "@ + message_text(msg),
        fault_text(FaultView::AcceptFailed(shown)) == shown,
        handshake_text(HandshakeError::TimedOut) == "handshake timed out (peer stalled)"@,
        handshake_text(HandshakeError::Transport(t)) == t@,
        handshake_text(HandshakeError::Pairing(pairing)) == pairing_text(pairing),
        handshake_text(HandshakeError::ConfirmationFailed)
            == "key confirmation failed (wrong code or MITM)"@,
        mailbox_text(MailboxError::Unreachable(t)) == "mailbox unreachable: "@ + t@,
        mailbox_text(MailboxError::Malformed(t)) == "mailbox returned a malformed response: "@ + t@,
        mailbox_text(MailboxError::Rejected(t)) == "mailbox rejected registration ("@ + t@ + ")"@,
        mailbox_text(MailboxError::AlreadyRegistered)
            == "this pairing code is already registered"@,
{
}

/// A message is shown with all that it carries: bytes as numbers one after the
/// other, files with their paths in quotation marks and their sizes.
pub proof fn law_messages_are_shown_whole(
    bytes: Seq<u8>,
    b: u8,
    es: Seq<(Seq<char>, u64)>,
    e: (Seq<char>, u64),
)
    ensures
        bytes_text(Seq::<u8>::empty()).len() == 0,
        bytes_text(seq![b]) == text::decimal(b as nat),
        bytes.len() > 0 ==> bytes_text(bytes.push(b)) == bytes_text(bytes) + ", "@ + text::decimal(
            b as nat,
        ),
        entries_text(Seq::<(Seq<char>, u64)>::empty()).len() == 0,
        entries_text(seq![e]) == "ManifestEntry { rel_path: "@ + quoted(e.0) + ", size: "@
            + text::decimal(e.1 as nat) + " }"@,
        es.len() > 0 ==> entries_text(es.push(e)) == entries_text(es) + ", "@ + entries_text(
            seq![e],
        ),
        message_text(MessageView::Manifest(es)) == "Manifest(["@ + entries_text(es) + "])"@,
        message_text(MessageView::Chunk(bytes)) == "Chunk(["@ + bytes_text(bytes) + "])"@,
        message_text(MessageView::FileEnd(bytes)) == "FileEnd(["@ + bytes_text(bytes) + "])"@,
        message_text(MessageView::Encrypted(bytes)) == "Encrypted(["@ + bytes_text(bytes) + "])"@,
        message_text(MessageView::Done) == "Done"@,
        message_text(MessageView::Accept) == "Accept"@,
        message_text(MessageView::Reject) == "Reject"@,
        message_text(MessageView::Cancel) == "Cancel"@,
{
    assert(bytes.push(b).drop_last() =~= bytes);
    assert(es.push(e).drop_last() =~= es);
    assert(es.push(e).last() == e);
}

} // verus!
