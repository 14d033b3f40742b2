//! Wire protocol: length-delimited frames whose payloads are
//! `<version byte> || body`, where the body is one [`Message`] in the layout of
//! [`crate::wire`]. File chunks are already encrypted by the transfer layer
//! before they are wrapped in `Message::Chunk`.
//!
//! The leading version byte lets a format change reject an incompatible peer
//! with a clear error instead of silently misreading it. Reading is limited in
//! size, so that a malformed frame cannot drive an unbounded allocation.
use crate::text;
use crate::wire;
use vstd::prelude::*;

verus! {

/// Plaintext chunk size read from disk before encryption.
pub const CHUNK_SIZE: usize = 262_144;

/// Current wire-format version.
pub const WIRE_VERSION: u8 = 1;

/// Most bytes a message body may have.
pub const DECODE_LIMIT: u64 = 1_048_576;

/// Largest single frame that a connection accepts.
pub const MAX_FRAME: usize = 1_048_576;

/// One file of a manifest.
#[derive(Debug, Clone, PartialEq, Eq)]
pub struct ManifestEntry {
    /// Path relative to the transfer root (e.g. "docs/notes.txt").
    pub rel_path: String,
    pub size: u64,
}

impl ManifestEntry {
    /// The path's characters and the size.
    pub open spec fn view(&self) -> (Seq<char>, u64) {
        (self.rel_path@, self.size)
    }
}

/// The paths and sizes of manifest entries.
pub open spec fn entries_view(es: Seq<ManifestEntry>) -> Seq<(Seq<char>, u64)> {
    es.map_values(|e: ManifestEntry| e.view())
}

/// What two peers of a session say to each other.
#[derive(Debug, Clone, PartialEq, Eq)]
pub enum Message {
    /// First message: the ordered list of files about to be sent.
    Manifest(Vec<ManifestEntry>),
    /// One encrypted chunk: `nonce || ciphertext+tag`.
    Chunk(Vec<u8>),
    /// Marks the end of a file and carries the Blake3 hash of its plaintext,
    /// so the receiver can verify integrity.
    FileEnd([u8; 32]),
    /// Receiver -> sender: every file received and hash-verified.
    Done,
    /// Receiver -> sender: user accepted the incoming manifest; chunks may follow.
    Accept,
    /// Receiver -> sender: user declined the incoming transfer.
    Reject,
    /// Either side: abort the in-flight transfer without tearing down the session.
    Cancel,
    /// A control message under the session's control key.
    Encrypted(Vec<u8>),
}

/// A message by its contents.
pub ghost enum MessageView {
    Manifest(Seq<(Seq<char>, u64)>),
    Chunk(Seq<u8>),
    FileEnd(Seq<u8>),
    Done,
    Accept,
    Reject,
    Cancel,
    Encrypted(Seq<u8>),
}

impl View for Message {
    type V = MessageView;

    open spec fn view(&self) -> MessageView {
        match self {
            Message::Manifest(es) => MessageView::Manifest(entries_view(es@)),
            Message::Chunk(ct) => MessageView::Chunk(ct@),
            Message::FileEnd(h) => MessageView::FileEnd(h@),
            Message::Done => MessageView::Done,
            Message::Accept => MessageView::Accept,
            Message::Reject => MessageView::Reject,
            Message::Cancel => MessageView::Cancel,
            Message::Encrypted(ct) => MessageView::Encrypted(ct@),
        }
    }
}

/// The variants of a message, without what they carry.
#[derive(Debug, Clone, Copy, PartialEq, Eq, Structural)]
pub enum Variant {
    Manifest,
    Chunk,
    FileEnd,
    Done,
    Accept,
    Reject,
    Cancel,
    Encrypted,
}

/// The variant of a message.
pub open spec fn variant_of(m: MessageView) -> Variant {
    match m {
        MessageView::Manifest(_) => Variant::Manifest,
        MessageView::Chunk(_) => Variant::Chunk,
        MessageView::FileEnd(_) => Variant::FileEnd,
        MessageView::Done => Variant::Done,
        MessageView::Accept => Variant::Accept,
        MessageView::Reject => Variant::Reject,
        MessageView::Cancel => Variant::Cancel,
        MessageView::Encrypted(_) => Variant::Encrypted,
    }
}

impl Message {
    /// The variant of this message.
    pub fn variant(&self) -> (v: Variant)
        ensures
            v == variant_of(self@),
    {
        match self {
            Message::Manifest(_) => Variant::Manifest,
            Message::Chunk(_) => Variant::Chunk,
            Message::FileEnd(_) => Variant::FileEnd,
            Message::Done => Variant::Done,
            Message::Accept => Variant::Accept,
            Message::Reject => Variant::Reject,
            Message::Cancel => Variant::Cancel,
            Message::Encrypted(_) => Variant::Encrypted,
        }
    }
}

/// The number that stands for a message's variant on the wire.
pub open spec fn tag_of(m: MessageView) -> u32 {
    match m {
        MessageView::Manifest(_) => 0,
        MessageView::Chunk(_) => 1,
        MessageView::FileEnd(_) => 2,
        MessageView::Done => 3,
        MessageView::Accept => 4,
        MessageView::Reject => 5,
        MessageView::Cancel => 6,
        MessageView::Encrypted(_) => 7,
    }
}

/// The bytes of a message: its tag, then what it carries.
pub open spec fn body_of(m: MessageView) -> Seq<u8> {
    wire::varint(tag_of(m) as nat) + match m {
        MessageView::Manifest(es) => wire::listing(es),
        MessageView::Chunk(ct) => wire::blob(ct),
        MessageView::FileEnd(h) => h,
        MessageView::Encrypted(ct) => wire::blob(ct),
        _ => Seq::empty(),
    }
}

/// The frame of a message: the version byte, then its bytes.
pub open spec fn frame_of(m: MessageView) -> Seq<u8> {
    seq![WIRE_VERSION] + body_of(m)
}

/// Whether a message fits into a frame.
pub open spec fn fits(m: MessageView) -> bool {
    body_of(m).len() <= DECODE_LIMIT
}

/// What is said of a tag that stands for no variant.
pub open spec fn unknown_tag(tag: u32) -> Seq<char> {
    "invalid value: integer `"@ + text::decimal(tag as nat)
        + "`, expected variant index 0 <= i < 8"@
}

/// The message that `body` holds, where it holds exactly one, or why it does not.
pub open spec fn parse_body(body: Seq<u8>) -> Result<MessageView, Seq<char>> {
    match wire::read_tag(body) {
        None => Err(wire::tag_failure(body)),
        Some((tag, rest)) => if tag == 0 {
            match wire::whole(wire::read_listing(rest)) {
                Some(es) => Ok(MessageView::Manifest(es)),
                None => Err(wire::listing_failure(body, usize::BITS)),
            }
        } else if tag == 1 || tag == 7 {
            match wire::whole(wire::read_blob(rest)) {
                Some(ct) => Ok(
                    if tag == 1 {
                        MessageView::Chunk(ct)
                    } else {
                        MessageView::Encrypted(ct)
                    },
                ),
                None => Err(wire::blob_failure(body, usize::BITS)),
            }
        } else if tag == 2 {
            if rest.len() == 32 {
                Ok(MessageView::FileEnd(rest))
            } else {
                Err(wire::hash_failure(body))
            }
        } else if tag > 7 {
            Err(unknown_tag(tag))
        } else if rest.len() != 0 {
            Err(wire::only_tag_failure(body))
        } else if tag == 3 {
            Ok(MessageView::Done)
        } else if tag == 4 {
            Ok(MessageView::Accept)
        } else if tag == 5 {
            Ok(MessageView::Reject)
        } else {
            Ok(MessageView::Cancel)
        },
    }
}

/// Why a message could not be written or read.
#[derive(Debug, Clone, PartialEq, Eq)]
pub enum ProtocolError {
    /// The message does not fit into a frame.
    Encode,
    /// The frame has no room for a version byte and a body.
    TooShort,
    /// The frame carries another version, given here.
    Version(u8),
    /// The body is too long or is not exactly one message, as the text tells.
    Decode(String),
}

/// Why a message could not be written or read, by contents.
pub ghost enum ProtocolErrorView {
    Encode,
    TooShort,
    Version(u8),
    Decode(Seq<char>),
}

impl View for ProtocolError {
    type V = ProtocolErrorView;

    open spec fn view(&self) -> ProtocolErrorView {
        match self {
            ProtocolError::Encode => ProtocolErrorView::Encode,
            ProtocolError::TooShort => ProtocolErrorView::TooShort,
            ProtocolError::Version(v) => ProtocolErrorView::Version(*v),
            ProtocolError::Decode(why) => ProtocolErrorView::Decode(why@),
        }
    }
}

/// The message that `frame` holds, or why it holds none.
pub open spec fn parse_frame(frame: Seq<u8>) -> Result<MessageView, ProtocolErrorView> {
    if frame.len() < 2 {
        Err(ProtocolErrorView::TooShort)
    } else if frame[0] != WIRE_VERSION {
        Err(ProtocolErrorView::Version(frame[0]))
    } else if frame.len() - 1 > DECODE_LIMIT {
        Err(ProtocolErrorView::Decode("the size limit has been reached"@))
    } else {
        match parse_body(frame.skip(1)) {
            Ok(m) => Ok(m),
            Err(why) => Err(ProtocolErrorView::Decode(why)),
        }
    }
}

fn listed_entries(entries: &Vec<ManifestEntry>) -> (out: Vec<(String, u64)>)
    ensures
        wire::listed_view(out@) == entries_view(entries@),
{
    let mut out: Vec<(String, u64)> = Vec::new();
    for i in 0..entries.len()
        invariant
            out@.len() == i,
            forall|k: int|
                0 <= k < i ==> (#[trigger] out@[k]).0@ == entries@[k].rel_path@ && out@[k].1
                    == entries@[k].size,
    {
        out.push((entries[i].rel_path.clone(), entries[i].size));
    }
    assert(wire::listed_view(out@) =~= entries_view(entries@));
    out
}

fn entries_listed(listed: Vec<(String, u64)>) -> (out: Vec<ManifestEntry>)
    ensures
        entries_view(out@) == wire::listed_view(listed@),
{
    let mut out: Vec<ManifestEntry> = Vec::new();
    for i in 0..listed.len()
        invariant
            out@.len() == i,
            forall|k: int|
                0 <= k < i ==> (#[trigger] out@[k]).rel_path@ == listed@[k].0@ && out@[k].size
                    == listed@[k].1,
    {
        out.push(ManifestEntry { rel_path: listed[i].0.clone(), size: listed[i].1 });
    }
    assert(entries_view(out@) =~= wire::listed_view(listed@));
    out
}

/// Encode a message to its frame. Fails exactly where it does not fit.
pub fn encode(msg: &Message) -> (r: Result<Vec<u8>, ProtocolError>)
    ensures
        match r {
            Ok(frame) => fits(msg@) && frame@ == frame_of(msg@),
            Err(e) => !fits(msg@) && e == ProtocolError::Encode,
        },
{
    let body = match msg {
        Message::Manifest(es) => wire::put_listing(0, &listed_entries(es), DECODE_LIMIT),
        Message::Chunk(ct) => wire::put_blob(1, ct.as_slice(), DECODE_LIMIT),
        Message::FileEnd(h) => wire::put_hash(2, h, DECODE_LIMIT),
        Message::Done => wire::put_tag(3, DECODE_LIMIT),
        Message::Accept => wire::put_tag(4, DECODE_LIMIT),
        Message::Reject => wire::put_tag(5, DECODE_LIMIT),
        Message::Cancel => wire::put_tag(6, DECODE_LIMIT),
        Message::Encrypted(ct) => wire::put_blob(7, ct.as_slice(), DECODE_LIMIT),
    };
    assert(wire::varint(tag_of(msg@) as nat) + Seq::<u8>::empty() =~= wire::varint(tag_of(msg@) as nat));
    match body {
        Ok(body) => {
            let mut out: Vec<u8> = Vec::new();
            out.push(WIRE_VERSION);
            out.extend_from_slice(body.as_slice());
            assert(out@ =~= frame_of(msg@));
            Ok(out)
        },
        Err(_) => Err(ProtocolError::Encode),
    }
}

/// Decode the message in a frame. Rejects frames with an unknown version and
/// bodies over the size limit.
pub fn decode(bytes: &[u8]) -> (r: Result<Message, ProtocolError>)
    ensures
        match r {
            Ok(m) => parse_frame(bytes@) == Ok::<MessageView, ProtocolErrorView>(m@),
            Err(e) => parse_frame(bytes@) == Err::<MessageView, ProtocolErrorView>(e@),
        },
{
    if bytes.len() < 2 {
        return Err(ProtocolError::TooShort);
    }
    if bytes[0] != WIRE_VERSION {
        return Err(ProtocolError::Version(bytes[0]));
    }
    let body = vstd::slice::slice_subrange(bytes, 1, bytes.len());
    assert(body@ =~= bytes@.skip(1));
    if body.len() as u64 > DECODE_LIMIT {
        return Err(ProtocolError::Decode("the size limit has been reached".to_owned()));
    }
    match decode_body(body) {
        Ok(m) => Ok(m),
        Err(why) => Err(ProtocolError::Decode(why)),
    }
}

/// The message that `body` holds, where it holds exactly one, or why it does not.
fn decode_body(body: &[u8]) -> (r: Result<Message, String>)
    ensures
        match r {
            Ok(m) => parse_body(body@) == Ok::<MessageView, Seq<char>>(m@),
            Err(why) => parse_body(body@) == Err::<MessageView, Seq<char>>(why@),
        },
{
    let tag: u32 = match wire::get_tag(body) {
        Ok(tag) => tag,
        Err(why) => return Err(why),
    };
    if tag == 0 {
        match wire::get_listing(body) {
            Ok((_, listed)) => Ok(Message::Manifest(entries_listed(listed))),
            Err(why) => Err(why),
        }
    } else if tag == 1 {
        match wire::get_blob(body) {
            Ok((_, ct)) => Ok(Message::Chunk(ct)),
            Err(why) => Err(why),
        }
    } else if tag == 2 {
        match wire::get_hash(body) {
            Ok((_, hash)) => Ok(Message::FileEnd(hash)),
            Err(why) => Err(why),
        }
    } else if tag == 7 {
        match wire::get_blob(body) {
            Ok((_, ct)) => Ok(Message::Encrypted(ct)),
            Err(why) => Err(why),
        }
    } else if tag > 7 {
        let why = text::concat(
            "invalid value: integer `",
            text::decimal_text(tag as u64).as_str(),
        );
        Err(text::concat(why.as_str(), "`, expected variant index 0 <= i < 8"))
    } else {
        match wire::get_only_tag(body) {
            Err(why) => Err(why),
            Ok(_) => if tag == 3 {
                Ok(Message::Done)
            } else if tag == 4 {
                Ok(Message::Accept)
            } else if tag == 5 {
                Ok(Message::Reject)
            } else {
                Ok(Message::Cancel)
            },
        }
    }
}

/// A message that can be written: a file hash has 32 bytes.
pub open spec fn well_formed(m: MessageView) -> bool {
    m matches MessageView::FileEnd(h) ==> h.len() == 32
}

/// Decoding an encoded message gives the message back.
pub proof fn law_round_trip(m: MessageView)
    requires
        well_formed(m),
        fits(m),
    ensures
        parse_frame(frame_of(m)) == Ok::<MessageView, ProtocolErrorView>(m),
{
    let rest = match m {
        MessageView::Manifest(es) => wire::listing(es),
        MessageView::Chunk(ct) => wire::blob(ct),
        MessageView::FileEnd(h) => h,
        MessageView::Encrypted(ct) => wire::blob(ct),
        _ => Seq::<u8>::empty(),
    };
    wire::lemma_varint_round_trip(tag_of(m) as nat, rest);
    match m {
        MessageView::Manifest(es) => {
            wire::lemma_listing_round_trip(es, Seq::empty());
            assert(wire::listing(es) + Seq::<u8>::empty() =~= wire::listing(es));
        },
        MessageView::Chunk(ct) => {
            wire::lemma_blob_round_trip(ct, Seq::empty());
            assert(wire::blob(ct) + Seq::<u8>::empty() =~= wire::blob(ct));
        },
        MessageView::Encrypted(ct) => {
            wire::lemma_blob_round_trip(ct, Seq::empty());
            assert(wire::blob(ct) + Seq::<u8>::empty() =~= wire::blob(ct));
        },
        _ => {},
    }
    assert(frame_of(m).skip(1) =~= body_of(m));
}

/// A frame of another version is refused whatever it holds.
pub proof fn law_other_versions_are_refused(frame: Seq<u8>)
    requires
        frame.len() >= 2,
        frame[0] != WIRE_VERSION,
    ensures
        parse_frame(frame) == Err::<MessageView, ProtocolErrorView>(
            ProtocolErrorView::Version(frame[0]),
        ),
{
}

/// No two messages have the same frame.
pub proof fn law_frames_differ(m: MessageView, n: MessageView)
    requires
        well_formed(m),
        well_formed(n),
        fits(m),
        fits(n),
        frame_of(m) == frame_of(n),
    ensures
        m == n,
{
    law_round_trip(m);
    law_round_trip(n);
}

/// The frame of every message: the version, the number of its variant, and what it
/// carries behind the length of it.
pub proof fn law_frame_layout(es: Seq<(Seq<char>, u64)>, bytes: Seq<u8>)
    ensures
        frame_of(MessageView::Manifest(es)) == seq![1u8, 0u8] + wire::listing(es),
        frame_of(MessageView::Chunk(bytes)) == seq![1u8, 1u8] + wire::varint(bytes.len()) + bytes,
        frame_of(MessageView::FileEnd(bytes)) == seq![1u8, 2u8] + bytes,
        frame_of(MessageView::Done) == seq![1u8, 3u8],
        frame_of(MessageView::Accept) == seq![1u8, 4u8],
        frame_of(MessageView::Reject) == seq![1u8, 5u8],
        frame_of(MessageView::Cancel) == seq![1u8, 6u8],
        frame_of(MessageView::Encrypted(bytes)) == seq![1u8, 7u8] + wire::varint(bytes.len())
            + bytes,
{
    assert(frame_of(MessageView::Manifest(es)) =~= seq![1u8, 0u8] + wire::listing(es));
    assert(frame_of(MessageView::Chunk(bytes)) =~= seq![1u8, 1u8] + wire::varint(bytes.len())
        + bytes);
    assert(frame_of(MessageView::FileEnd(bytes)) =~= seq![1u8, 2u8] + bytes);
    assert(frame_of(MessageView::Done) =~= seq![1u8, 3u8]);
    assert(frame_of(MessageView::Accept) =~= seq![1u8, 4u8]);
    assert(frame_of(MessageView::Reject) =~= seq![1u8, 5u8]);
    assert(frame_of(MessageView::Cancel) =~= seq![1u8, 6u8]);
    assert(frame_of(MessageView::Encrypted(bytes)) =~= seq![1u8, 7u8] + wire::varint(bytes.len())
        + bytes);
}

/// A message is read again from its frame up to a body of one mebibyte; a frame of
/// another version, one that is too short and one that is too long are refused as
/// such.
pub proof fn law_what_is_read(m: MessageView, frame: Seq<u8>)
    ensures
        body_of(m).len() <= 1_048_576 && (m matches MessageView::FileEnd(h) ==> h.len() == 32)
            ==> parse_frame(frame_of(m)) == Ok::<MessageView, ProtocolErrorView>(m),
        fits(m) <==> body_of(m).len() <= 1_048_576,
        frame.len() < 2 ==> parse_frame(frame) == Err::<MessageView, ProtocolErrorView>(
            ProtocolErrorView::TooShort,
        ),
        frame.len() >= 2 && frame[0] != 1 ==> parse_frame(frame) == Err::<
            MessageView,
            ProtocolErrorView,
        >(ProtocolErrorView::Version(frame[0])),
        frame.len() > 1_048_577 ==> parse_frame(frame) is Err,
{
    if body_of(m).len() <= 1_048_576 && (m matches MessageView::FileEnd(h) ==> h.len() == 32) {
        law_round_trip(m);
    }
}

/// Messages are seen with all that they carry.
pub proof fn law_messages_are_seen_whole(es: Vec<ManifestEntry>, bytes: Vec<u8>, h: [u8; 32])
    ensures
        Message::Manifest(es)@ == MessageView::Manifest(
            Seq::new(es@.len(), |i: int| (es@[i].rel_path@, es@[i].size)),
        ),
        Message::Chunk(bytes)@ == MessageView::Chunk(bytes@),
        Message::FileEnd(h)@ == MessageView::FileEnd(h@),
        Message::Encrypted(bytes)@ == MessageView::Encrypted(bytes@),
        Message::Done@ == MessageView::Done,
        Message::Accept@ == MessageView::Accept,
        Message::Reject@ == MessageView::Reject,
        Message::Cancel@ == MessageView::Cancel,
{
    assert(entries_view(es@) =~= Seq::new(es@.len(), |i: int| (es@[i].rel_path@, es@[i].size)));
}

/// A body is read by the number of its variant: a list of files, bytes, a hash of
/// 32 bytes or nothing, to its last byte; any other number is named as unknown.
pub proof fn law_bodies(body: Seq<u8>, tag: u32, rest: Seq<u8>)
    requires
        wire::read_tag(body) == Some((tag, rest)),
    ensures
        tag == 0 ==> (parse_body(body) is Ok <==> wire::whole(wire::read_listing(rest)) is Some),
        tag == 0 ==> (parse_body(body) matches Ok(m) ==> m == MessageView::Manifest(
            wire::whole(wire::read_listing(rest))->0,
        )),
        tag == 1 || tag == 7 ==> (parse_body(body) is Ok <==> wire::whole(
            wire::read_blob(rest),
        ) is Some),
        tag == 1 ==> (parse_body(body) matches Ok(m) ==> m == MessageView::Chunk(
            wire::whole(wire::read_blob(rest))->0,
        )),
        tag == 7 ==> (parse_body(body) matches Ok(m) ==> m == MessageView::Encrypted(
            wire::whole(wire::read_blob(rest))->0,
        )),
        tag == 2 ==> (parse_body(body) is Ok <==> rest.len() == 32),
        tag == 2 && rest.len() == 32 ==> parse_body(body) == Ok::<MessageView, Seq<char>>(
            MessageView::FileEnd(rest),
        ),
        3 <= tag <= 6 ==> (parse_body(body) is Ok <==> rest.len() == 0),
        tag == 3 && rest.len() == 0 ==> parse_body(body) == Ok::<MessageView, Seq<char>>(
            MessageView::Done,
        ),
        tag == 4 && rest.len() == 0 ==> parse_body(body) == Ok::<MessageView, Seq<char>>(
            MessageView::Accept,
        ),
        tag == 5 && rest.len() == 0 ==> parse_body(body) == Ok::<MessageView, Seq<char>>(
            MessageView::Reject,
        ),
        tag == 6 && rest.len() == 0 ==> parse_body(body) == Ok::<MessageView, Seq<char>>(
            MessageView::Cancel,
        ),
        tag > 7 ==> parse_body(body) == Err::<MessageView, Seq<char>>(
            "invalid value: integer `"@ + text::decimal(tag as nat)
                + "`, expected variant index 0 <= i < 8"@,
        ),
        2 <= body.len() + 1 <= 1_048_577 ==> (parse_frame(seq![1u8] + body) is Ok <==> parse_body(
            body,
        ) is Ok),
{
    assert((seq![1u8] + body).skip(1) =~= body);
}

/// Files are read in pieces of a quarter of a mebibyte, and no frame has more than
/// one mebibyte.
pub proof fn law_sizes()
    ensures
        CHUNK_SIZE == 256 * 1024,
        DECODE_LIMIT == 1024 * 1024,
        MAX_FRAME == 1024 * 1024,
        WIRE_VERSION == 1,
{
}

/// Errors are seen with all that they carry.
pub proof fn law_protocol_errors_are_seen_whole(e: ProtocolError)
    ensures
        e is Encode <==> e@ is Encode,
        e is TooShort <==> e@ is TooShort,
        e matches ProtocolError::Version(v) ==> e@ == ProtocolErrorView::Version(v),
        e matches ProtocolError::Decode(t) ==> e@ == ProtocolErrorView::Decode(t@),
{
}

} // verus!
