//! The sending side of a transfer, step by step: sizes are gathered, the
//! manifest goes out, the peer accepts, each file goes out in chunks followed
//! by its hash, and the peer confirms.
use crate::crypto;
use crate::crypto::SessionKeys;
use crate::hashing;
use crate::protocol;
use crate::protocol::{ManifestEntry, Message};
use crate::transfer;
use crate::transfer::{ErrorView, Progress, SendItem, TransferError};
use vstd::prelude::*;

verus! {

/// Where a sender stands.
#[derive(Debug, Clone, Copy, PartialEq, Eq, Structural)]
pub enum SendPhase {
    /// The sizes of the items are being gathered.
    Sizing,
    /// The manifest is out.
    AwaitingAccept,
    /// Between two files.
    Sending,
    /// Within a file.
    InFile,
    /// The peer has confirmed.
    Finished,
    /// The user has cancelled.
    Cancelled,
}

/// What a sender stands for.
pub ghost struct SenderView {
    pub phase: SendPhase,
    /// Sources and announced paths.
    pub items: Seq<(Seq<char>, Seq<char>)>,
    /// The sizes gathered so far, in the order of the items.
    pub sizes: Seq<u64>,
    /// How many files are out.
    pub index: nat,
    /// How many bytes of file contents are out.
    pub transferred: u64,
    /// The bytes of the current file that are out.
    pub content: Seq<u8>,
}

/// The sum of sizes.
pub open spec fn total_of(sizes: Seq<u64>) -> nat
    decreases sizes.len(),
{
    if sizes.len() == 0 {
        0
    } else {
        total_of(sizes.drop_last()) + sizes.last() as nat
    }
}

impl SenderView {
    /// The manifest that announces the items.
    pub open spec fn manifest(self) -> protocol::MessageView {
        protocol::MessageView::Manifest(
            Seq::new(self.items.len(), |k: int| (self.items[k].1, self.sizes[k])),
        )
    }

    /// Whether the peer knows of the transfer and waits for more of it.
    pub open spec fn announced(self) -> bool {
        self.phase == SendPhase::AwaitingAccept || self.phase == SendPhase::Sending || self.phase
            == SendPhase::InFile
    }

    /// Whether every item has its size.
    pub open spec fn sized(self) -> bool {
        self.sizes.len() == self.items.len()
    }
}

/// The sending side of one transfer.
pub struct Sender {
    phase: SendPhase,
    items: Vec<SendItem>,
    sizes: Vec<u64>,
    total: u64,
    index: usize,
    transferred: u64,
    hasher: blake3::Hasher,
}

impl View for Sender {
    type V = SenderView;

    closed spec fn view(&self) -> SenderView {
        SenderView {
            phase: self.phase,
            items: transfer::items_view(self.items@),
            sizes: self.sizes@,
            index: self.index as nat,
            transferred: self.transferred,
            content: hashing::hashed(self.hasher),
        }
    }
}

impl Sender {
    /// The total is the sum of the sizes; after the sizing every item has one;
    /// what is out of the current file is part of what is out at all.
    pub closed spec fn wf(&self) -> bool {
        &&& self.items@.len() <= transfer::MAX_FILES
        &&& self.sizes@.len() <= self.items@.len()
        &&& self.total == total_of(self.sizes@)
        &&& self.phase != SendPhase::Sizing && self.phase != SendPhase::Cancelled ==> self.sizes@.len()
            == self.items@.len()
        &&& self.index <= self.items@.len()
        &&& self.phase == SendPhase::InFile ==> self.index < self.items@.len()
        &&& hashing::hashed(self.hasher).len() <= self.transferred
    }

    /// Begin to send `items`. Refuses once the user has cancelled, or where
    /// there are more items than a manifest may list.
    pub fn new(items: Vec<SendItem>, cancelled: bool) -> (r: Result<Sender, TransferError>)
        ensures
            match r {
                Ok(s) => !cancelled && items@.len() <= transfer::MAX_FILES && s.wf() && s@
                    == (SenderView {
                    phase: SendPhase::Sizing,
                    items: transfer::items_view(items@),
                    sizes: Seq::empty(),
                    index: 0,
                    transferred: 0,
                    content: Seq::empty(),
                }),
                Err(e) => e == (if cancelled {
                    TransferError::Cancelled
                } else {
                    TransferError::TooManyFiles
                }) && (cancelled || items@.len() > transfer::MAX_FILES),
            },
    {
        transfer::check_cancel(cancelled)?;
        if items.len() > transfer::MAX_FILES {
            return Err(TransferError::TooManyFiles);
        }
        Ok(
            Sender {
                phase: SendPhase::Sizing,
                items,
                sizes: Vec::new(),
                total: 0,
                index: 0,
                transferred: 0,
                hasher: hashing::new_hasher(),
            },
        )
    }

    /// Where the sender stands.
    pub fn phase(&self) -> (phase: SendPhase)
        ensures
            phase == self@.phase,
    {
        self.phase
    }

    /// The item whose size is wanted next.
    pub fn unsized_item(&self) -> (item: Option<&SendItem>)
        requires
            self.wf(),
        ensures
            match item {
                Some(i) => !self@.sized() && i.view() == self@.items[self@.sizes.len() as int],
                None => self@.sized(),
            },
    {
        if self.sizes.len() < self.items.len() {
            Some(&self.items[self.sizes.len()])
        } else {
            None
        }
    }

    /// Note the size of the next item. Refuses where the total no longer fits
    /// into 64 bits.
    pub fn add_size(&mut self, size: u64) -> (r: Result<(), TransferError>)
        requires
            old(self).wf(),
            old(self)@.phase == SendPhase::Sizing,
            !old(self)@.sized(),
        ensures
            final(self).wf(),
            match r {
                Ok(_) => total_of(old(self)@.sizes) + size <= u64::MAX && final(self)@
                    == (SenderView { sizes: old(self)@.sizes.push(size), ..old(self)@ }),
                Err(e) => total_of(old(self)@.sizes) + size > u64::MAX && e
                    == TransferError::TotalOverflow && final(self)@ == old(self)@,
            },
    {
        match self.total.checked_add(size) {
            Some(total) => {
                self.total = total;
                self.sizes.push(size);
                assert(self.sizes@.drop_last() =~= old(self).sizes@);
                Ok(())
            },
            None => Err(TransferError::TotalOverflow),
        }
    }

    /// The sum of the sizes.
    pub fn total(&self) -> (total: u64)
        requires
            self.wf(),
        ensures
            total == total_of(self@.sizes),
    {
        self.total
    }

    /// The frame that announces the items. Refuses where the manifest does not
    /// fit into a frame.
    pub fn manifest(&mut self, keys: &SessionKeys) -> (r: Result<Vec<u8>, TransferError>)
        requires
            old(self).wf(),
            old(self)@.phase == SendPhase::Sizing,
            old(self)@.sized(),
        ensures
            final(self).wf(),
            match r {
                Ok(frame) => transfer::is_sealed(
                    keys.control_key@,
                    old(self)@.manifest(),
                    frame@,
                ) && transfer::opened(keys.control_key@, frame@) == Ok::<
                    protocol::MessageView,
                    ErrorView,
                >(old(self)@.manifest()) && final(self)@ == (SenderView {
                    phase: SendPhase::AwaitingAccept,
                    ..old(self)@
                }),
                Err(e) => !transfer::seal_fits(old(self)@.manifest()) && e
                    == TransferError::Protocol(protocol::ProtocolError::Encode) && final(self)@
                    == old(self)@,
            },
    {
        let mut entries: Vec<ManifestEntry> = Vec::new();
        for i in 0..self.items.len()
            invariant
                self.wf(),
                self.sizes@.len() == self.items@.len(),
                *self == *old(self),
                entries@.len() == i,
                forall|k: int|
                    0 <= k < i ==> (#[trigger] entries@[k]).view() == (
                        self.items@[k].rel_path@,
                        self.sizes@[k],
                    ),
        {
            entries.push(
                ManifestEntry { rel_path: self.items[i].rel_path.clone(), size: self.sizes[i] },
            );
        }
        let msg = Message::Manifest(entries);
        proof {
            let es = protocol::entries_view(entries@);
            let want = Seq::new(
                old(self)@.items.len(),
                |k: int| (old(self)@.items[k].1, old(self)@.sizes[k]),
            );
            assert forall|k: int| 0 <= k < es.len() implies #[trigger] es[k] == want[k] by {
                assert(entries@[k].view() == (self.items@[k].rel_path@, self.sizes@[k]));
            }
            assert(es =~= want);
            assert(msg@ == old(self)@.manifest());
        }
        match transfer::seal_control(keys, &msg) {
            Ok(frame) => {
                self.phase = SendPhase::AwaitingAccept;
                Ok(frame)
            },
            Err(e) => Err(e),
        }
    }

    /// Take the peer's answer to the manifest: only `Accept` lets files follow.
    pub fn on_reply(&mut self, keys: &SessionKeys, frame: &[u8]) -> (r: Result<(), TransferError>)
        requires
            old(self).wf(),
            old(self)@.phase == SendPhase::AwaitingAccept,
        ensures
            final(self).wf(),
            outcome_view(r) == accept_outcome(transfer::opened(keys.control_key@, frame@)),
            final(self)@ == (if r is Ok {
                SenderView { phase: SendPhase::Sending, ..old(self)@ }
            } else {
                old(self)@
            }),
    {
        match transfer::open_control(keys, frame) {
            Ok(Message::Accept) => {
                self.phase = SendPhase::Sending;
                Ok(())
            },
            Ok(Message::Reject) => Err(TransferError::RejectedByPeer),
            Ok(Message::Cancel) => Err(TransferError::CancelledByPeer),
            Ok(m) => Err(TransferError::ExpectedAccept(m)),
            Err(e) => Err(e),
        }
    }

    /// Begin the next file and tell where to read it. Refuses once the user has
    /// cancelled.
    pub fn begin_file(&mut self, cancelled: bool) -> (r: Result<String, TransferError>)
        requires
            old(self).wf(),
            old(self)@.phase == SendPhase::Sending,
            old(self)@.index < old(self)@.items.len(),
        ensures
            final(self).wf(),
            match r {
                Ok(source) => !cancelled && source@ == old(self)@.items[old(self)@.index as int].0
                    && final(self)@ == (SenderView {
                    phase: SendPhase::InFile,
                    content: Seq::empty(),
                    ..old(self)@
                }),
                Err(e) => cancelled && e == TransferError::Cancelled && final(self)@ == old(self)@,
            },
    {
        transfer::check_cancel(cancelled)?;
        self.hasher = hashing::new_hasher();
        self.phase = SendPhase::InFile;
        Ok(self.items[self.index].source.clone())
    }

    /// The frame of one chunk of the current file, and the progress it makes.
    /// Refuses a chunk that does not fit into a frame.
    pub fn chunk(&mut self, keys: &SessionKeys, plaintext: &[u8]) -> (r: Result<
        (Vec<u8>, Progress),
        TransferError,
    >)
        requires
            old(self).wf(),
            old(self)@.phase == SendPhase::InFile,
            old(self)@.transferred + plaintext@.len() <= u64::MAX,
        ensures
            final(self).wf(),
            match r {
                Ok((frame, progress)) => chunk_fits(plaintext@.len()) && is_chunk(
                    keys.file_key@,
                    plaintext@,
                    frame@,
                ) && progress.transferred == old(self)@.transferred + plaintext@.len()
                    && progress.total == total_of(old(self)@.sizes) && final(self)@
                    == (SenderView {
                    transferred: progress.transferred,
                    content: old(self)@.content + plaintext@,
                    ..old(self)@
                }),
                Err(e) => !chunk_fits(plaintext@.len()) && final(self)@ == old(self)@ && e
                    == if plaintext@.len() > crypto::MAX_PLAINTEXT {
                    TransferError::Crypto(crypto::CryptoError::Encrypt)
                } else {
                    TransferError::Protocol(protocol::ProtocolError::Encode)
                },
            },
    {
        let ct = match crypto::encrypt_chunk(&keys.file_key, plaintext) {
            Ok(ct) => ct,
            Err(e) => return Err(TransferError::Crypto(e)),
        };
        let ghost packed = ct@;
        let msg = Message::Chunk(ct);
        let frame = match protocol::encode(&msg) {
            Ok(frame) => frame,
            Err(e) => return Err(TransferError::Protocol(e)),
        };
        proof {
            protocol::law_round_trip(msg@);
            assert(chunk_holds(keys.file_key@, plaintext@, packed));
        }
        hashing::update(&mut self.hasher, plaintext);
        self.transferred = self.transferred + plaintext.len() as u64;
        Ok((frame, Progress { transferred: self.transferred, total: self.total }))
    }

    /// The frame that ends the current file with the hash of what was sent of
    /// it.
    pub fn end_file(&mut self, keys: &SessionKeys) -> (r: Result<Vec<u8>, TransferError>)
        requires
            old(self).wf(),
            old(self)@.phase == SendPhase::InFile,
        ensures
            final(self).wf(),
            r is Ok,
            transfer::is_sealed(
                keys.control_key@,
                protocol::MessageView::FileEnd(hashing::blake3_digest(old(self)@.content)),
                r->Ok_0@,
            ),
            transfer::opened(keys.control_key@, r->Ok_0@) == Ok::<
                protocol::MessageView,
                ErrorView,
            >(protocol::MessageView::FileEnd(hashing::blake3_digest(old(self)@.content))),
            final(self)@ == (SenderView {
                phase: SendPhase::Sending,
                index: old(self)@.index + 1,
                ..old(self)@
            }),
    {
        let msg = Message::FileEnd(hashing::digest(&self.hasher));
        let r = transfer::seal_control(keys, &msg);
        self.phase = SendPhase::Sending;
        self.index = self.index + 1;
        r
    }

    /// Whether every file is out.
    pub fn all_sent(&self) -> (yes: bool)
        ensures
            yes == (self@.index == self@.items.len()),
    {
        self.index == self.items.len()
    }

    /// Take the peer's last word: only `Done` completes the transfer.
    pub fn on_done(&mut self, keys: &SessionKeys, frame: &[u8]) -> (r: Result<(), TransferError>)
        requires
            old(self).wf(),
            old(self)@.phase == SendPhase::Sending,
            old(self)@.index == old(self)@.items.len(),
        ensures
            final(self).wf(),
            outcome_view(r) == done_outcome(transfer::opened(keys.control_key@, frame@)),
            final(self)@ == (if r is Ok {
                SenderView { phase: SendPhase::Finished, ..old(self)@ }
            } else {
                old(self)@
            }),
    {
        match transfer::open_control(keys, frame) {
            Ok(Message::Done) => {
                self.phase = SendPhase::Finished;
                Ok(())
            },
            Ok(Message::Cancel) => Err(TransferError::CancelledByPeer),
            Ok(m) => Err(TransferError::ExpectedDone(m)),
            Err(e) => Err(e),
        }
    }

    /// Give the transfer up because the user cancelled. Gives the frame that
    /// tells the peer so, exactly where the peer waits for more of the transfer.
    pub fn cancel(&mut self, keys: &SessionKeys) -> (frame: Option<Vec<u8>>)
        requires
            old(self).wf(),
        ensures
            final(self).wf(),
            match frame {
                Some(f) => old(self)@.announced() && transfer::is_sealed(
                    keys.control_key@,
                    protocol::MessageView::Cancel,
                    f@,
                ) && transfer::opened(keys.control_key@, f@) == Ok::<
                    protocol::MessageView,
                    ErrorView,
                >(protocol::MessageView::Cancel),
                None => !old(self)@.announced(),
            },
            final(self)@ == (SenderView {
                phase: if old(self)@.phase == SendPhase::Finished {
                    SendPhase::Finished
                } else {
                    SendPhase::Cancelled
                },
                ..old(self)@
            }),
    {
        let announced = match self.phase {
            SendPhase::AwaitingAccept | SendPhase::Sending | SendPhase::InFile => true,
            _ => false,
        };
        if self.phase != SendPhase::Finished {
            self.phase = SendPhase::Cancelled;
        }
        if !announced {
            return None;
        }
        proof {
            transfer::law_answers_fit(protocol::MessageView::Cancel);
        }
        match transfer::seal_control(keys, &Message::Cancel) {
            Ok(frame) => Some(frame),
            Err(_) => None,
        }
    }
}

/// How taking a frame ended, by contents.
pub open spec fn outcome_view(r: Result<(), TransferError>) -> Result<(), ErrorView> {
    match r {
        Ok(()) => Ok(()),
        Err(e) => Err(e@),
    }
}

/// What the peer's answer to a manifest means.
pub open spec fn accept_outcome(reply: Result<protocol::MessageView, ErrorView>) -> Result<
    (),
    ErrorView,
> {
    match reply {
        Ok(protocol::MessageView::Accept) => Ok(()),
        Ok(protocol::MessageView::Reject) => Err(ErrorView::RejectedByPeer),
        Ok(protocol::MessageView::Cancel) => Err(ErrorView::CancelledByPeer),
        Ok(m) => Err(ErrorView::ExpectedAccept(m)),
        Err(e) => Err(e),
    }
}

/// What the peer's answer to the last file means.
pub open spec fn done_outcome(reply: Result<protocol::MessageView, ErrorView>) -> Result<
    (),
    ErrorView,
> {
    match reply {
        Ok(protocol::MessageView::Done) => Ok(()),
        Ok(protocol::MessageView::Cancel) => Err(ErrorView::CancelledByPeer),
        Ok(m) => Err(ErrorView::ExpectedDone(m)),
        Err(e) => Err(e),
    }
}

/// Whether a chunk of `n` bytes fits into a frame once it is sealed.
pub open spec fn chunk_fits(n: nat) -> bool {
    let sealed = n + crypto::NONCE_LEN as nat + crypto::TAG_LEN as nat;
    1 + crate::wire::varint(sealed).len() + sealed <= protocol::DECODE_LIMIT
}

/// Whether `packed` is `plaintext` sealed under `key` and opens to it again.
pub open spec fn chunk_holds(key: Seq<u8>, plaintext: Seq<u8>, packed: Seq<u8>) -> bool {
    &&& crypto::seals(key, plaintext, packed)
    &&& crypto::unpacked(key, packed) == Ok::<Seq<u8>, crypto::CryptoError>(plaintext)
}

/// Whether `frame` carries `plaintext` as a chunk sealed under `key`.
pub open spec fn is_chunk(key: Seq<u8>, plaintext: Seq<u8>, frame: Seq<u8>) -> bool {
    exists|packed: Seq<u8>| #[trigger]
        chunk_holds(key, plaintext, packed) && frame == protocol::frame_of(
            protocol::MessageView::Chunk(packed),
        ) && protocol::parse_frame(frame) == Ok::<
            protocol::MessageView,
            protocol::ProtocolErrorView,
        >(protocol::MessageView::Chunk(packed))
}

/// Every chunk that is read from disk fits into a frame, and the frame into what
/// a connection accepts.
pub proof fn law_chunks_fit(n: nat)
    requires
        n <= protocol::CHUNK_SIZE,
    ensures
        chunk_fits(n),
        ({
            let sealed = n + crypto::NONCE_LEN as nat + crypto::TAG_LEN as nat;
            2 + crate::wire::varint(sealed).len() + sealed <= protocol::MAX_FRAME
        }),
{
    let sealed = n + crypto::NONCE_LEN as nat + crypto::TAG_LEN as nat;
    crate::wire::lemma_varint_round_trip(sealed, Seq::empty());
}

/// Every item is announced, in order, with its own path and its own size.
pub proof fn law_every_item_is_announced(v: SenderView)
    ensures
        v.manifest() matches protocol::MessageView::Manifest(es) && es.len() == v.items.len()
            && forall|k: int|
            0 <= k < es.len() ==> #[trigger] es[k] == (v.items[k].1, v.sizes[k]),
{
}

/// The total is the sum of the sizes: nothing is zero, and one more size adds to
/// it.
pub proof fn law_total_adds_up(sizes: Seq<u64>, size: u64)
    ensures
        total_of(Seq::<u64>::empty()) == 0,
        total_of(sizes.push(size)) == total_of(sizes) + size,
{
    assert(sizes.push(size).drop_last() =~= sizes);
}

/// Files follow exactly where the peer accepted, and the transfer is complete
/// exactly where the peer said so.
pub proof fn law_only_the_right_answer_counts(m: protocol::MessageView, e: ErrorView)
    ensures
        accept_outcome(Ok(m)) is Ok <==> m is Accept,
        done_outcome(Ok(m)) is Ok <==> m is Done,
        m is Reject ==> accept_outcome(Ok(m)) == Err::<(), ErrorView>(ErrorView::RejectedByPeer),
        m is Cancel ==> accept_outcome(Ok(m)) == Err::<(), ErrorView>(ErrorView::CancelledByPeer)
            && done_outcome(Ok(m)) == Err::<(), ErrorView>(ErrorView::CancelledByPeer),
        !(m is Accept || m is Reject || m is Cancel) ==> accept_outcome(Ok(m)) == Err::<
            (),
            ErrorView,
        >(ErrorView::ExpectedAccept(m)),
        !(m is Done || m is Cancel) ==> done_outcome(Ok(m)) == Err::<(), ErrorView>(
            ErrorView::ExpectedDone(m),
        ),
        accept_outcome(Err(e)) == Err::<(), ErrorView>(e),
        done_outcome(Err(e)) == Err::<(), ErrorView>(e),
{
}

/// A chunk can be sent exactly where it is at most one mebibyte once it is sealed,
/// which adds forty bytes, and wrapped; so every chunk of up to 262144 bytes can,
/// and its frame is that of a chunk message with the sealed bytes.
pub proof fn law_what_a_chunk_is(n: nat, key: Seq<u8>, plaintext: Seq<u8>, frame: Seq<u8>)
    ensures
        chunk_fits(n) <==> 1 + crate::wire::varint(n + 40).len() + n + 40 <= 1_048_576,
        n <= 262_144 ==> chunk_fits(n),
        is_chunk(key, plaintext, frame) ==> exists|packed: Seq<u8>| #[trigger]
            crypto::unpacked(key, packed) == Ok::<Seq<u8>, crypto::CryptoError>(plaintext) && frame
                == protocol::frame_of(protocol::MessageView::Chunk(packed)),
{
    if n <= 262_144 {
        law_chunks_fit(n);
    }
}

/// A peer waits for more of a transfer from the manifest on until it is complete.
pub proof fn law_when_the_peer_waits(v: SenderView)
    ensures
        v.announced() <==> v.phase == SendPhase::AwaitingAccept || v.phase == SendPhase::Sending
            || v.phase == SendPhase::InFile,
        v.sized() <==> v.sizes.len() == v.items.len(),
{
}

/// How taking a frame ended is seen as it is.
pub proof fn law_outcomes_are_seen_whole(r: Result<(), TransferError>)
    ensures
        r is Ok <==> outcome_view(r) is Ok,
        r matches Err(e) ==> outcome_view(r) == Err::<(), ErrorView>(e@),
{
}

} // verus!
