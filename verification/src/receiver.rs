//! The receiving side of a transfer, step by step: the manifest is checked,
//! each file is written to a temporary name, and takes its final name once its
//! size and its hash are right.
use crate::crypto;
use crate::crypto::SessionKeys;
use crate::hashing;
use crate::path;
use crate::protocol;
use crate::protocol::{ManifestEntry, Message};
use crate::transfer;
use crate::transfer::{ErrorView, Progress, TransferError};
use vstd::prelude::*;

verus! {

/// Where a receiver stands.
#[derive(Debug, Clone, Copy, PartialEq, Eq, Structural)]
pub enum RecvPhase {
    /// Between two files.
    Between,
    /// Within a file.
    InFile,
    /// Every file is verified and the peer is told so.
    Finished,
}

/// What a receiver stands for.
pub ghost struct ReceiverView {
    pub phase: RecvPhase,
    pub dest_dir: Seq<char>,
    /// Paths are those of Windows.
    pub windows: bool,
    /// The manifest: paths and declared sizes.
    pub entries: Seq<(Seq<char>, u64)>,
    /// How many files are verified.
    pub index: nat,
    /// How many bytes of file contents have come in.
    pub transferred: u64,
    /// The bytes of the current file that have come in.
    pub content: Seq<u8>,
    /// The contents of the files that are verified, in order.
    pub files: Seq<Seq<u8>>,
}

/// Where one file goes.
#[derive(Debug, Clone, PartialEq, Eq)]
pub struct FilePlan {
    /// The final name.
    pub dest: String,
    /// The temporary name until the file is verified.
    pub partial: String,
    /// The directory of both, to be created where it is missing.
    pub parent: String,
}

/// What to do after a frame of the current file.
#[derive(Debug, Clone, PartialEq, Eq)]
pub enum FileStep {
    /// Append the bytes to the temporary file.
    Write(Vec<u8>, Progress),
    /// The file is complete: give it its final name.
    Verified,
}

/// The message that a frame of a file carries: a chunk in the clear frame, or a
/// sealed control message.
pub open spec fn file_message(keys: SessionKeys, frame: Seq<u8>) -> Result<
    protocol::MessageView,
    ErrorView,
> {
    match protocol::parse_frame(frame) {
        Err(e) => Err(ErrorView::Protocol(e)),
        Ok(protocol::MessageView::Chunk(ct)) => Ok(protocol::MessageView::Chunk(ct)),
        Ok(_) => transfer::opened(keys.control_key@, frame),
    }
}

impl ReceiverView {
    /// The declared size of the current file.
    pub open spec fn declared(self) -> u64 {
        self.entries[self.index as int].1
    }

    /// The receiver after more bytes of the current file, or why they are
    /// refused.
    pub open spec fn taking(self, plaintext: Seq<u8>) -> Result<ReceiverView, ErrorView> {
        let sent = self.content.len() + plaintext.len();
        if sent > u64::MAX {
            Err(ErrorView::FileOverflow)
        } else if sent > self.declared() {
            Err(ErrorView::TooManyBytes { sent: sent as u64, declared: self.declared() })
        } else {
            Ok(
                ReceiverView {
                    transferred: (self.transferred + plaintext.len()) as u64,
                    content: self.content + plaintext,
                    ..self
                },
            )
        }
    }

    /// The receiver after the end of the current file, or why the file is
    /// refused.
    pub open spec fn ending(self, hash: Seq<u8>) -> Result<ReceiverView, ErrorView> {
        if self.content.len() != self.declared() {
            Err(
                ErrorView::SizeMismatch {
                    declared: self.declared(),
                    received: self.content.len() as u64,
                },
            )
        } else if hashing::blake3_digest(self.content) != hash {
            Err(ErrorView::IntegrityFailed)
        } else {
            Ok(
                ReceiverView {
                    phase: RecvPhase::Between,
                    index: self.index + 1,
                    content: Seq::empty(),
                    files: self.files.push(self.content),
                    ..self
                },
            )
        }
    }

    /// The receiver after a frame of the current file, or why the transfer
    /// ends.
    pub open spec fn after(self, keys: SessionKeys, frame: Seq<u8>) -> Result<
        ReceiverView,
        ErrorView,
    > {
        match file_message(keys, frame) {
            Err(e) => Err(e),
            Ok(protocol::MessageView::Chunk(ct)) => match crypto::unpacked(keys.file_key@, ct) {
                Err(e) => Err(ErrorView::Crypto(e)),
                Ok(plaintext) => self.taking(plaintext),
            },
            Ok(protocol::MessageView::FileEnd(hash)) => self.ending(hash),
            Ok(protocol::MessageView::Cancel) => Err(ErrorView::CancelledByPeer),
            Ok(m) => Err(ErrorView::UnexpectedDuringFile(m)),
        }
    }

    /// What holds of every receiver: a manifest that passed, all of the declared
    /// bytes of every verified file, no more of the current file than was
    /// declared, and a count that adds up.
    pub open spec fn sound(self) -> bool {
        &&& transfer::checked_manifest(self.entries, self.windows) is Ok
        &&& self.index <= self.entries.len()
        &&& self.files.len() == self.index
        &&& forall|i: int|
            0 <= i < self.index ==> (#[trigger] self.files[i]).len() == self.entries[i].1
        &&& self.phase == RecvPhase::InFile ==> self.index < self.entries.len()
            && self.content.len() <= self.declared()
        &&& self.phase != RecvPhase::InFile ==> self.content.len() == 0
        &&& self.transferred == transfer::sum_sizes(self.entries, self.index) + self.content.len()
    }
}

/// What has come in never exceeds the total of the manifest.
pub proof fn law_transferred_is_bounded(v: ReceiverView)
    requires
        v.sound(),
    ensures
        v.transferred <= transfer::sum_sizes(v.entries, v.entries.len()) <= transfer::MAX_TOTAL,
{
    transfer::law_manifest_passes_iff_safe(v.entries, v.windows);
    if v.phase == RecvPhase::InFile {
        transfer::lemma_sum_sizes_grow(v.entries, v.index + 1, v.entries.len());
    } else {
        transfer::lemma_sum_sizes_grow(v.entries, v.index, v.entries.len());
    }
}

/// The receiving side of one transfer.
pub struct Receiver {
    phase: RecvPhase,
    dest_dir: String,
    windows: bool,
    entries: Vec<ManifestEntry>,
    total: u64,
    index: usize,
    written: u64,
    transferred: u64,
    hasher: blake3::Hasher,
    files: Ghost<Seq<Seq<u8>>>,
}

impl View for Receiver {
    type V = ReceiverView;

    closed spec fn view(&self) -> ReceiverView {
        ReceiverView {
            phase: self.phase,
            dest_dir: self.dest_dir@,
            windows: self.windows,
            entries: protocol::entries_view(self.entries@),
            index: self.index as nat,
            transferred: self.transferred,
            content: hashing::hashed(self.hasher),
            files: self.files@,
        }
    }
}

/// What a first frame amounts to: the manifest in it, if it passes.
pub open spec fn manifest_in(keys: SessionKeys, frame: Seq<u8>, windows: bool) -> Result<
    Seq<(Seq<char>, u64)>,
    ErrorView,
> {
    match transfer::opened(keys.control_key@, frame) {
        Ok(protocol::MessageView::Manifest(es)) => match transfer::checked_manifest(es, windows) {
            Ok(_) => Ok(es),
            Err(e) => Err(e),
        },
        Ok(m) => Err(ErrorView::ExpectedManifest(m)),
        Err(e) => Err(e),
    }
}

fn same_bytes(a: &[u8], b: &[u8]) -> (same: bool)
    ensures
        same == (a@ == b@),
{
    if a.len() != b.len() {
        return false;
    }
    for i in 0..a.len()
        invariant
            a@.len() == b@.len(),
            forall|k: int| 0 <= k < i ==> a@[k] == b@[k],
    {
        if a[i] != b[i] {
            return false;
        }
    }
    assert(a@ =~= b@);
    true
}

/// The message that a frame of a file carries.
pub fn open_message(keys: &SessionKeys, frame: &[u8]) -> (r: Result<Message, TransferError>)
    ensures
        match r {
            Ok(m) => file_message(*keys, frame@) == Ok::<protocol::MessageView, ErrorView>(m@),
            Err(e) => file_message(*keys, frame@) == Err::<protocol::MessageView, ErrorView>(e@),
        },
{
    match protocol::decode(frame) {
        Ok(Message::Chunk(ct)) => Ok(Message::Chunk(ct)),
        Ok(_) => transfer::open_control(keys, frame),
        Err(e) => Err(TransferError::Protocol(e)),
    }
}

/// The manifest in a first frame and its total, if it passes.
pub fn open_manifest(keys: &SessionKeys, frame: &[u8], windows: bool) -> (r: Result<
    (Vec<ManifestEntry>, u64),
    TransferError,
>)
    ensures
        match r {
            Ok((es, total)) => manifest_in(*keys, frame@, windows) == Ok::<
                Seq<(Seq<char>, u64)>,
                ErrorView,
            >(protocol::entries_view(es@)) && transfer::checked_manifest(
                protocol::entries_view(es@),
                windows,
            ) == Ok::<u64, ErrorView>(total),
            Err(e) => manifest_in(*keys, frame@, windows) == Err::<
                Seq<(Seq<char>, u64)>,
                ErrorView,
            >(e@),
        },
{
    match transfer::open_control(keys, frame) {
        Ok(Message::Manifest(es)) => match transfer::validate_manifest(es.as_slice(), windows) {
            Ok(total) => Ok((es, total)),
            Err(e) => Err(e),
        },
        Ok(m) => Err(TransferError::ExpectedManifest(m)),
        Err(e) => Err(e),
    }
}

impl Receiver {
    /// The fields agree with each other and with what holds of every receiver.
    pub closed spec fn wf(&self) -> bool {
        &&& self@.sound()
        &&& transfer::checked_manifest(self@.entries, self.windows) == Ok::<u64, ErrorView>(self.total)
        &&& self.written == hashing::hashed(self.hasher).len()
    }

    /// Begin to receive what the manifest in `first_frame` announces, into
    /// `dest_dir`.
    pub fn open(
        keys: &SessionKeys,
        first_frame: &[u8],
        dest_dir: &str,
        windows: bool,
    ) -> (r: Result<Receiver, TransferError>)
        ensures
            match r {
                Ok(v) => manifest_in(*keys, first_frame@, windows) == Ok::<
                    Seq<(Seq<char>, u64)>,
                    ErrorView,
                >(v@.entries) && v.wf() && v@.sound() && v@ == (ReceiverView {
                    phase: RecvPhase::Between,
                    dest_dir: dest_dir@,
                    windows,
                    entries: v@.entries,
                    index: 0,
                    transferred: 0,
                    content: Seq::empty(),
                    files: Seq::empty(),
                }),
                Err(e) => manifest_in(*keys, first_frame@, windows) == Err::<
                    Seq<(Seq<char>, u64)>,
                    ErrorView,
                >(e@),
            },
    {
        match open_manifest(keys, first_frame, windows) {
            Ok((entries, total)) => Ok(
                Receiver {
                    phase: RecvPhase::Between,
                    dest_dir: dest_dir.to_owned(),
                    windows,
                    entries,
                    total,
                    index: 0,
                    written: 0,
                    transferred: 0,
                    hasher: hashing::new_hasher(),
                    files: Ghost(Seq::empty()),
                },
            ),
            Err(e) => Err(e),
        }
    }

    /// Where the receiver stands.
    pub fn phase(&self) -> (phase: RecvPhase)
        ensures
            phase == self@.phase,
    {
        self.phase
    }

    /// The total of the manifest.
    pub fn total(&self) -> (total: u64)
        requires
            self.wf(),
        ensures
            total == transfer::sum_sizes(self@.entries, self@.entries.len()),
    {
        proof {
            transfer::law_manifest_passes_iff_safe(self@.entries, self@.windows);
        }
        self.total
    }

    /// Whether every file is verified.
    pub fn all_received(&self) -> (yes: bool)
        ensures
            yes == (self@.index == self@.entries.len()),
    {
        self.index == self.entries.len()
    }

    /// Begin the next file and tell where it goes: a free name and a free
    /// temporary name as `taken` tells, both in the destination directory, so
    /// that nothing is overwritten on the way or at the end. Refuses once the
    /// user has cancelled, or where no name is free.
    pub fn begin_file<F: Fn(&str) -> bool>(&mut self, cancelled: bool, taken: F) -> (r: Result<
        FilePlan,
        TransferError,
    >)
        requires
            old(self).wf(),
            old(self)@.phase == RecvPhase::Between,
            old(self)@.index < old(self)@.entries.len(),
            forall|s: &str| #[trigger] call_requires(taken, (s,)),
        ensures
            final(self).wf(),
            final(self)@.sound(),
            ({
                let wanted = path::joined(
                    old(self)@.dest_dir,
                    old(self)@.entries[old(self)@.index as int].0,
                );
                match r {
                    Ok(plan) => !cancelled && transfer::picked(wanted, taken, plan.dest@)
                        && transfer::picked(
                        plan.dest@ + transfer::partial_suffix(),
                        taken,
                        plan.partial@,
                    ) && transfer::answers(taken, plan.dest@, false) && transfer::answers(
                        taken,
                        plan.partial@,
                        false,
                    ) && path::segments(plan.partial@) != path::segments(plan.dest@) && plan.parent@
                        == path::parent_text(plan.dest@) && path::lies_in(
                        old(self)@.dest_dir,
                        plan.dest@,
                    ) && path::lies_in(old(self)@.dest_dir, plan.partial@) && final(self)@
                        == (ReceiverView { phase: RecvPhase::InFile, ..old(self)@ }),
                    Err(e) => final(self)@ == old(self)@ && if cancelled {
                        e == TransferError::Cancelled
                    } else {
                        e == TransferError::NoFreeName && (transfer::all_taken(wanted, taken)
                            || exists|dest: Seq<char>| #[trigger]
                            transfer::picked(wanted, taken, dest) && transfer::all_taken(
                                dest + transfer::partial_suffix(),
                                taken,
                            ))
                    },
                }
            }),
    {
        transfer::check_cancel(cancelled)?;
        let ghost rel = self@.entries[self@.index as int].0;
        let ghost dir = self@.dest_dir;
        proof {
            transfer::law_manifest_passes_iff_safe(self@.entries, self@.windows);
            assert(transfer::path_problem(self@.entries[self@.index as int].0, self@.windows)
                is None);
        }
        let wanted = match transfer::confine_path(
            self.dest_dir.as_str(),
            self.entries[self.index].rel_path.as_str(),
            self.windows,
        ) {
            Ok(p) => p,
            Err(e) => return Err(TransferError::Path(e)),
        };
        let dest = match transfer::unique_dest_path(wanted.as_str(), &taken) {
            Ok(p) => p,
            Err(e) => return Err(e),
        };
        let partial = match transfer::unique_dest_path(
            transfer::append_suffix(dest.as_str(), ".frostwallpart").as_str(),
            &taken,
        ) {
            Ok(p) => p,
            Err(e) => return Err(e),
        };
        let parent = path::parent(dest.as_str());
        proof {
            lemma_dest_lies_in(dir, rel, self@.windows, taken, dest@);
            lemma_partial_lies_in(dir, dest@, taken, partial@);
        }
        self.phase = RecvPhase::InFile;
        Ok(FilePlan { dest, partial, parent })
    }

    /// Take a frame of the current file. No more bytes than declared are ever
    /// handed on, and the file is verified only with all of its bytes and the
    /// hash that the peer sent.
    pub fn on_frame(&mut self, keys: &SessionKeys, frame: &[u8]) -> (r: Result<
        FileStep,
        TransferError,
    >)
        requires
            old(self).wf(),
            old(self)@.phase == RecvPhase::InFile,
        ensures
            final(self).wf(),
            final(self)@.sound(),
            match old(self)@.after(*keys, frame@) {
                Err(e) => (r matches Err(x) && x@ == e) && final(self)@ == old(self)@,
                Ok(next) => final(self)@ == next && match r {
                    Ok(FileStep::Write(bytes, progress)) => next.phase == RecvPhase::InFile
                        && next.content == old(self)@.content + bytes@ && progress.transferred
                        == next.transferred && progress.total == transfer::sum_sizes(
                        next.entries,
                        next.entries.len(),
                    ) && progress.transferred <= progress.total,
                    Ok(FileStep::Verified) => next.phase == RecvPhase::Between,
                    Err(_) => false,
                },
            },
    {
        proof {
            transfer::law_manifest_passes_iff_safe(self@.entries, self@.windows);
        }
        let msg = match open_message(keys, frame) {
            Ok(m) => m,
            Err(e) => return Err(e),
        };
        let declared: u64 = self.entries[self.index].size;
        match msg {
            Message::Chunk(ct) => {
                let pt = match crypto::decrypt_chunk(&keys.file_key, ct.as_slice()) {
                    Ok(pt) => pt,
                    Err(e) => return Err(TransferError::Crypto(e)),
                };
                let sent = match self.written.checked_add(pt.len() as u64) {
                    Some(sent) => sent,
                    None => return Err(TransferError::FileOverflow),
                };
                if sent > declared {
                    return Err(TransferError::TooManyBytes { sent, declared });
                }
                proof {
                    transfer::lemma_sum_sizes_grow(
                        self@.entries,
                        self@.index + 1,
                        self@.entries.len(),
                    );
                }
                hashing::update(&mut self.hasher, pt.as_slice());
                self.written = sent;
                self.transferred = self.transferred + pt.len() as u64;
                Ok(
                    FileStep::Write(
                        pt,
                        Progress { transferred: self.transferred, total: self.total },
                    ),
                )
            },
            Message::FileEnd(expected) => {
                if self.written != declared {
                    return Err(
                        TransferError::SizeMismatch { declared, received: self.written },
                    );
                }
                let got = hashing::digest(&self.hasher);
                if !same_bytes(got.as_slice(), expected.as_slice()) {
                    return Err(TransferError::IntegrityFailed);
                }
                self.files = Ghost(self.files@.push(hashing::hashed(self.hasher)));
                self.hasher = hashing::new_hasher();
                self.written = 0;
                self.index = self.index + 1;
                self.phase = RecvPhase::Between;
                Ok(FileStep::Verified)
            },
            Message::Cancel => Err(TransferError::CancelledByPeer),
            m => Err(TransferError::UnexpectedDuringFile(m)),
        }
    }

    /// The frame that tells the peer that every file is verified.
    pub fn done(&mut self, keys: &SessionKeys) -> (r: Result<Vec<u8>, TransferError>)
        requires
            old(self).wf(),
            old(self)@.phase == RecvPhase::Between,
            old(self)@.index == old(self)@.entries.len(),
        ensures
            final(self).wf(),
            final(self)@.sound(),
            r is Ok,
            transfer::is_sealed(keys.control_key@, protocol::MessageView::Done, r->Ok_0@),
            transfer::opened(keys.control_key@, r->Ok_0@) == Ok::<
                protocol::MessageView,
                ErrorView,
            >(protocol::MessageView::Done),
            final(self)@ == (ReceiverView { phase: RecvPhase::Finished, ..old(self)@ }),
    {
        self.phase = RecvPhase::Finished;
        transfer::seal_control(keys, &Message::Done)
    }
}

proof fn lemma_dest_lies_in<F: Fn(&str) -> bool>(
    dir: Seq<char>,
    rel: Seq<char>,
    windows: bool,
    taken: F,
    dest: Seq<char>,
)
    requires
        transfer::path_problem(rel, windows) is None,
        transfer::picked(path::joined(dir, rel), taken, dest),
    ensures
        path::lies_in(dir, dest),
        path::segments(dest).len() > path::segments(dir).len(),
        dest.len() > 0,
{
    let wanted = path::joined(dir, rel);
    transfer::law_confined_path_lies_in_dir(dir, rel, windows);
    path::lemma_relative_has_segment(rel);
    if dest != wanted {
        let n = choose|n: nat|
            1 <= n <= transfer::MAX_COPIES && dest == #[trigger] transfer::numbered(wanted, n);
        transfer::law_numbered_name_lies_in_dir(dir, wanted, n);
    }
    if dest.len() == 0 {
        assert(path::pieces(dest).drop_last() =~= Seq::empty());
        assert(path::kept(path::pieces(dest).drop_last(), 0) =~= Seq::empty());
    }
}

proof fn lemma_partial_lies_in<F: Fn(&str) -> bool>(
    dir: Seq<char>,
    dest: Seq<char>,
    taken: F,
    partial: Seq<char>,
)
    requires
        path::lies_in(dir, dest),
        path::segments(dest).len() > path::segments(dir).len(),
        dest.len() > 0,
        transfer::picked(dest + transfer::partial_suffix(), taken, partial),
    ensures
        path::lies_in(dir, partial),
        path::segments(partial) != path::segments(dest),
{
    let suffix = transfer::partial_suffix();
    reveal_strlit(".frostwallpart");
    assert(!suffix.contains('/'));
    let q = dest + suffix;
    path::lemma_extended_lies_in(dir, dest, suffix);
    path::lemma_extended_segments(dest, suffix);
    let last = path::segments(q).last();
    assert(path::segments(q).drop_last().len() == path::segments(q).len() - 1);
    if path::segments(q).drop_last() != path::segments(dest) {
        assert(path::segments(dest).drop_last().len() == path::segments(dest).len() - 1);
    }
    if partial != q {
        let n = choose|n: nat|
            1 <= n <= transfer::MAX_COPIES && partial == #[trigger] transfer::numbered(q, n);
        transfer::law_numbered_name_lies_in_dir(dir, q, n);
        assert(path::is_name(last)) by {
            assert(last.len() > 2);
        }
        transfer::lemma_numbered_name_is_longer(q, n);
    }
    assert(path::segments(partial).len() == path::segments(q).len());
    assert(path::segments(partial).last().len() >= last.len());
}

/// Chunks one after the other.
pub open spec fn flat(chunks: Seq<Seq<u8>>) -> Seq<u8>
    decreases chunks.len(),
{
    if chunks.len() == 0 {
        Seq::empty()
    } else {
        flat(chunks.drop_last()) + chunks.last()
    }
}

/// The receiver after frames of the current file, or why the transfer ended on
/// the way.
pub open spec fn run(v: ReceiverView, keys: SessionKeys, frames: Seq<Seq<u8>>) -> Result<
    ReceiverView,
    ErrorView,
>
    decreases frames.len(),
{
    if frames.len() == 0 {
        Ok(v)
    } else {
        match run(v, keys, frames.drop_last()) {
            Err(e) => Err(e),
            Ok(w) => w.after(keys, frames.last()),
        }
    }
}

/// The receiver sees the manifest that the sender announced, and takes it or
/// refuses it by what it lists.
pub proof fn law_announced_manifest_arrives(
    v: crate::sender::SenderView,
    keys: SessionKeys,
    frame: Seq<u8>,
    windows: bool,
)
    requires
        v.sized(),
        transfer::opened(keys.control_key@, frame) == Ok::<protocol::MessageView, ErrorView>(
            v.manifest(),
        ),
    ensures
        ({
            let es = Seq::new(v.items.len(), |k: int| (v.items[k].1, v.sizes[k]));
            manifest_in(keys, frame, windows) == match transfer::checked_manifest(es, windows) {
                Ok(_) => Ok::<Seq<(Seq<char>, u64)>, ErrorView>(es),
                Err(e) => Err::<Seq<(Seq<char>, u64)>, ErrorView>(e),
            }
        }),
{
}

/// A file whose chunks and hash come from a sender with the same keys arrives
/// as it was sent: the receiver takes in exactly the sender's bytes, and counts
/// the file as verified.
pub proof fn law_sent_file_arrives(
    v: ReceiverView,
    keys: SessionKeys,
    chunks: Seq<Seq<u8>>,
    frames: Seq<Seq<u8>>,
    end: Seq<u8>,
)
    requires
        v.sound(),
        v.phase == RecvPhase::InFile,
        v.content.len() == 0,
        frames.len() == chunks.len(),
        forall|i: int|
            0 <= i < frames.len() ==> crate::sender::is_chunk(
                keys.file_key@,
                chunks[i],
                #[trigger] frames[i],
            ),
        transfer::opened(keys.control_key@, end) == Ok::<protocol::MessageView, ErrorView>(
            protocol::MessageView::FileEnd(hashing::blake3_digest(flat(chunks))),
        ),
        flat(chunks).len() == v.declared(),
    ensures
        run(v, keys, frames) matches Ok(w) && w.content == flat(chunks) && w.after(keys, end) == Ok::<
            ReceiverView,
            ErrorView,
        >(
            ReceiverView {
                phase: RecvPhase::Between,
                index: v.index + 1,
                transferred: (v.transferred + v.declared()) as u64,
                content: Seq::empty(),
                files: v.files.push(flat(chunks)),
                ..v
            },
        ),
{
    law_transferred_is_bounded(v);
    transfer::lemma_sum_sizes_grow(v.entries, v.index + 1, v.entries.len());
    transfer::law_manifest_passes_iff_safe(v.entries, v.windows);
    lemma_chunks_arrive(v, keys, chunks, frames);
}

proof fn lemma_chunks_arrive(
    v: ReceiverView,
    keys: SessionKeys,
    chunks: Seq<Seq<u8>>,
    frames: Seq<Seq<u8>>,
)
    requires
        v.content.len() == 0,
        frames.len() == chunks.len(),
        forall|i: int|
            0 <= i < frames.len() ==> crate::sender::is_chunk(
                keys.file_key@,
                chunks[i],
                #[trigger] frames[i],
            ),
        flat(chunks).len() <= v.declared(),
        v.transferred + v.declared() <= u64::MAX,
    ensures
        run(v, keys, frames) == Ok::<ReceiverView, ErrorView>(
            ReceiverView {
                transferred: (v.transferred + flat(chunks).len()) as u64,
                content: flat(chunks),
                ..v
            },
        ),
    decreases frames.len(),
{
    if frames.len() == 0 {
        assert(v.content =~= Seq::empty());
    } else {
        let front = frames.drop_last();
        assert forall|i: int| 0 <= i < front.len() implies crate::sender::is_chunk(
            keys.file_key@,
            chunks.drop_last()[i],
            #[trigger] front[i],
        ) by {
            assert(front[i] == frames[i]);
        }
        lemma_chunks_arrive(v, keys, chunks.drop_last(), front);
        let last = frames.len() - 1;
        assert(crate::sender::is_chunk(keys.file_key@, chunks[last], frames[last]));
    }
}

/// A file counts as verified only when all of its declared bytes are there and
/// the peer sent, under the control key, the hash of exactly these bytes.
pub proof fn law_verified_file_is_complete(
    v: ReceiverView,
    keys: SessionKeys,
    frame: Seq<u8>,
    next: ReceiverView,
)
    requires
        v.phase == RecvPhase::InFile,
        v.after(keys, frame) == Ok::<ReceiverView, ErrorView>(next),
        next.phase == RecvPhase::Between,
    ensures
        v.content.len() == v.declared(),
        transfer::opened(keys.control_key@, frame) == Ok::<protocol::MessageView, ErrorView>(
            protocol::MessageView::FileEnd(hashing::blake3_digest(v.content)),
        ),
        next.index == v.index + 1,
        next.files == v.files.push(v.content),
{
}

/// What a sender puts on the wire for one file: the chunks it read, their
/// frames, and the frame that ends the file.
pub ghost struct SentFile {
    pub chunks: Seq<Seq<u8>>,
    pub frames: Seq<Seq<u8>>,
    pub end: Seq<u8>,
}

impl SentFile {
    /// Whether the frames carry the chunks and the end carries their hash, under
    /// the given keys.
    pub open spec fn sent_under(self, keys: SessionKeys) -> bool {
        &&& self.frames.len() == self.chunks.len()
        &&& forall|i: int|
            0 <= i < self.frames.len() ==> crate::sender::is_chunk(
                keys.file_key@,
                self.chunks[i],
                #[trigger] self.frames[i],
            )
        &&& transfer::opened(keys.control_key@, self.end) == Ok::<
            protocol::MessageView,
            ErrorView,
        >(protocol::MessageView::FileEnd(hashing::blake3_digest(flat(self.chunks))))
    }
}

/// The receiver after whole files, or why the transfer ended on the way.
pub open spec fn run_files(v: ReceiverView, keys: SessionKeys, files: Seq<SentFile>) -> Result<
    ReceiverView,
    ErrorView,
>
    decreases files.len(),
{
    if files.len() == 0 {
        Ok(v)
    } else {
        match run_files(v, keys, files.drop_last()) {
            Err(e) => Err(e),
            Ok(w) => match run(
                ReceiverView { phase: RecvPhase::InFile, ..w },
                keys,
                files.last().frames,
            ) {
                Err(e) => Err(e),
                Ok(x) => x.after(keys, files.last().end),
            },
        }
    }
}

/// A transfer arrives as it was sent: when every file that the manifest declares
/// is sent under the same keys with as many bytes as declared, the receiver
/// verifies all of them, and holds exactly the contents that the sender read.
pub proof fn law_sent_files_arrive(v: ReceiverView, keys: SessionKeys, files: Seq<SentFile>)
    requires
        v.sound(),
        v.phase == RecvPhase::Between,
        v.index == 0,
        files.len() <= v.entries.len(),
        forall|i: int|
            0 <= i < files.len() ==> (#[trigger] files[i]).sent_under(keys) && flat(
                files[i].chunks,
            ).len() == v.entries[i].1,
    ensures
        run_files(v, keys, files) matches Ok(w) && w.sound() && w.phase == RecvPhase::Between
            && w.index == files.len() && w.files == files.map_values(
            |f: SentFile| flat(f.chunks),
        ) && w.entries == v.entries && w.dest_dir == v.dest_dir && w.windows == v.windows,
    decreases files.len(),
{
    if files.len() == 0 {
        assert(v.files =~= files.map_values(|f: SentFile| flat(f.chunks)));
    } else {
        let front = files.drop_last();
        assert forall|i: int| 0 <= i < front.len() implies (#[trigger] front[i]).sent_under(keys)
            && flat(front[i].chunks).len() == v.entries[i].1 by {
            assert(front[i] == files[i]);
        }
        law_sent_files_arrive(v, keys, front);
        let w = run_files(v, keys, front)->Ok_0;
        let last = files[files.len() - 1];
        assert(last.sent_under(keys));
        let x = ReceiverView { phase: RecvPhase::InFile, ..w };
        law_sent_file_arrives(x, keys, last.chunks, last.frames, last.end);
        let y = run_files(v, keys, files)->Ok_0;
        law_transferred_is_bounded(x);
        transfer::lemma_sum_sizes_grow(v.entries, x.index + 1, v.entries.len());
        transfer::law_manifest_passes_iff_safe(v.entries, v.windows);
        assert(y.files =~= files.map_values(|f: SentFile| flat(f.chunks)));
    }
}

/// What is left to do when receiving a file fails.
#[derive(Debug, Clone, Copy, PartialEq, Eq, Structural)]
pub enum Cleanup {
    /// Remove the temporary file.
    RemovePartial,
    /// Tell the peer that the user cancelled.
    SendCancel,
}

/// What is left to do when receiving fails, within a file or between two:
/// whatever the reason, nothing of the file stays behind; and the peer is told
/// where the user cancelled.
pub fn after_failure(in_file: bool, cancelled: bool) -> (steps: Vec<Cleanup>)
    ensures
        steps@ == (if in_file {
            seq![Cleanup::RemovePartial]
        } else {
            Seq::empty()
        }) + (if cancelled {
            seq![Cleanup::SendCancel]
        } else {
            Seq::empty()
        }),
{
    let mut steps: Vec<Cleanup> = Vec::new();
    if in_file {
        steps.push(Cleanup::RemovePartial);
    }
    if cancelled {
        steps.push(Cleanup::SendCancel);
    }
    assert(steps@ =~= (if in_file {
        seq![Cleanup::RemovePartial]
    } else {
        Seq::empty()
    }) + (if cancelled {
        seq![Cleanup::SendCancel]
    } else {
        Seq::empty()
    }));
    steps
}

/// A sender's cancel ends the file that the receiver is in: the receiver takes it
/// for what it is, and for nothing else.
pub proof fn law_cancel_ends_the_file(v: ReceiverView, keys: SessionKeys, frame: Seq<u8>)
    requires
        transfer::opened(keys.control_key@, frame) == Ok::<protocol::MessageView, ErrorView>(
            protocol::MessageView::Cancel,
        ),
    ensures
        v.after(keys, frame) == Err::<ReceiverView, ErrorView>(ErrorView::CancelledByPeer),
{
}

/// A chunk is taken in as it was before it was sealed, behind what is there, as
/// long as there is no more of the file than was declared.
pub proof fn law_chunks_are_appended(
    v: ReceiverView,
    keys: SessionKeys,
    frame: Seq<u8>,
    ct: Seq<u8>,
    bytes: Seq<u8>,
)
    requires
        protocol::parse_frame(frame) == Ok::<protocol::MessageView, protocol::ProtocolErrorView>(
            protocol::MessageView::Chunk(ct),
        ),
        crypto::unpacked(keys.file_key@, ct) == Ok::<Seq<u8>, crypto::CryptoError>(bytes),
        v.content.len() + bytes.len() <= u64::MAX,
    ensures
        ({
            let declared = v.entries[v.index as int].1;
            let sent = v.content.len() + bytes.len();
            &&& sent <= declared ==> (v.after(keys, frame) matches Ok(w) && w.content == v.content
                + bytes && w.phase == v.phase && w.index == v.index && w.files == v.files
                && w.entries == v.entries && w.dest_dir == v.dest_dir && w.transferred
                == (v.transferred + bytes.len()) as u64)
            &&& sent > declared ==> v.after(keys, frame) == Err::<ReceiverView, ErrorView>(
                ErrorView::TooManyBytes { sent: sent as u64, declared },
            )
        }),
{
}

/// A file is verified exactly where all its declared bytes are there and their hash
/// is the one that came; it is then the next of the verified files.
pub proof fn law_file_end(v: ReceiverView, keys: SessionKeys, frame: Seq<u8>, hash: Seq<u8>)
    requires
        transfer::opened(keys.control_key@, frame) == Ok::<protocol::MessageView, ErrorView>(
            protocol::MessageView::FileEnd(hash),
        ),
    ensures
        ({
            let declared = v.entries[v.index as int].1;
            let whole = v.content.len() == declared;
            let same = hashing::blake3_digest(v.content) == hash;
            &&& whole && same ==> (v.after(keys, frame) matches Ok(w) && w.files == v.files.push(
                v.content,
            ) && w.index == v.index + 1 && w.phase == RecvPhase::Between && w.content.len() == 0
                && w.transferred == v.transferred && w.entries == v.entries)
            &&& !whole ==> v.after(keys, frame) == Err::<ReceiverView, ErrorView>(
                ErrorView::SizeMismatch { declared, received: v.content.len() as u64 },
            )
            &&& whole && !same ==> v.after(keys, frame) == Err::<ReceiverView, ErrorView>(
                ErrorView::IntegrityFailed,
            )
        }),
{
}

/// Within a file nothing but a chunk in a clear frame or a sealed end of the file
/// is taken; anything else ends the transfer, and is named.
pub proof fn law_nothing_else_within_a_file(v: ReceiverView, keys: SessionKeys, frame: Seq<u8>)
    ensures
        v.after(keys, frame) is Ok ==> (protocol::parse_frame(frame) matches Ok(
            protocol::MessageView::Chunk(_),
        )) || (transfer::opened(keys.control_key@, frame) matches Ok(
            protocol::MessageView::FileEnd(_),
        )) || (transfer::opened(keys.control_key@, frame) matches Ok(
            protocol::MessageView::Chunk(_),
        )),
        transfer::opened(keys.control_key@, frame) matches Ok(m) ==> m is Manifest || m is Done
            || m is Accept || m is Reject || m is Encrypted ==> v.after(keys, frame) == Err::<
            ReceiverView,
            ErrorView,
        >(ErrorView::UnexpectedDuringFile(m)),
{
}

/// The manifest in a first frame is the sealed one, where it passes.
pub proof fn law_first_frames(keys: SessionKeys, frame: Seq<u8>, windows: bool)
    ensures
        match transfer::opened(keys.control_key@, frame) {
            Ok(protocol::MessageView::Manifest(es)) => match transfer::checked_manifest(
                es,
                windows,
            ) {
                Ok(_) => manifest_in(keys, frame, windows) == Ok::<
                    Seq<(Seq<char>, u64)>,
                    ErrorView,
                >(es),
                Err(e) => manifest_in(keys, frame, windows) == Err::<
                    Seq<(Seq<char>, u64)>,
                    ErrorView,
                >(e),
            },
            Ok(m) => manifest_in(keys, frame, windows) == Err::<Seq<(Seq<char>, u64)>, ErrorView>(
                ErrorView::ExpectedManifest(m),
            ),
            Err(e) => manifest_in(keys, frame, windows) == Err::<Seq<(Seq<char>, u64)>, ErrorView>(
                e,
            ),
        },
{
}

/// A chunk that came sealed like a control message counts like any other.
pub proof fn law_sealed_chunks_count_too(
    v: ReceiverView,
    keys: SessionKeys,
    frame: Seq<u8>,
    clear: Seq<u8>,
    ct: Seq<u8>,
)
    requires
        transfer::opened(keys.control_key@, frame) == Ok::<protocol::MessageView, ErrorView>(
            protocol::MessageView::Chunk(ct),
        ),
        protocol::parse_frame(clear) == Ok::<protocol::MessageView, protocol::ProtocolErrorView>(
            protocol::MessageView::Chunk(ct),
        ),
    ensures
        v.after(keys, frame) == v.after(keys, clear),
{
}

} // verus!
