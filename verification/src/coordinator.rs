//! The session coordinator: it owns the connection and serializes access to
//! it. It either runs a local send or services an incoming transfer, never
//! both at once. The caller performs the actions and hands back what happened.
use crate::crypto::SessionKeys;
use crate::protocol;
use crate::protocol::{ManifestEntry, Message, Variant};
use crate::receiver;
use crate::transfer;
use crate::transfer::{ErrorView, TransferError};
use vstd::prelude::*;

verus! {

/// Which way a transfer goes.
#[derive(Debug, Clone, Copy, PartialEq, Eq, Structural)]
pub enum Direction {
    Sending,
    Receiving,
}

/// How a transfer ended.
#[derive(Debug, Clone, PartialEq, Eq)]
pub enum Outcome {
    Completed,
    /// The protocol ended it.
    Failed(TransferError),
    /// The connection or the file system ended it, as the text tells.
    Broken(String),
}

/// One file shown to the user.
#[derive(Debug, Clone, PartialEq, Eq)]
pub struct TransferItem {
    pub name: String,
    pub size: u64,
}

/// A transfer shown to the user.
#[derive(Debug, Clone, PartialEq, Eq)]
pub struct TransferStart {
    pub direction: Direction,
    pub items: Vec<TransferItem>,
    pub total: u64,
    pub file_count: usize,
}

/// What happened.
#[derive(Debug, Clone, PartialEq, Eq)]
pub enum Event {
    /// The user wants to send files and folders.
    Send(Vec<String>),
    /// Nobody can ask for sends any more.
    CommandsClosed,
    /// A frame came in.
    Frame(Vec<u8>),
    /// The peer closed the connection.
    ConnectionLost,
    /// The send list was expanded to these files.
    Collected(Vec<TransferItem>),
    /// The send list could not be expanded.
    CollectFailed(Outcome),
    /// The send ended.
    SendFinished(Outcome),
    /// The user accepted or declined the incoming transfer.
    Decision(bool),
    /// The acceptance went out, or the connection failed.
    AcceptSent(Option<String>),
    /// The incoming transfer ended.
    ReceiveFinished(Outcome),
}

/// Why the user is shown an error.
#[derive(Debug, Clone, PartialEq, Eq)]
pub enum Fault {
    /// A transfer failed.
    Transfer(Outcome),
    /// The peer opened with this instead of a manifest.
    UnexpectedMessage(Message),
    /// The acceptance could not be sent, as the text tells.
    AcceptFailed(String),
}

/// What to do.
#[derive(Debug, Clone, PartialEq, Eq)]
pub enum Action {
    /// Note whether a transfer is in flight.
    SetInFlight(bool),
    /// Put a fresh cancel flag in place.
    InstallCancel,
    /// Take the cancel flag away.
    ClearCancel,
    /// Expand the paths to a send list.
    Collect(Vec<String>),
    /// Send the expanded list.
    RunSend,
    /// Answer whoever asked for the send.
    ReplySend(Outcome),
    /// Wait for the user's decision.
    AwaitDecision,
    /// Decline the incoming transfer.
    SendReject,
    /// Accept the incoming transfer.
    SendAccept,
    /// Receive what the manifest in this first frame announces.
    RunReceive(Vec<u8>),
    /// Show an incoming transfer that waits for the user.
    ShowPending(TransferStart),
    /// Show a transfer that starts.
    ShowStart(TransferStart),
    /// Show that a transfer is over, and whether it completed.
    ShowDone(bool),
    /// Show where received files are.
    ShowReceived,
    /// Show an error.
    ShowError(Fault),
    /// Show that the peer is gone.
    ShowDisconnected,
    /// Answer the sends that are still queued and tear the session down.
    Stop,
}

/// What the coordinator is doing.
pub enum Phase {
    /// Waiting for a command or a frame.
    Idle,
    /// A send list is being expanded.
    Collecting,
    /// A send is running.
    Sending,
    /// The user is deciding on this manifest, which came in this frame.
    Deciding(Vec<ManifestEntry>, Vec<u8>),
    /// The acceptance is on its way.
    Accepting(Vec<ManifestEntry>, Vec<u8>),
    /// A receive is running.
    Receiving,
    /// The session is over.
    Stopped,
}

/// How a transfer ended, by contents.
pub ghost enum OutcomeView {
    Completed,
    Failed(ErrorView),
    Broken(Seq<char>),
}

/// A transfer shown to the user, by contents.
pub ghost struct StartView {
    pub direction: Direction,
    pub items: Seq<(Seq<char>, u64)>,
    pub total: nat,
    pub file_count: nat,
}

/// What happened, by contents.
pub ghost enum EventView {
    Send(Seq<Seq<char>>),
    CommandsClosed,
    Frame(Seq<u8>),
    ConnectionLost,
    Collected(Seq<(Seq<char>, u64)>),
    CollectFailed(OutcomeView),
    SendFinished(OutcomeView),
    Decision(bool),
    AcceptSent(Option<Seq<char>>),
    ReceiveFinished(OutcomeView),
}

/// Why the user is shown an error, by contents.
pub ghost enum FaultView {
    Transfer(OutcomeView),
    UnexpectedMessage(protocol::MessageView),
    AcceptFailed(Seq<char>),
}

/// What to do, by contents.
pub ghost enum ActionView {
    SetInFlight(bool),
    InstallCancel,
    ClearCancel,
    Collect(Seq<Seq<char>>),
    RunSend,
    ReplySend(OutcomeView),
    AwaitDecision,
    SendReject,
    SendAccept,
    RunReceive(Seq<u8>),
    ShowPending(StartView),
    ShowStart(StartView),
    ShowDone(bool),
    ShowReceived,
    ShowError(FaultView),
    ShowDisconnected,
    Stop,
}

/// What the coordinator is doing, by contents.
pub ghost enum PhaseView {
    Idle,
    Collecting,
    Sending,
    Deciding(Seq<(Seq<char>, u64)>, Seq<u8>),
    Accepting(Seq<(Seq<char>, u64)>, Seq<u8>),
    Receiving,
    Stopped,
}

/// What a coordinator stands for.
pub ghost struct StateView {
    pub phase: PhaseView,
    /// A transfer was cancelled, and frames of it may still be on their way.
    pub stale: bool,
    /// Paths are those of Windows.
    pub windows: bool,
}

impl View for Outcome {
    type V = OutcomeView;

    open spec fn view(&self) -> OutcomeView {
        match self {
            Outcome::Completed => OutcomeView::Completed,
            Outcome::Failed(e) => OutcomeView::Failed(e@),
            Outcome::Broken(t) => OutcomeView::Broken(t@),
        }
    }
}

/// The names and sizes of shown files.
pub open spec fn shown(items: Seq<TransferItem>) -> Seq<(Seq<char>, u64)> {
    items.map_values(|i: TransferItem| (i.name@, i.size))
}

impl View for TransferStart {
    type V = StartView;

    open spec fn view(&self) -> StartView {
        StartView {
            direction: self.direction,
            items: shown(self.items@),
            total: self.total as nat,
            file_count: self.file_count as nat,
        }
    }
}

impl View for Event {
    type V = EventView;

    open spec fn view(&self) -> EventView {
        match self {
            Event::Send(paths) => EventView::Send(crate::path::texts(paths@)),
            Event::CommandsClosed => EventView::CommandsClosed,
            Event::Frame(f) => EventView::Frame(f@),
            Event::ConnectionLost => EventView::ConnectionLost,
            Event::Collected(items) => EventView::Collected(shown(items@)),
            Event::CollectFailed(o) => EventView::CollectFailed(o@),
            Event::SendFinished(o) => EventView::SendFinished(o@),
            Event::Decision(b) => EventView::Decision(*b),
            Event::AcceptSent(None) => EventView::AcceptSent(None),
            Event::AcceptSent(Some(t)) => EventView::AcceptSent(Some(t@)),
            Event::ReceiveFinished(o) => EventView::ReceiveFinished(o@),
        }
    }
}

impl View for Fault {
    type V = FaultView;

    open spec fn view(&self) -> FaultView {
        match self {
            Fault::Transfer(o) => FaultView::Transfer(o@),
            Fault::UnexpectedMessage(m) => FaultView::UnexpectedMessage(m@),
            Fault::AcceptFailed(t) => FaultView::AcceptFailed(t@),
        }
    }
}

impl View for Action {
    type V = ActionView;

    open spec fn view(&self) -> ActionView {
        match self {
            Action::SetInFlight(b) => ActionView::SetInFlight(*b),
            Action::InstallCancel => ActionView::InstallCancel,
            Action::ClearCancel => ActionView::ClearCancel,
            Action::Collect(paths) => ActionView::Collect(crate::path::texts(paths@)),
            Action::RunSend => ActionView::RunSend,
            Action::ReplySend(o) => ActionView::ReplySend(o@),
            Action::AwaitDecision => ActionView::AwaitDecision,
            Action::SendReject => ActionView::SendReject,
            Action::SendAccept => ActionView::SendAccept,
            Action::RunReceive(f) => ActionView::RunReceive(f@),
            Action::ShowPending(s) => ActionView::ShowPending(s@),
            Action::ShowStart(s) => ActionView::ShowStart(s@),
            Action::ShowDone(b) => ActionView::ShowDone(*b),
            Action::ShowReceived => ActionView::ShowReceived,
            Action::ShowError(f) => ActionView::ShowError(f@),
            Action::ShowDisconnected => ActionView::ShowDisconnected,
            Action::Stop => ActionView::Stop,
        }
    }
}

impl View for Phase {
    type V = PhaseView;

    open spec fn view(&self) -> PhaseView {
        match self {
            Phase::Idle => PhaseView::Idle,
            Phase::Collecting => PhaseView::Collecting,
            Phase::Sending => PhaseView::Sending,
            Phase::Deciding(es, f) => PhaseView::Deciding(protocol::entries_view(es@), f@),
            Phase::Accepting(es, f) => PhaseView::Accepting(protocol::entries_view(es@), f@),
            Phase::Receiving => PhaseView::Receiving,
            Phase::Stopped => PhaseView::Stopped,
        }
    }
}

/// The contents of actions.
pub open spec fn actions_view(actions: Seq<Action>) -> Seq<ActionView> {
    actions.map_values(|a: Action| a@)
}

/// The sum of the sizes.
pub open spec fn total(items: Seq<(Seq<char>, u64)>) -> nat {
    transfer::sum_sizes(items, items.len())
}

/// A transfer as it is shown.
pub open spec fn start_of(direction: Direction, items: Seq<(Seq<char>, u64)>) -> StartView {
    StartView { direction, items, total: total(items), file_count: items.len() }
}

/// Whether the user or the peer cancelled.
pub open spec fn was_cancelled(o: OutcomeView) -> bool {
    o matches OutcomeView::Failed(e) && (e is Cancelled || e is CancelledByPeer)
}

/// Which events can happen in which phase. While a send, a decision or a
/// receive is under way nothing else is looked at.
pub open spec fn expects(phase: PhaseView, event: EventView) -> bool {
    match phase {
        PhaseView::Idle => event is Send || event is CommandsClosed || event is Frame
            || event is ConnectionLost,
        PhaseView::Collecting => event is CollectFailed || (event matches EventView::Collected(items)
            && total(items) <= u64::MAX),
        PhaseView::Sending => event is SendFinished,
        PhaseView::Deciding(_, _) => event is Decision,
        PhaseView::Accepting(_, _) => event is AcceptSent,
        PhaseView::Receiving => event is ReceiveFinished,
        PhaseView::Stopped => false,
    }
}

/// What ends an attempt that the user is told about.
pub open spec fn give_up(fault: FaultView) -> Seq<ActionView> {
    seq![ActionView::ShowError(fault), ActionView::ShowDone(false), ActionView::Stop]
}

/// What kind of message a frame carries, where it carries one.
pub open spec fn carried(keys: SessionKeys, frame: Seq<u8>) -> Option<Variant> {
    match receiver::file_message(keys, frame) {
        Ok(m) => Some(protocol::variant_of(m)),
        Err(_) => None,
    }
}

/// Whether a message that comes while nothing is under way is passed over: a
/// cancel, which has nothing left to abort, and whatever a cancelled transfer
/// left on its way.
pub open spec fn passed_over(stale: bool, carried: Option<Variant>) -> bool {
    match carried {
        Some(Variant::Cancel) => true,
        Some(Variant::Chunk) => stale,
        Some(Variant::FileEnd) => stale,
        Some(Variant::Done) => stale,
        Some(Variant::Accept) => stale,
        Some(Variant::Reject) => stale,
        _ => false,
    }
}

/// The next phase after a frame while nothing is under way, and what to do on
/// the way there, by what the frame amounts to.
pub open spec fn first_frame(
    over: bool,
    manifest: Result<Seq<(Seq<char>, u64)>, ErrorView>,
    frame: Seq<u8>,
) -> (PhaseView, Seq<ActionView>) {
    if over {
        (PhaseView::Idle, Seq::empty())
    } else {
        match manifest {
            Ok(es) => (
                PhaseView::Deciding(es, frame),
                seq![
                    ActionView::ShowPending(start_of(Direction::Receiving, es)),
                    ActionView::AwaitDecision,
                ],
            ),
            Err(ErrorView::ExpectedManifest(v)) => (
                PhaseView::Stopped,
                give_up(FaultView::UnexpectedMessage(v)),
            ),
            Err(e) => (
                PhaseView::Stopped,
                give_up(FaultView::Transfer(OutcomeView::Failed(e))),
            ),
        }
    }
}

/// The next phase, and what to do on the way there.
pub open spec fn phase_after(keys: SessionKeys, s: StateView, event: EventView) -> (
    PhaseView,
    Seq<ActionView>,
) {
    match (s.phase, event) {
        (PhaseView::Idle, EventView::Send(paths)) => (
            PhaseView::Collecting,
            seq![
                ActionView::SetInFlight(true),
                ActionView::InstallCancel,
                ActionView::Collect(paths),
            ],
        ),
        (PhaseView::Collecting, EventView::CollectFailed(o)) => (
            PhaseView::Idle,
            seq![
                ActionView::ClearCancel,
                ActionView::SetInFlight(false),
                ActionView::ReplySend(o),
                ActionView::ShowDone(false),
            ],
        ),
        (PhaseView::Collecting, EventView::Collected(items)) => (
            PhaseView::Sending,
            seq![ActionView::ShowStart(start_of(Direction::Sending, items)), ActionView::RunSend],
        ),
        (PhaseView::Sending, EventView::SendFinished(o)) => (
            PhaseView::Idle,
            seq![
                ActionView::ClearCancel,
                ActionView::SetInFlight(false),
                ActionView::ReplySend(o),
                ActionView::ShowDone(o is Completed),
            ],
        ),
        (PhaseView::Idle, EventView::CommandsClosed) => (
            PhaseView::Stopped,
            seq![ActionView::Stop],
        ),
        (PhaseView::Idle, EventView::ConnectionLost) => (
            PhaseView::Stopped,
            seq![ActionView::ShowDisconnected, ActionView::Stop],
        ),
        (PhaseView::Idle, EventView::Frame(f)) => first_frame(
            passed_over(s.stale, carried(keys, f)),
            receiver::manifest_in(keys, f, s.windows),
            f,
        ),
        (PhaseView::Deciding(_, _), EventView::Decision(false)) => (
            PhaseView::Idle,
            seq![ActionView::SendReject, ActionView::ShowDone(false)],
        ),
        (PhaseView::Deciding(es, f), EventView::Decision(true)) => (
            PhaseView::Accepting(es, f),
            seq![ActionView::SendAccept],
        ),
        (PhaseView::Accepting(_, _), EventView::AcceptSent(Some(t))) => (
            PhaseView::Stopped,
            give_up(FaultView::AcceptFailed(t)),
        ),
        (PhaseView::Accepting(es, f), EventView::AcceptSent(None)) => (
            PhaseView::Receiving,
            seq![
                ActionView::SetInFlight(true),
                ActionView::InstallCancel,
                ActionView::ShowStart(start_of(Direction::Receiving, es)),
                ActionView::RunReceive(f),
            ],
        ),
        (PhaseView::Receiving, EventView::ReceiveFinished(OutcomeView::Completed)) => (
            PhaseView::Idle,
            seq![
                ActionView::ClearCancel,
                ActionView::SetInFlight(false),
                ActionView::ShowDone(true),
                ActionView::ShowReceived,
            ],
        ),
        (PhaseView::Receiving, EventView::ReceiveFinished(o)) => if was_cancelled(o) {
            (
                PhaseView::Idle,
                seq![
                    ActionView::ClearCancel,
                    ActionView::SetInFlight(false),
                    ActionView::ShowError(FaultView::Transfer(o)),
                    ActionView::ShowDone(false),
                ],
            )
        } else {
            (
                PhaseView::Stopped,
                seq![ActionView::ClearCancel, ActionView::SetInFlight(false)] + give_up(
                    FaultView::Transfer(o),
                ),
            )
        },
        _ => (s.phase, Seq::empty()),
    }
}

/// Whether frames of a cancelled transfer may still be on their way: from a
/// cancel on, until the peer's next manifest shows that all of them are in.
pub open spec fn stale_after(stale: bool, event: EventView, next: PhaseView) -> bool {
    match event {
        EventView::SendFinished(o) => stale || was_cancelled(o),
        EventView::ReceiveFinished(o) => stale || was_cancelled(o),
        EventView::Frame(_) => stale && !(next is Deciding),
        _ => stale,
    }
}

/// The next state, and what to do on the way there.
pub open spec fn transition(keys: SessionKeys, s: StateView, event: EventView) -> (
    StateView,
    Seq<ActionView>,
) {
    let (next, actions) = phase_after(keys, s, event);
    (StateView { phase: next, stale: stale_after(s.stale, event, next), ..s }, actions)
}

/// The files of a manifest as they are shown.
fn shown_entries(entries: &Vec<ManifestEntry>) -> (items: Vec<TransferItem>)
    ensures
        shown(items@) == protocol::entries_view(entries@),
{
    let mut items: Vec<TransferItem> = Vec::new();
    for i in 0..entries.len()
        invariant
            items@.len() == i,
            forall|k: int|
                0 <= k < i ==> (#[trigger] items@[k]).name@ == entries@[k].rel_path@ && items@[k].size
                    == entries@[k].size,
    {
        items.push(TransferItem { name: entries[i].rel_path.clone(), size: entries[i].size });
    }
    assert(shown(items@) =~= protocol::entries_view(entries@));
    items
}

/// A transfer as it is shown.
fn start(direction: Direction, items: Vec<TransferItem>) -> (s: TransferStart)
    requires
        total(shown(items@)) <= u64::MAX,
    ensures
        s@ == start_of(direction, shown(items@)),
{
    let ghost all = shown(items@);
    let mut sum: u64 = 0;
    for i in 0..items.len()
        invariant
            all == shown(items@),
            total(all) <= u64::MAX,
            sum == transfer::sum_sizes(all, i as nat),
    {
        proof {
            transfer::lemma_sum_sizes_grow(all, i as nat + 1, all.len());
            assert(all[i as int].1 == items@[i as int].size);
        }
        sum = sum + items[i].size;
    }
    let file_count: usize = items.len();
    TransferStart { direction, items, total: sum, file_count }
}

/// What expanding a send list to these files amounts to: a list whose total no
/// longer fits into 64 bits is refused.
pub fn collected(items: Vec<TransferItem>) -> (event: Event)
    ensures
        event@ == (if total(shown(items@)) <= u64::MAX {
            EventView::Collected(shown(items@))
        } else {
            EventView::CollectFailed(OutcomeView::Failed(ErrorView::TotalOverflow))
        }),
        expects(PhaseView::Collecting, event@),
{
    let ghost all = shown(items@);
    let mut sum: u64 = 0;
    for i in 0..items.len()
        invariant
            all == shown(items@),
            sum == transfer::sum_sizes(all, i as nat),
    {
        proof {
            transfer::lemma_sum_sizes_grow(all, i as nat + 1, all.len());
            assert(all[i as int].1 == items@[i as int].size);
        }
        sum = match sum.checked_add(items[i].size) {
            Some(next) => next,
            None => return Event::CollectFailed(Outcome::Failed(TransferError::TotalOverflow)),
        };
    }
    Event::Collected(items)
}

fn giving_up(fault: Fault) -> (actions: Vec<Action>)
    ensures
        actions_view(actions@) == give_up(fault@),
{
    let actions = vec![Action::ShowError(fault), Action::ShowDone(false), Action::Stop];
    assert(actions_view(actions@) =~= give_up(fault@));
    actions
}

/// Serializes the transfers of one session.
pub struct Coordinator {
    phase: Phase,
    stale: bool,
    windows: bool,
}

impl View for Coordinator {
    type V = StateView;

    closed spec fn view(&self) -> StateView {
        StateView { phase: self.phase@, stale: self.stale, windows: self.windows }
    }
}

fn is_cancel(o: &Outcome) -> (yes: bool)
    ensures
        yes == was_cancelled(o@),
{
    match o {
        Outcome::Failed(e) => transfer::is_cancelled(e),
        _ => false,
    }
}

impl Coordinator {
    /// What the user decides on, or has accepted, is a manifest that passed.
    pub open spec fn wf(&self) -> bool {
        match self@.phase {
            PhaseView::Deciding(es, _) => transfer::checked_manifest(es, self@.windows) is Ok,
            PhaseView::Accepting(es, _) => transfer::checked_manifest(es, self@.windows) is Ok,
            _ => true,
        }
    }

    /// A coordinator that waits for a command or a frame, on Windows or not.
    pub fn new(windows: bool) -> (c: Coordinator)
        ensures
            c@ == (StateView { phase: PhaseView::Idle, stale: false, windows }),
            c.wf(),
    {
        Coordinator { phase: Phase::Idle, stale: false, windows }
    }

    /// Whether the session is over.
    pub fn is_stopped(&self) -> (yes: bool)
        ensures
            yes == (self@.phase is Stopped),
    {
        matches!(self.phase, Phase::Stopped)
    }

    /// Whether the coordinator waits for a command or a frame.
    pub fn is_idle(&self) -> (yes: bool)
        ensures
            yes == (self@.phase is Idle),
    {
        matches!(self.phase, Phase::Idle)
    }

    /// Take an event and tell what to do.
    pub fn step(&mut self, keys: &SessionKeys, event: Event) -> (actions: Vec<Action>)
        requires
            old(self).wf(),
            expects(old(self)@.phase, event@),
        ensures
            final(self).wf(),
            (final(self)@, actions_view(actions@)) == transition(*keys, old(self)@, event@),
    {
        let ghost before = self@;
        let mut phase = Phase::Stopped;
        std::mem::swap(&mut phase, &mut self.phase);
        match (phase, event) {
            (Phase::Idle, Event::Send(paths)) => {
                self.phase = Phase::Collecting;
                let actions = vec![
                    Action::SetInFlight(true),
                    Action::InstallCancel,
                    Action::Collect(paths),
                ];
                assert(actions_view(actions@) =~= transition(*keys, before, event@).1);
                actions
            },
            (Phase::Idle, Event::CommandsClosed) => {
                let actions = vec![Action::Stop];
                assert(actions_view(actions@) =~= transition(*keys, before, event@).1);
                actions
            },
            (Phase::Idle, Event::ConnectionLost) => {
                let actions = vec![Action::ShowDisconnected, Action::Stop];
                assert(actions_view(actions@) =~= transition(*keys, before, event@).1);
                actions
            },
            (Phase::Idle, Event::Frame(frame)) => self.on_frame(keys, frame),
            (Phase::Collecting, Event::CollectFailed(o)) => {
                self.phase = Phase::Idle;
                let actions = vec![
                    Action::ClearCancel,
                    Action::SetInFlight(false),
                    Action::ReplySend(o),
                    Action::ShowDone(false),
                ];
                assert(actions_view(actions@) =~= transition(*keys, before, event@).1);
                actions
            },
            (Phase::Collecting, Event::Collected(items)) => {
                self.phase = Phase::Sending;
                let actions = vec![
                    Action::ShowStart(start(Direction::Sending, items)),
                    Action::RunSend,
                ];
                assert(actions_view(actions@) =~= transition(*keys, before, event@).1);
                actions
            },
            (Phase::Sending, Event::SendFinished(o)) => {
                self.phase = Phase::Idle;
                self.stale = self.stale || is_cancel(&o);
                let completed = matches!(o, Outcome::Completed);
                let actions = vec![
                    Action::ClearCancel,
                    Action::SetInFlight(false),
                    Action::ReplySend(o),
                    Action::ShowDone(completed),
                ];
                assert(actions_view(actions@) =~= transition(*keys, before, event@).1);
                actions
            },
            (Phase::Deciding(entries, frame), Event::Decision(accepted)) => {
                if accepted {
                    self.phase = Phase::Accepting(entries, frame);
                    let actions = vec![Action::SendAccept];
                    assert(actions_view(actions@) =~= transition(*keys, before, event@).1);
                    actions
                } else {
                    self.phase = Phase::Idle;
                    let actions = vec![Action::SendReject, Action::ShowDone(false)];
                    assert(actions_view(actions@) =~= transition(*keys, before, event@).1);
                    actions
                }
            },
            (Phase::Accepting(entries, frame), Event::AcceptSent(failure)) => match failure {
                Some(t) => giving_up(Fault::AcceptFailed(t)),
                None => {
                    self.phase = Phase::Receiving;
                    proof {
                        transfer::law_manifest_passes_iff_safe(
                            protocol::entries_view(entries@),
                            self.windows,
                        );
                    }
                    let actions = vec![
                        Action::SetInFlight(true),
                        Action::InstallCancel,
                        Action::ShowStart(start(Direction::Receiving, shown_entries(&entries))),
                        Action::RunReceive(frame),
                    ];
                    assert(actions_view(actions@) =~= transition(*keys, before, event@).1);
                    actions
                },
            },
            (Phase::Receiving, Event::ReceiveFinished(o)) => self.on_received(Ghost(*keys), o),
            _ => Vec::new(),
        }
    }

    /// A frame while nothing is under way. What a cancelled transfer left behind
    /// is passed over; a manifest is checked before it is shown and before
    /// anything is written.
    fn on_frame(&mut self, keys: &SessionKeys, frame: Vec<u8>) -> (actions: Vec<Action>)
        requires
            old(self)@.phase is Stopped,
        ensures
            final(self).wf(),
            (final(self)@, actions_view(actions@)) == transition(
                *keys,
                (StateView { phase: PhaseView::Idle, ..old(self)@ }),
                EventView::Frame(frame@),
            ),
    {
        let ghost before = StateView { phase: PhaseView::Idle, ..self@ };
        let ghost next = transition(*keys, before, EventView::Frame(frame@));
        let over = match receiver::open_message(keys, frame.as_slice()) {
            Ok(m) => match m.variant() {
                Variant::Cancel => true,
                Variant::Manifest | Variant::Encrypted => false,
                _ => self.stale,
            },
            Err(_) => false,
        };
        assert(over == passed_over(before.stale, carried(*keys, frame@)));
        if over {
            self.phase = Phase::Idle;
            let actions: Vec<Action> = Vec::new();
            assert(actions_view(actions@) =~= next.1);
            return actions;
        }
        match receiver::open_manifest(keys, frame.as_slice(), self.windows) {
            Ok((entries, _)) => {
                proof {
                    transfer::law_manifest_passes_iff_safe(
                        protocol::entries_view(entries@),
                        self.windows,
                    );
                }
                let pending = start(Direction::Receiving, shown_entries(&entries));
                self.phase = Phase::Deciding(entries, frame);
                self.stale = false;
                let actions = vec![Action::ShowPending(pending), Action::AwaitDecision];
                assert(actions_view(actions@) =~= next.1);
                actions
            },
            Err(TransferError::ExpectedManifest(v)) => giving_up(Fault::UnexpectedMessage(v)),
            Err(e) => giving_up(Fault::Transfer(Outcome::Failed(e))),
        }
    }

    /// The end of an incoming transfer. A cancelled one keeps the session.
    fn on_received(&mut self, Ghost(keys): Ghost<SessionKeys>, o: Outcome) -> (actions: Vec<
        Action,
    >)
        requires
            old(self)@.phase is Stopped,
        ensures
            final(self).wf(),
            (final(self)@, actions_view(actions@)) == transition(
                keys,
                (StateView { phase: PhaseView::Receiving, ..old(self)@ }),
                EventView::ReceiveFinished(o@),
            ),
    {
        let mut actions = vec![Action::ClearCancel, Action::SetInFlight(false)];
        let cancelled = is_cancel(&o);
        self.stale = self.stale || cancelled;
        if matches!(o, Outcome::Completed) {
            self.phase = Phase::Idle;
            actions.push(Action::ShowDone(true));
            actions.push(Action::ShowReceived);
            assert(actions_view(actions@) =~= seq![
                ActionView::ClearCancel,
                ActionView::SetInFlight(false),
                ActionView::ShowDone(true),
                ActionView::ShowReceived,
            ]);
        } else if cancelled {
            self.phase = Phase::Idle;
            actions.push(Action::ShowError(Fault::Transfer(o)));
            actions.push(Action::ShowDone(false));
            assert(actions_view(actions@) =~= seq![
                ActionView::ClearCancel,
                ActionView::SetInFlight(false),
                ActionView::ShowError(FaultView::Transfer(o@)),
                ActionView::ShowDone(false),
            ]);
        } else {
            actions.push(Action::ShowError(Fault::Transfer(o)));
            actions.push(Action::ShowDone(false));
            actions.push(Action::Stop);
            assert(actions_view(actions@) =~= seq![
                ActionView::ClearCancel,
                ActionView::SetInFlight(false),
            ] + give_up(FaultView::Transfer(o@)));
        }
        actions
    }
}

/// Whether a transfer is in flight in a phase.
pub open spec fn in_flight(phase: PhaseView) -> bool {
    phase is Collecting || phase is Sending || phase is Receiving
}

/// Whether actions set the noted flag only to what holds in the next phase, and
/// whenever that changes.
pub open spec fn flag_follows(
    phase: PhaseView,
    next: PhaseView,
    actions: Seq<ActionView>,
) -> bool {
    &&& forall|b: bool| #[trigger]
        actions.contains(ActionView::SetInFlight(b)) ==> b == in_flight(next)
    &&& in_flight(next) != in_flight(phase) ==> actions.contains(
        ActionView::SetInFlight(in_flight(next)),
    )
}

proof fn lemma_flag_after_first_frame(
    over: bool,
    manifest: Result<Seq<(Seq<char>, u64)>, ErrorView>,
    frame: Seq<u8>,
)
    ensures
        ({
            let (next, actions) = first_frame(over, manifest, frame);
            flag_follows(PhaseView::Idle, next, actions)
        }),
{
}

proof fn lemma_flag_after_other_event(keys: SessionKeys, s: StateView, event: EventView)
    requires
        expects(s.phase, event),
        !(event is Frame),
    ensures
        ({
            let (next, actions) = transition(keys, s, event);
            flag_follows(s.phase, next.phase, actions)
        }),
{
    let (next, actions) = transition(keys, s, event);
    if in_flight(next.phase) != in_flight(s.phase) {
        let i: int = if in_flight(next.phase) {
            0
        } else {
            1
        };
        assert(actions[i] == ActionView::SetInFlight(in_flight(next.phase)));
    }
}

/// The noted flag always tells whether a transfer is in flight.
pub proof fn law_flag_tells_in_flight(keys: SessionKeys, s: StateView, event: EventView)
    requires
        expects(s.phase, event),
    ensures
        ({
            let (next, actions) = transition(keys, s, event);
            flag_follows(s.phase, next.phase, actions)
        }),
{
    match event {
        EventView::Frame(f) => lemma_flag_after_first_frame(
            passed_over(s.stale, carried(keys, f)),
            receiver::manifest_in(keys, f, s.windows),
            f,
        ),
        _ => lemma_flag_after_other_event(keys, s, event),
    }
}

/// Whether a step from `phase` to `next` keeps transfers apart: a send or a
/// receive starts only from a phase in which neither is running, and until it has
/// ended no other event than its end is looked at.
pub open spec fn keeps_apart(
    phase: PhaseView,
    event: EventView,
    next: PhaseView,
    actions: Seq<ActionView>,
) -> bool {
    &&& actions.contains(ActionView::RunSend) ==> phase is Collecting && next is Sending
    &&& next is Receiving <==> phase is Accepting && event == EventView::AcceptSent(None)
    &&& forall|f: Seq<u8>| #[trigger]
        actions.contains(ActionView::RunReceive(f)) ==> next is Receiving
    &&& phase is Sending ==> event is SendFinished && next is Idle
    &&& phase is Receiving ==> event is ReceiveFinished && (next is Idle || next is Stopped)
}

proof fn lemma_first_frame_keeps_apart(
    over: bool,
    manifest: Result<Seq<(Seq<char>, u64)>, ErrorView>,
    frame: Seq<u8>,
)
    ensures
        ({
            let (next, actions) = first_frame(over, manifest, frame);
            keeps_apart(PhaseView::Idle, EventView::Frame(frame), next, actions)
        }),
{
}

proof fn lemma_other_event_keeps_apart(keys: SessionKeys, s: StateView, event: EventView)
    requires
        expects(s.phase, event),
        !(event is Frame),
    ensures
        ({
            let (next, actions) = transition(keys, s, event);
            keeps_apart(s.phase, event, next.phase, actions)
        }),
{
}

/// Transfers never overlap.
pub proof fn law_transfers_never_overlap(keys: SessionKeys, s: StateView, event: EventView)
    requires
        expects(s.phase, event),
    ensures
        ({
            let (next, actions) = transition(keys, s, event);
            keeps_apart(s.phase, event, next.phase, actions)
        }),
{
    match event {
        EventView::Frame(f) => lemma_first_frame_keeps_apart(
            passed_over(s.stale, carried(keys, f)),
            receiver::manifest_in(keys, f, s.windows),
            f,
        ),
        _ => lemma_other_event_keeps_apart(keys, s, event),
    }
}

/// Whether a step from `phase` to `next` asks the user before anything is
/// received: what runs is the manifest that the user accepted, and what the user
/// decides on is the manifest that was shown.
pub open spec fn asks_first(
    phase: PhaseView,
    event: EventView,
    next: PhaseView,
    actions: Seq<ActionView>,
) -> bool {
    &&& forall|f: Seq<u8>| #[trigger]
        actions.contains(ActionView::RunReceive(f)) ==> exists|es: Seq<(Seq<char>, u64)>|
            phase == PhaseView::Accepting(es, f)
    &&& next matches PhaseView::Accepting(es, f) ==> phase == PhaseView::Deciding(es, f) && event
        == EventView::Decision(true)
    &&& next matches PhaseView::Deciding(es, f) ==> phase is Idle && event == EventView::Frame(f)
        && actions.contains(ActionView::ShowPending(start_of(Direction::Receiving, es)))
}

proof fn lemma_first_frame_asks_first(
    over: bool,
    manifest: Result<Seq<(Seq<char>, u64)>, ErrorView>,
    frame: Seq<u8>,
)
    ensures
        ({
            let (next, actions) = first_frame(over, manifest, frame);
            &&& asks_first(PhaseView::Idle, EventView::Frame(frame), next, actions)
            &&& next matches PhaseView::Deciding(es, _) ==> !over && manifest == Ok::<
                Seq<(Seq<char>, u64)>,
                ErrorView,
            >(es)
        }),
{
    if let (false, Ok(es)) = (over, manifest) {
        let actions = first_frame(over, manifest, frame).1;
        assert(actions[0] == ActionView::ShowPending(start_of(Direction::Receiving, es)));
    }
}

proof fn lemma_other_event_asks_first(keys: SessionKeys, s: StateView, event: EventView)
    requires
        expects(s.phase, event),
        !(event is Frame),
    ensures
        ({
            let (next, actions) = transition(keys, s, event);
            asks_first(s.phase, event, next.phase, actions) && !(next.phase is Deciding)
        }),
{
}

/// Nothing is received without the user's consent: what runs is the manifest
/// that was shown, it passed the check before it was shown, and the user
/// accepted it.
pub proof fn law_receive_needs_consent(keys: SessionKeys, s: StateView, event: EventView)
    requires
        expects(s.phase, event),
    ensures
        ({
            let (next, actions) = transition(keys, s, event);
            &&& asks_first(s.phase, event, next.phase, actions)
            &&& next.phase matches PhaseView::Deciding(es, f) ==> receiver::manifest_in(
                keys,
                f,
                s.windows,
            ) == Ok::<
                Seq<(Seq<char>, u64)>,
                ErrorView,
            >(es)
        }),
{
    match event {
        EventView::Frame(f) => lemma_first_frame_asks_first(
            passed_over(s.stale, carried(keys, f)),
            receiver::manifest_in(keys, f, s.windows),
            f,
        ),
        _ => lemma_other_event_asks_first(keys, s, event),
    }
}

/// Whether a frame is one that a cancelled transfer may have left on its way: a
/// chunk, the end of a file, or an answer.
pub open spec fn is_leftover(keys: SessionKeys, frame: Seq<u8>) -> bool {
    ||| protocol::parse_frame(frame) matches Ok(m) && m is Chunk
    ||| transfer::opened(keys.control_key@, frame) matches Ok(m) && (m is FileEnd || m is Done
        || m is Accept || m is Reject || m is Cancel)
}

/// The state after frames that come in one after the other, as long as nothing
/// but passing them over is to be done.
pub open spec fn after_frames(keys: SessionKeys, s: StateView, frames: Seq<Seq<u8>>) -> Option<
    StateView,
>
    decreases frames.len(),
{
    if frames.len() == 0 {
        Some(s)
    } else {
        match after_frames(keys, s, frames.drop_last()) {
            Some(t) => {
                let (next, actions) = transition(keys, t, EventView::Frame(frames.last()));
                if actions.len() == 0 {
                    Some(next)
                } else {
                    None
                }
            },
            None => None,
        }
    }
}

proof fn lemma_leftover_is_passed_over(keys: SessionKeys, frame: Seq<u8>)
    requires
        is_leftover(keys, frame),
    ensures
        passed_over(true, carried(keys, frame)),
{
}

proof fn lemma_leftovers_are_passed_over(keys: SessionKeys, s: StateView, frames: Seq<Seq<u8>>)
    requires
        s.phase is Idle,
        s.stale,
        forall|i: int| 0 <= i < frames.len() ==> is_leftover(keys, #[trigger] frames[i]),
    ensures
        after_frames(keys, s, frames) == Some(s),
    decreases frames.len(),
{
    if frames.len() > 0 {
        let front = frames.drop_last();
        assert forall|i: int| 0 <= i < front.len() implies is_leftover(
            keys,
            #[trigger] front[i],
        ) by {
            assert(front[i] == frames[i]);
        }
        lemma_leftovers_are_passed_over(keys, s, front);
        assert(is_leftover(keys, frames[frames.len() - 1]));
        lemma_leftover_is_passed_over(keys, frames.last());
    }
}

/// Cancelling a transfer, on either side, keeps the session open: the
/// coordinator waits for the next command or frame, and whatever the cancelled
/// transfer left on its way is passed over, however much it is.
pub proof fn law_cancel_keeps_session(
    keys: SessionKeys,
    s: StateView,
    o: OutcomeView,
    late: Seq<Seq<u8>>,
)
    requires
        s.phase is Sending || s.phase is Receiving,
        was_cancelled(o),
        forall|i: int| 0 <= i < late.len() ==> is_leftover(keys, #[trigger] late[i]),
    ensures
        ({
            let event = if s.phase is Sending {
                EventView::SendFinished(o)
            } else {
                EventView::ReceiveFinished(o)
            };
            let next = transition(keys, s, event).0;
            &&& next == StateView { phase: PhaseView::Idle, stale: true, ..s }
            &&& after_frames(keys, next, late) == Some(next)
        }),
{
    let next = StateView { phase: PhaseView::Idle, stale: true, ..s };
    lemma_leftovers_are_passed_over(keys, next, late);
}

/// A cancel that comes while nothing is under way changes nothing.
pub proof fn law_late_cancel_changes_nothing(keys: SessionKeys, s: StateView, frame: Seq<u8>)
    requires
        s.phase is Idle,
        transfer::opened(keys.control_key@, frame) == Ok::<protocol::MessageView, ErrorView>(
            protocol::MessageView::Cancel,
        ),
    ensures
        transition(keys, s, EventView::Frame(frame)) == (s, Seq::<ActionView>::empty()),
{
}

/// After a cancelled transfer the peer's next manifest is taken like any other.
pub proof fn law_next_manifest_is_taken(keys: SessionKeys, s: StateView, frame: Seq<u8>)
    requires
        s.phase is Idle,
        receiver::manifest_in(keys, frame, s.windows) is Ok,
    ensures
        transition(keys, s, EventView::Frame(frame)).0 == (StateView {
            phase: PhaseView::Deciding(
                receiver::manifest_in(keys, frame, s.windows)->Ok_0,
                frame,
            ),
            stale: false,
            ..s
        }),
{
}

/// A send that ends, however it ends, keeps the session open; so does a declined
/// transfer.
pub proof fn law_ended_send_keeps_session(keys: SessionKeys, s: StateView, o: OutcomeView)
    ensures
        s.phase is Sending ==> transition(keys, s, EventView::SendFinished(o)).0.phase is Idle,
        s.phase is Collecting ==> transition(keys, s, EventView::CollectFailed(o)).0.phase is Idle,
        s.phase is Deciding ==> transition(keys, s, EventView::Decision(false)).0.phase is Idle,
{
}

/// Whether actions tear the session down exactly where `next` is the end, and
/// then last.
pub open spec fn tears_down_last(next: PhaseView, actions: Seq<ActionView>) -> bool {
    &&& next is Stopped <==> actions.len() > 0 && actions.last() is Stop
    &&& forall|i: int| 0 <= i < actions.len() - 1 ==> !(#[trigger] actions[i] is Stop)
}

proof fn lemma_first_frame_tears_down_last(
    over: bool,
    manifest: Result<Seq<(Seq<char>, u64)>, ErrorView>,
    frame: Seq<u8>,
)
    ensures
        ({
            let (next, actions) = first_frame(over, manifest, frame);
            tears_down_last(next, actions)
        }),
{
}

proof fn lemma_other_event_tears_down_last(keys: SessionKeys, s: StateView, event: EventView)
    requires
        expects(s.phase, event),
        !(event is Frame),
    ensures
        ({
            let (next, actions) = transition(keys, s, event);
            tears_down_last(next.phase, actions)
        }),
{
}

/// The session is torn down exactly when the coordinator stops, and that comes
/// last.
pub proof fn law_stop_tears_down(keys: SessionKeys, s: StateView, event: EventView)
    requires
        expects(s.phase, event),
    ensures
        ({
            let (next, actions) = transition(keys, s, event);
            tears_down_last(next.phase, actions)
        }),
{
    match event {
        EventView::Frame(f) => lemma_first_frame_tears_down_last(
            passed_over(s.stale, carried(keys, f)),
            receiver::manifest_in(keys, f, s.windows),
            f,
        ),
        _ => lemma_other_event_tears_down_last(keys, s, event),
    }
}

/// What the user chose to send is collected, all of it and nothing else.
pub proof fn law_all_chosen_paths_are_collected(
    keys: SessionKeys,
    s: StateView,
    paths: Seq<Seq<char>>,
)
    requires
        s.phase is Idle,
    ensures
        ({
            let (next, actions) = transition(keys, s, EventView::Send(paths));
            &&& next.phase is Collecting
            &&& actions.contains(ActionView::Collect(paths))
            &&& forall|q: Seq<Seq<char>>| #[trigger]
                actions.contains(ActionView::Collect(q)) ==> q == paths
            &&& actions.contains(ActionView::SetInFlight(true))
            &&& actions.contains(ActionView::InstallCancel)
            &&& actions.len() == 3
        }),
{
    let actions = transition(keys, s, EventView::Send(paths)).1;
    assert(actions[0] == ActionView::SetInFlight(true));
    assert(actions[1] == ActionView::InstallCancel);
    assert(actions[2] == ActionView::Collect(paths));
}

/// What a transfer is shown with: every file with its size, their number, and the
/// sum of the sizes.
pub proof fn law_whole_list_is_shown(direction: Direction, items: Seq<(Seq<char>, u64)>)
    ensures
        start_of(direction, items).direction == direction,
        start_of(direction, items).items == items,
        start_of(direction, items).file_count == items.len(),
        start_of(direction, items).total == transfer::sum_sizes(items, items.len()),
{
}

/// A list that was collected is sent, and shown as it is; where collecting failed
/// whoever asked is told why, and nothing is sent.
pub proof fn law_what_was_collected_is_sent(
    keys: SessionKeys,
    s: StateView,
    items: Seq<(Seq<char>, u64)>,
    o: OutcomeView,
)
    requires
        s.phase is Collecting,
    ensures
        ({
            let (next, actions) = transition(keys, s, EventView::Collected(items));
            &&& next.phase is Sending
            &&& actions == seq![
                ActionView::ShowStart(start_of(Direction::Sending, items)),
                ActionView::RunSend,
            ]
        }),
        ({
            let (next, actions) = transition(keys, s, EventView::CollectFailed(o));
            &&& next.phase is Idle
            &&& actions.contains(ActionView::ReplySend(o))
            &&& actions.contains(ActionView::ShowDone(false))
            &&& actions.contains(ActionView::ClearCancel)
            &&& !actions.contains(ActionView::RunSend)
            &&& actions.len() == 4
        }),
{
    let actions = transition(keys, s, EventView::CollectFailed(o)).1;
    assert(actions[0] == ActionView::ClearCancel);
    assert(actions[2] == ActionView::ReplySend(o));
    assert(actions[3] == ActionView::ShowDone(false));
}

/// Whoever asked for a send is answered with how it ended, and the user is shown
/// that it completed exactly where it did.
pub proof fn law_the_outcome_of_a_send_is_told(keys: SessionKeys, s: StateView, o: OutcomeView)
    requires
        s.phase is Sending,
    ensures
        ({
            let (next, actions) = transition(keys, s, EventView::SendFinished(o));
            &&& next.phase is Idle
            &&& actions.contains(ActionView::ReplySend(o))
            &&& forall|q: OutcomeView| #[trigger]
                actions.contains(ActionView::ReplySend(q)) ==> q == o
            &&& actions.contains(ActionView::ShowDone(true)) <==> o is Completed
            &&& actions.contains(ActionView::ShowDone(false)) <==> !(o is Completed)
            &&& actions.contains(ActionView::ClearCancel)
            &&& actions.len() == 4
        }),
{
    let actions = transition(keys, s, EventView::SendFinished(o)).1;
    assert(actions[0] == ActionView::ClearCancel);
    assert(actions[2] == ActionView::ReplySend(o));
    assert(actions[3] == ActionView::ShowDone(o is Completed));
}

/// The user's word decides: an accepted transfer is accepted towards the peer and
/// then received from the very frame that announced it; a declined one is declined
/// towards the peer and over.
pub proof fn law_the_users_word_decides(
    keys: SessionKeys,
    s: StateView,
    es: Seq<(Seq<char>, u64)>,
    frame: Seq<u8>,
    failure: Seq<char>,
)
    ensures
        s.phase == PhaseView::Deciding(es, frame) ==> ({
            let (next, actions) = transition(keys, s, EventView::Decision(true));
            &&& next.phase == PhaseView::Accepting(es, frame)
            &&& actions == seq![ActionView::SendAccept]
        }),
        s.phase == PhaseView::Deciding(es, frame) ==> ({
            let (next, actions) = transition(keys, s, EventView::Decision(false));
            &&& next.phase is Idle
            &&& actions == seq![ActionView::SendReject, ActionView::ShowDone(false)]
        }),
        s.phase == PhaseView::Accepting(es, frame) ==> ({
            let (next, actions) = transition(keys, s, EventView::AcceptSent(None));
            &&& next.phase is Receiving
            &&& actions.contains(ActionView::RunReceive(frame))
            &&& forall|f: Seq<u8>| #[trigger]
                actions.contains(ActionView::RunReceive(f)) ==> f == frame
            &&& actions.contains(ActionView::ShowStart(start_of(Direction::Receiving, es)))
            &&& actions.contains(ActionView::SetInFlight(true))
            &&& actions.contains(ActionView::InstallCancel)
            &&& actions.len() == 4
        }),
        s.phase == PhaseView::Accepting(es, frame) ==> ({
            let (next, actions) = transition(keys, s, EventView::AcceptSent(Some(failure)));
            &&& next.phase is Stopped
            &&& actions == seq![
                ActionView::ShowError(FaultView::AcceptFailed(failure)),
                ActionView::ShowDone(false),
                ActionView::Stop,
            ]
        }),
{
    if s.phase == PhaseView::Accepting(es, frame) {
        let actions = transition(keys, s, EventView::AcceptSent(None)).1;
        assert(actions[0] == ActionView::SetInFlight(true));
        assert(actions[1] == ActionView::InstallCancel);
        assert(actions[2] == ActionView::ShowStart(start_of(Direction::Receiving, es)));
        assert(actions[3] == ActionView::RunReceive(frame));
    }
}

/// The user is shown that a receive completed, and where the files are, exactly
/// where it did; otherwise why it did not. It ends the session exactly where it
/// failed and nobody cancelled.
pub proof fn law_the_outcome_of_a_receive_is_shown(keys: SessionKeys, s: StateView, o: OutcomeView)
    requires
        s.phase is Receiving,
    ensures
        ({
            let (next, actions) = transition(keys, s, EventView::ReceiveFinished(o));
            let cancelled = o == OutcomeView::Failed(ErrorView::Cancelled) || o
                == OutcomeView::Failed(ErrorView::CancelledByPeer);
            &&& next.phase is Idle <==> o is Completed || cancelled
            &&& next.phase is Stopped <==> !(o is Completed || cancelled)
            &&& actions.contains(ActionView::ShowDone(true)) <==> o is Completed
            &&& actions.contains(ActionView::ShowDone(false)) <==> !(o is Completed)
            &&& actions.contains(ActionView::ShowReceived) <==> o is Completed
            &&& actions.contains(ActionView::ShowError(FaultView::Transfer(o))) <==> !(
            o is Completed)
            &&& actions.contains(ActionView::ClearCancel)
            &&& actions.contains(ActionView::SetInFlight(false))
        }),
{
    let actions = transition(keys, s, EventView::ReceiveFinished(o)).1;
    assert(actions[0] == ActionView::ClearCancel);
    assert(actions[1] == ActionView::SetInFlight(false));
    if o is Completed {
        assert(actions[2] == ActionView::ShowDone(true));
        assert(actions[3] == ActionView::ShowReceived);
    } else {
        assert(actions[2] == ActionView::ShowError(FaultView::Transfer(o)));
        assert(actions[3] == ActionView::ShowDone(false));
    }
}

/// A manifest that passes is shown as it is and waits for the user, whether or not
/// a transfer was cancelled before; one that does not pass is shown as an error
/// and ends the session; so does any other message, unless it is passed over.
pub proof fn law_incoming_frames(keys: SessionKeys, s: StateView, frame: Seq<u8>)
    requires
        s.phase is Idle,
    ensures
        ({
            let (next, actions) = transition(keys, s, EventView::Frame(frame));
            match transfer::opened(keys.control_key@, frame) {
                Ok(protocol::MessageView::Manifest(es)) => match transfer::checked_manifest(
                    es,
                    s.windows,
                ) {
                    Ok(_) => next.phase == PhaseView::Deciding(es, frame) && actions == seq![
                        ActionView::ShowPending(start_of(Direction::Receiving, es)),
                        ActionView::AwaitDecision,
                    ],
                    Err(e) => next.phase is Stopped && actions == seq![
                        ActionView::ShowError(FaultView::Transfer(OutcomeView::Failed(e))),
                        ActionView::ShowDone(false),
                        ActionView::Stop,
                    ],
                },
                Ok(protocol::MessageView::Cancel) => next == s && actions.len() == 0,
                Ok(protocol::MessageView::Encrypted(ct)) => next.phase is Stopped && actions == seq![
                    ActionView::ShowError(
                        FaultView::UnexpectedMessage(protocol::MessageView::Encrypted(ct)),
                    ),
                    ActionView::ShowDone(false),
                    ActionView::Stop,
                ],
                Ok(m) => if s.stale {
                    next == s && actions.len() == 0
                } else {
                    next.phase is Stopped && actions == seq![
                        ActionView::ShowError(FaultView::UnexpectedMessage(m)),
                        ActionView::ShowDone(false),
                        ActionView::Stop,
                    ]
                },
                Err(e) => if s.stale && (protocol::parse_frame(frame) matches Ok(
                    protocol::MessageView::Chunk(_),
                )) {
                    next == s && actions.len() == 0
                } else {
                    next.phase is Stopped && actions == seq![
                        ActionView::ShowError(FaultView::Transfer(OutcomeView::Failed(e))),
                        ActionView::ShowDone(false),
                        ActionView::Stop,
                    ]
                },
            }
        }),
{
    if let Ok(protocol::MessageView::Manifest(es)) = transfer::opened(keys.control_key@, frame) {
        transfer::law_problems_of_a_manifest(es, s.windows);
    }
}

/// A peer that goes is shown to be gone; commands that end end the session.
pub proof fn law_endings(keys: SessionKeys, s: StateView)
    requires
        s.phase is Idle,
    ensures
        transition(keys, s, EventView::ConnectionLost).0.phase is Stopped,
        transition(keys, s, EventView::ConnectionLost).1 == seq![
            ActionView::ShowDisconnected,
            ActionView::Stop,
        ],
        transition(keys, s, EventView::CommandsClosed).0.phase is Stopped,
        transition(keys, s, EventView::CommandsClosed).1 == seq![ActionView::Stop],
{
}

/// Events and actions are seen with all that they carry.
pub proof fn law_events_and_actions_are_seen_whole(
    paths: Vec<String>,
    items: Vec<TransferItem>,
    frame: Vec<u8>,
    start: TransferStart,
    o: Outcome,
)
    ensures
        Event::Send(paths)@ == EventView::Send(Seq::new(paths@.len(), |i: int| paths@[i]@)),
        Action::Collect(paths)@ == ActionView::Collect(Seq::new(paths@.len(), |i: int| paths@[i]@)),
        Event::Collected(items)@ == EventView::Collected(
            Seq::new(items@.len(), |i: int| (items@[i].name@, items@[i].size)),
        ),
        Event::Frame(frame)@ == EventView::Frame(frame@),
        Action::RunReceive(frame)@ == ActionView::RunReceive(frame@),
        Action::ShowPending(start)@ == ActionView::ShowPending(start@),
        Action::ShowStart(start)@ == ActionView::ShowStart(start@),
        Event::SendFinished(o)@ == EventView::SendFinished(o@),
        Event::ReceiveFinished(o)@ == EventView::ReceiveFinished(o@),
        Action::ReplySend(o)@ == ActionView::ReplySend(o@),
        start@.direction == start.direction,
        start@.items == Seq::new(
            start.items@.len(),
            |i: int| (start.items@[i].name@, start.items@[i].size),
        ),
        start@.total == start.total,
        start@.file_count == start.file_count,
        o is Completed <==> o@ is Completed,
        o matches Outcome::Failed(e) ==> o@ == OutcomeView::Failed(e@),
        o matches Outcome::Broken(t) ==> o@ == OutcomeView::Broken(t@),
{
    assert(crate::path::texts(paths@) =~= Seq::new(paths@.len(), |i: int| paths@[i]@));
    assert(shown(items@) =~= Seq::new(items@.len(), |i: int| (items@[i].name@, items@[i].size)));
    assert(shown(start.items@) =~= Seq::new(
        start.items@.len(),
        |i: int| (start.items@[i].name@, start.items@[i].size),
    ));
}

/// Which events can come when: commands and frames while nothing is under way, and
/// else what the thing under way ends with.
pub proof fn law_expected_events(
    paths: Seq<Seq<char>>,
    frame: Seq<u8>,
    o: OutcomeView,
    es: Seq<(Seq<char>, u64)>,
    yes: bool,
    failure: Option<Seq<char>>,
)
    ensures
        expects(PhaseView::Idle, EventView::Send(paths)),
        expects(PhaseView::Idle, EventView::Frame(frame)),
        expects(PhaseView::Idle, EventView::CommandsClosed),
        expects(PhaseView::Idle, EventView::ConnectionLost),
        expects(PhaseView::Collecting, EventView::CollectFailed(o)),
        transfer::sum_sizes(es, es.len()) <= u64::MAX ==> expects(
            PhaseView::Collecting,
            EventView::Collected(es),
        ),
        expects(PhaseView::Sending, EventView::SendFinished(o)),
        expects(PhaseView::Deciding(es, frame), EventView::Decision(yes)),
        expects(PhaseView::Accepting(es, frame), EventView::AcceptSent(failure)),
        expects(PhaseView::Receiving, EventView::ReceiveFinished(o)),
{
}

/// Frames of an earlier transfer are looked for exactly from a cancel on, until the
/// peer's next manifest.
pub proof fn law_when_leftovers_are_expected(
    keys: SessionKeys,
    s: StateView,
    o: OutcomeView,
    event: EventView,
)
    ensures
        ({
            let cancelled = o == OutcomeView::Failed(ErrorView::Cancelled) || o
                == OutcomeView::Failed(ErrorView::CancelledByPeer);
            &&& s.phase is Sending ==> transition(keys, s, EventView::SendFinished(o)).0.stale == (
            s.stale || cancelled)
            &&& s.phase is Receiving ==> transition(
                keys,
                s,
                EventView::ReceiveFinished(o),
            ).0.stale == (s.stale || cancelled)
        }),
        !(event is SendFinished || event is ReceiveFinished || event is Frame) ==> transition(
            keys,
            s,
            event,
        ).0.stale == s.stale,
        transition(keys, s, event).0.windows == s.windows,
{
}

/// Faults are seen with all that they carry.
pub proof fn law_faults_are_seen_whole(f: Fault, b: bool)
    ensures
        f matches Fault::Transfer(o) ==> f@ == FaultView::Transfer(o@),
        f matches Fault::UnexpectedMessage(m) ==> f@ == FaultView::UnexpectedMessage(m@),
        f matches Fault::AcceptFailed(t) ==> f@ == FaultView::AcceptFailed(t@),
        Action::ShowError(f)@ == ActionView::ShowError(f@),
        Action::ShowDone(b)@ == ActionView::ShowDone(b),
        Action::SetInFlight(b)@ == ActionView::SetInFlight(b),
        Event::Decision(b)@ == EventView::Decision(b),
{
}

} // verus!
