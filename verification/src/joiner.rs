//! A joiner on its way to a session, on the local network or on the internet:
//! the host is found, dialled and paired with, and whatever fails on the way is
//! shown and ends it.
use crate::internet;
use crate::internet::MailboxError;
use crate::mailbox::Peer;
use crate::messages;
use crate::session::HandshakeError;
use crate::text;
use vstd::prelude::*;

verus! {

/// What happened to a joiner.
#[derive(Debug, Clone, PartialEq, Eq)]
pub enum JoinEvent {
    /// The mailbox service knows the host.
    Found(Peer),
    /// The mailbox service gave no host.
    LookupFailed(MailboxError),
    /// The local endpoint is up.
    EndpointUp,
    /// The local endpoint did not come up, as the text tells.
    EndpointFailed(String),
    /// The host is connected.
    Connected,
    /// The host could not be reached, as the text tells.
    ConnectFailed(String),
    /// The handshake succeeded.
    Paired,
    /// The handshake failed.
    HandshakeFailed(HandshakeError),
}

/// What a joiner does.
#[derive(Debug, Clone, PartialEq, Eq)]
pub enum JoinStep {
    /// Ask the mailbox service for the host.
    Lookup,
    /// Note the name that the host goes by.
    NoteName(Option<String>),
    /// Start the local endpoint.
    StartEndpoint,
    /// Dial a host on the local network.
    DialLan(String, u16),
    /// Dial a host on the internet by its key.
    DialInternet([u8; 32]),
    /// Run the handshake.
    Pair,
    /// Establish the session.
    Establish,
    /// Show an error.
    ShowError(String),
    /// Nothing is left to do.
    End,
}

/// Where a joiner stands.
pub enum JoinPhase {
    /// The host is being looked up.
    LookingUp,
    /// The local endpoint is starting, to dial this endpoint identifier.
    Starting(String),
    /// The host is being dialled.
    Dialling,
    /// The handshake is under way.
    Pairing,
    /// The joiner has a session, or failed.
    Ended,
}

/// What a joiner does, by contents.
pub ghost enum StepView {
    Lookup,
    NoteName(Option<Seq<char>>),
    StartEndpoint,
    DialLan(Seq<char>, u16),
    DialInternet(Seq<u8>),
    Pair,
    Establish,
    ShowError(Seq<char>),
    End,
}

/// Where a joiner stands, by contents.
pub ghost enum PhaseView {
    LookingUp,
    Starting(Seq<char>),
    Dialling,
    Pairing,
    Ended,
}

impl View for JoinStep {
    type V = StepView;

    open spec fn view(&self) -> StepView {
        match self {
            JoinStep::Lookup => StepView::Lookup,
            JoinStep::NoteName(n) => StepView::NoteName(text::opt_text(*n)),
            JoinStep::StartEndpoint => StepView::StartEndpoint,
            JoinStep::DialLan(address, port) => StepView::DialLan(address@, *port),
            JoinStep::DialInternet(key) => StepView::DialInternet(key@),
            JoinStep::Pair => StepView::Pair,
            JoinStep::Establish => StepView::Establish,
            JoinStep::ShowError(t) => StepView::ShowError(t@),
            JoinStep::End => StepView::End,
        }
    }
}

impl View for JoinPhase {
    type V = PhaseView;

    open spec fn view(&self) -> PhaseView {
        match self {
            JoinPhase::LookingUp => PhaseView::LookingUp,
            JoinPhase::Starting(id) => PhaseView::Starting(id@),
            JoinPhase::Dialling => PhaseView::Dialling,
            JoinPhase::Pairing => PhaseView::Pairing,
            JoinPhase::Ended => PhaseView::Ended,
        }
    }
}

/// The contents of steps.
pub open spec fn steps_view(steps: Seq<JoinStep>) -> Seq<StepView> {
    steps.map_values(|s: JoinStep| s@)
}

/// Which events can happen in which phase.
pub open spec fn expects(phase: PhaseView, event: JoinEvent) -> bool {
    match phase {
        PhaseView::LookingUp => event is Found || event is LookupFailed,
        PhaseView::Starting(_) => event is EndpointUp || event is EndpointFailed,
        PhaseView::Dialling => event is Connected || event is ConnectFailed,
        PhaseView::Pairing => event is Paired || event is HandshakeFailed,
        PhaseView::Ended => false,
    }
}

/// The key that is dialled for an endpoint identifier.
pub open spec fn key_of(id: Seq<char>) -> Option<Seq<u8>> {
    internet::endpoint_key(text::trimmed(id))
}

/// What the user is told of an event that ends the joiner's way early.
pub open spec fn failure(phase: PhaseView, event: JoinEvent) -> Option<Seq<char>> {
    match (phase, event) {
        (_, JoinEvent::LookupFailed(e)) => Some(messages::mailbox_text(e)),
        (_, JoinEvent::EndpointFailed(t)) => Some(t@),
        (_, JoinEvent::ConnectFailed(t)) => Some(t@),
        (_, JoinEvent::HandshakeFailed(e)) => Some(messages::handshake_text(e)),
        (PhaseView::Starting(id), JoinEvent::EndpointUp) if key_of(id) is None => Some(
            "invalid peer address"@,
        ),
        _ => None,
    }
}

/// The next phase, and what to do on the way there.
pub open spec fn transition(phase: PhaseView, event: JoinEvent) -> (PhaseView, Seq<StepView>) {
    match (failure(phase, event), phase, event) {
        (Some(t), _, _) => (PhaseView::Ended, seq![StepView::ShowError(t), StepView::End]),
        (None, PhaseView::LookingUp, JoinEvent::Found(peer)) => (
            PhaseView::Starting(peer.endpoint_id@),
            seq![StepView::NoteName(text::opt_text(peer.device_name)), StepView::StartEndpoint],
        ),
        (None, PhaseView::Starting(id), JoinEvent::EndpointUp) => (
            PhaseView::Dialling,
            seq![StepView::DialInternet(key_of(id)->0)],
        ),
        (None, PhaseView::Dialling, JoinEvent::Connected) => (
            PhaseView::Pairing,
            seq![StepView::Pair],
        ),
        (None, PhaseView::Pairing, JoinEvent::Paired) => (
            PhaseView::Ended,
            seq![StepView::Establish, StepView::End],
        ),
        _ => (phase, Seq::empty()),
    }
}

/// What a joiner does once its endpoint is up, by the host's key: dial it, or
/// give up where there is none.
pub fn dialling(key: Option<[u8; 32]>) -> (steps: Vec<JoinStep>)
    ensures
        steps_view(steps@) == match key {
            Some(k) => seq![StepView::DialInternet(k@)],
            None => seq![StepView::ShowError("invalid peer address"@), StepView::End],
        },
{
    match key {
        Some(k) => {
            let steps = vec![JoinStep::DialInternet(k)];
            assert(steps_view(steps@) =~= seq![StepView::DialInternet(k@)]);
            steps
        },
        None => failing("invalid peer address".to_owned()),
    }
}

/// A joiner on its way to a session.
pub struct Joiner {
    phase: JoinPhase,
}

impl View for Joiner {
    type V = PhaseView;

    closed spec fn view(&self) -> PhaseView {
        self.phase@
    }
}

impl Joiner {
    /// A joiner of a host on the local network, and what it does first.
    pub fn on_lan(address: &str, port: u16) -> (r: (Joiner, JoinStep))
        ensures
            r.0@ == PhaseView::Dialling,
            r.1@ == StepView::DialLan(address@, port),
    {
        (Joiner { phase: JoinPhase::Dialling }, JoinStep::DialLan(address.to_owned(), port))
    }

    /// A joiner of a host on the internet, and what it does first.
    pub fn on_internet() -> (r: (Joiner, JoinStep))
        ensures
            r.0@ == PhaseView::LookingUp,
            r.1@ == StepView::Lookup,
    {
        (Joiner { phase: JoinPhase::LookingUp }, JoinStep::Lookup)
    }

    /// Whether the joiner has a session, or failed.
    pub fn has_ended(&self) -> (yes: bool)
        ensures
            yes == (self@ is Ended),
    {
        matches!(self.phase, JoinPhase::Ended)
    }

    /// Take an event and tell what to do.
    pub fn step(&mut self, event: JoinEvent) -> (steps: Vec<JoinStep>)
        requires
            expects(old(self)@, event),
        ensures
            (final(self)@, steps_view(steps@)) == transition(old(self)@, event),
    {
        let ghost want = transition(self@, event).1;
        let mut phase = JoinPhase::Ended;
        std::mem::swap(&mut phase, &mut self.phase);
        let steps = match event {
            JoinEvent::LookupFailed(e) => failing(e.message()),
            JoinEvent::EndpointFailed(t) => failing(t),
            JoinEvent::ConnectFailed(t) => failing(t),
            JoinEvent::HandshakeFailed(e) => failing(e.message()),
            JoinEvent::Found(peer) => {
                self.phase = JoinPhase::Starting(peer.endpoint_id);
                vec![JoinStep::NoteName(peer.device_name), JoinStep::StartEndpoint]
            },
            JoinEvent::EndpointUp => {
                let key = match phase {
                    JoinPhase::Starting(id) => internet::peer_key(id.as_str()),
                    _ => None,
                };
                if key.is_some() {
                    self.phase = JoinPhase::Dialling;
                }
                dialling(key)
            },
            JoinEvent::Connected => {
                self.phase = JoinPhase::Pairing;
                vec![JoinStep::Pair]
            },
            JoinEvent::Paired => vec![JoinStep::Establish, JoinStep::End],
        };
        assert(steps_view(steps@) =~= want);
        steps
    }
}

fn failing(text: String) -> (steps: Vec<JoinStep>)
    ensures
        steps_view(steps@) == seq![StepView::ShowError(text@), StepView::End],
{
    let steps = vec![JoinStep::ShowError(text), JoinStep::End];
    assert(steps_view(steps@) =~= seq![StepView::ShowError(text@), StepView::End]);
    steps
}

/// A joiner ends with a session exactly where the handshake succeeded, and
/// otherwise with an error that is shown.
pub proof fn law_join_pairs_or_tells_why(phase: PhaseView, event: JoinEvent)
    requires
        expects(phase, event),
    ensures
        ({
            let (next, steps) = transition(phase, event);
            &&& steps.contains(StepView::Establish) <==> phase is Pairing && event is Paired
            &&& next is Ended <==> steps.contains(StepView::End)
            &&& failure(phase, event) matches Some(t) ==> next is Ended && steps.contains(
                StepView::ShowError(t),
            )
            &&& failure(phase, event) is None ==> forall|t: Seq<char>|
                !#[trigger] steps.contains(StepView::ShowError(t))
        }),
{
    let (next, steps) = transition(phase, event);
    if next is Ended {
        assert(steps[1] == StepView::End);
        if let Some(t) = failure(phase, event) {
            assert(steps[0] == StepView::ShowError(t));
        } else {
            assert(steps[0] == StepView::Establish);
        }
    }
}

/// A host that the mailbox gave is noted by its name, and once the endpoint is up
/// it is that host's key that is dialled; then the joiner pairs.
pub proof fn law_the_found_host_is_dialled(peer: Peer)
    ensures
        ({
            let (next, steps) = transition(PhaseView::LookingUp, JoinEvent::Found(peer));
            &&& next == PhaseView::Starting(peer.endpoint_id@)
            &&& steps == seq![
                StepView::NoteName(text::opt_text(peer.device_name)),
                StepView::StartEndpoint,
            ]
            &&& internet::endpoint_key(text::trimmed(peer.endpoint_id@)) matches Some(key)
                ==> transition(next, JoinEvent::EndpointUp) == (
                PhaseView::Dialling,
                seq![StepView::DialInternet(key)],
            )
            &&& internet::endpoint_key(text::trimmed(peer.endpoint_id@)) is None ==> transition(
                next,
                JoinEvent::EndpointUp,
            ) == (
                PhaseView::Ended,
                seq![StepView::ShowError("invalid peer address"@), StepView::End],
            )
        }),
        transition(PhaseView::Dialling, JoinEvent::Connected) == (
            PhaseView::Pairing,
            seq![StepView::Pair],
        ),
        transition(PhaseView::Pairing, JoinEvent::Paired) == (
            PhaseView::Ended,
            seq![StepView::Establish, StepView::End],
        ),
{
}

/// Whatever fails on the way is shown in its own words and ends it.
pub proof fn law_failures_are_shown(e: MailboxError, h: HandshakeError, t: String, id: Seq<char>)
    ensures
        transition(PhaseView::LookingUp, JoinEvent::LookupFailed(e)) == (
            PhaseView::Ended,
            seq![StepView::ShowError(messages::mailbox_text(e)), StepView::End],
        ),
        transition(PhaseView::Starting(id), JoinEvent::EndpointFailed(t)) == (
            PhaseView::Ended,
            seq![StepView::ShowError(t@), StepView::End],
        ),
        transition(PhaseView::Dialling, JoinEvent::ConnectFailed(t)) == (
            PhaseView::Ended,
            seq![StepView::ShowError(t@), StepView::End],
        ),
        transition(PhaseView::Pairing, JoinEvent::HandshakeFailed(h)) == (
            PhaseView::Ended,
            seq![StepView::ShowError(messages::handshake_text(h)), StepView::End],
        ),
{
}

/// Which events can come when: on each leg of the way, that it succeeded or failed.
pub proof fn law_expected_events(
    id: Seq<char>,
    peer: Peer,
    e: MailboxError,
    h: HandshakeError,
    t: String,
)
    ensures
        expects(PhaseView::LookingUp, JoinEvent::Found(peer)),
        expects(PhaseView::LookingUp, JoinEvent::LookupFailed(e)),
        expects(PhaseView::Starting(id), JoinEvent::EndpointUp),
        expects(PhaseView::Starting(id), JoinEvent::EndpointFailed(t)),
        expects(PhaseView::Dialling, JoinEvent::Connected),
        expects(PhaseView::Dialling, JoinEvent::ConnectFailed(t)),
        expects(PhaseView::Pairing, JoinEvent::Paired),
        expects(PhaseView::Pairing, JoinEvent::HandshakeFailed(h)),
{
}

} // verus!
