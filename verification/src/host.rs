//! A host that waits for its joiner, on the local network or on the internet.
//! Connections are accepted one after the other, so that a stalled or failed
//! handshake does not use up the only slot; too many wrong codes end the wait.
use crate::messages;
use crate::session;
use crate::session::{HandshakeError, PairingBudget};
use crate::text;
use vstd::prelude::*;

verus! {

/// What happened to a waiting host.
#[derive(Debug, Clone, PartialEq, Eq)]
pub enum HostEvent {
    /// No further connection can be accepted, as the text tells.
    AcceptFailed(String),
    /// The handshake of an accepted connection succeeded.
    Paired,
    /// The handshake of an accepted connection failed.
    HandshakeFailed(HandshakeError),
}

/// What a waiting host does.
#[derive(Debug, Clone, PartialEq, Eq)]
pub enum HostStep {
    /// Accept another connection.
    AcceptAgain,
    /// Show an error.
    ShowError(String),
    /// Stop advertising on the local network.
    StopAdvertising,
    /// Remove the registration from the mailbox service.
    Unregister,
    /// Forget the registration.
    ForgetRegistration,
    /// Establish the session.
    Establish,
    /// Wait no longer.
    End,
}

/// What a waiting host does, by contents.
pub ghost enum StepView {
    AcceptAgain,
    ShowError(Seq<char>),
    StopAdvertising,
    Unregister,
    ForgetRegistration,
    Establish,
    End,
}

impl View for HostStep {
    type V = StepView;

    open spec fn view(&self) -> StepView {
        match self {
            HostStep::AcceptAgain => StepView::AcceptAgain,
            HostStep::ShowError(t) => StepView::ShowError(t@),
            HostStep::StopAdvertising => StepView::StopAdvertising,
            HostStep::Unregister => StepView::Unregister,
            HostStep::ForgetRegistration => StepView::ForgetRegistration,
            HostStep::Establish => StepView::Establish,
            HostStep::End => StepView::End,
        }
    }
}

/// The contents of steps.
pub open spec fn steps_view(steps: Seq<HostStep>) -> Seq<StepView> {
    steps.map_values(|s: HostStep| s@)
}

/// What the user is told after too many failed handshakes.
pub open spec fn too_many_text(e: HandshakeError) -> Seq<char> {
    "too many failed pairing attempts ("@ + messages::handshake_text(e)
        + "); please regenerate the code"@
}

/// How waiting ends: on the internet the registration goes.
pub open spec fn ending(internet: bool) -> Seq<StepView> {
    if internet {
        seq![StepView::Unregister, StepView::ForgetRegistration, StepView::End]
    } else {
        seq![StepView::End]
    }
}

/// How many handshakes have failed after an event.
pub open spec fn failures_after(failures: nat, event: HostEvent) -> nat {
    match event {
        HostEvent::HandshakeFailed(e) if !session::is_stall(e) => failures + 1,
        _ => failures,
    }
}

/// What a waiting host does after an event.
pub open spec fn steps_after(internet: bool, failures: nat, event: HostEvent) -> Seq<StepView> {
    match event {
        HostEvent::AcceptFailed(t) => seq![StepView::ShowError(t@)] + ending(internet),
        HostEvent::Paired => (if internet {
            seq![StepView::Unregister, StepView::ForgetRegistration]
        } else {
            seq![StepView::StopAdvertising]
        }) + seq![StepView::Establish] + ending(internet),
        HostEvent::HandshakeFailed(e) => if failures_after(failures, event)
            < session::MAX_PAIRING_ATTEMPTS {
            seq![StepView::AcceptAgain]
        } else {
            seq![StepView::ShowError(too_many_text(e))] + ending(internet)
        },
    }
}

/// A host that waits for its joiner.
pub struct Host {
    internet: bool,
    budget: PairingBudget,
}

impl Host {
    /// Whether the host waits on the internet.
    pub closed spec fn internet(&self) -> bool {
        self.internet
    }

    /// How many handshakes have failed.
    pub closed spec fn failures(&self) -> nat {
        self.budget.failures()
    }

    /// A host that begins to wait.
    pub fn new(internet: bool) -> (h: Host)
        ensures
            h.internet() == internet,
            h.failures() == 0,
    {
        Host { internet, budget: PairingBudget::new() }
    }

    /// Take an event and tell what to do.
    pub fn step(&mut self, event: HostEvent) -> (steps: Vec<HostStep>)
        requires
            old(self).failures() < session::MAX_PAIRING_ATTEMPTS,
        ensures
            final(self).internet() == old(self).internet(),
            final(self).failures() == failures_after(old(self).failures(), event),
            steps_view(steps@) == steps_after(old(self).internet(), old(self).failures(), event),
    {
        let ghost want = steps_after(self.internet(), self.failures(), event);
        let mut steps: Vec<HostStep> = Vec::new();
        match event {
            HostEvent::AcceptFailed(t) => {
                steps.push(HostStep::ShowError(t));
            },
            HostEvent::Paired => {
                if self.internet {
                    steps.push(HostStep::Unregister);
                    steps.push(HostStep::ForgetRegistration);
                } else {
                    steps.push(HostStep::StopAdvertising);
                }
                steps.push(HostStep::Establish);
            },
            HostEvent::HandshakeFailed(e) => {
                if self.budget.on_failure(&e) {
                    steps.push(HostStep::AcceptAgain);
                    assert(steps_view(steps@) =~= want);
                    return steps;
                }
                let m = text::concat("too many failed pairing attempts (", e.message().as_str());
                steps.push(
                    HostStep::ShowError(
                        text::concat(m.as_str(), "); please regenerate the code"),
                    ),
                );
            },
        }
        if self.internet {
            steps.push(HostStep::Unregister);
            steps.push(HostStep::ForgetRegistration);
        }
        steps.push(HostStep::End);
        assert(steps_view(steps@) =~= want);
        steps
    }
}

/// The number of handshakes that have failed after events.
pub open spec fn failures_after_all(events: Seq<HostEvent>) -> nat
    decreases events.len(),
{
    if events.len() == 0 {
        0
    } else {
        failures_after(failures_after_all(events.drop_last()), events.last())
    }
}

/// Whether the host accepted another connection after each of the events.
pub open spec fn went_on(internet: bool, events: Seq<HostEvent>) -> bool {
    forall|k: int|
        0 <= k < events.len() ==> steps_after(
            internet,
            failures_after_all(events.take(k)),
            #[trigger] events[k],
        ) == seq![StepView::AcceptAgain]
}

/// Guessing a code online is bounded: however many handshakes stall, a host that
/// still accepts connections has seen fewer than `MAX_PAIRING_ATTEMPTS` fail,
/// and the one that exhausts the budget ends the wait.
pub proof fn law_guesses_are_bounded(internet: bool, events: Seq<HostEvent>, e: HandshakeError)
    requires
        went_on(internet, events),
        !session::is_stall(e),
    ensures
        failures_after_all(events) < session::MAX_PAIRING_ATTEMPTS,
        failures_after_all(events) + 1 == session::MAX_PAIRING_ATTEMPTS ==> steps_after(
            internet,
            failures_after_all(events),
            HostEvent::HandshakeFailed(e),
        ).last() == StepView::End,
{
    if events.len() > 0 {
        let last = events.len() - 1;
        let event = events[last];
        assert(events.take(last) =~= events.drop_last());
        let steps = steps_after(internet, failures_after_all(events.drop_last()), event);
        assert(steps == seq![StepView::AcceptAgain]);
        assert(steps[0] == StepView::AcceptAgain);
    }
}

/// A stalled handshake costs nothing.
pub proof fn law_stalls_cost_nothing(internet: bool, failures: nat, e: HandshakeError)
    requires
        session::is_stall(e),
        failures < session::MAX_PAIRING_ATTEMPTS,
    ensures
        failures_after(failures, HostEvent::HandshakeFailed(e)) == failures,
        steps_after(internet, failures, HostEvent::HandshakeFailed(e)) == seq![
            StepView::AcceptAgain,
        ],
{
}

/// How many of the first `n` events are failed handshakes that did not stall.
pub open spec fn wrong_guesses(events: Seq<HostEvent>, n: nat) -> nat
    decreases n,
{
    if n == 0 {
        0
    } else {
        wrong_guesses(events, (n - 1) as nat) + (match events[n - 1] {
            HostEvent::HandshakeFailed(e) => if session::is_stall(e) {
                0nat
            } else {
                1nat
            },
            _ => 0nat,
        })
    }
}

/// The budget counts the failed handshakes that did not stall, each once.
pub proof fn law_failures_are_counted(events: Seq<HostEvent>)
    ensures
        failures_after_all(events) == wrong_guesses(events, events.len()),
    decreases events.len(),
{
    if events.len() > 0 {
        let front = events.drop_last();
        law_failures_are_counted(front);
        lemma_same_guesses(events, front, front.len());
    }
}

proof fn lemma_same_guesses(a: Seq<HostEvent>, b: Seq<HostEvent>, n: nat)
    requires
        n <= a.len(),
        n <= b.len(),
        forall|k: int| 0 <= k < n ==> a[k] == b[k],
    ensures
        wrong_guesses(a, n) == wrong_guesses(b, n),
    decreases n,
{
    if n > 0 {
        lemma_same_guesses(a, b, (n - 1) as nat);
    }
}

/// A host goes on accepting after fewer than five wrong guesses, and gives up with
/// the fifth; it says why, and leaves no registration behind.
pub proof fn law_five_guesses(internet: bool, failures: nat, e: HandshakeError)
    requires
        failures < 5,
        !session::is_stall(e),
    ensures
        failures < 4 ==> steps_after(internet, failures, HostEvent::HandshakeFailed(e)) == seq![
            StepView::AcceptAgain,
        ],
        failures == 4 ==> steps_after(internet, failures, HostEvent::HandshakeFailed(e)) == (
        if internet {
            seq![
                StepView::ShowError(too_many_text(e)),
                StepView::Unregister,
                StepView::ForgetRegistration,
                StepView::End,
            ]
        } else {
            seq![StepView::ShowError(too_many_text(e)), StepView::End]
        }),
        too_many_text(e) == "too many failed pairing attempts ("@ + messages::handshake_text(e)
            + "); please regenerate the code"@,
{
    assert(seq![StepView::ShowError(too_many_text(e))] + ending(internet) =~= (if internet {
        seq![
            StepView::ShowError(too_many_text(e)),
            StepView::Unregister,
            StepView::ForgetRegistration,
            StepView::End,
        ]
    } else {
        seq![StepView::ShowError(too_many_text(e)), StepView::End]
    }));
}

/// A session is established exactly where the handshake succeeded; the host is
/// then no longer to be found, and waits no longer. A host that can accept nobody
/// any more says why.
pub proof fn law_paired_or_told_why(internet: bool, failures: nat, t: String)
    ensures
        ({
            let steps = steps_after(internet, failures, HostEvent::Paired);
            &&& steps.contains(StepView::Establish)
            &&& steps.last() == StepView::End
            &&& internet ==> steps[0] == StepView::Unregister && steps[1]
                == StepView::ForgetRegistration
            &&& !internet ==> steps[0] == StepView::StopAdvertising
        }),
        ({
            let steps = steps_after(internet, failures, HostEvent::AcceptFailed(t));
            &&& steps[0] == StepView::ShowError(t@)
            &&& steps.last() == StepView::End
            &&& !steps.contains(StepView::Establish)
            &&& internet ==> steps[1] == StepView::Unregister && steps[2]
                == StepView::ForgetRegistration
        }),
        forall|e: HandshakeError|
            !(#[trigger] steps_after(internet, failures, HostEvent::HandshakeFailed(e))).contains(
                StepView::Establish,
            ),
{
    let steps = steps_after(internet, failures, HostEvent::Paired);
    if internet {
        assert(steps[2] == StepView::Establish);
    } else {
        assert(steps[1] == StepView::Establish);
    }
}

} // verus!
