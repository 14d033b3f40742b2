use frostwall::coordinator::{
    collected, Action, Coordinator, Direction, Event, Fault, Outcome, TransferItem, TransferStart,
};
use frostwall::crypto::SessionKeys;
use frostwall::protocol::{encode, ManifestEntry, Message};
use frostwall::transfer::{seal_control, PathError, TransferError};

fn keys() -> SessionKeys {
    SessionKeys::derive(b"session")
}

fn shown(name: &str, size: u64) -> TransferItem {
    TransferItem { name: name.into(), size }
}

fn manifest() -> Vec<u8> {
    let entries = vec![
        ManifestEntry { rel_path: "a.txt".into(), size: 3 },
        ManifestEntry { rel_path: "b/c.txt".into(), size: 4 },
    ];
    seal_control(&keys(), &Message::Manifest(entries)).unwrap()
}

fn incoming() -> TransferStart {
    TransferStart {
        direction: Direction::Receiving,
        items: vec![shown("a.txt", 3), shown("b/c.txt", 4)],
        total: 7,
        file_count: 2,
    }
}

#[test]
fn a_send_runs_and_the_session_goes_on() {
    let k = keys();
    let mut c = Coordinator::new(false);
    assert_eq!(
        c.step(&k, Event::Send(vec!["/x".into()])),
        vec![Action::SetInFlight(true), Action::InstallCancel, Action::Collect(vec!["/x".into()])]
    );
    assert_eq!(
        c.step(&k, Event::Collected(vec![shown("x", 5)])),
        vec![
            Action::ShowStart(TransferStart {
                direction: Direction::Sending,
                items: vec![shown("x", 5)],
                total: 5,
                file_count: 1,
            }),
            Action::RunSend,
        ]
    );
    assert_eq!(
        c.step(&k, Event::SendFinished(Outcome::Failed(TransferError::RejectedByPeer))),
        vec![
            Action::ClearCancel,
            Action::SetInFlight(false),
            Action::ReplySend(Outcome::Failed(TransferError::RejectedByPeer)),
            Action::ShowDone(false),
        ]
    );
    assert!(c.is_idle());
}

#[test]
fn a_send_that_cannot_be_collected_is_answered() {
    let k = keys();
    let mut c = Coordinator::new(false);
    c.step(&k, Event::Send(vec![]));
    let o = Outcome::Failed(TransferError::SymlinkRoot("/l".into()));
    let actions = c.step(&k, Event::CollectFailed(o.clone()));
    assert_eq!(actions[2], Action::ReplySend(o));
    assert_eq!(actions[3], Action::ShowDone(false));
    assert!(c.is_idle());
}

#[test]
fn an_incoming_transfer_waits_for_consent() {
    let k = keys();
    let frame = manifest();
    let mut c = Coordinator::new(false);
    assert_eq!(
        c.step(&k, Event::Frame(frame.clone())),
        vec![Action::ShowPending(incoming()), Action::AwaitDecision]
    );
    assert_eq!(c.step(&k, Event::Decision(true)), vec![Action::SendAccept]);
    assert_eq!(
        c.step(&k, Event::AcceptSent(None)),
        vec![
            Action::SetInFlight(true),
            Action::InstallCancel,
            Action::ShowStart(incoming()),
            Action::RunReceive(frame),
        ]
    );
    assert_eq!(
        c.step(&k, Event::ReceiveFinished(Outcome::Completed)),
        vec![
            Action::ClearCancel,
            Action::SetInFlight(false),
            Action::ShowDone(true),
            Action::ShowReceived,
        ]
    );
    assert!(c.is_idle());
}

#[test]
fn a_declined_transfer_keeps_the_session() {
    let k = keys();
    let mut c = Coordinator::new(false);
    c.step(&k, Event::Frame(manifest()));
    assert_eq!(
        c.step(&k, Event::Decision(false)),
        vec![Action::SendReject, Action::ShowDone(false)]
    );
    assert!(c.is_idle());
}

fn receiving() -> Coordinator {
    let k = keys();
    let mut c = Coordinator::new(false);
    c.step(&k, Event::Frame(manifest()));
    c.step(&k, Event::Decision(true));
    c.step(&k, Event::AcceptSent(None));
    c
}

#[test]
fn a_cancelled_receive_keeps_the_session() {
    for e in [TransferError::Cancelled, TransferError::CancelledByPeer] {
        let mut c = receiving();
        let actions = c.step(&keys(), Event::ReceiveFinished(Outcome::Failed(e)));
        assert!(!actions.contains(&Action::Stop));
        assert!(actions.contains(&Action::ShowDone(false)));
        assert!(c.is_idle());
    }
}

#[test]
fn a_failed_receive_ends_the_session() {
    let mut c = receiving();
    let o = Outcome::Failed(TransferError::IntegrityFailed);
    assert_eq!(
        c.step(&keys(), Event::ReceiveFinished(o.clone())),
        vec![
            Action::ClearCancel,
            Action::SetInFlight(false),
            Action::ShowError(Fault::Transfer(o)),
            Action::ShowDone(false),
            Action::Stop,
        ]
    );
    assert!(c.is_stopped());
    let mut c = receiving();
    c.step(&keys(), Event::ReceiveFinished(Outcome::Broken("disk full".into())));
    assert!(c.is_stopped());
}

#[test]
fn a_bad_first_frame_ends_the_session() {
    let k = keys();
    let mut c = Coordinator::new(false);
    let done = seal_control(&k, &Message::Done).unwrap();
    assert_eq!(
        c.step(&k, Event::Frame(done)),
        vec![
            Action::ShowError(Fault::UnexpectedMessage(Message::Done)),
            Action::ShowDone(false),
            Action::Stop,
        ]
    );
    let mut c = Coordinator::new(false);
    let empty = seal_control(&k, &Message::Manifest(vec![])).unwrap();
    assert_eq!(
        c.step(&k, Event::Frame(empty))[0],
        Action::ShowError(Fault::Transfer(Outcome::Failed(TransferError::EmptyManifest)))
    );
    assert!(c.is_stopped());
}

#[test]
fn an_unsent_acceptance_ends_the_session() {
    let k = keys();
    let mut c = Coordinator::new(false);
    c.step(&k, Event::Frame(manifest()));
    c.step(&k, Event::Decision(true));
    assert_eq!(
        c.step(&k, Event::AcceptSent(Some("send frame: gone".into())))[0],
        Action::ShowError(Fault::AcceptFailed("send frame: gone".into()))
    );
    assert!(c.is_stopped());
}

#[test]
fn the_end_of_the_connection_or_the_commands_ends_the_session() {
    let k = keys();
    let mut c = Coordinator::new(false);
    assert_eq!(c.step(&k, Event::ConnectionLost), vec![Action::ShowDisconnected, Action::Stop]);
    assert!(c.is_stopped());
    let mut c = Coordinator::new(false);
    assert_eq!(c.step(&k, Event::CommandsClosed), vec![Action::Stop]);
    assert!(c.is_stopped());
}

#[test]
fn a_send_list_must_add_up() {
    let item = |size: u64| TransferItem { name: "f".into(), size };
    let fits = vec![item(u64::MAX - 1), item(1)];
    assert_eq!(collected(fits.clone()), Event::Collected(fits));
    let failed = Event::CollectFailed(Outcome::Failed(TransferError::TotalOverflow));
    assert_eq!(collected(vec![item(u64::MAX), item(1)]), failed);
}

#[test]
fn faults_say_what_happened() {
    assert_eq!(Fault::Transfer(Outcome::Broken("disk full".into())).message(), "disk full");
    let cancelled = Outcome::Failed(TransferError::Cancelled);
    assert_eq!(Fault::Transfer(cancelled).message(), "transfer cancelled");
    assert_eq!(Fault::UnexpectedMessage(Message::Done).message(), "unexpected message: Done");
    let refused = Outcome::Failed(TransferError::Path(PathError::Absolute("/x".into())));
    assert_eq!(Fault::Transfer(refused).message(), "absolute path in manifest: /x");
    assert_eq!(Fault::AcceptFailed("gone".into()).message(), "gone");
    assert_eq!(Outcome::Completed.message(), "transfer complete");
}

#[test]
fn what_a_cancelled_transfer_left_behind_is_passed_over() {
    let k = keys();
    let sealed = |m: Message| seal_control(&k, &m).unwrap();
    let late = vec![
        encode(&Message::Chunk(vec![1, 2, 3])).unwrap(),
        sealed(Message::FileEnd([0; 32])),
        sealed(Message::Done),
        sealed(Message::Accept),
        sealed(Message::Reject),
        sealed(Message::Cancel),
    ];
    for e in [TransferError::Cancelled, TransferError::CancelledByPeer] {
        let mut c = receiving();
        c.step(&k, Event::ReceiveFinished(Outcome::Failed(e)));
        for frame in &late {
            assert_eq!(c.step(&k, Event::Frame(frame.clone())), vec![]);
            assert!(c.is_idle());
        }
        // a send that fails on the way changes nothing about that
        c.step(&k, Event::Send(vec![]));
        c.step(&k, Event::Collected(vec![]));
        c.step(&k, Event::SendFinished(Outcome::Failed(TransferError::RejectedByPeer)));
        assert_eq!(c.step(&k, Event::Frame(late[0].clone())), vec![]);
        // the next manifest is taken like any other, and ends the leniency
        c.step(&k, Event::Frame(manifest()));
        c.step(&k, Event::Decision(false));
        assert!(c.is_idle());
        c.step(&k, Event::Frame(late[0].clone()));
        assert!(c.is_stopped());
    }
}

#[test]
fn a_late_cancel_never_ends_the_session() {
    let k = keys();
    let mut c = Coordinator::new(false);
    let cancel = seal_control(&k, &Message::Cancel).unwrap();
    assert_eq!(c.step(&k, Event::Frame(cancel)), vec![]);
    assert!(c.is_idle());
}

#[test]
fn a_cancelled_send_keeps_the_session() {
    let k = keys();
    let mut c = Coordinator::new(false);
    c.step(&k, Event::Send(vec![]));
    c.step(&k, Event::Collected(vec![]));
    c.step(&k, Event::SendFinished(Outcome::Failed(TransferError::Cancelled)));
    assert_eq!(c.step(&k, Event::Frame(seal_control(&k, &Message::Accept).unwrap())), vec![]);
    assert!(c.is_idle());
}

#[test]
fn drives_are_refused_before_anything_is_shown_on_windows() {
    let k = keys();
    let entries = vec![ManifestEntry { rel_path: "C:x".into(), size: 1 }];
    let frame = seal_control(&k, &Message::Manifest(entries)).unwrap();
    let refused = TransferError::Path(PathError::UnsafeComponent("C:x".into()));
    assert_eq!(
        Coordinator::new(true).step(&k, Event::Frame(frame.clone())),
        vec![
            Action::ShowError(Fault::Transfer(Outcome::Failed(refused))),
            Action::ShowDone(false),
            Action::Stop,
        ]
    );
    let actions = Coordinator::new(false).step(&k, Event::Frame(frame));
    assert_eq!(actions[1], Action::AwaitDecision);
}
