//! Session establishment: turns a freshly opened connection into a paired,
//! encrypted session via SPAKE2 and key confirmation.
//!
//! ```text
//! Host (Role A)                Joiner (Role B)
//!   msgA = spake2_A || eph_pubA  ──(1)──▶
//!                               ◀──(2)──  msgB = spake2_B || eph_pubB
//!   tokA = MAC(confirm_a)        ──(3)──▶
//!                               ◀──(4)──  tokB = MAC(confirm_b)
//! ```
//!
//! The host is always role A and the joiner always role B. Each side verifies
//! the peer's token before the session is established: a wrong code or a
//! terminating relay fails there. The frames carry raw bytes.
use crate::crypto;
use crate::crypto::SessionKeys;
use crate::liveness;
use crate::pairing;
use crate::pairing::{Pairing, PairingError, Role};
use crate::text;
use rand::Rng;
use vstd::prelude::*;
use vstd::utf8::*;

verus! {

/// Seconds to wait for each handshake message. A peer that opens a connection
/// and then stalls is dropped.
pub const HANDSHAKE_TIMEOUT_SECS: u64 = 10;

/// Most failed handshakes before the host gives up on its pairing code.
pub const MAX_PAIRING_ATTEMPTS: u32 = 5;

/// `rand::Rng::gen_range` of the thread's generator over the numbers below
/// `bound`. Nothing else is known of the number.
#[verifier::external_body]
fn random_below(bound: u32) -> (n: u32)
    requires
        bound > 0,
    ensures
        n < bound,
{
    rand::thread_rng().gen_range(0..bound)
}

/// The pairing code that `n` shows as: six digits.
pub fn pairing_code(n: u32) -> (code: String)
    ensures
        code@ == text::padded(n as nat, 6),
        code@.len() == 6,
        forall|i: int| 0 <= i < 6 ==> text::is_digit(#[trigger] code@[i]),
{
    proof {
        text::lemma_padded(n as nat, 6);
    }
    text::padded_text(n as u64, 6)
}

/// A random 6-digit pairing code for the host to display.
pub fn generate_pairing_code() -> (code: String)
    ensures
        code@.len() == 6,
        forall|i: int| 0 <= i < 6 ==> text::is_digit(#[trigger] code@[i]),
        exists|n: nat| n < 1_000_000 && code@ == #[trigger] text::padded(n, 6),
{
    let n: u32 = random_below(1_000_000);
    pairing_code(n)
}

/// An established, paired, encrypted session over some connection.
pub struct Session<C> {
    conn: C,
    keys: SessionKeys,
}

impl<C> Session<C> {
    /// The connection.
    pub closed spec fn spec_conn(&self) -> C {
        self.conn
    }

    /// The session's keys.
    pub closed spec fn spec_keys(&self) -> SessionKeys {
        self.keys
    }

    /// A session of a connection and its keys.
    pub fn new(conn: C, keys: SessionKeys) -> (s: Session<C>)
        ensures
            s.spec_conn() == conn,
            s.spec_keys() == keys,
    {
        Session { conn, keys }
    }

    /// The session's keys.
    pub fn keys(&self) -> (keys: &SessionKeys)
        ensures
            *keys == self.spec_keys(),
    {
        &self.keys
    }

    /// The connection, to send and receive on.
    pub fn conn_mut(&mut self) -> (conn: &mut C)
        ensures
            *conn == old(self).spec_conn(),
            final(self).spec_conn() == *final(conn),
            final(self).spec_keys() == old(self).spec_keys(),
    {
        &mut self.conn
    }

    /// The rotating 6-digit liveness code valid at `now_unix` seconds.
    pub fn liveness_code(&self, now_unix: u64) -> (code: String)
        ensures
            code@ == liveness::code_at(self.spec_keys().liveness_key@, now_unix),
    {
        liveness::current_code(&self.keys.liveness_key, now_unix)
    }

    /// The owned connection and keys.
    pub fn into_parts(self) -> (parts: (C, SessionKeys))
        ensures
            parts.0 == self.spec_conn(),
            parts.1 == self.spec_keys(),
    {
        (self.conn, self.keys)
    }
}

/// Why a handshake failed.
#[derive(Debug, Clone, PartialEq, Eq)]
pub enum HandshakeError {
    /// The peer stalled.
    TimedOut,
    /// The connection failed, as the text tells.
    Transport(String),
    /// The peer's first message is unusable.
    Pairing(PairingError),
    /// The peer's token is wrong: wrong code, or a relay in between.
    ConfirmationFailed,
}

/// The other role.
pub open spec fn other(role: Role) -> Role {
    match role {
        Role::A => Role::B,
        Role::B => Role::A,
    }
}

fn other_role(role: Role) -> (r: Role)
    ensures
        r == other(role),
{
    match role {
        Role::A => Role::B,
        Role::B => Role::A,
    }
}

/// Where a handshake stands.
enum Stage {
    /// The peer's first message is awaited; this side's own is at hand.
    AwaitMessage(Pairing, Vec<u8>),
    /// The peer's token is awaited, which is to confirm the keys.
    AwaitToken(SessionKeys),
}

/// Where a handshake stands, by contents.
pub ghost enum StageView {
    /// The peer's first message is awaited by this party.
    AwaitMessage(pairing::Party),
    /// The peer's token is awaited, in this role and with this session secret.
    AwaitToken(Role, Seq<u8>),
}

/// What follows a frame, by contents.
pub ghost enum TurnView {
    Wait(StageView),
    /// The session secret is confirmed.
    Established(Seq<u8>),
    Failed(HandshakeError),
}

/// Bytes that may be missing, by contents.
pub open spec fn opt_bytes(b: Option<Vec<u8>>) -> Option<Seq<u8>> {
    match b {
        Some(b) => Some(b@),
        None => None,
    }
}

/// What a side sends before it has received anything: the host its first
/// message, the joiner nothing.
pub open spec fn opening(p: pairing::Party) -> Option<Seq<u8>> {
    match p.role {
        Role::A => Some(p.message()),
        Role::B => None,
    }
}

/// What a side sends after a frame. The host proves the keys as soon as it has
/// them; the joiner answers the first message with its own, and proves the keys
/// only to a host that has proved them.
pub open spec fn reply(stage: StageView, frame: Seq<u8>) -> Option<Seq<u8>> {
    match stage {
        StageView::AwaitMessage(p) => match (p.role, p.outcome(frame)) {
            (Role::A, Ok(secret)) => Some(pairing::token_under(secret, Role::A)),
            (Role::A, Err(_)) => None,
            (Role::B, _) => Some(p.message()),
        },
        StageView::AwaitToken(Role::B, secret) => if frame == pairing::token_under(
            secret,
            Role::A,
        ) {
            Some(pairing::token_under(secret, Role::B))
        } else {
            None
        },
        StageView::AwaitToken(Role::A, _) => None,
    }
}

/// What follows a frame.
pub open spec fn turn_after(stage: StageView, frame: Seq<u8>) -> TurnView {
    match stage {
        StageView::AwaitMessage(p) => match p.outcome(frame) {
            Ok(secret) => TurnView::Wait(StageView::AwaitToken(p.role, secret)),
            Err(e) => TurnView::Failed(HandshakeError::Pairing(e)),
        },
        StageView::AwaitToken(role, secret) => if frame == pairing::token_under(
            secret,
            other(role),
        ) {
            TurnView::Established(secret)
        } else {
            TurnView::Failed(HandshakeError::ConfirmationFailed)
        },
    }
}

/// One side of a handshake, waiting for a frame of its peer.
pub struct Handshake {
    role: Role,
    stage: Stage,
    secret: Ghost<Seq<u8>>,
}

/// What follows a frame.
pub enum Turn {
    /// Another frame is awaited.
    Wait(Handshake),
    /// The peer has proved that it has the same keys.
    Established(SessionKeys),
    /// The handshake is over without a session.
    Failed(HandshakeError),
}

impl View for Handshake {
    type V = StageView;

    closed spec fn view(&self) -> StageView {
        match self.stage {
            Stage::AwaitMessage(p, _) => StageView::AwaitMessage(p@),
            Stage::AwaitToken(_) => StageView::AwaitToken(self.role, self.secret@),
        }
    }
}

impl Handshake {
    /// The role is the one that the pairing was started with, the message at
    /// hand is the party's, and the keys are those of the secret.
    #[verifier::type_invariant]
    spec fn well_formed(self) -> bool {
        match self.stage {
            Stage::AwaitMessage(p, msg) => self.role == p@.role && msg@ == p@.message(),
            Stage::AwaitToken(keys) => keys.derived_from(self.secret@),
        }
    }

    /// Begin a handshake, and give what is to be sent at once: the host is role A
    /// and speaks first, the joiner is role B and waits.
    pub fn start(role: Role, code: &str) -> (r: (Handshake, Option<Vec<u8>>))
        ensures
            r.0@ is AwaitMessage,
            ({
                let p = r.0@->AwaitMessage_0;
                &&& p.role == role
                &&& p.code == encode_utf8(code@)
                &&& p.id_a == encode_utf8("frostwall/A"@)
                &&& p.id_b == encode_utf8("frostwall/B"@)
                &&& p.well_formed()
                &&& opt_bytes(r.1) == opening(p)
            }),
    {
        let (pairing, msg) = Pairing::start(role, code);
        let first = match role {
            Role::A => {
                let mut first: Vec<u8> = Vec::new();
                first.extend_from_slice(msg.as_slice());
                assert(first@ =~= msg@);
                Some(first)
            },
            Role::B => None,
        };
        (
            Handshake {
                role,
                stage: Stage::AwaitMessage(pairing, msg),
                secret: Ghost(Seq::empty()),
            },
            first,
        )
    }

    /// Take the peer's next frame: give what is to be sent, and then what
    /// follows. The joiner's token is given out only once the host's has passed.
    /// The first message of a peer in the other role always leads to a secret;
    /// with the same code it is one that the peer reaches too.
    pub fn receive(self, frame: &[u8]) -> (r: (Option<Vec<u8>>, Turn))
        ensures
            opt_bytes(r.0) == reply(self@, frame@),
            match (r.1, turn_after(self@, frame@)) {
                (Turn::Wait(h), TurnView::Wait(stage)) => h@ == stage,
                (Turn::Established(keys), TurnView::Established(secret)) => keys.derived_from(
                    secret,
                ),
                (Turn::Failed(e), TurnView::Failed(want)) => e == want,
                _ => false,
            },
            self@ matches StageView::AwaitMessage(p) ==> forall|peer: pairing::Party|
                p.faces(peer) && frame@ == #[trigger] peer.message() ==> p.outcome(frame@) is Ok,
            self@ matches StageView::AwaitMessage(p) ==> forall|peer: pairing::Party|
                p.matches(peer) && frame@ == #[trigger] peer.message() ==> p.outcome(frame@) is Ok
                    && peer.outcome(p.message()) == p.outcome(frame@),
    {
        proof {
            use_type_invariant(&self);
        }
        let role = self.role;
        let ghost known = self.secret@;
        match self.stage {
            Stage::AwaitMessage(pairing, msg) => match pairing.finish(frame) {
                Ok(secret) => {
                    let keys = SessionKeys::derive(secret.as_slice());
                    proof {
                        pairing::lemma_token_of_secret(keys, secret@, Role::A);
                    }
                    let answer = match role {
                        Role::A => token_bytes(&keys, Role::A),
                        Role::B => msg,
                    };
                    let next = Handshake {
                        role,
                        stage: Stage::AwaitToken(keys),
                        secret: Ghost(secret@),
                    };
                    (Some(answer), Turn::Wait(next))
                },
                Err(e) => {
                    let answer = match role {
                        Role::A => None,
                        Role::B => Some(msg),
                    };
                    (answer, Turn::Failed(HandshakeError::Pairing(e)))
                },
            },
            Stage::AwaitToken(keys) => {
                proof {
                    pairing::lemma_token_of_secret(keys, known, Role::A);
                    pairing::lemma_token_of_secret(keys, known, Role::B);
                }
                if pairing::verify_confirmation(&keys, other_role(role), frame) {
                    let answer = match role {
                        Role::A => None,
                        Role::B => Some(token_bytes(&keys, Role::B)),
                    };
                    (answer, Turn::Established(keys))
                } else {
                    (None, Turn::Failed(HandshakeError::ConfirmationFailed))
                }
            },
        }
    }
}

fn token_bytes(keys: &SessionKeys, role: Role) -> (bytes: Vec<u8>)
    ensures
        bytes@ == pairing::token_of(*keys, role),
{
    let token = pairing::confirmation_token(keys, role);
    let mut bytes: Vec<u8> = Vec::new();
    bytes.extend_from_slice(token.as_slice());
    assert(bytes@ =~= token@);
    bytes
}

/// The joiner proves nothing to a host that has not proved itself: its first
/// frame is its own message, and its token goes out exactly when the host's token
/// has passed. Where that fails nothing more is sent.
pub proof fn law_joiner_proves_itself_last(stage: StageView, frame: Seq<u8>)
    ensures
        stage matches StageView::AwaitMessage(p) ==> p.role == Role::B ==> reply(stage, frame)
            == Some(p.message()) && !(turn_after(stage, frame) is Established),
        stage matches StageView::AwaitToken(Role::B, secret) ==> if frame == pairing::token_under(
            secret,
            Role::A,
        ) {
            reply(stage, frame) == Some(pairing::token_under(secret, Role::B)) && turn_after(
                stage,
                frame,
            ) == TurnView::Established(secret)
        } else {
            reply(stage, frame) is None && turn_after(stage, frame) == TurnView::Failed(
                HandshakeError::ConfirmationFailed,
            )
        },
{
}

/// A whole handshake: where each side reaches the same secret from the other's
/// first message, the host and the joiner send the four frames in turn and both
/// establish a session of that secret.
pub proof fn law_same_secret_completes(
    host: pairing::Party,
    joiner: pairing::Party,
    secret: Seq<u8>,
)
    requires
        host.role == Role::A,
        joiner.role == Role::B,
        host.outcome(joiner.message()) == Ok::<Seq<u8>, PairingError>(secret),
        joiner.outcome(host.message()) == Ok::<Seq<u8>, PairingError>(secret),
    ensures
        ({
            let a1 = StageView::AwaitMessage(host);
            let b1 = StageView::AwaitMessage(joiner);
            let a2 = StageView::AwaitToken(Role::A, secret);
            let b2 = StageView::AwaitToken(Role::B, secret);
            let host_token = pairing::token_under(secret, Role::A);
            let joiner_token = pairing::token_under(secret, Role::B);
            &&& opening(host) == Some(host.message())
            &&& opening(joiner) is None
            &&& reply(b1, host.message()) == Some(joiner.message())
            &&& turn_after(b1, host.message()) == TurnView::Wait(b2)
            &&& reply(a1, joiner.message()) == Some(host_token)
            &&& turn_after(a1, joiner.message()) == TurnView::Wait(a2)
            &&& reply(b2, host_token) == Some(joiner_token)
            &&& turn_after(b2, host_token) == TurnView::Established(secret)
            &&& reply(a2, joiner_token) is None
            &&& turn_after(a2, joiner_token) == TurnView::Established(secret)
        }),
{
}

/// A handshake whose sides reached secrets with other tokens fails on both ends,
/// and the joiner sends no token.
pub proof fn law_other_secret_fails(ours: Seq<u8>, theirs: Seq<u8>)
    requires
        pairing::token_under(ours, Role::A) != pairing::token_under(theirs, Role::A),
        pairing::token_under(ours, Role::B) != pairing::token_under(theirs, Role::B),
    ensures
        ({
            let host = StageView::AwaitToken(Role::A, ours);
            let joiner = StageView::AwaitToken(Role::B, theirs);
            let host_token = pairing::token_under(ours, Role::A);
            let joiner_token = pairing::token_under(theirs, Role::B);
            let failed = TurnView::Failed(HandshakeError::ConfirmationFailed);
            &&& reply(joiner, host_token) is None
            &&& turn_after(joiner, host_token) == failed
            &&& turn_after(host, joiner_token) == failed
        }),
{
}

/// Two sides that derived their keys from the same secret accept each other's
/// tokens, hold the same keys, and show the same liveness code at any moment.
pub proof fn law_same_secret_pairs(a: SessionKeys, b: SessionKeys, secret: Seq<u8>, now: u64)
    requires
        a.derived_from(secret),
        b.derived_from(secret),
    ensures
        a == b,
        pairing::token_of(a, Role::A) == pairing::token_of(b, other(Role::B)),
        pairing::token_of(b, Role::B) == pairing::token_of(a, other(Role::A)),
        liveness::code_at(a.liveness_key@, now) == liveness::code_at(b.liveness_key@, now),
{
    crypto::law_derive_is_deterministic(a, b, secret);
}

/// Whether a handshake failed only because the peer stalled.
pub open spec fn is_stall(e: HandshakeError) -> bool {
    match e {
        HandshakeError::TimedOut => true,
        HandshakeError::Transport(t) => text::has_part(t@, "timed out"@) || text::has_part(
            t@,
            "peer stalled"@,
        ),
        _ => false,
    }
}

/// How many handshakes a pairing code may still fail.
pub struct PairingBudget {
    failures: u32,
}

impl PairingBudget {
    /// How many handshakes have failed.
    pub closed spec fn failures(&self) -> nat {
        self.failures as nat
    }

    /// A fresh budget.
    pub fn new() -> (b: PairingBudget)
        ensures
            b.failures() == 0,
    {
        PairingBudget { failures: 0 }
    }

    /// Count a failed handshake and tell whether the host goes on accepting.
    /// Stalls do not count, so that they cannot exhaust the budget.
    pub fn on_failure(&mut self, e: &HandshakeError) -> (go_on: bool)
        requires
            old(self).failures() < MAX_PAIRING_ATTEMPTS,
        ensures
            final(self).failures() == if is_stall(*e) {
                old(self).failures()
            } else {
                old(self).failures() + 1
            },
            go_on == (final(self).failures() < MAX_PAIRING_ATTEMPTS),
    {
        let stall = match e {
            HandshakeError::TimedOut => true,
            HandshakeError::Transport(t) => {
                let late = text::contains(t.as_str(), "timed out");
                late || text::contains(t.as_str(), "peer stalled")
            },
            _ => false,
        };
        if !stall {
            self.failures = self.failures + 1;
        }
        self.failures < MAX_PAIRING_ATTEMPTS
    }
}

/// A handshake counts as stalled exactly where time ran out, or the connection
/// says so. A wrong code and an unusable message always count.
pub proof fn law_stalls(e: HandshakeError)
    ensures
        is_stall(e) <==> e is TimedOut || (e matches HandshakeError::Transport(t) && (
        text::has_part(t@, "timed out"@) || text::has_part(t@, "peer stalled"@))),
        e is ConfirmationFailed || e is Pairing ==> !is_stall(e),
{
}

/// The host speaks first; each side's turn is as the wire sequence says, and a
/// side is done with the first frame that it cannot use.
pub proof fn law_turns(stage: StageView, frame: Seq<u8>, p: pairing::Party)
    ensures
        p.role == Role::A ==> opening(p) == Some(p.message()),
        p.role == Role::B ==> opening(p) is None,
        stage matches StageView::AwaitMessage(q) ==> (match q.outcome(frame) {
            Ok(secret) => turn_after(stage, frame) == TurnView::Wait(
                StageView::AwaitToken(q.role, secret),
            ) && (q.role == Role::A ==> reply(stage, frame) == Some(
                pairing::token_under(secret, Role::A),
            )),
            Err(e) => turn_after(stage, frame) == TurnView::Failed(HandshakeError::Pairing(e)) && (
            q.role == Role::A ==> reply(stage, frame) is None),
        }),
        stage matches StageView::AwaitToken(Role::A, secret) ==> reply(stage, frame) is None && (
        turn_after(stage, frame) == TurnView::Established(secret) <==> frame
            == pairing::token_under(secret, Role::B)),
        stage matches StageView::AwaitToken(Role::B, secret) ==> (turn_after(stage, frame)
            == TurnView::Established(secret) <==> frame == pairing::token_under(secret, Role::A)),
        stage is AwaitToken && !(turn_after(stage, frame) is Established) ==> turn_after(
            stage,
            frame,
        ) == TurnView::Failed(HandshakeError::ConfirmationFailed),
{
}

/// Every six digits are the pairing code of one number below a million, and of no
/// other.
pub proof fn law_pairing_codes(m: nat, n: nat, digits: Seq<char>)
    requires
        m < 1_000_000,
        n < 1_000_000,
        digits.len() == 6,
        forall|i: int| 0 <= i < 6 ==> '0' <= #[trigger] digits[i] <= '9',
    ensures
        m != n ==> text::padded(m, 6) != text::padded(n, 6),
        text::padded(text::number(digits), 6) == digits,
        text::number(digits) < 1_000_000,
{
    reveal_with_fuel(text::tens, 7);
    text::law_padded_stands_for_its_number(m, 6);
    text::law_padded_stands_for_its_number(n, 6);
    text::law_digits_are_a_padded_number(digits);
}

/// A peer has ten seconds for each message, and a code five attempts.
pub proof fn law_patience()
    ensures
        HANDSHAKE_TIMEOUT_SECS == 10,
        MAX_PAIRING_ATTEMPTS == 5,
{
}

} // verus!
