//! Pairing: SPAKE2 password-authenticated key agreement, augmented with a
//! per-session ephemeral X25519 exchange for forward secrecy, plus a
//! key-confirmation MAC step so each side proves it derived the same session
//! key.
//!
//! A handshake message is `<spake2 message || 32-byte ephemeral X25519 public
//! key>`:
//!
//! ```text
//!   A = start(A, code) -> (PairingA, msgA)
//!   B = start(B, code) -> (PairingB, msgB)
//!   combinedA = A.finish(msgB)               combinedB = B.finish(msgA)
//!   keys      = SessionKeys::derive(combined)
//!   A sends confirmation_token(keys, A) to B; B verifies
//!   B sends confirmation_token(keys, B) to A; A verifies
//! ```
//!
//! A relay that terminates both halves gives the two victims different session
//! keys, so the rotating liveness codes that the two humans compare differ.
use crate::crypto;
use crate::crypto::{SessionKeys, MAC_LEN};
use rand::rngs::OsRng;
use spake2::{Ed25519Group, Identity, Password, Spake2};
use vstd::prelude::*;
use vstd::utf8::*;
use x25519_dalek::{EphemeralSecret, PublicKey, SharedSecret};

verus! {

/// Length of the ephemeral X25519 public key at the end of a message.
pub const EPH_PUB_LEN: usize = 32;

/// A one-use X25519 secret.
#[verifier::external_type_specification]
#[verifier::external_body]
pub struct ExEphemeralSecret(EphemeralSecret);

/// What an X25519 exchange gives.
#[verifier::external_type_specification]
#[verifier::external_body]
pub struct ExSharedSecret(SharedSecret);

/// Why SPAKE2 refuses a peer's message.
#[verifier::external_type_specification]
#[verifier::external_body]
pub struct ExSpakeError(spake2::Error);

/// One side of a SPAKE2 exchange over the Ed25519 group, between its two
/// messages.
#[verifier::external_body]
pub struct SpakeState {
    inner: Spake2<Ed25519Group>,
}

/// What a SPAKE2 side was started with: whether it is side A, its password, and
/// the identities of side A and side B.
pub uninterp spec fn spake_setup(state: SpakeState) -> (bool, Seq<u8>, Seq<u8>, Seq<u8>);

/// The private scalar that a SPAKE2 side holds.
pub uninterp spec fn spake_scalar(state: SpakeState) -> Seq<u8>;

/// The message that a SPAKE2 side sends.
pub uninterp spec fn spake_message(is_a: bool, password: Seq<u8>, scalar: Seq<u8>) -> Seq<u8>;

/// The key that a SPAKE2 side derives from its peer's message, where the
/// message is one of the other side's.
pub uninterp spec fn spake_key(
    is_a: bool,
    password: Seq<u8>,
    id_a: Seq<u8>,
    id_b: Seq<u8>,
    scalar: Seq<u8>,
    peer: Seq<u8>,
) -> Option<Seq<u8>>;

/// The private scalar that an ephemeral secret holds.
pub uninterp spec fn ephemeral_scalar(secret: EphemeralSecret) -> Seq<u8>;

/// The bytes that a shared secret holds.
pub uninterp spec fn shared_content(shared: SharedSecret) -> Seq<u8>;

/// The X25519 public key of a private scalar.
pub uninterp spec fn x25519_public(scalar: Seq<u8>) -> Seq<u8>;

/// The X25519 shared secret of a private scalar and a public key.
pub uninterp spec fn x25519_shared(scalar: Seq<u8>, public: Seq<u8>) -> Seq<u8>;

/// Whether every byte is zero.
pub open spec fn all_zero(s: Seq<u8>) -> bool {
    forall|i: int| 0 <= i < s.len() ==> #[trigger] s[i] == 0
}

/// Whether `shared` is what the holder of `theirs` gets from the public key of
/// `ours`, and is not zero.
pub open spec fn exchanged(theirs: Seq<u8>, ours: Seq<u8>, shared: Seq<u8>) -> bool {
    shared == x25519_shared(theirs, x25519_public(ours)) && !all_zero(shared)
}

/// `Spake2::start_a` over the Ed25519 group, with a scalar from the operating
/// system: the state holds what it was started with, and the message is a
/// function of the password and the scalar, in 33 bytes that begin with `A`.
#[verifier::external_body]
fn spake_start_a(password: &[u8], id_a: &[u8], id_b: &[u8]) -> (r: (SpakeState, Vec<u8>))
    ensures
        spake_setup(r.0) == (true, password@, id_a@, id_b@),
        spake_scalar(r.0).len() == 32,
        r.1@ == spake_message(true, password@, spake_scalar(r.0)),
        r.1@.len() == 33 && r.1@[0] == 0x41,
{
    let (inner, msg) = Spake2::<Ed25519Group>::start_a(
        &Password::new(password),
        &Identity::new(id_a),
        &Identity::new(id_b),
    );
    (SpakeState { inner }, msg)
}

/// `Spake2::start_b` over the Ed25519 group, with a scalar from the operating
/// system: the state holds what it was started with, and the message is a
/// function of the password and the scalar, in 33 bytes that begin with `B`.
#[verifier::external_body]
fn spake_start_b(password: &[u8], id_a: &[u8], id_b: &[u8]) -> (r: (SpakeState, Vec<u8>))
    ensures
        spake_setup(r.0) == (false, password@, id_a@, id_b@),
        spake_scalar(r.0).len() == 32,
        r.1@ == spake_message(false, password@, spake_scalar(r.0)),
        r.1@.len() == 33 && r.1@[0] == 0x42,
{
    let (inner, msg) = Spake2::<Ed25519Group>::start_b(
        &Password::new(password),
        &Identity::new(id_a),
        &Identity::new(id_b),
    );
    (SpakeState { inner }, msg)
}

/// `Spake2::finish`: the key is a function of what the side holds and the
/// peer's message, and has 32 bytes. A message of another length or of the same
/// side is refused. A message that the other side sent is accepted whatever its
/// password was: it is the encoding of a point, which decodes. With the same
/// password and identities it gives the key that the other side derives from this
/// side's message.
#[verifier::external_body]
fn spake_finish(state: SpakeState, peer: &[u8]) -> (r: Result<Vec<u8>, spake2::Error>)
    ensures
        ({
            let (is_a, password, id_a, id_b) = spake_setup(state);
            let scalar = spake_scalar(state);
            match r {
                Ok(key) => spake_key(is_a, password, id_a, id_b, scalar, peer@) == Some(key@)
                    && key@.len() == 32 && peer@.len() == 33 && peer@[0] == (if is_a {
                    0x42u8
                } else {
                    0x41u8
                }),
                Err(_) => spake_key(is_a, password, id_a, id_b, scalar, peer@) is None,
            }
        }),
        ({
            let (is_a, password, id_a, id_b) = spake_setup(state);
            let ours = spake_message(is_a, password, spake_scalar(state));
            forall|other: bool, theirs: Seq<u8>|
                other == !is_a && theirs.len() == 32 && peer@ == #[trigger] spake_message(
                    other,
                    password,
                    theirs,
                ) ==> r is Ok && spake_key(other, password, id_a, id_b, theirs, ours) == Some(
                    r->Ok_0@,
                )
        }),
        forall|other: bool, password: Seq<u8>, theirs: Seq<u8>|
            other == !spake_setup(state).0 && theirs.len() == 32
                && peer@ == #[trigger] spake_message(other, password, theirs) ==> r is Ok,
{
    state.inner.finish(peer)
}

/// `EphemeralSecret::random_from_rng` with the operating system's randomness: a
/// secret of 32 bytes.
#[verifier::external_body]
fn ephemeral_random() -> (secret: EphemeralSecret)
    ensures
        ephemeral_scalar(secret).len() == 32,
{
    EphemeralSecret::random_from_rng(&mut OsRng)
}

/// `PublicKey::from` an ephemeral secret and `PublicKey::to_bytes`: a function
/// of the secret. The secret is clamped to a number that the order of the base
/// point does not divide, so the key is never zero.
#[verifier::external_body]
fn ephemeral_public(secret: &EphemeralSecret) -> (public: [u8; 32])
    ensures
        public@ == x25519_public(ephemeral_scalar(*secret)),
        !all_zero(public@),
{
    PublicKey::from(secret).to_bytes()
}

/// `EphemeralSecret::diffie_hellman` with a peer's public key: a function of
/// the secret and the key, in 32 bytes. With the public key of another secret
/// it gives what the other side gets from this side's public key, and that is
/// never zero: both secrets are clamped to numbers that the order of the base
/// point, a prime, does not divide.
#[verifier::external_body]
fn diffie_hellman(secret: EphemeralSecret, peer: &[u8]) -> (shared: SharedSecret)
    requires
        peer@.len() == 32,
    ensures
        shared_content(shared) == x25519_shared(ephemeral_scalar(secret), peer@),
        shared_content(shared).len() == 32,
        forall|theirs: Seq<u8>|
            theirs.len() == 32 && peer@ == #[trigger] x25519_public(theirs) ==> exchanged(
                theirs,
                ephemeral_scalar(secret),
                shared_content(shared),
            ),
{
    let peer: [u8; 32] = peer.try_into().expect("32 bytes");
    secret.diffie_hellman(&PublicKey::from(peer))
}

/// `SharedSecret::to_bytes`: the bytes that the secret holds.
#[verifier::external_body]
fn shared_bytes(shared: &SharedSecret) -> (bytes: [u8; 32])
    ensures
        bytes@ == shared_content(*shared),
{
    shared.to_bytes()
}

/// `SharedSecret::was_contributory`: whether the outcome is anything but the
/// identity, which is all zeros.
#[verifier::external_body]
fn was_contributory(shared: &SharedSecret) -> (good: bool)
    ensures
        good == !all_zero(shared_content(*shared)),
{
    shared.was_contributory()
}

/// The two sides of a pairing. Each role uses its own confirmation key
/// (confirm_a / confirm_b), which prevents reflection attacks.
#[derive(Clone, Copy, PartialEq, Eq, Debug, Structural)]
pub enum Role {
    A,
    B,
}

/// The byte that the messages of a role begin with: its letter.
pub open spec fn letter(role: Role) -> u8 {
    match role {
        Role::A => 0x41,
        Role::B => 0x42,
    }
}

/// Why a pairing could not be finished.
#[derive(Clone, Copy, PartialEq, Eq, Debug, Structural)]
pub enum PairingError {
    /// The peer's message has no room for an ephemeral key.
    TooShort,
    /// SPAKE2 refuses the peer's message.
    Malformed,
    /// The peer's ephemeral key is all zeros.
    InvalidEphemeral,
    /// The ephemeral exchange gave nothing.
    NonContributory,
}

/// What one side of a pairing holds.
pub ghost struct Party {
    pub role: Role,
    /// The pairing code's bytes.
    pub code: Seq<u8>,
    pub id_a: Seq<u8>,
    pub id_b: Seq<u8>,
    /// The private SPAKE2 scalar.
    pub scalar: Seq<u8>,
    /// The private X25519 scalar.
    pub ephemeral: Seq<u8>,
}

impl Party {
    /// The message that this side sends.
    pub open spec fn message(self) -> Seq<u8> {
        spake_message(self.role == Role::A, self.code, self.scalar) + x25519_public(self.ephemeral)
    }

    /// The key that SPAKE2 gives this side.
    pub open spec fn spake_key(self, peer: Seq<u8>) -> Option<Seq<u8>> {
        spake_key(self.role == Role::A, self.code, self.id_a, self.id_b, self.scalar, peer)
    }

    /// What this side makes of its peer's message.
    pub open spec fn outcome(self, peer_msg: Seq<u8>) -> Result<Seq<u8>, PairingError> {
        if peer_msg.len() < EPH_PUB_LEN {
            Err(PairingError::TooShort)
        } else {
            let split = peer_msg.len() - EPH_PUB_LEN;
            combined(
                self.spake_key(peer_msg.take(split)),
                peer_msg.skip(split),
                x25519_shared(self.ephemeral, peer_msg.skip(split)),
                !all_zero(x25519_shared(self.ephemeral, peer_msg.skip(split))),
            )
        }
    }

    /// Whether the two sides can talk to each other: opposite roles, whatever
    /// their codes are.
    pub open spec fn faces(self, other: Party) -> bool {
        &&& self.role != other.role
        &&& self.well_formed()
        &&& other.well_formed()
    }

    /// Whether the two sides run the same pairing: opposite roles, the same
    /// code and the same identities.
    pub open spec fn matches(self, other: Party) -> bool {
        &&& self.faces(other)
        &&& self.code == other.code
        &&& self.id_a == other.id_a
        &&& self.id_b == other.id_b
    }

    /// Private scalars have 32 bytes, and so has the SPAKE2 part of the message
    /// after its first byte; the ephemeral public key is not zero.
    pub open spec fn well_formed(self) -> bool {
        &&& self.scalar.len() == 32
        &&& self.ephemeral.len() == 32
        &&& spake_message(self.role == Role::A, self.code, self.scalar).len() == 33
        &&& x25519_public(self.ephemeral).len() == EPH_PUB_LEN
        &&& !all_zero(x25519_public(self.ephemeral))
    }
}

/// The session secret from the SPAKE2 key, the peer's ephemeral key and what
/// the ephemeral exchange gave: the two secrets one after the other.
pub open spec fn combined(
    spake_secret: Option<Seq<u8>>,
    peer_ephemeral: Seq<u8>,
    shared: Seq<u8>,
    contributory: bool,
) -> Result<Seq<u8>, PairingError> {
    match spake_secret {
        None => Err(PairingError::Malformed),
        Some(secret) => if all_zero(peer_ephemeral) {
            Err(PairingError::InvalidEphemeral)
        } else if !contributory {
            Err(PairingError::NonContributory)
        } else {
            Ok(secret + shared)
        },
    }
}

/// The session secret from what SPAKE2 and the ephemeral exchange gave. Rejects
/// an all-zero ephemeral key, whose exchange offers no forward secrecy.
pub fn combine(
    spake_secret: Option<Vec<u8>>,
    peer_ephemeral: &[u8],
    shared: &[u8],
    contributory: bool,
) -> (r: Result<Vec<u8>, PairingError>)
    ensures
        ({
            let key = match spake_secret {
                Some(secret) => Some(secret@),
                None => None,
            };
            match r {
                Ok(secret) => combined(key, peer_ephemeral@, shared@, contributory) == Ok::<
                    Seq<u8>,
                    PairingError,
                >(secret@),
                Err(e) => combined(key, peer_ephemeral@, shared@, contributory) == Err::<
                    Seq<u8>,
                    PairingError,
                >(e),
            }
        }),
{
    let mut secret = match spake_secret {
        Some(secret) => secret,
        None => return Err(PairingError::Malformed),
    };
    let ghost key = secret@;
    let peer_is_zero = is_all_zero(peer_ephemeral);
    if peer_is_zero {
        return Err(PairingError::InvalidEphemeral);
    }
    if !contributory {
        return Err(PairingError::NonContributory);
    }
    secret.extend_from_slice(shared);
    assert(secret@ =~= key + shared@);
    Ok(secret)
}

proof fn lemma_message_parts(p: Party)
    requires
        p.well_formed(),
    ensures
        p.message().len() == 33 + EPH_PUB_LEN,
        p.message().take(33) == spake_message(p.role == Role::A, p.code, p.scalar),
        p.message().skip(33) == x25519_public(p.ephemeral),
{
    assert(p.message().take(33) =~= spake_message(p.role == Role::A, p.code, p.scalar));
    assert(p.message().skip(33) =~= x25519_public(p.ephemeral));
}

/// In-progress SPAKE2 + ephemeral-X25519 handshake for one side.
pub struct Pairing {
    state: SpakeState,
    eph: EphemeralSecret,
}

impl View for Pairing {
    type V = Party;

    closed spec fn view(&self) -> Party {
        let (is_a, code, id_a, id_b) = spake_setup(self.state);
        Party {
            role: if is_a {
                Role::A
            } else {
                Role::B
            },
            code,
            id_a,
            id_b,
            scalar: spake_scalar(self.state),
            ephemeral: ephemeral_scalar(self.eph),
        }
    }
}

fn is_all_zero(s: &[u8]) -> (zero: bool)
    ensures
        zero == all_zero(s@),
{
    for i in 0..s.len()
        invariant
            forall|k: int| 0 <= k < i ==> #[trigger] s@[k] == 0,
    {
        if s[i] != 0 {
            return false;
        }
    }
    true
}

impl Pairing {
    /// Begin a handshake as `role` using the human-typed pairing code.
    /// Returns the handshake state plus the message to send to the peer.
    pub fn start(role: Role, code: &str) -> (r: (Pairing, Vec<u8>))
        ensures
            r.0@.role == role,
            r.0@.code == encode_utf8(code@),
            r.0@.id_a == encode_utf8("frostwall/A"@),
            r.0@.id_b == encode_utf8("frostwall/B"@),
            r.0@.well_formed(),
            r.1@ == r.0@.message(),
            r.1@.len() == 33 + EPH_PUB_LEN,
            r.1@[0] == letter(role),
    {
        let id_a = "frostwall/A".as_bytes();
        let id_b = "frostwall/B".as_bytes();
        let (state, msg) = match role {
            Role::A => spake_start_a(code.as_bytes(), id_a, id_b),
            Role::B => spake_start_b(code.as_bytes(), id_a, id_b),
        };
        let eph = ephemeral_random();
        let eph_pub = ephemeral_public(&eph);
        let mut wire = msg;
        wire.extend_from_slice(eph_pub.as_slice());
        (Pairing { state, eph }, wire)
    }

    /// Consume the peer's message and produce the combined shared secret, the
    /// SPAKE2 key followed by the X25519 one. Errors if the message is
    /// malformed or its ephemeral key offers no secret; a message of this side's
    /// own role, such as a reflected one, is malformed. The message of a peer in
    /// the other role is always good for a secret, whatever its code was; two
    /// sides that use the same code always reach the same secret.
    pub fn finish(self, peer_msg: &[u8]) -> (r: Result<Vec<u8>, PairingError>)
        ensures
            match r {
                Ok(secret) => self@.outcome(peer_msg@) == Ok::<Seq<u8>, PairingError>(secret@)
                    && secret@.len() == 64 && peer_msg@.len() == 33 + EPH_PUB_LEN && peer_msg@[0]
                    != letter(self@.role),
                Err(e) => self@.outcome(peer_msg@) == Err::<Seq<u8>, PairingError>(e),
            },
            forall|peer: Party|
                self@.faces(peer) && peer_msg@ == #[trigger] peer.message() ==> r is Ok,
            forall|peer: Party|
                self@.matches(peer) && peer_msg@ == #[trigger] peer.message() ==> r is Ok
                    && peer.outcome(self@.message()) == Ok::<Seq<u8>, PairingError>(r->Ok_0@),
    {
        if peer_msg.len() < EPH_PUB_LEN {
            return Err(PairingError::TooShort);
        }
        let split: usize = peer_msg.len() - EPH_PUB_LEN;
        let spake_msg = vstd::slice::slice_subrange(peer_msg, 0, split);
        let eph_pub = vstd::slice::slice_subrange(peer_msg, split, peer_msg.len());
        let ghost us = self@;
        proof {
            assert(spake_msg@ =~= peer_msg@.take(split as int));
            assert(eph_pub@ =~= peer_msg@.skip(split as int));
            assert forall|peer: Party|
                us.faces(peer) && peer_msg@ == #[trigger] peer.message() implies spake_msg@
                == spake_message(peer.role == Role::A, peer.code, peer.scalar) && eph_pub@
                == x25519_public(peer.ephemeral) by {
                lemma_message_parts(peer);
            }
        }
        let spake_secret = match spake_finish(self.state, spake_msg) {
            Ok(key) => Some(key),
            Err(_) => None,
        };
        let shared = diffie_hellman(self.eph, eph_pub);
        let r = combine(
            spake_secret,
            eph_pub,
            shared_bytes(&shared).as_slice(),
            was_contributory(&shared),
        );
        proof {
            assert forall|peer: Party|
                us.faces(peer) && peer_msg@ == #[trigger] peer.message() implies r is Ok by {
                assert(exchanged(peer.ephemeral, us.ephemeral, shared_content(shared)));
            }
            assert forall|peer: Party|
                us.matches(peer) && peer_msg@ == #[trigger] peer.message() implies r is Ok
                && peer.outcome(us.message()) == Ok::<Seq<u8>, PairingError>(r->Ok_0@) by {
                lemma_message_parts(us);
                assert(exchanged(peer.ephemeral, us.ephemeral, shared_content(shared)));
            }
        }
        r
    }
}

/// The token that proves possession of the session key in `role`.
pub open spec fn token_of(keys: SessionKeys, role: Role) -> Seq<u8> {
    crypto::hmac_sha256(
        match role {
            Role::A => keys.confirm_a@,
            Role::B => keys.confirm_b@,
        },
        encode_utf8("frostwall/v1/confirm"@),
    )
}

/// The token that proves possession of a session secret in `role`.
pub open spec fn token_under(secret: Seq<u8>, role: Role) -> Seq<u8> {
    crypto::hmac_sha256(
        crypto::subkey(
            secret,
            match role {
                Role::A => "frostwall/v1/confirm-a"@,
                Role::B => "frostwall/v1/confirm-b"@,
            },
        ),
        encode_utf8("frostwall/v1/confirm"@),
    )
}

/// The token of a role is the one that its secret gives.
pub proof fn lemma_token_of_secret(keys: SessionKeys, secret: Seq<u8>, role: Role)
    requires
        keys.derived_from(secret),
    ensures
        token_of(keys, role) == token_under(secret, role),
{
}

/// Each role's token depends on its own confirmation key alone.
pub proof fn law_token_uses_its_own_key(a: SessionKeys, b: SessionKeys)
    ensures
        a.confirm_a == b.confirm_a ==> token_of(a, Role::A) == token_of(b, Role::A),
        a.confirm_b == b.confirm_b ==> token_of(a, Role::B) == token_of(b, Role::B),
{
}

/// Token `role` sends to prove it derived the session key.
pub fn confirmation_token(keys: &SessionKeys, role: Role) -> (token: [u8; MAC_LEN])
    ensures
        token@ == token_of(*keys, role),
{
    let mac_key = match role {
        Role::A => &keys.confirm_a,
        Role::B => &keys.confirm_b,
    };
    crypto::confirmation_mac(mac_key, "frostwall/v1/confirm".as_bytes())
}

/// Verify a peer's confirmation token in constant time.
pub fn verify_confirmation(keys: &SessionKeys, role: Role, token: &[u8]) -> (good: bool)
    ensures
        good == (token@ == token_of(*keys, role)),
{
    let expected = confirmation_token(keys, role);
    crypto::macs_equal(expected.as_slice(), token)
}

/// The token that one side makes is the one that the other side expects,
/// where both derived their keys from the same secret.
pub proof fn law_tokens_agree(a: SessionKeys, b: SessionKeys, secret: Seq<u8>, role: Role)
    requires
        a.derived_from(secret),
        b.derived_from(secret),
    ensures
        token_of(a, role) == token_of(b, role),
{
    crypto::law_derive_is_deterministic(a, b, secret);
}

/// The token of a role is the MAC of one fixed label under the confirmation key of
/// that role: the host's under `confirm_a`, the joiner's under `confirm_b`.
pub proof fn law_tokens(keys: SessionKeys, secret: Seq<u8>)
    ensures
        token_of(keys, Role::A) == crypto::hmac_sha256(
            keys.confirm_a@,
            encode_utf8("frostwall/v1/confirm"@),
        ),
        token_of(keys, Role::B) == crypto::hmac_sha256(
            keys.confirm_b@,
            encode_utf8("frostwall/v1/confirm"@),
        ),
        keys.derived_from(secret) ==> token_of(keys, Role::A) == token_under(secret, Role::A)
            && token_of(keys, Role::B) == token_under(secret, Role::B),
{
}

/// A party's message is what SPAKE2 sends, then its public key of 32 bytes; what
/// it makes of its peer's is the SPAKE2 key, then the exchanged secret. It is
/// refused exactly where it is too short, SPAKE2 refuses it, the public key is
/// zero or the exchange gave nothing.
pub proof fn law_messages_and_secrets(p: Party, msg: Seq<u8>)
    ensures
        p.message() == spake_message(p.role == Role::A, p.code, p.scalar) + x25519_public(
            p.ephemeral,
        ),
        msg.len() < 32 ==> p.outcome(msg) == Err::<Seq<u8>, PairingError>(PairingError::TooShort),
        msg.len() >= 32 ==> ({
            let theirs = msg.skip(msg.len() - 32);
            let key = spake_key(
                p.role == Role::A,
                p.code,
                p.id_a,
                p.id_b,
                p.scalar,
                msg.take(msg.len() - 32),
            );
            let shared = x25519_shared(p.ephemeral, theirs);
            let zero = forall|i: int| 0 <= i < theirs.len() ==> #[trigger] theirs[i] == 0;
            let nothing = forall|i: int| 0 <= i < shared.len() ==> #[trigger] shared[i] == 0;
            p.outcome(msg) == (if key is None {
                Err::<Seq<u8>, PairingError>(PairingError::Malformed)
            } else if zero {
                Err(PairingError::InvalidEphemeral)
            } else if nothing {
                Err(PairingError::NonContributory)
            } else {
                Ok(key->0 + shared)
            })
        }),
{
}

} // verus!
