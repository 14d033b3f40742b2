//! Crypto primitives: HKDF-SHA256 key schedule, XChaCha20-Poly1305 sealing and
//! HMAC-SHA256 key-confirmation MACs.
use chacha20poly1305::aead::{Aead, AeadCore, KeyInit, OsRng};
use chacha20poly1305::{XChaCha20Poly1305, XNonce};
use hkdf::Hkdf;
use hmac::{Hmac, Mac};
use sha2::Sha256;
use subtle::ConstantTimeEq;
use vstd::prelude::*;
use vstd::utf8::*;

verus! {

/// Length of the SPAKE2 session secret everything is derived from.
pub const SESSION_KEY_LEN: usize = 32;

/// XChaCha20-Poly1305 key length.
pub const AEAD_KEY_LEN: usize = 32;

/// XChaCha20 nonce length.
pub const NONCE_LEN: usize = 24;

/// HMAC-SHA256 output length.
pub const MAC_LEN: usize = 32;

/// Length of the tag that sealing adds.
pub const TAG_LEN: usize = 16;

/// Most bytes that one sealing can cover: the blocks of one key stream.
pub const MAX_PLAINTEXT: u64 = 274_877_906_816;

/// What the cipher reports when it refuses a message.
#[verifier::external_type_specification]
#[verifier::external_body]
pub struct ExAeadError(chacha20poly1305::Error);

/// The 32 bytes that HKDF-SHA256 without salt expands from a secret under an
/// info string.
pub uninterp spec fn hkdf_sha256(secret: Seq<u8>, info: Seq<u8>) -> Seq<u8>;

/// The HMAC-SHA256 of a message under a key.
pub uninterp spec fn hmac_sha256(key: Seq<u8>, message: Seq<u8>) -> Seq<u8>;

/// The XChaCha20-Poly1305 ciphertext and tag of a plaintext.
pub uninterp spec fn xchacha_seal(key: Seq<u8>, nonce: Seq<u8>, plaintext: Seq<u8>) -> Seq<u8>;

/// The plaintext of an XChaCha20-Poly1305 ciphertext and tag, where the tag
/// holds.
pub uninterp spec fn xchacha_open(key: Seq<u8>, nonce: Seq<u8>, sealed: Seq<u8>) -> Option<
    Seq<u8>,
>;

/// `hkdf::Hkdf::new` without salt and `Hkdf::expand` to 32 bytes: the bytes are
/// a function of the secret and the info string. Expanding to 32 bytes never
/// fails.
#[verifier::external_body]
fn hkdf_expand(secret: &[u8], info: &[u8]) -> (okm: [u8; 32])
    ensures
        okm@ == hkdf_sha256(secret@, info@),
{
    let mut okm = [0u8; 32];
    Hkdf::<Sha256>::new(None, secret).expand(info, &mut okm).expect("32 bytes can be expanded");
    okm
}

/// `hmac::Hmac` over SHA-256, which takes keys of any length: the tag is a
/// function of the key and the message.
#[verifier::external_body]
pub(crate) fn hmac(key: &[u8], message: &[u8]) -> (tag: [u8; 32])
    ensures
        tag@ == hmac_sha256(key@, message@),
{
    let mut mac = <Hmac<Sha256> as Mac>::new_from_slice(key).expect("any key length");
    mac.update(message);
    mac.finalize().into_bytes().into()
}

/// `AeadCore::generate_nonce` with the operating system's randomness. Nothing
/// is known of the bytes.
#[verifier::external_body]
fn random_nonce() -> (nonce: [u8; 24]) {
    XChaCha20Poly1305::generate_nonce(&mut OsRng).into()
}

/// `Aead::encrypt` of XChaCha20-Poly1305 without associated data. On messages
/// of at most `MAX_PLAINTEXT` bytes it succeeds; the result is a function of
/// key, nonce and plaintext, is a tag longer than the plaintext, and opens to
/// the plaintext again.
#[verifier::external_body]
fn aead_encrypt(key: &[u8; 32], nonce: &[u8; 24], plaintext: &[u8]) -> (r: Result<
    Vec<u8>,
    chacha20poly1305::Error,
>)
    requires
        plaintext@.len() <= MAX_PLAINTEXT,
    ensures
        r is Ok,
        r->Ok_0@ == xchacha_seal(key@, nonce@, plaintext@),
        r->Ok_0@.len() == plaintext@.len() + TAG_LEN,
        xchacha_open(key@, nonce@, r->Ok_0@) == Some(plaintext@),
{
    XChaCha20Poly1305::new(key.into()).encrypt(XNonce::from_slice(nonce), plaintext)
}

/// `Aead::decrypt` of XChaCha20-Poly1305 without associated data: a function of
/// key, nonce and ciphertext. A plaintext that comes out is a tag shorter than
/// the ciphertext, and sealing it under the same key and nonce gives the
/// ciphertext again.
#[verifier::external_body]
fn aead_decrypt(key: &[u8; 32], nonce: &[u8], sealed: &[u8]) -> (r: Result<
    Vec<u8>,
    chacha20poly1305::Error,
>)
    requires
        nonce@.len() == NONCE_LEN,
        sealed@.len() <= MAX_PLAINTEXT + TAG_LEN,
    ensures
        match r {
            Ok(plaintext) => xchacha_open(key@, nonce@, sealed@) == Some(plaintext@)
                && sealed@.len() == plaintext@.len() + TAG_LEN && sealed@ == xchacha_seal(
                key@,
                nonce@,
                plaintext@,
            ),
            Err(_) => xchacha_open(key@, nonce@, sealed@) is None,
        },
{
    XChaCha20Poly1305::new(key.into()).decrypt(XNonce::from_slice(nonce), sealed)
}

/// `subtle::ConstantTimeEq::ct_eq` on byte slices: whether they have the same
/// length and the same bytes.
#[verifier::external_body]
fn ct_eq(a: &[u8], b: &[u8]) -> (same: bool)
    ensures
        same == (a@ == b@),
{
    a.ct_eq(b).into()
}

/// Why sealing or opening a chunk failed.
#[derive(Debug, Clone, Copy, PartialEq, Eq, Structural)]
pub enum CryptoError {
    /// The plaintext is longer than one key stream.
    Encrypt,
    /// The packed bytes have no room for a nonce.
    ShorterThanNonce,
    /// The tag does not hold: wrong key or tampered bytes.
    Decrypt,
}

/// Sub-keys derived from the session secret via HKDF-SHA256.
///
/// Each purpose gets its own independent key, so a weakness in one channel
/// (e.g. the liveness code leaking) cannot compromise file encryption.
#[derive(Clone)]
pub struct SessionKeys {
    /// Encrypts/decrypts every transferred file chunk.
    pub file_key: [u8; AEAD_KEY_LEN],
    /// MAC key the initiator (A) uses to prove it derived the session key.
    pub confirm_a: [u8; MAC_LEN],
    /// MAC key the responder (B) uses to prove it derived the session key.
    pub confirm_b: [u8; MAC_LEN],
    /// Encrypts/decrypts control-plane messages (manifest, accept, done, …).
    pub control_key: [u8; AEAD_KEY_LEN],
    /// Seed for the rotating 6-digit liveness code.
    pub liveness_key: [u8; MAC_LEN],
}

/// The sub-key for the purpose that `label` names.
pub open spec fn subkey(secret: Seq<u8>, label: Seq<char>) -> Seq<u8> {
    hkdf_sha256(secret, encode_utf8(label))
}

impl SessionKeys {
    /// Whether these are the sub-keys of `secret`, each under its own label.
    pub open spec fn derived_from(self, secret: Seq<u8>) -> bool {
        &&& self.file_key@ == subkey(secret, "frostwall/v1/file-key"@)
        &&& self.confirm_a@ == subkey(secret, "frostwall/v1/confirm-a"@)
        &&& self.confirm_b@ == subkey(secret, "frostwall/v1/confirm-b"@)
        &&& self.control_key@ == subkey(secret, "frostwall/v1/control-key"@)
        &&& self.liveness_key@ == subkey(secret, "frostwall/v1/liveness"@)
    }

    /// Derive all sub-keys from the shared secret.
    pub fn derive(session_secret: &[u8]) -> (keys: SessionKeys)
        ensures
            keys.derived_from(session_secret@),
    {
        SessionKeys {
            file_key: hkdf_expand(session_secret, "frostwall/v1/file-key".as_bytes()),
            confirm_a: hkdf_expand(session_secret, "frostwall/v1/confirm-a".as_bytes()),
            confirm_b: hkdf_expand(session_secret, "frostwall/v1/confirm-b".as_bytes()),
            control_key: hkdf_expand(session_secret, "frostwall/v1/control-key".as_bytes()),
            liveness_key: hkdf_expand(session_secret, "frostwall/v1/liveness".as_bytes()),
        }
    }
}

/// Two devices that hold the same secret hold the same sub-keys.
pub proof fn law_derive_is_deterministic(a: SessionKeys, b: SessionKeys, secret: Seq<u8>)
    requires
        a.derived_from(secret),
        b.derived_from(secret),
    ensures
        a == b,
{
    assert(a.file_key =~= b.file_key);
    assert(a.confirm_a =~= b.confirm_a);
    assert(a.confirm_b =~= b.confirm_b);
    assert(a.control_key =~= b.control_key);
    assert(a.liveness_key =~= b.liveness_key);
}

/// A nonce in front of what sealing `plaintext` under it gives.
pub open spec fn packed_with(key: Seq<u8>, nonce: Seq<u8>, plaintext: Seq<u8>) -> Seq<u8> {
    nonce + xchacha_seal(key, nonce, plaintext)
}

/// Whether `packed` is `plaintext` sealed under the nonce in front of it.
pub open spec fn seals(key: Seq<u8>, plaintext: Seq<u8>, packed: Seq<u8>) -> bool {
    &&& packed.len() == NONCE_LEN + plaintext.len() + TAG_LEN
    &&& packed == packed_with(key, packed.take(NONCE_LEN as int), plaintext)
}

/// Sealings of the same plaintext under different nonces differ.
pub proof fn law_other_nonce_other_bytes(
    key: Seq<u8>,
    plaintext: Seq<u8>,
    nonce: Seq<u8>,
    other: Seq<u8>,
)
    requires
        nonce.len() == NONCE_LEN,
        other.len() == NONCE_LEN,
        nonce != other,
    ensures
        packed_with(key, nonce, plaintext) != packed_with(key, other, plaintext),
{
    let n = NONCE_LEN as int;
    assert(packed_with(key, nonce, plaintext).take(n) =~= nonce);
    assert(packed_with(key, other, plaintext).take(n) =~= other);
}

/// What opening packed bytes gives.
pub open spec fn unpacked(key: Seq<u8>, packed: Seq<u8>) -> Result<Seq<u8>, CryptoError> {
    if packed.len() < NONCE_LEN {
        Err(CryptoError::ShorterThanNonce)
    } else if packed.len() > NONCE_LEN + MAX_PLAINTEXT + TAG_LEN {
        Err(CryptoError::Decrypt)
    } else {
        match xchacha_open(key, packed.take(NONCE_LEN as int), packed.skip(NONCE_LEN as int)) {
            Some(plaintext) => Ok(plaintext),
            None => Err(CryptoError::Decrypt),
        }
    }
}

/// Seal a plaintext under a given nonce. Returns `nonce || ciphertext+tag`.
pub fn seal_with_nonce(
    key: &[u8; AEAD_KEY_LEN],
    nonce: &[u8; NONCE_LEN],
    plaintext: &[u8],
) -> (r: Result<Vec<u8>, CryptoError>)
    ensures
        match r {
            Ok(out) => plaintext@.len() <= MAX_PLAINTEXT && out@ == packed_with(
                key@,
                nonce@,
                plaintext@,
            ) && seals(key@, plaintext@, out@) && unpacked(key@, out@) == Ok::<
                Seq<u8>,
                CryptoError,
            >(plaintext@),
            Err(e) => plaintext@.len() > MAX_PLAINTEXT && e == CryptoError::Encrypt,
        },
{
    if plaintext.len() as u64 > MAX_PLAINTEXT {
        return Err(CryptoError::Encrypt);
    }
    match aead_encrypt(key, nonce, plaintext) {
        Ok(ct) => {
            let mut out: Vec<u8> = Vec::new();
            out.extend_from_slice(nonce.as_slice());
            out.extend_from_slice(ct.as_slice());
            assert(out@.take(NONCE_LEN as int) =~= nonce@);
            assert(out@.skip(NONCE_LEN as int) =~= ct@);
            Ok(out)
        },
        Err(_) => Err(CryptoError::Encrypt),
    }
}

/// Encrypt a plaintext chunk under a fresh random nonce. Returns
/// `nonce || ciphertext+tag`, which opens to the plaintext again.
pub fn encrypt_chunk(key: &[u8; AEAD_KEY_LEN], plaintext: &[u8]) -> (r: Result<
    Vec<u8>,
    CryptoError,
>)
    ensures
        match r {
            Ok(out) => plaintext@.len() <= MAX_PLAINTEXT && seals(key@, plaintext@, out@)
                && unpacked(key@, out@) == Ok::<Seq<u8>, CryptoError>(plaintext@),
            Err(e) => plaintext@.len() > MAX_PLAINTEXT && e == CryptoError::Encrypt,
        },
{
    seal_with_nonce(key, &random_nonce(), plaintext)
}

/// Decrypt a packed chunk (`nonce || ciphertext+tag`). What opens was sealed
/// under the same key.
pub fn decrypt_chunk(key: &[u8; AEAD_KEY_LEN], packed: &[u8]) -> (r: Result<Vec<u8>, CryptoError>)
    ensures
        match r {
            Ok(plaintext) => unpacked(key@, packed@) == Ok::<Seq<u8>, CryptoError>(plaintext@)
                && seals(key@, plaintext@, packed@),
            Err(e) => unpacked(key@, packed@) == Err::<Seq<u8>, CryptoError>(e),
        },
        packed@.len() < NONCE_LEN + TAG_LEN ==> r is Err,
{
    if packed.len() < NONCE_LEN {
        return Err(CryptoError::ShorterThanNonce);
    }
    let nonce = vstd::slice::slice_subrange(packed, 0, NONCE_LEN);
    let sealed = vstd::slice::slice_subrange(packed, NONCE_LEN, packed.len());
    assert(nonce@ =~= packed@.take(NONCE_LEN as int));
    assert(sealed@ =~= packed@.skip(NONCE_LEN as int));
    if sealed.len() as u64 > MAX_PLAINTEXT + TAG_LEN as u64 {
        return Err(CryptoError::Decrypt);
    }
    match aead_decrypt(key, nonce, sealed) {
        Ok(plaintext) => {
            assert(packed@ =~= packed_with(key@, nonce@, plaintext@));
            Ok(plaintext)
        },
        Err(_) => Err(CryptoError::Decrypt),
    }
}

/// HMAC-SHA256 confirmation token proving possession of a session sub-key.
pub fn confirmation_mac(mac_key: &[u8; MAC_LEN], label: &[u8]) -> (token: [u8; MAC_LEN])
    ensures
        token@ == hmac_sha256(mac_key@, label@),
{
    hmac(mac_key.as_slice(), label)
}

/// Constant-time comparison of two MACs / tags.
pub fn macs_equal(a: &[u8], b: &[u8]) -> (same: bool)
    ensures
        same == (a@ == b@),
{
    ct_eq(a, b)
}

/// Every purpose has a key of its own: each is expanded from the secret under a
/// label that is used for nothing else.
pub proof fn law_key_schedule(keys: SessionKeys, secret: Seq<u8>)
    requires
        keys.derived_from(secret),
    ensures
        keys.file_key@ == hkdf_sha256(secret, encode_utf8("frostwall/v1/file-key"@)),
        keys.confirm_a@ == hkdf_sha256(secret, encode_utf8("frostwall/v1/confirm-a"@)),
        keys.confirm_b@ == hkdf_sha256(secret, encode_utf8("frostwall/v1/confirm-b"@)),
        keys.control_key@ == hkdf_sha256(secret, encode_utf8("frostwall/v1/control-key"@)),
        keys.liveness_key@ == hkdf_sha256(secret, encode_utf8("frostwall/v1/liveness"@)),
{
}

/// Sealed bytes are a nonce of 24 bytes and what the cipher makes of the plaintext
/// under it, sixteen bytes longer; opening takes the two apart again.
pub proof fn law_sealed_layout(key: Seq<u8>, nonce: Seq<u8>, plaintext: Seq<u8>, packed: Seq<u8>)
    requires
        nonce.len() == 24,
    ensures
        packed_with(key, nonce, plaintext) == nonce + xchacha_seal(key, nonce, plaintext),
        seals(key, plaintext, packed) ==> packed.len() == plaintext.len() + 40 && packed.skip(24)
            == xchacha_seal(key, packed.take(24), plaintext),
        packed.len() < 24 ==> unpacked(key, packed) == Err::<Seq<u8>, CryptoError>(
            CryptoError::ShorterThanNonce,
        ),
        24 <= packed.len() <= 274_877_906_856 ==> unpacked(key, packed) == (match xchacha_open(
            key,
            packed.take(24),
            packed.skip(24),
        ) {
            Some(p) => Ok::<Seq<u8>, CryptoError>(p),
            None => Err(CryptoError::Decrypt),
        }),
{
    if seals(key, plaintext, packed) {
        let n = packed.take(24);
        assert(packed_with(key, n, plaintext).skip(24) =~= xchacha_seal(key, n, plaintext));
    }
}

} // verus!
