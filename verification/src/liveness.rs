//! Liveness / identity code: a TOTP-style 6-digit code derived from the
//! session's `liveness_key` and the current time period. Both devices show
//! the same rotating code while connected; a mismatch reveals a relay between
//! them or a dropped session. Refreshes every `STEP_SECS` seconds.
//!
//! The humans compare the two codes and abort if they differ: nothing here
//! aborts by itself. A mismatch can also be caused by clock skew across a
//! rotation, so codes that disagree only fleetingly are worth a second look.
use crate::crypto;
use crate::crypto::MAC_LEN;
use crate::text;
use vstd::prelude::*;

verus! {

/// Seconds each code is valid before rotating.
pub const STEP_SECS: u64 = 30;

/// `n` in `width` bytes, the most significant byte first.
pub open spec fn be_bytes(n: nat, width: nat) -> Seq<u8>
    decreases width,
{
    if width == 0 {
        Seq::empty()
    } else {
        be_bytes(n / 256, (width - 1) as nat).push((n % 256) as u8)
    }
}

/// The four bytes of `mac` at its dynamic offset, as a number of 31 bits. The
/// offset is the low half of the last byte.
pub open spec fn truncated(mac: Seq<u8>) -> nat {
    let o = (mac[31] % 16) as int;
    ((mac[o] as nat * 0x100_0000 + mac[o + 1] as nat * 0x1_0000 + mac[o + 2] as nat * 0x100
        + mac[o + 3] as nat) % 0x8000_0000) as nat
}

/// The six digits that a MAC shows as.
pub open spec fn code_of_mac(mac: Seq<u8>) -> Seq<char> {
    text::padded(truncated(mac) % 1_000_000, 6)
}

/// The MAC of a period number under the liveness key.
pub open spec fn period_mac(key: Seq<u8>, period: u64) -> Seq<u8> {
    crypto::hmac_sha256(key, be_bytes(period as nat, 8))
}

/// The code shown under `key` at a wall-clock second.
pub open spec fn code_at(key: Seq<u8>, now_unix_secs: u64) -> Seq<char> {
    code_of_mac(period_mac(key, now_unix_secs / STEP_SECS))
}

/// Map a wall-clock second to its code period.
pub fn period_for(now_unix_secs: u64) -> (period: u64)
    ensures
        period == now_unix_secs / STEP_SECS,
{
    now_unix_secs / STEP_SECS
}

fn to_be_bytes(n: u64, width: usize) -> (out: Vec<u8>)
    ensures
        out@ == be_bytes(n as nat, width as nat),
    decreases width,
{
    if width == 0 {
        Vec::new()
    } else {
        let mut out = to_be_bytes(n / 256, width - 1);
        out.push((n % 256) as u8);
        out
    }
}

/// The six digits that a MAC shows as (HOTP-style dynamic truncation).
pub fn code_from_mac(mac: &[u8; MAC_LEN]) -> (code: String)
    ensures
        code@ == code_of_mac(mac@),
{
    let o: usize = (mac[31] % 16) as usize;
    let word: u64 = mac[o] as u64 * 0x100_0000 + mac[o + 1] as u64 * 0x1_0000 + mac[o + 2] as u64
        * 0x100 + mac[o + 3] as u64;
    text::padded_text(word % 0x8000_0000 % 1_000_000, 6)
}

/// Compute the 6-digit code for a specific period.
pub fn code_for_period(liveness_key: &[u8; MAC_LEN], period: u64) -> (code: String)
    ensures
        code@ == code_of_mac(period_mac(liveness_key@, period)),
{
    code_from_mac(&crypto::hmac(liveness_key.as_slice(), to_be_bytes(period, 8).as_slice()))
}

/// Compute the 6-digit code valid at `now_unix_secs`.
pub fn current_code(liveness_key: &[u8; MAC_LEN], now_unix_secs: u64) -> (code: String)
    ensures
        code@ == code_at(liveness_key@, now_unix_secs),
{
    code_for_period(liveness_key, period_for(now_unix_secs))
}

/// A code always has exactly six decimal digits.
pub proof fn law_code_is_six_digits(mac: Seq<u8>)
    ensures
        code_of_mac(mac).len() == 6,
        forall|i: int| 0 <= i < 6 ==> text::is_digit(#[trigger] code_of_mac(mac)[i]),
{
    text::lemma_padded(truncated(mac) % 1_000_000, 6);
}

/// Two devices with the same key show the same code at any two moments of one
/// period.
pub proof fn law_same_period_same_code(key: Seq<u8>, t1: u64, t2: u64)
    requires
        t1 / STEP_SECS == t2 / STEP_SECS,
    ensures
        code_at(key, t1) == code_at(key, t2),
{
}

/// The number that bytes stand for, the most significant byte first.
pub open spec fn be_value(s: Seq<u8>) -> nat
    decreases s.len(),
{
    if s.len() == 0 {
        0
    } else {
        256 * be_value(s.drop_last()) + s.last() as nat
    }
}

/// How many numbers fit into `width` bytes.
pub open spec fn byte_range(width: nat) -> nat
    decreases width,
{
    if width == 0 {
        1
    } else {
        256 * byte_range((width - 1) as nat)
    }
}

/// The bytes of a number stand for the number.
pub proof fn law_bytes_stand_for_their_number(n: nat, width: nat)
    requires
        n < byte_range(width),
    ensures
        be_bytes(n, width).len() == width,
        be_value(be_bytes(n, width)) == n,
    decreases width,
{
    if width > 0 {
        law_bytes_stand_for_their_number(n / 256, (width - 1) as nat);
        assert(be_bytes(n, width).drop_last() =~= be_bytes(n / 256, (width - 1) as nat));
    }
}

/// What is authenticated for a period is that very period, as a number of eight
/// bytes.
pub proof fn law_the_period_is_authenticated(key: Seq<u8>, period: u64) -> (message: Seq<u8>)
    ensures
        period_mac(key, period) == crypto::hmac_sha256(key, message),
        message.len() == 8,
        be_value(message) == period,
{
    reveal_with_fuel(byte_range, 9);
    law_bytes_stand_for_their_number(period as nat, 8);
    be_bytes(period as nat, 8)
}

/// Different periods have different messages, of which the codes are made.
pub proof fn law_other_period_other_message(p: u64, q: u64)
    requires
        p != q,
    ensures
        be_bytes(p as nat, 8) != be_bytes(q as nat, 8),
{
    reveal_with_fuel(byte_range, 9);
    law_bytes_stand_for_their_number(p as nat, 8);
    law_bytes_stand_for_their_number(q as nat, 8);
}

/// The code of a MAC is six digits that stand for the four bytes at the offset
/// that the low half of the last byte gives, without their top bit, modulo a
/// million.
pub proof fn law_code_is_the_truncated_mac(mac: Seq<u8>)
    requires
        mac.len() == 32,
    ensures
        ({
            let o = (mac[31] & 0x0f) as int;
            let top = (mac[o] & 0x7f) as nat;
            let word = ((top * 256 + mac[o + 1] as nat) * 256 + mac[o + 2] as nat) * 256 + mac[o
                + 3] as nat;
            text::number(code_of_mac(mac)) == word % 1_000_000
        }),
        code_of_mac(mac).len() == 6,
        forall|i: int| 0 <= i < 6 ==> '0' <= #[trigger] code_of_mac(mac)[i] <= '9',
{
    let last = mac[31];
    assert(last & 0x0f == last % 16) by (bit_vector);
    let o = (last % 16) as int;
    let high = mac[o];
    assert(high & 0x7f == high % 128) by (bit_vector);
    assert(high == 128 * (high / 128) + high % 128);
    reveal_with_fuel(text::tens, 7);
    text::law_padded_stands_for_its_number(truncated(mac) % 1_000_000, 6);
}

/// The code that is shown at a second is that of the period of thirty seconds
/// that the second lies in.
pub proof fn law_code_rotates_every_thirty_seconds(key: Seq<u8>, now: u64)
    ensures
        code_at(key, now) == code_of_mac(period_mac(key, (now / 30) as u64)),
{
}

} // verus!
