use frostwall::liveness::{code_for_period, code_from_mac, current_code, period_for};

fn key(seed: u8) -> [u8; 32] {
    [seed; 32]
}

#[test]
fn same_key_and_period_give_same_code() {
    let k = key(7);
    assert_eq!(code_for_period(&k, 1000), code_for_period(&k, 1000));
}

#[test]
fn different_keys_give_different_codes() {
    let a = code_for_period(&key(1), 1000);
    let b = code_for_period(&key(2), 1000);
    assert_ne!(a, b);
}

#[test]
fn code_rotates_between_periods() {
    let k = key(3);
    // try several periods; at least one must differ from period 0
    let c0 = code_for_period(&k, 0);
    let mut changed = false;
    for p in 1..6 {
        if code_for_period(&k, p) != c0 {
            changed = true;
            break;
        }
    }
    assert!(changed, "code should change across periods");
}

#[test]
fn code_is_six_digits() {
    let c = code_for_period(&key(9), 42);
    assert_eq!(c.len(), 6);
    assert!(c.chars().all(|ch| ch.is_ascii_digit()));
}

#[test]
fn period_for_divides_by_step() {
    assert_eq!(period_for(0), 0);
    assert_eq!(period_for(29), 0);
    assert_eq!(period_for(30), 1);
    assert_eq!(period_for(89), 2);
}

#[test]
fn current_code_matches_code_for_period() {
    let k = key(5);
    let now = 123_456;
    assert_eq!(current_code(&k, now), code_for_period(&k, period_for(now)));
}

#[test]
fn code_is_constant_within_a_period() {
    let k = key(5);
    assert_eq!(current_code(&k, 60), current_code(&k, 89));
}

#[test]
fn truncation_reads_four_bytes_at_the_low_half_of_the_last_byte() {
    let mut mac = [0u8; 32];
    mac[31] = 0xf2; // offset 2
    mac[2] = 0xff; // the top bit is dropped
    mac[3] = 0x00;
    mac[4] = 0x01;
    mac[5] = 0x02;
    // 0x7f000102 = 2130706690
    assert_eq!(code_from_mac(&mac), "706690");
    mac[2] = 0x00;
    assert_eq!(code_from_mac(&mac), "000258");
}

#[test]
fn truncation_can_start_at_the_last_offset() {
    let mut mac = [0u8; 32];
    mac[31] = 0x0f; // offset 15
    mac[15] = 0x00;
    mac[16] = 0x0f;
    mac[17] = 0x42;
    mac[18] = 0x41; // 1_000_001
    assert_eq!(code_from_mac(&mac), "000001");
}
