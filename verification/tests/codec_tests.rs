use tcp_server::codec::{u32_to_std_vec, std_vec_to_u32, std_vec_has_undefined};

const LOW: u8 = 2;
const HIGH: u8 = 3;
const WEAK_LOW: u8 = 6;
const WEAK_HIGH: u8 = 7;

fn encode(w: u32) -> [u8; 32] {
    let mut v = [0u8; 32];
    u32_to_std_vec(w, &mut v);
    v
}

#[test]
fn round_trip_samples() {
    for w in [
        0u32,
        1,
        2,
        0x20,
        0x1000,
        0x12345678,
        0x80000000,
        0xCAFEBABE,
        0xDEADBEEF,
        0xFFFFFFFF,
    ] {
        let v = encode(w);
        assert_eq!(std_vec_to_u32(&v), w);
    }
}

#[test]
fn encode_zero_is_all_low() {
    assert_eq!(encode(0), [LOW; 32]);
}

#[test]
fn encode_all_ones_is_all_high() {
    assert_eq!(encode(0xFFFFFFFF), [HIGH; 32]);
}

#[test]
fn encode_is_msb_first() {
    let one = encode(1);
    assert_eq!(one[31], HIGH);
    assert!(one[..31].iter().all(|&e| e == LOW));

    let top = encode(0x80000000);
    assert_eq!(top[0], HIGH);
    assert!(top[1..].iter().all(|&e| e == LOW));
}

#[test]
fn decode_weak_states_carry_their_bit() {
    assert_eq!(std_vec_to_u32(&[WEAK_HIGH; 32]), 0xFFFFFFFF);
    assert_eq!(std_vec_to_u32(&[WEAK_LOW; 32]), 0);

    let mut v = [WEAK_LOW; 32];
    v[31] = WEAK_HIGH;
    assert_eq!(std_vec_to_u32(&v), 1);
}

#[test]
fn decode_folds_undefined_states_to_zero() {
    // High impedance (4) in the top bit of an otherwise all-high vector.
    let mut v = [HIGH; 32];
    v[0] = 4;
    assert_eq!(std_vec_to_u32(&v), 0x7FFFFFFF);

    // Uninitialized (0), unknown (1), weak unknown (5), don't care (8).
    for undef in [0u8, 1, 5, 8] {
        let mut v = [HIGH; 32];
        v[31] = undef;
        assert_eq!(std_vec_to_u32(&v), 0xFFFFFFFE);
    }
}

#[test]
fn undefined_detection() {
    assert!(!std_vec_has_undefined(&[LOW; 32]));
    assert!(!std_vec_has_undefined(&[HIGH; 32]));
    assert!(!std_vec_has_undefined(&[WEAK_LOW; 32]));
    assert!(!std_vec_has_undefined(&[WEAK_HIGH; 32]));
    let mut v = [LOW; 32];
    v[17] = 8;
    assert!(std_vec_has_undefined(&v));
}
