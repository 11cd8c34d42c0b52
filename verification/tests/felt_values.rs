use quest_server::felt::{bytes_less, Felt};
use quest_server::hex::{to_hex, to_short_hex};

fn bytes(hex: &str) -> [u8; 32] {
    assert_eq!(hex.len(), 64);
    let mut out = [0u8; 32];
    for i in 0..32 {
        out[i] = u8::from_str_radix(&hex[2 * i..2 * i + 2], 16).unwrap();
    }
    out
}

const PRIME: &str = "0800000000000011000000000000000000000000000000000000000000000001";
const LARGEST: &str = "0800000000000011000000000000000000000000000000000000000000000000";
const BOUND: &str = "0800000000000000000000000000000000000000000000000000000000000000";
const BELOW_BOUND: &str = "07ffffffffffffffffffffffffffffffffffffffffffffffffffffffffffffff";

#[test]
fn from_u64_writes_the_low_bytes() {
    let felt = Felt::from_u64(0x0102_0304_0506_0708);
    let mut expected = [0u8; 32];
    expected[24..].copy_from_slice(&[1, 2, 3, 4, 5, 6, 7, 8]);
    assert_eq!(felt.to_bytes_be(), expected);
    assert_eq!(Felt::from_u64(u64::MAX).to_bytes_be()[24..], [0xff; 8]);
    assert_eq!(Felt::from_u64(u64::MAX).to_bytes_be()[..24], [0; 24]);
}

#[test]
fn from_u32_agrees_with_from_u64() {
    assert_eq!(Felt::from_u32(54), Felt::from_u64(54));
    assert_eq!(Felt::from_u32(u32::MAX), Felt::from_u64(0xffff_ffff));
    assert_ne!(Felt::from_u32(6), Felt::from_u32(7));
}

#[test]
fn zero_is_zero() {
    assert!(Felt::zero().is_zero());
    assert_eq!(Felt::zero().to_bytes_be(), [0u8; 32]);
    assert!(!Felt::from_u64(1).is_zero());
    assert!(!Felt::from_bytes_be(bytes(BOUND)).unwrap().is_zero());
}

#[test]
fn from_bytes_refuses_what_is_not_below_the_prime() {
    assert!(Felt::from_bytes_be(bytes(PRIME)).is_none());
    assert!(Felt::from_bytes_be([0xff; 32]).is_none());
    let largest = Felt::from_bytes_be(bytes(LARGEST)).unwrap();
    assert_eq!(largest.to_bytes_be(), bytes(LARGEST));
    assert!(Felt::from_bytes_be([0u8; 32]).unwrap().is_zero());
}

#[test]
fn signable_is_below_two_to_the_251() {
    assert!(Felt::from_bytes_be(bytes(BELOW_BOUND)).unwrap().is_signable());
    assert!(!Felt::from_bytes_be(bytes(BOUND)).unwrap().is_signable());
    assert!(!Felt::from_bytes_be(bytes(LARGEST)).unwrap().is_signable());
    assert!(Felt::zero().is_signable());
}

#[test]
fn bytes_less_orders_by_value() {
    assert!(bytes_less(&bytes(BELOW_BOUND), &bytes(BOUND)));
    assert!(!bytes_less(&bytes(BOUND), &bytes(BELOW_BOUND)));
    assert!(!bytes_less(&bytes(BOUND), &bytes(BOUND)));
    assert!(bytes_less(&bytes(LARGEST), &bytes(PRIME)));
    let mut low = [0u8; 32];
    low[31] = 0xff;
    let mut high = [0u8; 32];
    high[30] = 1;
    assert!(bytes_less(&low, &high));
}

#[test]
fn equal_elements_have_equal_bytes() {
    let a = Felt::from_bytes_be(bytes(BELOW_BOUND)).unwrap();
    let b = Felt::from_bytes_be(bytes(BELOW_BOUND)).unwrap();
    let c = Felt::from_bytes_be(bytes(BOUND)).unwrap();
    assert!(a == b);
    assert!(a != c);
    let mut one_off = bytes(BELOW_BOUND);
    one_off[31] = 0xfe;
    assert!(a != Felt::from_bytes_be(one_off).unwrap());
    let mut first_off = bytes(BELOW_BOUND);
    first_off[0] = 0x06;
    assert!(a != Felt::from_bytes_be(first_off).unwrap());
}

#[test]
fn full_hex_has_all_digits() {
    assert_eq!(to_hex(&Felt::from_bytes_be(bytes(LARGEST)).unwrap()), format!("0x{}", LARGEST));
    assert_eq!(to_hex(&Felt::zero()), format!("0x{}", "0".repeat(64)));
    assert_eq!(
        to_hex(&Felt::from_u64(0xabcdef)),
        format!("0x{}abcdef", "0".repeat(58))
    );
}

#[test]
fn short_hex_drops_leading_zeros() {
    assert_eq!(to_short_hex(&Felt::from_u64(0xabcdef)), "0xabcdef");
    assert_eq!(to_short_hex(&Felt::from_u64(0x0a0b)), "0xa0b");
    assert_eq!(to_short_hex(&Felt::from_u64(0x100)), "0x100");
    assert_eq!(to_short_hex(&Felt::zero()), "0x");
    assert_eq!(
        to_short_hex(&Felt::from_bytes_be(bytes(LARGEST)).unwrap()),
        format!("0x{}", &LARGEST[1..])
    );
}
