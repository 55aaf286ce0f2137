use cryptopals::ratio::{mul_wide, Ratio};

fn ratio(numer: u128, denom: u128) -> Ratio {
    Ratio { numer, denom }
}

#[test]
fn ratio_order_is_that_of_the_numbers() {
    assert!(ratio(1, 3).lt(&ratio(1, 2)));
    assert!(!ratio(1, 2).lt(&ratio(1, 3)));
    assert!(!ratio(1, 2).lt(&ratio(2, 4)));
    assert!(!ratio(2, 4).lt(&ratio(1, 2)));
    assert!(ratio(0, 5).lt(&ratio(1, 1000)));
    assert!(ratio(7, 10).lt(&ratio(8, 10)));
    assert!(!ratio(8, 10).lt(&ratio(8, 10)));
}

#[test]
fn ratio_order_beyond_128_bits() {
    let big = u128::MAX;
    assert!(ratio(big - 1, big).lt(&ratio(big, big)));
    assert!(!ratio(big, big).lt(&ratio(big - 1, big)));
    assert!(ratio(big - 1, big).lt(&ratio(big, big - 1)));
    assert!(!ratio(big, big - 1).lt(&ratio(big - 1, big)));
    // (2^127 + 1) / 2^127 against 2^127 / (2^127 - 1): the products differ by one.
    let h = 1u128 << 127;
    assert!(ratio(h + 1, h).lt(&ratio(h, h - 1)));
    assert!(!ratio(h, h - 1).lt(&ratio(h + 1, h)));
}

#[test]
fn mul_wide_small_products() {
    assert_eq!(mul_wide(0, 0), (0, 0));
    assert_eq!(mul_wide(0, u128::MAX), (0, 0));
    assert_eq!(mul_wide(1, u128::MAX), (0, u128::MAX));
    assert_eq!(mul_wide(6, 7), (0, 42));
    assert_eq!(mul_wide(1 << 63, 1 << 64), (0, 1 << 127));
}

#[test]
fn mul_wide_carries() {
    assert_eq!(mul_wide(1 << 64, 1 << 64), (1, 0));
    assert_eq!(mul_wide(1 << 127, 2), (1, 0));
    assert_eq!(mul_wide(u128::MAX, 2), (1, u128::MAX - 1));
    // (2^128 - 1)^2 = (2^128 - 2) * 2^128 + 1
    assert_eq!(mul_wide(u128::MAX, u128::MAX), (u128::MAX - 1, 1));
    // (2^64 - 1) * (2^128 - 1) = (2^64 - 2) * 2^128 + (2^128 - 2^64 + 1)
    let m = (1u128 << 64) - 1;
    assert_eq!(mul_wide(m, u128::MAX), (m - 1, u128::MAX - m + 1));
    assert_eq!(mul_wide(u128::MAX, m), (m - 1, u128::MAX - m + 1));
    // 0x1_0000_0000_0000_0001 squared = 2^128 + 2^65 + 1
    let x = (1u128 << 64) + 1;
    assert_eq!(mul_wide(x, x), (1, (1u128 << 65) + 1));
}
