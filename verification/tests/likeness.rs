use cryptopals::bytestring::Bytestring;
use cryptopals::cryptostring::Score;
use cryptopals::likeness::{char_score, count_values, score_octets};

#[test]
fn char_score_table() {
    let table: [(char, u32); 26] = [
        ('a', 8200), ('b', 1500), ('c', 2800), ('d', 4300), ('e', 13000), ('f', 2200),
        ('g', 2000), ('h', 6100), ('i', 7000), ('j', 150), ('k', 770), ('l', 4000),
        ('m', 2500), ('n', 6700), ('o', 7500), ('p', 1900), ('q', 95), ('r', 6000),
        ('s', 6300), ('t', 9100), ('u', 2800), ('v', 980), ('w', 2400), ('x', 150),
        ('y', 2000), ('z', 74),
    ];
    for (c, expected) in table {
        assert_eq!(char_score(c), expected);
        assert_eq!(char_score(c.to_ascii_uppercase()), expected);
    }
}

#[test]
fn char_score_of_what_is_no_letter() {
    for c in ['\0', ' ', '0', '9', '@', '[', '`', '{', '\u{7f}', '\u{e9}', '\u{ff}'] {
        assert_eq!(char_score(c), 100000);
    }
}

#[test]
fn count_values_counts_each_value() {
    let counts = count_values(&[7, 0, 7, 255, 7]);
    assert_eq!(counts.len(), 3);
    assert_eq!(counts.get(&7), Some(&3));
    assert_eq!(counts.get(&0), Some(&1));
    assert_eq!(counts.get(&255), Some(&1));
    assert_eq!(counts.get(&1), None);
    assert!(count_values(&[]).is_empty());
}

#[test]
fn score_of_single_letter() {
    // One 'e': count 1 of length 1 is 1.0, and 13.0 - 1.0 = 12.
    let r = score_octets(b"e");
    assert_eq!((r.numer, r.denom), (12000, 1000));
}

#[test]
fn score_takes_the_count_over_the_length() {
    // "ee": count 2 of length 2 is 1.0, and 13.0 - 1.0 = 12.
    let r = score_octets(b"ee");
    assert_eq!((r.numer, r.denom), (24000, 2000));
    // "eE": two values, each with count 1 of 2: (13.0 - 0.5) twice.
    let r = score_octets(b"eE");
    assert_eq!((r.numer, r.denom), (50000, 2000));
}

#[test]
fn score_of_strangers() {
    let r = score_octets(&[0, 0, 0]);
    assert_eq!((r.numer, r.denom), (297000, 3000));
    let r = score_octets(b" !");
    assert_eq!((r.numer, r.denom), (398000, 2000));
}

#[test]
fn score_in_floating_point() {
    let r = Bytestring::from("abc").score();
    assert_eq!(r.numer as f64 / r.denom as f64, 11.5);
    // Where the count over the length is above what is expected:
    // (0.5 - 0.074) + (0.5 - 0.095).
    let r = Bytestring::from("zq").score();
    assert_eq!((r.numer, r.denom), (1662, 2000));
    assert!((r.numer as f64 / r.denom as f64 - 0.831).abs() < 1e-12);
}

#[test]
fn english_scores_lower_than_noise() {
    let english = Bytestring::from("the rain in spain").score();
    let noise = Bytestring::from(&vec![1u8, 2, 3, 4, 5, 6, 7, 8, 9, 10, 11, 12, 13, 14, 15, 16, 17]).score();
    assert!(english.lt(&noise));
    assert!(!noise.lt(&english));
}
