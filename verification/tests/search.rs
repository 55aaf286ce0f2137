use cryptopals::bytestring::Bytestring;
use cryptopals::cryptostring::{Score, Xor};
use cryptopals::hex::Hex;
use cryptopals::search::search_key;

#[test]
fn search_finds_the_known_sentence() {
    let cipher: Bytestring = Hex::try_from(
        "1b37373331363f78151b7f2b783431333d78397828372d363c78373e783a393b3736",
    )
    .unwrap()
    .into();
    let found = search_key(&cipher);
    assert_eq!(found.key, 88);
    assert_eq!(found.text.to_string(), "Cooking MC's like a pound of bacon");
}

#[test]
fn search_goes_by_the_score_alone() {
    // The lowest score need not read well: rare letters are expected least.
    let found = search_key(&Bytestring::from("attack at dawn"));
    assert_eq!(found.key, 13);
    assert_eq!(found.text.to_string(), "lyylnf-ly-ilzc");
    let r = found.text.score();
    assert_eq!(r.numer * 500, 61887 * r.denom);
}

#[test]
fn search_undoes_a_key() {
    let plain =
        Bytestring::from("Now is the time for all good men to come to the aid of the party");
    let found = search_key(&plain.xor(&0x58u8));
    assert_eq!(found.key, 0x58);
    assert_eq!(found.text, plain);
}

#[test]
fn search_result_is_the_first_of_the_lowest() {
    let cipher = Bytestring::from(&vec![0x93u8, 0x11, 0x5C, 0x5C, 0xE0, 0x07, 0x93]);
    let found = search_key(&cipher);
    assert_eq!(found.text, cipher.xor(&found.key));
    let best = found.text.score();
    for key in 0..255u8 {
        let score = cipher.xor(&key).score();
        assert!(!score.lt(&best));
        if key < found.key {
            assert!(best.lt(&score));
        }
    }
}

#[test]
fn search_on_a_single_octet() {
    // One octet has the count 1 of length 1. The letter expected nearest
    // to that is 'v', at 0.98, and the first key that gives it gives 'V'.
    let cipher = Bytestring::from(&vec![b'e' ^ 0xFF]);
    let found = search_key(&cipher);
    assert_eq!(found.key, 204);
    assert_eq!(found.text.to_string(), "V");
    let r = found.text.score();
    assert_eq!((r.numer, r.denom), (20, 1000));
}

#[test]
fn search_hands_an_empty_buffer_back() {
    let found = search_key(&Bytestring::from(""));
    assert_eq!(found.key, 0);
    assert_eq!(found.text.as_ref(), &[] as &[u8]);
}
