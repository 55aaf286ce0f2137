use cryptopals::bytestring::Bytestring;
use cryptopals::cryptostring::{Score, Xor};

fn buffer(octets: &[u8]) -> Bytestring {
    Bytestring::from(&octets.to_vec())
}

#[test]
fn test_xor() {
    let input0 = buffer(&[0, 0, 0, 0]);
    let input1 = buffer(&[1, 1, 1, 1]);
    let expected0: Vec<u8> = vec![1, 1, 1, 1];
    let output1 = input0.xor(&input1);
    assert_eq!(expected0, output1.as_ref());

    let input2 = buffer(&[3, 4, 5, 6]);
    let input3 = buffer(&[6, 5, 4, 3]);
    let expected1: Vec<u8> = vec![5, 1, 1, 5];
    let output1 = input2.xor(&input3);
    assert_eq!(expected1, output1.as_ref());

    let input4 = buffer(&[3, 4, 5, 6]);
    let input5 = buffer(&[3, 4, 5, 6]);
    let expected2: Vec<u8> = vec![0, 0, 0, 0];
    let output2 = input4.xor(&input5);
    assert_eq!(expected2, output2.as_ref());

    let empty_vec: Vec<u8> = vec![];
    let input6 = Bytestring::from(&empty_vec.clone());
    let output3 = input6.xor(&input6);
    assert_eq!(empty_vec, output3.as_ref())
}

#[test]
fn test_score() {
    let input0 = buffer(&[0, 0, 0]);
    let ratio0 = input0.score();
    let output0 = ratio0.numer as f32 / ratio0.denom as f32;
    assert!((100.0 - output0).abs() <= 1.0);

    let input1 = Bytestring::from(&"abc".bytes().collect::<Vec<u8>>());
    let ratio1 = input1.score();
    let output1 = ratio1.numer as f32 / ratio1.denom as f32;
    assert_eq!(11.5, output1);
}

#[test]
fn buffer_from_text_holds_its_octets() {
    let b = Bytestring::from("Man");
    assert_eq!(b.as_ref(), &[77u8, 97, 110]);
    assert_eq!(Bytestring::from("").as_ref(), &[] as &[u8]);
    // One octet for each character, also beyond ASCII.
    assert_eq!(Bytestring::from("\u{e9}").as_ref(), &[0xE9u8]);
    assert_eq!(Bytestring::from("a\u{80}\u{ff}z").as_ref(), &[0x61u8, 0x80, 0xFF, 0x7A]);
}

#[test]
fn buffer_from_octets_is_a_copy() {
    let mut source: Vec<u8> = vec![1, 2, 3];
    let b = Bytestring::from(&source);
    source[0] = 9;
    assert_eq!(b.as_ref(), &[1u8, 2, 3]);
}

#[test]
fn buffer_to_text_maps_each_octet() {
    assert_eq!(buffer(&[72, 105]).to_string(), "Hi");
    assert_eq!(buffer(&[]).to_string(), "");
    let high = buffer(&[0, 127, 128, 255]).to_string();
    let chars: Vec<char> = high.chars().collect();
    assert_eq!(chars, vec!['\0', '\u{7f}', '\u{80}', '\u{ff}']);
}

#[test]
fn text_round_trips_through_a_buffer() {
    let text = "The quick brown fox; 0123456789 ~!@#";
    assert_eq!(Bytestring::from(text).to_string(), text);
    let latin = "na\u{ef}ve caf\u{e9} \u{a3}5 \u{ff}\u{80}\u{0}";
    let b = Bytestring::from(latin);
    assert_eq!(b.as_ref().len(), latin.chars().count());
    assert_eq!(b.to_string(), latin);
}

#[test]
fn every_octet_round_trips_through_text() {
    let all: Vec<u8> = (0..=255u8).collect();
    let b = Bytestring::from(&all);
    let text = b.to_string();
    assert_eq!(text.chars().count(), 256);
    assert_eq!(Bytestring::from(text.as_str()), b);
}

#[test]
fn character_beyond_an_octet_leaves_its_low_bits() {
    assert_eq!(Bytestring::from("\u{100}").as_ref(), &[0x00u8]);
    assert_eq!(Bytestring::from("\u{20ac}x").as_ref(), &[0xACu8, 0x78]);
    assert_eq!(Bytestring::from("\u{1f600}").as_ref(), &[0x00u8]);
}

#[test]
fn buffer_equality_and_clone_are_by_content() {
    let a = buffer(&[1, 2, 3]);
    let b = buffer(&[1, 2, 3]);
    assert_eq!(a, b);
    assert_eq!(a.clone(), a);
    assert_ne!(a, buffer(&[1, 2, 4]));
    assert_ne!(a, buffer(&[1, 2]));
    assert_ne!(a, buffer(&[1, 2, 3, 0]));
    assert_eq!(buffer(&[]), buffer(&[]));
}

#[test]
fn xor_cuts_to_the_shorter_buffer() {
    let long = buffer(&[0xF0, 0x0F, 0xAA, 0x55, 0x01]);
    let short = buffer(&[0xFF, 0xFF]);
    assert_eq!(long.xor(&short).as_ref(), &[0x0Fu8, 0xF0]);
    assert_eq!(short.xor(&long).as_ref(), &[0x0Fu8, 0xF0]);
    assert_eq!(long.xor(&buffer(&[])).as_ref(), &[] as &[u8]);
}

#[test]
fn xor_twice_gives_the_buffer_back() {
    let x = buffer(&[0, 1, 2, 127, 128, 254, 255]);
    let y = buffer(&[255, 17, 2, 1, 128, 3, 0]);
    assert_eq!(x.xor(&y).xor(&y), x);
    assert_eq!(x.xor(&x), buffer(&[0, 0, 0, 0, 0, 0, 0]));
}

#[test]
fn xor_with_one_octet() {
    let x = buffer(&[0x00, 0x0F, 0xF0, 0xFF]);
    assert_eq!(x.xor(&0x0Fu8).as_ref(), &[0x0Fu8, 0x00, 0xFF, 0xF0]);
    assert_eq!(x.xor(&0u8), x);
    assert_eq!(x.xor(&0x5Au8).xor(&0x5Au8), x);
    assert_eq!(buffer(&[]).xor(&7u8), buffer(&[]));
}
