//! Three worked scenarios on fixed inputs: hex text to base64, the XOR of two
//! hex texts, and the search for a single-octet key.

use vstd::prelude::*;
use vstd::string::StringExecFns;

use crate::base64::Base64;
use crate::bytestring::{text_of, xor_octets, Bytestring};
use crate::cryptostring::Xor;
use crate::hex::{is_hex_text, lemma_decode_encode, Hex};
use crate::search::{candidate, first_best, search_key};

verus! {

/// The hex text of the first scenario.
pub const HEX_1: &'static str =
    "49276d206b696c6c696e6720796f757220627261696e206c696b65206120706f69736f6e6f7573206d757368726f6f6d";

/// The base64 text that the first scenario expects.
pub const BASE64_1: &'static str =
    "SSdtIGtpbGxpbmcgeW91ciBicmFpbiBsaWtlIGEgcG9pc29ub3VzIG11c2hyb29t";

/// The first hex text of the second scenario.
pub const HEX_2A: &'static str = "1c0111001f010100061a024b53535009181c";

/// The second hex text of the second scenario.
pub const HEX_2B: &'static str = "686974207468652062756c6c277320657965";

/// The hex text that the second scenario expects.
pub const HEX_2: &'static str = "746865206b696420646f6e277420706c6179";

/// The hex text of the third scenario.
pub const HEX_3: &'static str =
    "1b37373331363f78151b7f2b783431333d78397828372d363c78373e783a393b3736";

/// What a scenario came to.
#[derive(Debug)]
pub struct Outcome {
    /// The line that the scenario prints, if it gets as far as printing.
    pub line: Option<String>,
    /// Whether what the scenario computed is what it expected.
    pub passed: bool,
}

/// Whether `o` shows the line `line`.
pub open spec fn shows(o: Outcome, line: Seq<char>) -> bool {
    o.line matches Some(l) && l@ == line
}

/// The inputs of the scenarios are hex text of even length, and the third
/// is not empty.
pub proof fn lemma_inputs_are_hex()
    ensures
        is_hex_text(HEX_1@) && HEX_1@.len() == 96,
        is_hex_text(HEX_2A@) && HEX_2A@.len() == 36,
        is_hex_text(HEX_2B@) && HEX_2B@.len() == 36,
        is_hex_text(HEX_3@) && HEX_3@.len() == 68,
{
    reveal_strlit(
        "49276d206b696c6c696e6720796f757220627261696e206c696b65206120706f69736f6e6f7573206d757368726f6f6d",
    );
    reveal_strlit("1c0111001f010100061a024b53535009181c");
    reveal_strlit("686974207468652062756c6c277320657965");
    reveal_strlit("1b37373331363f78151b7f2b783431333d78397828372d363c78373e783a393b3736");
}

/// What the first scenario comes to: it shows the text of the buffer that
/// `HEX_1` stands for, and passes if the base64 text of that buffer is
/// `BASE64_1`.
pub open spec fn is_outcome_1(o: Outcome) -> bool {
    let buffer = crate::hex::decode(HEX_1@);
    &&& shows(o, "s1c1: "@ + text_of(buffer))
    &&& o.passed == (crate::base64::encode(buffer) == BASE64_1@)
}

/// What the second scenario comes to: it passes if the hex text of the XOR
/// of the two buffers is `HEX_2`, and only then shows the text of the XOR.
pub open spec fn is_outcome_2(o: Outcome) -> bool {
    let buffer = xor_octets(crate::hex::decode(HEX_2A@), crate::hex::decode(HEX_2B@));
    &&& o.passed == (crate::hex::encode(buffer) == HEX_2@)
    &&& if o.passed {
        shows(o, "s1c2: "@ + text_of(buffer))
    } else {
        o.line is None
    }
}

/// What the third scenario comes to: it shows the text of the buffer that
/// `HEX_3` stands for under the key that the search settles on.
pub open spec fn is_outcome_3(o: Outcome) -> bool {
    let cipher = crate::hex::decode(HEX_3@);
    &&& shows(o, "s1c3: "@ + text_of(candidate(cipher, first_best(cipher))))
    &&& o.passed
}

/// Runs the scenarios in their order, stopping after the first that does
/// not pass.
pub fn run_all() -> (r: Vec<Outcome>)
    ensures
        1 <= r@.len() <= 3,
        is_outcome_1(r@[0]),
        r@.len() >= 2 <==> r@[0].passed,
        r@.len() >= 2 ==> is_outcome_2(r@[1]),
        r@.len() >= 3 <==> r@[0].passed && r@[1].passed,
        r@.len() >= 3 ==> is_outcome_3(r@[2]),
{
    let mut r: Vec<Outcome> = Vec::new();
    let first = run_challenge_1();
    let go_on = first.passed;
    r.push(first);
    if go_on {
        let second = run_challenge_2();
        let go_on = second.passed;
        r.push(second);
        if go_on {
            r.push(run_challenge_3());
        }
    }
    r
}

/// Decodes `HEX_1` and encodes the buffer as base64.
pub fn run_challenge_1() -> (o: Outcome)
    ensures
        is_outcome_1(o),
{
    proof {
        lemma_inputs_are_hex();
    }
    let input0 = HEX_1;
    let expected0 = BASE64_1;
    let bin0: Bytestring = Hex::try_from(input0).unwrap().into();
    let line = String::from_str("s1c1: ").concat(bin0.to_string().as_str());
    let output0 = Base64::from(&bin0).to_string();
    Outcome { line: Some(line), passed: output0 == String::from_str(expected0) }
}

/// Combines the buffers of `HEX_2A` and `HEX_2B`.
pub fn run_challenge_2() -> (o: Outcome)
    ensures
        is_outcome_2(o),
{
    proof {
        lemma_inputs_are_hex();
    }
    let input0 = Hex::try_from(HEX_2A).unwrap();
    let input1 = Hex::try_from(HEX_2B).unwrap();
    let expected0 = HEX_2;
    let output0 = input0.xor(&input1);
    if output0.to_string() != String::from_str(expected0) {
        return Outcome { line: None, passed: false };
    }
    proof {
        lemma_decode_encode(xor_octets(crate::hex::decode(HEX_2A@), crate::hex::decode(HEX_2B@)));
    }
    let bin0: Bytestring = output0.into();
    let line = String::from_str("s1c2: ").concat(bin0.to_string().as_str());
    Outcome { line: Some(line), passed: true }
}

/// Searches the key of the buffer of `HEX_3`.
pub fn run_challenge_3() -> (o: Outcome)
    ensures
        is_outcome_3(o),
{
    proof {
        lemma_inputs_are_hex();
    }
    let input0: Bytestring = Hex::try_from(HEX_3).unwrap().into();
    let found = search_key(&input0);
    let line = String::from_str("s1c3: ").concat(found.text.to_string().as_str());
    Outcome { line: Some(line), passed: true }
}

} // verus!
