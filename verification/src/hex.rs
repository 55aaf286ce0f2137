//! Hexadecimal text of a byte buffer: parsing, decoding and encoding.

use vstd::prelude::*;
use vstd::std_specs::convert::FromSpecImpl;
use vstd::std_specs::convert::TryFromSpecImpl;
use vstd::string::StringExecFns;
use vstd::string::StringSliceAdditionalSpecFns;

use crate::bytestring::{xor_key, xor_octets, Bytestring};
use crate::cryptostring::{Score, Xor};
use crate::ratio::Ratio;

verus! {

broadcast use vstd::string::is_ascii_spec_bytes;

/// Whether `c` is one of `0-9`, `a-f`, `A-F`.
pub open spec fn is_hex_digit(c: char) -> bool {
    ||| '0' <= c <= '9'
    ||| 'a' <= c <= 'f'
    ||| 'A' <= c <= 'F'
}

/// Whether every character of `t` is a hex digit.
pub open spec fn is_hex_text(t: Seq<char>) -> bool {
    forall|i: int| 0 <= i < t.len() ==> is_hex_digit(#[trigger] t[i])
}

/// Whether every character of `t` is one of `0-9`, `a-f`.
pub open spec fn is_lower_hex_text(t: Seq<char>) -> bool {
    forall|i: int| 0 <= i < t.len() ==> '0' <= #[trigger] t[i] <= '9' || 'a' <= t[i] <= 'f'
}

/// The value of a hex digit, letters of either case counting 10 to 15.
pub open spec fn digit_value(c: char) -> int {
    if '0' <= c <= '9' {
        c as int - '0' as int
    } else if 'a' <= c <= 'f' {
        c as int - 'a' as int + 10
    } else {
        c as int - 'A' as int + 10
    }
}

/// The lowercase hex digit of a value from 0 to 15.
pub open spec fn digit_char(v: int) -> char {
    if v <= 9 {
        ('0' as int + v) as char
    } else {
        ('a' as int + v - 10) as char
    }
}

/// The lowercase form of a character: `A-Z` become `a-z`.
pub open spec fn lowercase(c: char) -> char {
    if 'A' <= c <= 'Z' {
        (c as int + 32) as char
    } else {
        c
    }
}

/// The octets that hex text stands for: one for every two characters, the
/// first of the two being the high half. A last character without a partner
/// stands for nothing.
pub open spec fn decode(t: Seq<char>) -> Seq<u8> {
    Seq::new(
        t.len() / 2,
        |i: int| (16 * digit_value(t[2 * i]) + digit_value(t[2 * i + 1])) as u8,
    )
}

/// The hex text of a buffer: two lowercase digits for every octet, high half
/// first.
pub open spec fn encode(b: Seq<u8>) -> Seq<char> {
    Seq::new(
        2 * b.len(),
        |j: int|
            if j % 2 == 0 {
                digit_char(b[j / 2] as int / 16)
            } else {
                digit_char(b[j / 2] as int % 16)
            },
    )
}

/// Encoding gives lowercase hex text, twice as long as the buffer.
pub proof fn lemma_encode_shape(b: Seq<u8>)
    ensures
        encode(b).len() == 2 * b.len(),
        is_lower_hex_text(encode(b)),
        is_hex_text(encode(b)),
{
}

/// Decoding the hex text of a buffer gives the buffer back.
pub proof fn lemma_decode_encode(b: Seq<u8>)
    ensures
        decode(encode(b)) == b,
{
    assert forall|i: int| 0 <= i < b.len() implies decode(encode(b))[i] == b[i] by {
        assert(encode(b)[2 * i] == digit_char(b[i] as int / 16));
        assert(encode(b)[2 * i + 1] == digit_char(b[i] as int % 16));
    }
}

/// Encoding what hex text of even length decodes to gives the text back in
/// lowercase.
pub proof fn lemma_encode_decode(t: Seq<char>)
    requires
        is_hex_text(t),
        t.len() % 2 == 0,
    ensures
        encode(decode(t)) == t.map_values(|c: char| lowercase(c)),
{
    let u = t.map_values(|c: char| lowercase(c));
    assert forall|j: int| 0 <= j < t.len() implies encode(decode(t))[j] == u[j] by {
        let i = j / 2;
        assert(decode(t)[i] == 16 * digit_value(t[2 * i]) + digit_value(t[2 * i + 1]));
    }
}

/// The string that was refused as hex text.
#[derive(Debug)]
pub struct InvalidHexError(pub String);

impl Clone for InvalidHexError {
    fn clone(&self) -> (r: InvalidHexError)
        ensures
            r@ == self@,
    {
        InvalidHexError(self.0.clone())
    }
}

impl View for InvalidHexError {
    type V = Seq<char>;

    open spec fn view(&self) -> Seq<char> {
        self.0@
    }
}

impl InvalidHexError {
    /// The message for this error: the words `invalid hex string: ` and the
    /// string that was refused.
    pub fn to_string(&self) -> (r: String)
        ensures
            r@ == "invalid hex string: "@ + self@,
    {
        String::from_str("invalid hex string: ").concat(self.0.as_str())
    }
}

/// Text in which every character is a hex digit.
#[derive(Debug)]
pub struct Hex(String);

impl View for Hex {
    type V = Seq<char>;

    closed spec fn view(&self) -> Seq<char> {
        self.0@
    }
}

impl Clone for Hex {
    fn clone(&self) -> (r: Hex)
        ensures
            r@ == self@,
    {
        proof {
            use_type_invariant(self);
        }
        Hex(self.0.clone())
    }
}

impl From<&Bytestring> for Hex {
    /// The hex text of the buffer.
    fn from(b: &Bytestring) -> (r: Hex)
        ensures
            r@ == encode(b@),
            r@.len() == 2 * b@.len(),
            is_lower_hex_text(r@),
            decode(r@) == b@,
    {
        let bytes = b.as_ref();
        let n = bytes.len();
        let mut s = String::new();
        let mut i: usize = 0;
        while i < n
            invariant
                bytes@ == b@,
                n == bytes@.len(),
                i <= n,
                s@ == encode(b@).subrange(0, 2 * i),
            decreases n - i,
        {
            let pair = Hex::bin_to_hexpair(&bytes[i]);
            s.push(pair[0]);
            s.push(pair[1]);
            i += 1;
        }
        proof {
            lemma_encode_shape(b@);
            lemma_decode_encode(b@);
        }
        Hex(s)
    }
}

impl FromSpecImpl<&Bytestring> for Hex {
    open spec fn obeys_from_spec() -> bool {
        false
    }

    open spec fn from_spec(b: &Bytestring) -> Hex {
        arbitrary()
    }
}

impl TryFrom<&str> for Hex {
    type Error = InvalidHexError;

    /// Takes `s` as hex text if every character of it is a hex digit, and
    /// hands `s` back in the error if one is not. A string of odd length is
    /// taken too.
    fn try_from(s: &str) -> (r: Result<Hex, InvalidHexError>)
        ensures
            is_hex_text(s@) ==> r is Ok && r->Ok_0@ == s@,
            !is_hex_text(s@) ==> r is Err && r->Err_0@ == s@,
    {
        if !s.is_ascii() {
            return Err(InvalidHexError(s.to_owned()));
        }
        let bytes = s.as_bytes();
        let n = bytes.len();
        let mut i: usize = 0;
        while i < n
            invariant
                s.is_ascii(),
                bytes@ == s.spec_bytes(),
                n == bytes@.len(),
                n == s@.len(),
                i <= n,
                forall|j: int| 0 <= j < i ==> is_hex_digit(#[trigger] s@[j]),
            decreases n - i,
        {
            if Hex::non_hexchar(bytes[i]) {
                return Err(InvalidHexError(s.to_owned()));
            }
            i += 1;
        }
        Ok(Hex(s.to_owned()))
    }
}

impl TryFromSpecImpl<&str> for Hex {
    open spec fn obeys_try_from_spec() -> bool {
        false
    }

    open spec fn try_from_spec(s: &str) -> Result<Hex, InvalidHexError> {
        arbitrary()
    }
}

impl Hex {
    #[verifier::type_invariant]
    spec fn well_formed(&self) -> bool {
        is_hex_text(self.0@)
    }

    /// Whether the character with code `c` is no hex digit.
    pub fn non_hexchar(c: u8) -> (r: bool)
        ensures
            r == !is_hex_digit(c as char),
    {
        !((c >= 'a' as u8 && c <= 'f' as u8) || (c >= 'A' as u8 && c <= 'F' as u8) || (c
            >= '0' as u8 && c <= '9' as u8))
    }

    /// The octet that two hex digits stand for, the first being the high
    /// half.
    pub fn hexpair_to_bin(hexpair: &[u8]) -> (r: u8)
        requires
            hexpair@.len() >= 2,
            is_hex_digit(hexpair@[0] as char),
            is_hex_digit(hexpair@[1] as char),
        ensures
            r == 16 * digit_value(hexpair@[0] as char) + digit_value(hexpair@[1] as char),
    {
        let a = Hex::hexchar_to_bin(hexpair[0]);
        let b = Hex::hexchar_to_bin(hexpair[1]);
        assert(a << 4 | b == 16 * a + b) by (bit_vector)
            requires
                a < 16,
                b < 16,
        ;
        a << 4 | b
    }

    /// The value of the hex digit with code `hexchar`.
    pub fn hexchar_to_bin(hexchar: u8) -> (r: u8)
        requires
            is_hex_digit(hexchar as char),
        ensures
            r == digit_value(hexchar as char),
            r < 16,
    {
        if hexchar >= 'a' as u8 && hexchar <= 'f' as u8 {
            hexchar - 'a' as u8 + 10
        } else if hexchar >= 'A' as u8 && hexchar <= 'F' as u8 {
            hexchar - 'A' as u8 + 10
        } else {
            hexchar - '0' as u8
        }
    }

    /// The two lowercase hex digits of an octet, high half first.
    pub fn bin_to_hexpair(binchar: &u8) -> (r: Vec<char>)
        ensures
            r@ == encode(seq![*binchar]),
            r@.len() == 2,
            r@[0] == digit_char(*binchar as int / 16),
            r@[1] == digit_char(*binchar as int % 16),
    {
        let b1: u8 = *binchar >> 4;
        let b2: u8 = *binchar & 0x0F;
        proof {
            let b = *binchar;
            assert(b >> 4 == b / 16) by (bit_vector);
            assert(b & 0x0F == b % 16) by (bit_vector);
        }
        let mut r: Vec<char> = Vec::new();
        r.push(Hex::nibble_to_char(b1));
        r.push(Hex::nibble_to_char(b2));
        r
    }

    /// The lowercase hex digit of a value from 0 to 15.
    fn nibble_to_char(c: u8) -> (r: char)
        requires
            c < 16,
        ensures
            r == digit_char(c as int),
    {
        (if c > 9 {
            c - 10 + 'a' as u8
        } else {
            c + '0' as u8
        }) as char
    }

    /// The buffer that the text stands for. The text must have even length:
    /// a last digit without a partner stands for no octet.
    pub fn decode(&self) -> (r: Bytestring)
        requires
            self@.len() % 2 == 0,
        ensures
            r@ == decode(self@),
    {
        proof {
            use_type_invariant(self);
        }
        let text = self.0.as_str();
        assert(text.is_ascii());
        let bytes = text.as_bytes();
        let n = bytes.len();
        let mut out: Vec<u8> = Vec::new();
        let mut i: usize = 0;
        while i < n
            invariant
                text@ == self@,
                is_hex_text(text@),
                text.is_ascii(),
                bytes@ == text.spec_bytes(),
                n == bytes@.len(),
                n == text@.len(),
                n % 2 == 0,
                i <= n,
                i % 2 == 0,
                out@ == decode(self@).subrange(0, i as int / 2),
            decreases n - i,
        {
            let octet = Hex::hexpair_to_bin(vstd::slice::slice_subrange(bytes, i, i + 2));
            out.push(octet);
            i += 2;
        }
        Bytestring::from(&out)
    }

    /// The buffer that the text stands for, as `decode` gives it.
    pub fn into(self) -> (r: Bytestring)
        requires
            self@.len() % 2 == 0,
        ensures
            r@ == decode(self@),
    {
        self.decode()
    }

    /// The text as a string of its own.
    pub fn to_string(&self) -> (r: String)
        ensures
            r@ == self@,
            is_hex_text(r@),
    {
        proof {
            use_type_invariant(self);
        }
        self.0.clone()
    }

    /// How many digits the text has.
    pub fn len(&self) -> (r: usize)
        ensures
            r == self@.len(),
    {
        proof {
            use_type_invariant(self);
        }
        let text = self.0.as_str();
        assert(text.is_ascii());
        text.as_bytes().len()
    }
}

impl Xor<Hex> for Hex {
    open spec fn octets(&self) -> Seq<u8> {
        decode(self@)
    }

    open spec fn xor_defined(&self, other: &Hex) -> bool {
        self@.len() % 2 == 0 && other@.len() % 2 == 0
    }

    open spec fn combined(&self, other: &Hex) -> Seq<u8> {
        xor_octets(decode(self@), decode(other@))
    }

    /// The hex text of the XOR of the two buffers that the texts stand for.
    /// Both texts must have even length.
    fn xor(&self, other: &Hex) -> (out: Hex)
        ensures
            out@ == encode(xor_octets(decode(self@), decode(other@))),
    {
        let b0 = self.decode();
        let b1 = other.decode();
        Hex::from(&b0.xor(&b1))
    }
}

impl Xor<u8> for Hex {
    open spec fn octets(&self) -> Seq<u8> {
        decode(self@)
    }

    open spec fn xor_defined(&self, other: &u8) -> bool {
        self@.len() % 2 == 0
    }

    open spec fn combined(&self, other: &u8) -> Seq<u8> {
        xor_key(decode(self@), *other)
    }

    /// The hex text of the buffer that the text stands for, every octet
    /// combined with `other`. The text must have even length.
    fn xor(&self, other: &u8) -> (out: Hex)
        ensures
            out@ == encode(xor_key(decode(self@), *other)),
    {
        let b0 = self.decode();
        Hex::from(&b0.xor(other))
    }
}

impl Score for Hex {
    open spec fn scored(&self) -> Seq<u8> {
        decode(self@)
    }

    open spec fn score_defined(&self) -> bool {
        self@.len() % 2 == 0 && self@.len() > 0
    }

    /// The score of the buffer that the text stands for. The text must have
    /// even length and must not be empty.
    fn score(&self) -> (r: Ratio) {
        let b0 = self.decode();
        b0.score()
    }
}

} // verus!
