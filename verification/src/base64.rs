//! Base64 text of a byte buffer. The codec only encodes.

use vstd::prelude::*;
use vstd::slice::slice_subrange;
use vstd::std_specs::convert::FromSpecImpl;
use vstd::string::StringExecFns;

use crate::bytestring::Bytestring;

verus! {

/// The character that stands for the six-bit value `v`: `A`-`Z` for 0-25,
/// `a`-`z` for 26-51, `0`-`9` for 52-61, then `+` and `/`.
pub open spec fn symbol(v: int) -> char {
    if v <= 25 {
        ('A' as int + v) as char
    } else if v <= 51 {
        ('a' as int + v - 26) as char
    } else if v <= 61 {
        ('0' as int + v - 52) as char
    } else if v == 62 {
        '+'
    } else {
        '/'
    }
}

/// Whether `c` is one of the 64 characters of the alphabet.
pub open spec fn is_symbol(c: char) -> bool {
    ||| 'A' <= c <= 'Z'
    ||| 'a' <= c <= 'z'
    ||| '0' <= c <= '9'
    ||| c == '+'
    ||| c == '/'
}

/// The octet at position `i`, or zero past the end of the buffer.
pub open spec fn octet_or_zero(b: Seq<u8>, i: int) -> int {
    if 0 <= i < b.len() {
        b[i] as int
    } else {
        0
    }
}

/// The 24 bits of group `g`: its three octets, first octet most significant,
/// with zero in place of an octet that the buffer does not have.
pub open spec fn group_bits(b: Seq<u8>, g: int) -> int {
    octet_or_zero(b, 3 * g) * 65536 + octet_or_zero(b, 3 * g + 1) * 256 + octet_or_zero(
        b,
        3 * g + 2,
    )
}

/// The `k`-th of the four six-bit digits of `bits`, most significant first.
pub open spec fn sextet(bits: int, k: int) -> int {
    if k == 0 {
        bits / 262144
    } else if k == 1 {
        (bits / 4096) % 64
    } else if k == 2 {
        (bits / 64) % 64
    } else {
        bits % 64
    }
}

/// The character at position `j` of the encoding of `b`: the pad character
/// where the six bits would hold nothing of the buffer, else the symbol of
/// the six bits.
pub open spec fn encoded_char(b: Seq<u8>, j: int) -> char {
    let g = j / 4;
    let k = j % 4;
    if 3 * g + k > b.len() {
        '='
    } else {
        symbol(sextet(group_bits(b, g), k))
    }
}

/// The base64 text of `b`: four characters for every group of three octets,
/// the last group padded.
pub open spec fn encode(b: Seq<u8>) -> Seq<char> {
    Seq::new((4 * ((b.len() + 2) / 3)) as nat, |j: int| encoded_char(b, j))
}

/// How many pad characters end the encoding of a buffer of `len` octets.
pub open spec fn padding(len: nat) -> int {
    (3 - len % 3) % 3
}

/// Whether `t` has the shape of base64 text: a multiple of four characters,
/// all of the alphabet but for at most two pad characters at the very end.
pub open spec fn is_base64_text(t: Seq<char>) -> bool {
    &&& t.len() % 4 == 0
    &&& forall|j: int| 0 <= j < t.len() - 2 ==> is_symbol(#[trigger] t[j])
    &&& t.len() >= 4 ==> {
        &&& is_symbol(t[t.len() - 1]) || t[t.len() - 1] == '='
        &&& is_symbol(t[t.len() - 2]) || (t[t.len() - 2] == '=' && t[t.len() - 1] == '=')
    }
}

/// Every six-bit value has a symbol of the alphabet, and the pad character is
/// none of them.
pub proof fn lemma_symbol_in_alphabet(v: int)
    requires
        0 <= v < 64,
    ensures
        is_symbol(symbol(v)),
        symbol(v) != '=',
{
}

/// The digits of a group are six-bit values.
pub proof fn lemma_sextet_range(b: Seq<u8>, g: int, k: int)
    requires
        0 <= k < 4,
    ensures
        0 <= sextet(group_bits(b, g), k) < 64,
{
}

/// The shifts and masks that cut four six-bit values out of three octets
/// give the digits of the three octets taken as one 24-bit number. With the
/// later octets zero, the shorter forms for a last group give the same.
pub proof fn lemma_shifts_are_digits(b0: u8, b1: u8, b2: u8)
    ensures
        b0 >> 2 == sextet(b0 * 65536 + b1 * 256 + b2, 0),
        ((b0 & 0x03) << 4) | ((b1 & 0xF0) >> 4) == sextet(b0 * 65536 + b1 * 256 + b2, 1),
        ((b1 & 0x0F) << 2) | ((b2 & 0xC0) >> 6) == sextet(b0 * 65536 + b1 * 256 + b2, 2),
        b2 & 0x3F == sextet(b0 * 65536 + b1 * 256 + b2, 3),
        b1 == 0 ==> (b0 & 0x03) << 4 == sextet(b0 * 65536 + b1 * 256 + b2, 1),
        b2 == 0 ==> (b1 & 0x0F) << 2 == sextet(b0 * 65536 + b1 * 256 + b2, 2),
{
    assert(b0 >> 2 == (b0 * 65536 + b1 * 256 + b2) / 262144) by (bit_vector);
    assert(((b0 & 0x03) << 4) | ((b1 & 0xF0) >> 4) == ((b0 * 65536 + b1 * 256 + b2) / 4096) % 64)
        by (bit_vector);
    assert(((b1 & 0x0F) << 2) | ((b2 & 0xC0) >> 6) == ((b0 * 65536 + b1 * 256 + b2) / 64) % 64)
        by (bit_vector);
    assert(b2 & 0x3F == (b0 * 65536 + b1 * 256 + b2) % 64) by (bit_vector);
    assert(b1 == 0 ==> (b0 & 0x03) << 4 == ((b0 * 65536 + b1 * 256 + b2) / 4096) % 64)
        by (bit_vector);
    assert(b2 == 0 ==> (b1 & 0x0F) << 2 == ((b0 * 65536 + b1 * 256 + b2) / 64) % 64)
        by (bit_vector);
}

/// The encoding of a buffer is the encodings of its groups of three octets
/// one after the other: characters `4g .. 4g + 4` are the encoding of the
/// octets `3g .. 3g + 3` (fewer in the last group).
pub proof fn lemma_encode_group(b: Seq<u8>, g: int)
    requires
        0 <= g,
        3 * g < b.len(),
    ensures
        4 * g + 4 <= encode(b).len(),
        encode(b.subrange(3 * g, if 3 * g + 3 <= b.len() { 3 * g + 3 } else { b.len() as int }))
            == encode(b).subrange(4 * g, 4 * g + 4),
{
    let end = if 3 * g + 3 <= b.len() { 3 * g + 3 } else { b.len() as int };
    let part = b.subrange(3 * g, end);
    assert forall|k: int| 0 <= k < 4 implies encode(part)[k] == encode(b)[4 * g + k] by {
        assert(group_bits(part, 0) == group_bits(b, g));
    }
}

/// Base64 text always has the shape that `is_base64_text` describes.
pub proof fn lemma_encode_shape(b: Seq<u8>)
    ensures
        is_base64_text(encode(b)),
{
    let t = encode(b);
    assert forall|j: int| 0 <= j < t.len() implies (is_symbol(#[trigger] t[j]) || (t[j] == '='
        && j >= t.len() - 2)) by {
        lemma_sextet_range(b, j / 4, j % 4);
        lemma_symbol_in_alphabet(sextet(group_bits(b, j / 4), j % 4));
    }
}

/// Padding depends on the length alone: a buffer whose length leaves a
/// remainder of one octet ends in two pad characters, a remainder of two in
/// one, and a multiple of three in none; no pad character stands anywhere
/// else.
pub proof fn lemma_padding(b: Seq<u8>)
    ensures
        forall|j: int|
            0 <= j < encode(b).len() ==> (#[trigger] encode(b)[j] == '=' <==> j >= encode(b).len()
                - padding(b.len())),
        b.len() % 3 == 0 ==> padding(b.len()) == 0,
        b.len() % 3 == 1 ==> padding(b.len()) == 2,
        b.len() % 3 == 2 ==> padding(b.len()) == 1,
{
    let t = encode(b);
    assert forall|j: int| 0 <= j < t.len() implies (#[trigger] t[j] == '=' <==> j >= t.len()
        - padding(b.len())) by {
        lemma_sextet_range(b, j / 4, j % 4);
        lemma_symbol_in_alphabet(sextet(group_bits(b, j / 4), j % 4));
    }
}

/// Base64 text, made only by encoding a buffer.
#[derive(Debug)]
pub struct Base64(String);

impl View for Base64 {
    type V = Seq<char>;

    closed spec fn view(&self) -> Seq<char> {
        self.0@
    }
}

impl Base64 {
    #[verifier::type_invariant]
    spec fn well_formed(&self) -> bool {
        is_base64_text(self.0@)
    }

    /// The four characters for one group of one, two or three octets.
    pub fn bin_to_b64(b: &[u8]) -> (r: String)
        requires
            1 <= b@.len() <= 3,
        ensures
            r@ == encode(b@),
    {
        let mut r = String::new();
        if b.len() == 3 {
            let b0: u8 = b[0];
            let b1: u8 = b[1];
            let b2: u8 = b[2];
            let w: u8 = b0 >> 2;
            let x: u8 = ((b0 & 0x03) << 4) | ((b1 & 0xF0) >> 4);
            let y: u8 = ((b1 & 0x0F) << 2) | ((b2 & 0xC0) >> 6);
            let z: u8 = b2 & 0x3F;
            proof {
                lemma_shifts_are_digits(b0, b1, b2);
            }
            r.push(Base64::bin_to_char(w));
            r.push(Base64::bin_to_char(x));
            r.push(Base64::bin_to_char(y));
            r.push(Base64::bin_to_char(z));
        } else if b.len() == 2 {
            let b0: u8 = b[0];
            let b1: u8 = b[1];
            let w: u8 = b0 >> 2;
            let x: u8 = ((b0 & 0x03) << 4) | ((b1 & 0xF0) >> 4);
            let y: u8 = (b1 & 0x0F) << 2;
            proof {
                lemma_shifts_are_digits(b0, b1, 0);
            }
            r.push(Base64::bin_to_char(w));
            r.push(Base64::bin_to_char(x));
            r.push(Base64::bin_to_char(y));
            r.push('=');
        } else {
            let b0: u8 = b[0];
            let w: u8 = b0 >> 2;
            let x: u8 = (b0 & 0x03) << 4;
            proof {
                lemma_shifts_are_digits(b0, 0, 0);
            }
            r.push(Base64::bin_to_char(w));
            r.push(Base64::bin_to_char(x));
            r.push('=');
            r.push('=');
        }
        r
    }

    /// The character of the alphabet for a six-bit value.
    pub fn bin_to_char(c: u8) -> (r: char)
        requires
            c <= 63,
        ensures
            r == symbol(c as int),
    {
        if c <= 25 {
            (c + 'A' as u8) as char
        } else if c >= 26 && c <= 51 {
            (c - 26 + 'a' as u8) as char
        } else if c >= 52 && c <= 61 {
            (c - 52 + '0' as u8) as char
        } else if c == 62 {
            '+'
        } else {
            '/'
        }
    }

    /// The text as a string of its own.
    pub fn to_string(&self) -> (r: String)
        ensures
            r@ == self@,
            is_base64_text(r@),
    {
        proof {
            use_type_invariant(self);
        }
        self.0.clone()
    }
}

impl From<&Bytestring> for Base64 {
    /// The base64 text of the buffer.
    fn from(b: &Bytestring) -> (r: Base64)
        ensures
            r@ == encode(b@),
            is_base64_text(r@),
    {
        let bytes = b.as_ref();
        let n = bytes.len();
        let mut s = String::new();
        let mut i: usize = 0;
        while i < n
            invariant
                bytes@ == b@,
                n == bytes@.len(),
                i <= n,
                i == n || i % 3 == 0,
                s@ == encode(b@).subrange(0, 4 * ((i + 2) / 3)),
            decreases n - i,
        {
            let end: usize = if n - i >= 3 { i + 3 } else { n };
            let group = Base64::bin_to_b64(slice_subrange(bytes, i, end));
            proof {
                lemma_encode_group(b@, i as int / 3);
            }
            s.append(group.as_str());
            i = end;
        }
        proof {
            lemma_encode_shape(b@);
        }
        Base64(s)
    }
}

impl FromSpecImpl<&Bytestring> for Base64 {
    open spec fn obeys_from_spec() -> bool {
        false
    }

    open spec fn from_spec(b: &Bytestring) -> Base64 {
        arbitrary()
    }
}

} // verus!
