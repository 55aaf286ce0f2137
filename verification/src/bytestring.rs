//! The byte buffer: an immutable sequence of octets that every other value
//! converts to and from.

use vstd::prelude::*;
use vstd::std_specs::cmp::PartialEqSpecImpl;
use vstd::std_specs::convert::FromSpecImpl;

use crate::cryptostring::{Score, Xor};
use crate::likeness::score_octets;
use crate::ratio::Ratio;

verus! {

/// The bytewise XOR of two buffers, as long as the shorter of the two: what
/// the longer one has beyond that is dropped.
pub open spec fn xor_octets(a: Seq<u8>, b: Seq<u8>) -> Seq<u8> {
    Seq::new(
        if a.len() <= b.len() {
            a.len()
        } else {
            b.len()
        },
        |i: int| a[i] ^ b[i],
    )
}

/// The buffer of `len` octets that all hold `key`.
pub open spec fn repeated(key: u8, len: nat) -> Seq<u8> {
    Seq::new(len, |i: int| key)
}

/// The XOR of every octet of `a` with the one octet `key`.
pub open spec fn xor_key(a: Seq<u8>, key: u8) -> Seq<u8> {
    Seq::new(a.len(), |i: int| a[i] ^ key)
}

/// The octet that a character gives: its number, where that lies below 256.
/// A character from 256 up does not fit an octet, and gives the low eight
/// bits of its number.
pub open spec fn octet_of(c: char) -> u8 {
    (c as int % 256) as u8
}

/// Whether every character of `t` has a number below 256.
pub open spec fn fits_octets(t: Seq<char>) -> bool {
    forall|i: int| 0 <= i < t.len() ==> ((#[trigger] t[i]) as int) < 256
}

/// The buffer of a text: for every character one octet.
pub open spec fn octets_of(t: Seq<char>) -> Seq<u8> {
    Seq::new(t.len(), |i: int| octet_of(t[i]))
}

/// The text of a buffer: for every octet the character with the same number.
pub open spec fn text_of(b: Seq<u8>) -> Seq<char> {
    Seq::new(b.len(), |i: int| b[i] as char)
}

/// Combining twice with the same buffer of equal length gives the first
/// buffer back.
pub proof fn lemma_xor_involution(x: Seq<u8>, y: Seq<u8>)
    requires
        x.len() == y.len(),
    ensures
        xor_octets(xor_octets(x, y), y) == x,
{
    assert forall|i: int| 0 <= i < x.len() implies xor_octets(xor_octets(x, y), y)[i] == x[i] by {
        let a = x[i];
        let b = y[i];
        assert((a ^ b) ^ b == a) by (bit_vector);
    }
}

/// A buffer combined with itself is all zero.
pub proof fn lemma_xor_self(x: Seq<u8>)
    ensures
        xor_octets(x, x) == repeated(0, x.len()),
{
    assert forall|i: int| 0 <= i < x.len() implies xor_octets(x, x)[i] == 0 by {
        let a = x[i];
        assert(a ^ a == 0) by (bit_vector);
    }
}

/// Two empty buffers combine to the empty buffer.
pub proof fn lemma_xor_empty()
    ensures
        xor_octets(Seq::<u8>::empty(), Seq::<u8>::empty()) == Seq::<u8>::empty(),
{
}

/// Combining with one octet is combining with a buffer of the same length
/// in which the octet is repeated.
pub proof fn lemma_xor_key_repeats(a: Seq<u8>, key: u8)
    ensures
        xor_key(a, key) == xor_octets(a, repeated(key, a.len())),
{
}

/// Combining twice with the same octet gives the buffer back.
pub proof fn lemma_xor_key_involution(a: Seq<u8>, key: u8)
    ensures
        xor_key(xor_key(a, key), key) == a,
{
    assert forall|i: int| 0 <= i < a.len() implies xor_key(xor_key(a, key), key)[i] == a[i] by {
        let x = a[i];
        assert((x ^ key) ^ key == x) by (bit_vector);
    }
}

/// Combining with the octet zero changes nothing.
pub proof fn lemma_xor_key_zero(a: Seq<u8>)
    ensures
        xor_key(a, 0) == a,
{
    assert forall|i: int| 0 <= i < a.len() implies xor_key(a, 0)[i] == a[i] by {
        let x = a[i];
        assert(x ^ 0 == x) by (bit_vector);
    }
}

/// The octet of a character holds the low eight bits of its number: the
/// number itself where it lies below 256, and then the octet's character is
/// the character again.
pub proof fn lemma_octet_of(c: char)
    ensures
        octet_of(c) as int == c as u32 % 256,
        (c as int) < 256 ==> octet_of(c) as int == c as int && octet_of(c) as char == c,
{
}

/// Text whose characters all fit an octet comes back unchanged from the
/// buffer that was made of it, and each octet of that buffer holds the number
/// of its character.
pub proof fn lemma_text_round_trip(t: Seq<char>)
    requires
        fits_octets(t),
    ensures
        forall|i: int| 0 <= i < t.len() ==> #[trigger] octets_of(t)[i] as int == t[i] as int,
        text_of(octets_of(t)) == t,
{
    assert forall|i: int| 0 <= i < t.len() implies #[trigger] text_of(octets_of(t))[i]
        == t[i] by {
        lemma_octet_of(t[i]);
    }
    assert forall|i: int| 0 <= i < t.len() implies #[trigger] octets_of(t)[i] as int
        == t[i] as int by {
        lemma_octet_of(t[i]);
    }
}

/// An ordered, immutable sequence of octets of any length.
#[derive(Debug)]
pub struct Bytestring(Vec<u8>);

impl View for Bytestring {
    type V = Seq<u8>;

    closed spec fn view(&self) -> Seq<u8> {
        self.0@
    }
}

impl Clone for Bytestring {
    /// A buffer with the same octets.
    fn clone(&self) -> (r: Bytestring)
        ensures
            r@ == self@,
    {
        Bytestring(self.0.clone())
    }
}

impl PartialEq for Bytestring {
    /// Whether the two buffers hold the same octets.
    fn eq(&self, other: &Bytestring) -> (r: bool) {
        let a = self.as_ref();
        let b = other.as_ref();
        if a.len() != b.len() {
            return false;
        }
        let n = a.len();
        let mut i: usize = 0;
        while i < n
            invariant
                a@ == self@,
                b@ == other@,
                n == a@.len(),
                n == b@.len(),
                i <= n,
                forall|j: int| 0 <= j < i ==> a@[j] == b@[j],
            decreases n - i,
        {
            if a[i] != b[i] {
                return false;
            }
            i += 1;
        }
        assert(self@ =~= other@);
        true
    }
}

impl PartialEqSpecImpl for Bytestring {
    open spec fn obeys_eq_spec() -> bool {
        true
    }

    open spec fn eq_spec(&self, other: &Bytestring) -> bool {
        self@ == other@
    }
}

impl Eq for Bytestring {}

impl From<&Vec<u8>> for Bytestring {
    /// A buffer holding a copy of `b`.
    fn from(b: &Vec<u8>) -> (r: Bytestring)
        ensures
            r@ == b@,
    {
        Bytestring(b.clone())
    }
}

impl FromSpecImpl<&Vec<u8>> for Bytestring {
    open spec fn obeys_from_spec() -> bool {
        false
    }

    open spec fn from_spec(b: &Vec<u8>) -> Bytestring {
        arbitrary()
    }
}

impl From<&str> for Bytestring {
    /// One octet for every character of `s`, holding the character's number.
    /// Text whose characters all lie below 256 comes back unchanged from
    /// `to_string`.
    fn from(s: &str) -> (r: Bytestring)
        ensures
            r@ == octets_of(s@),
            r@.len() == s@.len(),
            fits_octets(s@) ==> forall|i: int|
                0 <= i < s@.len() ==> #[trigger] r@[i] as int == s@[i] as int,
            fits_octets(s@) ==> text_of(r@) == s@,
    {
        let mut v: Vec<u8> = Vec::new();
        for c in it: s.chars()
            invariant
                it.seq() == s@,
                v@ == octets_of(s@).subrange(0, it.index() as int),
        {
            proof {
                lemma_octet_of(c);
            }
            v.push((c as u32 % 256) as u8);
        }
        proof {
            if fits_octets(s@) {
                lemma_text_round_trip(s@);
            }
        }
        Bytestring(v)
    }
}

impl FromSpecImpl<&str> for Bytestring {
    open spec fn obeys_from_spec() -> bool {
        false
    }

    open spec fn from_spec(s: &str) -> Bytestring {
        arbitrary()
    }
}

impl Bytestring {
    /// A read-only look at the octets.
    pub fn as_ref(&self) -> (r: &[u8])
        ensures
            r@ == self@,
    {
        self.0.as_slice()
    }

    /// The text of the buffer: one character for each octet, the one with
    /// the octet's number.
    pub fn to_string(&self) -> (r: String)
        ensures
            r@ == text_of(self@),
    {
        let n = self.0.len();
        let mut r = String::new();
        let mut i: usize = 0;
        while i < n
            invariant
                n == self@.len(),
                i <= n,
                r@ == text_of(self@).subrange(0, i as int),
            decreases n - i,
        {
            r.push(self.0[i] as char);
            i += 1;
        }
        r
    }
}

impl Xor<Bytestring> for Bytestring {
    open spec fn octets(&self) -> Seq<u8> {
        self@
    }

    open spec fn xor_defined(&self, other: &Bytestring) -> bool {
        true
    }

    open spec fn combined(&self, other: &Bytestring) -> Seq<u8> {
        xor_octets(self@, other@)
    }

    /// The bytewise XOR of the two buffers, cut to the shorter of them.
    fn xor(&self, other: &Bytestring) -> (out: Bytestring)
        ensures
            out@ == xor_octets(self@, other@),
    {
        let a = self.as_ref();
        let b = other.as_ref();
        let n = if a.len() <= b.len() {
            a.len()
        } else {
            b.len()
        };
        let mut v: Vec<u8> = Vec::new();
        let mut i: usize = 0;
        while i < n
            invariant
                a@ == self@,
                b@ == other@,
                n <= a@.len(),
                n <= b@.len(),
                n == xor_octets(self@, other@).len(),
                i <= n,
                v@ == xor_octets(self@, other@).subrange(0, i as int),
            decreases n - i,
        {
            v.push(a[i] ^ b[i]);
            i += 1;
        }
        Bytestring(v)
    }
}

impl Xor<u8> for Bytestring {
    open spec fn octets(&self) -> Seq<u8> {
        self@
    }

    open spec fn xor_defined(&self, other: &u8) -> bool {
        true
    }

    open spec fn combined(&self, other: &u8) -> Seq<u8> {
        xor_key(self@, *other)
    }

    /// Every octet of the buffer combined with the one octet `other`.
    fn xor(&self, other: &u8) -> (out: Bytestring)
        ensures
            out@ == xor_key(self@, *other),
    {
        let n = self.0.len();
        let mut s: Vec<u8> = Vec::new();
        let mut i: usize = 0;
        while i < n
            invariant
                n == self@.len(),
                i <= n,
                s@ == repeated(*other, i as nat),
            decreases n - i,
        {
            s.push(*other);
            i += 1;
        }
        proof {
            lemma_xor_key_repeats(self@, *other);
        }
        Xor::<Bytestring>::xor(self, &Bytestring(s))
    }
}

impl Score for Bytestring {
    open spec fn scored(&self) -> Seq<u8> {
        self@
    }

    open spec fn score_defined(&self) -> bool {
        self@.len() > 0
    }

    /// The score of the octets of the buffer, which must not be empty.
    fn score(&self) -> (r: Ratio) {
        score_octets(self.as_ref())
    }
}

} // verus!
