//! The two capabilities of a value that converts to a byte buffer: combining
//! by XOR, and scoring as English text.

use vstd::prelude::*;

use crate::likeness::{score_denom, score_numer};
use crate::ratio::Ratio;

verus! {

/// Bytewise XOR with a value of type `T`.
pub trait Xor<T>: Sized {
    /// The buffer that this value converts to.
    spec fn octets(&self) -> Seq<u8>;

    /// Whether `self` can be combined with `other`.
    spec fn xor_defined(&self, other: &T) -> bool;

    /// The buffer under the combination of `self` with `other`.
    spec fn combined(&self, other: &T) -> Seq<u8>;

    /// A new value of the same kind whose buffer is the XOR of the two.
    fn xor(&self, other: &T) -> (out: Self)
        requires
            self.xor_defined(other),
        ensures
            out.octets() == self.combined(other),
    ;
}

/// The English-likeness score of a value's octets.
pub trait Score {
    /// The buffer that is scored.
    spec fn scored(&self) -> Seq<u8>;

    /// Whether the value has a score.
    spec fn score_defined(&self) -> bool;

    /// The score, as an exact ratio. Lower is closer to English.
    fn score(&self) -> (r: Ratio)
        requires
            self.score_defined(),
        ensures
            r.numer == score_numer(self.scored()),
            r.denom == score_denom(self.scored()),
    ;
}

} // verus!
