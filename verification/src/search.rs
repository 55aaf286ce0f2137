//! The search for the single octet that a buffer of English text was combined
//! with.

use vstd::prelude::*;

use crate::bytestring::{lemma_xor_key_zero, xor_key, Bytestring};
use crate::cryptostring::{Score, Xor};
use crate::likeness::{lemma_score_of_nothing, score_denom, score_numer, scores_lower};
use crate::ratio::lemma_lt_same_denom;

verus! {

/// How many keys the search tries: the keys 0 to 254. Key 0 leaves the
/// buffer as it stands.
pub open spec fn key_count() -> int {
    255
}

/// What the buffer becomes under the key `key`.
pub open spec fn candidate(cipher: Seq<u8>, key: int) -> Seq<u8> {
    xor_key(cipher, key as u8)
}

/// Whether `key` is the key that the search settles on: the first of the
/// keys whose candidate no other key's candidate scores lower than. Its
/// candidate scores strictly lower than that of every key before it, and
/// none after it scores strictly lower.
pub open spec fn is_first_best(cipher: Seq<u8>, key: int) -> bool {
    &&& 0 <= key < key_count()
    &&& forall|j: int|
        0 <= j < key ==> scores_lower(candidate(cipher, key), #[trigger] candidate(cipher, j))
    &&& forall|j: int|
        key < j < key_count() ==> !scores_lower(
            #[trigger] candidate(cipher, j),
            candidate(cipher, key),
        )
}

/// Between buffers of one length above zero, the lower numerator is the
/// lower score.
pub proof fn lemma_scores_lower_same_len(a: Seq<u8>, b: Seq<u8>)
    requires
        a.len() == b.len(),
        a.len() > 0,
    ensures
        scores_lower(a, b) <==> score_numer(a) < score_numer(b),
{
    let d = score_denom(a);
    let x = score_numer(a);
    let y = score_numer(b);
    assert(x * d < y * d <==> x < y) by (nonlinear_arith)
        requires
            d > 0,
    ;
}

/// At most one key is the first best.
pub proof fn lemma_first_best_unique(cipher: Seq<u8>, k1: int, k2: int)
    requires
        is_first_best(cipher, k1),
        is_first_best(cipher, k2),
    ensures
        k1 == k2,
{
    if k1 < k2 {
        assert(!scores_lower(candidate(cipher, k2), candidate(cipher, k1)));
    } else if k2 < k1 {
        assert(!scores_lower(candidate(cipher, k1), candidate(cipher, k2)));
    }
}

/// The key that the search settles on.
pub open spec fn first_best(cipher: Seq<u8>) -> int {
    choose|key: int| is_first_best(cipher, key)
}

/// A key that is the first best is the one that `first_best` names.
pub proof fn lemma_first_best_is_chosen(cipher: Seq<u8>, key: int)
    requires
        is_first_best(cipher, key),
    ensures
        first_best(cipher) == key,
{
    lemma_first_best_unique(cipher, key, first_best(cipher));
}

/// What a search found: the key, and the buffer under that key.
#[derive(Debug)]
pub struct Found {
    pub key: u8,
    pub text: Bytestring,
}

/// Tries the keys 0 to 254 and keeps the first whose candidate scores
/// lowest: the buffer as it stands is the one to beat, and a later key
/// replaces an earlier one only with a strictly lower score. In an empty
/// buffer there is nothing to score, and it comes back as it is, under
/// key 0.
pub fn search_key(cipher: &Bytestring) -> (found: Found)
    ensures
        is_first_best(cipher@, found.key as int),
        found.key == first_best(cipher@),
        found.text@ == xor_key(cipher@, found.key),
{
    if cipher.as_ref().len() == 0 {
        proof {
            lemma_xor_key_zero(cipher@);
            assert forall|j: int| 0 < j < key_count() implies !scores_lower(
                #[trigger] candidate(cipher@, j),
                candidate(cipher@, 0),
            ) by {
                let a = candidate(cipher@, j);
                let b = candidate(cipher@, 0);
                lemma_score_of_nothing(a, 256);
                assert(score_numer(a) * score_denom(b) == 0) by (nonlinear_arith)
                    requires
                        score_numer(a) == 0,
                ;
                assert(score_numer(b) * score_denom(a) == 0) by (nonlinear_arith)
                    requires
                        score_denom(a) == 0,
                ;
            }
            lemma_first_best_is_chosen(cipher@, 0);
        }
        return Found { key: 0, text: cipher.clone() };
    }
    let mut best = cipher.clone();
    let mut best_score = cipher.score();
    let mut best_key: u8 = 0;
    proof {
        lemma_xor_key_zero(cipher@);
    }
    let mut i: u8 = 1;
    while i < 255
        invariant
            cipher@.len() > 0,
            1 <= i <= 255,
            best_key < i,
            best@ == candidate(cipher@, best_key as int),
            best_score.numer == score_numer(best@),
            best_score.denom == score_denom(best@),
            forall|j: int|
                0 <= j < best_key ==> score_numer(candidate(cipher@, best_key as int))
                    < score_numer(#[trigger] candidate(cipher@, j)),
            forall|j: int|
                best_key < j < i ==> score_numer(candidate(cipher@, best_key as int))
                    <= score_numer(#[trigger] candidate(cipher@, j)),
        decreases 255 - i,
    {
        let xord = cipher.xor(&i);
        let score = xord.score();
        proof {
            lemma_lt_same_denom(score, best_score);
        }
        if score.lt(&best_score) {
            best = xord;
            best_score = score;
            best_key = i;
        }
        i += 1;
    }
    proof {
        let k = best_key as int;
        assert forall|j: int| 0 <= j < k implies scores_lower(
            candidate(cipher@, k),
            #[trigger] candidate(cipher@, j),
        ) by {
            lemma_scores_lower_same_len(candidate(cipher@, k), candidate(cipher@, j));
        }
        assert forall|j: int| k < j < key_count() implies !scores_lower(
            #[trigger] candidate(cipher@, j),
            candidate(cipher@, k),
        ) by {
            lemma_scores_lower_same_len(candidate(cipher@, j), candidate(cipher@, k));
        }
        lemma_first_best_is_chosen(cipher@, k);
    }
    Found { key: best_key, text: best }
}

} // verus!
