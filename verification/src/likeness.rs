//! The English-likeness score: how far the octets of a buffer stand from the
//! letter frequencies of English. Lower is closer.
//!
//! For every value that occurs in the buffer, the score takes the distance
//! between its count over the length of the buffer and the frequency expected
//! of it, and adds these up. The expected frequency of a letter is a
//! percentage; the count over the length is a fraction of one. The two are
//! compared as they stand.
//!
//! Quantities are held in thousandths, so that every entry of the frequency
//! table is a whole number, and the score is an exact ratio of whole numbers.

use std::collections::HashMap;
use vstd::prelude::*;

use crate::ratio::Ratio;

verus! {

broadcast use vstd::std_specs::hash::group_hash_axioms;

/// The expected frequencies of the letters `a` to `z` in English, in
/// thousandths of a percent.
pub open spec fn letter_table() -> Seq<int> {
    seq![
        8200, 1500, 2800, 4300, 13000, 2200, 2000, 6100, 7000, 150, 770, 4000, 2500,
        6700, 7500, 1900, 95, 6000, 6300, 9100, 2800, 980, 2400, 150, 2000, 74,
    ]
}

/// What is expected of a character that is no letter, in thousandths: so
/// much that every such character costs the score about a hundred.
pub open spec fn penalty() -> int {
    100000
}

/// The expected frequency of a character, in thousandths: that of its letter
/// whatever the case, and the penalty for everything else.
pub open spec fn expected(c: char) -> int {
    if 'a' <= c <= 'z' {
        letter_table()[c as int - 'a' as int]
    } else if 'A' <= c <= 'Z' {
        letter_table()[c as int - 'A' as int]
    } else {
        penalty()
    }
}

/// How often the value `v` occurs in `s`.
pub open spec fn occurrences(s: Seq<u8>, v: u8) -> nat
    decreases s.len(),
{
    if s.len() == 0 {
        0
    } else {
        occurrences(s.drop_last(), v) + if s.last() == v {
            1nat
        } else {
            0nat
        }
    }
}

/// How far the value `v` stands from what is expected of it, in thousandths
/// and times the length of `s`: the distance between its count over the
/// length and its expected frequency. A value that does not occur counts
/// nothing.
pub open spec fn deviation(s: Seq<u8>, v: u8) -> int {
    if occurrences(s, v) == 0 {
        0
    } else {
        let seen = 1000 * occurrences(s, v);
        let due = expected(v as char) * s.len();
        if seen >= due {
            seen - due
        } else {
            due - seen
        }
    }
}

/// The deviations of all values below `n`, added up.
pub open spec fn deviation_below(s: Seq<u8>, n: int) -> int
    decreases n,
{
    if n <= 0 {
        0
    } else {
        deviation_below(s, n - 1) + deviation(s, (n - 1) as u8)
    }
}

/// The numerator of the score of `s`: the deviations of all 256 values.
pub open spec fn score_numer(s: Seq<u8>) -> int {
    deviation_below(s, 256)
}

/// The denominator of the score of `s`.
pub open spec fn score_denom(s: Seq<u8>) -> int {
    1000 * (s.len() as int)
}

/// Whether `a` scores strictly lower than `b`.
pub open spec fn scores_lower(a: Seq<u8>, b: Seq<u8>) -> bool {
    score_numer(a) * score_denom(b) < score_numer(b) * score_denom(a)
}

/// No value occurs more often than the sequence is long.
pub proof fn lemma_occurrences_bound(s: Seq<u8>, v: u8)
    ensures
        occurrences(s, v) <= s.len(),
    decreases s.len(),
{
    if s.len() > 0 {
        lemma_occurrences_bound(s.drop_last(), v);
    }
}

/// In an empty buffer no value occurs, and no deviation adds up.
pub proof fn lemma_score_of_nothing(s: Seq<u8>, n: int)
    requires
        s.len() == 0,
    ensures
        deviation_below(s, n) == 0,
    decreases n,
{
    if n > 0 {
        lemma_score_of_nothing(s, n - 1);
    }
}

/// Every expected frequency lies between 74 and 100000 thousandths.
pub proof fn lemma_expected_range(c: char)
    ensures
        74 <= expected(c) <= 100000,
{
    let t = letter_table();
    assert forall|i: int| 0 <= i < 26 implies 74 <= #[trigger] t[i] <= 13000 by {}
}

/// A deviation is at most 101000 times the length.
pub proof fn lemma_deviation_bound(s: Seq<u8>, v: u8)
    ensures
        0 <= deviation(s, v) <= 101000 * s.len(),
{
    lemma_occurrences_bound(s, v);
    lemma_expected_range(v as char);
    let e = expected(v as char);
    let n = s.len() as int;
    assert(0 <= e * n <= 100000 * n) by (nonlinear_arith)
        requires
            0 <= e <= 100000,
            0 <= n,
    ;
}

/// The expected frequency of a character, in thousandths.
pub fn char_score(c: char) -> (r: u32)
    ensures
        r == expected(c),
        74 <= r <= 100000,
{
    proof {
        lemma_expected_range(c);
    }
    match c {
        'a' | 'A' => 8200,
        'b' | 'B' => 1500,
        'c' | 'C' => 2800,
        'd' | 'D' => 4300,
        'e' | 'E' => 13000,
        'f' | 'F' => 2200,
        'g' | 'G' => 2000,
        'h' | 'H' => 6100,
        'i' | 'I' => 7000,
        'j' | 'J' => 150,
        'k' | 'K' => 770,
        'l' | 'L' => 4000,
        'm' | 'M' => 2500,
        'n' | 'N' => 6700,
        'o' | 'O' => 7500,
        'p' | 'P' => 1900,
        'q' | 'Q' => 95,
        'r' | 'R' => 6000,
        's' | 'S' => 6300,
        't' | 'T' => 9100,
        'u' | 'U' => 2800,
        'v' | 'V' => 980,
        'w' | 'W' => 2400,
        'x' | 'X' => 150,
        'y' | 'Y' => 2000,
        'z' | 'Z' => 74,
        _ => 100000,
    }
}

/// How often each value occurs in `s`: a map from every value that occurs to
/// its count.
pub fn count_values(s: &[u8]) -> (counts: HashMap<u8, usize>)
    ensures
        forall|v: u8| #[trigger] counts@.contains_key(v) <==> occurrences(s@, v) > 0,
        forall|v: u8| counts@.contains_key(v) ==> #[trigger] counts@[v] == occurrences(s@, v),
{
    let mut counts: HashMap<u8, usize> = HashMap::new();
    let n = s.len();
    let mut i: usize = 0;
    while i < n
        invariant
            n == s@.len(),
            i <= n,
            forall|v: u8|
                #[trigger] counts@.contains_key(v) <==> occurrences(s@.take(i as int), v) > 0,
            forall|v: u8|
                counts@.contains_key(v) ==> #[trigger] counts@[v] == occurrences(
                    s@.take(i as int),
                    v,
                ),
        decreases n - i,
    {
        let b: u8 = s[i];
        proof {
            lemma_occurrences_bound(s@.take(i as int), b);
            assert(s@.take(i + 1).drop_last() == s@.take(i as int));
        }
        let seen: usize = match counts.get(&b) {
            Some(count) => *count,
            None => 0,
        };
        counts.insert(b, seen + 1);
        i += 1;
    }
    proof {
        assert(s@.take(n as int) == s@);
    }
    counts
}

/// The score of the octets `s`: for every value that occurs, the distance
/// between its count over the length and its expected frequency, all added
/// up. An empty buffer has no score.
pub fn score_octets(s: &[u8]) -> (r: Ratio)
    requires
        s@.len() > 0,
    ensures
        r.numer == score_numer(s@),
        r.denom == score_denom(s@),
        r.denom > 0,
{
    let counts = count_values(s);
    let len: u128 = s.len() as u128;
    let mut numer: u128 = 0;
    let mut v: usize = 0;
    while v < 256
        invariant
            v <= 256,
            len == s@.len(),
            len > 0,
            len <= 0xFFFF_FFFF_FFFF_FFFF,
            forall|w: u8| #[trigger] counts@.contains_key(w) <==> occurrences(s@, w) > 0,
            forall|w: u8| counts@.contains_key(w) ==> #[trigger] counts@[w] == occurrences(s@, w),
            numer == deviation_below(s@, v as int),
            numer <= v * 1_863_121_151_444_664_713_115_000,
        decreases 256 - v,
    {
        let value: u8 = v as u8;
        proof {
            lemma_deviation_bound(s@, value);
            lemma_occurrences_bound(s@, value);
        }
        match counts.get(&value) {
            Some(count) => {
                let seen: u128 = 1000 * (*count as u128);
                let due_each: u128 = char_score(value as char) as u128;
                assert(due_each * len <= 100000 * 0xFFFF_FFFF_FFFF_FFFF) by (nonlinear_arith)
                    requires
                        due_each <= 100000,
                        len <= 0xFFFF_FFFF_FFFF_FFFF,
                ;
                let due: u128 = due_each * len;
                let gap: u128 = if seen >= due {
                    seen - due
                } else {
                    due - seen
                };
                numer = numer + gap;
            },
            None => {},
        }
        v += 1;
    }
    Ratio { numer, denom: 1000 * len }
}

} // verus!
