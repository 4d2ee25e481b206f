//! Bit-level model of the shift protocol: which bit of a word goes out at
//! each step (MSB first), the bitstream of a whole buffer, and how sampled
//! levels are merged back into a word.

use vstd::prelude::*;

verus! {

/// Bit `i` of `w` in transmission order: `i == 0` is the most significant
/// bit, `i == 7` the least significant.
pub open spec fn bit_of(w: u8, i: int) -> bool {
    (w >> ((7 - i) as u8)) & 1 == 1
}

/// The MSB-first bitstream of a word sequence: bit `k` of the stream is
/// bit `k % 8` of word `k / 8`.
pub open spec fn bits_of(words: Seq<u8>) -> Seq<bool> {
    Seq::new(words.len() * 8, |k: int| bit_of(words[k / 8], k % 8))
}

/// `w` with its bit at transmission position `i` forced to `v`.
pub open spec fn set_bit(w: u8, i: int, v: bool) -> u8 {
    if v {
        w | (1u8 << ((7 - i) as u8))
    } else {
        w & !(1u8 << ((7 - i) as u8))
    }
}

/// `w` after merging in the samples `s` taken for it, in transmission
/// order: bit `i` becomes `s[i]` for `i < s.len()`, later bits keep the
/// value the word already had.
pub open spec fn merged(w: u8, s: Seq<bool>) -> u8
    decreases s.len(),
{
    if s.len() == 0 {
        w
    } else {
        set_bit(merged(w, s.drop_last()), s.len() - 1, s.last())
    }
}

/// The share of the global sample stream `s` that falls on word `j`:
/// at most eight samples starting at position `8 * j`.
pub open spec fn word_samples(s: Seq<bool>, j: int) -> Seq<bool> {
    if s.len() <= 8 * j {
        Seq::empty()
    } else if s.len() >= 8 * j + 8 {
        s.subrange(8 * j, 8 * j + 8)
    } else {
        s.subrange(8 * j, s.len() as int)
    }
}

/// The buffer after a transfer whose successful samples, in order, were
/// `s`: each word has its leading bits replaced by its share of `s` and
/// keeps the rest; words wholly after the samples are untouched.
pub open spec fn transfer_result(words: Seq<u8>, s: Seq<bool>) -> Seq<u8> {
    Seq::new(words.len(), |j: int| merged(words[j], word_samples(s, j)))
}

pub proof fn lemma_bits_of_index(words: Seq<u8>, j: int, i: int)
    requires
        0 <= j < words.len(),
        0 <= i < 8,
    ensures
        bits_of(words)[8 * j + i] == bit_of(words[j], i),
{
    assert((8 * j + i) / 8 == j && (8 * j + i) % 8 == i) by (nonlinear_arith)
        requires
            0 <= i < 8,
            0 <= j,
    ;
}

proof fn lemma_bv_test(w: u8, s: u8)
    requires
        s < 8,
    ensures
        (w & (1u8 << s) != 0) == ((w >> s) & 1 == 1),
{
    assert((w & (1u8 << s) != 0) == ((w >> s) & 1 == 1)) by (bit_vector)
        requires
            s < 8,
    ;
}

/// Testing a word against the transmission-order mask `1 << (7 - i)` reads
/// exactly the bit that `bit_of` denotes.
pub proof fn lemma_mask_test(w: u8, i: int)
    requires
        0 <= i < 8,
    ensures
        (w & (1u8 << ((7 - i) as u8)) != 0) == bit_of(w, i),
{
    lemma_bv_test(w, (7 - i) as u8);
}

proof fn lemma_bv_or_get(w: u8, s: u8, t: u8)
    requires
        s < 8,
        t < 8,
    ensures
        (((w | (1u8 << s)) >> t) & 1 == 1) == (s == t || (w >> t) & 1 == 1),
{
    assert((((w | (1u8 << s)) >> t) & 1 == 1) == (s == t || (w >> t) & 1 == 1)) by (bit_vector)
        requires
            s < 8,
            t < 8,
    ;
}

proof fn lemma_bv_and_get(w: u8, s: u8, t: u8)
    requires
        s < 8,
        t < 8,
    ensures
        (((w & !(1u8 << s)) >> t) & 1 == 1) == (s != t && (w >> t) & 1 == 1),
{
    assert((((w & !(1u8 << s)) >> t) & 1 == 1) == (s != t && (w >> t) & 1 == 1)) by (bit_vector)
        requires
            s < 8,
            t < 8,
    ;
}

/// Forcing bit `i` leaves every other bit alone and sets bit `i` to `v`.
pub proof fn lemma_set_bit_effect(w: u8, i: int, j: int, v: bool)
    requires
        0 <= i < 8,
        0 <= j < 8,
    ensures
        bit_of(set_bit(w, i, v), j) == (if i == j { v } else { bit_of(w, j) }),
{
    let s = (7 - i) as u8;
    let t = (7 - j) as u8;
    if v {
        lemma_bv_or_get(w, s, t);
    } else {
        lemma_bv_and_get(w, s, t);
    }
}

/// Two words with the same bits at every transmission position are equal.
pub proof fn lemma_u8_eq_by_bits(a: u8, b: u8)
    requires
        forall|i: int| 0 <= i < 8 ==> bit_of(a, i) == bit_of(b, i),
    ensures
        a == b,
{
    assert(bit_of(a, 0) == bit_of(b, 0));
    assert(bit_of(a, 1) == bit_of(b, 1));
    assert(bit_of(a, 2) == bit_of(b, 2));
    assert(bit_of(a, 3) == bit_of(b, 3));
    assert(bit_of(a, 4) == bit_of(b, 4));
    assert(bit_of(a, 5) == bit_of(b, 5));
    assert(bit_of(a, 6) == bit_of(b, 6));
    assert(bit_of(a, 7) == bit_of(b, 7));
    assert(a == b) by (bit_vector)
        requires
            ((a >> 7u8) & 1 == 1) == ((b >> 7u8) & 1 == 1),
            ((a >> 6u8) & 1 == 1) == ((b >> 6u8) & 1 == 1),
            ((a >> 5u8) & 1 == 1) == ((b >> 5u8) & 1 == 1),
            ((a >> 4u8) & 1 == 1) == ((b >> 4u8) & 1 == 1),
            ((a >> 3u8) & 1 == 1) == ((b >> 3u8) & 1 == 1),
            ((a >> 2u8) & 1 == 1) == ((b >> 2u8) & 1 == 1),
            ((a >> 1u8) & 1 == 1) == ((b >> 1u8) & 1 == 1),
            ((a >> 0u8) & 1 == 1) == ((b >> 0u8) & 1 == 1),
    ;
}

/// Appending the next transmitted bit to a trace that holds the first
/// `8 * j + i` bits of the stream yields the first `8 * j + i + 1` bits.
pub proof fn lemma_bits_step(t: Seq<bool>, words: Seq<u8>, j: int, i: int)
    requires
        0 <= j < words.len(),
        0 <= i < 8,
    ensures
        (t + bits_of(words).take(8 * j + i)).push(bit_of(words[j], i)) == t + bits_of(
            words,
        ).take(8 * j + i + 1),
{
    lemma_bits_of_index(words, j, i);
    assert((t + bits_of(words).take(8 * j + i)).push(bit_of(words[j], i)) =~= t + bits_of(
        words,
    ).take(8 * j + i + 1));
}

/// The bits of a merged word: the samples where they reach, the driven
/// word beyond them.
pub proof fn lemma_merged_bit(w: u8, s: Seq<bool>, i: int)
    requires
        s.len() <= 8,
        0 <= i < 8,
    ensures
        bit_of(merged(w, s), i) == (if i < s.len() {
            s[i]
        } else {
            bit_of(w, i)
        }),
    decreases s.len(),
{
    if s.len() > 0 {
        lemma_merged_bit(w, s.drop_last(), i);
        lemma_set_bit_effect(merged(w, s.drop_last()), s.len() - 1, i, s.last());
    }
}

/// A sample appended beyond the first `j` words leaves every completed
/// word's share of the stream unchanged.
pub proof fn lemma_push_keeps_word_samples(s: Seq<bool>, level: bool, j: int)
    requires
        0 <= 8 * j <= s.len(),
    ensures
        forall|k: int| 0 <= k < j ==> word_samples(s.push(level), k) == word_samples(s, k),
{
    assert forall|k: int| 0 <= k < j implies word_samples(s.push(level), k) == word_samples(
        s,
        k,
    ) by {
        assert(s.push(level).subrange(8 * k, 8 * k + 8) =~= s.subrange(8 * k, 8 * k + 8));
    }
}

/// Merging one more sample forces the next bit in transmission order.
pub proof fn lemma_merged_push(w: u8, s: Seq<bool>, level: bool)
    requires
        s.len() < 8,
    ensures
        merged(w, s.push(level)) == set_bit(merged(w, s), s.len() as int, level),
{
    assert(s.push(level).drop_last() =~= s);
}

/// Round-trip law: a transfer whose samples are exactly the levels driven
/// out for the same buffer (a loopback wiring) returns the buffer
/// unchanged — the MSB-first shift out and the MSB-first merge back are
/// inverses.
pub proof fn lemma_loopback_round_trip(words: Seq<u8>)
    ensures
        transfer_result(words, bits_of(words)) == words,
{
    let s = bits_of(words);
    assert forall|j: int| 0 <= j < words.len() implies transfer_result(words, s)[j]
        == words[j] by {
        let sw = word_samples(s, j);
        assert(sw == s.subrange(8 * j, 8 * j + 8));
        assert forall|i: int| 0 <= i < 8 implies bit_of(merged(words[j], sw), i) == bit_of(
            words[j],
            i,
        ) by {
            lemma_merged_bit(words[j], sw, i);
            lemma_bits_of_index(words, j, i);
        };
        lemma_u8_eq_by_bits(merged(words[j], sw), words[j]);
    };
    assert(transfer_result(words, s) =~= words);
}

} // verus!
