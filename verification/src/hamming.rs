//! The Hamming(7,4) code.
//!
//! Bit layout, by 1-based position in the codeword:
//! position 1 is p1, 2 is p2, 3 is d1, 4 is p4, 5 is d2, 6 is d3, 7 is d4.
//! Parity bit `pk` covers the positions whose binary address has the bit of
//! weight `k` set: p1 covers 1, 3, 5, 7; p2 covers 2, 3, 6, 7; p4 covers 4, 5, 6, 7.

use vstd::prelude::*;

verus! {

/// The codeword of `d` = [d1, d2, d3, d4]: [p1, p2, d1, p4, d2, d3, d4].
pub open spec fn spec_encode(d: Seq<u8>) -> Seq<u8> {
    seq![d[0] ^ d[1] ^ d[3], d[0] ^ d[2] ^ d[3], d[0], d[1] ^ d[2] ^ d[3], d[1], d[2], d[3]]
}

/// The three parity checks [s1, s2, s4] of a received word [r1, ..., r7].
pub open spec fn spec_syndrome_bits(r: Seq<u8>) -> Seq<u8> {
    seq![r[0] ^ r[2] ^ r[4] ^ r[6], r[1] ^ r[2] ^ r[5] ^ r[6], r[3] ^ r[4] ^ r[5] ^ r[6]]
}

/// The syndrome [s1, s2, s4] read as the binary number (s4 s2 s1).
pub open spec fn spec_position(s: Seq<u8>) -> int {
    s[2] * 4 + s[1] * 2 + s[0]
}

/// The word with the bit at 0-based index `i` flipped.
pub open spec fn spec_flip(w: Seq<u8>, i: int) -> Seq<u8> {
    w.update(i, w[i] ^ 1u8)
}

/// The word with the bit at 1-based position `pos` flipped, when `pos` names
/// one of the seven positions; the word itself otherwise.
pub open spec fn spec_correct(w: Seq<u8>, pos: int) -> Seq<u8> {
    if 1 <= pos <= 7 {
        spec_flip(w, pos - 1)
    } else {
        w
    }
}

/// Every element of `s` is a bit, 0 or 1.
pub open spec fn all_bits(s: Seq<u8>) -> bool {
    forall|i: int| 0 <= i < s.len() ==> (#[trigger] s[i] == 0 || s[i] == 1)
}

/// The data bits [d1, d2, d3, d4], at positions 3, 5, 6, 7 of a word.
pub open spec fn spec_data_bits(w: Seq<u8>) -> Seq<u8> {
    seq![w[2], w[4], w[5], w[6]]
}

/// The 1-based positions that parity check `k` covers: check 0 (s1, p1),
/// check 1 (s2, p2) and check 2 (s4, p4).
pub open spec fn spec_covered_positions(k: int) -> Seq<usize> {
    if k == 0 {
        seq![1usize, 3, 5, 7]
    } else if k == 1 {
        seq![2usize, 3, 6, 7]
    } else {
        seq![4usize, 5, 6, 7]
    }
}

/// The weight of parity check `k` in a binary address: 1, 2 or 4.
pub open spec fn spec_check_weight(k: int) -> int {
    if k == 0 {
        1
    } else if k == 1 {
        2
    } else {
        4
    }
}

/// Position `p` has the address bit of check `k` set.
pub open spec fn spec_address_has(p: int, k: int) -> bool {
    (p / spec_check_weight(k)) % 2 == 1
}

/// Encode 4 data bits into a 7-bit Hamming codeword.
pub fn hamming_encode(data: [u8; 4]) -> (codeword: [u8; 7])
    ensures
        codeword@ == spec_encode(data@),
{
    let d1 = data[0];
    let d2 = data[1];
    let d3 = data[2];
    let d4 = data[3];
    let p1 = d1 ^ d2 ^ d4;
    let p2 = d1 ^ d3 ^ d4;
    let p4 = d2 ^ d3 ^ d4;
    let codeword = [p1, p2, d1, p4, d2, d3, d4];
    assert(codeword@ =~= spec_encode(data@));
    codeword
}


/// The syndrome [s1, s2, s4] read as the binary number (s4 s2 s1):
/// the 1-based position of the erroneous bit, 0 when no check fails.
pub fn syndrome_position(syndrome: [u8; 3]) -> (pos: usize)
    ensures
        pos == spec_position(syndrome@),
{
    (syndrome[2] as usize) * 4 + (syndrome[1] as usize) * 2 + (syndrome[0] as usize)
}

/// Compute the syndrome of a received 7-bit word.
/// Returns ([s1, s2, s4], error_position); error_position == 0 means no error.
pub fn hamming_syndrome(word: [u8; 7]) -> (res: ([u8; 3], usize))
    ensures
        res.0@ == spec_syndrome_bits(word@),
        res.1 == spec_position(spec_syndrome_bits(word@)),
{
    let r1 = word[0];
    let r2 = word[1];
    let r3 = word[2];
    let r4 = word[3];
    let r5 = word[4];
    let r6 = word[5];
    let r7 = word[6];
    let s1 = r1 ^ r3 ^ r5 ^ r7;
    let s2 = r2 ^ r3 ^ r6 ^ r7;
    let s4 = r4 ^ r5 ^ r6 ^ r7;
    let syndrome = [s1, s2, s4];
    assert(syndrome@ =~= spec_syndrome_bits(word@));
    let error_pos = syndrome_position(syndrome);
    (syndrome, error_pos)
}

/// Correct a single-bit error given the syndrome error position: flip the bit
/// at 1-based position `error_pos` when it lies in 1..=7, else change nothing.
pub fn hamming_correct(word: [u8; 7], error_pos: usize) -> (corrected: [u8; 7])
    ensures
        corrected@ == spec_correct(word@, error_pos as int),
{
    let mut word = word;
    if error_pos >= 1 && error_pos <= 7 {
        let i = error_pos - 1;
        word[i] = word[i] ^ 1;
    }
    word
}


/// The positions covered by parity check `check` (0 for s1/p1, 1 for s2/p2,
/// 2 for s4/p4), in increasing order.
pub fn covered_positions(check: usize) -> (positions: [usize; 4])
    requires
        check < 3,
    ensures
        positions@ == spec_covered_positions(check as int),
{
    let positions = if check == 0 {
        [1, 3, 5, 7]
    } else if check == 1 {
        [2, 3, 6, 7]
    } else {
        [4, 5, 6, 7]
    };
    assert(positions@ =~= spec_covered_positions(check as int));
    positions
}

// ─── Laws of the code ────────────────────────────────────────────────────────

/// A codeword passes all three parity checks: its syndrome is (0 0 0) and the
/// error position read from it is 0.
pub proof fn lemma_codeword_has_zero_syndrome(d: Seq<u8>)
    requires
        d.len() == 4,
    ensures
        spec_syndrome_bits(spec_encode(d)) == seq![0u8, 0u8, 0u8],
        spec_position(spec_syndrome_bits(spec_encode(d))) == 0,
{
    let (a, b, c, e) = (d[0], d[1], d[2], d[3]);
    assert((a ^ b ^ e) ^ a ^ b ^ e == 0u8 && (a ^ c ^ e) ^ a ^ c ^ e == 0u8 && (b ^ c ^ e) ^ b
        ^ c ^ e == 0u8) by (bit_vector);
    assert(spec_syndrome_bits(spec_encode(d)) =~= seq![0u8, 0u8, 0u8]);
}

/// A word passes all three parity checks exactly when it is the codeword of
/// its own data bits.
pub proof fn lemma_zero_syndrome_iff_codeword(w: Seq<u8>)
    requires
        w.len() == 7,
    ensures
        spec_syndrome_bits(w) == seq![0u8, 0u8, 0u8] <==> w == spec_encode(spec_data_bits(w)),
{
    let (r1, r2, r3, r4, r5, r6, r7) = (w[0], w[1], w[2], w[3], w[4], w[5], w[6]);
    assert((r1 ^ r3 ^ r5 ^ r7 == 0u8 <==> r1 == r3 ^ r5 ^ r7) && (r2 ^ r3 ^ r6 ^ r7 == 0u8
        <==> r2 == r3 ^ r6 ^ r7) && (r4 ^ r5 ^ r6 ^ r7 == 0u8 <==> r4 == r5 ^ r6 ^ r7))
        by (bit_vector);
    if spec_syndrome_bits(w) == seq![0u8, 0u8, 0u8] {
        assert(spec_syndrome_bits(w)[0] == 0u8);
        assert(spec_syndrome_bits(w)[1] == 0u8);
        assert(spec_syndrome_bits(w)[2] == 0u8);
        assert(w =~= spec_encode(spec_data_bits(w)));
    }
    if w == spec_encode(spec_data_bits(w)) {
        assert(spec_syndrome_bits(w) =~= seq![0u8, 0u8, 0u8]);
    }
}

/// Flipping the bit at 0-based index `i` of a codeword gives a word whose
/// syndrome, read as the binary number (s4 s2 s1), is the 1-based position `i + 1`.
pub proof fn lemma_single_error_located(d: Seq<u8>, i: int)
    requires
        d.len() == 4,
        0 <= i < 7,
    ensures
        spec_position(spec_syndrome_bits(spec_flip(spec_encode(d), i))) == i + 1,
{
    let (a, b, c, e) = (d[0], d[1], d[2], d[3]);
    let s = spec_syndrome_bits(spec_flip(spec_encode(d), i));
    if i == 0 {
        assert(((a ^ b ^ e) ^ 1u8) ^ a ^ b ^ e == 1u8 && (a ^ c ^ e) ^ a ^ c ^ e == 0u8 && (b ^ c
            ^ e) ^ b ^ c ^ e == 0u8) by (bit_vector);
    } else if i == 1 {
        assert((a ^ b ^ e) ^ a ^ b ^ e == 0u8 && ((a ^ c ^ e) ^ 1u8) ^ a ^ c ^ e == 1u8 && (b ^ c
            ^ e) ^ b ^ c ^ e == 0u8) by (bit_vector);
    } else if i == 2 {
        assert((a ^ b ^ e) ^ (a ^ 1u8) ^ b ^ e == 1u8 && (a ^ c ^ e) ^ (a ^ 1u8) ^ c ^ e == 1u8
            && (b ^ c ^ e) ^ b ^ c ^ e == 0u8) by (bit_vector);
    } else if i == 3 {
        assert((a ^ b ^ e) ^ a ^ b ^ e == 0u8 && (a ^ c ^ e) ^ a ^ c ^ e == 0u8 && ((b ^ c ^ e)
            ^ 1u8) ^ b ^ c ^ e == 1u8) by (bit_vector);
    } else if i == 4 {
        assert((a ^ b ^ e) ^ a ^ (b ^ 1u8) ^ e == 1u8 && (a ^ c ^ e) ^ a ^ c ^ e == 0u8 && (b ^ c
            ^ e) ^ (b ^ 1u8) ^ c ^ e == 1u8) by (bit_vector);
    } else if i == 5 {
        assert((a ^ b ^ e) ^ a ^ b ^ e == 0u8 && (a ^ c ^ e) ^ a ^ (c ^ 1u8) ^ e == 1u8 && (b ^ c
            ^ e) ^ b ^ (c ^ 1u8) ^ e == 1u8) by (bit_vector);
    } else {
        assert((a ^ b ^ e) ^ a ^ b ^ (e ^ 1u8) == 1u8 && (a ^ c ^ e) ^ a ^ c ^ (e ^ 1u8) == 1u8
            && (b ^ c ^ e) ^ b ^ c ^ (e ^ 1u8) == 1u8) by (bit_vector);
    }
}

/// Flipping bit `i` of any word, codeword or not, inverts that bit and leaves
/// every other bit as it was.
pub proof fn lemma_flip_changes_exactly_one_bit(w: Seq<u8>, i: int)
    requires
        0 <= i < w.len(),
    ensures
        spec_flip(w, i).len() == w.len(),
        spec_flip(w, i)[i] == w[i] ^ 1u8,
        forall|j: int| 0 <= j < w.len() && j != i ==> #[trigger] spec_flip(w, i)[j] == w[j],
{
}

/// Correcting with position `pos` in 1..=7 inverts exactly the bit at that
/// 1-based position of any 7-bit word; any other position leaves the word as it is.
pub proof fn lemma_correct_flips_named_bit(w: Seq<u8>, pos: int)
    requires
        w.len() == 7,
    ensures
        spec_correct(w, pos).len() == 7,
        1 <= pos <= 7 ==> spec_correct(w, pos)[pos - 1] == w[pos - 1] ^ 1u8,
        forall|j: int|
            0 <= j < 7 && j != pos - 1 ==> #[trigger] spec_correct(w, pos)[j] == w[j],
{
}

/// Flipping a bit twice gives the word back.
pub proof fn lemma_flip_twice(w: Seq<u8>, i: int)
    requires
        0 <= i < w.len(),
    ensures
        spec_flip(spec_flip(w, i), i) == w,
{
    let x = w[i];
    assert((x ^ 1u8) ^ 1u8 == x) by (bit_vector);
    assert(spec_flip(spec_flip(w, i), i) =~= w);
}

/// A codeword with one flipped bit is corrected back to the codeword.
pub proof fn lemma_single_error_corrected(d: Seq<u8>, i: int)
    requires
        d.len() == 4,
        0 <= i < 7,
    ensures
        ({
            let w = spec_flip(spec_encode(d), i);
            spec_correct(w, spec_position(spec_syndrome_bits(w))) == spec_encode(d)
        }),
{
    lemma_single_error_located(d, i);
    lemma_flip_twice(spec_encode(d), i);
}

/// `w` differs from `c` in at most one position.
pub open spec fn at_most_one_differs(w: Seq<u8>, c: Seq<u8>) -> bool {
    &&& w.len() == c.len()
    &&& forall|i: int, j: int| 0 <= i < j < w.len() ==> w[i] == c[i] || w[j] == c[j]
}

/// Single-error correction: a word of bits received with at most one bit in
/// error is corrected to the codeword that was sent.
pub proof fn lemma_corrects_at_most_one_error(d: Seq<u8>, w: Seq<u8>)
    requires
        d.len() == 4,
        all_bits(d),
        all_bits(w),
        at_most_one_differs(w, spec_encode(d)),
    ensures
        spec_correct(w, spec_position(spec_syndrome_bits(w))) == spec_encode(d),
{
    let c = spec_encode(d);
    lemma_encode_keeps_bits(d);
    if w =~= c {
        lemma_codeword_has_zero_syndrome(d);
    } else {
        let i = choose|i: int| 0 <= i < 7 && w[i] != c[i];
        let (x, y) = (w[i], c[i]);
        assert(x != y && (x == 0u8 || x == 1u8) && (y == 0u8 || y == 1u8) ==> x == y ^ 1u8)
            by (bit_vector);
        assert forall|j: int| 0 <= j < 7 && j != i implies w[j] == c[j] by {
            if j < i {
                assert(w[j] == c[j] || w[i] == c[i]);
            } else {
                assert(w[i] == c[i] || w[j] == c[j]);
            }
        }
        assert(w =~= spec_flip(c, i));
        lemma_single_error_corrected(d, i);
    }
}

/// The codeword of data bits is made of bits.
pub proof fn lemma_encode_keeps_bits(d: Seq<u8>)
    requires
        d.len() == 4,
        all_bits(d),
    ensures
        all_bits(spec_encode(d)),
{
    let (a, b, c, e) = (d[0], d[1], d[2], d[3]);
    assert(d[0] == 0 || d[0] == 1);
    assert(d[1] == 0 || d[1] == 1);
    assert(d[2] == 0 || d[2] == 1);
    assert(d[3] == 0 || d[3] == 1);
    assert((a == 0u8 || a == 1u8) && (b == 0u8 || b == 1u8) && (c == 0u8 || c == 1u8) && (e
        == 0u8 || e == 1u8) ==> (a ^ b ^ e == 0u8 || a ^ b ^ e == 1u8) && (a ^ c ^ e == 0u8 || a
        ^ c ^ e == 1u8) && (b ^ c ^ e == 0u8 || b ^ c ^ e == 1u8)) by (bit_vector);
}


/// Parity check `k` covers position `p` exactly when the binary address of `p`
/// has the bit of weight 1, 2 or 4 that belongs to `k`.
pub proof fn lemma_covered_iff_address_bit(k: int, p: int)
    requires
        0 <= k < 3,
        1 <= p <= 7,
    ensures
        spec_covered_positions(k).contains(p as usize) <==> spec_address_has(p, k),
{
    let c = spec_covered_positions(k);
    assert(c[0] == c[0] && c[1] == c[1] && c[2] == c[2] && c[3] == c[3]);
    if spec_address_has(p, k) {
        if c[0] == p as usize {
        } else if c[1] == p as usize {
        } else if c[2] == p as usize {
        } else {
            assert(c[3] == p as usize);
        }
    }
}

/// Each syndrome bit is the parity (xor) of the received bits at the positions
/// its check covers.
pub proof fn lemma_syndrome_bit_is_parity_of_covered(w: Seq<u8>, k: int)
    requires
        w.len() == 7,
        0 <= k < 3,
    ensures
        ({
            let c = spec_covered_positions(k);
            spec_syndrome_bits(w)[k] == w[c[0] - 1] ^ w[c[1] - 1] ^ w[c[2] - 1] ^ w[c[3] - 1]
        }),
{
}

proof fn lemma_xor4_flip_any(x: u8, y: u8, z: u8, t: u8)
    ensures
        (x ^ 1u8) ^ y ^ z ^ t == (x ^ y ^ z ^ t) ^ 1u8,
        x ^ (y ^ 1u8) ^ z ^ t == (x ^ y ^ z ^ t) ^ 1u8,
        x ^ y ^ (z ^ 1u8) ^ t == (x ^ y ^ z ^ t) ^ 1u8,
        x ^ y ^ z ^ (t ^ 1u8) == (x ^ y ^ z ^ t) ^ 1u8,
{
    assert((x ^ 1u8) ^ y ^ z ^ t == (x ^ y ^ z ^ t) ^ 1u8 && x ^ (y ^ 1u8) ^ z ^ t == (x ^ y ^ z
        ^ t) ^ 1u8 && x ^ y ^ (z ^ 1u8) ^ t == (x ^ y ^ z ^ t) ^ 1u8 && x ^ y ^ z ^ (t ^ 1u8) == (x
        ^ y ^ z ^ t) ^ 1u8) by (bit_vector);
}

/// Flipping the bit at 1-based position `i + 1` toggles exactly the parity
/// checks whose address bit is set in `i + 1`, and leaves the others alone.
pub proof fn lemma_flip_toggles_covering_checks(w: Seq<u8>, i: int, k: int)
    requires
        w.len() == 7,
        0 <= i < 7,
        0 <= k < 3,
    ensures
        spec_syndrome_bits(spec_flip(w, i))[k] == if spec_address_has(i + 1, k) {
            spec_syndrome_bits(w)[k] ^ 1u8
        } else {
            spec_syndrome_bits(w)[k]
        },
{
    let (r1, r2, r3, r4, r5, r6, r7) = (w[0], w[1], w[2], w[3], w[4], w[5], w[6]);
    lemma_xor4_flip_any(r1, r3, r5, r7);
    lemma_xor4_flip_any(r2, r3, r6, r7);
    lemma_xor4_flip_any(r4, r5, r6, r7);
}

/// A word of bits has a syndrome of bits, an error position in 0..=7, and its
/// correction is a word of bits.
pub proof fn lemma_syndrome_of_bits(w: Seq<u8>)
    requires
        w.len() == 7,
        all_bits(w),
    ensures
        all_bits(spec_syndrome_bits(w)),
        0 <= spec_position(spec_syndrome_bits(w)) <= 7,
        all_bits(spec_correct(w, spec_position(spec_syndrome_bits(w)))),
{
    let (r1, r2, r3, r4, r5, r6, r7) = (w[0], w[1], w[2], w[3], w[4], w[5], w[6]);
    assert(w[0] == 0 || w[0] == 1);
    assert(w[1] == 0 || w[1] == 1);
    assert(w[2] == 0 || w[2] == 1);
    assert(w[3] == 0 || w[3] == 1);
    assert(w[4] == 0 || w[4] == 1);
    assert(w[5] == 0 || w[5] == 1);
    assert(w[6] == 0 || w[6] == 1);
    assert((r1 == 0u8 || r1 == 1u8) && (r2 == 0u8 || r2 == 1u8) && (r3 == 0u8 || r3 == 1u8) && (
    r4 == 0u8 || r4 == 1u8) && (r5 == 0u8 || r5 == 1u8) && (r6 == 0u8 || r6 == 1u8) && (r7 == 0u8
        || r7 == 1u8) ==> (r1 ^ r3 ^ r5 ^ r7 <= 1u8) && (r2 ^ r3 ^ r6 ^ r7 <= 1u8) && (r4 ^ r5 ^ r6
        ^ r7 <= 1u8)) by (bit_vector);
    let pos = spec_position(spec_syndrome_bits(w));
    if 1 <= pos <= 7 {
        let x = w[pos - 1];
        assert((x == 0u8 || x == 1u8) ==> (x ^ 1u8 == 0u8 || x ^ 1u8 == 1u8)) by (bit_vector);
    }
}

/// Every word of bits is corrected to a codeword: the Hamming(7,4) code is
/// perfect, so each nonzero syndrome names the one flip that clears it.
pub proof fn lemma_correction_yields_codeword(w: Seq<u8>)
    requires
        w.len() == 7,
        all_bits(w),
    ensures
        ({
            let c = spec_correct(w, spec_position(spec_syndrome_bits(w)));
            &&& spec_syndrome_bits(c) == seq![0u8, 0u8, 0u8]
            &&& c == spec_encode(spec_data_bits(c))
        }),
{
    lemma_syndrome_of_bits(w);
    let s = spec_syndrome_bits(w);
    let pos = spec_position(s);
    let c = spec_correct(w, pos);
    assert(s[0] == 0 || s[0] == 1);
    assert(s[1] == 0 || s[1] == 1);
    assert(s[2] == 0 || s[2] == 1);
    if pos == 0 {
        assert(spec_syndrome_bits(c) =~= seq![0u8, 0u8, 0u8]);
    } else {
        let i = pos - 1;
        lemma_flip_toggles_covering_checks(w, i, 0);
        lemma_flip_toggles_covering_checks(w, i, 1);
        lemma_flip_toggles_covering_checks(w, i, 2);
        let (s1, s2, s4) = (s[0], s[1], s[2]);
        assert((s1 == 0u8 || s1 == 1u8) && (s2 == 0u8 || s2 == 1u8) && (s4 == 0u8 || s4 == 1u8)
            ==> s1 ^ s1 == 0u8 && s2 ^ s2 == 0u8 && s4 ^ s4 == 0u8 && (s1 == 1u8 ==> s1 ^ 1u8
            == 0u8) && (s2 == 1u8 ==> s2 ^ 1u8 == 0u8) && (s4 == 1u8 ==> s4 ^ 1u8 == 0u8))
            by (bit_vector);
        assert(spec_syndrome_bits(c) =~= seq![0u8, 0u8, 0u8]);
    }
    lemma_zero_syndrome_iff_codeword(c);
}

} // verus!
