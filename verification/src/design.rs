use vstd::prelude::*;
use vstd::arithmetic::div_mod::{lemma_fundamental_div_mod, lemma_mod_multiples_vanish};

verus! {

/// The integer skeleton of the ideal Hilbert impulse response at index
/// `i` of an odd-length design: the signed center offset `n = i - c`
/// where the tap is nonzero (odd `n`), and `0` where the tap is zero
/// (the center and every even offset). The tap itself is `2 / (pi * n)`
/// for nonzero entries; the host program maps the pattern to taps.
///
/// Parity is tested on `i + c`, which has the same parity as `i - c`.
pub open spec fn spec_hilbert_offset(i: int, length: int) -> int {
    let c = (length - 1) / 2;
    if (i + c) % 2 == 1 {
        i - c
    } else {
        0
    }
}

/// The tap pattern of a Hilbert design of odd `length`: entry `i` is
/// the signed center offset `n` when the ideal tap `2 / (pi * n)` is
/// nonzero there, and `0` where the ideal tap is zero.
pub fn hilbert_pattern(length: usize) -> (r: Vec<i64>)
    requires
        length % 2 == 1,
        length <= i64::MAX,
        2 * length <= usize::MAX,
    ensures
        r@.len() == length,
        forall|i: int| 0 <= i < length ==> r@[i] == spec_hilbert_offset(i, length as int),
{
    let c = (length - 1) / 2;
    let mut r: Vec<i64> = Vec::new();
    let mut i: usize = 0;
    while i < length
        invariant
            c == (length - 1) as int / 2,
            length <= i64::MAX,
            2 * length <= usize::MAX,
            i <= length,
            r@.len() == i,
            forall|j: int| 0 <= j < i ==> r@[j] == spec_hilbert_offset(j, length as int),
        decreases length - i,
    {
        if (i + c) % 2 == 1 {
            r.push(i as i64 - c as i64);
        } else {
            r.push(0);
        }
        i += 1;
    }
    r
}

/// A Hilbert tap pattern is antisymmetric about its center, and the
/// center entry itself is zero: the entry at `i` is the negation of
/// the entry at the mirrored index `length - 1 - i`. The ideal tap
/// `2 / (pi * n)` is an odd function of the offset `n`, so the taps
/// inherit the antisymmetry from the pattern.
pub proof fn lemma_hilbert_pattern_antisymmetric(length: int, i: int)
    requires
        length % 2 == 1,
        0 <= i < length,
    ensures
        spec_hilbert_offset(i, length) == -spec_hilbert_offset(length - 1 - i, length),
        spec_hilbert_offset((length - 1) / 2, length) == 0,
{
    let c = (length - 1) / 2;
    lemma_fundamental_div_mod(length - 1, 2);
    assert(length - 1 == 2 * c);
    let j = length - 1 - i;
    // (j + c) == (i + c) + 2 * (c - i), so both sides test the same parity.
    lemma_mod_multiples_vanish(c - i, i + c, 2);
    assert(j + c == 2 * (c - i) + (i + c));
    // The center entry: (c + c) % 2 == 0.
    lemma_mod_multiples_vanish(c, 0, 2);
    assert(c + c == 2 * c + 0);
}

} // verus!
