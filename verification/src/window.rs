use vstd::prelude::*;
use vstd::arithmetic::div_mod::lemma_fundamental_div_mod;

verus! {

/// Round a window length up to the next odd value, as the Kaiser
/// length rule demands: an even candidate length is bumped by one, an
/// odd one is kept. Every window this core designs has odd length.
pub fn adjust_to_odd(candidate: usize) -> (length: usize)
    requires
        candidate < usize::MAX,
    ensures
        length % 2 == 1,
        length == if candidate % 2 == 0 { candidate + 1 } else { candidate as int },
{
    if candidate % 2 == 0 {
        candidate + 1
    } else {
        candidate
    }
}

/// The signed tap offsets `n = i - c` of an odd-length window whose
/// center index is `c = (length - 1) / 2`: the sequence runs from `-c`
/// up to `c`. Window and filter taps are functions of these offsets.
pub fn centered_offsets(length: usize) -> (r: Vec<i64>)
    requires
        length % 2 == 1,
        length <= i64::MAX,
        2 * length <= usize::MAX,
    ensures
        r@.len() == length,
        forall|i: int| 0 <= i < length ==> r@[i] == i - (length - 1) / 2,
{
    let c = (length - 1) / 2;
    let mut r: Vec<i64> = Vec::new();
    let mut i: usize = 0;
    while i < length
        invariant
            c == (length - 1) as int / 2,
            length <= i64::MAX,
            i <= length,
            r@.len() == i,
            forall|j: int| 0 <= j < i ==> r@[j] == j - (length - 1) / 2,
        decreases length - i,
    {
        r.push(i as i64 - c as i64);
        i += 1;
    }
    r
}

/// The offsets of an odd-length window are antisymmetric about the
/// center: the offset at `i` is the negation of the offset at the
/// mirrored index `length - 1 - i`. A window whose tap at `i` depends
/// only on the square of the offset is therefore symmetric.
pub proof fn lemma_offsets_antisymmetric(length: int, i: int)
    requires
        length % 2 == 1,
        0 <= i < length,
    ensures
        i - (length - 1) / 2 == -((length - 1 - i) - (length - 1) / 2),
{
    let c = (length - 1) / 2;
    lemma_fundamental_div_mod(length - 1, 2);
    assert((length - 1) % 2 == 0);
    assert(length - 1 == 2 * c);
}

} // verus!
