use vstd::prelude::*;
use vstd::arithmetic::div_mod::lemma_fundamental_div_mod;

verus! {

/// Every `m`-th sample of `s`, starting at index zero: the result of
/// pure decimation by `m`.
pub open spec fn spec_decimate<T>(s: Seq<T>, m: int) -> Seq<T>
    recommends
        m >= 1,
{
    Seq::new((s.len() as int / m) as nat, |i: int| s[i * m])
}

/// Decimate a signal by `m`, keeping samples `0, m, 2m, ...`: the fast
/// path of rational resampling when the interpolation factor is one.
/// No anti-alias filter runs here; the caller lowpasses upstream when
/// it must.
pub fn decimate<T: Copy>(signal: &Vec<T>, m: usize) -> (r: Vec<T>)
    requires
        m >= 1,
    ensures
        r@ == spec_decimate(signal@, m as int),
{
    let count = signal.len() / m;
    let ghost rem = signal@.len() as int % (m as int);
    proof {
        lemma_fundamental_div_mod(signal@.len() as int, m as int);
    }
    let mut r: Vec<T> = Vec::new();
    let mut i: usize = 0;
    while i < count
        invariant
            m >= 1,
            signal@.len() <= usize::MAX,
            count == signal@.len() as int / m as int,
            signal@.len() == (m as int) * (count as int) + rem,
            0 <= rem,
            i <= count,
            r@.len() == i,
            forall|j: int| 0 <= j < i ==> r@[j] == signal@[j * (m as int)],
        decreases count - i,
    {
        assert((i as int) * (m as int) < signal@.len()) by (nonlinear_arith)
            requires
                signal@.len() == (m as int) * (count as int) + rem,
                0 <= rem,
                (i as int) < (count as int),
                m as int >= 1,
        ;
        r.push(signal[i * m]);
        i += 1;
    }
    assert(r@ =~= spec_decimate(signal@, m as int));
    r
}

/// Decimation by one returns the signal unchanged, element for
/// element: resampling with equal interpolation and decimation factors
/// is the identity.
pub proof fn lemma_decimate_identity<T>(s: Seq<T>)
    ensures
        spec_decimate(s, 1) == s,
{
    assert(spec_decimate(s, 1) =~= s);
}

/// The two operand sequences of an elementwise product, paired index
/// by index.
pub open spec fn spec_zip<T>(a: Seq<T>, b: Seq<T>) -> Seq<(T, T)>
    recommends
        a.len() == b.len(),
{
    Seq::new(a.len(), |i: int| (a[i], b[i]))
}

/// Pair two signals index by index for an elementwise product, failing
/// fast on operands of unequal length: `None` exactly when the lengths
/// differ. The host program maps each pair to the product of its two
/// samples.
pub fn product_pairs<T: Copy>(v1: &Vec<T>, v2: &Vec<T>) -> (r: Option<Vec<(T, T)>>)
    ensures
        v1@.len() == v2@.len() ==> (r matches Some(p) && p@ == spec_zip(v1@, v2@)),
        v1@.len() != v2@.len() ==> r is None,
{
    if v1.len() != v2.len() {
        return None;
    }
    let mut out: Vec<(T, T)> = Vec::new();
    let mut i: usize = 0;
    while i < v1.len()
        invariant
            v1@.len() == v2@.len(),
            i <= v1@.len(),
            out@.len() == i,
            forall|j: int| 0 <= j < i ==> out@[j] == (v1@[j], v2@[j]),
        decreases v1@.len() - i,
    {
        out.push((v1[i], v2[i]));
        i += 1;
    }
    assert(out@ =~= spec_zip(v1@, v2@));
    Some(out)
}

/// Pairing is symmetric up to the order inside each pair: zipping the
/// operands in the other order gives the same sequence with every pair
/// swapped. An elementwise product built on the pairs commutes when
/// the product of two samples does.
pub proof fn lemma_zip_swap<T>(a: Seq<T>, b: Seq<T>)
    requires
        a.len() == b.len(),
    ensures
        spec_zip(a, b) == spec_zip(b, a).map_values(|p: (T, T)| (p.1, p.0)),
{
    let swapped = spec_zip(b, a).map_values(|p: (T, T)| (p.1, p.0));
    assert forall|i: int| 0 <= i < a.len() implies spec_zip(a, b)[i] == swapped[i] by {
        assert(spec_zip(b, a)[i] == (b[i], a[i]));
    }
    assert(spec_zip(a, b) =~= swapped);
}

/// The index pairs `(j, i - j)` of the products summed for output
/// sample `i` of the direct-form convolution `y[i] = sum h[j] * x[i-j]`,
/// for `j` below the coefficient count and strictly below `i`. The term
/// at `j == i` is excluded: the convolution's boundary drops it, so the
/// signal index of every pair is at least one.
pub fn filter_terms(i: usize, coeff_len: usize) -> (r: Vec<(usize, usize)>)
    ensures
        r@.len() == if i < coeff_len { i as int } else { coeff_len as int },
        forall|k: int| 0 <= k < r@.len() ==> r@[k].0 == k && r@[k].1 == i - k,
{
    let bound = if i < coeff_len {
        i
    } else {
        coeff_len
    };
    let mut r: Vec<(usize, usize)> = Vec::new();
    let mut j: usize = 0;
    while j < bound
        invariant
            bound <= i,
            j <= bound,
            r@.len() == j,
            forall|k: int| 0 <= k < j ==> r@[k].0 == k && r@[k].1 == i - k,
        decreases bound - j,
    {
        r.push((j, i - j));
        j += 1;
    }
    r
}

/// Align the quadrature channel with the delayed in-phase signal for
/// envelope detection: entry `k` pairs `quad[k]` with `inphase[k - delay]`
/// once `k` reaches `delay`, and is `None` over the leading `delay`
/// samples, whose envelope the caller sets to zero.
pub fn delayed_pairs<T: Copy>(quad: &Vec<T>, inphase: &Vec<T>, delay: usize) -> (r: Vec<
    Option<(T, T)>,
>)
    requires
        quad@.len() == inphase@.len(),
    ensures
        r@.len() == quad@.len(),
        forall|k: int|
            0 <= k < r@.len() ==> r@[k] == (if k >= delay {
                Some((quad@[k], inphase@[k - delay]))
            } else {
                None::<(T, T)>
            }),
{
    let mut r: Vec<Option<(T, T)>> = Vec::new();
    let mut k: usize = 0;
    while k < quad.len()
        invariant
            quad@.len() == inphase@.len(),
            k <= quad@.len(),
            r@.len() == k,
            forall|j: int|
                0 <= j < k ==> r@[j] == (if j >= delay {
                    Some((quad@[j], inphase@[j - delay]))
                } else {
                    None::<(T, T)>
                }),
        decreases quad@.len() - k,
    {
        if k >= delay {
            r.push(Some((quad[k], inphase[k - delay])));
        } else {
            r.push(None);
        }
        k += 1;
    }
    r
}

} // verus!
