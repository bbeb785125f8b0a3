use vstd::prelude::*;
use crate::math::{divides, gcd, lemma_gcd_comm, lemma_gcd_divides, lemma_gcd_greatest,
    lemma_gcd_pos, spec_gcd};
use vstd::arithmetic::div_mod::{lemma_div_multiples_vanish, lemma_div_pos_is_pos,
    lemma_fundamental_div_mod, lemma_small_mod};
use vstd::arithmetic::mul::lemma_mul_inequality;

verus! {

broadcast use vstd::arithmetic::mul::lemma_mul_is_commutative;

/// Cofactors of a positive common divisor are coprime when the divisor
/// is the GCD: dividing two rates by their GCD leaves a ratio in
/// lowest terms.
pub proof fn lemma_reduced_coprime(a: nat, b: nat, ka: nat, kb: nat)
    requires
        a > 0,
        ka as int * spec_gcd(a, b) == a as int,
        kb as int * spec_gcd(a, b) == b as int,
    ensures
        spec_gcd(ka, kb) == 1,
{
    let g = spec_gcd(a, b) as int;
    lemma_gcd_pos(a, b);
    assert(ka > 0) by (nonlinear_arith)
        requires
            ka as int * g == a as int,
            a > 0,
    ;
    lemma_gcd_pos(ka, kb);
    let h = spec_gcd(ka, kb) as int;
    lemma_gcd_divides(ka, kb);
    let k1 = choose|k: int| ka as int == #[trigger] (h * k);
    let k2 = choose|k: int| kb as int == #[trigger] (h * k);
    assert(a as int == (g * h) * k1) by (nonlinear_arith)
        requires
            ka as int == h * k1,
            ka as int * g == a as int,
    ;
    assert(b as int == (g * h) * k2) by (nonlinear_arith)
        requires
            kb as int == h * k2,
            kb as int * g == b as int,
    ;
    assert(divides(g * h, a as int));
    assert(divides(g * h, b as int));
    lemma_gcd_greatest(a, b, g * h);
    let k3 = choose|k: int| g == #[trigger] ((g * h) * k);
    assert(h == 1) by (nonlinear_arith)
        requires
            g == (g * h) * k3,
            g > 0,
            h >= 1,
    ;
}

/// Reduce a pair of sample rates to the resampling ratio in lowest
/// terms: the interpolation factor `L = output_rate / g` and the
/// decimation factor `M = input_rate / g` for `g` the GCD of the two
/// rates, with `gcd(L, M) == 1`.
pub fn resample_ratio(input_rate: u32, output_rate: u32) -> (r: (u32, u32))
    requires
        input_rate > 0,
        output_rate > 0,
    ensures
        r.0 as int * spec_gcd(input_rate as nat, output_rate as nat) == output_rate as int,
        r.1 as int * spec_gcd(input_rate as nat, output_rate as nat) == input_rate as int,
        spec_gcd(r.0 as nat, r.1 as nat) == 1,
        r.0 >= 1,
        r.1 >= 1,
{
    proof {
        lemma_gcd_pos(input_rate as nat, output_rate as nat);
    }
    let g = gcd(input_rate, output_rate);
    let l = output_rate / g;
    let m = input_rate / g;
    proof {
        let gg = spec_gcd(input_rate as nat, output_rate as nat) as int;
        lemma_gcd_divides(input_rate as nat, output_rate as nat);
        let ki = choose|k: int| input_rate as int == #[trigger] (gg * k);
        let ko = choose|k: int| output_rate as int == #[trigger] (gg * k);
        lemma_div_multiples_vanish(ki, gg);
        lemma_div_multiples_vanish(ko, gg);
        assert(l as int == ko);
        assert(m as int == ki);
        assert(l >= 1 && m >= 1) by (nonlinear_arith)
            requires
                l as int * gg == output_rate as int,
                m as int * gg == input_rate as int,
                input_rate >= 1,
                output_rate >= 1,
        ;
        lemma_reduced_coprime(input_rate as nat, output_rate as nat, m as nat, l as nat);
        lemma_gcd_comm(m as nat, l as nat);
    }
    (l, m)
}

/// The number of output samples of the interpolating resampler: the
/// count of multiples of `m` below `input_len * l`, that is the
/// ceiling of `input_len * l / m`. The two quantified clauses pin the
/// count: every output position `i * m` lies below `input_len * l`,
/// and the next one would not.
pub fn resample_output_len(input_len: usize, l: usize, m: usize) -> (n: usize)
    requires
        l >= 1,
        m >= 1,
        input_len * l + m - 1 <= usize::MAX,
    ensures
        n == (input_len * l + m - 1) as int / m as int,
        n * m >= input_len * l,
        forall|i: int| 0 <= i < n ==> #[trigger] (i * m) < input_len * l,
{
    let x = input_len * l;
    let n = (x + (m - 1)) / m;
    proof {
        lemma_fundamental_div_mod(x as int + m as int - 1, m as int);
        assert forall|i: int| 0 <= i < n implies #[trigger] (i * (m as int)) < x as int by {
            lemma_mul_inequality(i, n as int - 1, m as int);
            assert((n as int - 1) * m as int == n as int * m as int - m as int)
                by (nonlinear_arith);
        }
    }
    n
}

/// The upsampled positions of the output samples of the interpolating
/// resampler: the first `count` multiples of the decimation factor
/// `m`, in order. The resampler walks them and accumulates one output
/// sample per position.
pub fn resample_positions(count: usize, m: usize) -> (r: Vec<usize>)
    requires
        count * m <= usize::MAX,
    ensures
        r@.len() == count,
        forall|i: int| 0 <= i < count ==> r@[i] == i * m,
{
    let mut r: Vec<usize> = Vec::new();
    let mut i: usize = 0;
    while i < count
        invariant
            count * m <= usize::MAX,
            i <= count,
            r@.len() == i,
            forall|j: int| 0 <= j < i ==> r@[j] == j * m,
        decreases count - i,
    {
        proof {
            lemma_mul_inequality(i as int, count as int, m as int);
        }
        r.push(i * m);
        i += 1;
    }
    r
}

/// The first input-sample slot `q` whose upsampled position `l * q`
/// falls inside the summation window `[t - offset, t + offset]`
/// clipped at zero: the least `q` with `l * q >= max(0, t - offset)`.
pub open spec fn window_first_slot(t: int, offset: int, l: int) -> int
    recommends
        l >= 1,
{
    let wstart = if t > offset {
        t - offset
    } else {
        0
    };
    if wstart % l == 0 {
        wstart / l
    } else {
        wstart / l + 1
    }
}

/// The last input-sample slot inside the window that addresses an
/// existing input sample: the lesser of `(t + offset) / l` and
/// `input_len - 1`. Slots past the right edge of the input are
/// skipped, which zero-pads the input on the right.
pub open spec fn window_last_slot(t: int, offset: int, l: int, input_len: int) -> int
    recommends
        l >= 1,
{
    let hi = (t + offset) / l;
    if hi < input_len - 1 {
        hi
    } else {
        input_len - 1
    }
}

/// The terms the interpolating resampler accumulates for the output
/// sample at upsampled position `t`: pairs of a filter-tap index
/// `l * q + offset - t` and an input-sample index `q`, one for each
/// slot `q` in the window. Only multiples of `l` carry a nonzero
/// sample of the zero-stuffed input, so only those positions appear.
pub open spec fn spec_window_terms(t: int, offset: int, l: int, input_len: int) -> Seq<
    (int, int),
>
    recommends
        l >= 1,
{
    let q0 = window_first_slot(t, offset, l);
    let q1 = window_last_slot(t, offset, l, input_len);
    if q0 <= q1 {
        Seq::new((q1 - q0 + 1) as nat, |k: int| (l * (q0 + k) + offset - t, q0 + k))
    } else {
        Seq::empty()
    }
}

/// When an output position lies exactly on an input sample, at
/// `t = i * l`, the window's terms include the pair of the filter's
/// center tap `offset` with input sample `i`: resampling by equal
/// factors keeps every input sample under the center of its window,
/// which is where the designed lowpass concentrates its gain.
pub proof fn lemma_window_centers_on_input(i: int, offset: int, l: int, input_len: int)
    requires
        l >= 1,
        offset >= 0,
        0 <= i < input_len,
    ensures
        ({
            let s = spec_window_terms(i * l, offset, l, input_len);
            let q0 = window_first_slot(i * l, offset, l);
            0 <= i - q0 < s.len() && s[i - q0] == (offset, i)
        }),
{
    let t = i * l;
    let ws: int = if t > offset {
        t - offset
    } else {
        0
    };
    let q0 = window_first_slot(t, offset, l);
    let q1 = window_last_slot(t, offset, l, input_len);
    vstd::arithmetic::mul::lemma_mul_nonnegative(i, l);
    lemma_fundamental_div_mod(ws, l);
    // q0 is the least slot at or past the window start, so q0 <= i:
    // l * i == t >= ws.
    if ws % l == 0 {
        assert(q0 <= i) by (nonlinear_arith)
            requires
                l >= 1,
                q0 == ws / l,
                ws == l * (ws / l),
                ws <= i * l,
        ;
    } else {
        assert(q0 <= i) by (nonlinear_arith)
            requires
                l >= 1,
                q0 == ws / l + 1,
                ws == l * (ws / l) + ws % l,
                0 < ws % l < l,
                ws <= i * l,
        ;
    }
    // The window's right edge reaches t + offset, so q1 >= i:
    // (t + offset) / l >= t / l == i.
    lemma_div_multiples_vanish(i, l);
    vstd::arithmetic::div_mod::lemma_div_is_ordered(t, t + offset, l);
    assert(q1 >= i);
    assert(spec_window_terms(t, offset, l, input_len)[i - q0] == (l * (q0 + (i - q0)) + offset - t, q0
        + (i - q0)));
}

/// Enumerate the products of one output sample of the interpolating
/// resampler: each returned pair `(j, q)` asks the caller to
/// accumulate `h[j] * x[q]`, where `h` is the anti-alias filter of
/// length `2 * offset + 1` and `x` the input. Every tap index is below
/// the filter length and every sample index below `input_len`.
pub fn resample_window_terms(t: usize, offset: usize, l: usize, input_len: usize) -> (r: Vec<
    (usize, usize),
>)
    requires
        l >= 1,
        t + 2 * offset + l <= usize::MAX,
    ensures
        r@.map_values(|p: (usize, usize)| (p.0 as int, p.1 as int)) == spec_window_terms(
            t as int,
            offset as int,
            l as int,
            input_len as int,
        ),
        forall|k: int| 0 <= k < r@.len() ==> r@[k].0 <= 2 * offset && r@[k].1 < input_len,
{
    let ghost s = spec_window_terms(t as int, offset as int, l as int, input_len as int);
    let ghost spec_q0 = window_first_slot(t as int, offset as int, l as int);
    let ghost spec_q1 = window_last_slot(t as int, offset as int, l as int, input_len as int);
    let ghost ws: int = if t > offset {
        t - offset
    } else {
        0
    };

    let q0: usize;
    if t > offset {
        let wstart = t - offset;
        let rem = wstart % l;
        proof {
            lemma_fundamental_div_mod(wstart as int, l as int);
            lemma_div_pos_is_pos(wstart as int, l as int);
        }
        if rem == 0 {
            q0 = wstart / l;
        } else {
            q0 = wstart / l + 1;
        }
    } else {
        proof {
            lemma_small_mod(0, l as nat);
            lemma_div_pos_is_pos(0, l as int);
        }
        q0 = 0;
    }
    assert(q0 == spec_q0);
    proof {
        lemma_fundamental_div_mod(ws, l as int);
    }
    // The window start never lies left of t - offset, and l * q0 is the
    // least multiple of l at or past the clipped window start.
    assert(l as int * q0 as int + offset as int >= t as int) by (nonlinear_arith)
        requires
            l >= 1,
            ws >= t as int - offset as int,
            (q0 as int == ws / l as int && ws % l as int == 0) || q0 as int == ws / l as int + 1,
            ws == l as int * (ws / l as int) + ws % l as int,
            0 <= ws % l as int,
    ;

    let mut r: Vec<(usize, usize)> = Vec::new();

    if input_len == 0 {
        assert(s =~= r@.map_values(|p: (usize, usize)| (p.0 as int, p.1 as int)));
        return r;
    }

    let hi = (t + offset) / l;
    let qlast = if hi < input_len - 1 {
        hi
    } else {
        input_len - 1
    };
    assert(qlast == spec_q1);
    proof {
        lemma_fundamental_div_mod(t as int + offset as int, l as int);
    }

    let mut q = q0;
    while q <= qlast
        invariant
            l >= 1,
            t + 2 * offset + l <= usize::MAX,
            input_len >= 1,
            q0 == spec_q0,
            qlast == spec_q1,
            spec_q0 == window_first_slot(t as int, offset as int, l as int),
            spec_q1 == window_last_slot(t as int, offset as int, l as int, input_len as int),
            l as int * q0 as int + offset as int >= t as int,
            (t as int + offset as int) == l as int * ((t as int + offset as int) / l as int) + (t
                as int + offset as int) % l as int,
            0 <= (t as int + offset as int) % l as int,
            q0 <= q,
            q <= qlast + 1 || q == q0,
            r@.len() == q - q0,
            forall|k: int|
                0 <= k < r@.len() ==> (#[trigger] r@[k]).0 == l as int * (q0 + k) + offset - t
                    && r@[k].1 == q0 + k && r@[k].0 <= 2 * offset && r@[k].1 < input_len,
        decreases qlast + 1 - q,
    {
        // l * q stays within the window: q <= qlast <= (t + offset) / l.
        proof {
            lemma_mul_inequality(q as int, (t as int + offset as int) / l as int, l as int);
            lemma_mul_inequality(q0 as int, q as int, l as int);
        }
        assert(l as int * q as int <= t as int + offset as int);
        assert(l as int * q as int + offset as int >= t as int);
        let j = l * q + offset - t;
        r.push((j, q));
        q += 1;
    }
    proof {
        if spec_q0 <= spec_q1 {
            assert(r@.len() == s.len());
        }
        assert(r@.map_values(|p: (usize, usize)| (p.0 as int, p.1 as int)) =~= s);
    }
    r
}

} // verus!
