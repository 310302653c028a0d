use vstd::arithmetic::div_mod::{
    lemma_div_pos_is_pos, lemma_fundamental_div_mod, lemma_mod_bound, lemma_multiply_divide_le,
};
use vstd::prelude::*;

verus! {

// The audio callback hands the engine mono samples; interleaved
// multi-channel input is downmixed first by averaging the channels of each
// frame. Averages are taken toward zero, so they always fit a sample again.

/// Integer division rounding toward zero, as an average of samples needs.
pub open spec fn div_toward_zero(a: int, b: int) -> int
    recommends
        b > 0,
{
    if a >= 0 {
        a / b
    } else {
        -((-a) / b)
    }
}

/// The sum of the `c` samples starting at `base`.
pub open spec fn chan_sum(data: Seq<i16>, base: int, c: int) -> int
    decreases c,
{
    if c <= 0 {
        0
    } else {
        chan_sum(data, base, c - 1) + data[base + c - 1]
    }
}

/// The mono value of interleaved frame `i`: the channels' average.
pub open spec fn mono_sample(data: Seq<i16>, channels: int, i: int) -> int {
    div_toward_zero(chan_sum(data, i * channels, channels), channels)
}

/// A channel sum of `c` samples lies within `c` full-scale magnitudes.
proof fn lemma_chan_sum_bound(data: Seq<i16>, base: int, c: int)
    requires
        c >= 0,
    ensures
        -(c * 0x8000) <= chan_sum(data, base, c) <= c * 0x8000,
    decreases c,
{
    if c > 0 {
        lemma_chan_sum_bound(data, base, c - 1);
        assert((c - 1) * 0x8000 == c * 0x8000 - 0x8000);
    }
}

/// Downmixes interleaved samples to mono by averaging each frame's
/// channels toward zero; a trailing partial frame is dropped.
pub fn downmix(data: &Vec<i16>, channels: u16) -> (mono: Vec<i16>)
    requires
        channels >= 1,
    ensures
        mono@.len() == data@.len() as int / channels as int,
        forall|i: int|
            0 <= i < mono@.len() ==> mono@[i] == mono_sample(data@, channels as int, i),
{
    let c = channels as usize;
    let n = data.len() / c;
    proof {
        lemma_div_pos_is_pos(data@.len() as int, c as int);
        lemma_fundamental_div_mod(data@.len() as int, c as int);
        lemma_mod_bound(data@.len() as int, c as int);
        assert(n * c <= data@.len()) by (nonlinear_arith)
            requires
                data@.len() as int == c as int * (data@.len() as int / c as int) + data@.len()
                    as int % c as int,
                data@.len() as int % c as int >= 0,
                n == data@.len() as int / c as int,
        ;
    }
    let mut mono: Vec<i16> = Vec::new();
    let mut i: usize = 0;
    while i < n
        invariant
            1 <= c <= 0x10000,
            n == data@.len() as int / c as int,
            n * c <= data@.len(),
            data@.len() <= usize::MAX,
            0 <= i <= n,
            mono@.len() == i,
            forall|j: int| 0 <= j < i ==> mono@[j] == mono_sample(data@, c as int, j),
        decreases n - i,
    {
        proof {
            assert((i + 1) * c <= n * c) by (nonlinear_arith)
                requires i + 1 <= n, c >= 0;
            assert((i + 1) * c == i * c + c) by (nonlinear_arith);
        }
        let base = i * c;
        let mut sum: i64 = 0;
        let mut k: usize = 0;
        while k < c
            invariant
                0 <= k <= c,
                c <= 0x10000,
                base + c <= data@.len(),
                data@.len() <= usize::MAX,
                base == i * c,
                sum as int == chan_sum(data@, base as int, k as int),
                -((k as int) * 0x8000) <= sum <= (k as int) * 0x8000,
            decreases c - k,
        {
            sum = sum + data[base + k] as i64;
            k = k + 1;
        }
        proof {
            lemma_chan_sum_bound(data@, base as int, c as int);
        }
        let avg: i16 = if sum >= 0 {
            proof {
                lemma_positive_sum_bound(data@, base as int, c as int);
                lemma_multiply_divide_le(sum as int, c as int, 0x7fff);
            }
            let q = (sum as u64) / (c as u64);
            q as i16
        } else {
            proof {
                lemma_multiply_divide_le(-(sum as int), c as int, 0x8000);
            }
            let q = ((-(sum)) as u64) / (c as u64);
            (-(q as i64)) as i16
        };
        assert(avg as int == mono_sample(data@, c as int, i as int));
        mono.push(avg);
        i = i + 1;
    }
    mono
}

/// A nonnegative channel sum is at most `c` times the largest positive
/// sample, so its average never exceeds the positive full scale.
proof fn lemma_positive_sum_bound(data: Seq<i16>, base: int, c: int)
    requires
        c >= 0,
    ensures
        chan_sum(data, base, c) <= c * 0x7fff,
    decreases c,
{
    if c > 0 {
        lemma_positive_sum_bound(data, base, c - 1);
        assert((c - 1) * 0x7fff == c * 0x7fff - 0x7fff);
    }
}

} // verus!
