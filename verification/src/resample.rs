use vstd::arithmetic::div_mod::{
    lemma_div_is_ordered, lemma_fundamental_div_mod, lemma_fundamental_div_mod_converse,
};
use vstd::prelude::*;

verus! {

// ---------------------------------------------------------------------------
// Linear resampling positions.
//
// Converting a sequence of `src_len` samples from `src_rate` to
// `dst_rate` produces `ceil(src_len * dst_rate / src_rate)` output
// samples. Output sample `i` sits at source position
// `i * src_rate / dst_rate`; it interpolates linearly between the samples
// at the positions on either side, and falls exactly on a source sample
// precisely when `(i * src_rate) % dst_rate == 0` — an integer test, so
// no floating-point noise can blur an exact hit. Positions past the last
// source sample are clamped to it. The interpolation weights themselves
// are the only floating-point work and stay outside the library: each
// point hands out the integers that determine them.
// ---------------------------------------------------------------------------
/// One output sample position of a linear resampling.
#[derive(Clone, Copy, PartialEq, Eq, Structural, Debug)]
pub struct ResamplePoint {
    /// The source sample at or before the position.
    pub index_floor: usize,
    /// The source sample after the position, or the last source sample
    /// again when the position reaches past it.
    pub index_next: usize,
    /// The position times `dst_rate`: the output index times `src_rate`.
    pub scaled_pos: u64,
    /// The position falls exactly on the source sample `index_floor`.
    pub exact: bool,
}

/// The number of output samples: `src_len * dst_rate / src_rate`,
/// rounded up.
pub open spec fn resample_len(src_len: int, src_rate: int, dst_rate: int) -> int {
    (src_len * dst_rate + src_rate - 1) / src_rate
}

/// Exactness at integer rate ratios: when the source rate is a whole
/// multiple `k` of the target rate, every output position lands exactly
/// on a source sample, namely sample `k * i` for output index `i`.
/// Together with `resample_plan`'s contract: downsampling by `k : 1`
/// marks every point exact and picks every `k`-th source sample, with no
/// interpolation at all.
pub proof fn lemma_integer_ratio_is_exact(i: int, k: int, dst_rate: int)
    requires
        0 <= i,
        1 <= k,
        1 <= dst_rate,
    ensures
        (i * (k * dst_rate)) % dst_rate == 0,
        (i * (k * dst_rate)) / dst_rate == i * k,
{
    assert(i * (k * dst_rate) == (i * k) * dst_rate + 0) by (nonlinear_arith);
    assert(0 <= i * k) by (nonlinear_arith)
        requires
            0 <= i,
            0 <= k,
    ;
    lemma_fundamental_div_mod_converse(i * (k * dst_rate), dst_rate, i * k, 0);
}

/// The positions of a linear resampling from `src_len` samples at
/// `src_rate` to the matching duration at `dst_rate`. Every output index
/// maps to its exact rational source position; positions on a source
/// sample are marked exact, and the final positions clamp to the last
/// source sample rather than reaching past it.
pub fn resample_plan(src_len: usize, src_rate: usize, dst_rate: usize) -> (r: Vec<ResamplePoint>)
    requires
        1 <= src_rate,
        1 <= dst_rate,
        src_len * dst_rate + src_rate <= u64::MAX,
        resample_len(src_len as int, src_rate as int, dst_rate as int) <= usize::MAX,
    ensures
        r@.len() == resample_len(src_len as int, src_rate as int, dst_rate as int),
        r@.len() > 0 ==> src_len > 0,
        forall|i: int|
            0 <= i < r@.len() ==> {
                let p = #[trigger] r@[i];
                &&& p.scaled_pos == i * src_rate
                &&& p.exact <==> (i * src_rate) % (dst_rate as int) == 0
                &&& p.index_floor == (i * src_rate) / (dst_rate as int)
                &&& p.index_floor < src_len
                &&& p.index_next == (if p.index_floor + 1 < src_len {
                    p.index_floor + 1
                } else {
                    src_len - 1
                })
                &&& (p.exact ==> p.scaled_pos == p.index_floor * dst_rate)
            },
{
    let out_len_u64: u64 = ((src_len as u64) * (dst_rate as u64) + (src_rate as u64) - 1) / (
    src_rate as u64);
    let out_len: usize = out_len_u64 as usize;
    let ghost gn: int = src_len as int * dst_rate as int;
    proof {
        lemma_fundamental_div_mod(gn + src_rate - 1, src_rate as int);
        if out_len > 0 {
            if src_len == 0 {
                assert(gn == 0) by (nonlinear_arith)
                    requires
                        src_len == 0,
                        gn == src_len as int * dst_rate as int,
                ;
                assert((src_rate - 1) / (src_rate as int) == 0) by {
                    lemma_fundamental_div_mod_converse(
                        src_rate - 1,
                        src_rate as int,
                        0,
                        src_rate - 1,
                    );
                }
                assert(false);
            }
        }
    }
    let mut r: Vec<ResamplePoint> = Vec::new();
    let mut i: usize = 0;
    while i < out_len
        invariant
            1 <= src_rate,
            1 <= dst_rate,
            gn == src_len as int * dst_rate as int,
            gn + src_rate <= u64::MAX,
            out_len == resample_len(src_len as int, src_rate as int, dst_rate as int),
            i <= out_len,
            out_len > 0 ==> src_len > 0,
            r@.len() == i,
            forall|k: int|
                0 <= k < i ==> {
                    let p = #[trigger] r@[k];
                    &&& p.scaled_pos == k * src_rate
                    &&& p.exact <==> (k * src_rate) % (dst_rate as int) == 0
                    &&& p.index_floor == (k * src_rate) / (dst_rate as int)
                    &&& p.index_floor < src_len
                    &&& p.index_next == (if p.index_floor + 1 < src_len {
                        p.index_floor + 1
                    } else {
                        src_len - 1
                    })
                    &&& (p.exact ==> p.scaled_pos == p.index_floor * dst_rate)
                },
        decreases out_len - i,
    {
        proof {
            // the scaled position stays below `src_len * dst_rate`
            lemma_fundamental_div_mod(gn + src_rate - 1, src_rate as int);
            assert((out_len as int) * (src_rate as int) <= gn + src_rate - 1);
            assert((i as int) * (src_rate as int) <= (out_len as int - 1) * (src_rate as int)
                && (out_len as int - 1) * (src_rate as int) <= gn - 1) by (nonlinear_arith)
                requires
                    0 <= (i as int) <= out_len as int - 1,
                    1 <= (src_rate as int),
                    (out_len as int) * (src_rate as int) <= gn + src_rate - 1,
            ;
        }
        let scaled: u64 = (i as u64) * (src_rate as u64);
        let floor_u64: u64 = scaled / (dst_rate as u64);
        let exact: bool = scaled % (dst_rate as u64) == 0;
        proof {
            // the floor index stays below `src_len`
            lemma_div_is_ordered(scaled as int, gn - 1, dst_rate as int);
            assert(gn - 1 == (src_len as int - 1) * (dst_rate as int) + (dst_rate as int - 1))
                by (nonlinear_arith)
                requires
                    gn == src_len as int * dst_rate as int,
                    1 <= src_len,
                    1 <= dst_rate,
            ;
            lemma_fundamental_div_mod_converse(
                gn - 1,
                dst_rate as int,
                src_len as int - 1,
                dst_rate as int - 1,
            );
            assert(floor_u64 as int <= src_len as int - 1);
            if exact {
                lemma_fundamental_div_mod(scaled as int, dst_rate as int);
            }
        }
        let index_floor: usize = floor_u64 as usize;
        let index_next: usize = if index_floor + 1 < src_len {
            index_floor + 1
        } else {
            src_len - 1
        };
        r.push(ResamplePoint { index_floor, index_next, scaled_pos: scaled, exact });
        i = i + 1;
    }
    r
}

} // verus!
