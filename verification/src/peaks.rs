//! How a waveform overview splits decoded samples into peak buckets.

use vstd::prelude::*;
use vstd::string::StringExecFns;

use crate::error::SoundScoutError;

verus! {

broadcast use vstd::string::group_string_axioms;

/// Samples per bucket: `n / resolution`, at least one.
pub open spec fn bucket_width(n: int, resolution: int) -> int {
    if n / resolution >= 1 {
        n / resolution
    } else {
        1
    }
}

/// The sample range `[start, end)` of bucket `i`: buckets of equal width
/// from the start, the last one running to the end; a bucket starting at or
/// past `n` is empty (its peaks are zero).
pub open spec fn bucket_range(n: int, resolution: int, i: int) -> (int, int) {
    let w = bucket_width(n, resolution);
    let start = i * w;
    let end = if i + 1 == resolution {
        n
    } else if (i + 1) * w <= n {
        (i + 1) * w
    } else {
        n
    };
    (start, end)
}

/// The bucket that holds sample `s`.
pub open spec fn owning_bucket(n: int, resolution: int, s: int) -> int {
    if s / bucket_width(n, resolution) < resolution {
        s / bucket_width(n, resolution)
    } else {
        resolution - 1
    }
}

proof fn lemma_width_bounds(n: int, resolution: int)
    requires
        n >= 0,
        resolution > 0,
    ensures
        bucket_width(n, resolution) >= 1,
        bucket_width(n, resolution) == 1 || resolution * bucket_width(n, resolution) <= n,
{
    if n / resolution >= 1 {
        assert(resolution * (n / resolution) <= n) by (nonlinear_arith)
            requires
                n >= 0,
                resolution > 0,
        ;
    }
}

/// Splits `n_samples` samples into `resolution` peak buckets (see
/// [`bucket_range`]); a zero resolution is refused.
pub fn peak_buckets(n_samples: usize, resolution: usize) -> (r: Result<
    Vec<(usize, usize)>,
    SoundScoutError,
>)
    ensures
        resolution == 0 <==> r is Err,
        r matches Err(e) ==> (e matches SoundScoutError::Validation(m) && m@
            == "peak resolution must be > 0"@),
        r matches Ok(v) ==> v@.len() == resolution && forall|i: int|
            0 <= i < resolution ==> (#[trigger] v@[i]).0 == bucket_range(
                n_samples as int,
                resolution as int,
                i,
            ).0 && v@[i].1 == bucket_range(n_samples as int, resolution as int, i).1,
{
    if resolution == 0 {
        return Err(SoundScoutError::Validation(String::from_str("peak resolution must be > 0")));
    }
    let q = n_samples / resolution;
    let width: usize = if q >= 1 {
        q
    } else {
        1
    };
    proof {
        lemma_width_bounds(n_samples as int, resolution as int);
    }
    let mut out: Vec<(usize, usize)> = Vec::new();
    let mut i: usize = 0;
    while i < resolution
        invariant
            0 < resolution,
            i <= resolution,
            width == bucket_width(n_samples as int, resolution as int),
            width == 1 || resolution * width <= n_samples,
            width >= 1,
            out@.len() == i,
            forall|j: int|
                0 <= j < i ==> (#[trigger] out@[j]).0 == bucket_range(
                    n_samples as int,
                    resolution as int,
                    j,
                ).0 && out@[j].1 == bucket_range(n_samples as int, resolution as int, j).1,
        decreases resolution - i,
    {
        assert((i + 1) * width <= resolution * width) by (nonlinear_arith)
            requires
                i < resolution,
                width >= 1,
        ;
        assert(resolution * width <= usize::MAX) by (nonlinear_arith)
            requires
                width == 1 || resolution * width <= n_samples,
                resolution <= usize::MAX,
                n_samples <= usize::MAX,
        ;
        assert(i * width <= (i + 1) * width) by (nonlinear_arith)
            requires
                width >= 1,
        ;
        let start = i * width;
        let next = (i + 1) * width;
        let end = if i + 1 == resolution {
            n_samples
        } else if next <= n_samples {
            next
        } else {
            n_samples
        };
        out.push((start, end));
        i = i + 1;
    }
    Ok(out)
}

/// Law: every sample lies in exactly one bucket, the one [`owning_bucket`]
/// names.
pub proof fn law_each_sample_in_one_bucket(n: int, resolution: int, s: int, j: int)
    requires
        resolution > 0,
        0 <= s < n,
        0 <= j < resolution,
    ensures
        (bucket_range(n, resolution, j).0 <= s < bucket_range(n, resolution, j).1) <==> j
            == owning_bucket(n, resolution, s),
{
    let w = bucket_width(n, resolution);
    lemma_width_bounds(n, resolution);
    let q = s / w;
    assert(w * q <= s < w * (q + 1)) by (nonlinear_arith)
        requires
            w >= 1,
            s >= 0,
            q == s / w,
    ;
    assert(j * w <= s ==> j <= q) by (nonlinear_arith)
        requires
            w >= 1,
            s < w * (q + 1),
    ;
    assert(s < (j + 1) * w ==> q <= j) by (nonlinear_arith)
        requires
            w >= 1,
            w * q <= s,
    ;
    assert(j <= q ==> j * w <= s) by (nonlinear_arith)
        requires
            w >= 1,
            w * q <= s,
            j >= 0,
    ;
    assert(q < j + 1 ==> s < (j + 1) * w) by (nonlinear_arith)
        requires
            w >= 1,
            s < w * (q + 1),
    ;
}

} // verus!
