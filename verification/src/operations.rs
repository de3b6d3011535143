//! Whole-image operations: the luminance histogram's counting, and the homes
//! of the floating-point operations (normal combining, brightness measuring,
//! range normalising) done outside this library.

use vstd::prelude::*;

verus! {

pub const HISTOGRAM_BINS: usize = 256;

/// Counts of pixels per luminance bin.
#[derive(Debug, Clone)]
pub struct Histogram {
    pub bins: [u64; 256],
}

/// How many entries of `s` equal `b`.
pub open spec fn count_of(s: Seq<usize>, b: int) -> nat
    decreases s.len(),
{
    if s.len() == 0 {
        0
    } else {
        count_of(s.drop_last(), b) + if s.last() == b {
            1nat
        } else {
            0nat
        }
    }
}

/// The bin of index `i` (indices past the last bin fall into the last one).
pub open spec fn bin_of(i: usize) -> int {
    if i < 255 {
        i as int
    } else {
        255
    }
}

/// How many entries of `s` fall into bin `b`.
pub open spec fn bin_count(s: Seq<usize>, b: int) -> nat
    decreases s.len(),
{
    if s.len() == 0 {
        0
    } else {
        bin_count(s.drop_last(), b) + if bin_of(s.last()) == b {
            1nat
        } else {
            0nat
        }
    }
}

proof fn lemma_bin_count_bound(s: Seq<usize>, b: int)
    ensures
        bin_count(s, b) <= s.len(),
    decreases s.len(),
{
    if s.len() > 0 {
        lemma_bin_count_bound(s.drop_last(), b);
    }
}

/// The counts of bins 0..`k` added up.
pub open spec fn bins_total(s: Seq<usize>, k: int) -> nat
    decreases k,
{
    if k <= 0 {
        0
    } else {
        bins_total(s, k - 1) + bin_count(s, k - 1)
    }
}

proof fn lemma_bins_total_step(s: Seq<usize>, k: int)
    requires
        s.len() > 0,
        0 <= k,
    ensures
        bins_total(s, k) == bins_total(s.drop_last(), k) + if bin_of(s.last()) < k {
            1nat
        } else {
            0nat
        },
    decreases k,
{
    if k > 0 {
        lemma_bins_total_step(s, k - 1);
    }
}

/// Every index is counted in exactly one bin: the bins add up to the number
/// of indices.
pub proof fn lemma_histogram_total(s: Seq<usize>)
    ensures
        bins_total(s, 256) == s.len(),
    decreases s.len(),
{
    if s.len() == 0 {
        lemma_bins_total_empty(s, 256);
    } else {
        lemma_bins_total_step(s, 256);
        lemma_histogram_total(s.drop_last());
    }
}

proof fn lemma_bins_total_empty(s: Seq<usize>, k: int)
    requires
        s.len() == 0,
    ensures
        bins_total(s, k) == 0,
    decreases k,
{
    if k > 0 {
        lemma_bins_total_empty(s, k - 1);
    }
}

impl Default for Histogram {
    fn default() -> (h: Self)
        ensures
            forall|b: int| 0 <= b < 256 ==> h.bins[b] == 0,
    {
        Histogram { bins: [0u64; 256] }
    }
}

impl Histogram {
    /// The histogram of per-pixel bin indices: each index counted in its bin,
    /// indices past the last bin counted in the last one.
    pub fn from_bin_indices(indices: &[usize]) -> (h: Self)
        requires
            indices@.len() <= u64::MAX,
        ensures
            forall|b: int| 0 <= b < 256 ==> h.bins[b] == bin_count(indices@, b),
    {
        let mut h = Histogram::default();
        let mut i: usize = 0;
        while i < indices.len()
            invariant
                i <= indices@.len(),
                indices@.len() <= u64::MAX,
                forall|b: int| 0 <= b < 256 ==> h.bins[b] == bin_count(
                    indices@.subrange(0, i as int),
                    b,
                ),
            decreases indices@.len() - i,
        {
            let idx = indices[i];
            let bin = if idx < 255 {
                idx
            } else {
                255
            };
            proof {
                let sub = indices@.subrange(0, i + 1);
                assert(sub.drop_last() =~= indices@.subrange(0, i as int));
                assert(sub.last() == idx);
                lemma_bin_count_bound(indices@.subrange(0, i as int), bin as int);
            }
            h.bins[bin] = h.bins[bin] + 1;
            i = i + 1;
        }
        assert(indices@.subrange(0, indices@.len() as int) =~= indices@);
        h
    }
}

/// Combining a detail normal map into a base normal map.
pub struct CombineNormals;

/// Measuring brightness and value ranges of images.
pub struct MeasureRanges;

/// Normalising colour ranges and vectors.
pub struct RangeNormalizer;

} // verus!
