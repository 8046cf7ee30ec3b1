//! The parts of the private kernels that rest on order alone: clamping
//! before counting, and the suppression of small counts in the stability
//! release. The arithmetic of the statistics and the noise are not here.

use vstd::prelude::*;
use crate::binning::{
    ascending, count_within, edge_values, histogram, lemma_bin_exists_iff_within, tally,
    total_count, within, Bin, Edge, bin_label,
};
use crate::number::{clamp_all, clamped_all, Binary64};

verus! {

/// A noise scale is in range: finite and above zero.
pub open spec fn scale_in_range(scale: Binary64) -> bool {
    scale.finite() && scale.place() > 0
}

/// Whether a noise scale is finite and above zero. Noise is drawn for no
/// other scale.
pub fn check_scale(scale: Binary64) -> (r: bool)
    ensures
        r == scale_in_range(scale),
{
    scale.is_positive()
}

/// The edges run from `minimum` to `maximum`.
pub open spec fn spans(values: Seq<Binary64>, minimum: Binary64, maximum: Binary64) -> bool {
    &&& values.len() >= 2
    &&& values[0].same(minimum)
    &&& values[values.len() - 1].same(maximum)
}

/// How many of `data` are NaN.
pub open spec fn count_nan(data: Seq<Binary64>) -> nat
    decreases data.len(),
{
    if data.len() == 0 {
        0
    } else if data.last().nan() {
        count_nan(data.drop_last()) + 1
    } else {
        count_nan(data.drop_last())
    }
}

/// Between edges that run from `minimum` to `maximum`, every clamped number
/// is counted but NaN.
pub proof fn lemma_clamped_all_counted(
    data: Seq<Binary64>,
    values: Seq<Binary64>,
    minimum: Binary64,
    maximum: Binary64,
)
    requires
        minimum.at_most(maximum),
        spans(values, minimum, maximum),
    ensures
        count_within(clamped_all(data, minimum, maximum), values) + count_nan(data) == data.len(),
    decreases data.len(),
{
    let all = clamped_all(data, minimum, maximum);
    if data.len() > 0 {
        let rest = data.drop_last();
        lemma_clamped_all_counted(rest, values, minimum, maximum);
        assert(all.drop_last() =~= clamped_all(rest, minimum, maximum));
        assert(all.last() == data.last().clamped(minimum, maximum));
    }
}

/// The counts behind a private histogram: the data is clamped to
/// `[minimum, maximum]` and then counted between the edges. Where the edges
/// run from `minimum` to `maximum`, every number of the data is counted but
/// NaN.
pub fn clamped_histogram(
    data: &Vec<Binary64>,
    minimum: Binary64,
    maximum: Binary64,
    edges: &Vec<Edge>,
    inclusive_left: bool,
) -> (r: Vec<Bin>)
    requires
        minimum.at_most(maximum),
        ascending(edge_values(edges@)),
    ensures
        edges.len() >= 1 ==> r.len() == edges.len() - 1,
        edges.len() == 0 ==> r.len() == 0,
        forall|j: int|
            0 <= j < r.len() ==> (#[trigger] r[j]).label@ == bin_label(edges@, j, inclusive_left),
        forall|j: int|
            0 <= j < r.len() ==> (#[trigger] r[j]).count == tally(
                clamped_all(data@, minimum, maximum),
                edge_values(edges@),
                j,
                inclusive_left,
            ),
        total_count(r@) == count_within(clamped_all(data@, minimum, maximum), edge_values(edges@)),
        spans(edge_values(edges@), minimum, maximum) ==> total_count(r@) + count_nan(data@)
            == data.len(),
{
    let clamped: Vec<Binary64> = clamp_all(data, minimum, maximum);
    proof {
        if spans(edge_values(edges@), minimum, maximum) {
            lemma_clamped_all_counted(data@, edge_values(edges@), minimum, maximum);
        }
    }
    histogram(&clamped, edges, inclusive_left)
}

/// What the stability release keeps of a noisy count: nothing of a bin that
/// was empty, nothing of a count below the threshold, and else the count.
pub open spec fn kept(count: usize, noisy: Binary64, threshold: Binary64) -> Binary64 {
    if count == 0 || noisy.below(threshold) {
        Binary64 { bits: 0 }
    } else {
        noisy
    }
}

/// The stability release. `noisy[j]` is the count of bin `j` with its noise.
/// A bin that was empty is released as zero whatever `noisy` holds for it,
/// and so is a bin whose noisy count is below the threshold.
pub fn release_stable(counts: &Vec<usize>, noisy: &Vec<Binary64>, threshold: Binary64) -> (r: Vec<
    Binary64,
>)
    requires
        counts.len() == noisy.len(),
    ensures
        r.len() == counts.len(),
        forall|j: int| 0 <= j < r.len() ==> #[trigger] r[j] == kept(counts[j], noisy[j], threshold),
{
    let mut out: Vec<Binary64> = Vec::new();
    let mut j: usize = 0;
    while j < counts.len()
        invariant
            j <= counts.len(),
            counts.len() == noisy.len(),
            out.len() == j,
            forall|k: int| 0 <= k < j ==> #[trigger] out[k] == kept(counts[k], noisy[k], threshold),
        decreases counts.len() - j,
    {
        if counts[j] == 0 || noisy[j].is_below(threshold) {
            out.push(Binary64::zero());
        } else {
            out.push(noisy[j]);
        }
        j += 1;
    }
    out
}

} // verus!
