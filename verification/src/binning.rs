//! Binning of numbers between ascending edges, and the histogram built on it.
//!
//! `n` edges bound `n - 1` bins. Every bin is closed on one side and open on
//! the other, as `inclusive_left` says, except at the two ends: the first bin
//! is always closed on the left and the last bin always on the right.

use vstd::prelude::*;
use vstd::string::*;
use crate::number::Binary64;

verus! {

/// A bin edge: its value, and how the value is written in a label.
#[derive(Debug)]
pub struct Edge {
    pub value: Binary64,
    pub text: String,
}

/// One bin of a histogram.
#[derive(Debug)]
pub struct Bin {
    pub label: String,
    pub count: usize,
}

/// The values of `edges`, in order.
pub open spec fn edge_values(edges: Seq<Edge>) -> Seq<Binary64> {
    Seq::new(edges.len(), |i: int| edges[i].value)
}

/// No edge is NaN and no edge is above the one after it.
pub open spec fn ascending(values: Seq<Binary64>) -> bool {
    &&& forall|i: int| 0 <= i < values.len() ==> !(#[trigger] values[i]).nan()
    &&& forall|i: int, j: int|
        0 <= i <= j < values.len() ==> (#[trigger] values[i]).place() <= (#[trigger] values[j]).place()
}

/// Every edge is below the one after it.
pub open spec fn strictly_ascending(values: Seq<Binary64>) -> bool {
    &&& forall|i: int| 0 <= i < values.len() ==> !(#[trigger] values[i]).nan()
    &&& forall|i: int, j: int|
        0 <= i < j < values.len() ==> (#[trigger] values[i]).place() < (#[trigger] values[j]).place()
}

/// Whether `x` lies between the first and the last edge, both included.
pub open spec fn within(x: Binary64, values: Seq<Binary64>) -> bool {
    &&& values.len() >= 2
    &&& values[0].at_most(x)
    &&& x.at_most(values[values.len() - 1])
}

/// Whether bin `j` is closed on the left.
pub open spec fn left_closed(j: int, inclusive_left: bool) -> bool {
    inclusive_left || j == 0
}

/// Whether bin `j` of `bins` bins is closed on the right.
pub open spec fn right_closed(j: int, bins: int, inclusive_left: bool) -> bool {
    !inclusive_left || j == bins - 1
}

/// Whether `x` lies in bin `j`, the interval from `values[j]` to
/// `values[j + 1]` with the sides closed as the rule says.
pub open spec fn in_bin(x: Binary64, values: Seq<Binary64>, j: int, inclusive_left: bool) -> bool {
    let lo = values[j];
    let hi = values[j + 1];
    let bins = values.len() - 1;
    &&& 0 <= j < bins
    &&& if left_closed(j, inclusive_left) {
        lo.at_most(x)
    } else {
        lo.below(x)
    }
    &&& if right_closed(j, bins, inclusive_left) {
        x.at_most(hi)
    } else {
        x.below(hi)
    }
}

/// The first bin at or after `from` that holds `x`, if there is one.
pub open spec fn first_bin(
    x: Binary64,
    values: Seq<Binary64>,
    inclusive_left: bool,
    from: int,
) -> Option<int>
    decreases values.len() - from,
{
    if from < 0 || from >= values.len() - 1 {
        None
    } else if in_bin(x, values, from, inclusive_left) {
        Some(from)
    } else {
        first_bin(x, values, inclusive_left, from + 1)
    }
}

/// The bin that `x` is assigned to: the first one that holds it.
pub open spec fn bin_of(x: Binary64, values: Seq<Binary64>, inclusive_left: bool) -> Option<int> {
    first_bin(x, values, inclusive_left, 0)
}

/// `first_bin` finds a bin that holds `x` with none before it, or there is
/// none from `from` on.
pub proof fn lemma_first_bin(x: Binary64, values: Seq<Binary64>, inclusive_left: bool, from: int)
    requires
        0 <= from,
    ensures
        match first_bin(x, values, inclusive_left, from) {
            Some(j) => from <= j < values.len() - 1 && in_bin(x, values, j, inclusive_left)
                && forall|k: int| from <= k < j ==> !in_bin(x, values, k, inclusive_left),
            None => forall|k: int| from <= k ==> !in_bin(x, values, k, inclusive_left),
        },
    decreases values.len() - from,
{
    if from >= values.len() - 1 {
    } else if in_bin(x, values, from, inclusive_left) {
    } else {
        lemma_first_bin(x, values, inclusive_left, from + 1);
    }
}

/// Between ascending edges a number has a bin exactly when it lies between
/// the first and the last edge.
pub proof fn lemma_bin_exists_iff_within(x: Binary64, values: Seq<Binary64>, inclusive_left: bool)
    requires
        ascending(values),
    ensures
        bin_of(x, values, inclusive_left) is Some <==> within(x, values),
{
    lemma_first_bin(x, values, inclusive_left, 0);
    if within(x, values) {
        lemma_some_bin_holds(x, values, inclusive_left, 0);
    } else if bin_of(x, values, inclusive_left) is Some {
        let j = bin_of(x, values, inclusive_left)->0;
        assert(values[0].place() <= values[j].place());
        assert(values[j + 1].place() <= values[values.len() - 1].place());
    }
}

/// A number at or above edge `from` and at or below the last edge lies in
/// some bin at or after `from`.
proof fn lemma_some_bin_holds(x: Binary64, values: Seq<Binary64>, inclusive_left: bool, from: int)
    requires
        ascending(values),
        0 <= from < values.len() - 1,
        values[from].at_most(x),
        from > 0 && !inclusive_left ==> values[from].below(x),
        x.at_most(values[values.len() - 1]),
    ensures
        exists|j: int| from <= j && in_bin(x, values, j, inclusive_left),
    decreases values.len() - from,
{
    let bins = values.len() - 1;
    if in_bin(x, values, from, inclusive_left) {
    } else {
        assert(from < bins - 1);
        lemma_some_bin_holds(x, values, inclusive_left, from + 1);
    }
}

/// Between strictly ascending edges no number lies in two bins.
pub proof fn lemma_bin_unique(
    x: Binary64,
    values: Seq<Binary64>,
    inclusive_left: bool,
    j: int,
    k: int,
)
    requires
        strictly_ascending(values),
        in_bin(x, values, j, inclusive_left),
        in_bin(x, values, k, inclusive_left),
    ensures
        j == k,
{
    if j < k {
        assert(values[j + 1].place() <= values[k].place());
        if j + 1 < k {
            assert(values[j + 1].place() < values[k].place());
        }
    } else if k < j {
        assert(values[k + 1].place() <= values[j].place());
        if k + 1 < j {
            assert(values[k + 1].place() < values[j].place());
        }
    }
}

/// The label of a bin: its two edges as they are written, between a square
/// bracket on each closed side and a round one on each open side.
pub open spec fn label_text(
    lo: Seq<char>,
    hi: Seq<char>,
    left_closed: bool,
    right_closed: bool,
) -> Seq<char> {
    seq![if left_closed { '[' } else { '(' }] + lo + seq![',', ' '] + hi + seq![
        if right_closed { ']' } else { ')' },
    ]
}

/// The label of bin `j`.
pub open spec fn bin_label(edges: Seq<Edge>, j: int, inclusive_left: bool) -> Seq<char> {
    label_text(
        edges[j].text@,
        edges[j + 1].text@,
        left_closed(j, inclusive_left),
        right_closed(j, edges.len() - 1, inclusive_left),
    )
}

/// What `x` is assigned: the label of its bin, or nothing where it has none.
pub open spec fn assignment(x: Binary64, edges: Seq<Edge>, inclusive_left: bool) -> Seq<char> {
    match bin_of(x, edge_values(edges), inclusive_left) {
        Some(j) => bin_label(edges, j, inclusive_left),
        None => Seq::empty(),
    }
}

/// How many of `data` are assigned to bin `j`.
pub open spec fn tally(data: Seq<Binary64>, values: Seq<Binary64>, j: int, inclusive_left: bool) -> nat
    decreases data.len(),
{
    if data.len() == 0 {
        0
    } else {
        let rest = tally(data.drop_last(), values, j, inclusive_left);
        if bin_of(data.last(), values, inclusive_left) == Some(j) {
            rest + 1
        } else {
            rest
        }
    }
}

/// How many of `data` lie between the first and the last edge.
pub open spec fn count_within(data: Seq<Binary64>, values: Seq<Binary64>) -> nat
    decreases data.len(),
{
    if data.len() == 0 {
        0
    } else {
        let rest = count_within(data.drop_last(), values);
        if within(data.last(), values) {
            rest + 1
        } else {
            rest
        }
    }
}

/// The counts of `bins` added up.
pub open spec fn total_count(bins: Seq<Bin>) -> nat
    decreases bins.len(),
{
    if bins.len() == 0 {
        0
    } else {
        total_count(bins.drop_last()) + bins.last().count as nat
    }
}

spec fn sum(counts: Seq<usize>) -> nat
    decreases counts.len(),
{
    if counts.len() == 0 {
        0
    } else {
        sum(counts.drop_last()) + counts.last() as nat
    }
}

proof fn lemma_sum_zeros(counts: Seq<usize>)
    requires
        forall|i: int| 0 <= i < counts.len() ==> counts[i] == 0,
    ensures
        sum(counts) == 0,
    decreases counts.len(),
{
    if counts.len() > 0 {
        lemma_sum_zeros(counts.drop_last());
    }
}

proof fn lemma_sum_update(counts: Seq<usize>, j: int, v: usize)
    requires
        0 <= j < counts.len(),
    ensures
        sum(counts.update(j, v)) == sum(counts) - counts[j] + v,
    decreases counts.len(),
{
    let after = counts.update(j, v);
    if j == counts.len() - 1 {
        assert(after.drop_last() =~= counts.drop_last());
    } else {
        assert(after.drop_last() =~= counts.drop_last().update(j, v));
        lemma_sum_update(counts.drop_last(), j, v);
    }
}

proof fn lemma_total_is_sum(bins: Seq<Bin>, counts: Seq<usize>)
    requires
        bins.len() == counts.len(),
        forall|i: int| 0 <= i < bins.len() ==> (#[trigger] bins[i]).count == counts[i],
    ensures
        total_count(bins) == sum(counts),
    decreases bins.len(),
{
    if bins.len() > 0 {
        lemma_total_is_sum(bins.drop_last(), counts.drop_last());
    }
}

/// Whether the edges are ascending.
pub fn is_ascending(edges: &Vec<Edge>) -> (r: bool)
    ensures
        r == ascending(edge_values(edges@)),
{
    let ghost values = edge_values(edges@);
    if edges.len() == 0 {
        return true;
    }
    if edges[0].value.is_nan() {
        assert(values[0].nan());
        return false;
    }
    let mut i: usize = 1;
    while i < edges.len()
        invariant
            1 <= i <= edges.len(),
            values == edge_values(edges@),
            forall|k: int| 0 <= k < i ==> !(#[trigger] values[k]).nan(),
            forall|k: int, l: int|
                0 <= k <= l < i ==> (#[trigger] values[k]).place() <= (#[trigger] values[l]).place(),
        decreases edges.len() - i,
    {
        if !edges[i - 1].value.is_at_most(edges[i].value) {
            assert(values[i as int].nan() || values[i - 1].place() > values[i as int].place());
            return false;
        }
        assert forall|k: int, l: int| 0 <= k <= l < i + 1 implies (#[trigger] values[k]).place() <= (
        #[trigger] values[l]).place() by {
            if l == i && k < i {
                assert(values[k].place() <= values[i - 1].place());
            }
        }
        i += 1;
    }
    true
}

/// The bin that `x` is assigned to. Between ascending edges that is the first
/// bin that holds `x`; a number outside the edges, and NaN, has none.
pub fn bin_index(x: Binary64, edges: &Vec<Edge>, inclusive_left: bool) -> (r: Option<usize>)
    requires
        ascending(edge_values(edges@)),
    ensures
        match r {
            Some(j) => bin_of(x, edge_values(edges@), inclusive_left) == Some(j as int),
            None => bin_of(x, edge_values(edges@), inclusive_left) is None,
        },
        r is Some <==> within(x, edge_values(edges@)),
        r matches Some(j) ==> j < edges.len() - 1 && in_bin(
            x,
            edge_values(edges@),
            j as int,
            inclusive_left,
        ),
{
    let ghost values = edge_values(edges@);
    proof {
        lemma_first_bin(x, values, inclusive_left, 0);
        lemma_bin_exists_iff_within(x, values, inclusive_left);
    }
    let n: usize = edges.len();
    if n < 2 {
        return None;
    }
    if x.is_nan() || x.is_below(edges[0].value) || x.is_above(edges[n - 1].value) {
        return None;
    }
    let mut j: usize = 0;
    while j < n - 1
        invariant
            n == edges.len(),
            n >= 2,
            j <= n - 1,
            values == edge_values(edges@),
            ascending(values),
            within(x, values),
            j < n - 1 ==> values[j as int].at_most(x),
            0 < j < n - 1 && !inclusive_left ==> values[j as int].below(x),
            forall|k: int| 0 <= k < j ==> !in_bin(x, values, k, inclusive_left),
        decreases n - j,
    {
        let hi: Binary64 = edges[j + 1].value;
        if x.is_below(hi) || (x.is_same(hi) && (!inclusive_left || j == n - 2)) {
            proof {
                assert(values[j + 1] == hi);
                assert(in_bin(x, values, j as int, inclusive_left));
                lemma_first_bin(x, values, inclusive_left, 0);
            }
            return Some(j);
        }
        proof {
            assert(values[j + 1] == hi);
            assert(values[j as int].place() <= values[j + 1].place());
            assert(!in_bin(x, values, j as int, inclusive_left));
        }
        j += 1;
    }
    None
}

/// Writes the label of a bin from its two edges.
pub fn make_label(lo: &String, hi: &String, left_closed: bool, right_closed: bool) -> (r: String)
    ensures
        r@ == label_text(lo@, hi@, left_closed, right_closed),
{
    proof {
        reveal_strlit("[");
        reveal_strlit("(");
        reveal_strlit(", ");
        reveal_strlit("]");
        reveal_strlit(")");
    }
    let mut s: String = if left_closed {
        String::from_str("[")
    } else {
        String::from_str("(")
    };
    s.append(lo.as_str());
    s.append(", ");
    s.append(hi.as_str());
    if right_closed {
        s.append("]");
    } else {
        s.append(")");
    }
    assert(s@ =~= label_text(lo@, hi@, left_closed, right_closed));
    s
}

/// Writes the label of bin `j`.
pub fn label_of(edges: &Vec<Edge>, j: usize, inclusive_left: bool) -> (r: String)
    requires
        j + 1 < edges.len(),
    ensures
        r@ == bin_label(edges@, j as int, inclusive_left),
{
    make_label(
        &edges[j].text,
        &edges[j + 1].text,
        inclusive_left || j == 0,
        !inclusive_left || j == edges.len() - 2,
    )
}

/// Assigns each of `data` to its bin: the result holds, for each number in
/// order, the label of the bin it lies in, or the empty string where it lies
/// in none.
pub fn bin(data: &Vec<Binary64>, edges: &Vec<Edge>, inclusive_left: bool) -> (r: Vec<String>)
    requires
        ascending(edge_values(edges@)),
    ensures
        r.len() == data.len(),
        forall|i: int|
            0 <= i < data.len() ==> (#[trigger] r[i])@ == assignment(data[i], edges@, inclusive_left),
{
    let mut out: Vec<String> = Vec::new();
    let mut i: usize = 0;
    while i < data.len()
        invariant
            i <= data.len(),
            out.len() == i,
            ascending(edge_values(edges@)),
            forall|k: int|
                0 <= k < i ==> (#[trigger] out[k])@ == assignment(data[k], edges@, inclusive_left),
        decreases data.len() - i,
    {
        let name: String = match bin_index(data[i], edges, inclusive_left) {
            Some(j) => label_of(edges, j, inclusive_left),
            None => String::new(),
        };
        out.push(name);
        i += 1;
    }
    out
}

/// Counts how many of `data` fall in each bin. The result has one bin for
/// each pair of neighbouring edges, in order and with its label, empty bins
/// included; the counts add up to how many of `data` lie between the first
/// and the last edge.
pub fn histogram(data: &Vec<Binary64>, edges: &Vec<Edge>, inclusive_left: bool) -> (r: Vec<Bin>)
    requires
        ascending(edge_values(edges@)),
    ensures
        edges.len() >= 1 ==> r.len() == edges.len() - 1,
        edges.len() == 0 ==> r.len() == 0,
        forall|j: int|
            0 <= j < r.len() ==> (#[trigger] r[j]).label@ == bin_label(edges@, j, inclusive_left),
        forall|j: int|
            0 <= j < r.len() ==> (#[trigger] r[j]).count == tally(
                data@,
                edge_values(edges@),
                j,
                inclusive_left,
            ),
        total_count(r@) == count_within(data@, edge_values(edges@)),
{
    let ghost values = edge_values(edges@);
    let bins: usize = if edges.len() == 0 {
        0
    } else {
        edges.len() - 1
    };
    let mut counts: Vec<usize> = Vec::new();
    let mut b: usize = 0;
    while b < bins
        invariant
            b <= bins,
            counts.len() == b,
            forall|k: int| 0 <= k < b ==> counts[k] == 0,
        decreases bins - b,
    {
        counts.push(0);
        b += 1;
    }
    proof {
        lemma_sum_zeros(counts@);
    }
    let mut i: usize = 0;
    while i < data.len()
        invariant
            i <= data.len(),
            counts.len() == bins,
            edges.len() >= 1 ==> bins == edges.len() - 1,
            edges.len() == 0 ==> bins == 0,
            values == edge_values(edges@),
            ascending(values),
            forall|k: int|
                0 <= k < bins ==> counts[k] == tally(data@.take(i as int), values, k, inclusive_left),
            sum(counts@) == count_within(data@.take(i as int), values),
            sum(counts@) <= i,
        decreases data.len() - i,
    {
        let ghost before = data@.take(i as int);
        let ghost after = data@.take(i + 1);
        let ghost old_counts = counts@;
        proof {
            assert(after.drop_last() =~= before);
            assert(after.last() == data[i as int]);
        }
        match bin_index(data[i], edges, inclusive_left) {
            Some(j) => {
                proof {
                    lemma_sum_update(old_counts, j as int, (old_counts[j as int] + 1) as usize);
                    lemma_sum_at_least(old_counts, j as int);
                }
                let c: usize = counts[j];
                counts.set(j, c + 1);
            },
            None => {},
        }
        i += 1;
    }
    assert(data@.take(data.len() as int) =~= data@);
    let mut out: Vec<Bin> = Vec::new();
    let mut j: usize = 0;
    while j < bins
        invariant
            j <= bins,
            out.len() == j,
            counts.len() == bins,
            edges.len() >= 1 ==> bins == edges.len() - 1,
            edges.len() == 0 ==> bins == 0,
            forall|k: int|
                0 <= k < j ==> (#[trigger] out[k]).label@ == bin_label(edges@, k, inclusive_left),
            forall|k: int| 0 <= k < j ==> (#[trigger] out[k]).count == counts[k],
        decreases bins - j,
    {
        let label: String = label_of(edges, j, inclusive_left);
        out.push(Bin { label, count: counts[j] });
        j += 1;
    }
    proof {
        lemma_total_is_sum(out@, counts@);
    }
    out
}

proof fn lemma_sum_at_least(counts: Seq<usize>, j: int)
    requires
        0 <= j < counts.len(),
    ensures
        counts[j] <= sum(counts),
    decreases counts.len(),
{
    if j < counts.len() - 1 {
        lemma_sum_at_least(counts.drop_last(), j);
    }
}

} // verus!
