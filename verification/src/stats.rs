//! The reduction of samples to statistics, as far as it is a matter of
//! which samples are read: the rank of a percentile among sorted samples,
//! the draw of a bootstrap resample, the grouping of rows by event, and the
//! clean-up of the profiler's text.
//!
//! Percentiles are given in tenths of a percent, so that the quartiles and
//! the bounds of the confidence interval are whole numbers. What is computed
//! from the samples' values in floating point is the caller's part.

use vstd::prelude::*;
use vstd::arithmetic::div_mod::{lemma_div_is_ordered, lemma_fundamental_div_mod, lemma_mod_bound};
use rand::Rng;
use crate::text::{replace, replaced, starts_with, to_chars, views};

verus! {

/// The percentile of the first quartile, in tenths of a percent.
pub const FIRST_QUARTILE: u32 = 250;

/// The percentile of the median, in tenths of a percent.
pub const MEDIAN: u32 = 500;

/// The percentile of the third quartile, in tenths of a percent.
pub const THIRD_QUARTILE: u32 = 750;

/// The percentile of the lower bound of the confidence interval at a level
/// of 99 percent, in tenths of a percent.
pub const CONFIDENCE_LOW: u32 = 5;

/// The percentile of the upper bound of the confidence interval at a level
/// of 99 percent, in tenths of a percent.
pub const CONFIDENCE_HIGH: u32 = 995;

/// The number of samples of a bootstrap resample.
pub const BOOTSTRAP_SAMPLES: usize = 10000;

/// Where a percentile lies among sorted samples: between the samples at
/// `lower` and `upper`, `weight` thousandths of the way from the first to
/// the second.
#[derive(Debug, Clone, Copy, PartialEq, Eq, Structural)]
pub struct Rank {
    pub lower: usize,
    pub upper: usize,
    pub weight: u32,
}

/// The rank of the percentile `permille` among `len` samples, in
/// thousandths: the percentile's share of the way from the first sample to
/// the last.
pub open spec fn scaled_rank(len: int, permille: int) -> int {
    permille * (len - 1)
}

/// The index of the sample at or below the percentile.
pub open spec fn rank_lower(len: int, permille: int) -> int {
    scaled_rank(len, permille) / 1000
}

/// The index of the sample at or above the percentile.
pub open spec fn rank_upper(len: int, permille: int) -> int {
    if rank_lower(len, permille) + 1 < len {
        rank_lower(len, permille) + 1
    } else {
        rank_lower(len, permille)
    }
}

/// How far the percentile lies above the lower sample, in thousandths of
/// the way to the upper one.
pub open spec fn rank_weight(len: int, permille: int) -> int {
    scaled_rank(len, permille) % 1000
}

/// The samples are in order, smallest first.
pub open spec fn is_sorted(samples: Seq<int>) -> bool {
    forall|i: int, j: int| 0 <= i <= j < samples.len() ==> samples[i] <= samples[j]
}

/// A thousand times the percentile `permille` of the sorted samples, by
/// linear interpolation between the two samples next to its rank.
pub open spec fn percentile_scaled(sorted: Seq<int>, permille: int) -> int {
    let len = sorted.len() as int;
    let lo = sorted[rank_lower(len, permille)];
    let hi = sorted[rank_upper(len, permille)];
    1000 * lo + (hi - lo) * rank_weight(len, permille)
}

/// The rank lies within the samples.
pub proof fn lemma_rank_bounds(len: int, permille: int)
    requires
        len > 0,
        0 <= permille <= 1000,
    ensures
        0 <= rank_lower(len, permille) <= rank_upper(len, permille) < len,
        rank_upper(len, permille) <= rank_lower(len, permille) + 1,
        0 <= rank_weight(len, permille) < 1000,
        1000 * rank_lower(len, permille) + rank_weight(len, permille) == scaled_rank(
            len,
            permille,
        ),
        permille == 1000 ==> rank_lower(len, permille) == len - 1 && rank_weight(len, permille)
            == 0,
        permille == 0 ==> rank_lower(len, permille) == 0 && rank_weight(len, permille) == 0,
{
    let r = scaled_rank(len, permille);
    assert(0 <= r <= 1000 * (len - 1)) by (nonlinear_arith)
        requires
            r == permille * (len - 1),
            len > 0,
            0 <= permille <= 1000,
    ;
    lemma_fundamental_div_mod(r, 1000);
    lemma_mod_bound(r, 1000);
    assert(r / 1000 <= len - 1 && r / 1000 >= 0) by (nonlinear_arith)
        requires
            0 <= r <= 1000 * (len - 1),
            r == 1000 * (r / 1000) + r % 1000,
            0 <= r % 1000 < 1000,
    ;
    if permille == 1000 {
        assert(r / 1000 == len - 1 && r % 1000 == 0) by (nonlinear_arith)
            requires
                r == 1000 * (len - 1),
                r == 1000 * (r / 1000) + r % 1000,
                0 <= r % 1000 < 1000,
        ;
    }
    if permille == 0 {
        assert(r == 0) by (nonlinear_arith)
            requires
                r == permille * (len - 1),
                permille == 0,
        ;
    }
}

/// The rank of the percentile `permille` among `len` sorted samples.
pub fn percentile_rank(len: usize, permille: u32) -> (rank: Rank)
    requires
        len > 0,
        permille <= 1000,
    ensures
        rank.lower == rank_lower(len as int, permille as int),
        rank.upper == rank_upper(len as int, permille as int),
        rank.weight == rank_weight(len as int, permille as int),
        rank.lower <= rank.upper < len,
{
    proof {
        lemma_rank_bounds(len as int, permille as int);
    }
    let last: u128 = (len - 1) as u128;
    assert(permille as u128 * last <= 1000 * last) by (nonlinear_arith)
        requires
            permille <= 1000,
            last >= 0,
    ;
    let scaled: u128 = permille as u128 * last;
    assert(scaled as int == scaled_rank(len as int, permille as int));
    let lower: usize = (scaled / 1000) as usize;
    let weight: u32 = (scaled % 1000) as u32;
    let upper: usize = if lower + 1 < len {
        lower + 1
    } else {
        lower
    };
    Rank { lower, upper, weight }
}

/// A higher percentile has no lower rank.
pub proof fn lemma_rank_monotonic(len: int, low: int, high: int)
    requires
        len > 0,
        0 <= low <= high <= 1000,
    ensures
        scaled_rank(len, low) <= scaled_rank(len, high),
        rank_lower(len, low) <= rank_lower(len, high),
        rank_lower(len, low) == rank_lower(len, high) ==> rank_weight(len, low) <= rank_weight(
            len,
            high,
        ),
{
    let a = scaled_rank(len, low);
    let b = scaled_rank(len, high);
    assert(0 <= a <= b) by (nonlinear_arith)
        requires
            a == low * (len - 1),
            b == high * (len - 1),
            len > 0,
            0 <= low <= high,
    ;
    lemma_div_is_ordered(a, b, 1000);
    lemma_fundamental_div_mod(a, 1000);
    lemma_fundamental_div_mod(b, 1000);
}

/// Of sorted samples, a higher percentile is no smaller: the interpolated
/// value does not fall as the percentile rises.
pub proof fn lemma_percentile_monotonic(sorted: Seq<int>, low: int, high: int)
    requires
        sorted.len() > 0,
        is_sorted(sorted),
        0 <= low <= high <= 1000,
    ensures
        percentile_scaled(sorted, low) <= percentile_scaled(sorted, high),
{
    let len = sorted.len() as int;
    lemma_rank_bounds(len, low);
    lemma_rank_bounds(len, high);
    lemma_rank_monotonic(len, low, high);
    let l1 = rank_lower(len, low);
    let u1 = rank_upper(len, low);
    let w1 = rank_weight(len, low);
    let l2 = rank_lower(len, high);
    let u2 = rank_upper(len, high);
    let w2 = rank_weight(len, high);
    let d1 = sorted[u1] - sorted[l1];
    let d2 = sorted[u2] - sorted[l2];
    assert(d1 >= 0 && d2 >= 0);
    if l1 == l2 {
        assert(u1 == u2);
        assert(d1 * w1 <= d1 * w2) by (nonlinear_arith)
            requires
                d1 >= 0,
                0 <= w1 <= w2,
        ;
    } else {
        assert(u1 <= l2);
        assert(sorted[u1] <= sorted[l2]);
        assert(d1 * w1 <= d1 * 1000) by (nonlinear_arith)
            requires
                d1 >= 0,
                0 <= w1 < 1000,
        ;
        assert(d2 * w2 >= 0) by (nonlinear_arith)
            requires
                d2 >= 0,
                w2 >= 0,
        ;
    }
}

/// Of sorted samples, the lowest percentile is the smallest sample and the
/// highest percentile is the largest.
pub proof fn lemma_percentile_boundary(sorted: Seq<int>)
    requires
        sorted.len() > 0,
        is_sorted(sorted),
    ensures
        percentile_scaled(sorted, 0) == 1000 * sorted[0],
        percentile_scaled(sorted, 1000) == 1000 * sorted[sorted.len() - 1],
        forall|i: int| 0 <= i < sorted.len() ==> sorted[0] <= #[trigger] sorted[i],
        forall|i: int| 0 <= i < sorted.len() ==> #[trigger] sorted[i] <= sorted[sorted.len() - 1],
{
    let len = sorted.len() as int;
    lemma_rank_bounds(len, 0);
    lemma_rank_bounds(len, 1000);
    let d0 = sorted[rank_upper(len, 0)] - sorted[0];
    assert(d0 * 0 == 0) by (nonlinear_arith);
    let d1 = sorted[rank_upper(len, 1000)] - sorted[len - 1];
    assert(d1 * 0 == 0) by (nonlinear_arith);
}

/// A percentile of sorted samples lies between the two samples next to its
/// rank.
pub proof fn lemma_percentile_between(sorted: Seq<int>, permille: int)
    requires
        sorted.len() > 0,
        is_sorted(sorted),
        0 <= permille <= 1000,
    ensures
        1000 * sorted[rank_lower(sorted.len() as int, permille)] <= percentile_scaled(
            sorted,
            permille,
        ) <= 1000 * sorted[rank_upper(sorted.len() as int, permille)],
{
    let len = sorted.len() as int;
    lemma_rank_bounds(len, permille);
    let d = sorted[rank_upper(len, permille)] - sorted[rank_lower(len, permille)];
    let w = rank_weight(len, permille);
    assert(0 <= d * w <= d * 1000) by (nonlinear_arith)
        requires
            d >= 0,
            0 <= w < 1000,
    ;
}

/// `count` draws from `rand::distributions::Uniform::new(0, bound)`, made
/// with `rand::Rng::sample_iter` on the thread's own generator. Each draw is
/// an index below `bound`; which ones come is left to chance. The
/// distribution cannot be made for an empty range, so `bound` is positive.
#[verifier::external_body]
fn uniform_indices(bound: usize, count: usize) -> (indices: Vec<usize>)
    requires
        bound > 0,
    ensures
        indices@.len() == count,
        forall|i: int| 0 <= i < count ==> #[trigger] indices@[i] < bound,
{
    rand::thread_rng().sample_iter(rand::distributions::Uniform::new(0, bound)).take(count).collect()
}

/// The samples at `indices`, in the order of the indices.
pub fn resample<T: Copy>(data: &Vec<T>, indices: &Vec<usize>) -> (drawn: Vec<T>)
    requires
        forall|i: int| 0 <= i < indices.len() ==> #[trigger] indices[i] < data.len(),
    ensures
        drawn@.len() == indices@.len(),
        forall|i: int| 0 <= i < indices.len() ==> #[trigger] drawn@[i] == data@[indices@[i] as int],
{
    let mut drawn: Vec<T> = Vec::new();
    let mut k: usize = 0;
    while k < indices.len()
        invariant
            k <= indices.len(),
            drawn@.len() == k,
            forall|i: int| 0 <= i < indices.len() ==> #[trigger] indices[i] < data.len(),
            forall|i: int| 0 <= i < k ==> #[trigger] drawn@[i] == data@[indices@[i] as int],
        decreases indices.len() - k,
    {
        drawn.push(data[indices[k]]);
        k += 1;
    }
    drawn
}

/// A bootstrap resample of `data`: `samples` draws with replacement, each
/// one of the samples of `data`.
pub fn bootstrap<T: Copy>(data: &Vec<T>, samples: usize) -> (drawn: Vec<T>)
    requires
        data.len() > 0,
    ensures
        drawn@.len() == samples,
        forall|i: int| 0 <= i < samples ==> data@.contains(#[trigger] drawn@[i]),
{
    let indices = uniform_indices(data.len(), samples);
    let drawn = resample(data, &indices);
    assert forall|i: int| 0 <= i < samples implies data@.contains(#[trigger] drawn@[i]) by {
        assert(drawn@[i] == data@[indices@[i] as int]);
    }
    drawn
}

/// A resample of samples that are all the same holds that sample alone: its
/// percentiles coincide, and the width of any interval between them is zero.
pub proof fn lemma_resample_of_constant<T>(data: Seq<T>, drawn: Seq<T>, value: T)
    requires
        forall|i: int| 0 <= i < data.len() ==> data[i] == value,
        forall|i: int| 0 <= i < drawn.len() ==> data.contains(#[trigger] drawn[i]),
    ensures
        forall|i: int| 0 <= i < drawn.len() ==> drawn[i] == value,
{
    assert forall|i: int| 0 <= i < drawn.len() implies drawn[i] == value by {
        assert(data.contains(drawn[i]));
        let j = choose|j: int| 0 <= j < data.len() && data[j] == drawn[i];
        assert(data[j] == value);
    }
}

/// Of samples that are all the same, every percentile is that sample, and
/// so the interval between two percentiles has no width.
pub proof fn lemma_percentile_of_constant(sorted: Seq<int>, value: int, low: int, high: int)
    requires
        sorted.len() > 0,
        forall|i: int| 0 <= i < sorted.len() ==> sorted[i] == value,
        0 <= low <= 1000,
        0 <= high <= 1000,
    ensures
        percentile_scaled(sorted, low) == 1000 * value,
        percentile_scaled(sorted, high) - percentile_scaled(sorted, low) == 0,
{
    let len = sorted.len() as int;
    lemma_rank_bounds(len, low);
    lemma_rank_bounds(len, high);
    assert(0 * rank_weight(len, low) == 0) by (nonlinear_arith);
    assert(0 * rank_weight(len, high) == 0) by (nonlinear_arith);
}

/// The profiler's mark for an event that was not counted.
pub open spec fn not_counted_mark() -> Seq<char> {
    "<not counted>"@
}

/// The profiler's text as the reader of the rows takes it: every comma a
/// period, and after that every mark of an event that was not counted the
/// number `-1`.
pub open spec fn normalized_output(text: Seq<char>) -> Seq<char> {
    replaced(replaced(text, seq![','], seq!['.']), not_counted_mark(), seq!['-', '1'])
}

/// What the name of an event of a probe begins with.
pub open spec fn probe_prefix() -> Seq<char> {
    seq!['p', 'r', 'o', 'b', 'e', '_']
}

/// Prepares the profiler's text for the reader of the rows: decimal commas
/// become periods, and the mark of an event that was not counted becomes
/// the number `-1`.
pub fn normalize_perf_output(text: &str) -> (out: String)
    ensures
        out@ == normalized_output(text@),
{
    proof {
        reveal_strlit(",");
        reveal_strlit(".");
        reveal_strlit("<not counted>");
        reveal_strlit("-1");
    }
    assert(","@ =~= seq![',']);
    assert("."@ =~= seq!['.']);
    assert("-1"@ =~= seq!['-', '1']);
    let periods = replace(text, ",", ".");
    replace(periods.as_str(), "<not counted>", "-1")
}

/// Whether `event_name` names an event of a probe.
pub fn is_probe_event(event_name: &str) -> (b: bool)
    ensures
        b == probe_prefix().is_prefix_of(event_name@),
{
    proof {
        reveal_strlit("probe_");
    }
    let prefix = to_chars("probe_");
    assert(prefix@ =~= probe_prefix());
    starts_with(&to_chars(event_name), &prefix)
}

/// The rows of one event: the event's name and the indices of its rows.
#[derive(Debug, Clone)]
pub struct EventGroup {
    pub name: String,
    pub rows: Vec<usize>,
}

/// Some group of `groups` holds the row `r`.
pub open spec fn holds_row(groups: Seq<EventGroup>, r: int) -> bool {
    exists|g: int, j: int|
        0 <= g < groups.len() && 0 <= j < groups[g].rows@.len() && #[trigger] groups[g].rows@[j]
            == r
}

/// `groups` sorts the rows with the event names `names` by event: each group
/// holds the rows of its event and no others, in the order of the rows; no
/// two groups are of one event; every row is in a group; and the groups
/// stand in the order in which their events first occur.
pub open spec fn groups_rows(groups: Seq<EventGroup>, names: Seq<Seq<char>>) -> bool {
    &&& forall|g: int| 0 <= g < groups.len() ==> (#[trigger] groups[g]).rows@.len() > 0
    &&& forall|g: int, j: int|
        0 <= g < groups.len() && 0 <= j < groups[g].rows@.len() ==> {
            &&& (#[trigger] groups[g].rows@[j]) < names.len()
            &&& names[groups[g].rows@[j] as int] == groups[g].name@
        }
    &&& forall|g: int, i: int, j: int|
        0 <= g < groups.len() && 0 <= i < j < groups[g].rows@.len() ==> (
        #[trigger] groups[g].rows@[i]) < (#[trigger] groups[g].rows@[j])
    &&& forall|g: int, h: int|
        0 <= g < h < groups.len() ==> {
            &&& (#[trigger] groups[g]).name@ != (#[trigger] groups[h]).name@
            &&& groups[g].rows@[0] < groups[h].rows@[0]
        }
    &&& forall|r: int| 0 <= r < names.len() ==> #[trigger] holds_row(groups, r)
}

/// Sorts the rows of a profiler's output by event: `names` holds the event
/// name of each row, and each group that comes back holds the indices of the
/// rows of one event.
pub fn group_by_event(names: &Vec<String>) -> (groups: Vec<EventGroup>)
    ensures
        groups_rows(groups@, views(names@)),
{
    let mut groups: Vec<EventGroup> = Vec::new();
    let mut r: usize = 0;
    while r < names.len()
        invariant
            r <= names.len(),
            groups_rows(groups@, views(names@).take(r as int)),
        decreases names.len() - r,
    {
        let ghost before = groups@;
        let ghost seen = views(names@).take(r as int);
        let ghost next = views(names@).take(r + 1);
        assert(next.len() == r + 1);
        assert(forall|i: int| 0 <= i < r ==> next[i] == seen[i]);
        assert(next[r as int] == names@[r as int]@);
        let mut g: usize = 0;
        while g < groups.len() && groups[g].name != names[r]
            invariant
                g <= groups.len(),
                r < names.len(),
                groups@ == before,
                forall|h: int| 0 <= h < g ==> (#[trigger] groups@[h]).name@ != names@[r as int]@,
            decreases groups.len() - g,
        {
            g += 1;
        }
        if g < groups.len() {
            let mut group = groups.remove(g);
            let ghost old_rows = group.rows@;
            assert(group == before[g as int]);
            group.rows.push(r);
            groups.insert(g, group);
            assert(groups@.len() == before.len());
            assert(groups@[g as int].rows@ == old_rows.push(r));
            assert(groups@[g as int].name@ == before[g as int].name@);
            assert(forall|h: int| 0 <= h < before.len() && h != g ==> groups@[h] == before[h]);
            assert forall|h: int, j: int|
                0 <= h < groups@.len() && 0 <= j < groups@[h].rows@.len() implies {
                &&& (#[trigger] groups@[h].rows@[j]) < next.len()
                &&& next[groups@[h].rows@[j] as int] == groups@[h].name@
            } by {
                if h == g && j == old_rows.len() {
                } else {
                    assert(groups@[h].rows@[j] == before[h].rows@[j]);
                }
            }
            assert forall|h: int, i: int, j: int|
                0 <= h < groups@.len() && 0 <= i < j < groups@[h].rows@.len() implies (
            #[trigger] groups@[h].rows@[i]) < (#[trigger] groups@[h].rows@[j]) by {
                assert(groups@[h].rows@[i] == before[h].rows@[i]);
                if h == g && j == old_rows.len() {
                    assert(before[h].rows@[i] < seen.len());
                } else {
                    assert(groups@[h].rows@[j] == before[h].rows@[j]);
                }
            }
            assert forall|h: int, k: int| 0 <= h < k < groups@.len() implies {
                &&& (#[trigger] groups@[h]).name@ != (#[trigger] groups@[k]).name@
                &&& groups@[h].rows@[0] < groups@[k].rows@[0]
            } by {
                assert(before[h].name@ != before[k].name@);
                assert(before[h].rows@.len() > 0 && before[k].rows@.len() > 0);
                assert(groups@[h].rows@[0] == before[h].rows@[0]);
                assert(groups@[k].rows@[0] == before[k].rows@[0]);
            }
            assert forall|x: int| 0 <= x < next.len() implies #[trigger] holds_row(groups@, x) by {
                if x < r {
                    assert(holds_row(before, x));
                    let (h, j) = choose|h: int, j: int|
                        0 <= h < before.len() && 0 <= j < before[h].rows@.len()
                            && #[trigger] before[h].rows@[j] == x;
                    assert(groups@[h].rows@[j] == x);
                } else {
                    assert(groups@[g as int].rows@[old_rows.len() as int] == x);
                }
            }
            assert forall|h: int| 0 <= h < groups@.len() implies (#[trigger] groups@[h]).rows@.len()
                > 0 by {
                assert(before[h].rows@.len() > 0);
            }
        } else {
            let mut rows: Vec<usize> = Vec::new();
            rows.push(r);
            let group = EventGroup { name: names[r].clone(), rows };
            groups.push(group);
            assert(groups@.len() == before.len() + 1);
            assert(groups@[before.len() as int].rows@ =~= seq![r]);
            assert(groups@[before.len() as int].name@ == names@[r as int]@);
            assert(forall|h: int| 0 <= h < before.len() ==> groups@[h] == before[h]);
            assert forall|h: int, j: int|
                0 <= h < groups@.len() && 0 <= j < groups@[h].rows@.len() implies {
                &&& (#[trigger] groups@[h].rows@[j]) < next.len()
                &&& next[groups@[h].rows@[j] as int] == groups@[h].name@
            } by {
                if h < before.len() {
                    assert(groups@[h].rows@[j] == before[h].rows@[j]);
                }
            }
            assert forall|h: int, i: int, j: int|
                0 <= h < groups@.len() && 0 <= i < j < groups@[h].rows@.len() implies (
            #[trigger] groups@[h].rows@[i]) < (#[trigger] groups@[h].rows@[j]) by {
                assert(h < before.len());
                assert(groups@[h].rows@[i] == before[h].rows@[i]);
                assert(groups@[h].rows@[j] == before[h].rows@[j]);
            }
            assert forall|h: int, k: int| 0 <= h < k < groups@.len() implies {
                &&& (#[trigger] groups@[h]).name@ != (#[trigger] groups@[k]).name@
                &&& groups@[h].rows@[0] < groups@[k].rows@[0]
            } by {
                assert(before[h].rows@.len() > 0);
                assert(groups@[h].rows@[0] == before[h].rows@[0]);
                if k < before.len() {
                    assert(before[h].name@ != before[k].name@);
                    assert(groups@[k].rows@[0] == before[k].rows@[0]);
                } else {
                    assert(before[h].rows@[0] < seen.len());
                }
            }
            assert forall|x: int| 0 <= x < next.len() implies #[trigger] holds_row(groups@, x) by {
                if x < r {
                    assert(holds_row(before, x));
                    let (h, j) = choose|h: int, j: int|
                        0 <= h < before.len() && 0 <= j < before[h].rows@.len()
                            && #[trigger] before[h].rows@[j] == x;
                    assert(groups@[h].rows@[j] == x);
                } else {
                    assert(groups@[before.len() as int].rows@[0] == x);
                }
            }
            assert forall|h: int| 0 <= h < groups@.len() implies (#[trigger] groups@[h]).rows@.len()
                > 0 by {
                if h < before.len() {
                    assert(before[h].rows@.len() > 0);
                }
            }
        }
        r += 1;
    }
    assert(views(names@).take(names@.len() as int) =~= views(names@));
    groups
}

} // verus!
