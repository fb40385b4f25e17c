//! The histogram of file sizes, kept in an `hdrhistogram::Histogram<u64>`
//! that resizes itself and keeps three significant digits.

use crate::resolution::{lemma_floor_is_multiple, lemma_floor_monotonic, resolution_floor};
use hdrhistogram::Histogram;
use vstd::multiset::Multiset;
use vstd::prelude::*;

verus! {

/// A histogram of file sizes. It is only ever made by [`SizeHistogram::new`],
/// so the `Histogram` inside always resizes itself.
#[verifier::external_body]
pub struct SizeHistogram {
    inner: Histogram<u64>,
}

/// The samples that `h` holds: for every size that was recorded, the floor
/// of that size, which is all that the histogram keeps of it.
pub uninterp spec fn samples(h: SizeHistogram) -> Multiset<u64>;

/// What a histogram keeps of a recorded size: the floor of the size at the
/// histogram's resolution.
pub open spec fn kept(size: u64) -> u64 {
    resolution_floor(size as nat) as u64
}

/// What a count of `n` samples reads as in a `u64` that stops at its maximum.
pub open spec fn saturated(n: nat) -> u64 {
    if n <= u64::MAX {
        n as u64
    } else {
        u64::MAX
    }
}

/// The samples that a histogram holds once each of `sizes` has been
/// recorded: what it keeps of each size, as often as the size occurs.
pub open spec fn samples_of(sizes: Seq<u64>) -> Multiset<u64> {
    sizes.map_values(|size: u64| kept(size)).to_multiset()
}

/// Whether the histogram counts a sample of `size` as no larger than
/// `limit`: whether the floor of `size` is no higher than that of `limit`.
pub open spec fn within(limit: u64) -> spec_fn(u64) -> bool {
    |size: u64| resolution_floor(size as nat) <= resolution_floor(limit as nat)
}

/// The samples that the histogram counts as no larger than `limit`.
pub open spec fn below(all: Multiset<u64>, limit: u64) -> Multiset<u64> {
    all.filter(within(limit))
}

/// Whether the histogram counts a sample of `size` together with `value`:
/// whether both have the same floor.
pub open spec fn alike(value: u64) -> spec_fn(u64) -> bool {
    |size: u64| resolution_floor(size as nat) == resolution_floor(value as nat)
}

/// The samples that the histogram counts together with `value`.
pub open spec fn class_of(all: Multiset<u64>, value: u64) -> Multiset<u64> {
    all.filter(alike(value))
}

/// Whether `buckets` lists the samples `all` as the histogram keeps them:
/// one pair of a value and a count for every class of samples that is not
/// empty, in rising order, the count being the size of the value's class.
pub open spec fn lists(buckets: Seq<(u64, u64)>, all: Multiset<u64>) -> bool {
    &&& forall|i: int|
        0 <= i < buckets.len() ==> (#[trigger] buckets[i]).1 > 0 && buckets[i].1 == saturated(
            class_of(all, buckets[i].0).len(),
        )
    &&& forall|i: int, j: int|
        0 <= i < j < buckets.len() ==> resolution_floor((#[trigger] buckets[i]).0 as nat)
            < resolution_floor((#[trigger] buckets[j]).0 as nat)
    &&& forall|size: u64| #[trigger]
        all.contains(size) ==> exists|i: int|
            0 <= i < buckets.len() && alike((#[trigger] buckets[i]).0)(size)
}

/// The samples of several histograms together.
pub open spec fn merged(parts: Seq<Multiset<u64>>) -> Multiset<u64>
    decreases parts.len(),
{
    if parts.len() == 0 {
        Multiset::empty()
    } else {
        merged(parts.drop_last()).add(parts.last())
    }
}

/// The number of significant digits that a histogram of sizes keeps.
pub const SIGNIFICANT_DIGITS: u8 = 3;

/// `Histogram::<u64>::new`: a histogram with no samples, which resizes
/// itself. `new` fails only for more than five significant digits, so for
/// three it does not.
#[verifier::external_body]
fn hist_new(digits: u8) -> (h: SizeHistogram)
    requires
        digits == SIGNIFICANT_DIGITS,
    ensures
        samples(h) == Multiset::<u64>::empty(),
{
    SizeHistogram { inner: Histogram::<u64>::new(digits).expect("the digits are valid") }
}

/// `Histogram::record` on a histogram of three significant digits that
/// resizes itself: the sample is counted in the counter of its floor,
/// whatever its value, and nothing else changes. `record` fails only where
/// resizing is off or `usize` has fewer than 32 bits.
#[verifier::external_body]
fn hist_record(h: &mut SizeHistogram, size: u64)
    ensures
        samples(*final(h)) == samples(*old(h)).insert(kept(size)),
{
    h.inner.record(size).expect("the histogram resizes itself");
}

/// `Histogram::add` on a histogram that resizes itself: every sample of
/// `other` is counted in `h` as well, and `other` is left as it was.
#[verifier::external_body]
fn hist_add(h: &mut SizeHistogram, other: &SizeHistogram)
    ensures
        samples(*final(h)) == samples(*old(h)).add(samples(*other)),
{
    h.inner.add(&other.inner).expect("the histogram resizes itself");
}

/// `Histogram::count_between` from `low`, which is zero, up to `high`, on a
/// histogram of three significant digits: the number of samples that lie
/// in the counter of `high` or in a lower one, which are those whose floor
/// is no higher than the floor of `high`. The sum stops at `u64::MAX`.
#[verifier::external_body]
fn hist_count_between(h: &SizeHistogram, low: u64, high: u64) -> (n: u64)
    requires
        low == 0,
    ensures
        n == saturated(below(samples(*h), high).len()),
{
    h.inner.count_between(low, high)
}

/// `Histogram::iter_recorded`, each item as its value and its count: the
/// iterator visits the counters that are not zero, from the lowest up, and
/// gives for each the highest value that the counter stands for and the
/// counter's count, which stops at `u64::MAX`.
#[verifier::external_body]
fn hist_recorded(h: &SizeHistogram) -> (buckets: Vec<(u64, u64)>)
    ensures
        lists(buckets@, samples(*h)),
{
    h.inner.iter_recorded().map(|v| (v.value_iterated_to(), v.count_at_value())).collect()
}

/// `Histogram::len`: the number of recorded samples, which the histogram
/// counts in a `u64` that stops at `u64::MAX`.
#[verifier::external_body]
fn hist_len(h: &SizeHistogram) -> (n: u64)
    ensures
        n == saturated(samples(*h).len()),
{
    h.inner.len()
}

/// What is kept of a size is a size again, no larger than the first.
pub proof fn lemma_kept_below(size: u64)
    ensures
        kept(size) as nat == resolution_floor(size as nat),
        kept(size) <= size,
{
    lemma_floor_is_multiple(size as nat);
}

/// No sizes leave no samples.
pub proof fn lemma_samples_of_empty()
    ensures
        samples_of(Seq::<u64>::empty()) == Multiset::<u64>::empty(),
{
    let e = Seq::<u64>::empty().map_values(|size: u64| kept(size));
    e.to_multiset_ensures();
    assert forall|a: u64| e.to_multiset().count(a) == 0 by {}
}

/// One more size leaves one more sample: what is kept of the size.
pub proof fn lemma_samples_of_push(sizes: Seq<u64>, size: u64)
    ensures
        samples_of(sizes.push(size)) == samples_of(sizes).insert(kept(size)),
{
    let f = |size: u64| kept(size);
    assert(sizes.push(size).map_values(f) =~= sizes.map_values(f).push(kept(size)));
    vstd::seq_lib::to_multiset_build(sizes.map_values(f), kept(size));
}

/// One size leaves one sample.
pub proof fn lemma_samples_of_one(size: u64)
    ensures
        samples_of(seq![size]) == Multiset::<u64>::empty().insert(kept(size)),
{
    lemma_samples_of_empty();
    lemma_samples_of_push(Seq::<u64>::empty(), size);
}

/// The samples of two runs of sizes, one after the other, are the samples
/// of the one and of the other together.
pub proof fn lemma_samples_of_concat(first: Seq<u64>, second: Seq<u64>)
    ensures
        samples_of(first + second) == samples_of(first).add(samples_of(second)),
{
    let f = |size: u64| kept(size);
    assert((first + second).map_values(f) =~= first.map_values(f) + second.map_values(f));
    vstd::seq_lib::lemma_multiset_commutative(first.map_values(f), second.map_values(f));
}

/// Every recorded size leaves exactly one sample.
pub proof fn lemma_samples_of_len(sizes: Seq<u64>)
    ensures
        samples_of(sizes).len() == sizes.len(),
{
    sizes.map_values(|size: u64| kept(size)).to_multiset_ensures();
}

impl SizeHistogram {
    /// The samples recorded so far.
    pub open spec fn view(&self) -> Multiset<u64> {
        samples(*self)
    }

    /// An empty histogram.
    pub fn new() -> (h: SizeHistogram)
        ensures
            h@ == Multiset::<u64>::empty(),
    {
        hist_new(SIGNIFICANT_DIGITS)
    }

    /// Counts one file of `size` bytes.
    pub fn record(&mut self, size: u64)
        ensures
            final(self)@ == old(self)@.insert(kept(size)),
    {
        hist_record(self, size)
    }

    /// Counts every sample of `other` in `self` too.
    pub fn merge(&mut self, other: &SizeHistogram)
        ensures
            final(self)@ == old(self)@.add(other@),
    {
        hist_add(self, other)
    }

    /// The number of samples, capped at `u64::MAX`.
    pub fn count(&self) -> (n: u64)
        ensures
            n == saturated(self@.len()),
    {
        hist_len(self)
    }

    /// The number of samples that the histogram counts as no larger than
    /// `limit`, capped at `u64::MAX`.
    pub fn count_below(&self, limit: u64) -> (n: u64)
        ensures
            n == saturated(below(self@, limit).len()),
    {
        hist_count_between(self, 0, limit)
    }

    /// The histogram's content as pairs of a value and a count, one for
    /// every class of samples: what is needed to rebuild the histogram
    /// elsewhere. There is a pair if and only if there is a sample.
    pub fn buckets(&self) -> (buckets: Vec<(u64, u64)>)
        ensures
            lists(buckets@, self@),
            buckets@.len() == 0 <==> self@.len() == 0,
    {
        let buckets = hist_recorded(self);
        proof {
            broadcast use vstd::multiset::group_multiset_axioms;

            if self@.len() > 0 {
                let size = self@.choose();
                assert(self@.contains(size));
            }
            if buckets@.len() > 0 {
                let class = class_of(self@, buckets@[0].0);
                let size = class.choose();
                assert(class.count(size) > 0);
            }
        }
        buckets
    }

    /// Counts every size of `sizes`, in order.
    pub fn record_all(&mut self, sizes: &Vec<u64>)
        ensures
            final(self)@ == old(self)@.add(samples_of(sizes@)),
    {
        let mut i: usize = 0;
        proof {
            lemma_samples_of_empty();
            assert(sizes@.take(0) =~= Seq::<u64>::empty());
        }
        while i < sizes.len()
            invariant
                i <= sizes.len(),
                self@ == old(self)@.add(samples_of(sizes@.take(i as int))),
            decreases sizes.len() - i,
        {
            proof {
                let prefix = sizes@.take(i as int);
                let next = sizes@.take(i + 1);
                assert(next == prefix.push(sizes@[i as int]));
                lemma_samples_of_push(prefix, sizes@[i as int]);
            }
            self.record(sizes[i]);
            i += 1;
        }
        proof {
            assert(sizes@.take(sizes.len() as int) == sizes@);
        }
    }
}

/// Merges the histograms of all workers into one.
pub fn merge_all(parts: &Vec<SizeHistogram>) -> (total: SizeHistogram)
    ensures
        total@ == merged(parts@.map_values(|h: SizeHistogram| h@)),
{
    let ghost views = parts@.map_values(|h: SizeHistogram| h@);
    let mut total = SizeHistogram::new();
    let mut i: usize = 0;
    while i < parts.len()
        invariant
            i <= parts.len(),
            views == parts@.map_values(|h: SizeHistogram| h@),
            total@ == merged(views.take(i as int)),
        decreases parts.len() - i,
    {
        proof {
            let next = views.take(i + 1);
            assert(next.drop_last() =~= views.take(i as int));
        }
        total.merge(&parts[i]);
        i += 1;
    }
    proof {
        assert(views.take(parts.len() as int) =~= views);
    }
    total
}

/// Merging is commutative: it does not matter which of two histograms is
/// merged into which.
pub proof fn lemma_merge_commutative(a: Multiset<u64>, b: Multiset<u64>)
    ensures
        a.add(b) == b.add(a),
{
}

/// Merging is associative: three histograms merge to the same whichever two
/// are merged first.
pub proof fn lemma_merge_associative(a: Multiset<u64>, b: Multiset<u64>, c: Multiset<u64>)
    ensures
        a.add(b).add(c) == a.add(b.add(c)),
{
}

/// Taking one part out of a sequence of parts takes its samples out of the
/// whole.
proof fn lemma_merged_remove(parts: Seq<Multiset<u64>>, k: int)
    requires
        0 <= k < parts.len(),
    ensures
        merged(parts) == merged(parts.remove(k)).add(parts[k]),
    decreases parts.len(),
{
    if k == parts.len() - 1 {
    } else {
        lemma_merged_remove(parts.drop_last(), k);
        assert(parts.remove(k).drop_last() =~= parts.drop_last().remove(k));
    }
}

/// The order in which the workers' histograms are merged does not matter:
/// the same parts in any order merge to the same samples.
pub proof fn lemma_merge_order_irrelevant(a: Seq<Multiset<u64>>, b: Seq<Multiset<u64>>)
    requires
        a.to_multiset() == b.to_multiset(),
    ensures
        merged(a) == merged(b),
    decreases a.len(),
{
    a.to_multiset_ensures();
    b.to_multiset_ensures();
    if a.len() > 0 {
        let x = a.last();
        assert(a.contains(x));
        assert(b.to_multiset().count(x) > 0);
        let k = choose|k: int| 0 <= k < b.len() && b[k] == x;
        vstd::seq_lib::to_multiset_remove(a, a.len() - 1);
        vstd::seq_lib::to_multiset_remove(b, k);
        lemma_merge_order_irrelevant(a.drop_last(), b.remove(k));
        lemma_merged_remove(b, k);
    }
}

/// Sizes recorded by several workers and merged are the sizes recorded by
/// one: splitting a run of sizes in two and merging the two recordings
/// yields the recording of the whole run.
pub proof fn lemma_split_recording(first: Seq<u64>, second: Seq<u64>)
    ensures
        samples_of(first).add(samples_of(second)) == samples_of(first + second),
        samples_of(first + second) == samples_of(second + first),
{
    lemma_samples_of_concat(first, second);
    lemma_samples_of_concat(second, first);
}

/// A multiset that lies within another has no more elements.
proof fn lemma_subset_len(inner: Multiset<u64>, outer: Multiset<u64>)
    requires
        inner.subset_of(outer),
    ensures
        inner.len() <= outer.len(),
{
    broadcast use vstd::multiset::group_multiset_axioms;

    assert(outer =~= inner.add(outer.sub(inner)));
}

/// The count below a limit does not fall as the limit rises.
pub proof fn lemma_count_below_monotonic(all: Multiset<u64>, lower: u64, higher: u64)
    requires
        lower <= higher,
    ensures
        below(all, lower).len() <= below(all, higher).len(),
        saturated(below(all, lower).len()) <= saturated(below(all, higher).len()),
{
    broadcast use vstd::multiset::group_multiset_axioms;

    lemma_floor_monotonic(lower as nat, higher as nat);
    assert forall|size: u64| below(all, lower).count(size) <= below(all, higher).count(size) by {}
    lemma_subset_len(below(all, lower), below(all, higher));
}

/// No sample lies above the largest limit: the count below `u64::MAX` is
/// the count of all samples.
pub proof fn lemma_count_below_max(all: Multiset<u64>)
    ensures
        below(all, u64::MAX) == all,
        saturated(below(all, u64::MAX).len()) == saturated(all.len()),
{
    broadcast use vstd::multiset::group_multiset_axioms;

    assert forall|size: u64| below(all, u64::MAX).count(size) == all.count(size) by {
        lemma_floor_monotonic(size as nat, u64::MAX as nat);
    }
    assert(below(all, u64::MAX) =~= all);
}

} // verus!
