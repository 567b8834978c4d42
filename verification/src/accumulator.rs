//! The distribution of recorded peak values, kept in a `histo::Histogram`.

use histo::Histogram;
use vstd::multiset::Multiset;
use vstd::prelude::*;

verus! {

/// Number of buckets of an accumulator made by [`Accumulator::new`].
pub const BUCKET_COUNT: u64 = 20;

/// Largest number of buckets an accumulator may be made with.
pub const MAX_BUCKETS: u64 = 0xffff_ffff;

/// Largest value that can be recorded: bucket bounds computed from it still
/// fit in 64 bits.
pub const MAX_SAMPLE: u64 = 0xffff_ffff_0000_0000;

#[verifier::external_type_specification]
#[verifier::external_body]
pub struct ExHistogram(histo::Histogram);

/// The samples that were added to a histogram, each as often as it was added.
pub uninterp spec fn histogram_samples(h: Histogram) -> Multiset<u64>;

/// The number of buckets a histogram was made with.
pub uninterp spec fn histogram_bucket_limit(h: Histogram) -> u64;

/// `Histogram::with_buckets` makes a histogram without samples that remembers
/// the number of buckets. It panics on zero buckets, which is excluded.
pub assume_specification[ Histogram::with_buckets ](num_buckets: u64) -> (h: Histogram)
    requires
        num_buckets > 0,
    ensures
        histogram_samples(h) == Multiset::<u64>::empty(),
        histogram_bucket_limit(h) == num_buckets,
;

/// `Histogram::add` counts one more occurrence of `sample` and leaves the
/// number of buckets alone. Its internal counters are 64 bits wide, so a
/// histogram that already holds `u64::MAX` samples is excluded.
pub assume_specification[ Histogram::add ](h: &mut Histogram, sample: u64)
    requires
        histogram_samples(*old(h)).len() < u64::MAX,
    ensures
        histogram_samples(*final(h)) == histogram_samples(*old(h)).insert(sample),
        histogram_bucket_limit(*final(h)) == histogram_bucket_limit(*old(h)),
;

/// One bucket of the distribution: the half-open range `[start, end)` and the
/// number of recorded values that fall into the bucket.
#[derive(Clone, Copy, Debug, PartialEq, Eq)]
pub struct BucketRecord {
    pub start: u64,
    pub end: u64,
    pub count: u64,
}

/// `lo` is a sample and no sample is smaller.
pub open spec fn is_least(samples: Multiset<u64>, lo: u64) -> bool {
    samples.contains(lo) && forall|s: u64| samples.contains(s) ==> lo <= s
}

/// `hi` is a sample and no sample is larger.
pub open spec fn is_greatest(samples: Multiset<u64>, hi: u64) -> bool {
    samples.contains(hi) && forall|s: u64| samples.contains(s) ==> s <= hi
}

/// Width of each bucket when samples from `lo` to `hi` are spread over `n`
/// buckets: the range, padded by its remainder modulo `n`, divided by `n`,
/// and at least 1.
pub open spec fn bucket_width(lo: u64, hi: u64, n: u64) -> nat {
    let range = hi - lo;
    let padded = range + range % (n as int);
    if padded / (n as int) <= 0 {
        1
    } else {
        (padded / (n as int)) as nat
    }
}

/// Sample `s` is counted in bucket `i` of `n`: it lies at or above the
/// bucket's start and below its end, except that the last bucket has no upper
/// end.
pub open spec fn in_bucket(lo: u64, width: nat, n: u64, i: int, s: u64) -> bool {
    lo + i * width <= s && (i == n - 1 || s < lo + (i + 1) * width)
}

/// Bucket `i` of the distribution of `samples`.
pub open spec fn bucket_at(samples: Multiset<u64>, lo: u64, width: nat, n: u64, i: int)
    -> BucketRecord {
    BucketRecord {
        start: (lo + i * width) as u64,
        end: (lo + (i + 1) * width) as u64,
        count: samples.filter(|s: u64| in_bucket(lo, width, n, i, s)).len() as u64,
    }
}

/// The `n` buckets of the distribution of `samples`, whose least sample is
/// `lo` and whose greatest is `hi`.
pub open spec fn buckets_of(samples: Multiset<u64>, lo: u64, hi: u64, n: u64) -> Seq<
    BucketRecord,
> {
    Seq::new(n as nat, |i: int| bucket_at(samples, lo, bucket_width(lo, hi, n), n, i))
}

/// `records` is the bucket list of a histogram holding `samples` that was
/// made with `n` buckets: empty without samples, else `n` buckets of equal
/// width that start at the least sample.
pub open spec fn is_bucket_list(samples: Multiset<u64>, n: u64, records: Seq<BucketRecord>)
    -> bool {
    if samples.len() == 0 {
        records.len() == 0
    } else {
        exists|lo: u64, hi: u64|
            is_least(samples, lo) && is_greatest(samples, hi) && records == #[trigger] buckets_of(
                samples,
                lo,
                hi,
                n,
            )
    }
}

/// Sum of the counts of a list of buckets.
pub open spec fn total_count(records: Seq<BucketRecord>) -> nat
    decreases records.len(),
{
    if records.len() == 0 {
        0
    } else {
        total_count(records.drop_last()) + records.last().count as nat
    }
}

/// The buckets of a histogram, copied out in order.
///
/// The body walks `Histogram::buckets()` and copies `start()`, `end()` and
/// `count()` of each bucket. That iterator yields nothing while the histogram
/// is empty; otherwise it yields as many buckets as the histogram was made
/// with, bucket `i` spanning `[min + i * width, min + (i + 1) * width)` with
/// `width = max(1, (range + range % n) / n)` and `range = max - min`, and it
/// counts in each bucket the samples within its span, in the last bucket
/// every sample from its start upwards. The preconditions keep those sums of
/// 64-bit numbers from overflowing and the list within `usize`.
#[verifier::external_body]
fn collect_buckets(h: &Histogram) -> (records: Vec<BucketRecord>)
    requires
        0 < histogram_bucket_limit(*h) <= MAX_BUCKETS,
        histogram_samples(*h).len() <= u64::MAX,
        forall|s: u64| histogram_samples(*h).contains(s) ==> s <= MAX_SAMPLE,
    ensures
        is_bucket_list(histogram_samples(*h), histogram_bucket_limit(*h), records@),
{
    h.buckets().map(|b| BucketRecord { start: b.start(), end: b.end(), count: b.count() }).collect()
}

/// What an accumulator holds: the recorded values and the number of buckets
/// they are sorted into.
pub struct AccumulatorModel {
    pub samples: Multiset<u64>,
    pub buckets: nat,
}

impl AccumulatorModel {
    /// The number of buckets is positive and at most [`MAX_BUCKETS`], the
    /// number of samples fits in 64 bits, and no sample exceeds
    /// [`MAX_SAMPLE`].
    pub open spec fn wf(self) -> bool {
        &&& 0 < self.buckets <= MAX_BUCKETS
        &&& self.samples.len() <= u64::MAX
        &&& forall|s: u64| self.samples.contains(s) ==> s <= MAX_SAMPLE
    }
}

/// A histogram with a fixed number of buckets that records one value at a
/// time and is read back as a list of buckets.
pub struct Accumulator {
    histogram: Histogram,
}

impl View for Accumulator {
    type V = AccumulatorModel;

    closed spec fn view(&self) -> AccumulatorModel {
        AccumulatorModel {
            samples: histogram_samples(self.histogram),
            buckets: histogram_bucket_limit(self.histogram) as nat,
        }
    }
}

impl Accumulator {
    /// An empty accumulator with [`BUCKET_COUNT`] buckets.
    pub fn new() -> (acc: Accumulator)
        ensures
            acc@.wf(),
            acc@.samples == Multiset::<u64>::empty(),
            acc@.buckets == BUCKET_COUNT,
    {
        let histogram = Histogram::with_buckets(BUCKET_COUNT);
        proof {
            broadcast use vstd::multiset::group_multiset_axioms;

        }
        Accumulator { histogram }
    }

    /// An empty accumulator with `num_buckets` buckets, or nothing when the
    /// number is zero or above [`MAX_BUCKETS`].
    pub fn with_buckets(num_buckets: u64) -> (r: Option<Accumulator>)
        ensures
            r is Some <==> 0 < num_buckets <= MAX_BUCKETS,
            r matches Some(acc) ==> acc@.samples == Multiset::<u64>::empty() && acc@.buckets
                == num_buckets && acc@.wf(),
    {
        if num_buckets == 0 || num_buckets > MAX_BUCKETS {
            return None;
        }
        let histogram = Histogram::with_buckets(num_buckets);
        proof {
            broadcast use vstd::multiset::group_multiset_axioms;

        }
        Some(Accumulator { histogram })
    }

    /// Records one more occurrence of `value`.
    pub fn add(&mut self, value: u64)
        requires
            old(self)@.wf(),
            value <= MAX_SAMPLE,
            old(self)@.samples.len() < u64::MAX,
        ensures
            final(self)@.wf(),
            final(self)@.samples == old(self)@.samples.insert(value),
            final(self)@.samples.len() == old(self)@.samples.len() + 1,
            final(self)@.buckets == old(self)@.buckets,
    {
        proof {
            broadcast use vstd::multiset::group_multiset_axioms;

        }
        let ghost before = histogram_samples(self.histogram);
        self.histogram.add(value);
        proof {
            vstd::multiset::lemma_insert_len(before, value);
            assert forall|s: u64| before.insert(value).contains(s) implies s <= MAX_SAMPLE by {
                if s != value {
                    assert(before.contains(s));
                }
            }
        }
    }

    /// The histogram itself, for display.
    pub fn histogram(&self) -> (h: &Histogram)
        ensures
            histogram_samples(*h) == self@.samples,
            histogram_bucket_limit(*h) == self@.buckets,
    {
        &self.histogram
    }

    /// The buckets of the distribution, in ascending order. Their counts add
    /// up to the number of recorded values.
    pub fn buckets(&self) -> (records: Vec<BucketRecord>)
        requires
            self@.wf(),
        ensures
            is_bucket_list(self@.samples, self@.buckets as u64, records@),
            total_count(records@) == self@.samples.len(),
            records@.len() == if self@.samples.len() == 0 {
                0
            } else {
                self@.buckets
            },
    {
        let records = collect_buckets(&self.histogram);
        proof {
            lemma_bucket_counts_sum(
                histogram_samples(self.histogram),
                histogram_bucket_limit(self.histogram),
                records@,
            );
        }
        records
    }
}

/// The samples below the end of bucket `k - 1`, or all of them when `k` is
/// the number of buckets.
spec fn below_bucket(samples: Multiset<u64>, lo: u64, width: nat, n: u64, k: int) -> Multiset<u64> {
    samples.filter(|s: u64| k == n || s < lo + k * width)
}

/// The counts of the first `k` buckets add up to the number of samples that
/// lie below the end of the last of them.
proof fn lemma_prefix_counts(samples: Multiset<u64>, lo: u64, hi: u64, n: u64, k: int)
    requires
        is_least(samples, lo),
        samples.len() <= u64::MAX,
        0 <= k <= n,
    ensures
        total_count(buckets_of(samples, lo, hi, n).take(k)) == (if k == 0 {
            0
        } else {
            below_bucket(samples, lo, bucket_width(lo, hi, n), n, k).len()
        }),
    decreases k,
{
    broadcast use vstd::multiset::group_multiset_axioms;

    let width = bucket_width(lo, hi, n);
    let all = buckets_of(samples, lo, hi, n);
    if k > 0 {
        lemma_prefix_counts(samples, lo, hi, n, k - 1);
        let i = k - 1;
        let here = samples.filter(|s: u64| in_bucket(lo, width, n, i, s));
        let upto = below_bucket(samples, lo, width, n, k);
        assert(all.take(k).drop_last() =~= all.take(i));
        assert(all.take(k).last() == bucket_at(samples, lo, width, n, i));
        lemma_filter_at_most(samples, |s: u64| in_bucket(lo, width, n, i, s));
        assert(i * width + width == (i + 1) * width) by (nonlinear_arith);
        assert(0 <= i * width) by (nonlinear_arith)
            requires
                0 <= i,
                0 <= width,
        ;
        if i == 0 {
            assert(here =~= upto) by {
                assert forall|s: u64| here.count(s) == upto.count(s) by {
                    if samples.contains(s) {
                        assert(lo <= s);
                    }
                }
            }
        } else {
            let before = below_bucket(samples, lo, width, n, i);
            assert(before.add(here) =~= upto) by {
                assert forall|s: u64| before.add(here).count(s) == upto.count(s) by {
                    if samples.contains(s) {
                        assert(lo <= s);
                    }
                }
            }
        }
    } else {
        assert(all.take(0) =~= Seq::<BucketRecord>::empty());
    }
}

/// A filtered multiset is no larger than the whole.
proof fn lemma_filter_at_most(m: Multiset<u64>, f: spec_fn(u64) -> bool)
    ensures
        m.filter(f).len() <= m.len(),
{
    broadcast use vstd::multiset::group_multiset_axioms;

    let rest = m.filter(|s: u64| !f(s));
    assert(m.filter(f).add(rest) =~= m);
}

/// The counts of a histogram's buckets add up to the number of its samples,
/// and there are as many buckets as it was made with unless it is empty.
pub proof fn lemma_bucket_counts_sum(samples: Multiset<u64>, n: u64, records: Seq<BucketRecord>)
    requires
        n > 0,
        samples.len() <= u64::MAX,
        is_bucket_list(samples, n, records),
    ensures
        total_count(records) == samples.len(),
        records.len() == if samples.len() == 0 {
            0
        } else {
            n as nat
        },
{
    broadcast use vstd::multiset::group_multiset_axioms;

    if samples.len() > 0 {
        let (lo, hi) = choose|lo: u64, hi: u64|
            is_least(samples, lo) && is_greatest(samples, hi) && records == #[trigger] buckets_of(
                samples,
                lo,
                hi,
                n,
            );
        lemma_prefix_counts(samples, lo, hi, n, n as int);
        assert(records.take(n as int) =~= records);
        assert(below_bucket(samples, lo, bucket_width(lo, hi, n), n, n as int) =~= samples);
    }
}

} // verus!
