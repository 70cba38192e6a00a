//! The latency recorder and its percentile aggregation.
//!
//! A `Metrics` value holds every observed request duration, in
//! microseconds, in the order the observations arrived. A snapshot
//! leaves the stored samples in ascending order and reads the
//! nearest-rank percentiles P50, P95 and P99 out of the sorted
//! sequence.

use vstd::prelude::*;
use vstd::relations::sorted_by;
use vstd::relations::total_ordering;
use vstd::seq_lib::lemma_sorted_unique;

verus! {

/// The ordering by which samples are sorted: plain `<=` on microseconds.
pub open spec fn micros_le() -> spec_fn(u64, u64) -> bool {
    |x: u64, y: u64| x <= y
}

/// The sample sequence in ascending order.
pub open spec fn sorted_micros(s: Seq<u64>) -> Seq<u64> {
    s.sort_by(micros_le())
}

/// The nearest-rank position for the `q`-th percentile (`q` in
/// hundredths, e.g. 95) over `len` sorted samples: the smaller of
/// `floor(len * q / 100)` and `len - 1`.
pub open spec fn percentile_index(len: nat, q: nat) -> nat
    recommends
        len > 0,
{
    if len * q / 100 <= len - 1 {
        len * q / 100
    } else {
        (len - 1) as nat
    }
}

/// The `q`-th percentile of a sample sequence, in microseconds: the
/// sample standing at the nearest-rank position once the sequence is
/// sorted, and 0 when there are no samples.
pub open spec fn percentile_micros(s: Seq<u64>, q: nat) -> u64 {
    if s.len() == 0 {
        0
    } else {
        sorted_micros(s)[percentile_index(s.len(), q) as int]
    }
}

/// `<=` on `u64` is a total ordering.
proof fn lemma_micros_le_total_ordering()
    ensures
        total_ordering(micros_le()),
{
}

/// Sorting keeps the length and the samples.
proof fn lemma_sorted_micros_len(s: Seq<u64>)
    ensures
        sorted_micros(s).len() == s.len(),
        sorted_micros(s).to_multiset() == s.to_multiset(),
        sorted_by(sorted_micros(s), micros_le()),
{
    broadcast use vstd::seq_lib::group_to_multiset_ensures;

    s.lemma_sort_by_ensures(micros_le());
    assert(sorted_micros(s).to_multiset() == s.to_multiset());
    assert(sorted_micros(s).to_multiset().len() == sorted_micros(s).len());
    assert(s.to_multiset().len() == s.len());
}

/// Inserting into a sequence inserts into its multiset.
proof fn lemma_seq_insert_to_multiset(s: Seq<u64>, i: int, x: u64)
    requires
        0 <= i <= s.len(),
    ensures
        s.insert(i, x).to_multiset() == s.to_multiset().insert(x),
{
    broadcast use vstd::seq_lib::group_to_multiset_ensures;
    broadcast use vstd::multiset::group_multiset_axioms;

    let t = s.insert(i, x);
    assert(t.remove(i) =~= s);
    assert(t[i] == x);
    assert(t.remove(i).to_multiset() =~= t.to_multiset().remove(x));
    assert(t.to_multiset().contains(x)) by {
        assert(t[i] == x);
        assert(t.contains(x));
    }
    assert(t.to_multiset() =~= s.to_multiset().insert(x)) by {
        assert(t.to_multiset().remove(x).insert(x) =~= t.to_multiset());
    }
}

/// Builds the ascending reordering of `v` by insertion into a fresh
/// vector.
fn sorted_samples(v: &Vec<u64>) -> (out: Vec<u64>)
    ensures
        out@ == sorted_micros(v@),
{
    broadcast use vstd::seq_lib::group_to_multiset_ensures;

    let mut out: Vec<u64> = Vec::new();
    let mut i: usize = 0;
    while i < v.len()
        invariant
            i <= v@.len(),
            out@.len() == i,
            sorted_by(out@, micros_le()),
            out@.to_multiset() == v@.subrange(0, i as int).to_multiset(),
        decreases v@.len() - i,
    {
        let x = v[i];
        let mut j: usize = 0;
        while j < out.len() && out[j] <= x
            invariant
                j <= out@.len(),
                forall|a: int| 0 <= a < j ==> out@[a] <= x,
            decreases out@.len() - j,
        {
            j += 1;
        }
        let ghost prev = out@;
        out.insert(j, x);
        proof {
            assert(out@ == prev.insert(j as int, x));
            assert(sorted_by(out@, micros_le())) by {
                assert forall|a: int, b: int| 0 <= a < b < out@.len() implies (micros_le())(
                    out@[a],
                    out@[b],
                ) by {
                    if b < j {
                        assert(out@[a] == prev[a] && out@[b] == prev[b]);
                    } else if b == j {
                        assert(out@[b] == x && out@[a] == prev[a]);
                    } else if a < j {
                        assert(out@[a] == prev[a] && out@[b] == prev[b - 1]);
                        if j < prev.len() {
                            assert(prev[j as int] > x);
                        }
                    } else if a == j {
                        assert(out@[a] == x && out@[b] == prev[b - 1]);
                        assert(prev[j as int] > x);
                        assert((micros_le())(prev[j as int], prev[b - 1]) || j == b - 1);
                    } else {
                        assert(out@[a] == prev[a - 1] && out@[b] == prev[b - 1]);
                    }
                }
            }
            lemma_seq_insert_to_multiset(prev, j as int, x);
            assert(v@.subrange(0, i + 1) =~= v@.subrange(0, i as int).push(v@[i as int]));
            vstd::seq_lib::to_multiset_build(v@.subrange(0, i as int), x);
            assert(out@.to_multiset() == v@.subrange(0, i + 1).to_multiset());
        }
        i += 1;
    }
    proof {
        assert(v@.subrange(0, i as int) =~= v@);
        lemma_micros_le_total_ordering();
        v@.lemma_sort_by_ensures(micros_le());
        lemma_sorted_unique(out@, sorted_micros(v@), micros_le());
    }
    out
}

/// The nearest-rank position for percentile `q` over `len` samples,
/// as an index into the sorted sequence.
fn percentile_position(len: usize, q: usize) -> (idx: usize)
    requires
        len > 0,
    ensures
        idx == percentile_index(len as nat, q as nat),
        idx < len,
{
    proof {
        vstd::arithmetic::mul::lemma_mul_upper_bound(
            len as int,
            u64::MAX as int,
            q as int,
            u64::MAX as int,
        );
    }
    let raw: u128 = (len as u128) * (q as u128) / 100;
    let cap: u128 = (len - 1) as u128;
    let clamped: u128 = if raw <= cap {
        raw
    } else {
        cap
    };
    clamped as usize
}

/// The recorder: an append-only collection of observed request
/// durations, each in whole microseconds.
pub struct Metrics {
    samples: Vec<u64>,
}

impl View for Metrics {
    type V = Seq<u64>;

    closed spec fn view(&self) -> Seq<u64> {
        self.samples@
    }
}

impl Metrics {
    /// Creates a recorder with no samples.
    pub fn new() -> (m: Metrics)
        ensures
            m@ == Seq::<u64>::empty(),
    {
        Metrics { samples: Vec::new() }
    }

    /// Appends one observed duration. Every call adds exactly one
    /// sample; none is dropped and none is duplicated.
    pub fn record(&mut self, micros: u64)
        ensures
            final(self)@ == old(self)@.push(micros),
    {
        self.samples.push(micros);
    }

    /// The aggregate snapshot `(p50, p95, p99, count)`: the nearest-rank
    /// P50, P95 and P99 in microseconds, and the number of samples at
    /// the time of the call. An empty recorder yields `(0, 0, 0, 0)`.
    /// The call reorders the stored samples ascending; it never adds or
    /// removes one.
    pub fn snapshot(&mut self) -> (r: (u64, u64, u64, usize))
        ensures
            r.3 == old(self)@.len(),
            final(self)@ == sorted_micros(old(self)@),
            r.0 == percentile_micros(old(self)@, 50),
            r.1 == percentile_micros(old(self)@, 95),
            r.2 == percentile_micros(old(self)@, 99),
    {
        let len = self.samples.len();
        if len == 0 {
            proof {
                broadcast use vstd::seq_lib::group_to_multiset_ensures;

                lemma_sorted_micros_len(self@);
                assert(sorted_micros(self@) =~= self@);
            }
            return (0u64, 0u64, 0u64, 0usize);
        }
        let sorted = sorted_samples(&self.samples);
        self.samples = sorted;
        proof {
            lemma_sorted_micros_len(old(self)@);
        }
        let p50 = self.samples[percentile_position(len, 50)];
        let p95 = self.samples[percentile_position(len, 95)];
        let p99 = self.samples[percentile_position(len, 99)];
        (p50, p95, p99, len)
    }
}

/// Reading twice without recording in between returns the same result:
/// a snapshot leaves the samples in ascending order, and sorting that
/// order again changes nothing, so the second snapshot reports the
/// same percentiles and the same count.
pub proof fn lemma_snapshot_idempotent(s: Seq<u64>)
    ensures
        sorted_micros(sorted_micros(s)) == sorted_micros(s),
        sorted_micros(s).len() == s.len(),
        forall|q: nat| percentile_micros(sorted_micros(s), q) == percentile_micros(s, q),
{
    lemma_micros_le_total_ordering();
    lemma_sorted_micros_len(s);
    lemma_sorted_micros_len(sorted_micros(s));
    lemma_sorted_unique(sorted_micros(sorted_micros(s)), sorted_micros(s), micros_le());
}

/// The order in which samples arrived is irrelevant to aggregation:
/// two recorders holding the same durations, in whatever orders,
/// sort to the same sequence and report the same percentiles.
pub proof fn lemma_aggregation_ignores_order(s1: Seq<u64>, s2: Seq<u64>)
    requires
        s1.to_multiset() == s2.to_multiset(),
    ensures
        sorted_micros(s1) == sorted_micros(s2),
        forall|q: nat| percentile_micros(s1, q) == percentile_micros(s2, q),
{
    lemma_micros_le_total_ordering();
    lemma_sorted_micros_len(s1);
    lemma_sorted_micros_len(s2);
    broadcast use vstd::seq_lib::group_to_multiset_ensures;

    assert(s1.len() == s1.to_multiset().len());
    assert(s2.len() == s2.to_multiset().len());
    lemma_sorted_unique(sorted_micros(s1), sorted_micros(s2), micros_le());
}

/// Recording is additive and loses nothing: a run of `record` calls
/// appends exactly the recorded values, so the count a snapshot then
/// reports is the earlier count plus the number of calls made.
pub proof fn lemma_record_additive(s: Seq<u64>, recorded: Seq<u64>)
    ensures
        (s + recorded).len() == s.len() + recorded.len(),
{
}

} // verus!
