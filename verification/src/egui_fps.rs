//! A counter of frame times kept over the last `N` frames.

use vstd::prelude::*;
use crate::duration::{TimeSpan, NANOS_PER_SECOND};

verus! {

broadcast use vstd::seq_lib::group_seq_properties;

/// A point in time of the monotonic clock.
#[verifier::external_type_specification]
#[verifier::external_body]
pub struct ExInstant(std::time::Instant);

/// The current time (`Instant::now`); nothing is stated of it.
#[verifier::external_body]
pub(crate) fn instant_now() -> std::time::Instant {
    std::time::Instant::now()
}

/// The time since `start` (`Instant::elapsed`), as whole seconds and the
/// nanoseconds beyond them; it depends on the clock, so only what holds of
/// every `Duration` is stated: the nanoseconds stay below a second.
#[verifier::external_body]
pub(crate) fn elapsed_since(start: &std::time::Instant) -> (r: TimeSpan)
    ensures
        r.nanos < 1_000_000_000,
{
    let d = start.elapsed();
    TimeSpan { secs: d.as_secs(), nanos: d.subsec_nanos() }
}

/// `a` comes no later than `b`, ordering by seconds and then nanoseconds.
pub open spec fn span_le(a: TimeSpan, b: TimeSpan) -> bool {
    a.secs < b.secs || (a.secs == b.secs && a.nanos <= b.nanos)
}

/// The seconds and nanoseconds of the first `k` samples added up as the
/// counter does: whenever the nanoseconds exceed a second, the whole seconds
/// among them are carried over.
pub open spec fn sum_samples(samples: Seq<TimeSpan>, k: int) -> (int, int)
    decreases k,
{
    if k <= 0 {
        (0, 0)
    } else {
        let (s, n) = sum_samples(samples, k - 1);
        let s2 = s + samples[k - 1].secs;
        let n2 = n + samples[k - 1].nanos;
        if n2 > 1_000_000_000 {
            (s2 + n2 / 1_000_000_000, n2 % 1_000_000_000)
        } else {
            (s2, n2)
        }
    }
}

/// The average that `FpsCounter::get_average` gives: zero before any sample
/// is written, else the sum of the first `end` samples (`N - 1` once the
/// ring is full, else those written), carried as `sum_samples` does, with the
/// seconds divided by `end` and the nanoseconds by `end` taken as a `u32`
/// (the low 32 bits of it), and the result carried again.
pub open spec fn average_of(samples: Seq<TimeSpan>, next_index: usize, all_valid: bool, n: int) -> TimeSpan {
    if next_index == 0 && !all_valid {
        TimeSpan { secs: 0, nanos: 0 }
    } else {
        let end = if all_valid { n - 1 } else { next_index as int };
        let (s, ns) = sum_samples(samples, end);
        let secs = s / end;
        let nanos = ns / ((end as u32) as int);
        TimeSpan { secs: (secs + nanos / 1_000_000_000) as u64, nanos: (nanos % 1_000_000_000) as u32 }
    }
}

/// Keeps the frame times of the last `N` frames in a ring.
pub struct FpsCounter<const N: usize> {
    samples: Vec<TimeSpan>,
    next_index: usize,
    are_all_valid: bool,
    last_start: Option<std::time::Instant>,
}

impl<const N: usize> FpsCounter<N> {
    /// The ring holds `N` samples of less than a second's nanoseconds, and
    /// the next place to write is in it.
    pub open spec fn inv(&self) -> bool {
        &&& self.spec_samples().len() == N
        &&& (self.spec_next_index() < N || (N == 0 && self.spec_next_index() == 0
            && !self.spec_all_valid()))
        &&& forall|i: int| 0 <= i < N ==> (#[trigger] self.spec_samples()[i]).nanos < 1_000_000_000
    }

    /// The samples, oldest place first.
    pub closed spec fn spec_samples(&self) -> Seq<TimeSpan> {
        self.samples@
    }

    /// Where the next sample goes.
    pub closed spec fn spec_next_index(&self) -> usize {
        self.next_index
    }

    /// Whether the ring has been filled once.
    pub closed spec fn spec_all_valid(&self) -> bool {
        self.are_all_valid
    }

    /// Whether a frame is being timed.
    pub closed spec fn spec_timing(&self) -> bool {
        self.last_start is Some
    }

    /// How many samples the average is taken over: `N - 1` once the ring is
    /// full, else those written.
    pub open spec fn spec_end(&self) -> int {
        if self.spec_all_valid() {
            N - 1
        } else {
            self.spec_next_index() as int
        }
    }

    pub fn new() -> (r: Self)
        ensures
            r.inv(),
            r.spec_samples() == Seq::new(N as nat, |i: int| TimeSpan { secs: 0, nanos: 0 }),
            r.spec_next_index() == 0,
            !r.spec_all_valid(),
            !r.spec_timing(),
    {
        let mut samples: Vec<TimeSpan> = Vec::new();
        let mut i: usize = 0;
        while i < N
            invariant
                i <= N,
                samples@ == Seq::new(i as nat, |i: int| TimeSpan { secs: 0, nanos: 0 }),
            decreases N - i,
        {
            samples.push(TimeSpan::zero());
            proof {
                assert(samples@ =~= Seq::new((i + 1) as nat, |i: int| TimeSpan { secs: 0, nanos: 0 }));
            }
            i = i + 1;
        }
        Self { samples, next_index: 0, are_all_valid: false, last_start: None }
    }

    /// Starts timing a frame.
    pub fn start_timer(&mut self)
        requires
            old(self).inv(),
        ensures
            final(self).inv(),
            final(self).spec_samples() == old(self).spec_samples(),
            final(self).spec_next_index() == old(self).spec_next_index(),
            final(self).spec_all_valid() == old(self).spec_all_valid(),
            final(self).spec_timing(),
    {
        self.last_start = Some(instant_now());
    }

    /// Writes `sample` at the next place of the ring, which then moves on,
    /// wrapping to place 0 (and marking the ring full) after the last.
    pub fn record_sample(&mut self, sample: TimeSpan)
        requires
            old(self).inv(),
            N >= 1,
            sample.nanos < 1_000_000_000,
        ensures
            final(self).inv(),
            final(self).spec_samples() == old(self).spec_samples().update(
                old(self).spec_next_index() as int,
                sample,
            ),
            if old(self).spec_next_index() == N - 1 {
                final(self).spec_next_index() == 0 && final(self).spec_all_valid()
            } else {
                final(self).spec_next_index() == old(self).spec_next_index() + 1
                    && final(self).spec_all_valid() == old(self).spec_all_valid()
            },
            final(self).spec_timing() == old(self).spec_timing(),
    {
        self.samples.set(self.next_index, sample);
        if self.next_index == N - 1 {
            self.are_all_valid = true;
            self.next_index = 0;
        } else {
            self.next_index = self.next_index + 1;
        }
    }

    /// Stops timing a frame, if one is being timed, and records its time as
    /// `record_sample` does. The time itself comes from the clock: it is some
    /// span of less than a second's nanoseconds.
    pub fn stop_timer(&mut self)
        requires
            old(self).inv(),
            old(self).spec_timing() ==> N >= 1,
        ensures
            final(self).inv(),
            !final(self).spec_timing(),
            !old(self).spec_timing() ==> final(self).spec_samples() == old(self).spec_samples()
                && final(self).spec_next_index() == old(self).spec_next_index()
                && final(self).spec_all_valid() == old(self).spec_all_valid(),
            old(self).spec_timing() ==> {
                &&& exists|sample: TimeSpan| #![trigger sample.nanos]
                    sample.nanos < 1_000_000_000 && final(self).spec_samples()
                        == old(self).spec_samples().update(old(self).spec_next_index() as int, sample)
                &&& if old(self).spec_next_index() == N - 1 {
                    final(self).spec_next_index() == 0 && final(self).spec_all_valid()
                } else {
                    final(self).spec_next_index() == old(self).spec_next_index() + 1
                        && final(self).spec_all_valid() == old(self).spec_all_valid()
                }
            },
    {
        if let Some(start) = self.last_start.take() {
            let sample = elapsed_since(&start);
            self.record_sample(sample);
            assert(sample.nanos < 1_000_000_000);
        }
    }

    /// The average of the first `spec_end()` samples (zero before any is
    /// written): their sum, carried as `sum_samples` does, with the seconds
    /// and the nanoseconds each divided by the count.
    pub fn get_average(&self) -> (r: TimeSpan)
        requires
            self.inv(),
            !(self.spec_next_index() == 0 && !self.spec_all_valid()) ==> (self.spec_end() as u32) > 0,
            sum_samples(self.spec_samples(), self.spec_end()).0 + 1 <= u64::MAX,
        ensures
            r == average_of(self.spec_samples(), self.spec_next_index(), self.spec_all_valid(), N as int),
    {
        if self.next_index == 0 && !self.are_all_valid {
            return TimeSpan::zero();
        }
        let end = if self.are_all_valid {
            N - 1
        } else {
            self.next_index
        };
        let mut sum_seconds: u64 = 0;
        let mut sum_nanos: u32 = 0;
        let mut i: usize = 0;
        proof {
            lemma_sum_monotone(self.samples@, 0, end as int);
        }
        while i < end
            invariant
                self.inv(),
                end <= N,
                end == self.spec_end(),
                i <= end,
                sum_samples(self.samples@, end as int).0 + 1 <= u64::MAX,
                (sum_seconds as int, sum_nanos as int) == sum_samples(self.samples@, i as int),
                sum_nanos <= 1_000_000_000,
            decreases end - i,
        {
            let dur = self.samples[i];
            proof {
                lemma_sum_monotone(self.samples@, i + 1, end as int);
                assert(self.samples@[i as int].nanos < 1_000_000_000);
            }
            sum_seconds = sum_seconds + dur.secs;
            sum_nanos = sum_nanos + dur.nanos;
            if sum_nanos > NANOS_PER_SECOND {
                let delta = sum_nanos / NANOS_PER_SECOND;
                sum_nanos = sum_nanos - delta * NANOS_PER_SECOND;
                sum_seconds = sum_seconds + delta as u64;
            }
            i = i + 1;
        }
        TimeSpan::new(sum_seconds / (end as u64), sum_nanos / (end as u32))
    }

    /// The largest sample of the whole ring, by seconds and then nanoseconds
    /// (zero when `N` is zero).
    pub fn get_max(&self) -> (r: TimeSpan)
        requires
            self.inv(),
        ensures
            N == 0 ==> r == TimeSpan::spec_zero(),
            N > 0 ==> self.spec_samples().contains(r) && forall|i: int| 0 <= i < N ==> span_le(
                #[trigger] self.spec_samples()[i],
                r,
            ),
    {
        if self.samples.len() == 0 {
            return TimeSpan::zero();
        }
        let mut best = self.samples[0];
        let mut i: usize = 1;
        while i < self.samples.len()
            invariant
                1 <= i <= self.samples@.len(),
                self.samples@.len() == N,
                self.samples@.contains(best),
                forall|j: int| 0 <= j < i ==> span_le(#[trigger] self.samples@[j], best),
            decreases self.samples@.len() - i,
        {
            let s = self.samples[i];
            if best.secs < s.secs || (best.secs == s.secs && best.nanos <= s.nanos) {
                best = s;
            }
            i = i + 1;
        }
        best
    }
}

/// The seconds of a running sum never go down.
proof fn lemma_sum_monotone(samples: Seq<TimeSpan>, i: int, j: int)
    requires
        0 <= i <= j,
    ensures
        sum_samples(samples, i).0 <= sum_samples(samples, j).0,
        0 <= sum_samples(samples, i).0,
    decreases j - i,
{
    lemma_sum_nonneg(samples, i);
    if i < j {
        lemma_sum_monotone(samples, i, j - 1);
        lemma_sum_nonneg(samples, j - 1);
        let (s, n) = sum_samples(samples, j - 1);
        let n2 = n + samples[j - 1].nanos;
        assert(n2 / 1_000_000_000 >= 0) by (nonlinear_arith) requires n2 >= 0;
    }
}

proof fn lemma_sum_nonneg(samples: Seq<TimeSpan>, i: int)
    ensures
        0 <= sum_samples(samples, i).0,
        0 <= sum_samples(samples, i).1,
    decreases i,
{
    if i > 0 {
        lemma_sum_nonneg(samples, i - 1);
    }
}

/// The total length of the first `k` samples, in nanoseconds.
pub open spec fn total_nanos(samples: Seq<TimeSpan>, k: int) -> int
    decreases k,
{
    if k <= 0 {
        0
    } else {
        total_nanos(samples, k - 1) + samples[k - 1].secs * 1_000_000_000 + samples[k - 1].nanos
    }
}

/// Adding up the samples as the counter does keeps their total: the
/// seconds and the nanoseconds it reaches make up the total length of the
/// samples, with at most a second's nanoseconds left over.
proof fn lemma_sum_is_total(samples: Seq<TimeSpan>, k: int)
    requires
        0 <= k <= samples.len(),
        forall|i: int| 0 <= i < k ==> (#[trigger] samples[i]).nanos < 1_000_000_000,
    ensures
        sum_samples(samples, k).0 * 1_000_000_000 + sum_samples(samples, k).1 == total_nanos(samples, k),
        0 <= sum_samples(samples, k).1 <= 1_000_000_000,
    decreases k,
{
    if k > 0 {
        lemma_sum_is_total(samples, k - 1);
        let (s, n) = sum_samples(samples, k - 1);
        let n2 = n + samples[k - 1].nanos;
        if n2 > 1_000_000_000 {
            assert(n2 / 1_000_000_000 == 1 && n2 % 1_000_000_000 == n2 - 1_000_000_000) by (nonlinear_arith)
                requires 1_000_000_000 < n2 < 2_000_000_000;
        }
    }
}

/// The counter's average over `k` counted samples (the first `N - 1` once the
/// ring is full, else those written): their total length, split into whole
/// seconds and at most a second's nanoseconds, with each part divided by `k`
/// and the nanoseconds carried into the seconds; zero before any sample is
/// written. So it runs over every counted sample and no other.
pub proof fn law_average_of_counted_samples(
    samples: Seq<TimeSpan>,
    next_index: usize,
    all_valid: bool,
    n: int,
)
    requires
        ({
            let k = if all_valid { n - 1 } else { next_index as int };
            &&& 0 <= k <= samples.len()
            &&& k <= u32::MAX
            &&& forall|i: int| 0 <= i < k ==> (#[trigger] samples[i]).nanos < 1_000_000_000
            &&& total_nanos(samples, k) < u64::MAX * 1_000_000_000
            &&& !(next_index == 0 && !all_valid) ==> k >= 1
        }),
    ensures
        (next_index == 0 && !all_valid) ==> average_of(samples, next_index, all_valid, n) == TimeSpan::spec_zero(),
        !(next_index == 0 && !all_valid) ==> ({
            let k = if all_valid { n - 1 } else { next_index as int };
            exists|secs: int, nanos: int|
                #![trigger secs * 1_000_000_000 + nanos]
                secs * 1_000_000_000 + nanos == total_nanos(samples, k) && 0 <= nanos <= 1_000_000_000
                    && average_of(samples, next_index, all_valid, n).secs == secs / k + (nanos / k) / 1_000_000_000
                    && average_of(samples, next_index, all_valid, n).nanos == (nanos / k) % 1_000_000_000
        }),
{
    if !(next_index == 0 && !all_valid) {
        let k = if all_valid { n - 1 } else { next_index as int };
        lemma_sum_is_total(samples, k);
        lemma_sum_nonneg(samples, k);
        let (secs, nanos) = sum_samples(samples, k);
        assert(((k as u32) as int) == k);
        assert(secs < u64::MAX) by (nonlinear_arith)
            requires secs * 1_000_000_000 + nanos < u64::MAX * 1_000_000_000, nanos >= 0;
        assert(secs / k <= secs && nanos / k <= nanos && (nanos / k) / 1_000_000_000 <= 1) by (nonlinear_arith)
            requires k >= 1, secs >= 0, 0 <= nanos <= 1_000_000_000;
        assert(secs * 1_000_000_000 + nanos == total_nanos(samples, k));
    }
}

} // verus!
