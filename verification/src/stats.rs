//! Rolling performance statistics: a capped, newest-first window of clock
//! samples (`TimeSampler`) and an unbounded list of measured durations
//! (`ExecutionTimer`).

use vstd::prelude::*;

verus! {

/// Declares `time::OffsetDateTime`, the outside crate's datetime, so that
/// the clock items below can hand one through; the crate never looks inside
/// a value of it.
#[verifier::external_type_specification]
#[verifier::external_body]
pub struct ExOffsetDateTime(time::OffsetDateTime);

/// Relies on `time::OffsetDateTime::now_utc`: reads the wall clock.  Nothing
/// can be promised of the value returned.
#[verifier::external_body]
fn now_utc() -> time::OffsetDateTime {
    time::OffsetDateTime::now_utc()
}

/// Relies on `time::OffsetDateTime::unix_timestamp_nanos`: the nanoseconds
/// since the Unix epoch.  The value depends on the wall clock that produced
/// the datetime, so nothing is promised of it.
pub assume_specification[ time::OffsetDateTime::unix_timestamp_nanos ](
    d: time::OffsetDateTime,
) -> i128;

/// The wall clock, in nanoseconds since the Unix epoch, reduced to 64 bits.
fn now_ns() -> u64 {
    let d = now_utc();
    let ns = d.unix_timestamp_nanos();
    #[verifier::truncate] (ns as u64)
}

/// Runs the given unit of work and returns how many nanoseconds the wall
/// clock advanced around it, or 0 when the clock stepped backwards.  The
/// clock decides the value, so only the completion of the work is promised.
pub fn timed_ns<F: FnOnce()>(closure: F) -> (r: u64)
    requires
        call_requires(closure, ()),
    ensures
        call_ensures(closure, (), ()),
{
    let start = now_ns();
    closure();
    let end = now_ns();
    if end >= start {
        end - start
    } else {
        0
    }
}

/// The window after one sample lands: the sample is put in front and the
/// window is cut back to `cap` entries.
pub open spec fn recorded(s: Seq<u64>, cap: int, t: u64) -> Seq<u64> {
    let grown = s.insert(0, t);
    if grown.len() <= cap {
        grown
    } else {
        grown.take(cap)
    }
}

/// Newest-first: every sample is at least as large as the one after it.
pub open spec fn descending(s: Seq<u64>) -> bool {
    forall|i: int| 0 <= i < s.len() - 1 ==> #[trigger] s[i] >= s[i + 1]
}

/// The running state of the delta sum after the `n` oldest samples were
/// folded, oldest first: the sum of deltas between consecutive samples, reset
/// whenever a zero sample goes by, together with the sample folded last.
pub open spec fn delta_fold(s: Seq<u64>, n: nat) -> (int, int)
    recommends
        n <= s.len(),
    decreases n,
{
    if n == 0 {
        (0, 0)
    } else {
        let prior = delta_fold(s, (n - 1) as nat);
        let x = s[s.len() - n] as int;
        if prior.1 > 0 {
            (prior.0 + x - prior.1, x)
        } else {
            (0, x)
        }
    }
}

/// The mean delta between consecutive samples over the whole window, 0 when
/// fewer than two samples are retained.
pub open spec fn avg_delta_ns(s: Seq<u64>) -> int {
    if s.len() < 2 {
        0
    } else {
        delta_fold(s, s.len()).0 / (s.len() - 1)
    }
}

proof fn lemma_delta_fold_telescopes(s: Seq<u64>, n: nat)
    requires
        1 <= n <= s.len(),
        forall|i: int| s.len() - n <= i < s.len() ==> #[trigger] s[i] > 0,
    ensures
        delta_fold(s, n) == (s[s.len() - n] as int - s[s.len() - 1] as int, s[s.len() - n] as int),
    decreases n,
{
    if n == 1 {
        assert(delta_fold(s, 0) == (0int, 0int));
        assert(delta_fold(s, 1) == (0int, s[s.len() - 1] as int));
    } else {
        lemma_delta_fold_telescopes(s, (n - 1) as nat);
        assert(delta_fold(s, (n - 1) as nat).1 == s[s.len() - (n - 1)] as int);
        assert(s[s.len() - (n - 1)] > 0);
    }
}

/// Rolling-stats law: over a window of positive timestamps, newest first, the
/// mean delta is the span of the window divided by the number of deltas.
pub proof fn lemma_avg_delta_of_positive_window(s: Seq<u64>)
    requires
        s.len() >= 2,
        forall|i: int| 0 <= i < s.len() ==> #[trigger] s[i] > 0,
    ensures
        avg_delta_ns(s) == (s[0] - s[s.len() - 1]) / (s.len() - 1),
{
    lemma_delta_fold_telescopes(s, s.len());
}

/// A capped window of clock samples, newest first.
pub struct TimeSampler {
    n_samples: i32,
    samples: Vec<u64>,
}

impl TimeSampler {
    /// The configured cap on the window.
    pub closed spec fn cap(&self) -> int {
        self.n_samples as int
    }

    /// The retained samples, newest first.
    pub closed spec fn samples(&self) -> Seq<u64> {
        self.samples@
    }

    pub open spec fn wf(&self) -> bool {
        self.cap() >= 0
    }

    /// Constructs a new `TimeSampler` with the given cap.
    pub fn new(n_samples: i32) -> (r: TimeSampler)
        requires
            n_samples >= 0,
        ensures
            r.wf(),
            r.cap() == n_samples,
            r.samples() == Seq::<u64>::empty(),
    {
        TimeSampler { n_samples, samples: Vec::new() }
    }

    /// Put one timestamp in front of the window and cut the window back to
    /// the cap.
    pub fn record(&mut self, timestamp_ns: u64)
        requires
            old(self).wf(),
        ensures
            final(self).wf(),
            final(self).cap() == old(self).cap(),
            final(self).samples() == recorded(old(self).samples(), old(self).cap(), timestamp_ns),
    {
        self.samples.insert(0, timestamp_ns);
        self.samples.truncate(self.n_samples as usize);
    }

    /// Record the current wall-clock time.  The clock decides the value, so
    /// only the shape of the new window is promised.
    pub fn sample(&mut self)
        requires
            old(self).wf(),
        ensures
            final(self).wf(),
            final(self).cap() == old(self).cap(),
            exists|t: u64|
                final(self).samples() == recorded(old(self).samples(), old(self).cap(), t),
    {
        let t = now_ns();
        self.record(t);
    }

    /// Drop every retained sample.
    pub fn reset(&mut self)
        ensures
            final(self).cap() == old(self).cap(),
            final(self).samples() == Seq::<u64>::empty(),
    {
        self.samples.clear();
    }

    /// The newest retained sample, or 0 when the window is empty.
    pub fn latest(&self) -> (r: u64)
        ensures
            r == if self.samples().len() > 0 {
                self.samples()[0]
            } else {
                0u64
            },
    {
        if self.samples.len() > 0 {
            self.samples[0]
        } else {
            0
        }
    }

    /// The mean delta in nanoseconds between consecutive retained samples;
    /// 0 when fewer than two samples are retained.
    pub fn avg_time_ns(&self) -> (r: u64)
        requires
            descending(self.samples()),
        ensures
            r as int == avg_delta_ns(self.samples()),
    {
        let n = self.samples.len();
        if n < 2 {
            0
        } else {
            let mut sum: u64 = 0;
            let mut prev: u64 = 0;
            let mut k: usize = 0;
            while k < n
                invariant
                    descending(self.samples()),
                    n == self.samples().len(),
                    k <= n,
                    (sum as int, prev as int) == delta_fold(self.samples(), k as nat),
                    sum <= prev,
                decreases n - k,
            {
                let x = self.samples[n - 1 - k];
                if prev > 0 {
                    sum = sum + (x - prev);
                } else {
                    sum = 0;
                }
                prev = x;
                k = k + 1;
            }
            sum / ((n - 1) as u64)
        }
    }

    /// The mean number of samples per second, by integer millisecond
    /// division; 0 when the mean delta is 0.  The division drops everything
    /// under a millisecond, a documented precision loss.
    pub fn avg_per_second(&self) -> (r: u64)
        requires
            descending(self.samples()),
            avg_delta_ns(self.samples()) == 0 || avg_delta_ns(self.samples()) >= 1_000_000,
        ensures
            r as int == if avg_delta_ns(self.samples()) > 0 {
                1000int / (avg_delta_ns(self.samples()) / 1_000_000)
            } else {
                0int
            },
    {
        let ftime = self.avg_time_ns();
        if ftime > 0 {
            1000 / (ftime / 1000000)
        } else {
            0
        }
    }
}

/// The sum of all samples.
pub open spec fn total(s: Seq<u64>) -> int
    decreases s.len(),
{
    if s.len() == 0 {
        0
    } else {
        total(s.drop_last()) + s.last()
    }
}

proof fn lemma_total_take_step(s: Seq<u64>, i: int)
    requires
        0 <= i < s.len(),
    ensures
        total(s.take(i + 1)) == total(s.take(i)) + s[i],
{
    assert(s.take(i + 1).drop_last() =~= s.take(i));
    assert(s.take(i + 1).last() == s[i]);
}

proof fn lemma_total_nonneg(s: Seq<u64>)
    ensures
        total(s) >= 0,
    decreases s.len(),
{
    if s.len() > 0 {
        lemma_total_nonneg(s.drop_last());
    }
}

proof fn lemma_total_prefix_bounds(s: Seq<u64>, i: int)
    requires
        0 <= i <= s.len(),
    ensures
        0 <= total(s.take(i)) <= total(s),
    decreases s.len() - i,
{
    lemma_total_nonneg(s.take(i));
    if i < s.len() {
        lemma_total_take_step(s, i);
        lemma_total_prefix_bounds(s, i + 1);
    } else {
        assert(s.take(i) =~= s);
    }
}

/// An unbounded list of measured durations, in order of measurement.
pub struct ExecutionTimer {
    samples: Vec<u64>,
}

impl ExecutionTimer {
    /// The measured durations, oldest first.
    pub closed spec fn samples(&self) -> Seq<u64> {
        self.samples@
    }

    /// Constructs a new `ExecutionTimer` with no samples.
    pub fn new() -> (r: ExecutionTimer)
        ensures
            r.samples() == Seq::<u64>::empty(),
    {
        ExecutionTimer { samples: Vec::new() }
    }

    /// Append one measured duration.
    pub fn record(&mut self, duration_ns: u64)
        ensures
            final(self).samples() == old(self).samples().push(duration_ns),
    {
        self.samples.push(duration_ns);
    }

    /// Run the given unit of work and append how long it took.  The clock
    /// decides the duration, so only the shape of the new list and the
    /// completion of the work are promised.
    pub fn measure<F: FnOnce()>(&mut self, closure: F)
        requires
            call_requires(closure, ()),
        ensures
            call_ensures(closure, (), ()),
            exists|d: u64| final(self).samples() == old(self).samples().push(d),
    {
        let d = timed_ns(closure);
        self.record(d);
    }

    /// Drop every sample.
    pub fn reset(&mut self)
        ensures
            final(self).samples() == Seq::<u64>::empty(),
    {
        self.samples.clear();
    }

    /// The sample recorded first among those retained, or 0 when there is
    /// none.
    pub fn latest(&self) -> (r: u64)
        ensures
            r == if self.samples().len() > 0 {
                self.samples()[0]
            } else {
                0u64
            },
    {
        if self.samples.len() > 0 {
            self.samples[0]
        } else {
            0
        }
    }

    /// The mean sample, 0 when there are no samples.  The sum of the samples
    /// must fit in 64 bits.
    pub fn avg(&self) -> (r: u64)
        requires
            total(self.samples()) <= u64::MAX,
        ensures
            r as int == if self.samples().len() == 0 {
                0int
            } else {
                total(self.samples()) / self.samples().len() as int
            },
    {
        let n = self.samples.len();
        if n == 0 {
            0
        } else {
            let mut sum: u64 = 0;
            let mut i: usize = 0;
            while i < n
                invariant
                    n == self.samples().len(),
                    i <= n,
                    total(self.samples()) <= u64::MAX,
                    sum == total(self.samples().take(i as int)),
                decreases n - i,
            {
                proof {
                    lemma_total_take_step(self.samples(), i as int);
                    lemma_total_prefix_bounds(self.samples(), i + 1);
                }
                sum = sum + self.samples[i];
                i = i + 1;
            }
            proof {
                assert(self.samples().take(n as int) =~= self.samples());
            }
            sum / (n as u64)
        }
    }

    /// The smallest sample.  There must be at least one.
    pub fn min(&self) -> (r: u64)
        requires
            self.samples().len() >= 1,
        ensures
            self.samples().contains(r),
            forall|i: int| 0 <= i < self.samples().len() ==> r <= #[trigger] self.samples()[i],
    {
        let mut m = self.samples[0];
        let mut i: usize = 1;
        while i < self.samples.len()
            invariant
                1 <= i <= self.samples().len(),
                self.samples().contains(m),
                forall|j: int| 0 <= j < i ==> m <= #[trigger] self.samples()[j],
            decreases self.samples().len() - i,
        {
            if self.samples[i] < m {
                m = self.samples[i];
            }
            i = i + 1;
        }
        m
    }

    /// The largest sample.  There must be at least one.
    pub fn max(&self) -> (r: u64)
        requires
            self.samples().len() >= 1,
        ensures
            self.samples().contains(r),
            forall|i: int| 0 <= i < self.samples().len() ==> r >= #[trigger] self.samples()[i],
    {
        let mut m = self.samples[0];
        let mut i: usize = 1;
        while i < self.samples.len()
            invariant
                1 <= i <= self.samples().len(),
                self.samples().contains(m),
                forall|j: int| 0 <= j < i ==> m >= #[trigger] self.samples()[j],
            decreases self.samples().len() - i,
        {
            if self.samples[i] > m {
                m = self.samples[i];
            }
            i = i + 1;
        }
        m
    }
}

} // verus!
