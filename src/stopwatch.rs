//! The accumulator of elapsed time and sample count for one named event.

use vstd::prelude::*;
use crate::clock::{elapsed_ns, now_ns};
use crate::tsc::{ms_of, ns_of, to_ms, to_us, us_of, T};

verus! {

/// `2^64`: totals and counts wrap around at this modulus.
pub open spec fn wrap_modulus() -> nat {
    0x1_0000_0000_0000_0000
}

/// Total time and number of samples clocked for one event.
///
/// Both fields wrap around on overflow: under extreme cumulative load the
/// total (and, after `2^64` samples, the count) restarts from zero.
#[derive(Debug, Copy, Clone, PartialEq, Eq)]
pub struct Stopwatch {
    /// The total amount of time clocked, in the registry's time unit.
    pub total_time: T,
    /// The number of time windows clocked.
    pub number_of_windows: u64,
}

/// What a stopwatch reports about itself.
#[derive(Debug, Copy, Clone, PartialEq, Eq)]
pub enum Summary {
    /// No sample was ever recorded.
    NeverRan,
    /// Totals over at least one sample.
    Ran {
        /// Total time in milliseconds.
        total_ms: u64,
        /// Number of samples.
        samples: u64,
        /// Average time per sample in microseconds.
        avg_us: u64,
    },
}

impl Stopwatch {
    /// A stopwatch with nothing clocked.
    pub open spec fn empty() -> Stopwatch {
        Stopwatch { total_time: 0, number_of_windows: 0 }
    }

    /// The stopwatch after one more sample of `duration`.
    pub open spec fn recorded(self, duration: u64) -> Stopwatch {
        Stopwatch {
            total_time: ((self.total_time + duration) as nat % wrap_modulus()) as u64,
            number_of_windows: ((self.number_of_windows + 1) as nat % wrap_modulus()) as u64,
        }
    }

    /// What `summary` reports at `tps` ticks per second.
    pub open spec fn summary_spec(self, tps: u64) -> Summary {
        if self.number_of_windows == 0 {
            Summary::NeverRan
        } else {
            Summary::Ran {
                total_ms: ms_of(self.total_time, tps) as u64,
                samples: self.number_of_windows,
                avg_us: us_of(self.total_time / self.number_of_windows, tps) as u64,
            }
        }
    }

    /// Creates a new stopwatch with nothing clocked.
    pub fn new() -> (s: Stopwatch)
        ensures
            s == Stopwatch::empty(),
    {
        Stopwatch { total_time: 0, number_of_windows: 0 }
    }

    /// Adds one sample of `duration` to the totals.
    pub fn record(&mut self, duration: u64)
        ensures
            *final(self) == old(self).recorded(duration),
    {
        self.total_time = self.total_time.wrapping_add(duration);
        self.number_of_windows = self.number_of_windows.wrapping_add(1);
    }

    /// Times `event` in nanoseconds, records the sample, and returns what
    /// `event` returned.
    pub fn timed<R, F: FnOnce() -> R>(&mut self, event: F) -> (r: R)
        requires
            event.requires(()),
        ensures
            event.ensures((), r),
            exists|d: u64| *final(self) == #[trigger] old(self).recorded(d),
    {
        let t0 = now_ns();
        let r = event();
        let t1 = now_ns();
        self.record(elapsed_ns(t0, t1));
        r
    }

    /// The totals at `tps` ticks per second. A stopwatch with no sample
    /// reports that it never ran, and no division is made.
    pub fn summary(&self, tps: T) -> (s: Summary)
        requires
            tps > 0,
            ns_of(self.total_time, tps) <= u64::MAX,
        ensures
            s == self.summary_spec(tps),
    {
        if self.number_of_windows == 0 {
            Summary::NeverRan
        } else {
            let avg: u64 = self.total_time / self.number_of_windows;
            proof {
                let a = avg as int;
                let t = self.total_time as int;
                assert(a <= t);
                assert(a * 1_000_000_000 <= t * 1_000_000_000) by (nonlinear_arith)
                    requires
                        a <= t,
                ;
                vstd::arithmetic::div_mod::lemma_div_is_ordered(
                    a * 1_000_000_000,
                    t * 1_000_000_000,
                    tps as int,
                );
            }
            Summary::Ran {
                total_ms: to_ms(self.total_time, tps),
                samples: self.number_of_windows,
                avg_us: to_us(avg, tps),
            }
        }
    }
}

/// The sum of a sequence of durations.
pub open spec fn sum_of(ds: Seq<u64>) -> nat
    decreases ds.len(),
{
    if ds.len() == 0 {
        0
    } else {
        sum_of(ds.drop_last()) + ds.last() as nat
    }
}

/// `s` after recording each of `ds` in turn.
pub open spec fn recorded_all(s: Stopwatch, ds: Seq<u64>) -> Stopwatch
    decreases ds.len(),
{
    if ds.len() == 0 {
        s
    } else {
        recorded_all(s, ds.drop_last()).recorded(ds.last())
    }
}

/// After `N` samples recorded on a fresh stopwatch, its count is `N` and its
/// total is the sum of the samples (modulo `2^64`, where it wraps).
pub proof fn lemma_recorded_all_counts(ds: Seq<u64>)
    requires
        ds.len() < wrap_modulus(),
    ensures
        recorded_all(Stopwatch::empty(), ds).number_of_windows == ds.len(),
        recorded_all(Stopwatch::empty(), ds).total_time == sum_of(ds) % wrap_modulus(),
    decreases ds.len(),
{
    if ds.len() > 0 {
        let prev = ds.drop_last();
        lemma_recorded_all_counts(prev);
        let t = sum_of(prev) as int;
        let x = ds.last() as int;
        let m = wrap_modulus() as int;
        assert(((t % m) + x) % m == (t + x) % m) by {
            vstd::arithmetic::div_mod::lemma_add_mod_noop(t, x, m);
            vstd::arithmetic::div_mod::lemma_mod_twice(x, m);
            vstd::arithmetic::div_mod::lemma_small_mod(x as nat, m as nat);
        }
    }
}

} // verus!
