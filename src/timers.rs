//! Named stopwatches: a map from event name to `Stopwatch`, kept sorted by
//! name, and a lock-guarded registry of them for shared use.

use vstd::prelude::*;
use vstd::rwlock::{RwLock, RwLockPredicate};
use vstd::utf8::{encode_utf8, encode_utf8_decode_utf8};
use crate::clock::{elapsed_ns, now_ns};
use crate::names::{compare_bytes, lemma_name_lt_irreflexive, lemma_name_lt_transitive, name_lt};
use crate::stopwatch::{lemma_recorded_all_counts, recorded_all, sum_of, wrap_modulus, Stopwatch, Summary};
use crate::tsc::{lemma_ns_rate_is_identity, NANOS_PER_SEC};

verus! {

/// A name-to-stopwatch table as a sequence of entries.
pub type Entries = Seq<(Seq<char>, Stopwatch)>;

/// The entries are in strictly increasing name order (so names are unique).
pub open spec fn sorted_by_name(v: Entries) -> bool {
    forall|i: int, j: int| 0 <= i < j < v.len() ==> name_lt(#[trigger] v[i].0, #[trigger] v[j].0)
}

/// Some entry is named `name`.
pub open spec fn has_name(v: Entries, name: Seq<char>) -> bool {
    exists|i: int| 0 <= i < v.len() && #[trigger] v[i].0 == name
}

/// The stopwatch of `name`; a fresh one where `name` has no entry.
pub open spec fn stopwatch_of(v: Entries, name: Seq<char>) -> Stopwatch {
    if has_name(v, name) {
        v[choose|i: int| 0 <= i < v.len() && #[trigger] v[i].0 == name].1
    } else {
        Stopwatch::empty()
    }
}

/// `after` is `before` with one sample of `d` recorded under `name`.
pub open spec fn records(before: Entries, after: Entries, name: Seq<char>, d: u64) -> bool {
    &&& stopwatch_of(after, name) == stopwatch_of(before, name).recorded(d)
    &&& has_name(after, name)
    &&& forall|n: Seq<char>|
        n != name ==> #[trigger] stopwatch_of(after, n) == stopwatch_of(before, n) && (has_name(
            after,
            n,
        ) == has_name(before, n))
}

/// In sorted entries, the entry at `i` is the one `stopwatch_of` finds.
proof fn lemma_stopwatch_of_at(v: Entries, i: int)
    requires
        sorted_by_name(v),
        0 <= i < v.len(),
    ensures
        has_name(v, v[i].0),
        stopwatch_of(v, v[i].0) == v[i].1,
{
    assert(v[i].0 == v[i].0);
    let j = choose|j: int| 0 <= j < v.len() && #[trigger] v[j].0 == v[i].0;
    if j < i {
        lemma_name_lt_irreflexive(v[j].0, v[i].0);
    } else if i < j {
        lemma_name_lt_irreflexive(v[i].0, v[j].0);
    }
}

/// Stopwatches keyed by event name, in increasing name order.
pub struct TimerMap {
    entries: Vec<(String, Stopwatch)>,
}

impl View for TimerMap {
    type V = Entries;

    closed spec fn view(&self) -> Entries {
        self.entries@.map_values(|e: (String, Stopwatch)| (e.0@, e.1))
    }
}

impl TimerMap {
    /// Names are unique and in increasing order.
    pub open spec fn wf(&self) -> bool {
        sorted_by_name(self@)
    }

    /// Creates an empty map.
    pub fn new() -> (m: TimerMap)
        ensures
            m.wf(),
            m@ == Seq::<(Seq<char>, Stopwatch)>::empty(),
    {
        let m = TimerMap { entries: Vec::new() };
        assert(m@ =~= Seq::<(Seq<char>, Stopwatch)>::empty());
        m
    }

    /// Where `name` stands or would be inserted, and whether it is there.
    fn position(&self, name: &str) -> (res: (usize, bool))
        requires
            self.wf(),
        ensures
            res.0 <= self@.len(),
            forall|j: int| 0 <= j < res.0 ==> name_lt(#[trigger] self@[j].0, name@),
            res.1 ==> res.0 < self@.len() && self@[res.0 as int].0 == name@,
            !res.1 ==> !has_name(self@, name@),
            !res.1 && res.0 < self@.len() ==> name_lt(name@, self@[res.0 as int].0),
    {
        let nb = name.as_bytes();
        let mut i: usize = 0;
        while i < self.entries.len()
            invariant
                self.wf(),
                i <= self@.len(),
                self@.len() == self.entries@.len(),
                nb@ == encode_utf8(name@),
                forall|j: int| 0 <= j < i ==> name_lt(#[trigger] self@[j].0, name@),
            decreases self.entries.len() - i,
        {
            let key: &str = self.entries[i].0.as_str();
            assert(key@ == self@[i as int].0);
            let c = compare_bytes(key.as_bytes(), nb);
            if c == 0 {
                proof {
                    encode_utf8_decode_utf8(key@);
                    encode_utf8_decode_utf8(name@);
                }
                return (i, true);
            }
            if c == 1 {
                proof {
                    assert forall|j: int| 0 <= j < self@.len() implies #[trigger] self@[j].0
                        != name@ by {
                        if j < i {
                            lemma_name_lt_irreflexive(self@[j].0, name@);
                        } else if j == i {
                            lemma_name_lt_irreflexive(name@, self@[j].0);
                        } else {
                            lemma_name_lt_transitive(name@, self@[i as int].0, self@[j].0);
                            lemma_name_lt_irreflexive(name@, self@[j].0);
                        }
                    }
                }
                return (i, false);
            }
            i = i + 1;
        }
        proof {
            assert forall|j: int| 0 <= j < self@.len() implies #[trigger] self@[j].0 != name@ by {
                lemma_name_lt_irreflexive(self@[j].0, name@);
            }
        }
        (i, false)
    }

    /// Records one sample of `d` under `name`, creating its stopwatch on
    /// first use.
    pub fn record(&mut self, name: &str, d: u64)
        requires
            old(self).wf(),
        ensures
            final(self).wf(),
            records(old(self)@, final(self)@, name@, d),
    {
        let (pos, found) = self.position(name);
        let ghost before = self@;
        if found {
            let mut sw = self.entries[pos].1;
            sw.record(d);
            let key = self.entries[pos].0.clone();
            self.entries.set(pos, (key, sw));
            proof {
                let after = self@;
                assert(after =~= before.update(pos as int, (name@, sw)));
                lemma_stopwatch_of_at(before, pos as int);
                lemma_stopwatch_of_at(after, pos as int);
                assert forall|n: Seq<char>| n != name@ implies #[trigger] stopwatch_of(after, n)
                    == stopwatch_of(before, n) && (has_name(after, n) == has_name(before, n)) by {
                    if has_name(after, n) {
                        let j = choose|j: int| 0 <= j < after.len() && #[trigger] after[j].0 == n;
                        lemma_stopwatch_of_at(after, j);
                        lemma_stopwatch_of_at(before, j);
                    } else if has_name(before, n) {
                        let j = choose|j: int| 0 <= j < before.len() && #[trigger] before[j].0 == n;
                        assert(after[j].0 == n);
                    }
                }
            }
        } else {
            let mut sw = Stopwatch::new();
            sw.record(d);
            self.entries.insert(pos, (name.to_owned(), sw));
            proof {
                let after = self@;
                let p = pos as int;
                assert(after =~= before.insert(p, (name@, sw)));
                assert forall|i: int, j: int| 0 <= i < j < after.len() implies name_lt(
                    #[trigger] after[i].0,
                    #[trigger] after[j].0,
                ) by {
                    if j < p {
                    } else if j == p {
                    } else if i < p {
                        if p < before.len() {
                            assert(name_lt(name@, before[p].0));
                            lemma_name_lt_transitive(after[i].0, name@, before[p].0);
                            if j - 1 > p {
                                lemma_name_lt_transitive(after[i].0, before[p].0, after[j].0);
                            }
                        }
                    } else if i == p {
                        if j - 1 > p {
                            lemma_name_lt_transitive(name@, before[p].0, after[j].0);
                        }
                    } else {
                        assert(after[i].0 == before[i - 1].0);
                        assert(after[j].0 == before[j - 1].0);
                    }
                }
                lemma_stopwatch_of_at(after, p);
                assert forall|n: Seq<char>| n != name@ implies #[trigger] stopwatch_of(after, n)
                    == stopwatch_of(before, n) && (has_name(after, n) == has_name(before, n)) by {
                    if has_name(after, n) {
                        let j = choose|j: int| 0 <= j < after.len() && #[trigger] after[j].0 == n;
                        lemma_stopwatch_of_at(after, j);
                        if j < p {
                            lemma_stopwatch_of_at(before, j);
                        } else {
                            assert(j > p);
                            assert(before[j - 1].0 == n);
                            lemma_stopwatch_of_at(before, j - 1);
                        }
                    } else if has_name(before, n) {
                        let j = choose|j: int| 0 <= j < before.len() && #[trigger] before[j].0 == n;
                        if j < p {
                            assert(after[j].0 == n);
                        } else {
                            assert(after[j + 1].0 == n);
                        }
                    }
                }
            }
        }
    }

    /// The stopwatch of `name`, if it has one.
    pub fn get(&self, name: &str) -> (r: Option<Stopwatch>)
        requires
            self.wf(),
        ensures
            r is Some <==> has_name(self@, name@),
            r is Some ==> r->0 == stopwatch_of(self@, name@),
    {
        let (pos, found) = self.position(name);
        if found {
            proof {
                lemma_stopwatch_of_at(self@, pos as int);
            }
            Some(self.entries[pos].1)
        } else {
            None
        }
    }

    /// Times `f` in nanoseconds, records the sample under `name`, and returns
    /// what `f` returned.
    pub fn time<R, F: FnOnce() -> R>(&mut self, name: &str, f: F) -> (r: R)
        requires
            old(self).wf(),
            f.requires(()),
        ensures
            f.ensures((), r),
            final(self).wf(),
            exists|d: u64| records(old(self)@, final(self)@, name@, d),
    {
        let t0 = now_ns();
        let r = f();
        let t1 = now_ns();
        let d = elapsed_ns(t0, t1);
        self.record(name, d);
        r
    }

    /// Each name with its stopwatch's summary, in increasing name order.
    pub fn summaries(&self) -> (r: Vec<(String, Summary)>)
        requires
            self.wf(),
        ensures
            r@.len() == self@.len(),
            forall|i: int|
                0 <= i < r@.len() ==> (#[trigger] r@[i]).0@ == self@[i].0 && r@[i].1
                    == self@[i].1.summary_spec(NANOS_PER_SEC),
            forall|i: int, j: int|
                0 <= i < j < r@.len() ==> name_lt((#[trigger] r@[i]).0@, (#[trigger] r@[j]).0@),
    {
        let mut r: Vec<(String, Summary)> = Vec::new();
        let mut i: usize = 0;
        while i < self.entries.len()
            invariant
                self.wf(),
                i <= self@.len(),
                self@.len() == self.entries@.len(),
                r@.len() == i,
                forall|k: int|
                    0 <= k < i ==> (#[trigger] r@[k]).0@ == self@[k].0 && r@[k].1
                        == self@[k].1.summary_spec(NANOS_PER_SEC),
            decreases self.entries.len() - i,
        {
            let sw = self.entries[i].1;
            proof {
                lemma_ns_rate_is_identity(sw.total_time);
            }
            let s = sw.summary(NANOS_PER_SEC);
            let key = self.entries[i].0.clone();
            r.push((key, s));
            i = i + 1;
        }
        r
    }

    /// An independent copy of this map.
    pub fn snapshot(&self) -> (m: TimerMap)
        ensures
            m@ == self@,
    {
        let mut entries: Vec<(String, Stopwatch)> = Vec::new();
        let mut i: usize = 0;
        while i < self.entries.len()
            invariant
                i <= self.entries@.len(),
                entries@.len() == i,
                forall|k: int|
                    0 <= k < i ==> (#[trigger] entries@[k]).0@ == self.entries@[k].0@
                        && entries@[k].1 == self.entries@[k].1,
            decreases self.entries.len() - i,
        {
            let key = self.entries[i].0.clone();
            entries.push((key, self.entries[i].1));
            i = i + 1;
        }
        let m = TimerMap { entries };
        assert(m@ =~= self@);
        m
    }
}

/// The lock's invariant: the guarded map is well formed.
pub struct WellFormed;

impl RwLockPredicate<TimerMap> for WellFormed {
    open spec fn inv(self, v: TimerMap) -> bool {
        v.wf()
    }
}

/// A set of stopwatches for named events, shared behind a lock.
///
/// The lock is held only while a sample is folded into the map, or while the
/// map is read or copied, never while timed work runs.
pub struct TimerSet {
    timers: RwLock<TimerMap, WellFormed>,
}

impl TimerSet {
    /// Creates a new, empty set of timers.
    pub fn new() -> (s: TimerSet) {
        TimerSet { timers: RwLock::new(TimerMap::new(), Ghost(WellFormed)) }
    }

    /// Times `f`, then records the sample under `name` in one critical
    /// section; returns what `f` returned.
    pub fn time<R, F: FnOnce() -> R>(&self, name: &str, f: F) -> (r: R)
        requires
            f.requires(()),
        ensures
            f.ensures((), r),
    {
        let t0 = now_ns();
        let r = f();
        let t1 = now_ns();
        let d = elapsed_ns(t0, t1);
        let (mut map, handle) = self.timers.acquire_write();
        map.record(name, d);
        handle.release_write(map);
        r
    }

    /// A copy of the current map, taken under the lock.
    pub fn snapshot(&self) -> (m: TimerMap)
        ensures
            m.wf(),
    {
        let (map, handle) = self.timers.acquire_write();
        let m = map.snapshot();
        handle.release_write(map);
        m
    }

    /// An independent registry holding a copy of the current map.
    pub fn clone_snapshot(&self) -> (s: TimerSet) {
        TimerSet { timers: RwLock::new(self.snapshot(), Ghost(WellFormed)) }
    }

    /// The stopwatch of `name`, if it has one.
    pub fn get(&self, name: &str) -> (r: Option<Stopwatch>) {
        self.snapshot().get(name)
    }

    /// Each name with its summary, in increasing name order; the copy is
    /// taken under the lock and summarised outside it.
    pub fn summaries(&self) -> (r: Vec<(String, Summary)>)
        ensures
            forall|i: int, j: int|
                0 <= i < j < r@.len() ==> name_lt((#[trigger] r@[i]).0@, (#[trigger] r@[j]).0@),
    {
        self.snapshot().summaries()
    }
}

/// After `N` successful timings under one name that had no samples, its
/// stopwatch holds `N` samples whose total is the sum of the measured
/// durations (modulo `2^64`). `states[k]` is the table before the `k`-th
/// timing, which measured `ds[k]`.
pub proof fn lemma_repeated_timing(states: Seq<Entries>, name: Seq<char>, ds: Seq<u64>)
    requires
        states.len() == ds.len() + 1,
        ds.len() < wrap_modulus(),
        stopwatch_of(states[0], name) == Stopwatch::empty(),
        forall|k: int| 0 <= k < ds.len() ==> records(#[trigger] states[k], states[k + 1], name, ds[k]),
    ensures
        stopwatch_of(states.last(), name) == recorded_all(Stopwatch::empty(), ds),
        stopwatch_of(states.last(), name).number_of_windows == ds.len(),
        stopwatch_of(states.last(), name).total_time == sum_of(ds) % wrap_modulus(),
    decreases ds.len(),
{
    if ds.len() > 0 {
        let k = ds.len() - 1;
        lemma_repeated_timing(states.drop_last(), name, ds.drop_last());
        assert(records(states[k], states[k + 1], name, ds[k]));
    }
    lemma_recorded_all_counts(ds);
}

/// Timing `inner` inside the timing of `outer` (two different names, both
/// new) leaves each with exactly its own one sample.
pub proof fn lemma_nested_timing(
    s0: Entries,
    s1: Entries,
    s2: Entries,
    inner: Seq<char>,
    outer: Seq<char>,
    d_inner: u64,
    d_outer: u64,
)
    requires
        inner != outer,
        !has_name(s0, inner),
        !has_name(s0, outer),
        records(s0, s1, inner, d_inner),
        records(s1, s2, outer, d_outer),
    ensures
        stopwatch_of(s2, inner) == Stopwatch::empty().recorded(d_inner),
        stopwatch_of(s2, outer) == Stopwatch::empty().recorded(d_outer),
        stopwatch_of(s2, inner).number_of_windows == 1,
        stopwatch_of(s2, outer).number_of_windows == 1,
        stopwatch_of(s2, inner).total_time == d_inner,
        stopwatch_of(s2, outer).total_time == d_outer,
{
    assert(stopwatch_of(s1, outer) == stopwatch_of(s0, outer));
    assert(stopwatch_of(s2, inner) == stopwatch_of(s1, inner));
}

} // verus!
