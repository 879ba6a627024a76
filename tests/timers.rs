use timers::clock::elapsed_ns;
use timers::stopwatch::{Stopwatch, Summary};
use timers::timers::{TimerMap, TimerSet};

#[test]
fn test_simple() {
    let ts = TimerSet::new();
    ts.time("hello", || {});
}

#[test]
fn test_nested() {
    let ts = TimerSet::new();
    ts.time("hello", || {
        ts.time("world", || {});
    });
}

#[test]
fn time_returns_work_result() {
    let ts = TimerSet::new();
    assert_eq!(ts.time("answer", || 40 + 2), 42);
    let mut m = TimerMap::new();
    assert_eq!(m.time("answer", || "done"), "done");
}

#[test]
fn repeated_timing_counts_every_call() {
    let ts = TimerSet::new();
    for _ in 0..5 {
        ts.time("loop", || {});
    }
    assert_eq!(ts.get("loop").unwrap().number_of_windows, 5);
}

#[test]
fn repeated_records_sum_durations() {
    let mut m = TimerMap::new();
    m.record("e", 10);
    m.record("e", 20);
    m.record("e", 12);
    let sw = m.get("e").unwrap();
    assert_eq!(sw.number_of_windows, 3);
    assert_eq!(sw.total_time, 42);
}

#[test]
fn nested_timing_keeps_names_apart() {
    let ts = TimerSet::new();
    ts.time("outer", || {
        ts.time("inner", || {});
    });
    assert_eq!(ts.get("outer").unwrap().number_of_windows, 1);
    assert_eq!(ts.get("inner").unwrap().number_of_windows, 1);
    assert!(ts.get("other").is_none());
}

#[test]
fn records_under_other_names_do_not_mix() {
    let mut m = TimerMap::new();
    m.record("a", 5);
    m.record("b", 7);
    assert_eq!(m.get("a").unwrap(), Stopwatch { total_time: 5, number_of_windows: 1 });
    assert_eq!(m.get("b").unwrap(), Stopwatch { total_time: 7, number_of_windows: 1 });
}

#[test]
fn summaries_sorted_by_name() {
    let ts = TimerSet::new();
    ts.time("zebra", || {});
    ts.time("alpha", || {});
    ts.time("mid", || {});
    let names: Vec<String> = ts.summaries().into_iter().map(|(n, _)| n).collect();
    assert_eq!(names, vec!["alpha".to_string(), "mid".to_string(), "zebra".to_string()]);
}

#[test]
fn summaries_sort_by_bytes() {
    let mut m = TimerMap::new();
    m.record("b", 1);
    m.record("B", 1);
    m.record("\u{e9}", 1);
    m.record("ab", 1);
    m.record("a", 1);
    let names: Vec<String> = m.summaries().into_iter().map(|(n, _)| n).collect();
    assert_eq!(names, vec!["B", "a", "ab", "b", "\u{e9}"]);
}

#[test]
fn summary_of_idle_stopwatch_never_ran() {
    let sw = Stopwatch::new();
    assert_eq!(sw.summary(1_000_000_000), Summary::NeverRan);
    assert_eq!(sw.summary(1), Summary::NeverRan);
}

#[test]
fn summary_reports_totals_and_average() {
    let sw = Stopwatch { total_time: 3_000_000_000, number_of_windows: 3 };
    assert_eq!(
        sw.summary(1_000_000_000),
        Summary::Ran { total_ms: 3_000, samples: 3, avg_us: 1_000_000 }
    );
}

#[test]
fn summary_averages_before_converting() {
    let sw = Stopwatch { total_time: 2_999, number_of_windows: 2 };
    assert_eq!(sw.summary(1_000_000_000), Summary::Ran { total_ms: 0, samples: 2, avg_us: 1 });
    let ticks = Stopwatch { total_time: 7_500_000_000, number_of_windows: 3 };
    assert_eq!(
        ticks.summary(2_500_000_000),
        Summary::Ran { total_ms: 3_000, samples: 3, avg_us: 1_000_000 }
    );
}

#[test]
fn record_wraps_total_time() {
    let mut sw = Stopwatch { total_time: u64::MAX - 1, number_of_windows: 4 };
    sw.record(3);
    assert_eq!(sw, Stopwatch { total_time: 1, number_of_windows: 5 });
}

#[test]
fn snapshot_is_independent() {
    let ts = TimerSet::new();
    ts.time("x", || {});
    let snap = ts.clone_snapshot();
    ts.time("x", || {});
    ts.time("y", || {});
    assert_eq!(snap.get("x").unwrap().number_of_windows, 1);
    assert!(snap.get("y").is_none());
    assert_eq!(ts.get("x").unwrap().number_of_windows, 2);
}

#[test]
fn map_snapshot_is_independent() {
    let mut m = TimerMap::new();
    m.record("x", 4);
    let snap = m.snapshot();
    m.record("x", 6);
    assert_eq!(snap.get("x").unwrap(), Stopwatch { total_time: 4, number_of_windows: 1 });
    assert_eq!(m.get("x").unwrap(), Stopwatch { total_time: 10, number_of_windows: 2 });
}

#[test]
fn stopwatch_timed_counts_one_window() {
    let mut sw = Stopwatch::new();
    assert_eq!(sw.timed(|| 7), 7);
    assert_eq!(sw.number_of_windows, 1);
}

#[test]
fn elapsed_is_difference_or_zero() {
    assert_eq!(elapsed_ns(100, 350), 250);
    assert_eq!(elapsed_ns(350, 100), 0);
}

#[test]
fn clock_measures_real_work() {
    let ts = TimerSet::new();
    ts.time("spin", || {
        let mut acc: u64 = 0;
        for i in 0..200_000u64 {
            acc = acc.wrapping_add(i * i);
        }
        assert!(acc > 0);
    });
    assert!(ts.get("spin").unwrap().total_time > 0);
}
