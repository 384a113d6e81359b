//! Candlestick periods and the grouping of samples into candle windows.

use vstd::prelude::*;
use vstd::string::*;
use crate::text::str_equal;
use crate::database::{RawDataPoint, metric_of_name};

verus! {

/// Length in seconds of a named candle period, or `None` for an unknown name.
pub open spec fn period_seconds_of(period: Seq<char>) -> Option<i64> {
    if period == "5s"@ {
        Some(5)
    } else if period == "1min"@ {
        Some(60)
    } else if period == "5min"@ {
        Some(300)
    } else if period == "15min"@ {
        Some(900)
    } else if period == "1h"@ {
        Some(3600)
    } else {
        None
    }
}

/// The message that reports an unsupported period name.
pub open spec fn unsupported_period_message(period: Seq<char>) -> Seq<char> {
    "Unsupported period: "@ + period
}

/// Converts a period name ("5s", "1min", "5min", "15min", "1h") into seconds.
pub fn period_to_seconds(period: &str) -> (res: Result<i64, String>)
    ensures
        res is Ok <==> period_seconds_of(period@) is Some,
        res matches Ok(s) ==> period_seconds_of(period@) == Some(s) && s > 0,
        res matches Err(msg) ==> msg@ == unsupported_period_message(period@),
{
    if str_equal(period, "5s") {
        Ok(5)
    } else if str_equal(period, "1min") {
        Ok(60)
    } else if str_equal(period, "5min") {
        Ok(300)
    } else if str_equal(period, "15min") {
        Ok(900)
    } else if str_equal(period, "1h") {
        Ok(3600)
    } else {
        let msg = String::from_str("Unsupported period: ");
        Err(msg.concat(period))
    }
}

/// Law: the table of period names: "5s" is 5 s, "1min" 60 s, "5min" 300 s,
/// "15min" 900 s, "1h" 3600 s, and every other name is unknown.
pub proof fn law_period_table(other: Seq<char>)
    requires
        other != "5s"@,
        other != "1min"@,
        other != "5min"@,
        other != "15min"@,
        other != "1h"@,
    ensures
        period_seconds_of("5s"@) == Some(5i64),
        period_seconds_of("1min"@) == Some(60i64),
        period_seconds_of("5min"@) == Some(300i64),
        period_seconds_of("15min"@) == Some(900i64),
        period_seconds_of("1h"@) == Some(3600i64),
        period_seconds_of(other) is None,
        unsupported_period_message(other) == "Unsupported period: "@ + other,
{
    reveal_strlit("5s");
    reveal_strlit("1min");
    reveal_strlit("5min");
    reveal_strlit("15min");
    reveal_strlit("1h");
    assert("5s"@.len() == 2 && "5s"@[0] == '5');
    assert("1h"@.len() == 2 && "1h"@[0] == '1');
    assert("1min"@.len() == 4 && "1min"@[0] == '1');
    assert("5min"@.len() == 4 && "5min"@[0] == '5');
    assert("15min"@.len() == 5);
}

/// Quotient of `x` by `d` rounded toward zero, as integer division on `i64` computes it.
pub open spec fn trunc_div(x: int, d: int) -> int {
    let q = abs(x) / abs(d);
    if (x < 0) == (d < 0) {
        q
    } else {
        -q
    }
}

/// The absolute value of `x`.
pub open spec fn abs(x: int) -> int {
    if x < 0 {
        -x
    } else {
        x
    }
}

/// Start of the candle window holding a sample taken at `t`, when windows of
/// `period` seconds are laid out from `anchor`, the time of the first sample:
/// the offset `t - anchor` is rounded toward zero to a multiple of `period`.
pub open spec fn window_start(anchor: int, t: int, period: int) -> int {
    anchor + trunc_div(t - anchor, period) * period
}

/// Each sample paired with the start of its window and its value for `metric`.
pub open spec fn keyed_samples(
    points: Seq<RawDataPoint>,
    period: i64,
    metric: Seq<char>,
) -> Seq<(i64, u64)> {
    points.map_values(
        |p: RawDataPoint|
            (
                window_start(points[0].timestamp as int, p.timestamp as int, period as int) as i64,
                p.metric_bits(metric_of_name(metric)),
            ),
    )
}

/// Maximal runs of consecutive items that share a key: each run is the shared
/// key with the values of the run, in order.
pub open spec fn group_runs(items: Seq<(i64, u64)>) -> Seq<(i64, Seq<u64>)>
    decreases items.len(),
{
    if items.len() == 0 {
        Seq::empty()
    } else {
        let rest = group_runs(items.drop_last());
        let k = items.last().0;
        let v = items.last().1;
        if rest.len() > 0 && rest.last().0 == k {
            rest.update(rest.len() - 1, (k, rest.last().1.push(v)))
        } else {
            rest.push((k, seq![v]))
        }
    }
}

/// The samples of one candle window: its start time and the metric values of
/// its samples in arrival order (binary64 bit patterns).
#[derive(Debug)]
pub struct KLineWindow {
    pub time: i64,
    pub values: Vec<u64>,
}

impl View for KLineWindow {
    type V = (i64, Seq<u64>);

    open spec fn view(&self) -> (i64, Seq<u64>) {
        (self.time, self.values@)
    }
}

impl KLineWindow {
    /// Opening value of the candle: the first value, or +0.0 (pattern 0) for no values.
    pub fn open(&self) -> (v: u64)
        ensures
            v == (if self.values@.len() > 0 { self.values@[0] } else { 0 }),
    {
        if self.values.len() > 0 {
            self.values[0]
        } else {
            0
        }
    }

    /// Closing value of the candle: the last value, or +0.0 (pattern 0) for no values.
    pub fn close(&self) -> (v: u64)
        ensures
            v == (if self.values@.len() > 0 { self.values@.last() } else { 0 }),
    {
        let n = self.values.len();
        if n > 0 {
            self.values[n - 1]
        } else {
            0
        }
    }
}

/// The views of a list of windows.
pub open spec fn windows_view(windows: Seq<KLineWindow>) -> Seq<(i64, Seq<u64>)> {
    windows.map_values(|w: KLineWindow| w@)
}

proof fn lemma_rounded_offset(x: int, d: int)
    requires
        d != 0,
    ensures
        trunc_div(x, d) * d == (if x < 0 { -((abs(x) / abs(d)) * abs(d)) } else { (abs(x) / abs(d)) * abs(d) }),
        0 <= (abs(x) / abs(d)) * abs(d) <= abs(x),
{
    let m = abs(x);
    let pm = abs(d);
    let q = m / pm;
    assert(0 <= q * pm <= m) by (nonlinear_arith)
        requires
            pm > 0,
            m >= 0,
            q == m / pm,
    ;
    if x < 0 && d < 0 {
        assert(q * d == -(q * pm)) by (nonlinear_arith)
            requires
                pm == -d,
        ;
    } else if x < 0 {
        assert((-q) * d == -(q * pm)) by (nonlinear_arith)
            requires
                pm == d,
        ;
    } else if d < 0 {
        assert((-q) * d == q * pm) by (nonlinear_arith)
            requires
                pm == -d,
        ;
    }
}

/// Start of the window of `period` seconds, laid out from `anchor`, that holds time `t`.
pub fn window_key(anchor: i64, t: i64, period: i64) -> (k: i64)
    requires
        period != 0,
    ensures
        k == window_start(anchor as int, t as int, period as int),
        anchor <= t ==> anchor <= k <= t,
        t <= anchor ==> t <= k <= anchor,
{
    let below = t < anchor;
    let mag: u128 = if below {
        (anchor as i128 - t as i128) as u128
    } else {
        (t as i128 - anchor as i128) as u128
    };
    let pmag: u128 = if period < 0 {
        (0i128 - period as i128) as u128
    } else {
        period as u128
    };
    proof {
        lemma_rounded_offset(t - anchor, period as int);
    }
    let q: u128 = mag / pmag;
    let step: u128 = q * pmag;
    let step_i: i128 = step as i128;
    let k: i128 = if below {
        anchor as i128 - step_i
    } else {
        anchor as i128 + step_i
    };
    k as i64
}

/// Groups samples into candle windows of `period_seconds` seconds laid out from
/// the first sample's timestamp: consecutive samples whose window start is the
/// same form one window, and each window keeps the values of `metric` (0 for an
/// unknown metric name) of its samples in order.
pub fn aggregate_to_kline(raw_data: Vec<RawDataPoint>, period_seconds: i64, metric: &str) -> (out:
    Vec<KLineWindow>)
    requires
        raw_data@.len() > 0 ==> period_seconds != 0,
    ensures
        windows_view(out@) == group_runs(keyed_samples(raw_data@, period_seconds, metric@)),
{
    let n = raw_data.len();
    let mut out: Vec<KLineWindow> = Vec::new();
    if n == 0 {
        assert(keyed_samples(raw_data@, period_seconds, metric@) =~= Seq::empty());
        assert(windows_view(out@) =~= Seq::empty());
        return out;
    }
    let anchor = raw_data[0].timestamp;
    let ghost items = keyed_samples(raw_data@, period_seconds, metric@);
    let mut i: usize = 0;
    while i < n
        invariant
            n == raw_data@.len(),
            n > 0,
            period_seconds != 0,
            anchor == raw_data@[0].timestamp,
            items == keyed_samples(raw_data@, period_seconds, metric@),
            items.len() == n,
            i <= n,
            windows_view(out@) == group_runs(items.take(i as int)),
        decreases n - i,
    {
        let key = window_key(anchor, raw_data[i].timestamp, period_seconds);
        let v = raw_data[i].get_metric(metric);
        assert(items[i as int] == (key, v));
        assert(items.take(i + 1).drop_last() =~= items.take(i as int));
        assert(items.take(i + 1).last() == (key, v));
        let ghost before = windows_view(out@);
        let len = out.len();
        if len > 0 && out[len - 1].time == key {
            let mut last = out.pop().unwrap();
            assert(last@ == before.last());
            last.values.push(v);
            out.push(last);
            assert(windows_view(out@) =~= before.update(before.len() - 1, (key, before.last().1.push(v))));
        } else {
            let mut values: Vec<u64> = Vec::new();
            values.push(v);
            out.push(KLineWindow { time: key, values });
            assert(values@ =~= seq![v]);
            assert(windows_view(out@) =~= before.push((key, seq![v])));
        }
        i = i + 1;
    }
    assert(items.take(n as int) =~= items);
    out
}


/// The (key, value) items that a list of runs stands for: each run gives its
/// key paired with each of its values, runs in order.
pub open spec fn expand_runs(runs: Seq<(i64, Seq<u64>)>) -> Seq<(i64, u64)>
    decreases runs.len(),
{
    if runs.len() == 0 {
        Seq::empty()
    } else {
        expand_runs(runs.drop_last()) + runs.last().1.map_values(|v: u64| (runs.last().0, v))
    }
}

/// Every run holds at least one value.
pub open spec fn runs_non_empty(runs: Seq<(i64, Seq<u64>)>) -> bool {
    forall|j: int| 0 <= j < runs.len() ==> #[trigger] runs[j].1.len() > 0
}

/// Neighbouring runs have different keys.
pub open spec fn runs_maximal(runs: Seq<(i64, Seq<u64>)>) -> bool {
    forall|i: int, j: int| 0 <= i && j == i + 1 && j < runs.len() ==> #[trigger] runs[i].0 != #[trigger] runs[j].0
}

proof fn lemma_group_runs(items: Seq<(i64, u64)>)
    ensures
        expand_runs(group_runs(items)) == items,
        runs_non_empty(group_runs(items)),
        runs_maximal(group_runs(items)),
        group_runs(items).len() == 0 <==> items.len() == 0,
        items.len() > 0 ==> group_runs(items).last().0 == items.last().0,
        group_runs(items).len() <= items.len(),
    decreases items.len(),
{
    if items.len() > 0 {
        let prev = items.drop_last();
        lemma_group_runs(prev);
        let rest = group_runs(prev);
        let k = items.last().0;
        let v = items.last().1;
        let runs = group_runs(items);
        if rest.len() > 0 && rest.last().0 == k {
            let grown = rest.last().1.push(v);
            assert(runs.drop_last() =~= rest.drop_last());
            assert(grown.map_values(|x: u64| (k, x)) =~= rest.last().1.map_values(|x: u64| (k, x)).push((k, v)));
            assert(expand_runs(rest) == expand_runs(rest.drop_last()) + rest.last().1.map_values(|x: u64| (rest.last().0, x)));
            assert(expand_runs(runs) =~= expand_runs(rest).push((k, v)));
            assert(items =~= prev.push((k, v)));
            assert forall|i: int, j: int| 0 <= i && j == i + 1 && j < runs.len() implies #[trigger] runs[i].0 != #[trigger] runs[j].0 by {
                assert(rest[i].0 != rest[j].0);
            }
            assert forall|j: int| 0 <= j < runs.len() implies #[trigger] runs[j].1.len() > 0 by {
                assert(rest[j].1.len() > 0);
            }
        } else {
            assert(runs.drop_last() =~= rest);
            assert(seq![v].map_values(|x: u64| (k, x)) =~= seq![(k, v)]);
            assert(expand_runs(runs) =~= expand_runs(rest) + seq![(k, v)]);
            assert(items =~= prev + seq![(k, v)]);
            assert forall|i: int, j: int| 0 <= i && j == i + 1 && j < runs.len() implies #[trigger] runs[i].0 != #[trigger] runs[j].0 by {
                if j < rest.len() {
                    assert(rest[i].0 != rest[j].0);
                }
            }
            assert forall|j: int| 0 <= j < runs.len() implies #[trigger] runs[j].1.len() > 0 by {
                if j < rest.len() {
                    assert(rest[j].1.len() > 0);
                }
            }
        }
    }
}

/// Law: the windows of `aggregate_to_kline` give back exactly the samples. Read
/// in order, each window's start paired with each of its values is the list of
/// samples, each paired with the start of its own window; no window is empty,
/// and neighbouring windows have different starts, so a window ends exactly
/// where the window start of the samples changes. No samples give no windows.
pub proof fn law_windows_partition_samples(points: Seq<RawDataPoint>, period: i64, metric: Seq<char>)
    ensures
        expand_runs(group_runs(keyed_samples(points, period, metric))) == keyed_samples(points, period, metric),
        forall|j: int|
            0 <= j < group_runs(keyed_samples(points, period, metric)).len()
                ==> #[trigger] group_runs(keyed_samples(points, period, metric))[j].1.len() > 0,
        forall|i: int, j: int|
            0 <= i && j == i + 1 && j < group_runs(keyed_samples(points, period, metric)).len()
                ==> #[trigger] group_runs(keyed_samples(points, period, metric))[i].0
                != #[trigger] group_runs(keyed_samples(points, period, metric))[j].0,
        group_runs(keyed_samples(points, period, metric)).len() == 0 <==> points.len() == 0,
        group_runs(keyed_samples(points, period, metric)).len() <= points.len(),
{
    lemma_group_runs(keyed_samples(points, period, metric));
    let runs = group_runs(keyed_samples(points, period, metric));
    assert(runs_non_empty(runs));
    assert(runs_maximal(runs));
}

/// Law: each sample is keyed by the start of its own window, counted from the
/// first sample's time, and carries its own value of the named metric; the
/// first window therefore starts at the first sample's time.
pub proof fn law_samples_keyed_from_first(points: Seq<RawDataPoint>, period: i64, metric: Seq<char>, i: int)
    requires
        period != 0,
        0 <= i < points.len(),
    ensures
        keyed_samples(points, period, metric).len() == points.len(),
        keyed_samples(points, period, metric)[i].1 == points[i].metric_bits(metric_of_name(metric)),
        keyed_samples(points, period, metric)[i].0 as int
            == window_start(points[0].timestamp as int, points[i].timestamp as int, period as int),
        keyed_samples(points, period, metric)[0].0 == points[0].timestamp,
        group_runs(keyed_samples(points, period, metric))[0].0 == points[0].timestamp,
{
    let a = points[0].timestamp as int;
    lemma_rounded_offset(points[i].timestamp - a, period as int);
    lemma_rounded_offset(0, period as int);
    assert(trunc_div(0, period as int) == 0);
    assert(window_start(a, a, period as int) == a);
    let items = keyed_samples(points, period, metric);
    lemma_group_runs(items);
    let runs = group_runs(items);
    assert(runs[0].1.len() > 0);
    lemma_first_run(runs);
}

proof fn lemma_first_run(runs: Seq<(i64, Seq<u64>)>)
    requires
        runs.len() > 0,
        runs[0].1.len() > 0,
    ensures
        expand_runs(runs).len() > 0,
        expand_runs(runs)[0].0 == runs[0].0,
    decreases runs.len(),
{
    if runs.len() == 1 {
        assert(runs.drop_last() =~= Seq::<(i64, Seq<u64>)>::empty());
        assert(expand_runs(runs.drop_last()) =~= Seq::<(i64, u64)>::empty());
        let tail = runs.last().1.map_values(|v: u64| (runs.last().0, v));
        assert(expand_runs(runs) =~= tail);
        assert(tail[0].0 == runs[0].0);
    } else {
        let prefix = runs.drop_last();
        lemma_first_run(prefix);
        let tail = runs.last().1.map_values(|v: u64| (runs.last().0, v));
        assert(expand_runs(runs) == expand_runs(prefix) + tail);
        assert((expand_runs(prefix) + tail)[0] == expand_runs(prefix)[0]);
    }
}

/// Law: for a positive period and a time at or after the anchor, the window
/// start is a whole number of periods after the anchor, at or before the time,
/// and less than one period before it.
pub proof fn law_window_contains_time(anchor: int, t: int, period: int)
    requires
        period > 0,
        anchor <= t,
    ensures
        window_start(anchor, t, period) <= t < window_start(anchor, t, period) + period,
        (window_start(anchor, t, period) - anchor) % period == 0,
{
    let d = t - anchor;
    let q = d / period;
    assert(trunc_div(d, period) == q);
    vstd::arithmetic::div_mod::lemma_fundamental_div_mod(d, period);
    assert(q * period == period * q) by (nonlinear_arith);
    vstd::arithmetic::div_mod::lemma_mod_multiples_basic(q, period);
}

/// Law: for any nonzero period, the window start lies between the anchor and
/// the time (both included), is a whole number of periods away from the
/// anchor, and is less than one period away from the time: the offset from
/// the anchor is rounded toward the anchor to a multiple of the period.
pub proof fn law_window_start_rounds_toward_anchor(anchor: int, t: int, period: int)
    requires
        period != 0,
    ensures
        anchor <= t ==> anchor <= window_start(anchor, t, period) <= t,
        t <= anchor ==> t <= window_start(anchor, t, period) <= anchor,
        (window_start(anchor, t, period) - anchor) % (if period < 0 { -period } else { period }) == 0,
        -(if period < 0 { -period } else { period }) < t - window_start(anchor, t, period)
            < (if period < 0 { -period } else { period }),
{
    let d = t - anchor;
    let m = abs(d);
    let pm = abs(period);
    let q = m / pm;
    lemma_rounded_offset(d, period);
    vstd::arithmetic::div_mod::lemma_fundamental_div_mod(m, pm);
    assert(q * pm == pm * q) by (nonlinear_arith);
    assert(0 <= m % pm < pm);
    vstd::arithmetic::div_mod::lemma_mod_multiples_basic(q, pm);
    if d < 0 {
        assert(-(q * pm) == (-q) * pm) by (nonlinear_arith);
        vstd::arithmetic::div_mod::lemma_mod_multiples_basic(-q, pm);
    }
}

proof fn lemma_window_start_monotone(anchor: int, t1: int, t2: int, period: int)
    requires
        period > 0,
        anchor <= t1 <= t2,
    ensures
        window_start(anchor, t1, period) <= window_start(anchor, t2, period),
{
    let q1 = (t1 - anchor) / period;
    let q2 = (t2 - anchor) / period;
    assert(trunc_div(t1 - anchor, period) == q1);
    assert(trunc_div(t2 - anchor, period) == q2);
    vstd::arithmetic::div_mod::lemma_div_is_ordered(t1 - anchor, t2 - anchor, period);
    assert(q1 * period <= q2 * period) by (nonlinear_arith)
        requires
            q1 <= q2,
            period > 0,
    ;
}

proof fn lemma_sorted_runs(items: Seq<(i64, u64)>)
    requires
        forall|i: int, j: int| 0 <= i <= j < items.len() ==> items[i].0 <= items[j].0,
    ensures
        forall|i: int, j: int|
            0 <= i < j < group_runs(items).len() ==> group_runs(items)[i].0 < group_runs(items)[j].0,
        items.len() > 0 ==> group_runs(items).last().0 == items.last().0,
    decreases items.len(),
{
    lemma_group_runs(items);
    if items.len() > 0 {
        let prev = items.drop_last();
        lemma_group_runs(prev);
        lemma_sorted_runs(prev);
        let rest = group_runs(prev);
        let runs = group_runs(items);
        let k = items.last().0;
        if rest.len() > 0 && rest.last().0 == k {
            assert forall|i: int, j: int| 0 <= i < j < runs.len() implies runs[i].0 < runs[j].0 by {
                assert(rest[i].0 < rest[j].0);
            }
        } else {
            assert forall|i: int, j: int| 0 <= i < j < runs.len() implies runs[i].0 < runs[j].0 by {
                if j < rest.len() {
                    assert(rest[i].0 < rest[j].0);
                } else if rest.len() > 0 {
                    assert(prev.last() == items[items.len() - 2]);
                    assert(rest.last().0 <= k);
                    if i < rest.len() - 1 {
                        assert(rest[i].0 < rest[rest.len() - 1].0);
                    }
                }
            }
        }
    }
}

/// Law: when the samples come in order of time (as the store hands them out)
/// and the period is positive, the windows have strictly increasing start
/// times, so no start time occurs twice.
pub proof fn law_sorted_samples_give_increasing_windows(points: Seq<RawDataPoint>, period: i64, metric: Seq<char>)
    requires
        period > 0,
        forall|i: int, j: int| 0 <= i <= j < points.len() ==> points[i].timestamp <= points[j].timestamp,
    ensures
        forall|i: int, j: int|
            0 <= i < j < group_runs(keyed_samples(points, period, metric)).len() ==>
                group_runs(keyed_samples(points, period, metric))[i].0
                < group_runs(keyed_samples(points, period, metric))[j].0,
{
    let items = keyed_samples(points, period, metric);
    if points.len() > 0 {
        let a = points[0].timestamp as int;
        assert forall|i: int, j: int| 0 <= i <= j < items.len() implies items[i].0 <= items[j].0 by {
            let ti = points[i].timestamp as int;
            let tj = points[j].timestamp as int;
            lemma_rounded_offset(ti - a, period as int);
            lemma_rounded_offset(tj - a, period as int);
            lemma_window_start_monotone(a, ti, tj, period as int);
        }
    }
    lemma_sorted_runs(items);
}

} // verus!
