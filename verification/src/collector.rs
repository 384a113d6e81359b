//! Decisions of the sampling loop: which disk and which temperature sensor to
//! report, how network counters turn into transfer amounts, and when the loop
//! keeps going.

use vstd::prelude::*;
use vstd::string::*;
use crate::text::{contains_chars, chars_of, chars_contain, str_equal};

verus! {

/// The mount point of the root file system.
pub open spec fn is_root_mount(mount_point: Seq<char>) -> bool {
    mount_point == "/"@
}

/// Picks the disk whose usage is reported: the first disk mounted at "/",
/// else the first disk, else none.
pub fn select_disk(mount_points: &Vec<String>) -> (res: Option<usize>)
    ensures
        match res {
            Some(i) => i < mount_points@.len() && (
                (is_root_mount(mount_points@[i as int]@)
                    && forall|j: int| 0 <= j < i ==> !is_root_mount(#[trigger] mount_points@[j]@))
                || (i == 0 && forall|j: int|
                    0 <= j < mount_points@.len() ==> !is_root_mount(#[trigger] mount_points@[j]@))),
            None => mount_points@.len() == 0,
        },
{
    let n = mount_points.len();
    let mut i: usize = 0;
    while i < n
        invariant
            n == mount_points@.len(),
            i <= n,
            forall|j: int| 0 <= j < i ==> !is_root_mount(#[trigger] mount_points@[j]@),
        decreases n - i,
    {
        if str_equal(mount_points[i].as_str(), "/") {
            return Some(i);
        }
        i = i + 1;
    }
    if n > 0 {
        Some(0)
    } else {
        None
    }
}

/// Whether a sensor label belongs to a search tier: tier 0 is the performance
/// core sensors ("pACC" and "Temp"), tier 1 the SoC die sensors ("SOC", "Die"
/// and "Temp"), tier 2 any die or "MTR" sensor ("Die" or "MTR", and "Temp").
pub open spec fn label_in_tier(label: Seq<char>, tier: int) -> bool {
    if tier == 0 {
        contains_chars(label, "pACC"@) && contains_chars(label, "Temp"@)
    } else if tier == 1 {
        contains_chars(label, "SOC"@) && contains_chars(label, "Die"@) && contains_chars(
            label,
            "Temp"@,
        )
    } else {
        (contains_chars(label, "Die"@) || contains_chars(label, "MTR"@)) && contains_chars(
            label,
            "Temp"@,
        )
    }
}

/// Sensor `i` qualifies in `tier`: its label belongs to the tier and its
/// reading is in the plausible range.
pub open spec fn sensor_qualifies(sensors: Seq<(String, bool)>, tier: int, i: int) -> bool {
    label_in_tier(sensors[i].0@, tier) && sensors[i].1
}

/// No sensor qualifies in `tier`.
pub open spec fn tier_empty(sensors: Seq<(String, bool)>, tier: int) -> bool {
    forall|j: int| 0 <= j < sensors.len() ==> !#[trigger] sensor_qualifies(sensors, tier, j)
}

/// The first tier in which some sensor qualifies, or 3 when none does.
pub open spec fn first_occupied_tier(sensors: Seq<(String, bool)>) -> int {
    if !tier_empty(sensors, 0) {
        0
    } else if !tier_empty(sensors, 1) {
        1
    } else if !tier_empty(sensors, 2) {
        2
    } else {
        3
    }
}

/// Sensor `i` is the first that qualifies in `tier`.
pub open spec fn first_qualifying(sensors: Seq<(String, bool)>, tier: int, i: int) -> bool {
    &&& tier < 3
    &&& sensor_qualifies(sensors, tier, i)
    &&& forall|j: int| 0 <= j < i ==> !#[trigger] sensor_qualifies(sensors, tier, j)
}

/// Law: the label words of each tier. A performance-core label holds "pACC"
/// and "Temp"; a SoC-die label holds "SOC", "Die" and "Temp"; a fallback label
/// holds "Temp" and one of "Die" or "MTR"; and a label holding those words
/// belongs to the tier.
pub proof fn law_tier_words(label: Seq<char>)
    ensures
        label_in_tier(label, 0) <==> (contains_chars(label, "pACC"@) && contains_chars(label, "Temp"@)),
        label_in_tier(label, 1) ==> contains_chars(label, "Die"@),
        label_in_tier(label, 1) ==> contains_chars(label, "SOC"@),
        label_in_tier(label, 1) ==> contains_chars(label, "Temp"@),
        (contains_chars(label, "SOC"@) && contains_chars(label, "Die"@) && contains_chars(label, "Temp"@))
            ==> label_in_tier(label, 1),
        label_in_tier(label, 2) ==> contains_chars(label, "Temp"@),
        label_in_tier(label, 2) ==> (contains_chars(label, "Die"@) || contains_chars(label, "MTR"@)),
        ((contains_chars(label, "Die"@) || contains_chars(label, "MTR"@)) && contains_chars(label, "Temp"@))
            ==> label_in_tier(label, 2),
        forall|t: int| 0 <= t < 3 && #[trigger] label_in_tier(label, t) ==> contains_chars(label, "Temp"@),
{
}

/// Law: a sensor whose reading is out of range never qualifies, whatever its
/// label and tier; one in range qualifies exactly when its label is in the tier.
pub proof fn law_out_of_range_never_qualifies(sensors: Seq<(String, bool)>, tier: int, i: int)
    ensures
        sensor_qualifies(sensors, tier, i) ==> sensors[i].1,
        sensors[i].1 ==> (sensor_qualifies(sensors, tier, i) <==> label_in_tier(sensors[i].0@, tier)),
{
}

/// Law: the tiers are searched in order: the first occupied tier has a
/// qualifying sensor and every tier before it has none; 3 means none has one.
pub proof fn law_first_occupied_tier(sensors: Seq<(String, bool)>)
    ensures
        0 <= first_occupied_tier(sensors) <= 3,
        first_occupied_tier(sensors) < 3 ==> exists|i: int|
            0 <= i < sensors.len() && #[trigger] sensor_qualifies(sensors, first_occupied_tier(sensors), i),
        forall|u: int| 0 <= u < first_occupied_tier(sensors) ==> #[trigger] tier_empty(sensors, u),
        first_occupied_tier(sensors) == 3 ==> forall|u: int, i: int|
            0 <= u < 3 && 0 <= i < sensors.len() ==> !#[trigger] sensor_qualifies(sensors, u, i),
{
    let t = first_occupied_tier(sensors);
    if t < 3 {
        assert(!tier_empty(sensors, t));
    }
    if t == 3 {
        assert forall|u: int, i: int| 0 <= u < 3 && 0 <= i < sensors.len() implies !#[trigger] sensor_qualifies(sensors, u, i) by {
            assert(tier_empty(sensors, u));
        }
    }
}

/// Law: "/" and only "/" is the root mount point.
pub proof fn law_root_mount(mount_point: Seq<char>)
    ensures
        is_root_mount(mount_point) <==> (mount_point.len() == 1 && mount_point[0] == '/'),
{
    reveal_strlit("/");
    assert("/"@.len() == 1 && "/"@[0] == '/');
    if mount_point.len() == 1 && mount_point[0] == '/' {
        assert(mount_point =~= "/"@);
    }
}

fn label_matches_tier(label: &String, tier: u8) -> (res: bool)
    requires
        tier < 3,
    ensures
        res == label_in_tier(label@, tier as int),
{
    let chars = chars_of(label.as_str());
    let temp = chars_contain(&chars, "Temp");
    if tier == 0 {
        chars_contain(&chars, "pACC") && temp
    } else if tier == 1 {
        chars_contain(&chars, "SOC") && chars_contain(&chars, "Die") && temp
    } else {
        (chars_contain(&chars, "Die") || chars_contain(&chars, "MTR")) && temp
    }
}

/// Picks the sensor whose temperature is reported, from (label, in range)
/// pairs where "in range" tells whether the sensor reads strictly between 0
/// and 150 degrees. The tiers are searched in order and the first qualifying
/// sensor of the first tier that has one is chosen; `None` means that no
/// temperature is available.
pub fn select_temperature_sensor(sensors: &Vec<(String, bool)>) -> (res: Option<usize>)
    ensures
        match res {
            Some(i) => i < sensors@.len() && first_qualifying(
                sensors@,
                first_occupied_tier(sensors@),
                i as int,
            ) && sensors@[i as int].1 && contains_chars(sensors@[i as int].0@, "Temp"@),
            None => first_occupied_tier(sensors@) == 3,
        },
{
    let n = sensors.len();
    let mut tier: u8 = 0;
    while tier < 3
        invariant
            n == sensors@.len(),
            tier <= 3,
            forall|u: int| 0 <= u < tier ==> #[trigger] tier_empty(sensors@, u),
        decreases 3 - tier,
    {
        let mut i: usize = 0;
        while i < n
            invariant
                n == sensors@.len(),
                tier < 3,
                i <= n,
                forall|u: int| 0 <= u < tier ==> #[trigger] tier_empty(sensors@, u),
                forall|j: int| 0 <= j < i ==> !#[trigger] sensor_qualifies(sensors@, tier as int, j),
            decreases n - i,
        {
            if label_matches_tier(&sensors[i].0, tier) && sensors[i].1 {
                assert(sensor_qualifies(sensors@, tier as int, i as int));
                assert(!tier_empty(sensors@, tier as int));
                return Some(i);
            }
            i = i + 1;
        }
        assert(tier_empty(sensors@, tier as int));
        tier = tier + 1;
    }
    None
}

/// Sum of the first components (bytes received) of per-interface counters.
pub open spec fn received_total(counters: Seq<(u64, u64)>) -> int
    decreases counters.len(),
{
    if counters.len() == 0 {
        0
    } else {
        received_total(counters.drop_last()) + counters.last().0
    }
}

/// Sum of the second components (bytes sent) of per-interface counters.
pub open spec fn transmitted_total(counters: Seq<(u64, u64)>) -> int
    decreases counters.len(),
{
    if counters.len() == 0 {
        0
    } else {
        transmitted_total(counters.drop_last()) + counters.last().1
    }
}

proof fn lemma_totals_grow(counters: Seq<(u64, u64)>, i: int)
    requires
        0 <= i <= counters.len(),
    ensures
        0 <= received_total(counters.take(i)) <= received_total(counters),
        0 <= transmitted_total(counters.take(i)) <= transmitted_total(counters),
    decreases counters.len() - i,
{
    if i < counters.len() {
        lemma_totals_grow(counters, i + 1);
        lemma_totals_nonnegative(counters.take(i));
        assert(counters.take(i + 1).drop_last() =~= counters.take(i));
        assert(received_total(counters.take(i + 1)) == received_total(counters.take(i))
            + counters.take(i + 1).last().0);
        assert(transmitted_total(counters.take(i + 1)) == transmitted_total(counters.take(i))
            + counters.take(i + 1).last().1);
    } else {
        assert(counters.take(i) =~= counters);
        lemma_totals_nonnegative(counters);
    }
}

proof fn lemma_totals_nonnegative(counters: Seq<(u64, u64)>)
    ensures
        received_total(counters) >= 0,
        transmitted_total(counters) >= 0,
    decreases counters.len(),
{
    if counters.len() > 0 {
        lemma_totals_nonnegative(counters.drop_last());
    }
}

/// Law: each total counts its own direction only: one interface gives its own
/// counter, and the total of two lists of interfaces is the sum of their totals.
pub proof fn law_totals_add_per_direction(a: Seq<(u64, u64)>, b: Seq<(u64, u64)>, r: u64, t: u64)
    ensures
        received_total(seq![(r, t)]) == r,
        transmitted_total(seq![(r, t)]) == t,
        received_total(Seq::empty()) == 0,
        transmitted_total(Seq::empty()) == 0,
        received_total(a + b) == received_total(a) + received_total(b),
        transmitted_total(a + b) == transmitted_total(a) + transmitted_total(b),
    decreases b.len(),
{
    let one = seq![(r, t)];
    assert(one.drop_last() =~= Seq::<(u64, u64)>::empty());
    assert(received_total(one.drop_last()) == 0);
    assert(transmitted_total(one.drop_last()) == 0);
    assert(one.last() == (r, t));
    assert(received_total(one) == received_total(one.drop_last()) + one.last().0);
    assert(transmitted_total(one) == transmitted_total(one.drop_last()) + one.last().1);
    if b.len() > 0 {
        law_totals_add_per_direction(a, b.drop_last(), r, t);
        assert((a + b).drop_last() =~= a + b.drop_last());
        assert((a + b).last() == b.last());
    } else {
        assert(a + b =~= a);
    }
}

/// Adds up the received and sent byte counters of all network interfaces,
/// given as (received, sent) pairs; `None` when either total does not fit in
/// 64 bits.
pub fn network_totals(counters: &Vec<(u64, u64)>) -> (res: Option<(u64, u64)>)
    ensures
        match res {
            Some((r, t)) => r == received_total(counters@) && t == transmitted_total(counters@),
            None => received_total(counters@) > u64::MAX || transmitted_total(counters@) > u64::MAX,
        },
{
    let n = counters.len();
    let mut received: u64 = 0;
    let mut transmitted: u64 = 0;
    let mut i: usize = 0;
    while i < n
        invariant
            n == counters@.len(),
            i <= n,
            received == received_total(counters@.take(i as int)),
            transmitted == transmitted_total(counters@.take(i as int)),
        decreases n - i,
    {
        let (r, t) = counters[i];
        proof {
            assert(counters@.take(i + 1).drop_last() =~= counters@.take(i as int));
            lemma_totals_grow(counters@, i + 1);
        }
        match received.checked_add(r) {
            Some(sum) => {
                received = sum;
            },
            None => {
                return None;
            },
        }
        match transmitted.checked_add(t) {
            Some(sum) => {
                transmitted = sum;
            },
            None => {
                return None;
            },
        }
        i = i + 1;
    }
    proof {
        assert(counters@.take(n as int) =~= counters@);
    }
    Some((received, transmitted))
}

/// Network byte counters read at one moment (seconds since the epoch).
#[derive(Clone, Copy, Debug, PartialEq, Eq, Structural)]
pub struct NetworkStats {
    pub total_received: u64,
    pub total_transmitted: u64,
    pub timestamp: i64,
}

/// Bytes received and sent between two readings, and the seconds between them.
#[derive(Clone, Copy, Debug, PartialEq, Eq, Structural)]
pub struct TransferDelta {
    pub received_bytes: u64,
    pub transmitted_bytes: u64,
    pub seconds: i64,
}

/// `a - b`, or 0 when `b` is larger.
pub open spec fn saturating_diff(a: u64, b: u64) -> u64 {
    if a >= b {
        (a - b) as u64
    } else {
        0
    }
}

/// What two consecutive readings say about the traffic in between: nothing
/// without an earlier reading or when no time has passed; otherwise the growth
/// of each counter (0 if it went down) over the elapsed seconds.
pub open spec fn transfer_since(prev: Option<NetworkStats>, current: NetworkStats) -> Option<TransferDelta> {
    match prev {
        None => None,
        Some(p) => if current.timestamp - p.timestamp > 0 {
            Some(
                TransferDelta {
                    received_bytes: saturating_diff(current.total_received, p.total_received),
                    transmitted_bytes: saturating_diff(current.total_transmitted, p.total_transmitted),
                    seconds: (current.timestamp - p.timestamp) as i64,
                },
            )
        } else {
            None
        },
    }
}

/// The time between two readings fits in an `i64`.
pub open spec fn elapsed_fits(prev: Option<NetworkStats>, current: NetworkStats) -> bool {
    prev matches Some(p) ==> i64::MIN <= current.timestamp - p.timestamp <= i64::MAX
}

/// Law: a counter that went down between two readings (an interface was
/// reset or removed) gives zero bytes for that direction, never a negative or
/// wrapped-around amount.
pub proof fn law_counter_drop_gives_zero(prev: NetworkStats, current: NetworkStats)
    requires
        current.timestamp > prev.timestamp,
    ensures
        current.total_received <= prev.total_received ==> transfer_since(Some(prev), current)->0.received_bytes == 0,
        current.total_transmitted <= prev.total_transmitted ==> transfer_since(Some(prev), current)->0.transmitted_bytes == 0,
        transfer_since(Some(prev), current)->0.received_bytes <= current.total_received,
        transfer_since(Some(prev), current)->0.transmitted_bytes <= current.total_transmitted,
{
}

/// Law: the traffic between two readings. Without an earlier reading, or when
/// no time has passed, there is none; otherwise the seconds are the time
/// between the readings and each direction's bytes are the growth of its
/// counter (the received and sent counters each counted on their own).
pub proof fn law_transfer_is_counter_growth(prev: NetworkStats, current: NetworkStats)
    ensures
        transfer_since(None, current) is None,
        current.timestamp <= prev.timestamp ==> transfer_since(Some(prev), current) is None,
        current.timestamp > prev.timestamp ==> transfer_since(Some(prev), current) is Some,
        current.timestamp > prev.timestamp && elapsed_fits(Some(prev), current)
            ==> transfer_since(Some(prev), current)->0.seconds == current.timestamp - prev.timestamp,
        current.timestamp > prev.timestamp && current.total_received >= prev.total_received
            ==> transfer_since(Some(prev), current)->0.received_bytes
            == current.total_received - prev.total_received,
        current.timestamp > prev.timestamp && current.total_transmitted >= prev.total_transmitted
            ==> transfer_since(Some(prev), current)->0.transmitted_bytes
            == current.total_transmitted - prev.total_transmitted,
{
}

/// Remembers the previous network reading between samples.
pub struct NetworkTracker {
    pub prev: Option<NetworkStats>,
}

impl NetworkTracker {
    /// A tracker that has seen no reading yet.
    pub fn new() -> (t: NetworkTracker)
        ensures
            t.prev is None,
    {
        NetworkTracker { prev: None }
    }

    /// Records a new reading and returns the traffic since the previous one.
    pub fn observe(&mut self, current: NetworkStats) -> (res: Option<TransferDelta>)
        requires
            elapsed_fits(old(self).prev, current),
        ensures
            res == transfer_since(old(self).prev, current),
            final(self).prev == Some(current),
    {
        let res = match self.prev {
            None => None,
            Some(p) => {
                let seconds = current.timestamp - p.timestamp;
                if seconds > 0 {
                    Some(
                        TransferDelta {
                            received_bytes: current.total_received.saturating_sub(p.total_received),
                            transmitted_bytes: current.total_transmitted.saturating_sub(
                                p.total_transmitted,
                            ),
                            seconds,
                        },
                    )
                } else {
                    None
                }
            },
        };
        self.prev = Some(current);
        res
    }
}

/// What the sampling loop does after a timer tick.
#[derive(Clone, Copy, Debug, PartialEq, Eq, Structural)]
pub enum LoopAction {
    /// Take a sample, store it and publish it.
    Collect,
    /// Leave the loop.
    Finish,
}

/// The running flag of the sampling loop.
pub struct CollectorControl {
    pub running: bool,
}

impl CollectorControl {
    /// A loop that has not been started.
    pub fn new() -> (c: CollectorControl)
        ensures
            !c.running,
    {
        CollectorControl { running: false }
    }

    /// Marks the loop as running; done when the loop begins.
    pub fn start(&mut self)
        ensures
            final(self).running,
    {
        self.running = true;
    }

    /// Asks the loop to stop at its next tick.
    pub fn stop(&mut self)
        ensures
            !final(self).running,
    {
        self.running = false;
    }

    /// The decision taken at a tick: sample while running, leave otherwise.
    pub fn on_tick(&self) -> (a: LoopAction)
        ensures
            a == (if self.running { LoopAction::Collect } else { LoopAction::Finish }),
    {
        if self.running {
            LoopAction::Collect
        } else {
            LoopAction::Finish
        }
    }
}

} // verus!
