//! Network counters: their totals over all interfaces, and the bookkeeping
//! from which transfer rates are derived between two refreshes.

use vstd::prelude::*;

verus! {

/// The counters of one interface, or their totals over all interfaces.
#[derive(Debug, Clone, Copy, Default, PartialEq, Eq, Structural)]
pub struct NetworkCounters {
    pub received: u64,
    pub transmitted: u64,
    pub total_received: u64,
    pub total_transmitted: u64,
    pub packets_received: u64,
    pub packets_transmitted: u64,
    pub errors_on_received: u64,
    pub errors_on_transmitted: u64,
}

/// The counter numbered `k` (0 to 7, in the order of the fields).
pub open spec fn counter(c: NetworkCounters, k: int) -> nat {
    if k == 0 {
        c.received as nat
    } else if k == 1 {
        c.transmitted as nat
    } else if k == 2 {
        c.total_received as nat
    } else if k == 3 {
        c.total_transmitted as nat
    } else if k == 4 {
        c.packets_received as nat
    } else if k == 5 {
        c.packets_transmitted as nat
    } else if k == 6 {
        c.errors_on_received as nat
    } else {
        c.errors_on_transmitted as nat
    }
}

/// The sum of counter `k` over all interfaces.
pub open spec fn counter_total(s: Seq<NetworkCounters>, k: int) -> nat
    decreases s.len(),
{
    if s.len() == 0 {
        0
    } else {
        counter_total(s.drop_last(), k) + counter(s.last(), k)
    }
}

/// Every sum of a counter fits in 64 bits.
pub open spec fn totals_fit(s: Seq<NetworkCounters>) -> bool {
    forall|k: int| 0 <= k < 8 ==> #[trigger] counter_total(s, k) <= u64::MAX
}

/// Adding an interface adds each of its counters to the matching total.
pub proof fn lemma_totals_add_interface(s: Seq<NetworkCounters>, c: NetworkCounters)
    ensures
        counter_total(s.push(c), 0) == counter_total(s, 0) + c.received,
        counter_total(s.push(c), 1) == counter_total(s, 1) + c.transmitted,
        counter_total(s.push(c), 2) == counter_total(s, 2) + c.total_received,
        counter_total(s.push(c), 3) == counter_total(s, 3) + c.total_transmitted,
        counter_total(s.push(c), 4) == counter_total(s, 4) + c.packets_received,
        counter_total(s.push(c), 5) == counter_total(s, 5) + c.packets_transmitted,
        counter_total(s.push(c), 6) == counter_total(s, 6) + c.errors_on_received,
        counter_total(s.push(c), 7) == counter_total(s, 7) + c.errors_on_transmitted,
        forall|k: int| 0 <= k < 8 ==> #[trigger] counter_total(Seq::<NetworkCounters>::empty(), k) == 0,
{
    assert(s.push(c).drop_last() =~= s);
}

proof fn lemma_prefix_total_le(s: Seq<NetworkCounters>, i: int, k: int)
    requires
        0 <= i <= s.len(),
    ensures
        counter_total(s.take(i), k) <= counter_total(s, k),
    decreases s.len(),
{
    if i < s.len() {
        assert(s.drop_last().take(i) =~= s.take(i));
        lemma_prefix_total_le(s.drop_last(), i, k);
    } else {
        assert(s.take(i) =~= s);
    }
}

/// Adds up each counter over all interfaces.
pub fn sum_counters(ifaces: &Vec<NetworkCounters>) -> (r: NetworkCounters)
    requires
        totals_fit(ifaces@),
    ensures
        forall|k: int| 0 <= k < 8 ==> #[trigger] counter(r, k) == counter_total(ifaces@, k),
        r.received == counter_total(ifaces@, 0),
        r.transmitted == counter_total(ifaces@, 1),
        r.total_received == counter_total(ifaces@, 2),
        r.total_transmitted == counter_total(ifaces@, 3),
        r.packets_received == counter_total(ifaces@, 4),
        r.packets_transmitted == counter_total(ifaces@, 5),
        r.errors_on_received == counter_total(ifaces@, 6),
        r.errors_on_transmitted == counter_total(ifaces@, 7),
{
    let n = ifaces.len();
    let mut acc = NetworkCounters {
        received: 0,
        transmitted: 0,
        total_received: 0,
        total_transmitted: 0,
        packets_received: 0,
        packets_transmitted: 0,
        errors_on_received: 0,
        errors_on_transmitted: 0,
    };
    let mut i: usize = 0;
    while i < n
        invariant
            n == ifaces.len(),
            i <= n,
            totals_fit(ifaces@),
            forall|k: int| 0 <= k < 8 ==> #[trigger] counter(acc, k) == counter_total(ifaces@.take(i as int), k),
        decreases n - i,
    {
        let c = ifaces[i];
        proof {
            assert(ifaces@.take(i + 1).drop_last() =~= ifaces@.take(i as int));
            assert forall|k: int| 0 <= k < 8 implies #[trigger] counter_total(ifaces@.take(i + 1), k) <= u64::MAX
                && counter_total(ifaces@.take(i + 1), k) == counter(acc, k) + counter(c, k) by {
                lemma_prefix_total_le(ifaces@, i + 1, k);
                assert(counter_total(ifaces@, k) <= u64::MAX);
            }
            assert(counter_total(ifaces@.take(i + 1), 0) <= u64::MAX);
            assert(counter_total(ifaces@.take(i + 1), 1) <= u64::MAX);
            assert(counter_total(ifaces@.take(i + 1), 2) <= u64::MAX);
            assert(counter_total(ifaces@.take(i + 1), 3) <= u64::MAX);
            assert(counter_total(ifaces@.take(i + 1), 4) <= u64::MAX);
            assert(counter_total(ifaces@.take(i + 1), 5) <= u64::MAX);
            assert(counter_total(ifaces@.take(i + 1), 6) <= u64::MAX);
            assert(counter_total(ifaces@.take(i + 1), 7) <= u64::MAX);
        }
        acc = NetworkCounters {
            received: acc.received + c.received,
            transmitted: acc.transmitted + c.transmitted,
            total_received: acc.total_received + c.total_received,
            total_transmitted: acc.total_transmitted + c.total_transmitted,
            packets_received: acc.packets_received + c.packets_received,
            packets_transmitted: acc.packets_transmitted + c.packets_transmitted,
            errors_on_received: acc.errors_on_received + c.errors_on_received,
            errors_on_transmitted: acc.errors_on_transmitted + c.errors_on_transmitted,
        };
        i = i + 1;
    }
    assert(ifaces@.take(n as int) =~= ifaces@);
    assert(counter(acc, 0) == counter_total(ifaces@, 0));
    assert(counter(acc, 1) == counter_total(ifaces@, 1));
    assert(counter(acc, 2) == counter_total(ifaces@, 2));
    assert(counter(acc, 3) == counter_total(ifaces@, 3));
    assert(counter(acc, 4) == counter_total(ifaces@, 4));
    assert(counter(acc, 5) == counter_total(ifaces@, 5));
    assert(counter(acc, 6) == counter_total(ifaces@, 6));
    assert(counter(acc, 7) == counter_total(ifaces@, 7));
    acc
}

fn counter_exec(c: &NetworkCounters, k: u8) -> (r: u64)
    ensures
        r as nat == counter(*c, k as int),
{
    if k == 0 {
        c.received
    } else if k == 1 {
        c.transmitted
    } else if k == 2 {
        c.total_received
    } else if k == 3 {
        c.total_transmitted
    } else if k == 4 {
        c.packets_received
    } else if k == 5 {
        c.packets_transmitted
    } else if k == 6 {
        c.errors_on_received
    } else {
        c.errors_on_transmitted
    }
}

fn counter_total_fits(ifaces: &Vec<NetworkCounters>, k: u8) -> (r: bool)
    ensures
        r == (counter_total(ifaces@, k as int) <= u64::MAX),
{
    let n = ifaces.len();
    let mut acc: u64 = 0;
    let mut i: usize = 0;
    while i < n
        invariant
            n == ifaces.len(),
            i <= n,
            acc as nat == counter_total(ifaces@.take(i as int), k as int),
        decreases n - i,
    {
        let v = counter_exec(&ifaces[i], k);
        assert(ifaces@.take(i + 1).drop_last() =~= ifaces@.take(i as int));
        match acc.checked_add(v) {
            Some(sum) => {
                acc = sum;
            },
            None => {
                proof {
                    lemma_prefix_total_le(ifaces@, i + 1, k as int);
                }
                return false;
            },
        }
        i = i + 1;
    }
    assert(ifaces@.take(n as int) =~= ifaces@);
    true
}

/// Whether every counter sums up over all interfaces without overflowing.
pub fn counters_fit(ifaces: &Vec<NetworkCounters>) -> (r: bool)
    ensures
        r == totals_fit(ifaces@),
        r == (counter_total(ifaces@, 0) <= u64::MAX && counter_total(ifaces@, 1) <= u64::MAX
            && counter_total(ifaces@, 2) <= u64::MAX && counter_total(ifaces@, 3) <= u64::MAX
            && counter_total(ifaces@, 4) <= u64::MAX && counter_total(ifaces@, 5) <= u64::MAX
            && counter_total(ifaces@, 6) <= u64::MAX && counter_total(ifaces@, 7) <= u64::MAX),
{
    let mut k: u8 = 0;
    while k < 8
        invariant
            k <= 8,
            forall|j: int| 0 <= j < k ==> #[trigger] counter_total(ifaces@, j) <= u64::MAX,
        decreases 8 - k,
    {
        if !counter_total_fits(ifaces, k) {
            return false;
        }
        k = k + 1;
    }
    true
}

/// What was last recorded of an interface: its byte counters and the time,
/// in nanoseconds on the monitor's clock.
#[derive(Debug, Clone, Copy, PartialEq, Eq, Structural)]
pub struct TrafficSample {
    pub received: u64,
    pub transmitted: u64,
    pub at: u64,
}

/// The bytes moved since the previous sample and the nanoseconds between the
/// two; a rate is the one divided by the other.
#[derive(Debug, Clone, Copy, PartialEq, Eq, Structural)]
pub struct SpeedDelta {
    pub received: u64,
    pub transmitted: u64,
    pub elapsed: u64,
}

/// `a - b`, or zero when `b` is larger.
pub open spec fn saturating_diff(a: u64, b: u64) -> u64 {
    if a >= b {
        (a - b) as u64
    } else {
        0
    }
}

/// The movement since `prev`. A counter that read zero before gives no
/// movement.
pub open spec fn delta_from(prev: TrafficSample, received: u64, transmitted: u64, now: u64) -> SpeedDelta {
    SpeedDelta {
        received: if prev.received > 0 {
            saturating_diff(received, prev.received)
        } else {
            0
        },
        transmitted: if prev.transmitted > 0 {
            saturating_diff(transmitted, prev.transmitted)
        } else {
            0
        },
        elapsed: saturating_diff(now, prev.at),
    }
}

/// The movement of `name` since its recorded sample, none if it has none.
pub open spec fn speed_since(
    m: Map<Seq<char>, TrafficSample>,
    name: Seq<char>,
    received: u64,
    transmitted: u64,
    now: u64,
) -> Option<SpeedDelta> {
    if m.dom().contains(name) {
        Some(delta_from(m[name], received, transmitted, now))
    } else {
        None
    }
}

struct Entry {
    name: String,
    sample: TrafficSample,
}

spec fn entries_map(s: Seq<Entry>) -> Map<Seq<char>, TrafficSample>
    decreases s.len(),
{
    if s.len() == 0 {
        Map::empty()
    } else {
        entries_map(s.drop_last()).insert(s.last().name@, s.last().sample)
    }
}

spec fn names_distinct(s: Seq<Entry>) -> bool {
    forall|i: int, j: int| 0 <= i < j < s.len() ==> (#[trigger] s[i]).name@ != (#[trigger] s[j]).name@
}

proof fn lemma_entries_map_lookup(s: Seq<Entry>, i: int)
    requires
        names_distinct(s),
        0 <= i < s.len(),
    ensures
        entries_map(s).dom().contains(s[i].name@),
        entries_map(s)[s[i].name@] == s[i].sample,
    decreases s.len(),
{
    if i < s.len() - 1 {
        assert(s.drop_last()[i] == s[i]);
        lemma_entries_map_lookup(s.drop_last(), i);
        assert(s[i].name@ != s[s.len() - 1].name@);
    }
}

proof fn lemma_entries_map_absent(s: Seq<Entry>, name: Seq<char>)
    requires
        forall|i: int| 0 <= i < s.len() ==> (#[trigger] s[i]).name@ != name,
    ensures
        !entries_map(s).dom().contains(name),
    decreases s.len(),
{
    if s.len() > 0 {
        assert forall|i: int| 0 <= i < s.drop_last().len() implies (#[trigger] s.drop_last()[i]).name@ != name by {
            assert(s.drop_last()[i] == s[i]);
        }
        lemma_entries_map_absent(s.drop_last(), name);
        assert(s[s.len() - 1].name@ != name);
    }
}

proof fn lemma_entries_map_update(s: Seq<Entry>, i: int, e: Entry)
    requires
        names_distinct(s),
        0 <= i < s.len(),
        e.name@ == s[i].name@,
    ensures
        entries_map(s.update(i, e)) =~= entries_map(s).insert(e.name@, e.sample),
    decreases s.len(),
{
    let t = s.update(i, e);
    if i == s.len() - 1 {
        assert(t.drop_last() =~= s.drop_last());
    } else {
        assert(t.drop_last() =~= s.drop_last().update(i, e));
        assert(names_distinct(s.drop_last())) by {
            assert forall|a: int, b: int| 0 <= a < b < s.drop_last().len() implies (#[trigger] s.drop_last()[a]).name@
                != (#[trigger] s.drop_last()[b]).name@ by {
                assert(s.drop_last()[a] == s[a]);
                assert(s.drop_last()[b] == s[b]);
            }
        }
        lemma_entries_map_update(s.drop_last(), i, e);
        assert(s[i].name@ != s[s.len() - 1].name@);
    }
}

/// Remembers, per interface name, the counters of the last refresh.
pub struct SpeedTracker {
    entries: Vec<Entry>,
}

impl View for SpeedTracker {
    type V = Map<Seq<char>, TrafficSample>;

    closed spec fn view(&self) -> Map<Seq<char>, TrafficSample> {
        entries_map(self.entries@)
    }
}

impl SpeedTracker {
    #[verifier::type_invariant]
    spec fn wf(self) -> bool {
        names_distinct(self.entries@)
    }

    /// A tracker that has recorded nothing.
    pub fn new() -> (r: Self)
        ensures
            r@ == Map::<Seq<char>, TrafficSample>::empty(),
    {
        SpeedTracker { entries: Vec::new() }
    }

    /// Records the counters of `name` at time `now` (nanoseconds) and returns
    /// the movement since the previous record of that name, if there was one.
    pub fn calc_speed(&mut self, name: &str, received: u64, transmitted: u64, now: u64) -> (r: Option<SpeedDelta>)
        ensures
            r == speed_since(old(self)@, name@, received, transmitted, now),
            final(self)@ == old(self)@.insert(name@, TrafficSample { received, transmitted, at: now }),
            r is None <==> !old(self)@.dom().contains(name@),
            r matches Some(d) ==> {
                let prev = old(self)@[name@];
                &&& (prev.received == 0 || received < prev.received ==> d.received == 0)
                &&& (prev.received > 0 && received >= prev.received ==> d.received + prev.received == received)
                &&& (prev.transmitted == 0 || transmitted < prev.transmitted ==> d.transmitted == 0)
                &&& (prev.transmitted > 0 && transmitted >= prev.transmitted ==> d.transmitted
                    + prev.transmitted == transmitted)
                &&& (now < prev.at ==> d.elapsed == 0)
                &&& (now >= prev.at ==> d.elapsed + prev.at == now)
            },
    {
        proof {
            use_type_invariant(&*self);
        }
        let key = name.to_owned();
        let sample = TrafficSample { received, transmitted, at: now };
        let n = self.entries.len();
        let ghost start = self.entries@;
        let mut i: usize = 0;
        while i < n && self.entries[i].name != key
            invariant
                n == self.entries.len(),
                self.entries@ == start,
                start == old(self).entries@,
                names_distinct(start),
                i <= n,
                key@ == name@,
                forall|j: int| 0 <= j < i ==> (#[trigger] self.entries@[j]).name@ != name@,
            decreases n - i,
        {
            i = i + 1;
        }
        let mut entries: Vec<Entry> = Vec::new();
        std::mem::swap(&mut entries, &mut self.entries);
        let ghost before = entries@;
        if i < n {
            let prev = entries[i].sample;
            proof {
                lemma_entries_map_lookup(before, i as int);
            }
            let d = SpeedDelta {
                received: if prev.received > 0 {
                    received.saturating_sub(prev.received)
                } else {
                    0
                },
                transmitted: if prev.transmitted > 0 {
                    transmitted.saturating_sub(prev.transmitted)
                } else {
                    0
                },
                elapsed: now.saturating_sub(prev.at),
            };
            let e = Entry { name: key, sample };
            proof {
                lemma_entries_map_update(before, i as int, e);
            }
            entries.set(i, e);
            assert(names_distinct(entries@)) by {
                assert forall|a: int, b: int| 0 <= a < b < entries@.len() implies (#[trigger] entries@[a]).name@
                    != (#[trigger] entries@[b]).name@ by {
                    if a != i && b != i {
                        assert(entries@[a] == before[a]);
                        assert(entries@[b] == before[b]);
                    } else if a == i {
                        assert(entries@[b] == before[b]);
                    } else {
                        assert(entries@[a] == before[a]);
                    }
                }
            }
            self.entries = entries;
            proof {
                lemma_delta_measures_growth(prev, received, transmitted, now);
            }
            Some(d)
        } else {
            proof {
                lemma_entries_map_absent(before, name@);
            }
            entries.push(Entry { name: key, sample });
            assert(entries@.drop_last() =~= before);
            assert(names_distinct(entries@)) by {
                assert forall|a: int, b: int| 0 <= a < b < entries@.len() implies (#[trigger] entries@[a]).name@
                    != (#[trigger] entries@[b]).name@ by {
                    assert(entries@[a] == before[a]);
                    if b < before.len() {
                        assert(entries@[b] == before[b]);
                    } else {
                        assert(entries@[b].name@ == name@);
                    }
                }
            }
            self.entries = entries;
            None
        }
    }
}

/// The counters of one interface, by name.
pub struct InterfaceReading {
    pub name: String,
    pub counters: NetworkCounters,
}

/// The totals over all interfaces and their movement since the previous
/// refresh.
pub struct TrafficTotals {
    pub counters: NetworkCounters,
    pub speed: Option<SpeedDelta>,
}

/// The sample that a reading leaves behind.
pub open spec fn sample_of(c: NetworkCounters, now: u64) -> TrafficSample {
    TrafficSample { received: c.received, transmitted: c.transmitted, at: now }
}

/// The name under which the totals over all interfaces are tracked.
pub open spec fn aggregate_name() -> Seq<char> {
    "__aggregated__"@
}

/// The records after the first `k` readings have been taken in turn.
pub open spec fn recorded_after(
    m: Map<Seq<char>, TrafficSample>,
    readings: Seq<InterfaceReading>,
    k: int,
    now: u64,
) -> Map<Seq<char>, TrafficSample>
    decreases k,
{
    if k <= 0 {
        m
    } else {
        recorded_after(m, readings, k - 1, now).insert(
            readings[k - 1].name@,
            sample_of(readings[k - 1].counters, now),
        )
    }
}

/// Readings taken in turn leave a name's record alone until a reading of that
/// name comes; the last reading of a name is its record afterwards.
pub proof fn lemma_recorded_after_other_names(
    m: Map<Seq<char>, TrafficSample>,
    readings: Seq<InterfaceReading>,
    k: int,
    now: u64,
    name: Seq<char>,
)
    requires
        0 <= k <= readings.len(),
        forall|j: int| 0 <= j < k ==> (#[trigger] readings[j]).name@ != name,
    ensures
        recorded_after(m, readings, k, now).dom().contains(name) == m.dom().contains(name),
        m.dom().contains(name) ==> recorded_after(m, readings, k, now)[name] == m[name],
    decreases k,
{
    if k > 0 {
        lemma_recorded_after_other_names(m, readings, k - 1, now, name);
        assert(readings[k - 1].name@ != name);
    }
}

/// After a reading of a name, that name's record holds the reading's received
/// and transmitted counters and the time.
pub proof fn lemma_recorded_after_own_name(
    m: Map<Seq<char>, TrafficSample>,
    readings: Seq<InterfaceReading>,
    k: int,
    now: u64,
)
    requires
        0 < k <= readings.len(),
    ensures
        ({
            let rec = recorded_after(m, readings, k, now)[readings[k - 1].name@];
            &&& rec.received == readings[k - 1].counters.received
            &&& rec.transmitted == readings[k - 1].counters.transmitted
            &&& rec.at == now
        }),
{
}

impl SpeedTracker {
    /// Takes the readings of the interfaces in turn: each is measured against
    /// the record of its name and then becomes that record.
    pub fn collect_per_interface(&mut self, readings: &Vec<InterfaceReading>, now: u64) -> (r: Vec<Option<SpeedDelta>>)
        ensures
            r.len() == readings.len(),
            forall|i: int|
                0 <= i < readings.len() ==> #[trigger] r@[i] == speed_since(
                    recorded_after(old(self)@, readings@, i, now),
                    readings@[i].name@,
                    readings@[i].counters.received,
                    readings@[i].counters.transmitted,
                    now,
                ),
            final(self)@ == recorded_after(old(self)@, readings@, readings.len() as int, now),
    {
        let n = readings.len();
        let mut out: Vec<Option<SpeedDelta>> = Vec::new();
        let mut i: usize = 0;
        while i < n
            invariant
                n == readings.len(),
                i <= n,
                out.len() == i,
                self@ == recorded_after(old(self)@, readings@, i as int, now),
                forall|j: int|
                    0 <= j < i ==> #[trigger] out@[j] == speed_since(
                        recorded_after(old(self)@, readings@, j, now),
                        readings@[j].name@,
                        readings@[j].counters.received,
                        readings@[j].counters.transmitted,
                        now,
                    ),
            decreases n - i,
        {
            let reading = &readings[i];
            let d = self.calc_speed(
                reading.name.as_str(),
                reading.counters.received,
                reading.counters.transmitted,
                now,
            );
            out.push(d);
            i = i + 1;
        }
        out
    }

    /// Adds up the counters of all interfaces and measures the totals against
    /// the totals of the previous refresh.
    pub fn collect_aggregated(&mut self, ifaces: &Vec<NetworkCounters>, now: u64) -> (r: TrafficTotals)
        requires
            totals_fit(ifaces@),
        ensures
            forall|k: int| 0 <= k < 8 ==> #[trigger] counter(r.counters, k) == counter_total(ifaces@, k),
            r.speed == speed_since(
                old(self)@,
                aggregate_name(),
                r.counters.received,
                r.counters.transmitted,
                now,
            ),
            final(self)@ == old(self)@.insert(aggregate_name(), sample_of(r.counters, now)),
    {
        let counters = sum_counters(ifaces);
        let speed = self.calc_speed("__aggregated__", counters.received, counters.transmitted, now);
        TrafficTotals { counters, speed }
    }
}

/// The movement measured against a record: a counter that read zero, or that
/// went backwards, shows no movement; otherwise the movement is what the
/// counter grew by. The time elapsed is how far the clock moved on, or zero if
/// it went back.
pub proof fn lemma_delta_measures_growth(prev: TrafficSample, received: u64, transmitted: u64, now: u64)
    ensures
        ({
            let d = delta_from(prev, received, transmitted, now);
            &&& (prev.received == 0 || received < prev.received ==> d.received == 0)
            &&& (prev.received > 0 && received >= prev.received ==> d.received + prev.received == received)
            &&& (prev.transmitted == 0 || transmitted < prev.transmitted ==> d.transmitted == 0)
            &&& (prev.transmitted > 0 && transmitted >= prev.transmitted ==> d.transmitted + prev.transmitted
                == transmitted)
            &&& (now < prev.at ==> d.elapsed == 0)
            &&& (now >= prev.at ==> d.elapsed + prev.at == now)
        }),
{
}

/// After counters are recorded for a name, the next reading of that name is
/// measured against them; readings of other names are not affected.
pub proof fn lemma_speed_after_record(
    m: Map<Seq<char>, TrafficSample>,
    name: Seq<char>,
    sample: TrafficSample,
    other: Seq<char>,
    received: u64,
    transmitted: u64,
    now: u64,
)
    ensures
        speed_since(m.insert(name, sample), name, received, transmitted, now) == Some(
            delta_from(sample, received, transmitted, now),
        ),
        other != name ==> speed_since(m.insert(name, sample), other, received, transmitted, now)
            == speed_since(m, other, received, transmitted, now),
{
}

} // verus!
