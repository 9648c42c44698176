//! Cache counters and what is derived from them.

use vstd::hash_map::StringHashMap;
use vstd::prelude::*;

verus! {

/// The counters of one benchmark run.
///
/// Each field is one event of the cache simulation, as it was counted. Both tools count the same
/// nine events.
#[derive(Clone, Copy, Debug, PartialEq, Eq, Structural)]
pub struct CachegrindStats {
    pub instruction_reads: u64,
    pub instruction_l1_misses: u64,
    pub instruction_cache_misses: u64,
    pub data_reads: u64,
    pub data_l1_read_misses: u64,
    pub data_cache_read_misses: u64,
    pub data_writes: u64,
    pub data_l1_write_misses: u64,
    pub data_cache_write_misses: u64,
}

impl View for CachegrindStats {
    type V = CachegrindStats;

    open spec fn view(&self) -> CachegrindStats {
        *self
    }
}

/// The counters of one benchmark, whichever tool they come from.
pub type BenchStats = CachegrindStats;

/// Values by event name.
pub type EventMap = StringHashMap<u64>;

/// Counters by benchmark name.
pub type BenchStatsMap = StringHashMap<BenchStats>;

/// Memory accesses by the level of the hierarchy that answered them.
#[derive(Clone, Copy, Debug, PartialEq, Eq, Structural)]
pub struct CachegrindSummary {
    pub l1_hits: u64,
    pub l3_hits: u64,
    pub ram_hits: u64,
}

/// The summary of one benchmark, whichever tool it comes from.
pub type BenchSummary = CachegrindSummary;

/// The events that make up the counters, in the order of the fields of `CachegrindStats`.
pub open spec fn required_events() -> Seq<Seq<char>> {
    seq!["Ir"@, "I1mr"@, "ILmr"@, "Dr"@, "D1mr"@, "DLmr"@, "Dw"@, "D1mw"@, "DLmw"@]
}

/// The first required event, from the one at `i` on, that has no value.
pub open spec fn first_missing(events: Map<Seq<char>, u64>, i: nat) -> Option<Seq<char>>
    decreases required_events().len() - i,
{
    if i >= required_events().len() {
        None
    } else if !events.contains_key(required_events()[i as int]) {
        Some(required_events()[i as int])
    } else {
        first_missing(events, i + 1)
    }
}

/// The counters that the events give, or the message about the first one that is missing.
pub open spec fn counters(events: Map<Seq<char>, u64>) -> Result<CachegrindStats, Seq<char>> {
    match first_missing(events, 0) {
        Some(key) => Err("Missing required cachegrind event: "@ + key),
        None => Ok(
            CachegrindStats {
                instruction_reads: events["Ir"@],
                instruction_l1_misses: events["I1mr"@],
                instruction_cache_misses: events["ILmr"@],
                data_reads: events["Dr"@],
                data_l1_read_misses: events["D1mr"@],
                data_cache_read_misses: events["DLmr"@],
                data_writes: events["Dw"@],
                data_l1_write_misses: events["D1mw"@],
                data_cache_write_misses: events["DLmw"@],
            },
        ),
    }
}

/// `a - b`, or zero where `b` is larger.
pub open spec fn excess(a: u64, b: u64) -> u64 {
    if a < b {
        0
    } else {
        (a - b) as u64
    }
}

impl CachegrindStats {
    /// Accesses that no cache answered.
    pub open spec fn ram_total(self) -> int {
        self.instruction_cache_misses + self.data_cache_read_misses + self.data_cache_write_misses
    }

    /// Accesses that the first level did not answer.
    pub open spec fn l1_miss_total(self) -> int {
        self.instruction_l1_misses + self.data_l1_read_misses + self.data_l1_write_misses
    }

    /// All accesses.
    pub open spec fn access_total(self) -> int {
        self.instruction_reads + self.data_reads + self.data_writes
    }

    /// Whether each level was asked at least as often as the level below it, and no sum of the
    /// counters is too large for a counter.
    pub open spec fn summarizable(self) -> bool {
        self.ram_total() <= self.l1_miss_total() <= self.access_total() <= u64::MAX
    }

    /// What the levels of the hierarchy answered.
    pub open spec fn summary(self) -> CachegrindSummary {
        CachegrindSummary {
            l1_hits: (self.access_total() - self.l1_miss_total()) as u64,
            l3_hits: (self.l1_miss_total() - self.ram_total()) as u64,
            ram_hits: self.ram_total() as u64,
        }
    }

    /// Each counter less that of `calibration`, and zero where that is larger.
    pub open spec fn less(self, calibration: CachegrindStats) -> CachegrindStats {
        CachegrindStats {
            instruction_reads: excess(self.instruction_reads, calibration.instruction_reads),
            instruction_l1_misses: excess(
                self.instruction_l1_misses,
                calibration.instruction_l1_misses,
            ),
            instruction_cache_misses: excess(
                self.instruction_cache_misses,
                calibration.instruction_cache_misses,
            ),
            data_reads: excess(self.data_reads, calibration.data_reads),
            data_l1_read_misses: excess(self.data_l1_read_misses, calibration.data_l1_read_misses),
            data_cache_read_misses: excess(
                self.data_cache_read_misses,
                calibration.data_cache_read_misses,
            ),
            data_writes: excess(self.data_writes, calibration.data_writes),
            data_l1_write_misses: excess(
                self.data_l1_write_misses,
                calibration.data_l1_write_misses,
            ),
            data_cache_write_misses: excess(
                self.data_cache_write_misses,
                calibration.data_cache_write_misses,
            ),
        }
    }

    /// Whether the counters can be summarized and their cycles be estimated.
    pub open spec fn reportable(self) -> bool {
        self.summarizable() && self.summary().cycle_total() <= u64::MAX
    }

    /// Builds the counters from the values of the events. Where events are missing, the message
    /// names the first of them.
    pub fn from_events(events: &EventMap) -> (r: Result<CachegrindStats, String>)
        ensures
            match r {
                Ok(stats) => counters(events@) == Ok::<CachegrindStats, Seq<char>>(stats),
                Err(message) => counters(events@) == Err::<CachegrindStats, Seq<char>>(message@),
            },
    {
        proof {
            reveal_with_fuel(first_missing, 10);
        }
        let instruction_reads = match event_value(events, "Ir") {
            Ok(value) => value,
            Err(message) => return Err(message),
        };
        let instruction_l1_misses = match event_value(events, "I1mr") {
            Ok(value) => value,
            Err(message) => return Err(message),
        };
        let instruction_cache_misses = match event_value(events, "ILmr") {
            Ok(value) => value,
            Err(message) => return Err(message),
        };
        let data_reads = match event_value(events, "Dr") {
            Ok(value) => value,
            Err(message) => return Err(message),
        };
        let data_l1_read_misses = match event_value(events, "D1mr") {
            Ok(value) => value,
            Err(message) => return Err(message),
        };
        let data_cache_read_misses = match event_value(events, "DLmr") {
            Ok(value) => value,
            Err(message) => return Err(message),
        };
        let data_writes = match event_value(events, "Dw") {
            Ok(value) => value,
            Err(message) => return Err(message),
        };
        let data_l1_write_misses = match event_value(events, "D1mw") {
            Ok(value) => value,
            Err(message) => return Err(message),
        };
        let data_cache_write_misses = match event_value(events, "DLmw") {
            Ok(value) => value,
            Err(message) => return Err(message),
        };
        Ok(
            CachegrindStats {
                instruction_reads,
                instruction_l1_misses,
                instruction_cache_misses,
                data_reads,
                data_l1_read_misses,
                data_cache_read_misses,
                data_writes,
                data_l1_write_misses,
                data_cache_write_misses,
            },
        )
    }

    /// The accesses that reached main memory: the last-level misses of instruction fetches, data
    /// reads and data writes.
    pub fn ram_accesses(&self) -> (r: u64)
        requires
            self.ram_total() <= u64::MAX,
        ensures
            r == self.ram_total(),
    {
        self.instruction_cache_misses + self.data_cache_read_misses + self.data_cache_write_misses
    }

    /// Groups the counters by the level of the hierarchy that answered an access.
    pub fn summarize(&self) -> (r: CachegrindSummary)
        requires
            self.summarizable(),
        ensures
            r == self.summary(),
    {
        let ram_hits = self.ram_accesses();
        let l3_accesses = self.instruction_l1_misses + self.data_l1_read_misses
            + self.data_l1_write_misses;
        let l3_hits = l3_accesses - ram_hits;
        let total_memory_rw = self.instruction_reads + self.data_reads + self.data_writes;
        let l1_hits = total_memory_rw - (ram_hits + l3_hits);
        CachegrindSummary { l1_hits, l3_hits, ram_hits }
    }

    /// Subtracts the counters of the calibration run. A counter that is below the one of the
    /// calibration becomes zero.
    pub fn subtract(&self, calibration: &CachegrindStats) -> (r: CachegrindStats)
        ensures
            r == self.less(*calibration),
    {
        CachegrindStats {
            instruction_reads: self.instruction_reads.saturating_sub(calibration.instruction_reads),
            instruction_l1_misses: self.instruction_l1_misses.saturating_sub(
                calibration.instruction_l1_misses,
            ),
            instruction_cache_misses: self.instruction_cache_misses.saturating_sub(
                calibration.instruction_cache_misses,
            ),
            data_reads: self.data_reads.saturating_sub(calibration.data_reads),
            data_l1_read_misses: self.data_l1_read_misses.saturating_sub(
                calibration.data_l1_read_misses,
            ),
            data_cache_read_misses: self.data_cache_read_misses.saturating_sub(
                calibration.data_cache_read_misses,
            ),
            data_writes: self.data_writes.saturating_sub(calibration.data_writes),
            data_l1_write_misses: self.data_l1_write_misses.saturating_sub(
                calibration.data_l1_write_misses,
            ),
            data_cache_write_misses: self.data_cache_write_misses.saturating_sub(
                calibration.data_cache_write_misses,
            ),
        }
    }

    /// Whether the counters can be summarized and their cycles be estimated.
    pub fn is_reportable(&self) -> (r: bool)
        ensures
            r == self.reportable(),
    {
        let ram = self.instruction_cache_misses as u128 + self.data_cache_read_misses as u128
            + self.data_cache_write_misses as u128;
        let l1_misses = self.instruction_l1_misses as u128 + self.data_l1_read_misses as u128
            + self.data_l1_write_misses as u128;
        let accesses = self.instruction_reads as u128 + self.data_reads as u128
            + self.data_writes as u128;
        ram <= l1_misses && l1_misses <= accesses && accesses <= u64::MAX as u128 && (accesses
            - l1_misses) + 5 * (l1_misses - ram) + 35 * ram <= u64::MAX as u128
    }
}

impl CachegrindSummary {
    /// The estimated cycles: an access costs one where the first level answers it, five where
    /// the last level does, and 35 where main memory does.
    pub open spec fn cycle_total(self) -> int {
        self.l1_hits + 5 * self.l3_hits + 35 * self.ram_hits
    }

    /// Estimates the cycles that the memory accesses take.
    ///
    /// The weights are those of <https://pythonspeed.com/articles/consistent-benchmarking-in-ci/>.
    pub fn cycles(&self) -> (r: u64)
        requires
            self.cycle_total() <= u64::MAX,
        ensures
            r == self.cycle_total(),
    {
        self.l1_hits + (5 * self.l3_hits) + (35 * self.ram_hits)
    }
}

/// The value of the event `key`, or the message that it is missing.
fn event_value(events: &EventMap, key: &str) -> (r: Result<u64, String>)
    ensures
        match r {
            Ok(value) => events@.contains_key(key@) && value == events@[key@],
            Err(message) => !events@.contains_key(key@) && message@
                == "Missing required cachegrind event: "@ + key@,
        },
{
    match events.get(key) {
        Some(value) => Ok(*value),
        None => {
            let mut message: String = "Missing required cachegrind event: ".to_owned();
            message.append(key);
            Err(message)
        },
    }
}

/// A summary accounts for every access once.
pub proof fn law_summary_accounts_for_all_accesses(stats: CachegrindStats)
    requires
        stats.summarizable(),
    ensures
        ({
            let summary = stats.summary();
            &&& summary.l1_hits + summary.l3_hits + summary.ram_hits == stats.access_total()
            &&& summary.l3_hits + summary.ram_hits == stats.l1_miss_total()
            &&& summary.ram_hits == stats.ram_total()
        }),
{
}

/// An access costs between one and 35 cycles.
pub proof fn law_cycles_are_bounded(stats: CachegrindStats)
    requires
        stats.summarizable(),
    ensures
        stats.access_total() <= stats.summary().cycle_total() <= 35 * stats.access_total(),
{
}

/// Counters are built exactly where every required event has a value, whatever other events there
/// are.
pub proof fn law_all_events_are_required(events: Map<Seq<char>, u64>)
    ensures
        counters(events) is Ok <==> (forall|i: int|
            0 <= i < required_events().len() ==> events.contains_key(
                #[trigger] required_events()[i],
            )),
{
    reveal_with_fuel(first_missing, 10);
    if counters(events) is Ok {
        assert forall|i: int| 0 <= i < required_events().len() implies events.contains_key(
            #[trigger] required_events()[i],
        ) by {}
    } else {
        let key = first_missing(events, 0)->0;
        assert(required_events().contains(key));
    }
}

/// An event that is not required does not change the counters.
pub proof fn law_other_events_are_ignored(events: Map<Seq<char>, u64>, name: Seq<char>, value: u64)
    requires
        !required_events().contains(name),
    ensures
        counters(events.insert(name, value)) == counters(events),
{
    reveal_with_fuel(first_missing, 10);
    assert(forall|i: int|
        0 <= i < required_events().len() ==> #[trigger] required_events()[i] != name);
}

/// Subtracting a calibration raises no counter.
pub proof fn law_calibration_raises_no_counter(stats: CachegrindStats, calibration: CachegrindStats)
    ensures
        ({
            let rest = stats.less(calibration);
            &&& rest.instruction_reads <= stats.instruction_reads
            &&& rest.instruction_l1_misses <= stats.instruction_l1_misses
            &&& rest.instruction_cache_misses <= stats.instruction_cache_misses
            &&& rest.data_reads <= stats.data_reads
            &&& rest.data_l1_read_misses <= stats.data_l1_read_misses
            &&& rest.data_cache_read_misses <= stats.data_cache_read_misses
            &&& rest.data_writes <= stats.data_writes
            &&& rest.data_l1_write_misses <= stats.data_l1_write_misses
            &&& rest.data_cache_write_misses <= stats.data_cache_write_misses
        }),
{
}

/// A run that counts what the calibration counted leaves nothing, and what it leaves can be
/// summarized.
pub proof fn law_calibration_of_itself_leaves_nothing(stats: CachegrindStats)
    ensures
        ({
            let rest = stats.less(stats);
            &&& rest.access_total() == 0
            &&& rest.l1_miss_total() == 0
            &&& rest.ram_total() == 0
            &&& rest.reportable()
        }),
{
}

/// Subtracting a calibration takes from each counter what the calibration counted of the same event:
/// the two add up to the counter again, and a counter below that of the calibration becomes zero.
pub proof fn law_calibration_is_taken_from_its_own_counter(
    stats: CachegrindStats,
    calibration: CachegrindStats,
)
    ensures
        ({
            let rest = stats.less(calibration);
            &&& if stats.instruction_reads >= calibration.instruction_reads {
                rest.instruction_reads + calibration.instruction_reads == stats.instruction_reads
            } else {
                rest.instruction_reads == 0
            }
            &&& if stats.instruction_l1_misses >= calibration.instruction_l1_misses {
                rest.instruction_l1_misses + calibration.instruction_l1_misses == stats.instruction_l1_misses
            } else {
                rest.instruction_l1_misses == 0
            }
            &&& if stats.instruction_cache_misses >= calibration.instruction_cache_misses {
                rest.instruction_cache_misses + calibration.instruction_cache_misses == stats.instruction_cache_misses
            } else {
                rest.instruction_cache_misses == 0
            }
            &&& if stats.data_reads >= calibration.data_reads {
                rest.data_reads + calibration.data_reads == stats.data_reads
            } else {
                rest.data_reads == 0
            }
            &&& if stats.data_l1_read_misses >= calibration.data_l1_read_misses {
                rest.data_l1_read_misses + calibration.data_l1_read_misses == stats.data_l1_read_misses
            } else {
                rest.data_l1_read_misses == 0
            }
            &&& if stats.data_cache_read_misses >= calibration.data_cache_read_misses {
                rest.data_cache_read_misses + calibration.data_cache_read_misses == stats.data_cache_read_misses
            } else {
                rest.data_cache_read_misses == 0
            }
            &&& if stats.data_writes >= calibration.data_writes {
                rest.data_writes + calibration.data_writes == stats.data_writes
            } else {
                rest.data_writes == 0
            }
            &&& if stats.data_l1_write_misses >= calibration.data_l1_write_misses {
                rest.data_l1_write_misses + calibration.data_l1_write_misses == stats.data_l1_write_misses
            } else {
                rest.data_l1_write_misses == 0
            }
            &&& if stats.data_cache_write_misses >= calibration.data_cache_write_misses {
                rest.data_cache_write_misses + calibration.data_cache_write_misses == stats.data_cache_write_misses
            } else {
                rest.data_cache_write_misses == 0
            }
        }),
{
}

/// Each counter is the value of its event.
pub proof fn law_counters_are_the_values_of_their_events(
    events: Map<Seq<char>, u64>,
    stats: CachegrindStats,
)
    ensures
        counters(events) == Ok::<CachegrindStats, Seq<char>>(stats) <==> {
            &&& events.contains_key("Ir"@)
            &&& events.contains_key("I1mr"@)
            &&& events.contains_key("ILmr"@)
            &&& events.contains_key("Dr"@)
            &&& events.contains_key("D1mr"@)
            &&& events.contains_key("DLmr"@)
            &&& events.contains_key("Dw"@)
            &&& events.contains_key("D1mw"@)
            &&& events.contains_key("DLmw"@)
            &&& {
                &&& stats.instruction_reads == events["Ir"@]
                &&& stats.instruction_l1_misses == events["I1mr"@]
                &&& stats.instruction_cache_misses == events["ILmr"@]
                &&& stats.data_reads == events["Dr"@]
                &&& stats.data_l1_read_misses == events["D1mr"@]
                &&& stats.data_cache_read_misses == events["DLmr"@]
                &&& stats.data_writes == events["Dw"@]
                &&& stats.data_l1_write_misses == events["D1mw"@]
                &&& stats.data_cache_write_misses == events["DLmw"@]
            }
        },
{
    reveal_with_fuel(first_missing, 10);
}

/// The events, in the order in which the counters stand.
pub proof fn law_events_are_those_of_the_cache_simulation()
    ensures
        required_events() == seq!["Ir"@, "I1mr"@, "ILmr"@, "Dr"@, "D1mr"@, "DLmr"@, "Dw"@, "D1mw"@, "DLmw"@],
{
}

/// Where events are missing, the first of them in the order of the counters is complained of.
pub proof fn law_first_missing_event_is_named(events: Map<Seq<char>, u64>, i: int)
    requires
        0 <= i < required_events().len(),
        forall|j: int| 0 <= j < i ==> events.contains_key(#[trigger] required_events()[j]),
        !events.contains_key(required_events()[i]),
    ensures
        counters(events) == Err::<CachegrindStats, Seq<char>>(
            "Missing required cachegrind event: "@ + required_events()[i],
        ),
{
    lemma_first_missing(events, 0, i);
}

/// The search for a missing event goes on to the first one.
proof fn lemma_first_missing(events: Map<Seq<char>, u64>, k: nat, i: int)
    requires
        k <= i < required_events().len(),
        forall|j: int| k <= j < i ==> events.contains_key(#[trigger] required_events()[j]),
        !events.contains_key(required_events()[i]),
    ensures
        first_missing(events, k) == Some(required_events()[i]),
    decreases i - k,
{
    if k < i {
        assert(events.contains_key(required_events()[k as int]));
        lemma_first_missing(events, k + 1, i);
    }
}

/// An access is answered by main memory where the last level misses it, by the last level where only
/// the first level misses it, and else by the first level.
pub proof fn law_accesses_are_answered_by_their_level(stats: CachegrindStats)
    requires
        stats.summarizable(),
    ensures
        ({
            let summary = stats.summary();
            let ram = stats.instruction_cache_misses + stats.data_cache_read_misses
                + stats.data_cache_write_misses;
            let l1_misses = stats.instruction_l1_misses + stats.data_l1_read_misses
                + stats.data_l1_write_misses;
            let accesses = stats.instruction_reads + stats.data_reads + stats.data_writes;
            &&& stats.ram_total() == ram
            &&& summary.ram_hits == ram
            &&& summary.l3_hits + ram == l1_misses
            &&& summary.l1_hits + l1_misses == accesses
            &&& summary.cycle_total() == accesses + 4 * l1_misses + 30 * ram
        }),
{
}

/// Counters can be summarized where no level misses more accesses than it was asked for and all
/// accesses can be counted, and they can be reported on where the cycles can be counted too.
pub proof fn law_consistent_counters_are_summarizable(stats: CachegrindStats)
    ensures
        ({
            let ram = stats.instruction_cache_misses + stats.data_cache_read_misses
                + stats.data_cache_write_misses;
            let l1_misses = stats.instruction_l1_misses + stats.data_l1_read_misses
                + stats.data_l1_write_misses;
            let accesses = stats.instruction_reads + stats.data_reads + stats.data_writes;
            &&& stats.ram_total() == ram
            &&& stats.summarizable() <==> ram <= l1_misses <= accesses <= 0xffff_ffff_ffff_ffff
            &&& stats.reportable() <==> ram <= l1_misses <= accesses && accesses + 4 * l1_misses + 30
                * ram <= 0xffff_ffff_ffff_ffff
        }),
{
}

/// An access costs one cycle where the first level answers it, five where the last level does, and
/// 35 where main memory does: each access more adds its cost.
pub proof fn law_each_access_adds_its_cost(
    summary: CachegrindSummary,
    l1: u64,
    l3: u64,
    ram: u64,
)
    requires
        summary.l1_hits + l1 <= u64::MAX,
        summary.l3_hits + l3 <= u64::MAX,
        summary.ram_hits + ram <= u64::MAX,
    ensures
        (CachegrindSummary { l1_hits: 0, l3_hits: 0, ram_hits: 0 }).cycle_total() == 0,
        (CachegrindSummary {
            l1_hits: (summary.l1_hits + l1) as u64,
            l3_hits: (summary.l3_hits + l3) as u64,
            ram_hits: (summary.ram_hits + ram) as u64,
        }).cycle_total() == summary.cycle_total() + l1 + 5 * l3 + 35 * ram,
{
}

} // verus!
