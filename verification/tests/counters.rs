use iai::black_box;
use iai::stats::{CachegrindStats, CachegrindSummary, EventMap};

const EVENTS: [&str; 9] = [
    "Ir", "I1mr", "ILmr", "Dr", "D1mr", "DLmr", "Dw", "D1mw", "DLmw",
];

fn stats(values: [u64; 9]) -> CachegrindStats {
    CachegrindStats {
        instruction_reads: values[0],
        instruction_l1_misses: values[1],
        instruction_cache_misses: values[2],
        data_reads: values[3],
        data_l1_read_misses: values[4],
        data_cache_read_misses: values[5],
        data_writes: values[6],
        data_l1_write_misses: values[7],
        data_cache_write_misses: values[8],
    }
}

fn events(pairs: &[(&str, u64)]) -> EventMap {
    let mut map = EventMap::new();
    for (name, value) in pairs {
        map.insert(name.to_string(), *value);
    }
    map
}

#[test]
fn cachegrind_from_events_requires_all_metrics() {
    let events = events(&[
        ("Ir", 1),
        ("I1mr", 2),
        ("ILmr", 3),
        ("Dr", 4),
        ("D1mr", 5),
        ("DLmr", 6),
        ("Dw", 7),
        ("D1mw", 8),
    ]);

    assert!(CachegrindStats::from_events(&events).is_err());
}

#[test]
fn each_missing_event_is_named() {
    for missing in EVENTS {
        let mut map = EventMap::new();
        for name in EVENTS {
            if name != missing {
                map.insert(name.to_owned(), 1);
            }
        }
        assert_eq!(
            CachegrindStats::from_events(&map),
            Err(format!("Missing required cachegrind event: {missing}"))
        );
    }
    assert_eq!(
        CachegrindStats::from_events(&EventMap::new()),
        Err("Missing required cachegrind event: Ir".to_owned())
    );
}

#[test]
fn counters_are_built_from_their_events() {
    let mut map = events(&[("Bc", 99), ("Ir", 0)]);
    for (i, name) in EVENTS.iter().enumerate().rev() {
        map.insert(name.to_string(), 10 + i as u64);
    }
    assert_eq!(
        CachegrindStats::from_events(&map),
        Ok(stats([10, 11, 12, 13, 14, 15, 16, 17, 18]))
    );
}

#[test]
fn summary_accounts_for_every_access() {
    let counted = stats([1000, 20, 5, 400, 30, 10, 200, 40, 15]);
    assert_eq!(counted.ram_accesses(), 30);
    assert!(counted.is_reportable());
    let summary = counted.summarize();
    assert_eq!(
        summary,
        CachegrindSummary {
            l1_hits: 1510,
            l3_hits: 60,
            ram_hits: 30
        }
    );
    assert_eq!(summary.l1_hits + summary.l3_hits + summary.ram_hits, 1600);
    assert_eq!(summary.cycles(), 1510 + 5 * 60 + 35 * 30);
}

#[test]
fn cycles_lie_between_one_and_thirty_five_for_each_access() {
    let cheap = stats([7, 0, 0, 2, 0, 0, 1, 0, 0]);
    assert_eq!(cheap.summarize().cycles(), 10);
    let dear = stats([7, 7, 7, 2, 2, 2, 1, 1, 1]);
    assert_eq!(dear.summarize().cycles(), 350);
}

#[test]
fn contradicting_or_large_counters_are_not_reportable() {
    assert!(!stats([10, 1, 2, 0, 0, 0, 0, 0, 0]).is_reportable());
    assert!(!stats([10, 11, 2, 0, 0, 0, 0, 0, 0]).is_reportable());
    assert!(!stats([u64::MAX, 0, 0, 1, 0, 0, 0, 0, 0]).is_reportable());
    assert!(stats([u64::MAX, 0, 0, 0, 0, 0, 0, 0, 0]).is_reportable());
    let most = u64::MAX / 35;
    assert!(stats([most, most, most, 0, 0, 0, 0, 0, 0]).is_reportable());
    assert!(!stats([most + 1, most + 1, most + 1, 0, 0, 0, 0, 0, 0]).is_reportable());
}

#[test]
fn calibration_is_subtracted_and_stops_at_zero() {
    let counted = stats([100, 10, 9, 8, 7, 6, 5, 4, 3]);
    let calibration = stats([30, 11, 9, 1, 1, 1, 1, 1, 1]);
    assert_eq!(
        counted.subtract(&calibration),
        stats([70, 0, 0, 7, 6, 5, 4, 3, 2])
    );
    assert_eq!(counted.subtract(&counted), stats([0; 9]));
    assert!(counted.subtract(&counted).is_reportable());
}

#[test]
fn black_box_hands_back_what_it_was_given() {
    assert_eq!(black_box(10u64), 10);
    assert_eq!(black_box("text".to_owned()), "text");
}

#[test]
fn names_hold_their_last_value() {
    let mut map = EventMap::new();
    assert_eq!(map.len(), 0);
    assert_eq!(map.get("a"), None);
    map.insert("a".to_owned(), 1);
    map.insert("b".to_owned(), 2);
    map.insert("a".to_owned(), 3);
    assert_eq!(map.len(), 2);
    assert_eq!(map.get("a"), Some(&3));
    assert_eq!(map.get("b"), Some(&2));
    assert_eq!(map.get("ab"), None);
}
