use sysmon::network::{
    counters_fit, sum_counters, InterfaceReading, NetworkCounters, SpeedDelta, SpeedTracker,
};

fn counters(rx: u64, tx: u64) -> NetworkCounters {
    NetworkCounters {
        received: rx,
        transmitted: tx,
        total_received: rx * 10,
        total_transmitted: tx * 10,
        packets_received: rx / 100,
        packets_transmitted: tx / 100,
        errors_on_received: 1,
        errors_on_transmitted: 2,
    }
}

#[test]
fn sums_each_counter() {
    let ifaces = vec![counters(1000, 2000), counters(300, 400), counters(0, 5)];
    assert!(counters_fit(&ifaces));
    let t = sum_counters(&ifaces);
    assert_eq!(t.received, 1300);
    assert_eq!(t.transmitted, 2405);
    assert_eq!(t.total_received, 13000);
    assert_eq!(t.total_transmitted, 24050);
    assert_eq!(t.packets_received, 13);
    assert_eq!(t.packets_transmitted, 24);
    assert_eq!(t.errors_on_received, 3);
    assert_eq!(t.errors_on_transmitted, 6);
    assert_eq!(sum_counters(&Vec::new()), NetworkCounters::default());
}

#[test]
fn overflowing_totals_are_detected() {
    let mut a = NetworkCounters::default();
    a.errors_on_transmitted = u64::MAX;
    let mut b = NetworkCounters::default();
    b.errors_on_transmitted = 1;
    assert!(counters_fit(&vec![a]));
    assert!(!counters_fit(&vec![a, b]));
    a.errors_on_transmitted = u64::MAX - 1;
    assert!(counters_fit(&vec![a, b]));
}

#[test]
fn first_reading_has_no_speed_then_deltas_follow() {
    let mut t = SpeedTracker::new();
    assert_eq!(t.calc_speed("eth0", 1000, 500, 10), None);
    assert_eq!(
        t.calc_speed("eth0", 1600, 700, 1_000_000_010),
        Some(SpeedDelta { received: 600, transmitted: 200, elapsed: 1_000_000_000 })
    );
    assert_eq!(t.calc_speed("wlan0", 5, 5, 20), None);
    assert_eq!(
        t.calc_speed("eth0", 1500, 900, 1_000_000_000),
        Some(SpeedDelta { received: 0, transmitted: 200, elapsed: 0 })
    );
    assert_eq!(
        t.calc_speed("wlan0", 15, 25, 40),
        Some(SpeedDelta { received: 10, transmitted: 20, elapsed: 20 })
    );
}

#[test]
fn zero_previous_counter_gives_no_movement() {
    let mut t = SpeedTracker::new();
    assert_eq!(t.calc_speed("lo", 0, 100, 0), None);
    assert_eq!(
        t.calc_speed("lo", 5000, 150, 7),
        Some(SpeedDelta { received: 0, transmitted: 50, elapsed: 7 })
    );
}

#[test]
fn per_interface_readings_are_taken_in_turn() {
    let mut t = SpeedTracker::new();
    let readings = vec![
        InterfaceReading { name: "eth0".to_string(), counters: counters(100, 100) },
        InterfaceReading { name: "lo".to_string(), counters: counters(50, 50) },
    ];
    let first = t.collect_per_interface(&readings, 5);
    assert_eq!(first, vec![None, None]);
    let readings = vec![
        InterfaceReading { name: "lo".to_string(), counters: counters(80, 60) },
        InterfaceReading { name: "eth0".to_string(), counters: counters(150, 90) },
        InterfaceReading { name: "lo".to_string(), counters: counters(90, 90) },
    ];
    let second = t.collect_per_interface(&readings, 15);
    assert_eq!(
        second,
        vec![
            Some(SpeedDelta { received: 30, transmitted: 10, elapsed: 10 }),
            Some(SpeedDelta { received: 50, transmitted: 0, elapsed: 10 }),
            Some(SpeedDelta { received: 10, transmitted: 30, elapsed: 0 }),
        ]
    );
}

#[test]
fn aggregated_totals_are_tracked_apart() {
    let mut t = SpeedTracker::new();
    let ifaces = vec![counters(100, 10), counters(200, 20)];
    let first = t.collect_aggregated(&ifaces, 1);
    assert_eq!(first.counters.received, 300);
    assert_eq!(first.counters.transmitted, 30);
    assert_eq!(first.speed, None);
    assert_eq!(t.calc_speed("eth0", 1, 1, 2), None);
    let ifaces = vec![counters(150, 10), counters(250, 30)];
    let second = t.collect_aggregated(&ifaces, 11);
    assert_eq!(second.counters.received, 400);
    assert_eq!(second.speed, Some(SpeedDelta { received: 100, transmitted: 10, elapsed: 10 }));
}
