use sysmon::network::{InterfaceCounters, NetworkTotals};
use sysmon::process::{ProcessSample, RankedProcessRow};
use sysmon::registry::{CpuSample, DisplayColor};
use sysmon::series::SeriesPoint;
use sysmon::snapshot::{Config, RawSnapshot, Snapshot};
use sysmon::updater::{Action, Event, Phase, Updater};

const GIB: u64 = 1024 * 1024 * 1024;

fn reading(used_memory: u64, cpu: u64) -> RawSnapshot {
    RawSnapshot {
        total_memory: 16 * GIB,
        used_memory,
        global_cpu_usage: cpu,
        cpus: vec![CpuSample { name: "CPU cpu".to_string(), usage: cpu }],
        logical_cpus: 2,
        interfaces: vec![
            InterfaceCounters { name: "lo".to_string(), received: 10, transmitted: 20 },
            InterfaceCounters { name: "eth0".to_string(), received: 1, transmitted: 2 },
        ],
        processes: vec![
            ProcessSample { pid: 1, name: "a".to_string(), cpu_share: 50_000_000 },
            ProcessSample { pid: 2, name: "b".to_string(), cpu_share: 80_000_000 },
            ProcessSample { pid: 3, name: "c".to_string(), cpu_share: 10_000_000 },
        ],
    }
}

fn in_gb(bytes: u64) -> f64 {
    bytes as f64 / 1024.0 / 1024.0 / 1024.0
}

fn chart(series: &[SeriesPoint]) -> Vec<(f64, f64)> {
    series.iter().map(|point| (point.position as f64, in_gb(point.value))).collect()
}

fn tick(updater: &mut Updater, snapshot: &mut Snapshot, polled: Option<RawSnapshot>) -> bool {
    assert_eq!(updater.step(snapshot, Event::TimerFired), Action::PollSource);
    let event = match polled {
        Some(raw) => Event::SnapshotReady(raw),
        None => Event::SourceUnavailable,
    };
    let published = updater.writes(&event);
    let action = updater.step(snapshot, event);
    if published {
        assert_eq!(action, Action::Release);
        assert_eq!(updater.phase(), Phase::Published);
        let next = updater.step(snapshot, Event::Released);
        assert_eq!(next, Action::AwaitTimer { millis: updater.period_ms() });
    } else {
        assert_eq!(action, Action::AwaitTimer { millis: updater.period_ms() });
    }
    assert_eq!(updater.phase(), Phase::Idle);
    published
}

#[test]
fn default_config_is_100_ms_500_samples_100_rows() {
    let config = Config::default();
    assert_eq!(config.poll_period_ms, 100);
    assert_eq!(config.history_capacity, 500);
    assert_eq!(config.table_size, 100);
}

#[test]
fn new_snapshot_is_empty() {
    let snapshot = Snapshot::new(&Config::default());
    assert_eq!(snapshot.total_memory(), 0);
    assert_eq!(snapshot.used_memory(), None);
    assert_eq!(snapshot.memory().len(), 0);
    assert!(snapshot.memory_series().is_empty());
    assert_eq!(snapshot.cpu_usage(), 0);
    assert_eq!(snapshot.cpus().len(), 0);
    assert_eq!(snapshot.network(), NetworkTotals { received: 0, transmitted: 0 });
    assert!(snapshot.processes().is_empty());
    assert_eq!(snapshot.ticks(), 0);
    assert_eq!(snapshot.history_capacity(), 500);
    assert_eq!(snapshot.table_size(), 100);
}

#[test]
fn publish_takes_every_part_of_a_reading() {
    let mut snapshot = Snapshot::new(&Config::default());
    snapshot.publish(&reading(4 * GIB, 1234));
    assert_eq!(snapshot.total_memory(), 16 * GIB);
    assert_eq!(snapshot.used_memory(), Some(4 * GIB));
    assert_eq!(snapshot.memory().samples(), &vec![4 * GIB]);
    assert_eq!(snapshot.memory_series(), &vec![SeriesPoint { position: 1, value: 4 * GIB }]);
    assert_eq!(snapshot.cpu_usage(), 1234);
    assert_eq!(snapshot.cpus().len(), 1);
    let identity = &snapshot.cpus().identities()[0];
    assert_eq!(identity.name(), "CPU cpu");
    assert_eq!(identity.color(), DisplayColor::Green);
    assert_eq!(identity.history().samples(), &vec![1234]);
    assert_eq!(identity.series(), &vec![SeriesPoint { position: 1, value: 1234 }]);
    assert_eq!(snapshot.network(), NetworkTotals { received: 11, transmitted: 22 });
    assert_eq!(
        snapshot.processes(),
        &vec![
            RankedProcessRow {
                pid: "2".to_string(),
                name: "b".to_string(),
                share: "40.00%".to_string(),
            },
            RankedProcessRow {
                pid: "1".to_string(),
                name: "a".to_string(),
                share: "25.00%".to_string(),
            },
            RankedProcessRow {
                pid: "3".to_string(),
                name: "c".to_string(),
                share: "5.00%".to_string(),
            },
        ]
    );
    assert_eq!(snapshot.ticks(), 1);
}

#[test]
fn publish_replaces_totals_and_table_but_extends_histories() {
    let mut snapshot = Snapshot::new(&Config::default());
    snapshot.publish(&reading(GIB, 100));
    let mut second = reading(2 * GIB, 200);
    second.interfaces.clear();
    second.processes.clear();
    second.total_memory = 32 * GIB;
    snapshot.publish(&second);
    assert_eq!(snapshot.total_memory(), 32 * GIB);
    assert_eq!(snapshot.memory().samples(), &vec![GIB, 2 * GIB]);
    assert_eq!(snapshot.cpus().identities()[0].history().samples(), &vec![100, 200]);
    assert_eq!(snapshot.cpu_usage(), 200);
    assert_eq!(snapshot.network(), NetworkTotals::zero());
    assert!(snapshot.processes().is_empty());
    assert_eq!(snapshot.ticks(), 2);
}

#[test]
fn publish_keeps_histories_and_table_within_their_limits() {
    let config = Config { poll_period_ms: 10, history_capacity: 5, table_size: 2 };
    let mut snapshot = Snapshot::new(&config);
    for round in 0..12u64 {
        snapshot.publish(&reading(round, round * 10));
        let expected = std::cmp::min(round as usize + 1, 5);
        assert_eq!(snapshot.memory().len(), expected);
        assert_eq!(snapshot.memory_series().len(), expected);
        assert_eq!(snapshot.cpus().identities()[0].history().len(), expected);
        assert_eq!(snapshot.cpus().identities()[0].series().len(), expected);
        assert_eq!(snapshot.processes().len(), 2);
        assert_eq!(snapshot.ticks(), round + 1);
    }
    assert_eq!(snapshot.memory().samples(), &vec![7, 8, 9, 10, 11]);
    assert_eq!(snapshot.memory_series()[0], SeriesPoint { position: 1, value: 7 });
}

#[test]
fn a_cpu_that_disappears_keeps_its_history() {
    let mut snapshot = Snapshot::new(&Config::default());
    let mut first = reading(GIB, 100);
    first.cpus.push(CpuSample { name: "CPU 1".to_string(), usage: 7 });
    snapshot.publish(&first);
    snapshot.publish(&reading(GIB, 200));
    let identities = snapshot.cpus().identities();
    assert_eq!(identities.len(), 2);
    assert_eq!(identities[0].name(), "CPU cpu");
    assert_eq!(identities[0].history().samples(), &vec![100, 200]);
    assert_eq!(identities[1].name(), "CPU 1");
    assert_eq!(identities[1].history().samples(), &vec![7]);
}

#[test]
fn reading_without_processes_needs_no_cpu_count() {
    let mut raw = reading(GIB, 100);
    raw.processes.clear();
    raw.logical_cpus = 0;
    assert!(raw.is_usable());
    let mut snapshot = Snapshot::new(&Config::default());
    snapshot.publish(&raw);
    assert!(snapshot.processes().is_empty());
    assert_eq!(snapshot.ticks(), 1);
}

#[test]
fn reading_with_processes_and_no_cpu_is_not_usable() {
    let mut raw = reading(GIB, 100);
    raw.logical_cpus = 0;
    assert!(!raw.is_usable());
    raw.logical_cpus = 1;
    assert!(raw.is_usable());
}

#[test]
fn three_ticks_give_three_memory_points() {
    let config = Config::default();
    let mut snapshot = Snapshot::new(&config);
    let mut updater = Updater::new(&config);
    for used in [1u64, 2, 3] {
        assert!(tick(&mut updater, &mut snapshot, Some(reading(used * GIB, 0))));
    }
    assert_eq!(snapshot.memory().len(), 3);
    assert_eq!(chart(snapshot.memory_series()), vec![(1.0, 1.0), (2.0, 2.0), (3.0, 3.0)]);
    assert_eq!(snapshot.used_memory(), Some(3 * GIB));
    assert_eq!(snapshot.ticks(), 3);
}

#[test]
fn skipped_tick_keeps_the_last_published_values() {
    let config = Config::default();
    let mut snapshot = Snapshot::new(&config);
    let mut updater = Updater::new(&config);
    assert!(tick(&mut updater, &mut snapshot, Some(reading(GIB, 4200))));
    assert!(!tick(&mut updater, &mut snapshot, None));
    assert_eq!(snapshot.memory().samples(), &vec![GIB]);
    assert_eq!(snapshot.cpu_usage(), 4200);
    assert_eq!(snapshot.network(), NetworkTotals { received: 11, transmitted: 22 });
    assert_eq!(snapshot.processes().len(), 3);
    assert_eq!(snapshot.ticks(), 1);
    assert!(tick(&mut updater, &mut snapshot, Some(reading(2 * GIB, 10))));
    assert_eq!(snapshot.memory().samples(), &vec![GIB, 2 * GIB]);
}

#[test]
fn unusable_reading_is_skipped_whole() {
    let config = Config::default();
    let mut snapshot = Snapshot::new(&config);
    let mut updater = Updater::new(&config);
    assert!(tick(&mut updater, &mut snapshot, Some(reading(GIB, 1))));
    let mut broken = reading(9 * GIB, 9);
    broken.logical_cpus = 0;
    assert!(!tick(&mut updater, &mut snapshot, Some(broken)));
    assert_eq!(snapshot.memory().samples(), &vec![GIB]);
    assert_eq!(snapshot.cpu_usage(), 1);
    assert_eq!(snapshot.total_memory(), 16 * GIB);
    assert_eq!(snapshot.ticks(), 1);
}

#[test]
fn updater_starts_idle_and_waits_for_the_timer() {
    let config = Config { poll_period_ms: 250, history_capacity: 5, table_size: 5 };
    let updater = Updater::new(&config);
    assert_eq!(updater.phase(), Phase::Idle);
    assert_eq!(updater.period_ms(), 250);
    assert_eq!(updater.pending(), Action::AwaitTimer { millis: 250 });
}

#[test]
fn updater_goes_round_the_cycle() {
    let config = Config::default();
    let mut updater = Updater::new(&config);
    assert_eq!(updater.advance(&Event::TimerFired), Action::PollSource);
    assert_eq!(updater.phase(), Phase::Polling);
    assert_eq!(updater.advance(&Event::SnapshotReady(reading(1, 1))), Action::Release);
    assert_eq!(updater.phase(), Phase::Published);
    assert_eq!(updater.advance(&Event::Released), Action::AwaitTimer { millis: 100 });
    assert_eq!(updater.phase(), Phase::Idle);
    assert_eq!(updater.advance(&Event::TimerFired), Action::PollSource);
    assert_eq!(updater.advance(&Event::SourceUnavailable), Action::AwaitTimer { millis: 100 });
    assert_eq!(updater.phase(), Phase::Idle);
}

#[test]
fn updater_ignores_events_it_does_not_wait_for() {
    let config = Config::default();
    let mut snapshot = Snapshot::new(&config);
    let mut updater = Updater::new(&config);
    assert!(!updater.writes(&Event::SnapshotReady(reading(1, 1))));
    let action = updater.step(&mut snapshot, Event::SnapshotReady(reading(1, 1)));
    assert_eq!(action, Action::AwaitTimer { millis: 100 });
    assert_eq!(updater.phase(), Phase::Idle);
    assert_eq!(snapshot.ticks(), 0);
    assert_eq!(updater.step(&mut snapshot, Event::Released), Action::AwaitTimer { millis: 100 });
    assert_eq!(updater.step(&mut snapshot, Event::SourceUnavailable), Action::AwaitTimer {
        millis: 100
    });
    assert_eq!(updater.step(&mut snapshot, Event::TimerFired), Action::PollSource);
    assert_eq!(updater.step(&mut snapshot, Event::TimerFired), Action::PollSource);
    assert_eq!(updater.step(&mut snapshot, Event::Released), Action::PollSource);
    assert_eq!(updater.phase(), Phase::Polling);
    assert!(updater.writes(&Event::SnapshotReady(reading(1, 1))));
    assert_eq!(updater.step(&mut snapshot, Event::SnapshotReady(reading(1, 1))), Action::Release);
    assert!(!updater.writes(&Event::SnapshotReady(reading(2, 2))));
    assert_eq!(updater.step(&mut snapshot, Event::SnapshotReady(reading(2, 2))), Action::Release);
    assert_eq!(updater.step(&mut snapshot, Event::TimerFired), Action::Release);
    assert_eq!(snapshot.ticks(), 1);
    assert_eq!(snapshot.memory().samples(), &vec![1]);
}
