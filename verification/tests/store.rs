use std::sync::Arc;
use sysmon::registry::CpuSample;
use sysmon::snapshot::{Config, RawSnapshot};
use sysmon::store::SnapshotStore;
use sysmon::updater::{Action, Event, Phase, Updater};

fn reading(tick: u64) -> RawSnapshot {
    RawSnapshot {
        total_memory: 1 << 34,
        used_memory: tick,
        global_cpu_usage: tick,
        cpus: vec![CpuSample { name: "CPU cpu".to_string(), usage: tick }],
        logical_cpus: 4,
        interfaces: Vec::new(),
        processes: Vec::new(),
    }
}

/// What a reader checks of the snapshot it sees: every length belongs to the
/// same number of published readings. Returns that number.
fn check_one_generation(store: &SnapshotStore, capacity: usize) -> u64 {
    let reader = store.read();
    let snapshot = reader.snapshot();
    let ticks = snapshot.ticks();
    let expected = std::cmp::min(ticks, capacity as u64) as usize;
    assert_eq!(snapshot.memory().len(), expected);
    assert_eq!(snapshot.memory_series().len(), expected);
    if ticks == 0 {
        assert_eq!(snapshot.cpus().len(), 0);
    } else {
        assert_eq!(snapshot.cpus().len(), 1);
        let identity = &snapshot.cpus().identities()[0];
        assert_eq!(identity.history().len(), expected);
        assert_eq!(identity.series().len(), expected);
        assert_eq!(identity.history().samples(), snapshot.memory().samples());
        assert_eq!(snapshot.used_memory(), Some(ticks));
        assert_eq!(snapshot.cpu_usage(), ticks);
        for (offset, point) in snapshot.memory_series().iter().enumerate() {
            assert_eq!(point.position, offset + 1);
            assert_eq!(point.value, ticks - (expected - 1 - offset) as u64);
        }
    }
    reader.release();
    ticks
}

#[test]
fn store_starts_with_the_startup_state() {
    let store = SnapshotStore::new(&Config::default());
    assert_eq!(check_one_generation(&store, 500), 0);
}

#[test]
fn store_publishes_usable_readings_only() {
    let store = SnapshotStore::new(&Config::default());
    assert!(store.publish(&reading(1)));
    let mut broken = reading(2);
    broken.logical_cpus = 0;
    broken.processes.push(sysmon::process::ProcessSample {
        pid: 1,
        name: "a".to_string(),
        cpu_share: 1,
    });
    assert!(!store.publish(&broken));
    assert_eq!(check_one_generation(&store, 500), 1);
    assert!(store.publish(&reading(2)));
    assert_eq!(check_one_generation(&store, 500), 2);
}

#[test]
fn store_admits_several_readers_at_once() {
    let store = SnapshotStore::new(&Config::default());
    assert!(store.publish(&reading(1)));
    let first = store.read();
    let second = store.read();
    assert_eq!(first.snapshot().ticks(), 1);
    assert_eq!(second.snapshot().ticks(), 1);
    first.release();
    second.release();
    assert!(store.publish(&reading(2)));
    assert_eq!(check_one_generation(&store, 500), 2);
}

#[test]
fn inspect_hands_out_the_published_snapshot() {
    let store = SnapshotStore::new(&Config::default());
    assert_eq!(store.inspect(|snapshot| snapshot.ticks()), 0);
    assert!(store.publish(&reading(7)));
    let seen = store.inspect(|snapshot| (snapshot.ticks(), snapshot.used_memory()));
    assert_eq!(seen, (1, Some(7)));
    // The access was given up: a writer gets in.
    assert!(store.publish(&reading(8)));
    assert_eq!(store.inspect(|snapshot| snapshot.memory().samples().clone()), vec![7, 8]);
}

#[test]
fn store_update_drives_the_cycle() {
    let config = Config::default();
    let store = SnapshotStore::new(&config);
    let mut updater = Updater::new(&config);
    for tick in 1..=3u64 {
        assert_eq!(store.update(&mut updater, Event::TimerFired), Action::PollSource);
        assert_eq!(store.update(&mut updater, Event::SnapshotReady(reading(tick))), Action::Release);
        assert_eq!(updater.phase(), Phase::Published);
        assert_eq!(store.update(&mut updater, Event::Released), Action::AwaitTimer { millis: 100 });
        assert_eq!(check_one_generation(&store, 500), tick);
    }
    assert_eq!(store.update(&mut updater, Event::TimerFired), Action::PollSource);
    assert_eq!(store.update(&mut updater, Event::SourceUnavailable), Action::AwaitTimer {
        millis: 100
    });
    assert_eq!(check_one_generation(&store, 500), 3);
    assert_eq!(store.update(&mut updater, Event::SnapshotReady(reading(9))), Action::AwaitTimer {
        millis: 100
    });
    assert_eq!(check_one_generation(&store, 500), 3);
}

#[test]
fn readers_never_see_a_half_written_snapshot() {
    let capacity = 16usize;
    let writer_ticks = 2000u64;
    let reader_passes = 2000usize;
    let config = Config { poll_period_ms: 1, history_capacity: capacity, table_size: 10 };
    let store = Arc::new(SnapshotStore::new(&config));
    let runtime = tokio::runtime::Builder::new_multi_thread().worker_threads(4).build().unwrap();
    let writer = {
        let store = store.clone();
        runtime.spawn(async move {
            for tick in 1..=writer_ticks {
                assert!(store.publish(&reading(tick)));
                tokio::task::yield_now().await;
            }
        })
    };
    let mut readers = Vec::new();
    for _ in 0..3 {
        let store = store.clone();
        readers.push(runtime.spawn(async move {
            let mut last = 0u64;
            for _ in 0..reader_passes {
                let seen = check_one_generation(&store, capacity);
                assert!(seen >= last);
                last = seen;
                tokio::task::yield_now().await;
            }
        }));
    }
    runtime.block_on(writer).unwrap();
    for reader in readers {
        runtime.block_on(reader).unwrap();
    }
    assert_eq!(check_one_generation(&store, capacity), writer_ticks);
}
