use clairvoyance::data::{CpuTime, CpuUsage, Data, Io, Memory, NetIo, NetIoEntry};
use clairvoyance::monitor::{
    assemble, cpu_usage, CpuSample, Monitor, MonitorAction, MonitorError, MonitorEvent,
    ProcessEntry, RawSample, Stage, StopReason,
};
use clairvoyance::shutdown_notify::{ShutdownGuard, ShutdownNotify};
use clairvoyance::store::StoreStream;

fn guard() -> ShutdownGuard {
    ShutdownNotify::new().start().unwrap()
}

fn monitor() -> Monitor {
    Monitor::with_start(4321, "2024-01-02_03-04-05".to_string(), guard())
}

fn interface(name: &str, bytes_sent: u64) -> NetIoEntry {
    NetIoEntry {
        name: name.to_string(),
        counters: NetIo {
            bytes_sent,
            bytes_recv: 0,
            packets_sent: 0,
            packets_recv: 0,
            errors_sent: 0,
            errors_recv: 0,
            drop_recv: 0,
            drop_sent: 0,
        },
    }
}

fn raw(tick: u64) -> RawSample {
    RawSample {
        memory: Memory { rss: 1000 + tick, vms: 2000, shared: Some(1), text: Some(2), data: Some(3) },
        cpu_time: CpuTime { user: 100_000 * tick, system: 25_000 * tick },
        at: 500_000 * tick,
        cores: 4,
        io: Io {
            bytes_written: tick,
            bytes_read: 0,
            disk_written: Some(0),
            disk_read: Some(0),
            syscall_written: Some(tick),
            syscall_read: Some(0),
        },
        net_io: vec![interface("lo", tick), interface("eth0", 10 * tick)],
    }
}

fn sample(at: u64, user: u64, system: u64, cores: u64) -> CpuSample {
    CpuSample { cpu_time: CpuTime { user, system }, at, cores }
}

fn quiet_tick(monitor: &mut Monitor, tick: u64) -> Option<Vec<u8>> {
    let flush = match monitor.run(MonitorEvent::Wake { shutdown: false }) {
        MonitorAction::CheckRunning { forced } => forced,
        other => panic!("unexpected answer to the tick: {:?}", other),
    };
    assert_eq!(monitor.stage(), Stage::AwaitLiveness);
    assert_eq!(monitor.run(MonitorEvent::Liveness(Some(true))), MonitorAction::Collect);
    assert_eq!(monitor.stage(), Stage::AwaitSample);
    assert_eq!(monitor.run(MonitorEvent::Sample(Some(raw(tick)))), MonitorAction::AwaitTick);
    assert_eq!(monitor.stage(), Stage::AwaitTick);
    flush
}

#[test]
fn first_sample_has_no_usage() {
    assert_eq!(cpu_usage(None, sample(500_000, 1_000_000, 1_000_000, 4)), CpuUsage(0));
}

#[test]
fn usage_is_consumed_share_of_all_cores() {
    let before = sample(0, 900_000, 100_000, 4);
    let now = sample(500_000, 1_100_000, 150_000, 4);
    assert_eq!(cpu_usage(Some(before), now), CpuUsage(12_500));
}

#[test]
fn usage_of_one_busy_core() {
    let before = sample(1_000, 0, 0, 1);
    let now = sample(1_001_000, 600_000, 400_000, 1);
    assert_eq!(cpu_usage(Some(before), now), CpuUsage(100_000));
    let two_cores = sample(1_001_000, 600_000, 400_000, 2);
    assert_eq!(cpu_usage(Some(before), two_cores), CpuUsage(50_000));
}

#[test]
fn usage_rounds_down() {
    let before = sample(0, 0, 0, 3);
    let now = sample(1_000_000, 1, 0, 3);
    assert_eq!(cpu_usage(Some(before), now), CpuUsage(0));
    let now = sample(7, 2, 0, 3);
    assert_eq!(cpu_usage(Some(before), now), CpuUsage(9_523));
}

#[test]
fn usage_is_zero_without_progress() {
    let before = sample(1_000, 500, 500, 4);
    assert_eq!(cpu_usage(Some(before), sample(2_000, 500, 500, 4)), CpuUsage(0));
    assert_eq!(cpu_usage(Some(before), sample(2_000, 400, 500, 4)), CpuUsage(0));
    assert_eq!(cpu_usage(Some(before), sample(1_000, 900, 900, 4)), CpuUsage(0));
    assert_eq!(cpu_usage(Some(before), sample(500, 900, 900, 4)), CpuUsage(0));
    assert_eq!(cpu_usage(Some(before), sample(2_000, 900, 900, 0)), CpuUsage(0));
}

#[test]
fn usage_saturates() {
    let before = sample(0, 0, 0, 1);
    let now = sample(1, u64::MAX, u64::MAX, 1);
    assert_eq!(cpu_usage(Some(before), now), CpuUsage(u64::MAX));
    let now = sample(u64::MAX, u64::MAX, u64::MAX, u64::MAX);
    assert_eq!(cpu_usage(Some(before), now), CpuUsage(0));
}

#[test]
fn assemble_copies_the_sample() {
    let data = assemble(None, &raw(3));
    assert_eq!(data.memory, raw(3).memory);
    assert_eq!(data.cpu_time, raw(3).cpu_time);
    assert_eq!(data.io, raw(3).io);
    assert_eq!(data.cpu_usage, CpuUsage(0));
    assert_eq!(data.net_io.len(), 2);
    assert_eq!(data.net_io.entry(0), &interface("lo", 3));
    assert_eq!(data.net_io.entry(1), &interface("eth0", 30));
}

#[test]
fn assemble_lets_the_later_report_count() {
    let mut sample = raw(1);
    sample.net_io = vec![interface("a", 1), interface("b", 2), interface("a", 3)];
    let data = assemble(None, &sample);
    assert_eq!(data.net_io.len(), 2);
    assert_eq!(data.net_io.entry(0), &interface("a", 3));
    assert_eq!(data.net_io.entry(1), &interface("b", 2));
}

#[test]
fn collect_measures_against_the_tick_before() {
    let mut monitor = monitor();
    assert_eq!(monitor.collect(&raw(1)).cpu_usage, CpuUsage(0));
    // 125 ms of CPU time in 500 ms on four cores
    assert_eq!(monitor.collect(&raw(2)).cpu_usage, CpuUsage(6_250));
    assert_eq!(monitor.collect(&raw(4)).cpu_usage, CpuUsage(6_250));
    assert_eq!(monitor.collect(&raw(4)).cpu_usage, CpuUsage(0));
}

#[test]
fn three_ticks_give_three_snapshots_and_one_forced_flush() {
    let mut monitor = monitor();
    let mut disk = Vec::new();
    let mut forced = 0;
    for tick in 1..=3 {
        if let Some(bytes) = quiet_tick(&mut monitor, tick) {
            assert_eq!(tick, 3);
            forced += 1;
            disk.extend(bytes);
        }
    }
    assert_eq!(forced, 1);
    let first_two: Vec<Data> = StoreStream::open(disk.clone()).read_all().unwrap();
    assert_eq!(first_two.len(), 2);
    match monitor.run(MonitorEvent::Wake { shutdown: true }) {
        MonitorAction::Stop { reason, flush, guard } => {
            assert_eq!(reason, StopReason::Shutdown);
            assert!(guard.is_some());
            disk.extend(flush);
        },
        other => panic!("unexpected answer to the stop: {:?}", other),
    }
    let records = StoreStream::open(disk).read_all().unwrap();
    assert_eq!(records.len(), 3);
    assert_eq!(records[0], assemble(None, &raw(1)));
    assert_eq!(records[1].cpu_usage, CpuUsage(6_250));
    assert_eq!(records[2].memory.rss, 1003);
    assert_eq!(records[2].net_io.get("eth0").unwrap().bytes_sent, 30);
}

#[test]
fn every_third_tick_forces_a_flush() {
    let mut monitor = monitor();
    for tick in 1..=10 {
        let flush = quiet_tick(&mut monitor, tick);
        assert_eq!(flush.is_some(), tick % 3 == 0, "tick {}", tick);
        if let Some(bytes) = flush {
            let expected = if tick == 3 { 2 } else { 3 };
            assert_eq!(StoreStream::open(bytes).read_all().unwrap().len(), expected);
        }
    }
}

#[test]
fn final_flush_hands_out_what_the_forced_flush_left() {
    let mut monitor = monitor();
    quiet_tick(&mut monitor, 1);
    quiet_tick(&mut monitor, 2);
    quiet_tick(&mut monitor, 3);
    match monitor.run(MonitorEvent::Wake { shutdown: true }) {
        MonitorAction::Stop { flush, .. } => assert!(!flush.is_empty()),
        other => panic!("unexpected answer: {:?}", other),
    }
}

#[test]
fn shutdown_wins_over_the_tick() {
    let mut monitor = monitor();
    let held = guard();
    match monitor.run(MonitorEvent::Wake { shutdown: true }) {
        MonitorAction::Stop { reason, flush, guard } => {
            assert_eq!(reason, StopReason::Shutdown);
            assert!(flush.is_empty());
            assert_eq!(guard, Some(held));
        },
        other => panic!("unexpected answer: {:?}", other),
    }
    assert_eq!(monitor.stage(), Stage::Stopped);
}

#[test]
fn process_that_is_gone_ends_the_loop() {
    let mut monitor = monitor();
    quiet_tick(&mut monitor, 1);
    monitor.run(MonitorEvent::Wake { shutdown: false });
    match monitor.run(MonitorEvent::Liveness(Some(false))) {
        MonitorAction::Stop { reason, flush, guard } => {
            assert_eq!(reason, StopReason::ProcessExited);
            assert_eq!(StoreStream::open(flush).read_all().unwrap().len(), 1);
            assert!(guard.is_some());
        },
        other => panic!("unexpected answer: {:?}", other),
    }
    assert_eq!(monitor.stage(), Stage::Stopped);
}

#[test]
fn failed_liveness_query_ends_the_loop() {
    let mut monitor = monitor();
    monitor.run(MonitorEvent::Wake { shutdown: false });
    match monitor.run(MonitorEvent::Liveness(None)) {
        MonitorAction::Stop { reason, .. } => {
            assert_eq!(reason, StopReason::Failed(MonitorError::ProcessQueryFailed))
        },
        other => panic!("unexpected answer: {:?}", other),
    }
}

#[test]
fn failed_collection_ends_the_loop() {
    let mut monitor = monitor();
    quiet_tick(&mut monitor, 1);
    quiet_tick(&mut monitor, 2);
    monitor.run(MonitorEvent::Wake { shutdown: false });
    monitor.run(MonitorEvent::Liveness(Some(true)));
    match monitor.run(MonitorEvent::Sample(None)) {
        MonitorAction::Stop { reason, flush, guard } => {
            assert_eq!(reason, StopReason::Failed(MonitorError::CollectionFailed));
            assert!(flush.is_empty());
            assert!(guard.is_some());
        },
        other => panic!("unexpected answer: {:?}", other),
    }
}

#[test]
fn reports_out_of_turn_are_ignored() {
    let mut monitor = monitor();
    assert_eq!(monitor.run(MonitorEvent::Liveness(Some(true))), MonitorAction::Unexpected);
    assert_eq!(monitor.run(MonitorEvent::Sample(Some(raw(1)))), MonitorAction::Unexpected);
    assert_eq!(monitor.stage(), Stage::AwaitTick);
    monitor.run(MonitorEvent::Wake { shutdown: false });
    assert_eq!(monitor.run(MonitorEvent::Wake { shutdown: true }), MonitorAction::Unexpected);
    assert_eq!(monitor.run(MonitorEvent::Sample(None)), MonitorAction::Unexpected);
    assert_eq!(monitor.stage(), Stage::AwaitLiveness);
    monitor.run(MonitorEvent::Liveness(Some(true)));
    assert_eq!(monitor.run(MonitorEvent::Liveness(None)), MonitorAction::Unexpected);
    assert_eq!(monitor.stage(), Stage::AwaitSample);
    monitor.run(MonitorEvent::Sample(None));
    assert_eq!(monitor.run(MonitorEvent::Wake { shutdown: false }), MonitorAction::Unexpected);
    assert_eq!(monitor.run(MonitorEvent::Wake { shutdown: true }), MonitorAction::Unexpected);
    assert_eq!(monitor.stage(), Stage::Stopped);
}

fn table() -> Vec<ProcessEntry> {
    vec![
        ProcessEntry { pid: 1, name: Some("init".to_string()) },
        ProcessEntry { pid: 20, name: None },
        ProcessEntry { pid: 300, name: Some("worker".to_string()) },
        ProcessEntry { pid: 301, name: Some("worker".to_string()) },
        ProcessEntry { pid: 302, name: Some("worker2".to_string()) },
    ]
}

#[test]
fn from_pid_finds_the_process() {
    let monitor = Monitor::from_pid(20, &table(), guard()).unwrap();
    assert_eq!(monitor.pid(), 20);
    assert_eq!(monitor.stage(), Stage::AwaitTick);
}

#[test]
fn from_pid_of_unknown_process_fails() {
    let held = guard();
    let failure = Monitor::from_pid(21, &table(), guard()).err().unwrap();
    assert_eq!(failure.error, MonitorError::ProcessNotFound);
    assert_eq!(failure.guard, held);
    assert!(Monitor::from_pid(1, &[], guard()).is_err());
}

#[test]
fn from_name_takes_the_first_exact_match() {
    let monitor = Monitor::from_name("worker", &table(), guard()).unwrap();
    assert_eq!(monitor.pid(), 300);
    let monitor = Monitor::from_name("worker2", &table(), guard()).unwrap();
    assert_eq!(monitor.pid(), 302);
}

#[test]
fn from_name_without_match_fails() {
    for name in ["work", "Worker", "worker ", ""] {
        let failure = Monitor::from_name(name, &table(), guard()).err().unwrap();
        assert_eq!(failure.error, MonitorError::ProcessNotFound);
    }
}

#[test]
fn file_name_is_pid_and_start_time() {
    assert_eq!(monitor().file_name(), "4321-2024-01-02_03-04-05.clairvoyance");
    let zero = Monitor::with_start(0, "t".to_string(), guard());
    assert_eq!(zero.file_name(), "0-t.clairvoyance");
    let ten = Monitor::with_start(10, "".to_string(), guard());
    assert_eq!(ten.file_name(), "10-.clairvoyance");
    let largest = Monitor::with_start(i32::MAX, "x".to_string(), guard());
    assert_eq!(largest.file_name(), "2147483647-x.clairvoyance");
    let negative = Monitor::with_start(i32::MIN, "x".to_string(), guard());
    assert_eq!(negative.file_name(), "-2147483648-x.clairvoyance");
}

#[test]
fn new_names_the_log_after_the_clock() {
    let name = Monitor::new(77, guard()).file_name();
    let stamp = name.strip_prefix("77-").unwrap().strip_suffix(".clairvoyance").unwrap();
    let shape: String = stamp
        .chars()
        .map(|c| if c.is_ascii_digit() { '0' } else { c })
        .collect();
    assert_eq!(shape, "0000-00-00_00-00-00");
}

#[test]
fn new_monitor_waits_for_its_first_tick() {
    let mut monitor = Monitor::new(77, guard());
    assert_eq!(monitor.pid(), 77);
    assert_eq!(monitor.stage(), Stage::AwaitTick);
    assert_eq!(
        monitor.run(MonitorEvent::Wake { shutdown: false }),
        MonitorAction::CheckRunning { forced: None }
    );
}

#[test]
fn raw_sample_takes_the_cores_of_the_host() {
    let expected = raw(2);
    let sample = RawSample::new(
        expected.memory,
        expected.cpu_time,
        expected.at,
        expected.io,
        expected.net_io.clone(),
    );
    assert!(sample.cores >= 1);
    assert_eq!(RawSample { cores: 4, ..sample }, expected);
}
