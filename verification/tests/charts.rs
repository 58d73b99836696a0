use clairvoyance::data::{CpuTime, CpuUsage, Data, Io, Memory, NetIoTable};
use clairvoyance::draw::{
    largest, peak, render_cpu_time, render_cpu_usage, render_io, render_memory, Series,
};

fn snapshot(scale: u64) -> Data {
    Data {
        memory: Memory {
            rss: 1_500_000 * scale,
            vms: 3_000_000 * scale,
            shared: Some(999_999),
            text: None,
            data: Some(1_000_000),
        },
        cpu_time: CpuTime { user: 10 * scale, system: 7 * scale },
        cpu_usage: CpuUsage(12_499 * scale),
        io: Io {
            bytes_written: 2_000_001 * scale,
            bytes_read: 0,
            disk_written: Some(5_000_000),
            disk_read: None,
            syscall_written: Some(42),
            syscall_read: Some(9_000_000 * scale),
        },
        net_io: NetIoTable::new(),
    }
}

#[test]
fn largest_of_values() {
    assert_eq!(largest(&[]), 0);
    assert_eq!(largest(&[0, 0]), 0);
    assert_eq!(largest(&[3, 9, 2, 9, 1]), 9);
    assert_eq!(largest(&[u64::MAX, 1]), u64::MAX);
}

#[test]
fn peak_of_lines() {
    assert_eq!(peak(&[]), 0);
    let lines = vec![
        Series { label: "a", points: vec![1, 5, 2] },
        Series { label: "b", points: vec![] },
        Series { label: "c", points: vec![7, 0] },
    ];
    assert_eq!(peak(&lines), 7);
}

#[test]
fn memory_chart_is_in_megabytes() {
    let chart = render_memory(&[snapshot(1), snapshot(2), snapshot(3)]);
    assert_eq!(chart.caption, "Memory Usage");
    assert_eq!(chart.unit, "MB");
    assert_eq!(chart.x_len, 3);
    assert_eq!(chart.y_len, 9);
    let labels: Vec<&str> = chart.series.iter().map(|series| series.label).collect();
    assert_eq!(labels, ["vms", "rss", "shared", "text", "data"]);
    assert_eq!(chart.series[0].points, [3, 6, 9]);
    assert_eq!(chart.series[1].points, [1, 3, 4]);
    assert_eq!(chart.series[2].points, [0, 0, 0]);
    assert_eq!(chart.series[3].points, [0, 0, 0]);
    assert_eq!(chart.series[4].points, [1, 1, 1]);
}

#[test]
fn io_chart_is_in_megabytes() {
    let chart = render_io(&[snapshot(1), snapshot(2)]);
    assert_eq!(chart.caption, "I/O");
    assert_eq!(chart.unit, "MB");
    assert_eq!(chart.x_len, 2);
    assert_eq!(chart.y_len, 18);
    let labels: Vec<&str> = chart.series.iter().map(|series| series.label).collect();
    assert_eq!(
        labels,
        ["bytes_written", "bytes_read", "disk_written", "disk_read", "syscall_written", "syscall_read"]
    );
    assert_eq!(chart.series[0].points, [2, 4]);
    assert_eq!(chart.series[1].points, [0, 0]);
    assert_eq!(chart.series[2].points, [5, 5]);
    assert_eq!(chart.series[3].points, [0, 0]);
    assert_eq!(chart.series[4].points, [0, 0]);
    assert_eq!(chart.series[5].points, [9, 18]);
}

#[test]
fn cpu_time_chart_is_in_microseconds() {
    let chart = render_cpu_time(&[snapshot(1), snapshot(5)]);
    assert_eq!(chart.caption, "Cpu Time");
    assert_eq!(chart.unit, "us");
    assert_eq!(chart.x_len, 2);
    assert_eq!(chart.y_len, 50);
    assert_eq!(chart.series.len(), 2);
    assert_eq!(chart.series[0].label, "system");
    assert_eq!(chart.series[0].points, [7, 35]);
    assert_eq!(chart.series[1].label, "user");
    assert_eq!(chart.series[1].points, [10, 50]);
}

#[test]
fn cpu_usage_chart_is_in_percent() {
    let chart = render_cpu_usage(&[snapshot(1), snapshot(2), snapshot(0)]);
    assert_eq!(chart.caption, "Cpu Usage");
    assert_eq!(chart.unit, "%");
    assert_eq!(chart.x_len, 3);
    // 12.499 % and 24.998 %: the axis goes to the nearest percent, the points are rounded upward
    assert_eq!(chart.y_len, 25);
    assert_eq!(chart.series.len(), 1);
    assert_eq!(chart.series[0].label, "usage");
    assert_eq!(chart.series[0].points, [13, 25, 0]);
}

#[test]
fn cpu_usage_rounds_halves_upward() {
    let mut half = snapshot(0);
    half.cpu_usage = CpuUsage(2_500);
    let mut whole = snapshot(0);
    whole.cpu_usage = CpuUsage(3_000);
    let mut most = snapshot(0);
    most.cpu_usage = CpuUsage(u64::MAX);
    assert_eq!(render_cpu_usage(&[half.clone()]).y_len, 3);
    assert_eq!(render_cpu_usage(&[half]).series[0].points, [3]);
    assert_eq!(render_cpu_usage(&[whole.clone()]).y_len, 3);
    assert_eq!(render_cpu_usage(&[whole]).series[0].points, [3]);
    assert_eq!(render_cpu_usage(&[most.clone()]).y_len, u64::MAX / 1000 + 1);
    assert_eq!(render_cpu_usage(&[most]).series[0].points, [u64::MAX / 1000 + 1]);
}

#[test]
fn charts_of_no_snapshots_are_empty() {
    for chart in [render_memory(&[]), render_io(&[]), render_cpu_time(&[]), render_cpu_usage(&[])] {
        assert_eq!(chart.x_len, 0);
        assert_eq!(chart.y_len, 0);
        assert!(chart.series.iter().all(|series| series.points.is_empty()));
    }
}
