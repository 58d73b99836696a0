//! What the charts of a recording show: the lines, point by point, and the
//! extent of the axes.
//!
//! Nothing is drawn here. A [`Chart`] is the plan of a drawing; putting it on
//! a canvas is the caller's part.

use crate::data::Data;
use byte_unit::{Byte, ByteUnit};
use vstd::prelude::*;

verus! {

/// One line of a chart: a value for each snapshot, in order.
#[derive(Clone, Debug, PartialEq, Eq)]
pub struct Series {
    pub label: &'static str,
    pub points: Vec<u64>,
}

/// The plan of a chart.
#[derive(Clone, Debug, PartialEq, Eq)]
pub struct Chart {
    pub caption: &'static str,
    /// The unit of the vertical axis.
    pub unit: &'static str,
    /// Extent of the horizontal axis: the number of snapshots.
    pub x_len: usize,
    /// Extent of the vertical axis.
    pub y_len: u64,
    pub series: Vec<Series>,
}

/// A byte count in megabytes, as `byte-unit` converts it: the bytes as a
/// double-precision number, divided by a million, without the fraction.
pub uninterp spec fn megabytes(bytes: u64) -> u64;

/// Calls `Byte::from`, `Byte::get_adjusted_unit` and `AdjustedByte::get_value`
/// of `byte-unit`, for the unit `MB`, and drops the fraction. The contract
/// gives the result its name and claims nothing else.
#[verifier::external_body]
pub(crate) fn to_mb(bytes: u64) -> (mb: u64)
    ensures
        mb == megabytes(bytes),
{
    Byte::from(bytes).get_adjusted_unit(ByteUnit::MB).get_value() as u64
}

/// `top` is the largest of `values`, or 0 where there are none.
pub open spec fn is_largest(top: u64, values: Seq<u64>) -> bool {
    &&& forall|i: int| 0 <= i < values.len() ==> values[i] <= top
    &&& top == 0 || exists|i: int| 0 <= i < values.len() && values[i] == top
}

/// `top` is the largest point of `lines`, or 0 where they have no point.
pub open spec fn is_peak(top: u64, lines: Seq<Series>) -> bool {
    &&& forall|k: int, i: int|
        0 <= k < lines.len() && 0 <= i < lines[k].points@.len() ==> lines[k].points@[i] <= top
    &&& top == 0 || exists|k: int, i: int|
        0 <= k < lines.len() && 0 <= i < lines[k].points@.len() && lines[k].points@[i] == top
}

/// The largest of `values`, or 0 where there are none.
pub fn largest(values: &[u64]) -> (top: u64)
    ensures
        is_largest(top, values@),
{
    let mut top: u64 = 0;
    let mut i: usize = 0;
    while i < values.len()
        invariant
            i <= values@.len(),
            is_largest(top, values@.take(i as int)),
        decreases values@.len() - i,
    {
        let ghost seen = values@.take(i as int);
        let ghost next = values@.take(i + 1);
        if values[i] > top {
            top = values[i];
        }
        proof {
            assert forall|k: int| 0 <= k < next.len() implies next[k] <= top by {
                if k < i {
                    assert(seen[k] == next[k]);
                }
            }
            if top != 0 && top != values@[i as int] {
                let k = choose|k: int| 0 <= k < seen.len() && seen[k] == top;
                assert(next[k] == top);
            } else if top != 0 {
                assert(next[i as int] == top);
            }
        }
        i += 1;
    }
    assert(values@.take(i as int) =~= values@);
    top
}

/// The largest point of `lines`, or 0 where they have no point.
pub fn peak(lines: &[Series]) -> (top: u64)
    ensures
        is_peak(top, lines@),
{
    let mut top: u64 = 0;
    let mut k: usize = 0;
    while k < lines.len()
        invariant
            k <= lines@.len(),
            is_peak(top, lines@.take(k as int)),
        decreases lines@.len() - k,
    {
        let ghost seen = lines@.take(k as int);
        let ghost next = lines@.take(k + 1);
        let ghost before = top;
        let here = largest(lines[k].points.as_slice());
        if here > top {
            top = here;
        }
        proof {
            assert forall|j: int, i: int|
                0 <= j < next.len() && 0 <= i < next[j].points@.len() implies next[j].points@[i]
                <= top by {
                if j < k {
                    assert(seen[j] == next[j]);
                }
            }
            if top != 0 {
                if top == before {
                    let (j, i) = choose|j: int, i: int|
                        0 <= j < seen.len() && 0 <= i < seen[j].points@.len()
                            && seen[j].points@[i] == top;
                    assert(next[j] == seen[j]);
                } else {
                    let i = choose|i: int|
                        0 <= i < lines@[k as int].points@.len() && lines@[k as int].points@[i]
                            == top;
                    assert(next[k as int].points@[i] == top);
                }
            }
        }
        k += 1;
    }
    assert(lines@.take(k as int) =~= lines@);
    top
}

/// A usage in thousandths of a percent, to the nearest whole percent, halves
/// upward.
pub open spec fn percent_rounded(usage: u64) -> u64 {
    (usage / 1000 + if usage % 1000 >= 500 {
        1int
    } else {
        0int
    }) as u64
}

/// A usage in thousandths of a percent, in whole percent, rounded upward.
pub open spec fn percent_ceiled(usage: u64) -> u64 {
    (usage / 1000 + if usage % 1000 > 0 {
        1int
    } else {
        0int
    }) as u64
}

/// Computes [`percent_rounded`].
fn round_percent(usage: u64) -> (percent: u64)
    ensures
        percent == percent_rounded(usage),
{
    if usage % 1000 >= 500 {
        usage / 1000 + 1
    } else {
        usage / 1000
    }
}

/// Computes [`percent_ceiled`].
fn ceil_percent(usage: u64) -> (percent: u64)
    ensures
        percent == percent_ceiled(usage),
{
    if usage % 1000 > 0 {
        usage / 1000 + 1
    } else {
        usage / 1000
    }
}

/// An optional counter as it is plotted: absent counts as 0.
pub open spec fn or_zero(value: Option<u64>) -> u64 {
    match value {
        Some(v) => v,
        None => 0,
    }
}

/// Computes [`or_zero`].
fn plotted(value: Option<u64>) -> (v: u64)
    ensures
        v == or_zero(value),
{
    match value {
        Some(v) => v,
        None => 0,
    }
}

/// The memory chart: virtual, resident, shared, text and data size of each
/// snapshot, in megabytes. The vertical axis reaches the largest of them.
pub fn render_memory(data: &[Data]) -> (chart: Chart)
    ensures
        chart.caption@ == "Memory Usage"@,
        chart.unit@ == "MB"@,
        chart.x_len == data@.len(),
        is_peak(chart.y_len, chart.series@),
        chart.series@.len() == 5,
        chart.series@[0].label@ == "vms"@,
        chart.series@[1].label@ == "rss"@,
        chart.series@[2].label@ == "shared"@,
        chart.series@[3].label@ == "text"@,
        chart.series@[4].label@ == "data"@,
        forall|k: int| 0 <= k < 5 ==> (#[trigger] chart.series@[k]).points@.len() == data@.len(),
        forall|i: int|
            0 <= i < data@.len() ==> {
                let memory = (#[trigger] data@[i]).memory;
                &&& chart.series@[0].points@[i] == megabytes(memory.vms)
                &&& chart.series@[1].points@[i] == megabytes(memory.rss)
                &&& chart.series@[2].points@[i] == megabytes(or_zero(memory.shared))
                &&& chart.series@[3].points@[i] == megabytes(or_zero(memory.text))
                &&& chart.series@[4].points@[i] == megabytes(or_zero(memory.data))
            },
{
    let mut vms: Vec<u64> = Vec::new();
    let mut rss: Vec<u64> = Vec::new();
    let mut shared: Vec<u64> = Vec::new();
    let mut text: Vec<u64> = Vec::new();
    let mut segment: Vec<u64> = Vec::new();
    let mut i: usize = 0;
    while i < data.len()
        invariant
            i <= data@.len(),
            vms@.len() == i,
            rss@.len() == i,
            shared@.len() == i,
            text@.len() == i,
            segment@.len() == i,
            forall|j: int|
                0 <= j < i ==> {
                    let memory = (#[trigger] data@[j]).memory;
                    &&& vms@[j] == megabytes(memory.vms)
                    &&& rss@[j] == megabytes(memory.rss)
                    &&& shared@[j] == megabytes(or_zero(memory.shared))
                    &&& text@[j] == megabytes(or_zero(memory.text))
                    &&& segment@[j] == megabytes(or_zero(memory.data))
                },
        decreases data@.len() - i,
    {
        let memory = &data[i].memory;
        vms.push(to_mb(memory.vms));
        rss.push(to_mb(memory.rss));
        shared.push(to_mb(plotted(memory.shared)));
        text.push(to_mb(plotted(memory.text)));
        segment.push(to_mb(plotted(memory.data)));
        i += 1;
    }
    let series = vec![
        Series { label: "vms", points: vms },
        Series { label: "rss", points: rss },
        Series { label: "shared", points: shared },
        Series { label: "text", points: text },
        Series { label: "data", points: segment },
    ];
    let y_len = peak(series.as_slice());
    Chart { caption: "Memory Usage", unit: "MB", x_len: data.len(), y_len, series }
}

/// The CPU-time chart: system and user time of each snapshot, in
/// microseconds. The vertical axis reaches the largest of them.
pub fn render_cpu_time(data: &[Data]) -> (chart: Chart)
    ensures
        chart.caption@ == "Cpu Time"@,
        chart.unit@ == "us"@,
        chart.x_len == data@.len(),
        is_peak(chart.y_len, chart.series@),
        chart.series@.len() == 2,
        chart.series@[0].label@ == "system"@,
        chart.series@[1].label@ == "user"@,
        forall|k: int| 0 <= k < 2 ==> (#[trigger] chart.series@[k]).points@.len() == data@.len(),
        forall|i: int|
            0 <= i < data@.len() ==> {
                let cpu_time = (#[trigger] data@[i]).cpu_time;
                &&& chart.series@[0].points@[i] == cpu_time.system
                &&& chart.series@[1].points@[i] == cpu_time.user
            },
{
    let mut system: Vec<u64> = Vec::new();
    let mut user: Vec<u64> = Vec::new();
    let mut i: usize = 0;
    while i < data.len()
        invariant
            i <= data@.len(),
            system@.len() == i,
            user@.len() == i,
            forall|j: int|
                0 <= j < i ==> {
                    let cpu_time = (#[trigger] data@[j]).cpu_time;
                    &&& system@[j] == cpu_time.system
                    &&& user@[j] == cpu_time.user
                },
        decreases data@.len() - i,
    {
        system.push(data[i].cpu_time.system);
        user.push(data[i].cpu_time.user);
        i += 1;
    }
    let series = vec![
        Series { label: "system", points: system },
        Series { label: "user", points: user },
    ];
    let y_len = peak(series.as_slice());
    Chart { caption: "Cpu Time", unit: "us", x_len: data.len(), y_len, series }
}

/// The usages of `data`, each to the nearest whole percent.
pub open spec fn rounded_usages(data: Seq<Data>) -> Seq<u64> {
    Seq::new(data.len(), |i: int| percent_rounded(data[i].cpu_usage.0))
}

/// The CPU-usage chart: the usage of each snapshot in whole percent, rounded
/// upward. The vertical axis reaches the largest usage to the nearest
/// percent, so a point may stand up to one percent above it.
pub fn render_cpu_usage(data: &[Data]) -> (chart: Chart)
    ensures
        chart.caption@ == "Cpu Usage"@,
        chart.unit@ == "%"@,
        chart.x_len == data@.len(),
        is_largest(chart.y_len, rounded_usages(data@)),
        chart.series@.len() == 1,
        chart.series@[0].label@ == "usage"@,
        chart.series@[0].points@.len() == data@.len(),
        forall|i: int|
            0 <= i < data@.len() ==> chart.series@[0].points@[i] == percent_ceiled(
                (#[trigger] data@[i]).cpu_usage.0,
            ),
{
    let mut rounded: Vec<u64> = Vec::new();
    let mut usage: Vec<u64> = Vec::new();
    let mut i: usize = 0;
    while i < data.len()
        invariant
            i <= data@.len(),
            rounded@.len() == i,
            usage@.len() == i,
            forall|j: int|
                0 <= j < i ==> {
                    &&& rounded@[j] == percent_rounded((#[trigger] data@[j]).cpu_usage.0)
                    &&& usage@[j] == percent_ceiled(data@[j].cpu_usage.0)
                },
        decreases data@.len() - i,
    {
        rounded.push(round_percent(data[i].cpu_usage.0));
        usage.push(ceil_percent(data[i].cpu_usage.0));
        i += 1;
    }
    assert(rounded@ =~= rounded_usages(data@));
    let y_len = largest(rounded.as_slice());
    let series = vec![Series { label: "usage", points: usage }];
    Chart { caption: "Cpu Usage", unit: "%", x_len: data.len(), y_len, series }
}

/// The I/O chart: the six I/O counters of each snapshot, each converted as
/// a byte count to megabytes. The vertical axis reaches the largest of them.
pub fn render_io(data: &[Data]) -> (chart: Chart)
    ensures
        chart.caption@ == "I/O"@,
        chart.unit@ == "MB"@,
        chart.x_len == data@.len(),
        is_peak(chart.y_len, chart.series@),
        chart.series@.len() == 6,
        chart.series@[0].label@ == "bytes_written"@,
        chart.series@[1].label@ == "bytes_read"@,
        chart.series@[2].label@ == "disk_written"@,
        chart.series@[3].label@ == "disk_read"@,
        chart.series@[4].label@ == "syscall_written"@,
        chart.series@[5].label@ == "syscall_read"@,
        forall|k: int| 0 <= k < 6 ==> (#[trigger] chart.series@[k]).points@.len() == data@.len(),
        forall|i: int|
            0 <= i < data@.len() ==> {
                let io = (#[trigger] data@[i]).io;
                &&& chart.series@[0].points@[i] == megabytes(io.bytes_written)
                &&& chart.series@[1].points@[i] == megabytes(io.bytes_read)
                &&& chart.series@[2].points@[i] == megabytes(or_zero(io.disk_written))
                &&& chart.series@[3].points@[i] == megabytes(or_zero(io.disk_read))
                &&& chart.series@[4].points@[i] == megabytes(or_zero(io.syscall_written))
                &&& chart.series@[5].points@[i] == megabytes(or_zero(io.syscall_read))
            },
{
    let mut bytes_written: Vec<u64> = Vec::new();
    let mut bytes_read: Vec<u64> = Vec::new();
    let mut disk_written: Vec<u64> = Vec::new();
    let mut disk_read: Vec<u64> = Vec::new();
    let mut syscall_written: Vec<u64> = Vec::new();
    let mut syscall_read: Vec<u64> = Vec::new();
    let mut i: usize = 0;
    while i < data.len()
        invariant
            i <= data@.len(),
            bytes_written@.len() == i,
            bytes_read@.len() == i,
            disk_written@.len() == i,
            disk_read@.len() == i,
            syscall_written@.len() == i,
            syscall_read@.len() == i,
            forall|j: int|
                0 <= j < i ==> {
                    let io = (#[trigger] data@[j]).io;
                    &&& bytes_written@[j] == megabytes(io.bytes_written)
                    &&& bytes_read@[j] == megabytes(io.bytes_read)
                    &&& disk_written@[j] == megabytes(or_zero(io.disk_written))
                    &&& disk_read@[j] == megabytes(or_zero(io.disk_read))
                    &&& syscall_written@[j] == megabytes(or_zero(io.syscall_written))
                    &&& syscall_read@[j] == megabytes(or_zero(io.syscall_read))
                },
        decreases data@.len() - i,
    {
        let io = &data[i].io;
        bytes_written.push(to_mb(io.bytes_written));
        bytes_read.push(to_mb(io.bytes_read));
        disk_written.push(to_mb(plotted(io.disk_written)));
        disk_read.push(to_mb(plotted(io.disk_read)));
        syscall_written.push(to_mb(plotted(io.syscall_written)));
        syscall_read.push(to_mb(plotted(io.syscall_read)));
        i += 1;
    }
    let series = vec![
        Series { label: "bytes_written", points: bytes_written },
        Series { label: "bytes_read", points: bytes_read },
        Series { label: "disk_written", points: disk_written },
        Series { label: "disk_read", points: disk_read },
        Series { label: "syscall_written", points: syscall_written },
        Series { label: "syscall_read", points: syscall_read },
    ];
    let y_len = peak(series.as_slice());
    Chart { caption: "I/O", unit: "MB", x_len: data.len(), y_len, series }
}

} // verus!
