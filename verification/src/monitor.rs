//! The sampling loop of one process.
//!
//! A [`Monitor`] does not wait, ask the operating system or touch a file. The
//! task that drives it reports what happened (the timer fired, the process is
//! alive, here is a sample) and does what the monitor answers (persist these
//! bytes, ask whether the process runs, collect a sample, stop).

use crate::codec::lemma_join;
use crate::data::{
    distinct_names, lemma_rows_with, rows_with, CpuTime, CpuUsage, Data, DataView, Io, Memory,
    NetIo, NetIoEntry, NetIoTable,
};
use crate::shutdown_notify::ShutdownGuard;
use crate::store::{
    enc_frame, enc_log, lemma_log_push, lemma_log_roundtrip, replay, storable, StoreStream,
    StoreView,
};
use vstd::prelude::*;
use vstd::string::StringExecFns;

verus! {

/// What went wrong with a monitor.
#[derive(Clone, Copy, Debug, PartialEq, Eq, Structural)]
pub enum MonitorError {
    /// No process has the id or the name that was asked for.
    ProcessNotFound,
    /// The metrics provider could not say whether the process runs.
    ProcessQueryFailed,
    /// The metrics provider could not deliver a sample.
    CollectionFailed,
}

/// The CPU accounting of a process at one instant: what the usage of the
/// next interval is measured against.
#[derive(Clone, Copy, Debug, PartialEq, Eq, Structural)]
pub struct CpuSample {
    /// CPU time consumed so far.
    pub cpu_time: CpuTime,
    /// When the sample was taken, in microseconds on a clock that never
    /// goes back.
    pub at: u64,
    /// Number of logical cores of the host.
    pub cores: u64,
}

/// CPU time that the process had consumed at `sample`, user and system
/// together, in microseconds.
pub open spec fn busy(sample: CpuSample) -> int {
    sample.cpu_time.user + sample.cpu_time.system
}

/// Thousandths of a percent in a whole.
pub const USAGE_SCALE: u64 = 100_000;

/// CPU usage between two samples, in thousandths of a percent: the CPU time
/// consumed in between, as a share of the time that passed on all cores
/// together, rounded down. It is 0 without an earlier sample, and where no
/// time passed, no CPU time was consumed or the host reports no cores. A
/// share too large for a `u64` is reported as `u64::MAX`.
pub open spec fn usage_between(previous: Option<CpuSample>, now: CpuSample) -> u64 {
    match previous {
        None => 0,
        Some(before) => {
            let consumed = busy(now) - busy(before);
            let capacity = (now.at - before.at) * now.cores;
            if consumed <= 0 || capacity <= 0 {
                0
            } else if consumed * USAGE_SCALE / capacity > u64::MAX {
                u64::MAX
            } else {
                (consumed * USAGE_SCALE / capacity) as u64
            }
        },
    }
}

/// Computes [`usage_between`].
pub fn cpu_usage(previous: Option<CpuSample>, now: CpuSample) -> (usage: CpuUsage)
    ensures
        usage.0 == usage_between(previous, now),
{
    let before = match previous {
        Some(before) => before,
        None => {
            return CpuUsage(0);
        },
    };
    let busy_now: u128 = now.cpu_time.user as u128 + now.cpu_time.system as u128;
    let busy_before: u128 = before.cpu_time.user as u128 + before.cpu_time.system as u128;
    if busy_now <= busy_before || now.at <= before.at || now.cores == 0 {
        proof {
            if now.at <= before.at || now.cores == 0 {
                assert((now.at - before.at) * now.cores <= 0) by (nonlinear_arith)
                    requires
                        now.at <= before.at || now.cores == 0,
                        now.cores >= 0,
                ;
            }
        }
        return CpuUsage(0);
    }
    let consumed: u128 = busy_now - busy_before;
    let elapsed: u128 = (now.at - before.at) as u128;
    assert(0 < elapsed * (now.cores as u128) <= 0xffff_ffff_ffff_ffff * 0xffff_ffff_ffff_ffff)
        by (nonlinear_arith)
        requires
            0 < elapsed <= 0xffff_ffff_ffff_ffff,
            0 < now.cores <= 0xffff_ffff_ffff_ffff,
    ;
    let capacity: u128 = elapsed * (now.cores as u128);
    assert(consumed * (USAGE_SCALE as u128) <= 0x2_0000_0000_0000_0000 * 100_000)
        by (nonlinear_arith)
        requires
            0 < consumed <= 0x2_0000_0000_0000_0000,
            USAGE_SCALE == 100_000,
    ;
    let scaled: u128 = consumed * (USAGE_SCALE as u128);
    let share: u128 = scaled / capacity;
    if share > u64::MAX as u128 {
        CpuUsage(u64::MAX)
    } else {
        CpuUsage(share as u64)
    }
}

/// What the metrics provider reported for one tick.
#[derive(Clone, Debug, PartialEq, Eq)]
pub struct RawSample {
    pub memory: Memory,
    pub cpu_time: CpuTime,
    /// When the sample was taken, in microseconds on a clock that never
    /// goes back.
    pub at: u64,
    /// Number of logical cores of the host.
    pub cores: u64,
    pub io: Io,
    /// Interface counters in the order they were reported. Where a name
    /// comes twice, the later report counts.
    pub net_io: Vec<NetIoEntry>,
}

/// The value of a [`RawSample`].
pub struct RawSampleView {
    pub memory: Memory,
    pub cpu_time: CpuTime,
    pub at: u64,
    pub cores: u64,
    pub io: Io,
    pub net_io: Seq<(Seq<char>, NetIo)>,
}

impl View for RawSample {
    type V = RawSampleView;

    open spec fn view(&self) -> RawSampleView {
        RawSampleView {
            memory: self.memory,
            cpu_time: self.cpu_time,
            at: self.at,
            cores: self.cores,
            io: self.io,
            net_io: Seq::new(self.net_io@.len(), |i: int| self.net_io@[i]@),
        }
    }
}

/// Calls `num_cpus::get`. The count is the host's, so the contract claims
/// nothing of it.
#[verifier::external_body]
fn logical_cores() -> (cores: u64) {
    num_cpus::get() as u64
}

impl RawSample {
    /// The sample of a process on this host: what the provider reported,
    /// with the number of logical cores that the host has.
    pub fn new(memory: Memory, cpu_time: CpuTime, at: u64, io: Io, net_io: Vec<NetIoEntry>) -> (sample:
        RawSample)
        ensures
            sample.memory == memory,
            sample.cpu_time == cpu_time,
            sample.at == at,
            sample.io == io,
            sample.net_io == net_io,
    {
        RawSample { memory, cpu_time, at, cores: logical_cores(), io, net_io }
    }
}

impl RawSampleView {
    /// The CPU accounting in the sample.
    pub open spec fn cpu_sample(self) -> CpuSample {
        CpuSample { cpu_time: self.cpu_time, at: self.at, cores: self.cores }
    }
}

/// The table that reports make when they are entered one after another.
pub open spec fn table_of(reports: Seq<(Seq<char>, NetIo)>) -> Seq<(Seq<char>, NetIo)>
    decreases reports.len(),
{
    if reports.len() == 0 {
        Seq::empty()
    } else {
        rows_with(table_of(reports.drop_last()), reports.last().0, reports.last().1)
    }
}

/// A table made of reports has distinct names.
pub proof fn lemma_table_of_distinct(reports: Seq<(Seq<char>, NetIo)>)
    ensures
        distinct_names(table_of(reports)),
    decreases reports.len(),
{
    if reports.len() > 0 {
        lemma_table_of_distinct(reports.drop_last());
        lemma_rows_with(table_of(reports.drop_last()), reports.last().0, reports.last().1);
    }
}

/// The snapshot that a sample makes, given the CPU accounting of the tick
/// before it.
pub open spec fn snapshot(previous: Option<CpuSample>, raw: RawSampleView) -> DataView {
    DataView {
        memory: raw.memory,
        cpu_time: raw.cpu_time,
        cpu_usage: CpuUsage(usage_between(previous, raw.cpu_sample())),
        io: raw.io,
        net_io: table_of(raw.net_io),
    }
}

/// Builds the snapshot of `raw`.
pub fn assemble(previous: Option<CpuSample>, raw: &RawSample) -> (data: Data)
    ensures
        data@ == snapshot(previous, raw@),
{
    let now = CpuSample { cpu_time: raw.cpu_time, at: raw.at, cores: raw.cores };
    let ghost reports = raw@.net_io;
    let mut net_io = NetIoTable::new();
    let mut i: usize = 0;
    assert(reports.take(0).len() == 0);
    while i < raw.net_io.len()
        invariant
            i <= raw.net_io@.len(),
            reports == raw@.net_io,
            net_io@ == table_of(reports.take(i as int)),
        decreases raw.net_io@.len() - i,
    {
        let entry = &raw.net_io[i];
        net_io.insert(entry.name.clone(), entry.counters);
        proof {
            let next = reports.take(i + 1);
            assert(next.drop_last() =~= reports.take(i as int));
            assert(next.last() == entry@);
        }
        i += 1;
    }
    assert(reports.take(i as int) =~= reports);
    Data {
        memory: raw.memory,
        cpu_time: raw.cpu_time,
        cpu_usage: cpu_usage(previous, now),
        io: raw.io,
        net_io,
    }
}

/// One row of the process table: a process id, and the name of the process
/// where the provider could read it.
#[derive(Clone, Debug, PartialEq, Eq)]
pub struct ProcessEntry {
    pub pid: i32,
    pub name: Option<String>,
}

impl ProcessEntry {
    /// Whether the process is known under `name`.
    pub open spec fn named(&self, name: Seq<char>) -> bool {
        self.name is Some && self.name.unwrap()@ == name
    }
}

/// A monitor that could not be started. The guard that was meant for it
/// comes back, to be released.
#[derive(Debug, PartialEq, Eq)]
pub struct NotStarted {
    pub error: MonitorError,
    pub guard: ShutdownGuard,
}

/// The decimal digits of `n`.
pub open spec fn decimal(n: nat) -> Seq<char>
    decreases n,
{
    if n < 10 {
        seq![digit(n)]
    } else {
        decimal(n / 10).push(digit(n % 10))
    }
}

/// The character of a digit.
pub open spec fn digit(d: nat) -> char {
    if d == 0 {
        '0'
    } else if d == 1 {
        '1'
    } else if d == 2 {
        '2'
    } else if d == 3 {
        '3'
    } else if d == 4 {
        '4'
    } else if d == 5 {
        '5'
    } else if d == 6 {
        '6'
    } else if d == 7 {
        '7'
    } else if d == 8 {
        '8'
    } else {
        '9'
    }
}

/// A process id as it is written: in decimal, with a minus sign where it is
/// negative.
pub open spec fn pid_text(pid: i32) -> Seq<char> {
    if pid < 0 {
        seq!['-'] + decimal((-pid) as nat)
    } else {
        decimal(pid as nat)
    }
}

/// The name of the log of a process: its id, a hyphen, the start time and
/// the extension.
pub open spec fn log_name(pid: i32, started_at: Seq<char>) -> Seq<char> {
    pid_text(pid) + seq!['-'] + started_at + ".clairvoyance"@
}

/// Calls `Local::now` of `chrono` and has the time written as year, month
/// and day with hyphens, an underscore, and hour, minute and second with
/// hyphens. The text depends on the clock and the time zone of the host, so
/// the contract claims nothing of it.
#[verifier::external_body]
fn local_timestamp() -> (stamp: String) {
    chrono::Local::now().format("%F_%H-%M-%S").to_string()
}

/// The text of a digit.
fn digit_text(d: u32) -> (text: &'static str)
    requires
        d < 10,
    ensures
        text@ == seq![digit(d as nat)],
{
    proof {
        reveal_strlit("0");
        reveal_strlit("1");
        reveal_strlit("2");
        reveal_strlit("3");
        reveal_strlit("4");
        reveal_strlit("5");
        reveal_strlit("6");
        reveal_strlit("7");
        reveal_strlit("8");
        reveal_strlit("9");
    }
    let text = match d {
        0 => "0",
        1 => "1",
        2 => "2",
        3 => "3",
        4 => "4",
        5 => "5",
        6 => "6",
        7 => "7",
        8 => "8",
        _ => "9",
    };
    assert(text@ =~= seq![digit(d as nat)]);
    text
}

/// Adds the decimal digits of `n` at the end of `out`.
fn push_decimal(out: &mut String, n: u32)
    ensures
        final(out)@ == old(out)@ + decimal(n as nat),
    decreases n,
{
    let ghost base = out@;
    if n >= 10 {
        push_decimal(out, n / 10);
    }
    out.append(digit_text(n % 10));
    proof {
        if n >= 10 {
            assert(base + decimal((n / 10) as nat) + seq![digit((n % 10) as nat)] =~= base
                + decimal((n / 10) as nat).push(digit((n % 10) as nat)));
        }
    }
}

/// What a monitor is waiting to be told.
#[derive(Clone, Copy, Debug, PartialEq, Eq, Structural)]
pub enum Stage {
    /// The next tick of the timer, or the stop.
    AwaitTick,
    /// Whether the process still runs.
    AwaitLiveness,
    /// The sample of this tick.
    AwaitSample,
    /// Nothing: the loop is over.
    Stopped,
}

/// Why a sampling loop ended.
#[derive(Clone, Copy, Debug, PartialEq, Eq, Structural)]
pub enum StopReason {
    /// The coordinator told the loop to stop.
    Shutdown,
    /// The process is gone.
    ProcessExited,
    /// The metrics provider failed. The loop does not try again.
    Failed(MonitorError),
}

/// What the task that drives a monitor reports to it.
#[derive(Clone, Debug, PartialEq, Eq)]
pub enum MonitorEvent {
    /// The loop is at its top: the timer fired, or the stop was signaled.
    /// `shutdown` says whether the coordinator has signaled the stop.
    Wake { shutdown: bool },
    /// Whether the process runs, or `None` where the provider could not say.
    Liveness(Option<bool>),
    /// The provider's sample, or `None` where it could not deliver one.
    Sample(Option<RawSample>),
}

/// The value of a [`MonitorEvent`].
pub enum EventView {
    Wake { shutdown: bool },
    Liveness(Option<bool>),
    Sample(Option<RawSampleView>),
}

impl View for MonitorEvent {
    type V = EventView;

    open spec fn view(&self) -> EventView {
        match self {
            MonitorEvent::Wake { shutdown } => EventView::Wake { shutdown: *shutdown },
            MonitorEvent::Liveness(alive) => EventView::Liveness(*alive),
            MonitorEvent::Sample(Some(raw)) => EventView::Sample(Some(raw@)),
            MonitorEvent::Sample(None) => EventView::Sample(None),
        }
    }
}

/// What the task that drives a monitor does next.
#[derive(Debug, PartialEq, Eq)]
pub enum MonitorAction {
    /// Wait for the timer or the stop, and report `Wake`.
    AwaitTick,
    /// Where a flush is forced on this tick, make the bytes of `forced`
    /// durable. Then ask the provider whether the process runs, and report
    /// `Liveness`.
    CheckRunning { forced: Option<Vec<u8>> },
    /// Ask the provider for a sample, and report `Sample`.
    Collect,
    /// The loop is over. Make the bytes of `flush` durable, and only then
    /// release `guard`.
    Stop { reason: StopReason, flush: Vec<u8>, guard: Option<ShutdownGuard> },
    /// The report did not fit what the monitor was waiting for, and was
    /// ignored.
    Unexpected,
}

/// The value of a [`MonitorAction`]. A guard is stood for by its ticket.
pub enum ActionView {
    AwaitTick,
    CheckRunning { forced: Option<Seq<u8>> },
    Collect,
    Stop { reason: StopReason, flush: Seq<u8>, guard: Option<nat> },
    Unexpected,
}

impl View for MonitorAction {
    type V = ActionView;

    open spec fn view(&self) -> ActionView {
        match self {
            MonitorAction::AwaitTick => ActionView::AwaitTick,
            MonitorAction::CheckRunning { forced: Some(bytes) } => ActionView::CheckRunning {
                forced: Some(bytes@),
            },
            MonitorAction::CheckRunning { forced: None } => ActionView::CheckRunning {
                forced: None,
            },
            MonitorAction::Collect => ActionView::Collect,
            MonitorAction::Stop { reason, flush, guard } => ActionView::Stop {
                reason: *reason,
                flush: flush@,
                guard: match guard {
                    Some(g) => Some(g.ticket()),
                    None => None,
                },
            },
            MonitorAction::Unexpected => ActionView::Unexpected,
        }
    }
}

/// Number of ticks from one forced flush to the next.
pub const FLUSH_EVERY: u8 = 3;

/// What a [`Monitor`] stands for.
pub struct MonitorView {
    pub pid: i32,
    /// When the loop was started, as the text that names its log.
    pub started_at: Seq<char>,
    pub stage: Stage,
    /// Ticks counted so far.
    pub ticks: nat,
    /// Ticks counted since the last forced flush.
    pub since_flush: nat,
    /// Forced flushes so far.
    pub flushes: nat,
    /// Snapshots written so far.
    pub samples: nat,
    /// The CPU accounting of the last sample.
    pub baseline: Option<CpuSample>,
    pub store: StoreView,
    /// The ticket of the guard that the monitor holds.
    pub guard: Option<nat>,
}

impl MonitorView {
    /// A monitor that has not been told anything yet.
    pub open spec fn fresh(pid: i32, started_at: Seq<char>, ticket: nat) -> MonitorView {
        MonitorView {
            pid,
            started_at,
            stage: Stage::AwaitTick,
            ticks: 0,
            since_flush: 0,
            flushes: 0,
            samples: 0,
            baseline: None,
            store: StoreView {
                durable: Seq::empty(),
                buffered: Seq::empty(),
                unread: Seq::empty(),
            },
            guard: Some(ticket),
        }
    }

    /// The counters agree with each other: a flush was forced on every third
    /// tick, and on no other.
    pub open spec fn wf(self) -> bool {
        &&& self.since_flush == self.ticks % (FLUSH_EVERY as nat)
        &&& self.flushes == self.ticks / (FLUSH_EVERY as nat)
        &&& self.stage != Stage::Stopped ==> self.guard is Some
    }

    /// Whether the next tick forces a flush.
    pub open spec fn flush_due(self) -> bool {
        self.since_flush + 1 >= FLUSH_EVERY
    }

    /// Why the loop ends on `event`, if it does.
    pub open spec fn stops_on(self, event: EventView) -> Option<StopReason> {
        match (self.stage, event) {
            (Stage::AwaitTick, EventView::Wake { shutdown: true }) => Some(StopReason::Shutdown),
            (Stage::AwaitLiveness, EventView::Liveness(Some(false))) => Some(
                StopReason::ProcessExited,
            ),
            (Stage::AwaitLiveness, EventView::Liveness(None)) => Some(
                StopReason::Failed(MonitorError::ProcessQueryFailed),
            ),
            (Stage::AwaitSample, EventView::Sample(None)) => Some(
                StopReason::Failed(MonitorError::CollectionFailed),
            ),
            _ => None,
        }
    }

    /// The monitor with its loop over: flushed, and without its guard.
    pub open spec fn stopped(self) -> MonitorView {
        MonitorView { stage: Stage::Stopped, store: self.store.after_flush(), guard: None, ..self }
    }

    /// The monitor after one more tick was counted.
    pub open spec fn ticked(self) -> MonitorView {
        if self.flush_due() {
            MonitorView {
                stage: Stage::AwaitLiveness,
                ticks: self.ticks + 1,
                since_flush: 0,
                flushes: self.flushes + 1,
                store: self.store.after_flush(),
                ..self
            }
        } else {
            MonitorView {
                stage: Stage::AwaitLiveness,
                ticks: self.ticks + 1,
                since_flush: self.since_flush + 1,
                ..self
            }
        }
    }

    /// The monitor after the snapshot of `raw` was written.
    pub open spec fn sampled(self, raw: RawSampleView) -> MonitorView {
        MonitorView {
            stage: Stage::AwaitTick,
            samples: self.samples + 1,
            baseline: Some(raw.cpu_sample()),
            store: self.store.after_write(snapshot(self.baseline, raw)),
            ..self
        }
    }

    /// The monitor after `event` was reported to it.
    pub open spec fn after_run(self, event: EventView) -> MonitorView {
        if self.stops_on(event) is Some {
            self.stopped()
        } else {
            match (self.stage, event) {
                (Stage::AwaitTick, EventView::Wake { shutdown: false }) => self.ticked(),
                (Stage::AwaitLiveness, EventView::Liveness(Some(true))) => MonitorView {
                    stage: Stage::AwaitSample,
                    ..self
                },
                (Stage::AwaitSample, EventView::Sample(Some(raw))) => self.sampled(raw),
                _ => self,
            }
        }
    }

    /// What the monitor answers when `event` is reported to it.
    pub open spec fn action(self, event: EventView) -> ActionView {
        match self.stops_on(event) {
            Some(reason) => ActionView::Stop {
                reason,
                flush: self.store.buffered,
                guard: self.guard,
            },
            None => match (self.stage, event) {
                (Stage::AwaitTick, EventView::Wake { shutdown: false }) => ActionView::CheckRunning {
                    forced: if self.flush_due() {
                        Some(self.store.buffered)
                    } else {
                        None
                    },
                },
                (Stage::AwaitLiveness, EventView::Liveness(Some(true))) => ActionView::Collect,
                (Stage::AwaitSample, EventView::Sample(Some(_))) => ActionView::AwaitTick,
                _ => ActionView::Unexpected,
            },
        }
    }
}

/// The sampling loop of one process: its tick count, its CPU baseline, its
/// record log and its guard.
pub struct Monitor {
    pid: i32,
    started_at: String,
    stage: Stage,
    since_flush: u8,
    last_cpu: Option<CpuSample>,
    store_stream: StoreStream,
    guard: Option<ShutdownGuard>,
    ticks: Ghost<nat>,
    flushes: Ghost<nat>,
    samples: Ghost<nat>,
}

impl View for Monitor {
    type V = MonitorView;

    closed spec fn view(&self) -> MonitorView {
        MonitorView {
            pid: self.pid,
            started_at: self.started_at@,
            stage: self.stage,
            ticks: self.ticks@,
            since_flush: self.since_flush as nat,
            flushes: self.flushes@,
            samples: self.samples@,
            baseline: self.last_cpu,
            store: self.store_stream@,
            guard: match self.guard {
                Some(g) => Some(g.ticket()),
                None => None,
            },
        }
    }
}

impl Monitor {
    /// A monitor for the process `pid` whose loop started at `started_at`,
    /// with an empty log. `started_at` stands in the name of the log as it
    /// is.
    pub fn with_start(pid: i32, started_at: String, guard: ShutdownGuard) -> (monitor: Monitor)
        ensures
            monitor@ == MonitorView::fresh(pid, started_at@, guard.ticket()),
            monitor@.wf(),
    {
        Monitor {
            pid,
            started_at,
            stage: Stage::AwaitTick,
            since_flush: 0,
            last_cpu: None,
            store_stream: StoreStream::create(),
            guard: Some(guard),
            ticks: Ghost(0),
            flushes: Ghost(0),
            samples: Ghost(0),
        }
    }

    /// A monitor for the process `pid` whose loop starts now, by the clock
    /// of the host, with an empty log.
    pub fn new(pid: i32, guard: ShutdownGuard) -> (monitor: Monitor)
        ensures
            monitor@ == MonitorView::fresh(pid, monitor@.started_at, guard.ticket()),
            monitor@.wf(),
    {
        Monitor::with_start(pid, local_timestamp(), guard)
    }

    /// A monitor for the process with the id `pid`, if the process table
    /// has it. Its loop starts now.
    pub fn from_pid(pid: i32, processes: &[ProcessEntry], guard: ShutdownGuard) -> (started: Result<
        Monitor,
        NotStarted,
    >)
        ensures
            match started {
                Ok(monitor) => {
                    &&& exists|i: int| 0 <= i < processes@.len() && processes@[i].pid == pid
                    &&& monitor@ == MonitorView::fresh(
                        pid,
                        monitor@.started_at,
                        guard.ticket(),
                    )
                },
                Err(failure) => {
                    &&& forall|i: int| 0 <= i < processes@.len() ==> processes@[i].pid != pid
                    &&& failure.error == MonitorError::ProcessNotFound
                    &&& failure.guard == guard
                },
            },
    {
        let mut i: usize = 0;
        while i < processes.len()
            invariant
                i <= processes@.len(),
                forall|k: int| 0 <= k < i ==> processes@[k].pid != pid,
            decreases processes@.len() - i,
        {
            if processes[i].pid == pid {
                return Ok(Monitor::new(pid, guard));
            }
            i += 1;
        }
        Err(NotStarted { error: MonitorError::ProcessNotFound, guard })
    }

    /// A monitor for the first process of the table that is known under
    /// exactly the name `name`. Processes whose name could not be read are
    /// passed over. The loop starts now.
    pub fn from_name(name: &str, processes: &[ProcessEntry], guard: ShutdownGuard) -> (started:
        Result<Monitor, NotStarted>)
        ensures
            match started {
                Ok(monitor) => exists|i: int|
                    {
                        &&& 0 <= i < processes@.len()
                        &&& #[trigger] processes@[i].named(name@)
                        &&& forall|k: int| 0 <= k < i ==> !processes@[k].named(name@)
                        &&& monitor@ == MonitorView::fresh(
                            processes@[i].pid,
                            monitor@.started_at,
                            guard.ticket(),
                        )
                    },
                Err(failure) => {
                    &&& forall|i: int| 0 <= i < processes@.len() ==> !processes@[i].named(name@)
                    &&& failure.error == MonitorError::ProcessNotFound
                    &&& failure.guard == guard
                },
            },
    {
        let wanted = name.to_owned();
        let mut i: usize = 0;
        while i < processes.len()
            invariant
                i <= processes@.len(),
                wanted@ == name@,
                forall|k: int| 0 <= k < i ==> !processes@[k].named(name@),
            decreases processes@.len() - i,
        {
            let found = match &processes[i].name {
                Some(known) => *known == wanted,
                None => false,
            };
            if found {
                assert(processes@[i as int].named(name@));
                return Ok(Monitor::new(processes[i].pid, guard));
            }
            i += 1;
        }
        Err(NotStarted { error: MonitorError::ProcessNotFound, guard })
    }

    /// The name of the file that the log of this loop goes to.
    pub fn file_name(&self) -> (name: String)
        ensures
            name@ == log_name(self@.pid, self@.started_at),
    {
        let mut name = String::new();
        let magnitude: u32 = if self.pid < 0 {
            name.append("-");
            (-(self.pid as i64)) as u32
        } else {
            self.pid as u32
        };
        proof {
            reveal_strlit("-");
            assert(name@ + decimal(magnitude as nat) =~= pid_text(self.pid));
        }
        push_decimal(&mut name, magnitude);
        name.append("-");
        name.append(self.started_at.as_str());
        name.append(".clairvoyance");
        name
    }

    /// The id of the process.
    pub fn pid(&self) -> (pid: i32)
        ensures
            pid == self@.pid,
    {
        self.pid
    }

    /// What the monitor is waiting to be told.
    pub fn stage(&self) -> (stage: Stage)
        ensures
            stage == self@.stage,
    {
        self.stage
    }

    /// Builds the snapshot of `raw` against the CPU accounting of the tick
    /// before, and keeps the accounting of `raw` for the next tick. The
    /// first snapshot of a loop has usage 0.
    pub fn collect(&mut self, raw: &RawSample) -> (data: Data)
        ensures
            data@ == snapshot(old(self)@.baseline, raw@),
            old(self)@.baseline is None ==> data@.cpu_usage == CpuUsage(0),
            final(self)@ == (MonitorView { baseline: Some(raw@.cpu_sample()), ..old(self)@ }),
    {
        let data = assemble(self.last_cpu, raw);
        self.last_cpu = Some(CpuSample { cpu_time: raw.cpu_time, at: raw.at, cores: raw.cores });
        data
    }

    /// Ends the loop: hands out what is buffered, and the guard.
    fn stop(&mut self, reason: StopReason) -> (action: MonitorAction)
        ensures
            final(self)@ == old(self)@.stopped(),
            action@ == (ActionView::Stop {
                reason,
                flush: old(self)@.store.buffered,
                guard: old(self)@.guard,
            }),
    {
        let flush = self.store_stream.flush();
        let mut guard = None;
        core::mem::swap(&mut guard, &mut self.guard);
        self.stage = Stage::Stopped;
        MonitorAction::Stop { reason, flush, guard }
    }

    /// One step of the loop: takes what happened and says what to do next.
    ///
    /// At the top of the loop the stop comes first. Else the tick is
    /// counted, and every third tick hands out the buffered bytes to be
    /// made durable. Then the process is asked for: a process that is gone,
    /// or that cannot be asked for, ends the loop. Then the sample is asked
    /// for: a failed collection ends the loop, a sample is written to the
    /// log. Whatever ends the loop, the buffered bytes are handed out once
    /// more, together with the guard.
    pub fn run(&mut self, event: MonitorEvent) -> (action: MonitorAction)
        ensures
            final(self)@ == old(self)@.after_run(event@),
            action@ == old(self)@.action(event@),
            old(self)@.wf() ==> final(self)@.wf(),
    {
        proof {
            if self@.wf() {
                lemma_run_keeps_wf(self@, event@);
            }
        }
        match (self.stage, event) {
            (Stage::AwaitTick, MonitorEvent::Wake { shutdown }) => {
                if shutdown {
                    return self.stop(StopReason::Shutdown);
                }
                self.ticks = Ghost(self.ticks@ + 1);
                self.stage = Stage::AwaitLiveness;
                if self.since_flush >= FLUSH_EVERY - 1 {
                    self.since_flush = 0;
                    self.flushes = Ghost(self.flushes@ + 1);
                    let flush = self.store_stream.flush();
                    MonitorAction::CheckRunning { forced: Some(flush) }
                } else {
                    self.since_flush += 1;
                    MonitorAction::CheckRunning { forced: None }
                }
            },
            (Stage::AwaitLiveness, MonitorEvent::Liveness(alive)) => {
                match alive {
                    Some(true) => {
                        self.stage = Stage::AwaitSample;
                        MonitorAction::Collect
                    },
                    Some(false) => self.stop(StopReason::ProcessExited),
                    None => self.stop(StopReason::Failed(MonitorError::ProcessQueryFailed)),
                }
            },
            (Stage::AwaitSample, MonitorEvent::Sample(sample)) => {
                match sample {
                    Some(raw) => {
                        let data = self.collect(&raw);
                        self.store_stream.write(&data);
                        self.samples = Ghost(self.samples@ + 1);
                        self.stage = Stage::AwaitTick;
                        MonitorAction::AwaitTick
                    },
                    None => self.stop(StopReason::Failed(MonitorError::CollectionFailed)),
                }
            },
            _ => MonitorAction::Unexpected,
        }
    }
}

/// A step keeps the counters of a monitor in agreement.
pub proof fn lemma_run_keeps_wf(monitor: MonitorView, event: EventView)
    requires
        monitor.wf(),
    ensures
        monitor.after_run(event).wf(),
{
}

/// The usage formula. With an earlier sample, CPU time consumed since and
/// time passed since, the usage is the consumed time in thousandths of a
/// percent of the time that passed on all cores together, rounded down; it
/// is at most 100 percent where the process consumed no more than the cores
/// could give. Without an earlier sample the usage is 0.
pub proof fn lemma_usage_formula(before: CpuSample, now: CpuSample)
    requires
        busy(before) < busy(now),
        before.at < now.at,
        now.cores > 0,
    ensures
        usage_between(None, now) == 0,
        ({
            let consumed = busy(now) - busy(before);
            let capacity = (now.at - before.at) * now.cores;
            let usage = usage_between(Some(before), now);
            &&& capacity > 0
            &&& usage < u64::MAX ==> usage * capacity <= consumed * USAGE_SCALE < (usage + 1)
                * capacity
            &&& consumed <= capacity ==> usage <= USAGE_SCALE
        }),
{
    let consumed = busy(now) - busy(before);
    let elapsed = now.at - before.at;
    let capacity = elapsed * now.cores;
    assert(capacity > 0) by (nonlinear_arith)
        requires
            capacity == elapsed * now.cores,
            elapsed > 0,
            now.cores > 0,
    ;
    let scaled = consumed * USAGE_SCALE;
    let share = scaled / capacity;
    assert(share * capacity <= scaled < (share + 1) * capacity) by (nonlinear_arith)
        requires
            share == scaled / capacity,
            capacity > 0,
    ;
    if consumed <= capacity {
        assert(share <= USAGE_SCALE) by (nonlinear_arith)
            requires
                share * capacity <= scaled,
                scaled == consumed * USAGE_SCALE,
                consumed <= capacity,
                capacity > 0,
                USAGE_SCALE == 100_000,
        ;
    }
}

/// The flush cadence: a tick forces a flush exactly when it is the third
/// since the last one, the bytes handed out are all that was buffered, and
/// the process is asked for either way.
pub proof fn lemma_flush_cadence(monitor: MonitorView)
    requires
        monitor.wf(),
        monitor.stage == Stage::AwaitTick,
    ensures
        monitor.action(EventView::Wake { shutdown: false }) == (ActionView::CheckRunning {
            forced: if (monitor.ticks + 1) % 3 == 0 {
                Some(monitor.store.buffered)
            } else {
                None
            },
        }),
        monitor.after_run(EventView::Wake { shutdown: false }).store.written()
            == monitor.store.written(),
{
    let after = monitor.after_run(EventView::Wake { shutdown: false });
    if monitor.flush_due() {
        assert(after.store.durable + after.store.buffered =~= monitor.store.durable
            + monitor.store.buffered);
    }
}

/// The final flush: whatever ends the loop, the answer is `Stop`, it hands
/// out all that was buffered together with the guard, and with it
/// everything that was written is durable.
pub proof fn lemma_stop_flushes(monitor: MonitorView, event: EventView)
    requires
        monitor.stops_on(event) is Some,
    ensures
        monitor.action(event) == (ActionView::Stop {
            reason: monitor.stops_on(event).unwrap(),
            flush: monitor.store.buffered,
            guard: monitor.guard,
        }),
        monitor.after_run(event).stage == Stage::Stopped,
        monitor.after_run(event).store.durable == monitor.store.written(),
        monitor.after_run(event).store.buffered == Seq::<u8>::empty(),
{
}

/// The stop comes first: a wake-up with the stop signaled ends the loop
/// without counting a tick or taking a sample.
pub proof fn lemma_shutdown_first(monitor: MonitorView)
    requires
        monitor.stage == Stage::AwaitTick,
    ensures
        monitor.stops_on(EventView::Wake { shutdown: true }) == Some(StopReason::Shutdown),
        monitor.after_run(EventView::Wake { shutdown: true }).ticks == monitor.ticks,
        monitor.after_run(EventView::Wake { shutdown: true }).samples == monitor.samples,
{
}

/// The monitor after one tick on which nothing went wrong: the timer fired
/// without a stop, the process was alive, and `raw` was collected.
pub open spec fn after_quiet_tick(monitor: MonitorView, raw: RawSampleView) -> MonitorView {
    monitor.after_run(EventView::Wake { shutdown: false }).after_run(
        EventView::Liveness(Some(true)),
    ).after_run(EventView::Sample(Some(raw)))
}

/// The monitor after one quiet tick for each of `raws`.
pub open spec fn after_quiet_ticks(monitor: MonitorView, raws: Seq<RawSampleView>) -> MonitorView
    decreases raws.len(),
{
    if raws.len() == 0 {
        monitor
    } else {
        after_quiet_tick(after_quiet_ticks(monitor, raws.drop_last()), raws.last())
    }
}

/// The CPU accounting that is kept after `raws` were collected.
pub open spec fn baseline_after(baseline: Option<CpuSample>, raws: Seq<RawSampleView>) -> Option<
    CpuSample,
> {
    if raws.len() == 0 {
        baseline
    } else {
        Some(raws.last().cpu_sample())
    }
}

/// The snapshots that `raws` make when they are collected one after
/// another, the first against `baseline`.
pub open spec fn snapshots(baseline: Option<CpuSample>, raws: Seq<RawSampleView>) -> Seq<DataView>
    decreases raws.len(),
{
    if raws.len() == 0 {
        Seq::empty()
    } else {
        snapshots(baseline, raws.drop_last()).push(
            snapshot(baseline_after(baseline, raws.drop_last()), raws.last()),
        )
    }
}

/// A quiet run: after `n` ticks on which nothing went wrong, `n` ticks were
/// counted, `n` snapshots were written, in order, at the end of the log, a
/// flush was forced on every third tick and on no other, and the monitor
/// waits for the next tick with its guard in hand.
pub proof fn lemma_quiet_ticks(monitor: MonitorView, raws: Seq<RawSampleView>)
    requires
        monitor.wf(),
        monitor.stage == Stage::AwaitTick,
    ensures
        ({
            let after = after_quiet_ticks(monitor, raws);
            &&& after.wf()
            &&& after.stage == Stage::AwaitTick
            &&& after.ticks == monitor.ticks + raws.len()
            &&& after.samples == monitor.samples + raws.len()
            &&& after.flushes == (monitor.ticks + raws.len()) / 3
            &&& after.baseline == baseline_after(monitor.baseline, raws)
            &&& after.guard == monitor.guard
            &&& after.store.unread == monitor.store.unread
            &&& after.store.written() == monitor.store.written() + enc_log(
                snapshots(monitor.baseline, raws),
            )
        }),
    decreases raws.len(),
{
    if raws.len() == 0 {
        assert(enc_log(snapshots(monitor.baseline, raws)) =~= Seq::<u8>::empty());
        assert(monitor.store.written() + Seq::<u8>::empty() =~= monitor.store.written());
    } else {
        let front = raws.drop_last();
        lemma_quiet_ticks(monitor, front);
        let before = after_quiet_ticks(monitor, front);
        let ticked = before.after_run(EventView::Wake { shutdown: false });
        lemma_flush_cadence(before);
        lemma_run_keeps_wf(before, EventView::Wake { shutdown: false });
        let asked = ticked.after_run(EventView::Liveness(Some(true)));
        let d = snapshot(before.baseline, raws.last());
        let sofar = snapshots(monitor.baseline, front);
        lemma_log_push(sofar, d);
        lemma_join(ticked.store.durable, ticked.store.buffered, enc_frame(d));
        lemma_join(monitor.store.written(), enc_log(sofar), enc_frame(d));
    }
}

/// A quiet run can be replayed: the log of a loop that started empty and
/// had nothing but quiet ticks replays to the snapshots of its samples, in
/// order, with nothing left over.
pub proof fn lemma_quiet_run_replays(monitor: MonitorView, raws: Seq<RawSampleView>)
    requires
        monitor.wf(),
        monitor.stage == Stage::AwaitTick,
        monitor.store.written() == Seq::<u8>::empty(),
        forall|i: int|
            0 <= i < raws.len() ==> storable(#[trigger] snapshots(monitor.baseline, raws)[i]),
    ensures
        snapshots(monitor.baseline, raws).len() == raws.len(),
        replay(after_quiet_ticks(monitor, raws).store.written()) == (
            snapshots(monitor.baseline, raws),
            Seq::<u8>::empty(),
        ),
{
    lemma_quiet_ticks(monitor, raws);
    lemma_snapshots_len(monitor.baseline, raws);
    lemma_log_roundtrip(snapshots(monitor.baseline, raws));
    assert(Seq::<u8>::empty() + enc_log(snapshots(monitor.baseline, raws)) =~= enc_log(
        snapshots(monitor.baseline, raws),
    ));
}

/// Every sample makes one snapshot.
pub proof fn lemma_snapshots_len(baseline: Option<CpuSample>, raws: Seq<RawSampleView>)
    ensures
        snapshots(baseline, raws).len() == raws.len(),
    decreases raws.len(),
{
    if raws.len() > 0 {
        lemma_snapshots_len(baseline, raws.drop_last());
    }
}

} // verus!
