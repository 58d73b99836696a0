//! The shutdown coordinator: how many workers are out, whether they have been
//! told to stop, and when the wait for them is over.
//!
//! The coordinator is a state machine and waits for nothing itself. The task
//! that runs the shutdown feeds it what happens (the run begins, the stop
//! signal arrives, workers have released, the drain timer runs out) and does
//! what it answers.

use vstd::prelude::*;

verus! {

/// Where a coordinator is in its life. It only ever moves down this list.
#[derive(Clone, Copy, Debug, PartialEq, Eq, Structural)]
pub enum Phase {
    /// Nothing has happened yet.
    Idle,
    /// Workers are registering and working; no stop was broadcast.
    Running,
    /// The stop was broadcast; the coordinator waits for its workers.
    ShuttingDown,
    /// Every worker has released its guard, or the wait for them ran out.
    Done,
}

/// A call that the coordinator's protocol does not allow. The call changes
/// nothing.
#[derive(Clone, Copy, Debug, PartialEq, Eq, Structural)]
pub enum CoordinatorMisuse {
    /// `start` was called after the shutdown had begun.
    StartDuringShutdown,
    /// `wait_shutdown` was begun a second time.
    DoubleShutdown,
    /// `wait_shutdown` was given an event before it was begun.
    NotWaiting,
    /// `start` was called with `u32::MAX` workers registered already.
    TooManyWorkers,
}

/// What the task that runs the shutdown reports to the coordinator.
#[derive(Clone, Copy, Debug, PartialEq, Eq, Structural)]
pub enum ShutdownEvent {
    /// The run begins.
    Begin,
    /// The stop signal from outside has arrived.
    Interrupt,
    /// One or more workers have released their guards.
    Released,
    /// The time allowed for the drain has run out.
    Timeout,
}

/// What the task that runs the shutdown does next.
#[derive(Clone, Copy, Debug, PartialEq, Eq, Structural)]
pub enum ShutdownAction {
    /// Wait for the stop signal, or for workers to release.
    AwaitTrigger,
    /// Tell this many workers to stop and start the drain timer. Then wait
    /// for workers to release, or for the timer.
    Broadcast { workers: u32 },
    /// Go on waiting for workers to release, or for the drain timer.
    AwaitDrain,
    /// The run is over. This many workers never released their guards and
    /// are left behind.
    Finish { abandoned: u32 },
}

/// What a [`ShutdownNotify`] stands for.
pub struct CoordinatorView {
    pub phase: Phase,
    /// Workers registered so far.
    pub registered: nat,
    /// Registered workers that have released their guards.
    pub released: nat,
    /// Whether the run has begun.
    pub waiting: bool,
}

impl CoordinatorView {
    /// The counters are in range and agree with the phase.
    pub open spec fn wf(self) -> bool {
        &&& self.released <= self.registered <= u32::MAX
        &&& self.phase == Phase::Idle ==> self.registered == 0 && !self.waiting
        &&& self.phase == Phase::ShuttingDown || self.phase == Phase::Done ==> self.waiting
    }

    /// Workers that hold a guard.
    pub open spec fn outstanding(self) -> nat {
        (self.registered - self.released) as nat
    }

    /// Whether the stop has been broadcast.
    pub open spec fn stopping(self) -> bool {
        self.phase == Phase::ShuttingDown || self.phase == Phase::Done
    }

    /// Whether `start` succeeds.
    pub open spec fn start_result(self) -> Result<(), CoordinatorMisuse> {
        if self.stopping() {
            Err(CoordinatorMisuse::StartDuringShutdown)
        } else if self.registered >= u32::MAX {
            Err(CoordinatorMisuse::TooManyWorkers)
        } else {
            Ok(())
        }
    }

    /// The coordinator after a call of `start`.
    pub open spec fn after_start(self) -> CoordinatorView {
        if self.start_result() is Ok {
            CoordinatorView { phase: Phase::Running, registered: self.registered + 1, ..self }
        } else {
            self
        }
    }

    /// The coordinator after a worker released its guard.
    pub open spec fn after_release(self) -> CoordinatorView {
        if self.released < self.registered {
            CoordinatorView { released: self.released + 1, ..self }
        } else {
            self
        }
    }

    /// The coordinator with its run over.
    pub open spec fn finished(self) -> CoordinatorView {
        CoordinatorView { phase: Phase::Done, waiting: true, ..self }
    }

    /// What `wait_shutdown` answers to `event`.
    pub open spec fn run_result(self, event: ShutdownEvent) -> Result<
        ShutdownAction,
        CoordinatorMisuse,
    > {
        if event == ShutdownEvent::Begin {
            if self.waiting || self.stopping() {
                Err(CoordinatorMisuse::DoubleShutdown)
            } else if self.outstanding() == 0 {
                Ok(ShutdownAction::Finish { abandoned: 0 })
            } else {
                Ok(ShutdownAction::AwaitTrigger)
            }
        } else if !self.waiting {
            Err(CoordinatorMisuse::NotWaiting)
        } else if self.phase == Phase::Done {
            Ok(ShutdownAction::Finish { abandoned: self.outstanding() as u32 })
        } else if self.outstanding() == 0 {
            Ok(ShutdownAction::Finish { abandoned: 0 })
        } else if self.phase == Phase::ShuttingDown {
            if event == ShutdownEvent::Timeout {
                Ok(ShutdownAction::Finish { abandoned: self.outstanding() as u32 })
            } else {
                Ok(ShutdownAction::AwaitDrain)
            }
        } else if event == ShutdownEvent::Interrupt {
            Ok(ShutdownAction::Broadcast { workers: self.outstanding() as u32 })
        } else {
            Ok(ShutdownAction::AwaitTrigger)
        }
    }

    /// The coordinator after `wait_shutdown` was given `event`.
    pub open spec fn after_run(self, event: ShutdownEvent) -> CoordinatorView {
        match self.run_result(event) {
            Err(_) => self,
            Ok(ShutdownAction::Finish { .. }) => self.finished(),
            Ok(ShutdownAction::Broadcast { .. }) => CoordinatorView {
                phase: Phase::ShuttingDown,
                ..self
            },
            Ok(ShutdownAction::AwaitDrain) => self,
            Ok(ShutdownAction::AwaitTrigger) => CoordinatorView {
                phase: Phase::Running,
                waiting: true,
                ..self
            },
        }
    }
}

/// The token that a worker holds from `start` until it is done. Giving it
/// back with `release` is how the worker says that it is done.
#[derive(Debug, PartialEq, Eq)]
pub struct ShutdownGuard {
    ticket: u32,
}

impl ShutdownGuard {
    /// The number of workers that were registered before this one.
    pub closed spec fn ticket(&self) -> nat {
        self.ticket as nat
    }

    /// Whether the worker has been told to stop.
    pub fn notified(&self, coordinator: &ShutdownNotify) -> (stop: bool)
        ensures
            stop == coordinator@.stopping(),
    {
        match coordinator.phase {
            Phase::ShuttingDown | Phase::Done => true,
            _ => false,
        }
    }
}

/// Counts the workers of one run and decides when the run is over.
#[derive(Debug)]
pub struct ShutdownNotify {
    phase: Phase,
    waiters: u32,
    released: u32,
    waiting: bool,
}

impl View for ShutdownNotify {
    type V = CoordinatorView;

    closed spec fn view(&self) -> CoordinatorView {
        CoordinatorView {
            phase: self.phase,
            registered: self.waiters as nat,
            released: self.released as nat,
            waiting: self.waiting,
        }
    }
}

impl ShutdownNotify {
    #[verifier::type_invariant]
    spec fn well_formed(self) -> bool {
        self@.wf()
    }

    /// A coordinator with no workers, whose run has not begun.
    pub fn new() -> (coordinator: ShutdownNotify)
        ensures
            coordinator@ == (CoordinatorView {
                phase: Phase::Idle,
                registered: 0,
                released: 0,
                waiting: false,
            }),
    {
        ShutdownNotify { phase: Phase::Idle, waiters: 0, released: 0, waiting: false }
    }

    /// Where the coordinator is in its life.
    pub fn phase(&self) -> (phase: Phase)
        ensures
            phase == self@.phase,
            self@.wf(),
    {
        proof {
            use_type_invariant(self);
        }
        self.phase
    }

    /// Number of workers that hold a guard.
    pub fn outstanding(&self) -> (n: u32)
        ensures
            n == self@.outstanding(),
    {
        proof {
            use_type_invariant(self);
        }
        self.waiters - self.released
    }

    /// Registers a worker and gives it its guard. Fails, and changes
    /// nothing, once the shutdown has begun.
    pub fn start(&mut self) -> (guard: Result<ShutdownGuard, CoordinatorMisuse>)
        ensures
            final(self)@ == old(self)@.after_start(),
            match guard {
                Ok(g) => old(self)@.start_result() is Ok && g.ticket() == old(self)@.registered,
                Err(misuse) => old(self)@.start_result() == Err::<(), CoordinatorMisuse>(misuse),
            },
    {
        proof {
            use_type_invariant(&*self);
        }
        match self.phase {
            Phase::ShuttingDown | Phase::Done => {
                return Err(CoordinatorMisuse::StartDuringShutdown);
            },
            _ => {},
        }
        if self.waiters == u32::MAX {
            return Err(CoordinatorMisuse::TooManyWorkers);
        }
        let ticket = self.waiters;
        *self = ShutdownNotify {
            phase: Phase::Running,
            waiters: ticket + 1,
            released: self.released,
            waiting: self.waiting,
        };
        Ok(ShutdownGuard { ticket })
    }

    /// Takes back the guard of a worker that is done. Says whether no worker
    /// holds a guard any more, which is when the task that runs the shutdown
    /// has to be told `Released`.
    pub fn release(&mut self, guard: ShutdownGuard) -> (drained: bool)
        ensures
            final(self)@ == old(self)@.after_release(),
            drained == (final(self)@.outstanding() == 0),
    {
        proof {
            use_type_invariant(&*self);
        }
        if self.released < self.waiters {
            *self = ShutdownNotify {
                phase: self.phase,
                waiters: self.waiters,
                released: self.released + 1,
                waiting: self.waiting,
            };
        }
        self.released == self.waiters
    }

    /// The one top-level call, taken apart: tells the task that runs the
    /// shutdown what to do now that `event` has happened.
    ///
    /// The run begins with `Begin`; a second `Begin` is a misuse. The stop
    /// is broadcast when the stop signal arrives, and there is nothing to
    /// broadcast when every worker has released by itself. After the
    /// broadcast the run is over as soon as no worker holds a guard, or when
    /// the drain timer runs out, whichever comes first.
    pub fn wait_shutdown(&mut self, event: ShutdownEvent) -> (action: Result<
        ShutdownAction,
        CoordinatorMisuse,
    >)
        ensures
            action == old(self)@.run_result(event),
            final(self)@ == old(self)@.after_run(event),
    {
        proof {
            use_type_invariant(&*self);
        }
        let outstanding = self.waiters - self.released;
        let stopping = match self.phase {
            Phase::ShuttingDown | Phase::Done => true,
            _ => false,
        };
        let action = match event {
            ShutdownEvent::Begin => {
                if self.waiting || stopping {
                    return Err(CoordinatorMisuse::DoubleShutdown);
                }
                if outstanding == 0 {
                    ShutdownAction::Finish { abandoned: 0 }
                } else {
                    ShutdownAction::AwaitTrigger
                }
            },
            _ => {
                if !self.waiting {
                    return Err(CoordinatorMisuse::NotWaiting);
                }
                match (self.phase, event) {
                    (Phase::Done, _) => ShutdownAction::Finish { abandoned: outstanding },
                    _ if outstanding == 0 => ShutdownAction::Finish { abandoned: 0 },
                    (Phase::ShuttingDown, ShutdownEvent::Timeout) => ShutdownAction::Finish {
                        abandoned: outstanding,
                    },
                    (Phase::ShuttingDown, _) => ShutdownAction::AwaitDrain,
                    (_, ShutdownEvent::Interrupt) => ShutdownAction::Broadcast {
                        workers: outstanding,
                    },
                    _ => ShutdownAction::AwaitTrigger,
                }
            },
        };
        let phase = match action {
            ShutdownAction::Finish { .. } => Phase::Done,
            ShutdownAction::Broadcast { .. } => Phase::ShuttingDown,
            ShutdownAction::AwaitDrain => self.phase,
            ShutdownAction::AwaitTrigger => Phase::Running,
        };
        *self = ShutdownNotify {
            phase,
            waiters: self.waiters,
            released: self.released,
            waiting: true,
        };
        Ok(action)
    }
}

impl Default for ShutdownNotify {
    fn default() -> (coordinator: ShutdownNotify)
        ensures
            coordinator@ == (CoordinatorView {
                phase: Phase::Idle,
                registered: 0,
                released: 0,
                waiting: false,
            }),
    {
        ShutdownNotify::new()
    }
}

/// How far along a phase is.
pub open spec fn rank(phase: Phase) -> nat {
    match phase {
        Phase::Idle => 0,
        Phase::Running => 1,
        Phase::ShuttingDown => 2,
        Phase::Done => 3,
    }
}

/// Whatever is done to a coordinator, it stays well formed and its phase
/// never goes back. In particular a shutdown that has begun stays begun.
pub proof fn lemma_phase_monotone(c: CoordinatorView, event: ShutdownEvent)
    requires
        c.wf(),
    ensures
        c.after_start().wf() && rank(c.after_start().phase) >= rank(c.phase),
        c.after_release().wf() && c.after_release().phase == c.phase,
        c.after_run(event).wf() && rank(c.after_run(event).phase) >= rank(c.phase),
        c.stopping() ==> c.after_start().stopping() && c.after_release().stopping()
            && c.after_run(event).stopping(),
{
}

/// Misuse is harmless: `start` after the shutdown has begun, and a second
/// `Begin`, are refused and leave the coordinator as it was, counters
/// and all.
pub proof fn lemma_misuse_changes_nothing(c: CoordinatorView)
    requires
        c.wf(),
    ensures
        c.stopping() ==> c.start_result() == Err::<(), CoordinatorMisuse>(
            CoordinatorMisuse::StartDuringShutdown,
        ) && c.after_start() == c,
        c.waiting ==> c.run_result(ShutdownEvent::Begin) == Err::<
            ShutdownAction,
            CoordinatorMisuse,
        >(CoordinatorMisuse::DoubleShutdown) && c.after_run(ShutdownEvent::Begin) == c,
        c.after_run(ShutdownEvent::Begin).run_result(ShutdownEvent::Begin) == Err::<
            ShutdownAction,
            CoordinatorMisuse,
        >(CoordinatorMisuse::DoubleShutdown),
{
}

/// The coordinator after `count` workers released their guards.
pub open spec fn after_releases(c: CoordinatorView, count: nat) -> CoordinatorView
    decreases count,
{
    if count == 0 {
        c
    } else {
        after_releases(c, (count - 1) as nat).after_release()
    }
}

/// Releasing `count` guards of those outstanding moves `count` workers from
/// outstanding to released, and nothing else.
pub proof fn lemma_after_releases(c: CoordinatorView, count: nat)
    requires
        c.wf(),
        count <= c.outstanding(),
    ensures
        after_releases(c, count) == (CoordinatorView { released: c.released + count, ..c }),
    decreases count,
{
    if count > 0 {
        lemma_after_releases(c, (count - 1) as nat);
    }
}

/// Fan-out without a stop signal: with `k` workers registered when the run
/// begins, the run is told to wait; once all `k` have released, the next
/// report ends the run with nobody left behind, and no timer was needed.
pub proof fn lemma_all_released_ends_run(c: CoordinatorView, event: ShutdownEvent)
    requires
        c.wf(),
        !c.waiting,
        c.outstanding() > 0,
        event != ShutdownEvent::Begin,
    ensures
        c.run_result(ShutdownEvent::Begin) == Ok::<ShutdownAction, CoordinatorMisuse>(
            ShutdownAction::AwaitTrigger,
        ),
        ({
            let waiting = c.after_run(ShutdownEvent::Begin);
            let drained = after_releases(waiting, c.outstanding());
            &&& drained.outstanding() == 0
            &&& drained.run_result(event) == Ok::<ShutdownAction, CoordinatorMisuse>(
                ShutdownAction::Finish { abandoned: 0 },
            )
            &&& drained.after_run(event).phase == Phase::Done
        }),
{
    let waiting = c.after_run(ShutdownEvent::Begin);
    lemma_after_releases(waiting, c.outstanding());
}

/// Stragglers are waited for until the timer runs out, and no longer: once
/// the stop was broadcast, and while some worker still holds its guard, no
/// report but `Timeout` ends the run, and `Timeout` ends it at once, leaving
/// behind exactly the workers that still hold a guard.
pub proof fn lemma_stragglers_end_at_timeout(c: CoordinatorView, event: ShutdownEvent)
    requires
        c.wf(),
        c.phase == Phase::ShuttingDown,
        c.outstanding() > 0,
    ensures
        event != ShutdownEvent::Timeout ==> c.after_run(event) == c,
        c.run_result(ShutdownEvent::Timeout) == Ok::<ShutdownAction, CoordinatorMisuse>(
            ShutdownAction::Finish { abandoned: c.outstanding() as u32 },
        ),
        c.after_run(ShutdownEvent::Timeout).phase == Phase::Done,
        c.after_run(ShutdownEvent::Timeout).outstanding() == c.outstanding(),
{
}

/// The stop signal starts the drain: with workers outstanding, `Interrupt`
/// has the stop broadcast to exactly those workers.
pub proof fn lemma_interrupt_broadcasts(c: CoordinatorView)
    requires
        c.wf(),
        c.waiting,
        c.phase == Phase::Running,
        c.outstanding() > 0,
    ensures
        c.run_result(ShutdownEvent::Interrupt) == Ok::<ShutdownAction, CoordinatorMisuse>(
            ShutdownAction::Broadcast { workers: c.outstanding() as u32 },
        ),
        c.after_run(ShutdownEvent::Interrupt).phase == Phase::ShuttingDown,
{
}

} // verus!
