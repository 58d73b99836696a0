use clairvoyance::shutdown_notify::{
    CoordinatorMisuse, Phase, ShutdownAction, ShutdownEvent, ShutdownGuard, ShutdownNotify,
};

fn with_workers(count: usize) -> (ShutdownNotify, Vec<ShutdownGuard>) {
    let mut coordinator = ShutdownNotify::new();
    let guards = (0..count).map(|_| coordinator.start().unwrap()).collect();
    (coordinator, guards)
}

#[test]
fn new_coordinator_is_idle() {
    let coordinator = ShutdownNotify::new();
    assert_eq!(coordinator.phase(), Phase::Idle);
    assert_eq!(coordinator.outstanding(), 0);
    assert_eq!(ShutdownNotify::default().phase(), Phase::Idle);
}

#[test]
fn start_counts_workers() {
    let (coordinator, guards) = with_workers(3);
    assert_eq!(coordinator.phase(), Phase::Running);
    assert_eq!(coordinator.outstanding(), 3);
    assert!(guards.iter().all(|guard| !guard.notified(&coordinator)));
}

#[test]
fn all_workers_release_without_signal() {
    let (mut coordinator, mut guards) = with_workers(3);
    assert_eq!(
        coordinator.wait_shutdown(ShutdownEvent::Begin),
        Ok(ShutdownAction::AwaitTrigger)
    );
    assert!(!coordinator.release(guards.pop().unwrap()));
    assert_eq!(
        coordinator.wait_shutdown(ShutdownEvent::Released),
        Ok(ShutdownAction::AwaitTrigger)
    );
    assert!(!coordinator.release(guards.pop().unwrap()));
    assert!(coordinator.release(guards.pop().unwrap()));
    assert_eq!(coordinator.phase(), Phase::Running);
    assert_eq!(
        coordinator.wait_shutdown(ShutdownEvent::Released),
        Ok(ShutdownAction::Finish { abandoned: 0 })
    );
    assert_eq!(coordinator.phase(), Phase::Done);
}

#[test]
fn stragglers_are_left_behind_at_timeout() {
    let (mut coordinator, mut guards) = with_workers(3);
    coordinator.wait_shutdown(ShutdownEvent::Begin).unwrap();
    assert_eq!(
        coordinator.wait_shutdown(ShutdownEvent::Interrupt),
        Ok(ShutdownAction::Broadcast { workers: 3 })
    );
    assert_eq!(coordinator.phase(), Phase::ShuttingDown);
    assert!(guards.iter().all(|guard| guard.notified(&coordinator)));
    assert!(!coordinator.release(guards.pop().unwrap()));
    assert_eq!(
        coordinator.wait_shutdown(ShutdownEvent::Released),
        Ok(ShutdownAction::AwaitDrain)
    );
    assert_eq!(
        coordinator.wait_shutdown(ShutdownEvent::Interrupt),
        Ok(ShutdownAction::AwaitDrain)
    );
    assert_eq!(coordinator.phase(), Phase::ShuttingDown);
    assert_eq!(
        coordinator.wait_shutdown(ShutdownEvent::Timeout),
        Ok(ShutdownAction::Finish { abandoned: 2 })
    );
    assert_eq!(coordinator.phase(), Phase::Done);
    assert_eq!(coordinator.outstanding(), 2);
}

#[test]
fn drain_ends_before_timeout_when_all_release() {
    let (mut coordinator, mut guards) = with_workers(2);
    coordinator.wait_shutdown(ShutdownEvent::Begin).unwrap();
    assert_eq!(
        coordinator.wait_shutdown(ShutdownEvent::Interrupt),
        Ok(ShutdownAction::Broadcast { workers: 2 })
    );
    assert!(!coordinator.release(guards.pop().unwrap()));
    assert!(coordinator.release(guards.pop().unwrap()));
    assert_eq!(
        coordinator.wait_shutdown(ShutdownEvent::Released),
        Ok(ShutdownAction::Finish { abandoned: 0 })
    );
    assert_eq!(
        coordinator.wait_shutdown(ShutdownEvent::Timeout),
        Ok(ShutdownAction::Finish { abandoned: 0 })
    );
}

#[test]
fn timeout_before_the_stop_is_ignored() {
    let (mut coordinator, _guards) = with_workers(1);
    coordinator.wait_shutdown(ShutdownEvent::Begin).unwrap();
    assert_eq!(
        coordinator.wait_shutdown(ShutdownEvent::Timeout),
        Ok(ShutdownAction::AwaitTrigger)
    );
    assert_eq!(coordinator.phase(), Phase::Running);
}

#[test]
fn run_without_workers_ends_at_once() {
    let mut coordinator = ShutdownNotify::new();
    assert_eq!(
        coordinator.wait_shutdown(ShutdownEvent::Begin),
        Ok(ShutdownAction::Finish { abandoned: 0 })
    );
    assert_eq!(coordinator.phase(), Phase::Done);
}

#[test]
fn interrupt_with_everyone_gone_ends_at_once() {
    let (mut coordinator, mut guards) = with_workers(1);
    coordinator.wait_shutdown(ShutdownEvent::Begin).unwrap();
    assert!(coordinator.release(guards.pop().unwrap()));
    assert_eq!(
        coordinator.wait_shutdown(ShutdownEvent::Interrupt),
        Ok(ShutdownAction::Finish { abandoned: 0 })
    );
}

#[test]
fn start_during_shutdown_is_refused() {
    let (mut coordinator, _guards) = with_workers(2);
    coordinator.wait_shutdown(ShutdownEvent::Begin).unwrap();
    coordinator.wait_shutdown(ShutdownEvent::Interrupt).unwrap();
    assert_eq!(coordinator.start(), Err(CoordinatorMisuse::StartDuringShutdown));
    assert_eq!(coordinator.outstanding(), 2);
    assert_eq!(coordinator.phase(), Phase::ShuttingDown);
    coordinator.wait_shutdown(ShutdownEvent::Timeout).unwrap();
    assert_eq!(coordinator.start(), Err(CoordinatorMisuse::StartDuringShutdown));
    assert_eq!(coordinator.outstanding(), 2);
    assert_eq!(coordinator.phase(), Phase::Done);
}

#[test]
fn start_while_waiting_for_the_trigger_is_allowed() {
    let (mut coordinator, _guards) = with_workers(1);
    coordinator.wait_shutdown(ShutdownEvent::Begin).unwrap();
    assert!(coordinator.start().is_ok());
    assert_eq!(coordinator.outstanding(), 2);
}

#[test]
fn second_begin_is_refused() {
    let (mut coordinator, _guards) = with_workers(2);
    coordinator.wait_shutdown(ShutdownEvent::Begin).unwrap();
    assert_eq!(
        coordinator.wait_shutdown(ShutdownEvent::Begin),
        Err(CoordinatorMisuse::DoubleShutdown)
    );
    assert_eq!(coordinator.outstanding(), 2);
    assert_eq!(coordinator.phase(), Phase::Running);
    coordinator.wait_shutdown(ShutdownEvent::Interrupt).unwrap();
    coordinator.wait_shutdown(ShutdownEvent::Timeout).unwrap();
    assert_eq!(
        coordinator.wait_shutdown(ShutdownEvent::Begin),
        Err(CoordinatorMisuse::DoubleShutdown)
    );
    assert_eq!(coordinator.outstanding(), 2);
    assert_eq!(coordinator.phase(), Phase::Done);
}

#[test]
fn event_before_begin_is_refused() {
    let (mut coordinator, _guards) = with_workers(1);
    for event in [ShutdownEvent::Interrupt, ShutdownEvent::Released, ShutdownEvent::Timeout] {
        assert_eq!(coordinator.wait_shutdown(event), Err(CoordinatorMisuse::NotWaiting));
    }
    assert_eq!(coordinator.phase(), Phase::Running);
    assert_eq!(coordinator.outstanding(), 1);
}

#[test]
fn release_with_nobody_out_changes_nothing() {
    let (mut coordinator, mut guards) = with_workers(1);
    let (mut other, mut strangers) = with_workers(1);
    assert!(coordinator.release(guards.pop().unwrap()));
    assert!(coordinator.release(strangers.pop().unwrap()));
    assert_eq!(coordinator.outstanding(), 0);
    assert_eq!(other.outstanding(), 1);
    assert_eq!(other.wait_shutdown(ShutdownEvent::Begin), Ok(ShutdownAction::AwaitTrigger));
}
