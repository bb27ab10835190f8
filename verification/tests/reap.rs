use std::sync::atomic::AtomicBool;
use std::sync::Arc;

use conkit::cancellation::CompilerCancellation;
use conkit::compiler::error::{CompilerError, CompilerOperation, CompilerStream};
use conkit::compiler::limits::{CompilerLimits, CompilerUsage};
use conkit::compiler::process::{monitor_check, ProcessCleanupEvidence};
use conkit::compiler::reap::{KillOutcome, PollOutcome, ReapAction, ReapEvent, Reaper, WaitOutcome};

fn usage() -> Arc<CompilerUsage> {
    CompilerUsage::new(
        CompilerLimits::default(),
        CompilerCancellation::from_flag(Arc::new(AtomicBool::new(false))),
    )
}

fn drive(events: Vec<ReapEvent>) -> (Vec<ReapAction>, String) {
    let usage = usage();
    let mut evidence = ProcessCleanupEvidence::new(&usage);
    let (mut reaper, first) = Reaper::start();
    let mut actions = vec![first];
    for event in events {
        let (next, action) = reaper.advance(event, &mut evidence);
        reaper = next;
        actions.push(action);
    }
    (actions, evidence.rendered())
}

#[test]
fn a_killed_group_that_exits_is_reaped_without_evidence() {
    let (actions, evidence) = drive(vec![
        ReapEvent::Kill(KillOutcome::Killed),
        ReapEvent::Poll(PollOutcome::Running { cancelled: false, within_window: true }),
        ReapEvent::Slept,
        ReapEvent::Poll(PollOutcome::Exited),
    ]);
    assert_eq!(
        actions,
        [
            ReapAction::Kill { group: true },
            ReapAction::TryWait,
            ReapAction::Sleep,
            ReapAction::TryWait,
            ReapAction::Finished { reaped: true },
        ]
    );
    assert_eq!(evidence, "");
}

#[test]
fn a_failed_group_kill_falls_back_to_the_leader() {
    let (actions, evidence) = drive(vec![
        ReapEvent::Kill(KillOutcome::Failed("no such group".to_owned())),
        ReapEvent::Kill(KillOutcome::AlreadyReaped),
        ReapEvent::Poll(PollOutcome::Exited),
    ]);
    assert_eq!(
        actions,
        [
            ReapAction::Kill { group: true },
            ReapAction::Kill { group: false },
            ReapAction::TryWait,
            ReapAction::Finished { reaped: true },
        ]
    );
    assert_eq!(evidence, "kill process group: no such group");
}

#[test]
fn a_terminated_group_past_the_window_is_waited_for() {
    let (actions, evidence) = drive(vec![
        ReapEvent::Kill(KillOutcome::Killed),
        ReapEvent::Poll(PollOutcome::Running { cancelled: false, within_window: false }),
        ReapEvent::Wait(WaitOutcome::Failed("interrupted".to_owned())),
    ]);
    assert_eq!(
        actions,
        [
            ReapAction::Kill { group: true },
            ReapAction::TryWait,
            ReapAction::Wait,
            ReapAction::Finished { reaped: false },
        ]
    );
    assert_eq!(
        evidence,
        "reap process group: cleanup polling deadline elapsed; waiting for the terminated group; reap process group: interrupted"
    );
}

#[test]
fn an_unterminated_leader_is_never_waited_for() {
    let (actions, evidence) = drive(vec![
        ReapEvent::Kill(KillOutcome::Failed("denied".to_owned())),
        ReapEvent::Kill(KillOutcome::Failed("denied".to_owned())),
        ReapEvent::Poll(PollOutcome::Running { cancelled: true, within_window: true }),
    ]);
    assert_eq!(actions.last(), Some(&ReapAction::Finished { reaped: false }));
    assert_eq!(
        evidence,
        "kill process group: denied; kill process leader: denied; reap process leader: group and direct termination failed; bounded cleanup refused an unbounded wait"
    );
}

#[test]
fn a_failed_poll_waits_only_for_a_terminated_process() {
    let (actions, evidence) = drive(vec![
        ReapEvent::Kill(KillOutcome::Killed),
        ReapEvent::Poll(PollOutcome::Failed("poll failed".to_owned())),
        ReapEvent::Wait(WaitOutcome::Exited),
    ]);
    assert_eq!(actions.last(), Some(&ReapAction::Finished { reaped: true }));
    assert_eq!(evidence, "reap process group: poll failed");

    let (actions, evidence) = drive(vec![
        ReapEvent::Kill(KillOutcome::Failed("a".to_owned())),
        ReapEvent::Kill(KillOutcome::Failed("b".to_owned())),
        ReapEvent::Poll(PollOutcome::Failed("c".to_owned())),
    ]);
    assert_eq!(actions.last(), Some(&ReapAction::Finished { reaped: false }));
    assert_eq!(evidence, "kill process group: a; kill process leader: b; poll process leader: c");
}

#[test]
fn monitoring_stops_on_the_first_stream_over_its_limit() {
    let usage = usage();
    assert!(monitor_check(&usage, CompilerOperation::Rustdoc, false, false).is_ok());
    match monitor_check(&usage, CompilerOperation::Rustdoc, true, true) {
        Err(CompilerError::ProcessOutputLimit { stream, limit, .. }) => {
            assert_eq!(stream, CompilerStream::Stdout);
            assert_eq!(limit, 33_554_432);
        }
        other => panic!("expected the stdout limit, got {other:?}"),
    }
    match monitor_check(&usage, CompilerOperation::Rustdoc, false, true) {
        Err(CompilerError::ProcessOutputLimit { stream, limit, .. }) => {
            assert_eq!(stream, CompilerStream::Stderr);
            assert_eq!(limit, 16_777_216);
        }
        other => panic!("expected the stderr limit, got {other:?}"),
    }
}

#[test]
fn a_reaper_awaits_only_the_event_of_its_step() {
    let (reaper, _) = Reaper::start();
    assert!(reaper.awaits(&ReapEvent::Kill(KillOutcome::Killed)));
    assert!(!reaper.awaits(&ReapEvent::Slept));
    assert!(!reaper.awaits(&ReapEvent::Wait(WaitOutcome::Exited)));
}
