//! Tearing down a failed Cargo process: kill its process group (or, where
//! that fails, its leader), poll until it exits within the cleanup window,
//! then wait only for a process that was terminated. Each failed step is
//! recorded as cleanup evidence. The caller performs the actions and reports
//! what they returned.

use vstd::prelude::*;

use crate::compiler::process::{evidence_entry, fit_prefix, ProcessCleanupEvidence};

verus! {

/// What a kill request returned.
pub enum KillOutcome {
    /// The signal was sent.
    Killed,
    /// The process had already been reaped (`InvalidInput`).
    AlreadyReaped,
    /// The request failed with this message.
    Failed(String),
}

/// What one non-blocking status poll returned.
pub enum PollOutcome {
    Exited,
    /// Still running: whether cancellation was requested, and whether the
    /// cleanup window is still open.
    Running { cancelled: bool, within_window: bool },
    Failed(String),
}

/// What a blocking wait returned.
pub enum WaitOutcome {
    Exited,
    Failed(String),
}

/// A reported result.
pub enum ReapEvent {
    Kill(KillOutcome),
    Poll(PollOutcome),
    /// The poll interval elapsed.
    Slept,
    Wait(WaitOutcome),
}

/// What the caller does next.
#[derive(Clone, Copy, Debug, PartialEq, Eq, Structural)]
pub enum ReapAction {
    /// Kill the process group, or only its leader.
    Kill { group: bool },
    /// Poll the process status without blocking.
    TryWait,
    /// Sleep for one poll interval.
    Sleep,
    /// Wait for the process to exit.
    Wait,
    /// Cleanup is over; `reaped` tells whether the process was reaped.
    Finished { reaped: bool },
}

/// Where a teardown stands.
pub enum ReapStage {
    Kill { group: bool },
    Poll { group: bool, terminated: bool },
    Sleeping { group: bool, terminated: bool },
    /// Waiting; a failure is recorded under `step`.
    Wait { step: &'static str },
    Done { reaped: bool },
}

/// One process teardown.
pub struct Reaper {
    pub stage: ReapStage,
}

/// The event a teardown at stage `s` waits for.
pub open spec fn reap_expects(s: ReapStage, e: ReapEvent) -> bool {
    match s {
        ReapStage::Kill { .. } => e is Kill,
        ReapStage::Poll { .. } => e is Poll,
        ReapStage::Sleeping { .. } => e is Slept,
        ReapStage::Wait { .. } => e is Wait,
        ReapStage::Done { .. } => false,
    }
}

/// `after` is `before` with the entry `STEP: MESSAGE` appended, cut to
/// what the evidence budget granted.
pub open spec fn recorded(before: ProcessCleanupEvidence, after: ProcessCleanupEvidence, step: Seq<char>, message: Seq<char>) -> bool {
    &&& after.spec_usage() == before.spec_usage()
    &&& exists|granted: int|
        0 <= granted <= before.spec_usage().spec_limits().cleanup_evidence_bytes && after.spec_rendered()
            == before.spec_rendered() + fit_prefix(evidence_entry(step, message), granted)
}

/// `after` records nothing beyond `before`.
pub open spec fn unrecorded(before: ProcessCleanupEvidence, after: ProcessCleanupEvidence) -> bool {
    after.spec_usage() == before.spec_usage() && after.spec_rendered() == before.spec_rendered()
}

/// The step under which a failed wait is recorded after a poll failure.
pub open spec fn wait_step_after_poll_failure(group: bool) -> Seq<char> {
    if group {
        "wait for process group"@
    } else {
        "reap process leader"@
    }
}

/// The step under which a failed wait is recorded after the window closed.
pub open spec fn wait_step_after_window(group: bool) -> Seq<char> {
    if group {
        "reap process group"@
    } else {
        "reap process leader"@
    }
}

fn finished(reaped: bool) -> (r: (Reaper, ReapAction))
    ensures
        r.0.stage == (ReapStage::Done { reaped }),
        r.1 == (ReapAction::Finished { reaped }),
{
    (Reaper { stage: ReapStage::Done { reaped } }, ReapAction::Finished { reaped })
}

impl Reaper {
    /// Whether the current stage waits for `event`.
    pub fn awaits(&self, event: &ReapEvent) -> (r: bool)
        ensures
            r == reap_expects(self.stage, *event),
    {
        match (&self.stage, event) {
            (ReapStage::Kill { .. }, ReapEvent::Kill(..)) => true,
            (ReapStage::Poll { .. }, ReapEvent::Poll(..)) => true,
            (ReapStage::Sleeping { .. }, ReapEvent::Slept) => true,
            (ReapStage::Wait { .. }, ReapEvent::Wait(..)) => true,
            _ => false,
        }
    }

    /// Starts by killing the whole process group.
    pub fn start() -> (r: (Self, ReapAction))
        ensures
            r.0.stage matches ReapStage::Kill { group } && group,
            r.1 == (ReapAction::Kill { group: true }),
    {
        (Reaper { stage: ReapStage::Kill { group: true } }, ReapAction::Kill { group: true })
    }

    /// Takes the result of the last action and names the next one.
    pub fn advance(self, event: ReapEvent, evidence: &mut ProcessCleanupEvidence) -> (r: (Self, ReapAction))
        requires
            reap_expects(self.stage, event),
        ensures
            r.1 matches ReapAction::Finished { reaped } ==> r.0.stage == (ReapStage::Done { reaped }),
            self.stage matches ReapStage::Kill { group } ==> (event matches ReapEvent::Kill(outcome) ==> match outcome {
                KillOutcome::Failed(message) => if group {
                    &&& recorded(*old(evidence), *final(evidence), "kill process group"@, message@)
                    &&& r.0.stage matches ReapStage::Kill { group: g } && !g
                    &&& r.1 == (ReapAction::Kill { group: false })
                } else {
                    &&& recorded(*old(evidence), *final(evidence), "kill process leader"@, message@)
                    &&& r.0.stage matches ReapStage::Poll { group: g, terminated } && !g && !terminated
                    &&& r.1 == ReapAction::TryWait
                },
                _ => {
                    &&& unrecorded(*old(evidence), *final(evidence))
                    &&& r.0.stage matches ReapStage::Poll { group: g, terminated } && g == group && terminated
                    &&& r.1 == ReapAction::TryWait
                },
            }),
            self.stage matches ReapStage::Poll { group, terminated } ==> (event matches ReapEvent::Poll(outcome) ==> match outcome {
                PollOutcome::Exited => unrecorded(*old(evidence), *final(evidence)) && r.1 == (ReapAction::Finished {
                    reaped: true,
                }),
                PollOutcome::Running { cancelled, within_window } => if !cancelled && within_window {
                    &&& unrecorded(*old(evidence), *final(evidence))
                    &&& r.0.stage matches ReapStage::Sleeping { group: g, terminated: t } && g == group && t == terminated
                    &&& r.1 == ReapAction::Sleep
                } else if terminated {
                    &&& (group && !cancelled ==> recorded(
                        *old(evidence),
                        *final(evidence),
                        "reap process group"@,
                        "cleanup polling deadline elapsed; waiting for the terminated group"@,
                    ))
                    &&& (!(group && !cancelled) ==> unrecorded(*old(evidence), *final(evidence)))
                    &&& r.0.stage matches ReapStage::Wait { step } && step@ == wait_step_after_window(group)
                    &&& r.1 == ReapAction::Wait
                } else {
                    &&& recorded(
                        *old(evidence),
                        *final(evidence),
                        "reap process leader"@,
                        "group and direct termination failed; bounded cleanup refused an unbounded wait"@,
                    )
                    &&& r.1 == (ReapAction::Finished { reaped: false })
                },
                PollOutcome::Failed(message) => {
                    &&& recorded(
                        *old(evidence),
                        *final(evidence),
                        if group {
                            "reap process group"@
                        } else {
                            "poll process leader"@
                        },
                        message@,
                    )
                    &&& !terminated ==> r.1 == (ReapAction::Finished { reaped: false })
                    &&& terminated ==> (r.0.stage matches ReapStage::Wait { step } && step@ == wait_step_after_poll_failure(
                        group,
                    ) && r.1 == ReapAction::Wait)
                },
            }),
            self.stage matches ReapStage::Sleeping { group, terminated } ==> {
                &&& unrecorded(*old(evidence), *final(evidence))
                &&& r.0.stage matches ReapStage::Poll { group: g, terminated: t } && g == group && t == terminated
                &&& r.1 == ReapAction::TryWait
            },
            self.stage matches ReapStage::Wait { step } ==> (event matches ReapEvent::Wait(outcome) ==> match outcome {
                WaitOutcome::Exited => unrecorded(*old(evidence), *final(evidence)) && r.1 == (ReapAction::Finished {
                    reaped: true,
                }),
                WaitOutcome::Failed(message) => recorded(*old(evidence), *final(evidence), step@, message@) && r.1 == (
                ReapAction::Finished { reaped: false }),
            }),
    {
        proof {
            reveal_strlit("kill process group");
            reveal_strlit("kill process leader");
            reveal_strlit("reap process group");
            reveal_strlit("reap process leader");
            reveal_strlit("poll process leader");
            reveal_strlit("wait for process group");
            reveal_strlit("cleanup polling deadline elapsed; waiting for the terminated group");
            reveal_strlit("group and direct termination failed; bounded cleanup refused an unbounded wait");
        }
        match self.stage {
            ReapStage::Kill { group } => {
                let outcome = match event {
                    ReapEvent::Kill(outcome) => outcome,
                    _ => return vstd::pervasive::unreached(),
                };
                match outcome {
                    KillOutcome::Failed(message) => {
                        if group {
                            evidence.record_message("kill process group", message.as_str());
                            (Reaper { stage: ReapStage::Kill { group: false } }, ReapAction::Kill { group: false })
                        } else {
                            evidence.record_message("kill process leader", message.as_str());
                            (Reaper { stage: ReapStage::Poll { group: false, terminated: false } }, ReapAction::TryWait)
                        }
                    },
                    _ => (Reaper { stage: ReapStage::Poll { group, terminated: true } }, ReapAction::TryWait),
                }
            },
            ReapStage::Poll { group, terminated } => {
                let outcome = match event {
                    ReapEvent::Poll(outcome) => outcome,
                    _ => return vstd::pervasive::unreached(),
                };
                match outcome {
                    PollOutcome::Exited => finished(true),
                    PollOutcome::Running { cancelled, within_window } => {
                        if !cancelled && within_window {
                            (Reaper { stage: ReapStage::Sleeping { group, terminated } }, ReapAction::Sleep)
                        } else if terminated {
                            if group && !cancelled {
                                evidence.record_message(
                                    "reap process group",
                                    "cleanup polling deadline elapsed; waiting for the terminated group",
                                );
                            }
                            let step = if group {
                                "reap process group"
                            } else {
                                "reap process leader"
                            };
                            (Reaper { stage: ReapStage::Wait { step } }, ReapAction::Wait)
                        } else {
                            evidence.record_message(
                                "reap process leader",
                                "group and direct termination failed; bounded cleanup refused an unbounded wait",
                            );
                            finished(false)
                        }
                    },
                    PollOutcome::Failed(message) => {
                        let step = if group {
                            "reap process group"
                        } else {
                            "poll process leader"
                        };
                        evidence.record_message(step, message.as_str());
                        if !terminated {
                            return finished(false);
                        }
                        let step = if group {
                            "wait for process group"
                        } else {
                            "reap process leader"
                        };
                        (Reaper { stage: ReapStage::Wait { step } }, ReapAction::Wait)
                    },
                }
            },
            ReapStage::Sleeping { group, terminated } => (
                Reaper { stage: ReapStage::Poll { group, terminated } },
                ReapAction::TryWait,
            ),
            ReapStage::Wait { step } => {
                let outcome = match event {
                    ReapEvent::Wait(outcome) => outcome,
                    _ => return vstd::pervasive::unreached(),
                };
                match outcome {
                    WaitOutcome::Exited => finished(true),
                    WaitOutcome::Failed(message) => {
                        evidence.record_message(step, message.as_str());
                        finished(false)
                    },
                }
            },
            ReapStage::Done { .. } => vstd::pervasive::unreached(),
        }
    }
}

} // verus!
