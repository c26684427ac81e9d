//! The kill protocol. A soft kill sends TERM, waits up to two seconds for the
//! process to exit, and falls back to KILL with a one second wait; a force kill
//! sends KILL and waits one second. The caller performs each step (sending a
//! signal, probing whether the process still runs, sleeping) and reports back.

use vstd::prelude::*;
use crate::text::{append_str, decimal, push_decimal};

verus! {

/// The signals the dashboard sends.
#[derive(Clone, Copy, Debug, PartialEq, Eq, Structural)]
pub enum KillSignal {
    Term,
    Kill,
}

/// The name of a signal, as it appears in messages.
pub open spec fn signal_name(signal: KillSignal) -> Seq<char> {
    match signal {
        KillSignal::Term => "Term"@,
        KillSignal::Kill => "Kill"@,
    }
}

/// The name of a signal, as it appears in messages.
pub fn signal_name_str(signal: KillSignal) -> (name: &'static str)
    ensures
        name@ == signal_name(signal),
{
    match signal {
        KillSignal::Term => "Term",
        KillSignal::Kill => "Kill",
    }
}

/// How a soft kill ended when it succeeded.
#[derive(Clone, Copy, Debug, PartialEq, Eq, Structural)]
pub enum SoftKillOutcome {
    /// The process exited after TERM.
    Terminated,
    /// The process ignored TERM and exited after KILL.
    EscalatedToForceKill,
}

/// What became of an attempt to deliver a signal.
#[derive(Clone, Copy, Debug, PartialEq, Eq, Structural)]
pub enum SignalDelivery {
    /// No process has that pid.
    NotFound,
    /// The signal was sent.
    Delivered,
    /// The system refused to send it.
    Refused,
    /// The platform does not support the signal.
    Unsupported,
}

/// "PID <pid> not found".
pub open spec fn not_found_text(pid: u32) -> Seq<char> {
    "PID "@ + decimal(pid as nat) + " not found"@
}

/// "Failed to send <signal> to PID <pid>".
pub open spec fn refused_text(pid: u32, signal: KillSignal) -> Seq<char> {
    "Failed to send "@ + signal_name(signal) + " to PID "@ + decimal(pid as nat)
}

/// "Signal <signal> is not supported on this platform".
pub open spec fn unsupported_text(signal: KillSignal) -> Seq<char> {
    "Signal "@ + signal_name(signal) + " is not supported on this platform"@
}

/// The result of sending `signal` to `pid`, given how the delivery went.
pub fn signal_outcome(pid: u32, signal: KillSignal, delivery: SignalDelivery) -> (r: Result<(), String>)
    ensures
        delivery == SignalDelivery::Delivered <==> r is Ok,
        delivery == SignalDelivery::NotFound ==> (r matches Err(e) && e@ == not_found_text(pid)),
        delivery == SignalDelivery::Refused ==> (r matches Err(e) && e@ == refused_text(pid, signal)),
        delivery == SignalDelivery::Unsupported ==> (r matches Err(e) && e@ == unsupported_text(signal)),
{
    match delivery {
        SignalDelivery::Delivered => Ok(()),
        SignalDelivery::NotFound => {
            let mut e = String::new();
            append_str(&mut e, "PID ");
            push_decimal(&mut e, pid as u64);
            append_str(&mut e, " not found");
            Err(e)
        },
        SignalDelivery::Refused => {
            let mut e = String::new();
            append_str(&mut e, "Failed to send ");
            append_str(&mut e, signal_name_str(signal));
            append_str(&mut e, " to PID ");
            push_decimal(&mut e, pid as u64);
            Err(e)
        },
        SignalDelivery::Unsupported => {
            let mut e = String::new();
            append_str(&mut e, "Signal ");
            append_str(&mut e, signal_name_str(signal));
            append_str(&mut e, " is not supported on this platform");
            Err(e)
        },
    }
}

/// How long to wait for the process to exit after TERM, in milliseconds.
pub const TERM_WAIT_MS: u64 = 2000;

/// How long to wait for the process to exit after KILL, in milliseconds.
pub const KILL_WAIT_MS: u64 = 1000;

/// The pause between two probes of a process that still runs, in milliseconds.
pub const PROBE_INTERVAL_MS: u64 = 100;

/// How long to wait for the process to exit after `signal`.
pub open spec fn wait_limit(signal: KillSignal) -> u64 {
    match signal {
        KillSignal::Term => TERM_WAIT_MS,
        KillSignal::Kill => KILL_WAIT_MS,
    }
}

/// Milliseconds from `since_ms` to `now_ms` (none when the clock reads earlier).
pub open spec fn elapsed(now_ms: u64, since_ms: u64) -> int {
    if now_ms >= since_ms {
        now_ms - since_ms
    } else {
        0
    }
}

/// Where a kill stands.
#[derive(Clone, Copy, Debug, PartialEq, Eq, Structural)]
pub enum KillStage {
    /// The signal is to be sent.
    Sending(KillSignal),
    /// The process is to be probed; it was signalled at `since_ms`.
    Probing { signal: KillSignal, since_ms: u64 },
    /// The process still ran at the last probe; it was signalled at `since_ms`.
    Sleeping { signal: KillSignal, since_ms: u64 },
    /// The kill has ended.
    Finished,
}

/// What the caller observed after performing a step.
pub enum KillEvent {
    /// The signal was sent (or not) at time `now_ms`.
    SignalSent { now_ms: u64, result: Result<(), String> },
    /// The probe found the process gone (`exited`) or still running.
    Probed { exited: bool },
    /// The pause is over; the clock reads `now_ms`.
    Slept { now_ms: u64 },
}

/// How a kill ended, as the soft and force kill report it.
pub enum KillReport {
    Soft(Result<SoftKillOutcome, String>),
    Force(Result<(), String>),
}

/// What the caller is to do next.
pub enum KillStep {
    /// Send this signal to the process and report `SignalSent`.
    Send(KillSignal),
    /// Check whether the process still runs and report `Probed`.
    Probe,
    /// Sleep this many milliseconds and report `Slept`.
    Sleep { ms: u64 },
    /// The kill has ended with this report.
    Finish(KillReport),
    /// The kill had already ended; nothing is left to do.
    Idle,
}

/// A kill of one process in progress.
#[derive(Clone, Copy, Debug, PartialEq, Eq, Structural)]
pub struct KillFlow {
    pub pid: u32,
    pub force: bool,
    pub stage: KillStage,
}

/// The signal a stage is about, if any.
pub open spec fn stage_signal(stage: KillStage) -> Option<KillSignal> {
    match stage {
        KillStage::Sending(s) => Some(s),
        KillStage::Probing { signal, .. } => Some(signal),
        KillStage::Sleeping { signal, .. } => Some(signal),
        KillStage::Finished => None,
    }
}

/// The report of a kill whose signal could not be sent.
pub open spec fn failure_report(force: bool, e: String) -> KillReport {
    if force {
        KillReport::Force(Err(e))
    } else {
        KillReport::Soft(Err(e))
    }
}

/// The report of a kill whose process exited after `signal`.
pub open spec fn success_report(force: bool, signal: KillSignal) -> KillReport {
    if signal == KillSignal::Term {
        KillReport::Soft(Ok(SoftKillOutcome::Terminated))
    } else if force {
        KillReport::Force(Ok(()))
    } else {
        KillReport::Soft(Ok(SoftKillOutcome::EscalatedToForceKill))
    }
}

/// "PID <pid> did not exit after force kill".
pub open spec fn force_timeout_text(pid: u32) -> Seq<char> {
    "PID "@ + decimal(pid as nat) + " did not exit after force kill"@
}

/// "PID <pid> did not exit after TERM timeout and KILL fallback".
pub open spec fn soft_timeout_text(pid: u32) -> Seq<char> {
    "PID "@ + decimal(pid as nat) + " did not exit after TERM timeout and KILL fallback"@
}

/// The report of a kill whose process outlived the wait after KILL.
pub open spec fn is_timeout_report(flow: KillFlow, report: KillReport) -> bool {
    if flow.force {
        report matches KillReport::Force(Err(e)) && e@ == force_timeout_text(flow.pid)
    } else {
        report matches KillReport::Soft(Err(e)) && e@ == soft_timeout_text(flow.pid)
    }
}

impl KillFlow {
    /// A force kill never deals in TERM.
    pub open spec fn wf(self) -> bool {
        self.force ==> stage_signal(self.stage) != Some(KillSignal::Term)
    }

    /// The stage after `event`.
    pub open spec fn next_stage(self, event: KillEvent) -> KillStage {
        match self.stage {
            KillStage::Sending(signal) => match event {
                KillEvent::SignalSent { now_ms, result } => if result is Ok {
                    KillStage::Probing { signal, since_ms: now_ms }
                } else {
                    KillStage::Finished
                },
                _ => self.stage,
            },
            KillStage::Probing { signal, since_ms } => match event {
                KillEvent::Probed { exited } => if exited {
                    KillStage::Finished
                } else {
                    KillStage::Sleeping { signal, since_ms }
                },
                _ => self.stage,
            },
            KillStage::Sleeping { signal, since_ms } => match event {
                KillEvent::Slept { now_ms } => if elapsed(now_ms, since_ms) < wait_limit(signal) {
                    KillStage::Probing { signal, since_ms }
                } else if signal == KillSignal::Term {
                    KillStage::Sending(KillSignal::Kill)
                } else {
                    KillStage::Finished
                },
                _ => self.stage,
            },
            KillStage::Finished => KillStage::Finished,
        }
    }

    /// The step that follows `event`.
    pub open spec fn is_next_step(self, event: KillEvent, step: KillStep) -> bool {
        match self.stage {
            KillStage::Sending(signal) => match event {
                KillEvent::SignalSent { result, .. } => match result {
                    Ok(_) => step is Probe,
                    Err(e) => step == KillStep::Finish(failure_report(self.force, e)),
                },
                _ => step == KillStep::Send(signal),
            },
            KillStage::Probing { signal, .. } => match event {
                KillEvent::Probed { exited } => if exited {
                    step == KillStep::Finish(success_report(self.force, signal))
                } else {
                    step == (KillStep::Sleep { ms: PROBE_INTERVAL_MS })
                },
                _ => step is Probe,
            },
            KillStage::Sleeping { signal, since_ms } => match event {
                KillEvent::Slept { now_ms } => if elapsed(now_ms, since_ms) < wait_limit(signal) {
                    step is Probe
                } else if signal == KillSignal::Term {
                    step == KillStep::Send(KillSignal::Kill)
                } else {
                    step matches KillStep::Finish(report) && is_timeout_report(self, report)
                },
                _ => step == (KillStep::Sleep { ms: PROBE_INTERVAL_MS }),
            },
            KillStage::Finished => step is Idle,
        }
    }

    /// Begins a kill of `pid`: a soft kill starts with TERM, a force kill with KILL.
    pub fn start(pid: u32, force: bool) -> (r: (KillFlow, KillStep))
        ensures
            r.0.pid == pid,
            r.0.force == force,
            r.0.wf(),
            force ==> r.0.stage == KillStage::Sending(KillSignal::Kill) && r.1 == KillStep::Send(
                KillSignal::Kill,
            ),
            !force ==> r.0.stage == KillStage::Sending(KillSignal::Term) && r.1 == KillStep::Send(
                KillSignal::Term,
            ),
    {
        let signal = if force {
            KillSignal::Kill
        } else {
            KillSignal::Term
        };
        (KillFlow { pid, force, stage: KillStage::Sending(signal) }, KillStep::Send(signal))
    }

    fn timeout_report(&self) -> (report: KillReport)
        ensures
            is_timeout_report(*self, report),
    {
        let mut e = String::new();
        append_str(&mut e, "PID ");
        push_decimal(&mut e, self.pid as u64);
        if self.force {
            append_str(&mut e, " did not exit after force kill");
            KillReport::Force(Err(e))
        } else {
            append_str(&mut e, " did not exit after TERM timeout and KILL fallback");
            KillReport::Soft(Err(e))
        }
    }

    /// Takes in what the caller observed and returns the next step. An event
    /// that does not answer the current stage changes nothing and repeats the
    /// pending step.
    pub fn advance(&mut self, event: KillEvent) -> (step: KillStep)
        ensures
            final(self).pid == old(self).pid,
            final(self).force == old(self).force,
            final(self).stage == old(self).next_stage(event),
            old(self).is_next_step(event, step),
            old(self).wf() ==> final(self).wf(),
    {
        match self.stage {
            KillStage::Sending(signal) => match event {
                KillEvent::SignalSent { now_ms, result } => match result {
                    Ok(()) => {
                        self.stage = KillStage::Probing { signal, since_ms: now_ms };
                        KillStep::Probe
                    },
                    Err(e) => {
                        self.stage = KillStage::Finished;
                        if self.force {
                            KillStep::Finish(KillReport::Force(Err(e)))
                        } else {
                            KillStep::Finish(KillReport::Soft(Err(e)))
                        }
                    },
                },
                _ => KillStep::Send(signal),
            },
            KillStage::Probing { signal, since_ms } => match event {
                KillEvent::Probed { exited } => {
                    if exited {
                        self.stage = KillStage::Finished;
                        let report = match signal {
                            KillSignal::Term => KillReport::Soft(Ok(SoftKillOutcome::Terminated)),
                            KillSignal::Kill => if self.force {
                                KillReport::Force(Ok(()))
                            } else {
                                KillReport::Soft(Ok(SoftKillOutcome::EscalatedToForceKill))
                            },
                        };
                        KillStep::Finish(report)
                    } else {
                        self.stage = KillStage::Sleeping { signal, since_ms };
                        KillStep::Sleep { ms: PROBE_INTERVAL_MS }
                    }
                },
                _ => KillStep::Probe,
            },
            KillStage::Sleeping { signal, since_ms } => match event {
                KillEvent::Slept { now_ms } => {
                    let waited = if now_ms >= since_ms {
                        now_ms - since_ms
                    } else {
                        0
                    };
                    let limit = match signal {
                        KillSignal::Term => TERM_WAIT_MS,
                        KillSignal::Kill => KILL_WAIT_MS,
                    };
                    if waited < limit {
                        self.stage = KillStage::Probing { signal, since_ms };
                        KillStep::Probe
                    } else {
                        match signal {
                            KillSignal::Term => {
                                self.stage = KillStage::Sending(KillSignal::Kill);
                                KillStep::Send(KillSignal::Kill)
                            },
                            KillSignal::Kill => {
                                let report = self.timeout_report();
                                self.stage = KillStage::Finished;
                                KillStep::Finish(report)
                            },
                        }
                    }
                },
                _ => KillStep::Sleep { ms: PROBE_INTERVAL_MS },
            },
            KillStage::Finished => KillStep::Idle,
        }
    }
}


// ---------------------------------------------------------------------------
// Laws of the kill protocol
// ---------------------------------------------------------------------------

/// A force kill never sends TERM, and stays a force kill through every step.
pub proof fn lemma_force_kill_never_sends_term(flow: KillFlow, event: KillEvent, step: KillStep)
    requires
        flow.wf(),
        flow.force,
        flow.is_next_step(event, step),
    ensures
        step != KillStep::Send(KillSignal::Term),
        (KillFlow { stage: flow.next_stage(event), ..flow }).wf(),
{
}

/// A soft kill turns to KILL only from the wait after TERM, once the process
/// still ran when at least two seconds had passed since TERM was sent.
pub proof fn lemma_kill_follows_term_timeout(flow: KillFlow, event: KillEvent, step: KillStep)
    requires
        !flow.force,
        flow.stage != KillStage::Sending(KillSignal::Kill),
        flow.next_stage(event) == KillStage::Sending(KillSignal::Kill),
        flow.is_next_step(event, step),
    ensures
        step == KillStep::Send(KillSignal::Kill),
        flow.stage matches KillStage::Sleeping { signal: KillSignal::Term, .. },
        event matches KillEvent::Slept { .. },
        elapsed(event->Slept_now_ms, flow.stage->Sleeping_since_ms) >= TERM_WAIT_MS,
{
}

/// A soft kill reports `Terminated` only when a probe after TERM found the
/// process gone, and `EscalatedToForceKill` only when a probe after KILL did.
pub proof fn lemma_soft_outcome_matches_signal(flow: KillFlow, event: KillEvent, step: KillStep)
    requires
        flow.wf(),
        flow.is_next_step(event, step),
        step matches KillStep::Finish(KillReport::Soft(Ok(_))),
    ensures
        flow.stage matches KillStage::Probing { signal, .. },
        event == (KillEvent::Probed { exited: true }),
        step == KillStep::Finish(KillReport::Soft(Ok(SoftKillOutcome::Terminated))) <==> flow.stage
            matches KillStage::Probing { signal: KillSignal::Term, .. },
{
}

/// A kill whose signal could not be sent ends at once with an error report
/// that carries the sender's error: a force kill as a failed force kill, a soft
/// kill as a failed soft kill.
pub proof fn lemma_send_failure_is_reported(flow: KillFlow, now_ms: u64, e: String, step: KillStep)
    requires
        flow.stage matches KillStage::Sending(_),
        flow.is_next_step(KillEvent::SignalSent { now_ms, result: Err(e) }, step),
    ensures
        flow.force ==> step == KillStep::Finish(KillReport::Force(Err(e))),
        !flow.force ==> step == KillStep::Finish(KillReport::Soft(Err(e))),
        flow.next_stage(KillEvent::SignalSent { now_ms, result: Err(e) }) == KillStage::Finished,
{
}

/// Success is reported only when a probe found the process gone after a signal
/// was sent: a successful force kill after KILL, a terminated soft kill after
/// TERM, an escalated soft kill after KILL.
pub proof fn lemma_success_needs_exit(flow: KillFlow, event: KillEvent, step: KillStep)
    requires
        flow.is_next_step(event, step),
        step matches KillStep::Finish(KillReport::Force(Ok(_))) || step matches KillStep::Finish(
            KillReport::Soft(Ok(_)),
        ),
    ensures
        event == (KillEvent::Probed { exited: true }),
        flow.stage matches KillStage::Probing { .. },
        step == KillStep::Finish(KillReport::Force(Ok(()))) ==> flow.force && flow.stage matches KillStage::Probing {
            signal: KillSignal::Kill,
            ..
        },
        step == KillStep::Finish(KillReport::Soft(Ok(SoftKillOutcome::EscalatedToForceKill)))
            ==> !flow.force && flow.stage matches KillStage::Probing { signal: KillSignal::Kill, .. },
        step == KillStep::Finish(KillReport::Soft(Ok(SoftKillOutcome::Terminated))) ==> flow.stage matches KillStage::Probing {
            signal: KillSignal::Term,
            ..
        },
{
}

/// The waits: a process still running at a probe is probed again after 100 ms;
/// after TERM it is waited for until 2000 ms have passed, after KILL until
/// 1000 ms have passed.
pub proof fn lemma_wait_timing(flow: KillFlow, event: KillEvent, step: KillStep, signal: KillSignal, since_ms: u64, now_ms: u64)
    requires
        flow.is_next_step(event, step),
    ensures
        flow.stage == (KillStage::Probing { signal, since_ms }) && event == (KillEvent::Probed { exited: false })
            ==> step == (KillStep::Sleep { ms: 100 }),
        flow.stage == (KillStage::Sleeping { signal, since_ms }) && event == (KillEvent::Slept { now_ms })
            ==> {
            let waited: int = if now_ms >= since_ms { now_ms - since_ms } else { 0 };
            let limit: int = if signal == KillSignal::Term { 2000 } else { 1000 };
            &&& waited < limit ==> step is Probe
            &&& waited >= limit && signal == KillSignal::Term ==> step == KillStep::Send(KillSignal::Kill)
            &&& waited >= limit && signal == KillSignal::Kill && flow.force ==> (step matches KillStep::Finish(
                KillReport::Force(Err(_)),
            ))
            &&& waited >= limit && signal == KillSignal::Kill && !flow.force ==> (step matches KillStep::Finish(
                KillReport::Soft(Err(_)),
            ))
        },
{
}

/// The stage follows the step: after a probe request the flow is probing,
/// after a sleep request sleeping, after a send request sending that signal,
/// and after a final report finished.
pub proof fn lemma_stage_follows_step(flow: KillFlow, event: KillEvent, step: KillStep)
    requires
        flow.is_next_step(event, step),
    ensures
        step is Probe ==> flow.next_stage(event) is Probing,
        step is Sleep ==> flow.next_stage(event) is Sleeping,
        step matches KillStep::Send(signal) ==> flow.next_stage(event) == KillStage::Sending(signal),
        step is Finish ==> flow.next_stage(event) == KillStage::Finished,
        step is Idle ==> flow.stage == KillStage::Finished && flow.next_stage(event) == KillStage::Finished,
{
}

/// Once a kill has ended it stays ended, whatever is reported.
pub proof fn lemma_finished_is_final(flow: KillFlow, event: KillEvent, step: KillStep)
    requires
        flow.stage == KillStage::Finished,
        flow.is_next_step(event, step),
    ensures
        flow.next_stage(event) == KillStage::Finished,
        step is Idle,
{
}

} // verus!
