use process_dashboard::kill::{
    signal_name_str, signal_outcome, KillEvent, KillFlow, KillReport, KillSignal, KillStage, KillStep,
    SignalDelivery, SoftKillOutcome,
};

fn sent(now_ms: u64) -> KillEvent {
    KillEvent::SignalSent { now_ms, result: Ok(()) }
}

fn is_send(step: &KillStep, signal: KillSignal) -> bool {
    matches!(step, KillStep::Send(s) if *s == signal)
}

#[test]
fn signal_names_are_debug_names() {
    assert_eq!(signal_name_str(KillSignal::Term), "Term");
    assert_eq!(signal_name_str(KillSignal::Kill), "Kill");
}

#[test]
fn signal_outcome_messages() {
    assert_eq!(signal_outcome(42, KillSignal::Term, SignalDelivery::Delivered), Ok(()));
    assert_eq!(
        signal_outcome(42, KillSignal::Term, SignalDelivery::NotFound),
        Err("PID 42 not found".to_string())
    );
    assert_eq!(
        signal_outcome(42, KillSignal::Kill, SignalDelivery::Refused),
        Err("Failed to send Kill to PID 42".to_string())
    );
    assert_eq!(
        signal_outcome(42, KillSignal::Term, SignalDelivery::Unsupported),
        Err("Signal Term is not supported on this platform".to_string())
    );
}

#[test]
fn soft_kill_that_terminates() {
    let (mut flow, step) = KillFlow::start(7, false);
    assert!(is_send(&step, KillSignal::Term));
    assert!(matches!(flow.advance(sent(1000)), KillStep::Probe));
    assert!(matches!(flow.advance(KillEvent::Probed { exited: false }), KillStep::Sleep { ms: 100 }));
    assert!(matches!(flow.advance(KillEvent::Slept { now_ms: 1100 }), KillStep::Probe));
    match flow.advance(KillEvent::Probed { exited: true }) {
        KillStep::Finish(KillReport::Soft(Ok(SoftKillOutcome::Terminated))) => {},
        _ => panic!("expected a terminated soft kill"),
    }
    assert_eq!(flow.stage, KillStage::Finished);
    assert!(matches!(flow.advance(KillEvent::Probed { exited: true }), KillStep::Idle));
}

#[test]
fn soft_kill_escalates_after_two_seconds() {
    let (mut flow, _) = KillFlow::start(7, false);
    flow.advance(sent(0));
    flow.advance(KillEvent::Probed { exited: false });
    // Just under two seconds: keep probing.
    assert!(matches!(flow.advance(KillEvent::Slept { now_ms: 1999 }), KillStep::Probe));
    flow.advance(KillEvent::Probed { exited: false });
    // Two seconds: fall back to KILL.
    let step = flow.advance(KillEvent::Slept { now_ms: 2000 });
    assert!(is_send(&step, KillSignal::Kill));
    assert!(matches!(flow.advance(sent(2001)), KillStep::Probe));
    match flow.advance(KillEvent::Probed { exited: true }) {
        KillStep::Finish(KillReport::Soft(Ok(SoftKillOutcome::EscalatedToForceKill))) => {},
        _ => panic!("expected an escalated soft kill"),
    }
}

#[test]
fn soft_kill_that_outlives_kill_fails() {
    let (mut flow, _) = KillFlow::start(99, false);
    flow.advance(sent(0));
    flow.advance(KillEvent::Probed { exited: false });
    flow.advance(KillEvent::Slept { now_ms: 2500 });
    flow.advance(sent(2500));
    flow.advance(KillEvent::Probed { exited: false });
    assert!(matches!(flow.advance(KillEvent::Slept { now_ms: 3499 }), KillStep::Probe));
    flow.advance(KillEvent::Probed { exited: false });
    match flow.advance(KillEvent::Slept { now_ms: 3500 }) {
        KillStep::Finish(KillReport::Soft(Err(e))) => {
            assert_eq!(e, "PID 99 did not exit after TERM timeout and KILL fallback")
        },
        _ => panic!("expected a failed soft kill"),
    }
}

#[test]
fn soft_kill_reports_a_send_failure() {
    let (mut flow, _) = KillFlow::start(5, false);
    match flow.advance(KillEvent::SignalSent { now_ms: 0, result: Err("PID 5 not found".to_string()) }) {
        KillStep::Finish(KillReport::Soft(Err(e))) => assert_eq!(e, "PID 5 not found"),
        _ => panic!("expected a failed soft kill"),
    }
}

#[test]
fn force_kill_sends_only_kill() {
    let (mut flow, step) = KillFlow::start(8, true);
    assert!(is_send(&step, KillSignal::Kill));
    flow.advance(sent(10));
    match flow.advance(KillEvent::Probed { exited: true }) {
        KillStep::Finish(KillReport::Force(Ok(()))) => {},
        _ => panic!("expected a successful force kill"),
    }
}

#[test]
fn force_kill_times_out_after_one_second() {
    let (mut flow, _) = KillFlow::start(8, true);
    flow.advance(sent(10));
    flow.advance(KillEvent::Probed { exited: false });
    match flow.advance(KillEvent::Slept { now_ms: 1010 }) {
        KillStep::Finish(KillReport::Force(Err(e))) => assert_eq!(e, "PID 8 did not exit after force kill"),
        _ => panic!("expected a timed out force kill"),
    }
}

#[test]
fn unexpected_events_repeat_the_pending_step() {
    let (mut flow, _) = KillFlow::start(8, false);
    let before = flow;
    assert!(is_send(&flow.advance(KillEvent::Probed { exited: true }), KillSignal::Term));
    assert_eq!(flow, before);
    flow.advance(sent(0));
    assert!(matches!(flow.advance(KillEvent::Slept { now_ms: 5 }), KillStep::Probe));
}
