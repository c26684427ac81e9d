use process_dashboard::kill::{KillReport, SoftKillOutcome};
use process_dashboard::process::SortBy;
use process_dashboard::ui::{
    mode_label, mode_tone, pause_label, status_tone, AppState, Command, InputMode, Key, ModeTone,
    StatusTone, TerminalSession,
};

fn typed(state: &mut AppState, text: &str) {
    for c in text.chars() {
        assert_eq!(state.handle_key(Key::Char(c), &[]), Command::Continue);
    }
}

#[test]
fn starts_ready_sorted_by_cpu() {
    let s = AppState::new();
    assert!(!s.paused);
    assert_eq!(s.status_message, "Ready");
    assert_eq!(s.sort_by, SortBy::CpuDesc);
    assert_eq!(s.search_query, "");
    assert_eq!(s.mode, InputMode::Normal);
    assert_eq!(s.selected, Some(0));
}

#[test]
fn mode_labels() {
    assert_eq!(mode_label(&InputMode::Normal), "NORMAL");
    assert_eq!(mode_label(&InputMode::Search), "SEARCH");
    assert_eq!(mode_label(&InputMode::ConfirmKill { pid: 1, force: true }), "CONFIRM");
}

#[test]
fn search_typing_backspace_and_apply() {
    let mut s = AppState::new();
    s.selected = Some(3);
    assert_eq!(s.handle_key(Key::Char('/'), &[]), Command::Continue);
    assert_eq!(s.mode, InputMode::Search);
    assert_eq!(s.status_message, "Search: ");
    typed(&mut s, "fiq");
    assert_eq!(s.search_query, "fiq");
    assert_eq!(s.status_message, "Search: fiq");
    s.handle_key(Key::Backspace, &[]);
    assert_eq!(s.search_query, "fi");
    assert_eq!(s.selected, Some(0));
    s.handle_key(Key::Enter, &[]);
    assert_eq!(s.mode, InputMode::Normal);
    assert_eq!(s.status_message, "Filter: fi");
    assert_eq!(s.search_query, "fi");
}

#[test]
fn blank_search_is_reported_cleared() {
    let mut s = AppState::new();
    s.handle_key(Key::Char('/'), &[]);
    typed(&mut s, "  ");
    s.handle_key(Key::Enter, &[]);
    assert_eq!(s.status_message, "Search cleared");
    assert_eq!(s.search_query, "  ");
}

#[test]
fn escape_clears_the_search() {
    let mut s = AppState::new();
    s.handle_key(Key::Char('/'), &[]);
    typed(&mut s, "abc");
    s.handle_key(Key::Esc, &[]);
    assert_eq!(s.search_query, "");
    assert_eq!(s.mode, InputMode::Normal);
    assert_eq!(s.status_message, "Search cleared");
}

#[test]
fn backspace_on_empty_query_keeps_it_empty() {
    let mut s = AppState::new();
    s.handle_key(Key::Char('/'), &[]);
    s.handle_key(Key::Backspace, &[]);
    assert_eq!(s.search_query, "");
    assert_eq!(s.status_message, "Search: ");
}

#[test]
fn q_quits_only_in_normal_mode() {
    let mut s = AppState::new();
    s.handle_key(Key::Char('/'), &[]);
    assert_eq!(s.handle_key(Key::Char('q'), &[]), Command::Continue);
    assert_eq!(s.search_query, "q");
    s.handle_key(Key::Enter, &[]);
    assert_eq!(s.handle_key(Key::Char('q'), &[]), Command::Quit);
}

#[test]
fn pause_toggles() {
    let mut s = AppState::new();
    s.handle_key(Key::Char('p'), &[]);
    assert!(s.paused);
    assert!(!s.refresh_due(5000, 1000));
    s.handle_key(Key::Char('p'), &[]);
    assert!(!s.paused);
    assert!(s.refresh_due(1000, 1000));
    assert!(!s.refresh_due(999, 1000));
}

#[test]
fn sort_keys() {
    let mut s = AppState::new();
    let cases = [
        ('m', SortBy::MemoryDesc, "Sort: Memory desc"),
        ('r', SortBy::DiskReadDesc, "Sort: Disk Read desc"),
        ('w', SortBy::DiskWriteDesc, "Sort: Disk Write desc"),
        ('n', SortBy::NameAsc, "Sort: Name asc"),
        ('i', SortBy::PidAsc, "Sort: PID asc"),
        ('c', SortBy::CpuDesc, "Sort: CPU desc"),
    ];
    for (c, sort_by, status) in cases {
        s.selected = Some(4);
        s.handle_key(Key::Char(c), &[1, 2, 3, 4, 5]);
        assert_eq!(s.sort_by, sort_by);
        assert_eq!(s.status_message, status);
        assert_eq!(s.selected, Some(0));
    }
}

#[test]
fn soft_kill_needs_confirmation_and_targets_the_selection() {
    let pids = [10u32, 22, 35];
    let mut s = AppState::new();
    s.selected = Some(1);
    assert_eq!(s.handle_key(Key::Char('k'), &pids), Command::Continue);
    assert_eq!(s.mode, InputMode::ConfirmKill { pid: 22, force: false });
    assert_eq!(
        s.status_message,
        "Confirm soft kill PID 22? Press Enter/y to confirm, Esc/n to cancel"
    );
    assert_eq!(s.handle_key(Key::Char('x'), &pids), Command::Continue);
    assert_eq!(s.handle_key(Key::Char('y'), &pids), Command::Kill { pid: 22, force: false });
    s.finish_kill(22, &KillReport::Soft(Ok(SoftKillOutcome::Terminated)));
    assert_eq!(s.mode, InputMode::Normal);
    assert_eq!(s.status_message, "Soft-killed PID 22");
}

#[test]
fn force_kill_prompt_and_cancel() {
    let pids = [10u32, 22, 35];
    let mut s = AppState::new();
    s.handle_key(Key::Char('K'), &pids);
    assert_eq!(s.mode, InputMode::ConfirmKill { pid: 10, force: true });
    assert_eq!(
        s.status_message,
        "Confirm force kill PID 10? Press Enter/y to confirm, Esc/n to cancel"
    );
    assert_eq!(s.handle_key(Key::Char('n'), &pids), Command::Continue);
    assert_eq!(s.mode, InputMode::Normal);
    assert_eq!(s.status_message, "Kill cancelled");
}

#[test]
fn kill_without_selection() {
    let mut s = AppState::new();
    s.handle_key(Key::Char('k'), &[]);
    assert_eq!(s.mode, InputMode::Normal);
    assert_eq!(s.status_message, "No process selected");
}

#[test]
fn kill_report_messages() {
    let mut s = AppState::new();
    s.finish_kill(5, &KillReport::Force(Ok(())));
    assert_eq!(s.status_message, "Force-killed PID 5");
    s.finish_kill(5, &KillReport::Force(Err("PID 5 not found".to_string())));
    assert_eq!(s.status_message, "Force kill failed for PID 5: PID 5 not found");
    s.finish_kill(6, &KillReport::Soft(Ok(SoftKillOutcome::EscalatedToForceKill)));
    assert_eq!(s.status_message, "Soft kill timed out; force-killed PID 6");
    s.finish_kill(6, &KillReport::Soft(Err("boom".to_string())));
    assert_eq!(s.status_message, "Soft kill failed for PID 6: boom");
}

#[test]
fn moving_the_selection() {
    let pids = [1u32, 2, 3];
    let mut s = AppState::new();
    s.handle_key(Key::Down, &pids);
    assert_eq!(s.selected, Some(1));
    s.handle_key(Key::Down, &pids);
    s.handle_key(Key::Down, &pids);
    assert_eq!(s.selected, Some(2));
    s.handle_key(Key::Up, &pids);
    assert_eq!(s.selected, Some(1));
    s.selected = None;
    s.handle_key(Key::Down, &pids);
    assert_eq!(s.selected, Some(0));
    s.handle_key(Key::Up, &pids);
    assert_eq!(s.selected, Some(0));
    s.selected = None;
    s.handle_key(Key::Down, &[]);
    assert_eq!(s.selected, None);
    s.handle_key(Key::Up, &[]);
    assert_eq!(s.selected, Some(0));
}

#[test]
fn clamping_the_selection() {
    let mut s = AppState::new();
    s.selected = Some(9);
    s.clamp_selection(3);
    assert_eq!(s.selected, Some(2));
    s.clamp_selection(0);
    assert_eq!(s.selected, None);
    s.clamp_selection(5);
    assert_eq!(s.selected, Some(0));
    s.selected = Some(1);
    s.clamp_selection(5);
    assert_eq!(s.selected, Some(1));
}

#[test]
fn status_tones() {
    assert_eq!(status_tone("Force kill failed for PID 5: x"), StatusTone::Failure);
    assert_eq!(status_tone("Kill cancelled"), StatusTone::Dismissed);
    assert_eq!(status_tone("Search cleared"), StatusTone::Dismissed);
    assert_eq!(status_tone("Ready"), StatusTone::Plain);
}

#[test]
fn mode_tones_and_pause_labels() {
    assert_eq!(mode_tone("NORMAL"), ModeTone::Normal);
    assert_eq!(mode_tone("SEARCH"), ModeTone::Search);
    assert_eq!(mode_tone("CONFIRM"), ModeTone::Confirm);
    assert_eq!(mode_tone("other"), ModeTone::Other);
    assert_eq!(pause_label(true), "PAUSED");
    assert_eq!(pause_label(false), "UNPAUSED");
}

#[test]
fn terminal_is_restored_once() {
    let mut session = TerminalSession::enter();
    assert!(session.restore());
    assert!(!session.restore());
    assert!(!session.restore());
}
