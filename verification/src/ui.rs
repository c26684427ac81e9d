//! The dashboard's interaction state: input modes, what each key does in each
//! mode, the table selection, the status line, and the guard that restores the
//! terminal once.

use vstd::prelude::*;
use crate::kill::{KillReport, SoftKillOutcome};
use crate::process::{selected_pid, selected_pid_from_visible, sort_label, sort_label_text, SortBy};
use crate::text::{
    append_str, decimal, occurs_in, pop_char, push_char, push_decimal, same_text,
    text_contains, text_of, trim_text, trimmed,
};

verus! {

broadcast use vstd::string::group_string_axioms;

/// What the keyboard currently drives.
#[derive(Clone, Copy, Debug, PartialEq, Eq, Structural)]
pub enum InputMode {
    /// Navigation, sorting and kill requests.
    Normal,
    /// Typing the search query.
    Search,
    /// Waiting for the user to confirm a kill of `pid`.
    ConfirmKill { pid: u32, force: bool },
}

/// The label of an input mode, as the status line shows it.
pub open spec fn mode_label_text(mode: InputMode) -> Seq<char> {
    match mode {
        InputMode::Normal => "NORMAL"@,
        InputMode::Search => "SEARCH"@,
        InputMode::ConfirmKill { .. } => "CONFIRM"@,
    }
}

/// The label of an input mode, as the status line shows it.
pub fn mode_label(mode: &InputMode) -> (label: &'static str)
    ensures
        label@ == mode_label_text(*mode),
{
    match mode {
        InputMode::Normal => "NORMAL",
        InputMode::Search => "SEARCH",
        InputMode::ConfirmKill { .. } => "CONFIRM",
    }
}

/// A key press, as far as the dashboard tells keys apart.
#[derive(Clone, Copy, Debug, PartialEq, Eq, Structural)]
pub enum Key {
    Char(char),
    Enter,
    Esc,
    Backspace,
    Up,
    Down,
    Other,
}

/// What the caller is to do after a key press.
#[derive(Clone, Copy, Debug, PartialEq, Eq, Structural)]
pub enum Command {
    /// Redraw and wait for the next event.
    Continue,
    /// Leave the dashboard.
    Quit,
    /// Kill `pid` (softly unless `force`), then report with `finish_kill`.
    Kill { pid: u32, force: bool },
}

/// The state of the dashboard between two events.
pub struct AppState {
    pub paused: bool,
    pub status_message: String,
    pub sort_by: SortBy,
    pub search_query: String,
    pub mode: InputMode,
    /// The selected row of the table, counted from the top.
    pub selected: Option<usize>,
}

/// The abstract dashboard state, with strings as character sequences.
#[verifier::ext_equal]
pub struct AppView {
    pub paused: bool,
    pub status: Seq<char>,
    pub sort_by: SortBy,
    pub query: Seq<char>,
    pub mode: InputMode,
    pub selected: Option<usize>,
}

impl View for AppState {
    type V = AppView;

    open spec fn view(&self) -> AppView {
        AppView {
            paused: self.paused,
            status: self.status_message@,
            sort_by: self.sort_by,
            query: self.search_query@,
            mode: self.mode,
            selected: self.selected,
        }
    }
}

/// The sort order that a key selects in normal mode, if any.
pub open spec fn sort_for_key(c: char) -> Option<SortBy> {
    if c == 'c' {
        Some(SortBy::CpuDesc)
    } else if c == 'm' {
        Some(SortBy::MemoryDesc)
    } else if c == 'r' {
        Some(SortBy::DiskReadDesc)
    } else if c == 'w' {
        Some(SortBy::DiskWriteDesc)
    } else if c == 'n' {
        Some(SortBy::NameAsc)
    } else if c == 'i' {
        Some(SortBy::PidAsc)
    } else {
        None
    }
}

/// The prompt that asks to confirm a kill.
pub open spec fn confirm_text(pid: u32, force: bool) -> Seq<char> {
    (if force {
        "Confirm force kill PID "@
    } else {
        "Confirm soft kill PID "@
    }) + decimal(pid as nat) + "? Press Enter/y to confirm, Esc/n to cancel"@
}

/// The row below `selected` in a table of `len > 0` rows (the first row when
/// none is selected), staying on the last row.
pub open spec fn row_below(selected: Option<usize>, len: nat) -> usize {
    match selected {
        Some(i) => if i + 1 < len {
            (i + 1) as usize
        } else {
            (len - 1) as usize
        },
        None => 0,
    }
}

/// The row above `selected` (the first row when none is selected), staying on
/// the first row.
pub open spec fn row_above(selected: Option<usize>) -> usize {
    match selected {
        Some(i) => if i > 0 {
            (i - 1) as usize
        } else {
            0
        },
        None => 0,
    }
}

/// What a key press does in search mode.
pub open spec fn on_search_key(s: AppView, key: Key) -> AppView {
    match key {
        Key::Esc => AppView {
            query: Seq::empty(),
            mode: InputMode::Normal,
            status: "Search cleared"@,
            selected: Some(0),
            ..s
        },
        Key::Enter => AppView {
            mode: InputMode::Normal,
            status: if trimmed(s.query).len() == 0 {
                "Search cleared"@
            } else {
                "Filter: "@ + s.query
            },
            selected: Some(0),
            ..s
        },
        Key::Backspace => {
            let q = if s.query.len() > 0 {
                s.query.drop_last()
            } else {
                s.query
            };
            AppView { query: q, status: "Search: "@ + q, selected: Some(0), ..s }
        },
        Key::Char(c) => {
            let q = s.query.push(c);
            AppView { query: q, status: "Search: "@ + q, selected: Some(0), ..s }
        },
        _ => s,
    }
}

/// What a key press does while a kill waits for confirmation.
pub open spec fn on_confirm_key(s: AppView, pid: u32, force: bool, key: Key) -> (AppView, Command) {
    if key == Key::Enter || key == Key::Char('y') {
        (s, Command::Kill { pid, force })
    } else if key == Key::Esc || key == Key::Char('n') {
        (AppView { mode: InputMode::Normal, status: "Kill cancelled"@, ..s }, Command::Continue)
    } else {
        (s, Command::Continue)
    }
}

/// What a key press does in normal mode, with `pids` the pids of the rows
/// the table shows.
pub open spec fn on_normal_key(s: AppView, key: Key, pids: Seq<u32>) -> (AppView, Command) {
    match key {
        Key::Char(c) => if c == 'q' {
            (s, Command::Quit)
        } else if c == 'p' {
            (AppView { paused: !s.paused, ..s }, Command::Continue)
        } else if c == '/' {
            (AppView { mode: InputMode::Search, status: "Search: "@ + s.query, ..s }, Command::Continue)
        } else if c == 'k' || c == 'K' {
            let force = c == 'K';
            match selected_pid(pids, s.selected) {
                Some(pid) => (
                    AppView { mode: InputMode::ConfirmKill { pid, force }, status: confirm_text(pid, force), ..s },
                    Command::Continue,
                ),
                None => (AppView { status: "No process selected"@, ..s }, Command::Continue),
            }
        } else {
            match sort_for_key(c) {
                Some(sort_by) => (
                    AppView {
                        sort_by,
                        status: "Sort: "@ + sort_label_text(sort_by),
                        selected: Some(0),
                        ..s
                    },
                    Command::Continue,
                ),
                None => (s, Command::Continue),
            }
        },
        Key::Down => if pids.len() > 0 {
            (AppView { selected: Some(row_below(s.selected, pids.len())), ..s }, Command::Continue)
        } else {
            (s, Command::Continue)
        },
        Key::Up => (AppView { selected: Some(row_above(s.selected)), ..s }, Command::Continue),
        _ => (s, Command::Continue),
    }
}

/// What a key press does, with `pids` the pids of the rows the table shows.
pub open spec fn on_key(s: AppView, key: Key, pids: Seq<u32>) -> (AppView, Command) {
    match s.mode {
        InputMode::Search => (on_search_key(s, key), Command::Continue),
        InputMode::ConfirmKill { pid, force } => on_confirm_key(s, pid, force, key),
        InputMode::Normal => on_normal_key(s, key, pids),
    }
}

/// The selection kept in range of a table of `len` rows: none for an empty
/// table, else the current row (the first when none is selected) but at most
/// the last row.
pub open spec fn clamped_selection(selected: Option<usize>, len: nat) -> Option<usize> {
    if len == 0 {
        None
    } else {
        let i = match selected {
            Some(i) => i,
            None => 0,
        };
        Some(if i < len { i } else { (len - 1) as usize })
    }
}

/// The status line after a kill of `pid` ended with `report`.
pub open spec fn kill_status_text(pid: u32, report: KillReport) -> Seq<char> {
    let p = decimal(pid as nat);
    match report {
        KillReport::Force(Ok(())) => "Force-killed PID "@ + p,
        KillReport::Force(Err(e)) => "Force kill failed for PID "@ + p + ": "@ + e@,
        KillReport::Soft(Ok(SoftKillOutcome::Terminated)) => "Soft-killed PID "@ + p,
        KillReport::Soft(Ok(SoftKillOutcome::EscalatedToForceKill)) => "Soft kill timed out; force-killed PID "@ + p,
        KillReport::Soft(Err(e)) => "Soft kill failed for PID "@ + p + ": "@ + e@,
    }
}

/// `prefix` followed by `rest`.
fn text_after(prefix: &str, rest: &str) -> (out: String)
    ensures
        out@ == prefix@ + rest@,
{
    let mut out = String::new();
    append_str(&mut out, prefix);
    append_str(&mut out, rest);
    assert(out@ =~= prefix@ + rest@);
    out
}

impl AppState {
    /// The state at start: refreshing, "Ready", sorted by CPU, no query,
    /// normal mode, first row selected.
    pub fn new() -> (s: AppState)
        ensures
            s@ == (AppView {
                paused: false,
                status: "Ready"@,
                sort_by: SortBy::CpuDesc,
                query: Seq::empty(),
                mode: InputMode::Normal,
                selected: Some(0),
            }),
    {
        let status_message = text_of("Ready");
        AppState {
            paused: false,
            status_message,
            sort_by: SortBy::CpuDesc,
            search_query: String::new(),
            mode: InputMode::Normal,
            selected: Some(0),
        }
    }

    /// Whether the process data is due for a refresh: not paused, and at least
    /// a tick has passed since the last one.
    pub fn refresh_due(&self, elapsed_ms: u64, tick_ms: u64) -> (due: bool)
        ensures
            due == (!self.paused && elapsed_ms >= tick_ms),
    {
        !self.paused && elapsed_ms >= tick_ms
    }

    /// Keeps the selection within a table of `visible_len` rows.
    pub fn clamp_selection(&mut self, visible_len: usize)
        ensures
            final(self)@ == (AppView {
                selected: clamped_selection(old(self).selected, visible_len as nat),
                ..old(self)@
            }),
    {
        if visible_len == 0 {
            self.selected = None;
        } else {
            let i = match self.selected {
                Some(i) => i,
                None => 0,
            };
            self.selected = Some(
                if i < visible_len {
                    i
                } else {
                    visible_len - 1
                },
            );
        }
    }

    fn show_query(&mut self, prefix: &str)
        ensures
            final(self)@ == (AppView { status: prefix@ + old(self).search_query@, ..old(self)@ }),
    {
        let status = text_after(prefix, self.search_query.as_str());
        self.status_message = status;
    }

    fn on_search_key(&mut self, key: Key)
        requires
            old(self).mode == InputMode::Search,
        ensures
            final(self)@ == on_search_key(old(self)@, key),
    {
        match key {
            Key::Esc => {
                self.search_query = String::new();
                self.mode = InputMode::Normal;
                self.status_message = text_of("Search cleared");
                self.selected = Some(0);
            },
            Key::Enter => {
                self.mode = InputMode::Normal;
                let trimmed_query = trim_text(self.search_query.as_str());
                if trimmed_query.as_str().is_empty() {
                    self.status_message = text_of("Search cleared");
                } else {
                    self.show_query("Filter: ");
                }
                self.selected = Some(0);
            },
            Key::Backspace => {
                let _ = pop_char(&mut self.search_query);
                self.show_query("Search: ");
                self.selected = Some(0);
            },
            Key::Char(c) => {
                push_char(&mut self.search_query, c);
                self.show_query("Search: ");
                self.selected = Some(0);
            },
            _ => {},
        }
        assert(self@ =~= on_search_key(old(self)@, key));
    }

    fn on_normal_key(&mut self, key: Key, visible_pids: &[u32]) -> (cmd: Command)
        requires
            old(self).mode == InputMode::Normal,
        ensures
            (final(self)@, cmd) == on_normal_key(old(self)@, key, visible_pids@),
    {
        match key {
            Key::Char(c) => {
                if c == 'q' {
                    return Command::Quit;
                } else if c == 'p' {
                    self.paused = !self.paused;
                } else if c == '/' {
                    self.mode = InputMode::Search;
                    self.show_query("Search: ");
                } else if c == 'k' || c == 'K' {
                    let force = c == 'K';
                    match selected_pid_from_visible(visible_pids, self.selected) {
                        Some(pid) => {
                            self.mode = InputMode::ConfirmKill { pid, force };
                            let mut status = String::new();
                            if force {
                                append_str(&mut status, "Confirm force kill PID ");
                            } else {
                                append_str(&mut status, "Confirm soft kill PID ");
                            }
                            push_decimal(&mut status, pid as u64);
                            append_str(&mut status, "? Press Enter/y to confirm, Esc/n to cancel");
                            self.status_message = status;
                            assert(self.status_message@ =~= confirm_text(pid, force));
                        },
                        None => {
                            self.status_message = text_of("No process selected");
                        },
                    }
                } else {
                    let choice = if c == 'c' {
                        Some(SortBy::CpuDesc)
                    } else if c == 'm' {
                        Some(SortBy::MemoryDesc)
                    } else if c == 'r' {
                        Some(SortBy::DiskReadDesc)
                    } else if c == 'w' {
                        Some(SortBy::DiskWriteDesc)
                    } else if c == 'n' {
                        Some(SortBy::NameAsc)
                    } else if c == 'i' {
                        Some(SortBy::PidAsc)
                    } else {
                        None
                    };
                    if let Some(sort_by) = choice {
                        self.sort_by = sort_by;
                        self.status_message = text_after("Sort: ", sort_label(sort_by));
                        self.selected = Some(0);
                    }
                }
            },
            Key::Down => {
                let len = visible_pids.len();
                if len > 0 {
                    let i = match self.selected {
                        Some(i) => if i < len - 1 {
                            i + 1
                        } else {
                            len - 1
                        },
                        None => 0,
                    };
                    self.selected = Some(i);
                }
            },
            Key::Up => {
                let i = match self.selected {
                    Some(i) => if i > 0 {
                        i - 1
                    } else {
                        0
                    },
                    None => 0,
                };
                self.selected = Some(i);
            },
            _ => {},
        }
        assert(self@ =~= on_normal_key(old(self)@, key, visible_pids@).0);
        Command::Continue
    }

    /// Takes one key press; `visible_pids` are the pids of the rows the table
    /// shows, top to bottom.
    pub fn handle_key(&mut self, key: Key, visible_pids: &[u32]) -> (cmd: Command)
        ensures
            (final(self)@, cmd) == on_key(old(self)@, key, visible_pids@),
    {
        match self.mode {
            InputMode::Search => {
                self.on_search_key(key);
                Command::Continue
            },
            InputMode::ConfirmKill { pid, force } => {
                if key == Key::Enter || key == Key::Char('y') {
                    Command::Kill { pid, force }
                } else if key == Key::Esc || key == Key::Char('n') {
                    self.mode = InputMode::Normal;
                    self.status_message = text_of("Kill cancelled");
                    assert(self@ =~= on_key(old(self)@, key, visible_pids@).0);
                    Command::Continue
                } else {
                    Command::Continue
                }
            },
            InputMode::Normal => self.on_normal_key(key, visible_pids),
        }
    }

    /// Reports how a kill of `pid` ended and returns to normal mode.
    pub fn finish_kill(&mut self, pid: u32, report: &KillReport)
        ensures
            final(self)@ == (AppView {
                mode: InputMode::Normal,
                status: kill_status_text(pid, *report),
                ..old(self)@
            }),
    {
        let mut status = String::new();
        match report {
            KillReport::Force(Ok(())) => {
                append_str(&mut status, "Force-killed PID ");
                push_decimal(&mut status, pid as u64);
            },
            KillReport::Force(Err(e)) => {
                append_str(&mut status, "Force kill failed for PID ");
                push_decimal(&mut status, pid as u64);
                append_str(&mut status, ": ");
                append_str(&mut status, e.as_str());
            },
            KillReport::Soft(Ok(SoftKillOutcome::Terminated)) => {
                append_str(&mut status, "Soft-killed PID ");
                push_decimal(&mut status, pid as u64);
            },
            KillReport::Soft(Ok(SoftKillOutcome::EscalatedToForceKill)) => {
                append_str(&mut status, "Soft kill timed out; force-killed PID ");
                push_decimal(&mut status, pid as u64);
            },
            KillReport::Soft(Err(e)) => {
                append_str(&mut status, "Soft kill failed for PID ");
                push_decimal(&mut status, pid as u64);
                append_str(&mut status, ": ");
                append_str(&mut status, e.as_str());
            },
        }
        assert(status@ =~= kill_status_text(pid, *report));
        self.status_message = status;
        self.mode = InputMode::Normal;
        assert(self@ =~= (AppView {
            mode: InputMode::Normal,
            status: kill_status_text(pid, *report),
            ..old(self)@
        }));
    }
}

// ---------------------------------------------------------------------------
// Laws of the interaction
// ---------------------------------------------------------------------------

/// A kill is issued only from the confirmation prompt, on Enter or `y`, for the
/// pid and the kind of kill that the prompt asked about; the state is left as
/// it was until the kill is reported.
pub proof fn lemma_kill_needs_confirmation(s: AppView, key: Key, pids: Seq<u32>, pid: u32, force: bool)
    requires
        on_key(s, key, pids).1 == (Command::Kill { pid, force }),
    ensures
        s.mode == (InputMode::ConfirmKill { pid, force }),
        key == Key::Enter || key == Key::Char('y'),
        on_key(s, key, pids).0 == s,
{
}

/// Asking for a kill with `k` (soft) or `K` (force) and confirming it kills the
/// process in the selected row, with the kind of kill asked for, whatever the
/// table shows by the time of the confirmation.
pub proof fn lemma_confirmed_kill_targets_selection(
    s: AppView,
    pids: Seq<u32>,
    ask: char,
    confirm: Key,
    later_pids: Seq<u32>,
    i: usize,
)
    requires
        s.mode == InputMode::Normal,
        s.selected == Some(i),
        i < pids.len(),
        ask == 'k' || ask == 'K',
        confirm == Key::Enter || confirm == Key::Char('y'),
    ensures
        on_key(s, Key::Char(ask), pids).1 == Command::Continue,
        on_key(on_key(s, Key::Char(ask), pids).0, confirm, later_pids).1 == (Command::Kill {
            pid: pids[i as int],
            force: ask == 'K',
        }),
{
}

/// Esc or `n` at the confirmation prompt cancels: back to normal mode, no kill.
pub proof fn lemma_cancel_kills_nothing(s: AppView, key: Key, pids: Seq<u32>, pid: u32, force: bool)
    requires
        s.mode == (InputMode::ConfirmKill { pid, force }),
        key == Key::Esc || key == Key::Char('n'),
    ensures
        on_key(s, key, pids).1 == Command::Continue,
        on_key(s, key, pids).0.mode == InputMode::Normal,
        on_key(s, key, pids).0.status == "Kill cancelled"@,
{
}

/// The dashboard quits only on `q` in normal mode; while searching, `q` is
/// typed into the query.
pub proof fn lemma_quit_only_from_normal_mode(s: AppView, key: Key, pids: Seq<u32>)
    ensures
        on_key(s, key, pids).1 == Command::Quit <==> (s.mode == InputMode::Normal && key == Key::Char('q')),
        s.mode == InputMode::Search && key == Key::Char('q') ==> on_key(s, key, pids).0.query == s.query.push('q'),
{
}

/// `p` toggles pausing and nothing else; pressing it twice restores the state.
pub proof fn lemma_pause_toggles(s: AppView, pids: Seq<u32>)
    requires
        s.mode == InputMode::Normal,
    ensures
        on_key(s, Key::Char('p'), pids).0 == (AppView { paused: !s.paused, ..s }),
        on_key(on_key(s, Key::Char('p'), pids).0, Key::Char('p'), pids).0 == s,
{
}

/// In search mode every typed character, whatever it is, goes at the end of
/// the query, which the status line then shows; pausing, sorting and the mode
/// are untouched and the selection returns to the top.
pub proof fn lemma_search_mode_types_every_char(s: AppView, c: char, pids: Seq<u32>)
    requires
        s.mode == InputMode::Search,
    ensures
        on_key(s, Key::Char(c), pids).1 == Command::Continue,
        on_key(s, Key::Char(c), pids).0.query == s.query.push(c),
        on_key(s, Key::Char(c), pids).0.status == "Search: "@ + s.query.push(c),
        on_key(s, Key::Char(c), pids).0.mode == InputMode::Search,
        on_key(s, Key::Char(c), pids).0.paused == s.paused,
        on_key(s, Key::Char(c), pids).0.sort_by == s.sort_by,
        on_key(s, Key::Char(c), pids).0.selected == Some(0usize),
{
}

/// No key in search mode pauses, sorts, quits or kills; Backspace removes the
/// last character of the query, if any.
pub proof fn lemma_search_mode_only_edits(s: AppView, key: Key, pids: Seq<u32>)
    requires
        s.mode == InputMode::Search,
    ensures
        on_key(s, key, pids).1 == Command::Continue,
        on_key(s, key, pids).0.paused == s.paused,
        on_key(s, key, pids).0.sort_by == s.sort_by,
        on_key(s, key, pids).0.mode == InputMode::Search || on_key(s, key, pids).0.mode == InputMode::Normal,
        key == Key::Backspace && s.query.len() > 0 ==> on_key(s, key, pids).0.query == s.query.subrange(
            0,
            s.query.len() - 1,
        ),
        key == Key::Backspace && s.query.len() == 0 ==> on_key(s, key, pids).0.query.len() == 0,
        key == Key::Enter ==> on_key(s, key, pids).0.query == s.query && on_key(s, key, pids).0.mode
            == InputMode::Normal,
{
}

/// In normal mode the sort keys choose the sort order and go back to the top
/// row: `c` CPU, `m` memory, `r` disk read, `w` disk write, `n` name, `i` pid;
/// nothing else changes but the status line.
pub proof fn lemma_sort_keys(s: AppView, c: char, pids: Seq<u32>)
    requires
        s.mode == InputMode::Normal,
        c == 'c' || c == 'm' || c == 'r' || c == 'w' || c == 'n' || c == 'i',
    ensures
        on_key(s, Key::Char(c), pids).1 == Command::Continue,
        on_key(s, Key::Char(c), pids).0.sort_by == (if c == 'c' {
            SortBy::CpuDesc
        } else if c == 'm' {
            SortBy::MemoryDesc
        } else if c == 'r' {
            SortBy::DiskReadDesc
        } else if c == 'w' {
            SortBy::DiskWriteDesc
        } else if c == 'n' {
            SortBy::NameAsc
        } else {
            SortBy::PidAsc
        }),
        on_key(s, Key::Char(c), pids).0.selected == Some(0usize),
        on_key(s, Key::Char(c), pids).0.mode == InputMode::Normal,
        on_key(s, Key::Char(c), pids).0.paused == s.paused,
        on_key(s, Key::Char(c), pids).0.query == s.query,
{
}

/// `/` in normal mode starts editing the current query, which the status line
/// shows; nothing else changes.
pub proof fn lemma_slash_starts_search(s: AppView, pids: Seq<u32>)
    requires
        s.mode == InputMode::Normal,
    ensures
        on_key(s, Key::Char('/'), pids).1 == Command::Continue,
        on_key(s, Key::Char('/'), pids).0.mode == InputMode::Search,
        on_key(s, Key::Char('/'), pids).0.query == s.query,
        on_key(s, Key::Char('/'), pids).0.status == "Search: "@ + s.query,
        on_key(s, Key::Char('/'), pids).0.paused == s.paused,
        on_key(s, Key::Char('/'), pids).0.selected == s.selected,
{
}

/// Down moves one row down and Up one row up within the table, staying on the
/// last and the first row.
pub proof fn lemma_moves_by_one_row(s: AppView, pids: Seq<u32>, i: usize)
    requires
        s.mode == InputMode::Normal,
        s.selected == Some(i),
        i < pids.len(),
    ensures
        i + 1 < pids.len() ==> on_key(s, Key::Down, pids).0.selected == Some((i + 1) as usize),
        i + 1 == pids.len() ==> on_key(s, Key::Down, pids).0.selected == Some(i),
        i > 0 ==> on_key(s, Key::Up, pids).0.selected == Some((i - 1) as usize),
        i == 0 ==> on_key(s, Key::Up, pids).0.selected == Some(0usize),
        on_key(s, Key::Down, pids).0.query == s.query && on_key(s, Key::Up, pids).0.query == s.query,
{
}

/// With no row selected or an empty table, `k` and `K` ask nothing: the mode
/// stays normal and the status line says that no process is selected; Down on
/// an empty table changes nothing.
pub proof fn lemma_no_selection_no_prompt(s: AppView, pids: Seq<u32>, c: char)
    requires
        s.mode == InputMode::Normal,
        c == 'k' || c == 'K',
        s.selected is None || s.selected->0 >= pids.len(),
    ensures
        on_key(s, Key::Char(c), pids).0.mode == InputMode::Normal,
        on_key(s, Key::Char(c), pids).0.status == "No process selected"@,
        on_key(s, Key::Char(c), pids).1 == Command::Continue,
        pids.len() == 0 ==> on_key(s, Key::Down, pids).0 == s,
{
}

/// Escape in search mode clears the query and returns to normal mode.
pub proof fn lemma_escape_clears_search(s: AppView, pids: Seq<u32>)
    requires
        s.mode == InputMode::Search,
    ensures
        on_key(s, Key::Esc, pids).0.query.len() == 0,
        on_key(s, Key::Esc, pids).0.mode == InputMode::Normal,
{
}

/// The clamped selection lies within the table: none for an empty table, a
/// row of it otherwise, and a selection already within it is kept.
pub proof fn lemma_clamped_selection_in_range(selected: Option<usize>, len: nat)
    ensures
        clamped_selection(selected, len) is None <==> len == 0,
        clamped_selection(selected, len) matches Some(i) ==> i < len,
        (selected matches Some(i) && i < len) ==> clamped_selection(selected, len) == selected,
        (selected matches Some(i) && i >= len && len > 0) ==> clamped_selection(selected, len) == Some(
            (len - 1) as usize,
        ),
        selected is None && len > 0 ==> clamped_selection(selected, len) == Some(0usize),
{
}

/// Moving up or down keeps a selection within a non-empty table.
pub proof fn lemma_moves_stay_in_range(s: AppView, key: Key, pids: Seq<u32>)
    requires
        s.mode == InputMode::Normal,
        key == Key::Up || key == Key::Down,
        pids.len() > 0,
        s.selected matches Some(i) ==> i < pids.len(),
    ensures
        on_key(s, key, pids).0.selected matches Some(i) && i < pids.len(),
{
}

// ---------------------------------------------------------------------------
// Footer styling
// ---------------------------------------------------------------------------

/// How the status line is highlighted.
#[derive(Clone, Copy, Debug, PartialEq, Eq, Structural)]
pub enum StatusTone {
    /// Something failed.
    Failure,
    /// Something was cancelled or cleared.
    Dismissed,
    /// Anything else.
    Plain,
}

/// The tone of a status line: failures first, then cancellations and cleared
/// searches.
pub open spec fn status_tone_of(status: Seq<char>) -> StatusTone {
    if occurs_in(status, "failed"@) {
        StatusTone::Failure
    } else if occurs_in(status, "cancelled"@) || occurs_in(status, "cleared"@) {
        StatusTone::Dismissed
    } else {
        StatusTone::Plain
    }
}

/// The tone of a status line.
pub fn status_tone(status: &str) -> (tone: StatusTone)
    ensures
        tone == status_tone_of(status@),
{
    if text_contains(status, "failed") {
        StatusTone::Failure
    } else if text_contains(status, "cancelled") || text_contains(status, "cleared") {
        StatusTone::Dismissed
    } else {
        StatusTone::Plain
    }
}

/// A status line is shown as a failure exactly when it mentions "failed", and
/// as dismissed exactly when it does not but mentions "cancelled" or "cleared".
pub proof fn lemma_status_tone_words(status: Seq<char>)
    ensures
        status_tone_of(status) == StatusTone::Failure <==> occurs_in(status, "failed"@),
        status_tone_of(status) == StatusTone::Dismissed <==> !occurs_in(status, "failed"@) && (occurs_in(
            status,
            "cancelled"@,
        ) || occurs_in(status, "cleared"@)),
{
}

/// How the mode badge is coloured.
#[derive(Clone, Copy, Debug, PartialEq, Eq, Structural)]
pub enum ModeTone {
    Normal,
    Search,
    Confirm,
    Other,
}

/// The tone of a mode label.
pub open spec fn mode_tone_of(label: Seq<char>) -> ModeTone {
    if label == "NORMAL"@ {
        ModeTone::Normal
    } else if label == "SEARCH"@ {
        ModeTone::Search
    } else if label == "CONFIRM"@ {
        ModeTone::Confirm
    } else {
        ModeTone::Other
    }
}

/// The tone of a mode label.
pub fn mode_tone(label: &str) -> (tone: ModeTone)
    ensures
        tone == mode_tone_of(label@),
{
    if same_text(label, "NORMAL") {
        ModeTone::Normal
    } else if same_text(label, "SEARCH") {
        ModeTone::Search
    } else if same_text(label, "CONFIRM") {
        ModeTone::Confirm
    } else {
        ModeTone::Other
    }
}

/// The pause badge: "PAUSED" or "UNPAUSED".
pub fn pause_label(paused: bool) -> (label: &'static str)
    ensures
        label@ == (if paused {
            "PAUSED"@
        } else {
            "UNPAUSED"@
        }),
{
    if paused {
        "PAUSED"
    } else {
        "UNPAUSED"
    }
}

// ---------------------------------------------------------------------------
// Terminal restoration
// ---------------------------------------------------------------------------

/// Tracks whether the terminal, once taken over, has been given back, so that
/// the normal exit, the drop of the session and the panic hook restore it once.
pub struct TerminalSession {
    restored: bool,
}

impl TerminalSession {
    /// Whether the terminal has been given back.
    pub closed spec fn is_restored(&self) -> bool {
        self.restored
    }

    /// A session over a terminal that has just been taken over.
    pub fn enter() -> (s: TerminalSession)
        ensures
            !s.is_restored(),
    {
        TerminalSession { restored: false }
    }

    /// Marks the terminal as given back; returns whether the caller must
    /// restore it now, which is so only the first time.
    pub fn restore(&mut self) -> (must_restore: bool)
        ensures
            must_restore == !old(self).is_restored(),
            final(self).is_restored(),
    {
        let must_restore = !self.restored;
        self.restored = true;
        must_restore
    }
}

} // verus!
