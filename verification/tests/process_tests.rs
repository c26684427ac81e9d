use process_dashboard::process::{
    listing_order, process_matches_query, selected_pid_from_visible, sort_label, sorted_processes,
    ProcessRow, SortBy,
};

fn row(pid: u32, name: &str, cmd: &[&str], cpu_rank: u32, memory: u64, read: u64, written: u64) -> ProcessRow {
    ProcessRow {
        pid,
        name: name.to_string(),
        cmd: cmd.iter().map(|s| s.to_string()).collect(),
        cpu_rank,
        memory,
        disk_read: read,
        disk_written: written,
    }
}

fn sample() -> Vec<ProcessRow> {
    vec![
        row(300, "firefox", &["firefox", "--private"], 50, 4000, 10, 20),
        row(12, "bash", &["/bin/bash"], 5, 100, 300, 1),
        row(4242, "python", &["python", "server.py"], 50, 9000, 30, 700),
        row(7, "Xorg", &["/usr/bin/Xorg", ":0"], 80, 100, 0, 0),
    ]
}

fn pids_of(rows: &[&ProcessRow]) -> Vec<u32> {
    rows.iter().map(|r| r.pid).collect()
}

#[test]
fn process_query_matches_name_cmd_and_pid_case_insensitive() {
    let pid = 4242u32;
    assert!(process_matches_query("Firefox", "firefox --private", pid, "fire"));
    assert!(process_matches_query("daemon", "python server.py", pid, "PYTHON"));
    assert!(process_matches_query("daemon", "python server.py", pid, "4242"));
    assert!(!process_matches_query("daemon", "python server.py", pid, "nomatch"));
}

#[test]
fn selected_pid_from_visible_returns_expected_index() {
    let pids = vec![10u32, 22u32, 35u32];
    assert_eq!(selected_pid_from_visible(&pids, Some(1)), Some(22u32));
    assert_eq!(selected_pid_from_visible(&pids, Some(3)), None);
    assert_eq!(selected_pid_from_visible(&pids, None), None);
}

#[test]
fn sort_labels_are_stable() {
    assert_eq!(sort_label(SortBy::CpuDesc), "CPU desc");
    assert_eq!(sort_label(SortBy::MemoryDesc), "Memory desc");
    assert_eq!(sort_label(SortBy::DiskReadDesc), "Disk Read desc");
    assert_eq!(sort_label(SortBy::DiskWriteDesc), "Disk Write desc");
    assert_eq!(sort_label(SortBy::NameAsc), "Name asc");
    assert_eq!(sort_label(SortBy::PidAsc), "PID asc");
}

#[test]
fn cpu_sort_is_descending_and_keeps_ties_in_input_order() {
    let rows = sample();
    let out = sorted_processes(&rows, SortBy::CpuDesc, "");
    assert_eq!(pids_of(&out), vec![7, 300, 4242, 12]);
}

#[test]
fn memory_sort_is_descending_with_stable_ties() {
    let rows = sample();
    let out = sorted_processes(&rows, SortBy::MemoryDesc, "");
    assert_eq!(pids_of(&out), vec![4242, 300, 12, 7]);
}

#[test]
fn disk_sorts_are_descending() {
    let rows = sample();
    assert_eq!(pids_of(&sorted_processes(&rows, SortBy::DiskReadDesc, "")), vec![12, 4242, 300, 7]);
    assert_eq!(pids_of(&sorted_processes(&rows, SortBy::DiskWriteDesc, "")), vec![4242, 300, 12, 7]);
}

#[test]
fn name_sort_is_ascending_by_code_point() {
    let rows = sample();
    // Upper case letters come before lower case ones, as byte order has it.
    assert_eq!(pids_of(&sorted_processes(&rows, SortBy::NameAsc, "")), vec![7, 12, 300, 4242]);
}

#[test]
fn pid_sort_is_ascending() {
    let rows = sample();
    assert_eq!(pids_of(&sorted_processes(&rows, SortBy::PidAsc, "")), vec![7, 12, 300, 4242]);
}

#[test]
fn query_filters_by_name_command_and_pid() {
    let rows = sample();
    assert_eq!(pids_of(&sorted_processes(&rows, SortBy::PidAsc, "BIN")), vec![7, 12]);
    assert_eq!(pids_of(&sorted_processes(&rows, SortBy::PidAsc, "server")), vec![4242]);
    assert_eq!(pids_of(&sorted_processes(&rows, SortBy::PidAsc, "30")), vec![300]);
    assert_eq!(pids_of(&sorted_processes(&rows, SortBy::PidAsc, "zzz")), Vec::<u32>::new());
}

#[test]
fn query_is_trimmed_and_blank_query_keeps_everything() {
    let rows = sample();
    assert_eq!(pids_of(&sorted_processes(&rows, SortBy::PidAsc, "  fire \t")), vec![300]);
    assert_eq!(pids_of(&sorted_processes(&rows, SortBy::PidAsc, "   ")), vec![7, 12, 300, 4242]);
}

#[test]
fn listing_order_gives_positions_in_the_input() {
    let rows = sample();
    assert_eq!(listing_order(&rows, SortBy::CpuDesc, ""), vec![3, 0, 2, 1]);
    assert_eq!(listing_order(&rows, SortBy::MemoryDesc, "x"), vec![0, 3]);
}

#[test]
fn equal_names_keep_input_order() {
    let rows = vec![
        row(9, "same", &[], 0, 0, 0, 0),
        row(3, "same", &[], 0, 0, 0, 0),
        row(5, "sam", &[], 0, 0, 0, 0),
    ];
    assert_eq!(pids_of(&sorted_processes(&rows, SortBy::NameAsc, "")), vec![5, 9, 3]);
}

#[test]
fn empty_table_lists_nothing() {
    let rows: Vec<ProcessRow> = Vec::new();
    assert!(sorted_processes(&rows, SortBy::CpuDesc, "a").is_empty());
}
