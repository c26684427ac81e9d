use process_dashboard::process::command_line;
use process_dashboard::process::ProcessRow;
use process_dashboard::text::{decimal_string, join_with_spaces, same_text, text_contains, trim_text};

#[test]
fn contains_finds_substrings() {
    assert!(text_contains("firefox --private", "--priv"));
    assert!(text_contains("abc", ""));
    assert!(text_contains("", ""));
    assert!(!text_contains("", "a"));
    assert!(!text_contains("ab", "abc"));
    assert!(text_contains("aaab", "aab"));
    assert!(text_contains("ünïcode", "ïc"));
}

#[test]
fn trim_removes_unicode_white_space_at_both_ends() {
    assert_eq!(trim_text("  a b  "), "a b");
    assert_eq!(trim_text("\t\n x\u{3000}"), "x");
    assert_eq!(trim_text("   "), "");
    assert_eq!(trim_text(""), "");
    assert_eq!(trim_text("ab"), "ab");
}

#[test]
fn decimal_renders_like_to_string() {
    for n in [0u64, 7, 10, 99, 100, 4242, 1234567890, u64::MAX] {
        assert_eq!(decimal_string(n), n.to_string());
    }
}

#[test]
fn same_text_compares_characters() {
    assert!(same_text("NORMAL", "NORMAL"));
    assert!(!same_text("NORMAL", "NORMA"));
    assert!(!same_text("abc", "abd"));
}

#[test]
fn arguments_join_with_single_spaces() {
    let parts = vec!["python".to_string(), "server.py".to_string(), "".to_string()];
    assert_eq!(join_with_spaces(&parts), "python server.py ");
    assert_eq!(join_with_spaces(&Vec::new()), "");
    let row = ProcessRow {
        pid: 1,
        name: "x".to_string(),
        cmd: vec!["/bin/sh".to_string(), "-c".to_string()],
        cpu_rank: 0,
        memory: 0,
        disk_read: 0,
        disk_written: 0,
    };
    assert_eq!(command_line(&row), "/bin/sh -c");
}

#[test]
fn trimming_twice_changes_nothing_more() {
    for s in ["  a b  ", "\u{2003}x\u{2003}", "", "   ", "q"] {
        let once = trim_text(s);
        assert_eq!(trim_text(&once), once);
        assert_eq!(once, s.trim());
    }
}
