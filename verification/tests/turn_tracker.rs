use imp_tui::turn_tracker::TurnTracker;

fn has(v: &[String], s: &str) -> bool {
    v.iter().any(|x| x == s)
}

#[test]
fn classifies_read_and_write_tools() {
    let mut tracker = TurnTracker::new();

    tracker.record_tool_start("id-1", "read", r#"{"path": "/tmp/foo.txt"}"#);
    tracker.record_tool_start("id-2", "write", r#"{"path": "/tmp/bar.txt"}"#);
    tracker.record_tool_start("id-3", "edit", r#"{"path": "/tmp/baz.txt"}"#);

    assert_eq!(tracker.tool_calls_started, 3);
    assert!(has(&tracker.files_read, "/tmp/foo.txt"));
    assert!(has(&tracker.files_written, "/tmp/bar.txt"));
    assert!(has(&tracker.files_created, "/tmp/bar.txt"));
    assert!(has(&tracker.files_written, "/tmp/baz.txt"));
    // edit should NOT go into files_created
    assert!(!has(&tracker.files_created, "/tmp/baz.txt"));

    tracker.record_tool_end("id-1", false);
    tracker.record_tool_end("id-2", false);
    tracker.record_tool_end("id-3", true);

    assert_eq!(tracker.tool_calls_completed, 3);
    assert_eq!(tracker.tool_errors, 1);
}

#[test]
fn classifies_bash_and_search_tools() {
    let mut tracker = TurnTracker::new();

    let long_cmd = "a".repeat(120);
    tracker.record_tool_start("id-bash", "bash", &format!("{{\"command\": \"{long_cmd}\"}}"));
    tracker.record_tool_start("id-bash-grep", "bash", r#"{"command": "grep foo ."}"#);
    tracker.record_tool_start("id-grep", "grep", r#"{"pattern": "foo"}"#);
    tracker.record_tool_start("id-find", "find", r#"{"pattern": "*.rs"}"#);
    tracker.record_tool_start("id-probe", "probe_search", r#"{"query": "error handling"}"#);
    tracker.record_tool_start("id-probe2", "probe_extract", r#"{"targets": []}"#);

    assert_eq!(tracker.commands_run.len(), 2);
    // Command should be truncated to 80 chars
    assert_eq!(tracker.commands_run[0].len(), 80);
    // bash grep + grep, find, probe_search, probe_extract = 5 search calls
    assert_eq!(tracker.searches, 5);
}

#[test]
fn reset_clears_all_state() {
    let mut tracker = TurnTracker::new();

    tracker.record_tool_start("id-1", "read", r#"{"path": "/tmp/a.txt"}"#);
    tracker.record_tool_start("id-2", "bash", r#"{"command": "ls"}"#);
    tracker.record_tool_end("id-1", false);
    tracker.record_tool_end("id-2", true);

    tracker.reset();

    assert_eq!(tracker.tool_calls_started, 0);
    assert_eq!(tracker.tool_calls_completed, 0);
    assert_eq!(tracker.tool_errors, 0);
    assert!(tracker.files_read.is_empty());
    assert!(tracker.commands_run.is_empty());
    assert_eq!(tracker.searches, 0);
}

#[test]
fn deduplicates_file_paths() {
    let mut tracker = TurnTracker::new();

    for i in 0..5 {
        tracker.record_tool_start(&format!("id-{i}"), "read", r#"{"path": "/tmp/same.txt"}"#);
    }

    assert_eq!(tracker.files_read.len(), 1);
}

#[test]
fn elapsed_increases_over_time() {
    let tracker = TurnTracker::new();
    let d1 = tracker.elapsed();
    let mut spin = 0u64;
    while tracker.elapsed() <= d1 {
        spin = spin.wrapping_add(1);
    }
    let d2 = tracker.elapsed();
    assert!(d2 > d1);
}

#[test]
fn paths_are_kept_in_string_order() {
    let mut tracker = TurnTracker::default();
    for p in ["/b", "/a", "/c", "/a", "/ab"] {
        tracker.record_tool_start("x", "read", &format!("{{\"path\": \"{p}\"}}"));
    }
    assert_eq!(tracker.files_read, vec!["/a", "/ab", "/b", "/c"]);
}

#[test]
fn bash_search_detection_trims_leading_space() {
    let mut tracker = TurnTracker::new();
    tracker.record_tool_start("1", "bash", r#"{"command": "  ls"}"#);
    tracker.record_tool_start("2", "bash", r#"{"command": "lsof"}"#);
    tracker.record_tool_start("3", "bash", r#"{"command": "find"}"#);
    tracker.record_tool_start("4", "bash", r#"{"cmd": "grep x"}"#);
    assert_eq!(tracker.searches, 2);
    assert_eq!(tracker.commands_run, vec!["  ls", "lsof", "find"]);
}

#[test]
fn non_string_path_is_ignored() {
    let mut tracker = TurnTracker::new();
    tracker.record_tool_start("1", "read", r#"{"path": 7}"#);
    tracker.record_tool_start("2", "write", "not json");
    assert!(tracker.files_read.is_empty());
    assert!(tracker.files_written.is_empty());
    assert_eq!(tracker.tool_calls_started, 2);
}
