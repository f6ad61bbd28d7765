use imp_tui::views::file_finder::{descends_into, sorted_file_list};

#[test]
fn walk_skips_hidden_and_build_directories() {
    assert!(descends_into("src"));
    assert!(descends_into("targets"));
    assert!(!descends_into(".git"));
    assert!(!descends_into(".cache"));
    assert!(!descends_into("node_modules"));
    assert!(!descends_into("target"));
    assert!(!descends_into("__pycache__"));
}

#[test]
fn collected_files_come_out_sorted() {
    let files = vec!["b.rs".to_string(), "a/c.rs".to_string(), "a.rs".to_string()];
    assert_eq!(sorted_file_list(files), vec!["a.rs", "a/c.rs", "b.rs"]);
}
