use imp_tui::views::top_bar::shorten_path;

#[test]
fn shorten_path_under_limit() {
    assert_eq!(shorten_path("~/tower/imp", 30), "~/tower/imp");
}

#[test]
fn shorten_path_over_limit() {
    let long = "/Users/asher/very/long/deeply/nested/project/path";
    let short = shorten_path(long, 25);
    assert!(short.len() <= 27);
    assert!(short.starts_with('…'));
}

#[test]
fn shorten_path_keeps_trailing_components_that_fit() {
    let long = "/Users/asher/very/long/deeply/nested/project/path";
    assert_eq!(shorten_path(long, 25), "…/nested/project/path");
}

#[test]
fn shorten_path_exact_limit_is_unchanged() {
    assert_eq!(shorten_path("abc/def", 7), "abc/def");
}

#[test]
fn shorten_path_single_long_component_leaves_only_ellipsis() {
    assert_eq!(shorten_path("abcdefghij", 4), "…/");
}

#[test]
fn shorten_path_counts_bytes_not_characters() {
    // "é" is two bytes, so the whole path is 9 bytes long.
    assert_eq!(shorten_path("éé/abcd", 7), "…/abcd");
}
