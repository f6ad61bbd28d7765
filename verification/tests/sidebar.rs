use imp_tui::layout::Rect;
use imp_tui::views::sidebar::{compute_split, sidebar_sub_areas, wrap_into, Sidebar, SidebarStyle};
use imp_tui::config::ToolOutputDisplay;
use imp_tui::views::sidebar::apply_tool_output_limit;

#[test]
fn sidebar_default_state() {
    let sidebar = Sidebar::default();
    assert!(!sidebar.open);
    assert_eq!(sidebar.list_scroll, 0);
    assert_eq!(sidebar.detail_scroll, 0);
    assert!(!sidebar.first_tool_seen);
}

#[test]
fn sidebar_scroll_list() {
    let mut sidebar = Sidebar::default();
    sidebar.scroll_list_down(5);
    assert_eq!(sidebar.list_scroll, 5);
    sidebar.scroll_list_up(3);
    assert_eq!(sidebar.list_scroll, 2);
    sidebar.scroll_list_up(10);
    assert_eq!(sidebar.list_scroll, 0);
}

#[test]
fn sidebar_scroll_detail() {
    let mut sidebar = Sidebar::default();
    sidebar.scroll_detail_down(5);
    assert_eq!(sidebar.detail_scroll, 5);
    sidebar.scroll_detail_up(3);
    assert_eq!(sidebar.detail_scroll, 2);
    sidebar.scroll_detail_up(10);
    assert_eq!(sidebar.detail_scroll, 0);
}

#[test]
fn sidebar_ensure_selected_visible_scrolls_down() {
    let mut sidebar = Sidebar {
        list_height: 5,
        ..Sidebar::default()
    };
    sidebar.ensure_selected_visible(7);
    assert!(sidebar.list_scroll + 5 > 7);
}

#[test]
fn sidebar_ensure_selected_visible_scrolls_up() {
    let mut sidebar = Sidebar {
        list_height: 5,
        list_scroll: 10,
        ..Sidebar::default()
    };
    sidebar.ensure_selected_visible(3);
    assert_eq!(sidebar.list_scroll, 3);
}

#[test]
fn sidebar_ensure_selected_visible_scrolls_down_exactly() {
    let mut sidebar = Sidebar {
        list_height: 5,
        ..Sidebar::default()
    };
    sidebar.ensure_selected_visible(7);
    assert_eq!(sidebar.list_scroll, 3);
}

#[test]
fn sidebar_ensure_selected_visible_keeps_visible_selection() {
    let mut sidebar = Sidebar {
        list_height: 5,
        list_scroll: 2,
        ..Sidebar::default()
    };
    sidebar.ensure_selected_visible(4);
    assert_eq!(sidebar.list_scroll, 2);
}

#[test]
fn sidebar_reset_detail_scroll_zeroes_it() {
    let mut sidebar = Sidebar::default();
    sidebar.scroll_detail_down(9);
    sidebar.reset_detail_scroll();
    assert_eq!(sidebar.detail_scroll, 0);
}

#[test]
fn compute_split_too_small() {
    let area = Rect::new(0, 0, 40, 4);
    let (list, sep, detail) = compute_split(area, 5);
    assert_eq!(list.height, 4);
    assert!(sep.is_none());
    assert_eq!(detail.height, 0);
}

#[test]
fn compute_split_few_tools() {
    let area = Rect::new(0, 0, 40, 20);
    let (list, sep, detail) = compute_split(area, 3);
    assert!(sep.is_some());
    assert!(list.height >= 2);
    assert!(detail.height >= 3);
    assert_eq!(list.height as usize + 1 + detail.height as usize, 20);
}

#[test]
fn sidebar_sub_areas_stream_covers_full() {
    let sidebar = Rect::new(50, 0, 30, 20);
    let (top, bottom) = sidebar_sub_areas(sidebar, 5, SidebarStyle::Stream);
    assert_eq!(top.height, 20);
    assert_eq!(bottom.height, 0);
}

#[test]
fn sidebar_sub_areas_split_has_two_regions() {
    let sidebar = Rect::new(50, 0, 30, 20);
    let (top, bottom) = sidebar_sub_areas(sidebar, 5, SidebarStyle::Split);
    assert!(top.height > 0);
    assert!(bottom.height > 0);
}

#[test]
fn wrap_short_line_unchanged() {
    let mut out = Vec::new();
    wrap_into("hello", 10, &mut out);
    assert_eq!(out, vec!["hello"]);
}

#[test]
fn wrap_at_space() {
    let mut out = Vec::new();
    wrap_into("hello world foo", 11, &mut out);
    assert_eq!(out, vec!["hello world", "foo"]);
}

#[test]
fn wrap_long_word_force_break() {
    let mut out = Vec::new();
    wrap_into("abcdefghij", 4, &mut out);
    assert_eq!(out, vec!["abcd", "efgh", "ij"]);
}

#[test]
fn wrap_empty() {
    let mut out = Vec::new();
    wrap_into("", 10, &mut out);
    assert_eq!(out, vec![""]);
}

#[test]
fn wrap_zero_width_pushes_one_empty_line() {
    let mut out = vec!["kept".to_string()];
    wrap_into("anything", 0, &mut out);
    assert_eq!(out, vec!["kept", ""]);
}

#[test]
fn wrap_breaks_at_last_space_inside_window() {
    let mut out = Vec::new();
    wrap_into("ab cd efgh", 6, &mut out);
    assert_eq!(out, vec!["ab cd", "efgh"]);
}

#[test]
fn compact_tool_output_is_cut_with_an_ellipsis() {
    let lines: Vec<String> = vec!["a".into(), "b".into(), "c".into()];
    assert_eq!(
        apply_tool_output_limit(lines.clone(), ToolOutputDisplay::Compact, 2),
        vec!["a", "b", "…"]
    );
    assert_eq!(
        apply_tool_output_limit(lines.clone(), ToolOutputDisplay::Compact, 3),
        vec!["a", "b", "c"]
    );
    assert_eq!(
        apply_tool_output_limit(lines.clone(), ToolOutputDisplay::Full, 1),
        vec!["a", "b", "c"]
    );
}
