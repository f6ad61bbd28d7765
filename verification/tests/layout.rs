use imp_tui::layout::{command_dropdown_area, point_in_rect, Rect};

#[test]
fn points_inside_and_outside() {
    let r = Rect::new(2, 3, 4, 5);
    assert!(point_in_rect(2, 3, Some(r)));
    assert!(point_in_rect(5, 7, Some(r)));
    assert!(!point_in_rect(6, 7, Some(r)));
    assert!(!point_in_rect(5, 8, Some(r)));
    assert!(!point_in_rect(1, 3, Some(r)));
    assert!(!point_in_rect(3, 4, None));
}

#[test]
fn dropdown_sits_above_the_editor() {
    let editor = Rect::new(1, 30, 100, 5);
    assert_eq!(command_dropdown_area(editor, 10), Rect::new(1, 20, 60, 10));
    let near_top = Rect::new(0, 4, 50, 5);
    assert_eq!(command_dropdown_area(near_top, 10), Rect::new(0, 0, 50, 4));
}
