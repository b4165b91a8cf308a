use handy::caret::{
    caret_screen_rect, first_range_rect, native_caret, probed_caret, CaretRect, PixelRect,
};
use handy::ghost::{hide_ghost, set_state, show_at_caret, GhostAction};

fn rect(left: i32, top: i32, right: i32, bottom: i32) -> PixelRect {
    PixelRect { left, top, right, bottom }
}

fn caret(x: i64, y: i64, width: i64, height: i64) -> CaretRect {
    CaretRect { x, y, width, height }
}

#[test]
fn native_carets_need_a_height() {
    assert_eq!(native_caret(rect(1, 2, 4, 20), 101, 202), Some(caret(101, 202, 3, 18)));
    assert_eq!(native_caret(rect(1, 2, 1, 20), 101, 202), Some(caret(101, 202, 1, 18)));
    assert_eq!(native_caret(rect(1, 2, 4, 2), 101, 202), None);
    assert_eq!(native_caret(rect(1, 2, 4, 1), 101, 202), None);
    assert_eq!(
        native_caret(rect(i32::MIN, i32::MIN, i32::MAX, i32::MAX), 0, 0),
        Some(caret(0, 0, 4294967295, 4294967295))
    );
}

#[test]
fn ranges_are_measured_by_their_first_rectangle() {
    assert_eq!(first_range_rect(Some(rect(5, 6, 15, 26))), Some(caret(5, 6, 10, 20)));
    assert_eq!(first_range_rect(Some(rect(5, 6, 15, 6))), None);
    assert_eq!(first_range_rect(None), None);
}

#[test]
fn the_caret_is_behind_the_character_before_it() {
    let before = Some(rect(5, 6, 15, 26));
    let at = Some(rect(50, 6, 60, 30));
    assert_eq!(probed_caret(-1, before, at, None), Some(caret(15, 6, 2, 20)));
    assert_eq!(probed_caret(0, before, at, None), Some(caret(50, 6, 2, 24)));
    assert_eq!(probed_caret(-1, Some(rect(5, 6, 15, 6)), at, None), Some(caret(50, 6, 2, 24)));
}

#[test]
fn the_caret_is_guessed_from_the_element() {
    for (bottom, height) in [(30, 14), (46, 24), (120, 28)] {
        let element = Some(rect(10, 10, 300, bottom));
        assert_eq!(probed_caret(0, None, None, element), Some(caret(16, 16, 2, height)));
    }
    assert_eq!(probed_caret(-1, None, None, None), None);
}

#[test]
fn the_native_caret_is_preferred() {
    let native = Some(caret(1, 1, 1, 1));
    let probed = Some(caret(2, 2, 2, 2));
    assert_eq!(caret_screen_rect(native, probed), native);
    assert_eq!(caret_screen_rect(None, probed), probed);
    assert_eq!(caret_screen_rect(None, None), None);
}

#[test]
fn the_ghost_is_shown_at_the_caret_or_not_at_all() {
    match show_at_caret(true, Some(caret(1, 2, 2, 20)), "listening") {
        GhostAction::Place { caret: at, line_height, state } => {
            assert_eq!(at, caret(1, 2, 2, 20));
            assert_eq!(line_height, 20);
            assert_eq!(state, "listening");
        }
        other => panic!("{other:?}"),
    }
    match show_at_caret(true, Some(caret(1, 2, 2, 4)), "listening") {
        GhostAction::Place { line_height, .. } => assert_eq!(line_height, 22),
        other => panic!("{other:?}"),
    }
    assert!(matches!(show_at_caret(true, None, "listening"), GhostAction::Nothing));
    assert!(matches!(show_at_caret(false, Some(caret(1, 2, 2, 20)), "x"), GhostAction::Nothing));
}

#[test]
fn a_visible_ghost_stays_where_it_is() {
    assert!(matches!(
        set_state(Some(true), "processing"),
        GhostAction::Announce { state } if state == "processing"
    ));
    assert!(matches!(
        set_state(Some(false), "processing"),
        GhostAction::ShowAtCaret { state } if state == "processing"
    ));
    assert!(matches!(set_state(None, "processing"), GhostAction::Nothing));
}

#[test]
fn a_hidden_ghost_is_cleared() {
    assert!(matches!(hide_ghost(true), GhostAction::Hide { state } if state == "hidden"));
    assert!(matches!(hide_ghost(false), GhostAction::Nothing));
}
