//! The ghost preview: a click-through window at the text caret that shows the live
//! transcription.

use crate::caret::CaretRect;
use vstd::prelude::*;

verus! {

/// The label of the ghost window.
pub const GHOST_WINDOW_LABEL: &'static str = "ghost_preview";

/// The state of a ghost that is not shown.
pub const HIDDEN_STATE: &'static str = "hidden";

/// The height that stands in for a caret that is not tall enough to be one.
pub const FALLBACK_CARET_HEIGHT: i64 = 22;

/// What to do with the ghost window.
#[derive(Debug)]
pub enum GhostAction {
    Nothing,
    /// Tell the window its state; its size stays.
    Announce { state: String },
    /// Find the caret and show the window there.
    ShowAtCaret { state: String },
    /// Lay the window out for a line of the given height at the caret, tell it its
    /// state, and show it.
    Place { caret: CaretRect, line_height: i64, state: String },
    /// Hide the window, then tell it its state.
    Hide { state: String },
}

/// The line height that the ghost is laid out for.
pub open spec fn line_height(caret: CaretRect) -> i64 {
    if caret.height > 4 {
        caret.height
    } else {
        FALLBACK_CARET_HEIGHT
    }
}

/// Shows the ghost at the caret. Without a window nothing is done; nor without a
/// caret, since a preview in the wrong place is worse than none.
pub fn show_at_caret(has_window: bool, caret: Option<CaretRect>, state: &str) -> (r: GhostAction)
    ensures
        match (has_window, caret) {
            (true, Some(c)) => r matches GhostAction::Place { caret: at, line_height: h, state: s }
                && at == c && h == line_height(c) && s@ == state@,
            _ => r == GhostAction::Nothing,
        },
{
    if !has_window {
        return GhostAction::Nothing;
    }
    match caret {
        Some(caret) => {
            let line_height: i64 = if caret.height > 4 {
                caret.height
            } else {
                FALLBACK_CARET_HEIGHT
            };
            GhostAction::Place { caret, line_height, state: state.to_string() }
        },
        None => GhostAction::Nothing,
    }
}

/// Gives the ghost a new state. A visible one stays where it is; one that is not
/// visible is shown at the caret. `visible` is there where the window is.
pub fn set_state(visible: Option<bool>, state: &str) -> (r: GhostAction)
    ensures
        match visible {
            Some(true) => r matches GhostAction::Announce { state: s } && s@ == state@,
            Some(false) => r matches GhostAction::ShowAtCaret { state: s } && s@ == state@,
            None => r == GhostAction::Nothing,
        },
{
    match visible {
        Some(shown) => if shown {
            GhostAction::Announce { state: state.to_string() }
        } else {
            GhostAction::ShowAtCaret { state: state.to_string() }
        },
        None => GhostAction::Nothing,
    }
}

/// Hides the ghost and clears its text, so that it starts empty the next time.
pub fn hide_ghost(has_window: bool) -> (r: GhostAction)
    ensures
        if has_window {
            r matches GhostAction::Hide { state } && state@ == HIDDEN_STATE@
        } else {
            r == GhostAction::Nothing
        },
{
    if has_window {
        GhostAction::Hide { state: HIDDEN_STATE.to_string() }
    } else {
        GhostAction::Nothing
    }
}

/// The ghost is laid out for the height of the caret, unless that is four pixels or less;
/// then for 22.
pub proof fn law_lines_are_as_tall_as_the_caret(caret: CaretRect)
    ensures
        caret.height > 4 ==> line_height(caret) == caret.height,
        caret.height <= 4 ==> line_height(caret) == 22,
{
}

} // verus!
