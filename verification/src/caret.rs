//! Where the text caret is on the screen, in whole physical pixels.

use vstd::prelude::*;

verus! {

/// A rectangle as the operating system reports it.
#[derive(Clone, Copy, Debug, PartialEq, Eq, Structural)]
pub struct PixelRect {
    pub left: i32,
    pub top: i32,
    pub right: i32,
    pub bottom: i32,
}

/// A caret: its top left corner, width and height.
#[derive(Clone, Copy, Debug, PartialEq, Eq, Structural)]
pub struct CaretRect {
    pub x: i64,
    pub y: i64,
    pub width: i64,
    pub height: i64,
}

/// The width of a caret that was not measured itself.
pub const CARET_WIDTH: i64 = 2;

/// The distance of a guessed caret from the edges of its field.
pub const FIELD_MARGIN: i64 = 6;

/// The least height of a guessed caret.
pub const LEAST_GUESS: i64 = 14;

/// The greatest height of a guessed caret.
pub const GREATEST_GUESS: i64 = 28;

/// The width of a rectangle, at least one pixel.
pub open spec fn width_of(r: PixelRect) -> int {
    if r.right - r.left >= 1 {
        r.right - r.left
    } else {
        1
    }
}

/// Whether a rectangle has a height.
pub open spec fn tall(r: PixelRect) -> bool {
    r.bottom > r.top
}

/// A number brought into a range.
pub open spec fn clamped(n: int, low: int, high: int) -> int {
    if n < low {
        low
    } else if n > high {
        high
    } else {
        n
    }
}

fn rect_width(r: PixelRect) -> (w: i64)
    ensures
        w == width_of(r),
{
    let w: i64 = r.right as i64 - r.left as i64;
    if w >= 1 {
        w
    } else {
        1
    }
}

/// A caret of the size of a rectangle at a place, where the rectangle has a height.
pub open spec fn placed(rect: PixelRect, x: i32, y: i32) -> Option<CaretRect> {
    if tall(rect) {
        Some(
            CaretRect {
                x: x as i64,
                y: y as i64,
                width: width_of(rect) as i64,
                height: (rect.bottom - rect.top) as i64,
            },
        )
    } else {
        None
    }
}

/// A rectangle on the screen as a caret, where it has a height.
pub open spec fn measured(rect: Option<PixelRect>) -> Option<CaretRect> {
    match rect {
        Some(r) => placed(r, r.left, r.top),
        None => None,
    }
}

/// The caret of a native edit control: its size from the rectangle in the window,
/// its place from where that rectangle starts on the screen.
pub fn native_caret(rect: PixelRect, screen_x: i32, screen_y: i32) -> (r: Option<CaretRect>)
    ensures
        r == placed(rect, screen_x, screen_y),
{
    if rect.bottom <= rect.top {
        return None;
    }
    Some(
        CaretRect {
            x: screen_x as i64,
            y: screen_y as i64,
            width: rect_width(rect),
            height: rect.bottom as i64 - rect.top as i64,
        },
    )
}

/// The first rectangle of a text range, where it has a height.
pub fn first_range_rect(first: Option<PixelRect>) -> (r: Option<CaretRect>)
    ensures
        r == measured(first),
{
    match first {
        Some(rect) => native_caret(rect, rect.left, rect.top),
        None => None,
    }
}

/// The caret as far as accessibility tells. Where there is a character before the
/// caret, and it could be measured, the caret is at its right edge; else at the left
/// edge of the character that it stands at; else near the top left corner of the
/// focused element.
pub open spec fn probed(
    moved: i32,
    before: Option<PixelRect>,
    at: Option<PixelRect>,
    element: Option<PixelRect>,
) -> Option<CaretRect> {
    match (measured(before), measured(at), element) {
        (Some(c), _, _) if moved != 0 => Some(
            CaretRect { x: (c.x + c.width) as i64, y: c.y, width: CARET_WIDTH, height: c.height },
        ),
        (_, Some(c), _) => Some(
            CaretRect { x: c.x, y: c.y, width: CARET_WIDTH, height: c.height },
        ),
        (_, None, Some(e)) => Some(
            CaretRect {
                x: (e.left + FIELD_MARGIN) as i64,
                y: (e.top + FIELD_MARGIN) as i64,
                width: CARET_WIDTH,
                height: clamped(
                    e.bottom - e.top - 2 * FIELD_MARGIN,
                    LEAST_GUESS as int,
                    GREATEST_GUESS as int,
                ) as i64,
            },
        ),
        (_, None, None) => None,
    }
}

/// The caret as far as accessibility tells. `before` is the rectangle of the
/// character before the caret, which is there where the range `moved` back; `at` is
/// that of the character that the caret stands at.
pub fn probed_caret(
    moved: i32,
    before: Option<PixelRect>,
    at: Option<PixelRect>,
    element: Option<PixelRect>,
) -> (r: Option<CaretRect>)
    ensures
        r == probed(moved, before, at, element),
{
    if moved != 0 {
        if let Some(c) = first_range_rect(before) {
            return Some(
                CaretRect { x: c.x + c.width, y: c.y, width: CARET_WIDTH, height: c.height },
            );
        }
    }
    if let Some(c) = first_range_rect(at) {
        return Some(CaretRect { x: c.x, y: c.y, width: CARET_WIDTH, height: c.height });
    }
    match element {
        Some(e) => {
            let inner: i64 = e.bottom as i64 - e.top as i64 - 2 * FIELD_MARGIN;
            let height: i64 = if inner < LEAST_GUESS {
                LEAST_GUESS
            } else if inner > GREATEST_GUESS {
                GREATEST_GUESS
            } else {
                inner
            };
            Some(
                CaretRect {
                    x: e.left as i64 + FIELD_MARGIN,
                    y: e.top as i64 + FIELD_MARGIN,
                    width: CARET_WIDTH,
                    height,
                },
            )
        },
        None => None,
    }
}

/// The caret on the screen: the native one where there is one, else the one that
/// accessibility tells.
pub fn caret_screen_rect(native: Option<CaretRect>, probed: Option<CaretRect>) -> (r: Option<
    CaretRect,
>)
    ensures
        r == (if native is Some {
            native
        } else {
            probed
        }),
{
    match native {
        Some(c) => Some(c),
        None => probed,
    }
}

/// A caret always has a positive size, however it was found.
pub proof fn law_carets_have_a_size(
    rect: PixelRect,
    x: i32,
    y: i32,
    moved: i32,
    before: Option<PixelRect>,
    at: Option<PixelRect>,
    element: Option<PixelRect>,
)
    ensures
        placed(rect, x, y) matches Some(c) ==> c.width > 0 && c.height > 0,
        probed(moved, before, at, element) matches Some(c) ==> c.width > 0 && c.height > 0,
{
}

/// Wherever the focused element has a place, a caret is found.
pub proof fn law_focused_elements_have_a_caret(
    moved: i32,
    before: Option<PixelRect>,
    at: Option<PixelRect>,
    element: PixelRect,
)
    ensures
        probed(moved, before, at, Some(element)) is Some,
{
}

/// A native caret stands where its rectangle starts on the screen and has the size of the
/// rectangle, at least one pixel wide; one without a height is none.
pub proof fn law_native_carets_keep_their_size(rect: PixelRect, x: i32, y: i32)
    ensures
        rect.bottom <= rect.top ==> placed(rect, x, y) is None,
        rect.bottom > rect.top ==> placed(rect, x, y) == Some(
            CaretRect {
                x: x as i64,
                y: y as i64,
                width: if rect.right > rect.left {
                    (rect.right - rect.left) as i64
                } else {
                    1
                },
                height: (rect.bottom - rect.top) as i64,
            },
        ),
{
}

/// A caret with a measured character before it stands at that character's right edge, or
/// one pixel in where it has no width, and is as tall.
pub proof fn law_carets_follow_the_character_before(
    moved: i32,
    before: PixelRect,
    at: Option<PixelRect>,
    element: Option<PixelRect>,
)
    requires
        moved != 0,
        before.bottom > before.top,
    ensures
        probed(moved, Some(before), at, element) == Some(
            CaretRect {
                x: if before.right > before.left {
                    before.right as i64
                } else {
                    (before.left + 1) as i64
                },
                y: before.top as i64,
                width: 2,
                height: (before.bottom - before.top) as i64,
            },
        ),
{
}

/// A caret without a character before it stands at the left edge of the character that it
/// is at, where that has a height, and is as tall.
pub proof fn law_carets_stand_at_their_character(
    moved: i32,
    before: Option<PixelRect>,
    at: PixelRect,
    element: Option<PixelRect>,
)
    requires
        moved == 0 || before is None || before->0.bottom <= before->0.top,
        at.bottom > at.top,
    ensures
        probed(moved, before, Some(at), element) == Some(
            CaretRect {
                x: at.left as i64,
                y: at.top as i64,
                width: 2,
                height: (at.bottom - at.top) as i64,
            },
        ),
{
}

/// A caret that nothing was measured of is guessed six pixels into the focused element, as
/// tall as fits between such margins, but not less than 14 and not more than 28 pixels;
/// without such an element there is none.
pub proof fn law_carets_are_guessed_from_the_element(
    moved: i32,
    before: Option<PixelRect>,
    at: Option<PixelRect>,
    element: Option<PixelRect>,
)
    requires
        moved == 0 || before is None || before->0.bottom <= before->0.top,
        at is None || at->0.bottom <= at->0.top,
    ensures
        element is None ==> probed(moved, before, at, element) is None,
        element matches Some(e) ==> {
            let inner = e.bottom - e.top - 12;
            &&& probed(moved, before, at, element) matches Some(c)
            &&& c.x == e.left + 6 && c.y == e.top + 6 && c.width == 2
            &&& inner <= 14 ==> c.height == 14
            &&& 14 <= inner <= 28 ==> c.height == inner
            &&& inner >= 28 ==> c.height == 28
        },
{
}

} // verus!
