//! What the window comes to: what a point of it is, how it is scaled, sized and
//! pinned, stated on numbers.

use vstd::prelude::*;

use crate::shell;
use crate::shell::{Fullscreen, Pin, Rect, Shell};

verus! {

// ── scaling ─────────────────────────────────────────────────────────────

/// A length is scaled by the resolution over 96, cut to a whole number; a resolution
/// below 96 counts as 96.
pub proof fn law_scaling(n: int, dpi: int)
    ensures
        ({
            let r = shell::scaled(n, dpi);
            let d = if dpi < 96 {
                96
            } else {
                dpi
            };
            &&& n >= 0 ==> 96 * r <= n * d < 96 * r + 96
            &&& n < 0 ==> 96 * r - 96 < n * d <= 96 * r
        }),
{
    let d = shell::at_least(dpi, 96);
    assert(n >= 0 ==> n * d >= 0) by (nonlinear_arith)
        requires
            d >= 96,
    ;
    assert(n < 0 ==> n * d < 0) by (nonlinear_arith)
        requires
            d >= 96,
    ;
}

/// Half of a number is cut towards zero.
pub proof fn law_halving(n: int)
    ensures
        n >= 0 ==> 2 * shell::halved(n) <= n <= 2 * shell::halved(n) + 1,
        n < 0 ==> 2 * shell::halved(n) - 1 <= n <= 2 * shell::halved(n),
{
}

// ── points of the window ────────────────────────────────────────────────

/// How wide the border of a window is: six, scaled, and one at least.
pub open spec fn border_at(dpi: int) -> int {
    if shell::scaled(6, dpi) < 1 {
        1
    } else {
        shell::scaled(6, dpi)
    }
}

/// What a point of the window is, as the numbers of the system tell it. A border and
/// its corners resize, but not of a maximized window. Inside, the titlebar drags,
/// where there is one: 32 high from the top, but for the last 138 to the right. All
/// else is the client's.
pub proof fn law_points_of_the_window(
    cx: int,
    cy: int,
    width: int,
    height: int,
    dpi: int,
    is_max: bool,
    has_titlebar: bool,
)
    ensures
        ({
            let h = shell::hit(cx, cy, width, height, dpi, is_max, has_titlebar);
            let b = border_at(dpi);
            let top = cy < b;
            let bottom = cy >= height - b;
            let left = cx < b;
            let right = cx >= width - b;
            let inside = is_max || !(top || bottom || left || right);
            let drags = has_titlebar && 0 <= cy < shell::scaled(32, dpi) && cx < width
                - shell::scaled(138, dpi);
            &&& inside && drags ==> h == 2
            &&& inside && !drags ==> h == 1
            &&& !is_max && top && left ==> h == 13
            &&& !is_max && top && !left && right ==> h == 14
            &&& !is_max && !top && bottom && left ==> h == 16
            &&& !is_max && !top && bottom && !left && right ==> h == 17
            &&& !is_max && top && !left && !right ==> h == 12
            &&& !is_max && !top && bottom && !left && !right ==> h == 15
            &&& !is_max && !top && !bottom && left ==> h == 10
            &&& !is_max && !top && !bottom && !left && right ==> h == 11
        }),
{
}

// ── sizes ───────────────────────────────────────────────────────────────

/// A window is no smaller than its buttons and its titlebar with 80 more, scaled, and
/// keeps a limit of its own that is higher.
pub proof fn law_smallest_size(width: int, height: int, dpi: int)
    ensures
        ({
            let (w, h) = shell::smallest((width, height), dpi);
            &&& w >= width && w >= shell::scaled(218, dpi)
            &&& w == width || w == shell::scaled(218, dpi)
            &&& h >= height && h >= shell::scaled(112, dpi)
            &&& h == height || h == shell::scaled(112, dpi)
        }),
{
}

/// Sizing keeps the shape: dragged at the top or the bottom, the height leads and the
/// right edge follows; dragged at an upper corner, the top follows; and otherwise the
/// bottom. No length becomes less than one.
pub proof fn law_sizing_keeps_the_shape(rect: Rect, edge: u32, follows: int)
    ensures
        ({
            let (left, top, right, bottom) = shell::constrained(rect, edge, follows);
            let length = if follows < 1 {
                1
            } else {
                follows
            };
            &&& left == rect.left
            &&& edge == 3 || edge == 6 ==> top == rect.top && bottom == rect.bottom && right
                == rect.left + length
            &&& edge == 4 || edge == 5 ==> right == rect.right && bottom == rect.bottom && top
                == rect.bottom - length
            &&& !(3 <= edge <= 6) ==> right == rect.right && top == rect.top && bottom == rect.top
                + length
        }),
{
}

/// The video lies below the titlebar and fills the rest; without a titlebar, in full
/// screen or pinned, it fills the window. It is one high at least.
pub proof fn law_video_fills_the_rest(s: Shell, height: int, dpi: int)
    ensures
        ({
            let (top, high) = shell::layout_of(s, height, dpi);
            &&& s.is_fullscreen || s.is_on_top ==> top == 0
            &&& !s.is_fullscreen && !s.is_on_top ==> top == shell::scaled(32, dpi)
            &&& high >= 1
            &&& height - top >= 1 ==> high == height - top
            &&& height - top < 1 ==> high == 1
        }),
{
}

// ── full screen and the pin ─────────────────────────────────────────────

/// A full-screen window has no frame and is a popup; the other bits of its style stay.
pub proof fn law_borderless_style(style: u32)
    ensures
        shell::borderless(style) & 0x00CF_0000 == 0,
        shell::borderless(style) & 0x8000_0000 == 0x8000_0000,
        shell::borderless(style) & 0x7F30_FFFF == style & 0x7F30_FFFF,
{
    assert(((style & !0x00CF_0000u32) | 0x8000_0000u32) & 0x00CF_0000u32 == 0) by (bit_vector);
    assert(((style & !0x00CF_0000u32) | 0x8000_0000u32) & 0x8000_0000u32 == 0x8000_0000u32)
        by (bit_vector);
    assert(((style & !0x00CF_0000u32) | 0x8000_0000u32) & 0x7F30_FFFFu32 == style & 0x7F30_FFFFu32)
        by (bit_vector);
}

/// Full screen is entered and left in turn. Entering remembers the window as it is;
/// leaving asks for what was remembered.
pub proof fn law_full_screen_in_turn(s: Shell, window: Rect, style: i64, exstyle: i64)
    ensures
        ({
            let (after, what) = shell::fullscreen_toggled(s, window, style, exstyle);
            &&& after.is_fullscreen == !s.is_fullscreen
            &&& after.is_on_top == s.is_on_top
            &&& after.prepin_rect == s.prepin_rect
            &&& s.is_fullscreen <==> what is Exit
            &&& !s.is_fullscreen ==> after.saved_rect == window && after.saved_style == style
                && after.saved_exstyle == exstyle
            &&& what matches Fullscreen::Exit { style: st, exstyle: ex, rect, maximize, topmost }
                ==> st == s.saved_style && ex == s.saved_exstyle && rect == s.saved_rect && topmost
                == s.is_on_top
        }),
{
}

/// Pinning and unpinning do something only where they change something. Pinning
/// remembers the place, snaps the window unless it is in full screen, and restores it
/// where it is maximized; unpinning forgets the place and does neither.
pub proof fn law_pinning(s: Shell, desired: bool, normal: Option<Rect>, is_max: bool)
    ensures
        ({
            let (after, what) = shell::pin_set(s, desired, normal, is_max);
            &&& what is None <==> s.is_on_top == desired
            &&& after.is_on_top == desired
            &&& after.is_fullscreen == s.is_fullscreen
            &&& after.saved_rect == s.saved_rect
            &&& s.is_on_top == desired ==> after == s
            &&& what matches Some(Pin { topmost, snap, restore }) ==> topmost == desired && snap == (
            desired && !s.is_fullscreen) && restore == (desired && is_max) && after.prepin_rect == (
            if desired {
                normal
            } else {
                None
            })
        }),
{
}

} // verus!
