//! The player's window: where its own chrome is, what its messages mean, and how
//! fullscreen and pinning change it.
//!
//! Lengths of the chrome are given for 96 dots per inch and scaled to those of the
//! window, so that what can be grabbed is what is drawn.

use serde_json::Value;
use vstd::prelude::*;

use crate::json;
use crate::json::JsonView;

verus! {

pub const TITLEBAR_LOGICAL_H: i32 = 32;

pub const WINDOW_BUTTONS_LOGICAL_W: i32 = 138;

pub const RESIZE_BORDER_LOGICAL: i32 = 6;

/// How much is left of the window beside its buttons and below its titlebar, at
/// the least.
pub const SMALLEST_REST: i32 = 80;

pub const HTCLIENT: u32 = 1;

pub const HTCAPTION: u32 = 2;

pub const HTLEFT: u32 = 10;

pub const HTRIGHT: u32 = 11;

pub const HTTOP: u32 = 12;

pub const HTTOPLEFT: u32 = 13;

pub const HTTOPRIGHT: u32 = 14;

pub const HTBOTTOM: u32 = 15;

pub const HTBOTTOMLEFT: u32 = 16;

pub const HTBOTTOMRIGHT: u32 = 17;

/// The style bits of an ordinary framed window.
pub const WS_OVERLAPPEDWINDOW: u32 = 0x00CF_0000;

pub const WS_POPUP: u32 = 0x8000_0000;

pub const WS_MAXIMIZE: u32 = 0x0100_0000;

#[derive(Debug, Clone, Copy, PartialEq, Eq, Structural)]
pub struct Point {
    pub x: i32,
    pub y: i32,
}

#[derive(Debug, Clone, Copy, PartialEq, Eq, Structural)]
pub struct Rect {
    pub left: i32,
    pub top: i32,
    pub right: i32,
    pub bottom: i32,
}

impl Rect {
    pub open spec fn wide(self) -> int {
        self.right - self.left
    }

    pub open spec fn high(self) -> int {
        self.bottom - self.top
    }
}

pub fn rect_width(rect: Rect) -> (r: i32)
    requires
        i32::MIN <= rect.wide() <= i32::MAX,
    ensures
        r == rect.wide(),
{
    rect.right - rect.left
}

pub fn rect_height(rect: Rect) -> (r: i32)
    requires
        i32::MIN <= rect.high() <= i32::MAX,
    ensures
        r == rect.high(),
{
    rect.bottom - rect.top
}

// ── scaling ─────────────────────────────────────────────────────────────

pub open spec fn at_least(n: int, least: int) -> int {
    if n < least {
        least
    } else {
        n
    }
}

/// A length for 96 dots per inch, for those that there are; what is less counts
/// as 96. What is left of a pixel is dropped.
pub open spec fn scaled(logical: int, dpi: int) -> int {
    let n = logical * at_least(dpi, 96);
    if n >= 0 {
        n / 96
    } else {
        -((-n) / 96)
    }
}

fn scale(logical: i32, dpi: i32) -> (r: i64)
    ensures
        r == scaled(logical as int, dpi as int),
        -0x4000_0000_0000_0000 <= r <= 0x4000_0000_0000_0000,
{
    let d: i64 = if dpi < 96 {
        96
    } else {
        dpi as i64
    };
    let l: i64 = logical as i64;
    assert(-0x4000_0000_0000_0000 <= l * d <= 0x4000_0000_0000_0000) by (nonlinear_arith)
        requires
            -0x8000_0000 <= l <= 0x7FFF_FFFF,
            96 <= d <= 0x7FFF_FFFF,
    ;
    let n: i64 = l * d;
    if n >= 0 {
        n / 96
    } else {
        let m: i64 = -n;
        let q: i64 = m / 96;
        -q
    }
}

/// Scales a length.
pub fn scale_for_dpi(logical: i32, dpi: i32) -> (r: i32)
    requires
        i32::MIN <= logical * at_least(dpi as int, 96) <= i32::MAX,
    ensures
        r == scaled(logical as int, dpi as int),
{
    let r: i64 = scale(logical, dpi);
    r as i32
}

// ── hits ────────────────────────────────────────────────────────────────

/// What a point of the window is: `cx` and `cy` are counted from its top left.
/// A window that is not maximized has a border to resize it by, and one with a
/// titlebar a strip to drag it by, which ends where the buttons begin.
pub open spec fn hit(
    cx: int,
    cy: int,
    width: int,
    height: int,
    dpi: int,
    is_max: bool,
    has_titlebar: bool,
) -> u32 {
    let border = at_least(scaled(RESIZE_BORDER_LOGICAL as int, dpi), 1);
    let top = !is_max && cy < border;
    let bottom = !is_max && cy >= height - border;
    let left = !is_max && cx < border;
    let right = !is_max && cx >= width - border;
    if top && left {
        HTTOPLEFT
    } else if top && right {
        HTTOPRIGHT
    } else if bottom && left {
        HTBOTTOMLEFT
    } else if bottom && right {
        HTBOTTOMRIGHT
    } else if top {
        HTTOP
    } else if bottom {
        HTBOTTOM
    } else if left {
        HTLEFT
    } else if right {
        HTRIGHT
    } else if has_titlebar && 0 <= cy < scaled(TITLEBAR_LOGICAL_H as int, dpi) && cx < width
        - scaled(WINDOW_BUTTONS_LOGICAL_W as int, dpi) {
        HTCAPTION
    } else {
        HTCLIENT
    }
}

/// Says what a point of the window is.
pub fn nc_hit(
    cx: i32,
    cy: i32,
    width: i32,
    height: i32,
    dpi: i32,
    is_max: bool,
    has_titlebar: bool,
) -> (r: u32)
    ensures
        r == hit(
            cx as int,
            cy as int,
            width as int,
            height as int,
            dpi as int,
            is_max,
            has_titlebar,
        ),
{
    let titlebar: i64 = scale(TITLEBAR_LOGICAL_H, dpi);
    let buttons: i64 = scale(WINDOW_BUTTONS_LOGICAL_W, dpi);
    let plain: i64 = scale(RESIZE_BORDER_LOGICAL, dpi);
    let border: i64 = if plain < 1 {
        1
    } else {
        plain
    };
    let x: i64 = cx as i64;
    let y: i64 = cy as i64;
    let top = !is_max && y < border;
    let bottom = !is_max && y >= height as i64 - border;
    let left = !is_max && x < border;
    let right = !is_max && x >= width as i64 - border;
    if top && left {
        return HTTOPLEFT;
    }
    if top && right {
        return HTTOPRIGHT;
    }
    if bottom && left {
        return HTBOTTOMLEFT;
    }
    if bottom && right {
        return HTBOTTOMRIGHT;
    }
    if top {
        return HTTOP;
    }
    if bottom {
        return HTBOTTOM;
    }
    if left {
        return HTLEFT;
    }
    if right {
        return HTRIGHT;
    }
    if has_titlebar && y >= 0 && y < titlebar && x < width as i64 - buttons {
        return HTCAPTION;
    }
    HTCLIENT
}

/// The smallest width and height of a window, scaled; larger ones are kept.
pub open spec fn smallest(current: (int, int), dpi: int) -> (int, int) {
    (
        at_least(current.0, scaled(WINDOW_BUTTONS_LOGICAL_W + SMALLEST_REST, dpi)),
        at_least(current.1, scaled(TITLEBAR_LOGICAL_H + SMALLEST_REST, dpi)),
    )
}

/// The smallest size of a window. It never shrinks below its own chrome.
pub fn min_track_size(width: i32, height: i32, dpi: i32) -> (r: (i32, i32))
    requires
        (WINDOW_BUTTONS_LOGICAL_W + SMALLEST_REST) * at_least(dpi as int, 96) <= i32::MAX,
    ensures
        (r.0 as int, r.1 as int) == smallest((width as int, height as int), dpi as int),
{
    let min_w: i32 = scale_for_dpi(WINDOW_BUTTONS_LOGICAL_W + SMALLEST_REST, dpi);
    let ghost d = at_least(dpi as int, 96);
    assert(0 <= 112 * d <= 218 * d) by (nonlinear_arith)
        requires
            d >= 96,
    ;
    let min_h: i32 = scale_for_dpi(TITLEBAR_LOGICAL_H + SMALLEST_REST, dpi);
    let w: i32 = if width < min_w {
        min_w
    } else {
        width
    };
    let h: i32 = if height < min_h {
        min_h
    } else {
        height
    };
    (w, h)
}

// ── the shape of the video ──────────────────────────────────────────────

pub const WMSZ_LEFT: u32 = 1;

pub const WMSZ_RIGHT: u32 = 2;

pub const WMSZ_TOP: u32 = 3;

pub const WMSZ_TOPLEFT: u32 = 4;

pub const WMSZ_TOPRIGHT: u32 = 5;

pub const WMSZ_BOTTOM: u32 = 6;

pub const WMSZ_BOTTOMLEFT: u32 = 7;

pub const WMSZ_BOTTOMRIGHT: u32 = 8;

/// Whether the height leads: dragging the top or the bottom edge, the width
/// follows; dragging any other edge or a corner, the height does.
pub open spec fn height_leads(edge: u32) -> bool {
    edge == WMSZ_TOP || edge == WMSZ_BOTTOM
}

pub fn leads_with_height(edge: u32) -> (r: bool)
    ensures
        r == height_leads(edge),
{
    edge == WMSZ_TOP || edge == WMSZ_BOTTOM
}

/// A rectangle that is dragged by an edge, with the side that follows at a length,
/// or at 1 where that is less. The corner that is not dragged stays.
pub open spec fn constrained(rect: Rect, edge: u32, follows: int) -> (int, int, int, int) {
    let length = at_least(follows, 1);
    if height_leads(edge) {
        (rect.left as int, rect.top as int, rect.left + length, rect.bottom as int)
    } else if edge == WMSZ_TOPLEFT || edge == WMSZ_TOPRIGHT {
        (rect.left as int, rect.bottom - length, rect.right as int, rect.bottom as int)
    } else {
        (rect.left as int, rect.top as int, rect.right as int, rect.top + length)
    }
}

/// Gives the side that follows its length.
pub fn constrain_rect_aspect(rect: &mut Rect, edge: u32, follows: i32)
    requires
        i32::MIN <= constrained(*old(rect), edge, follows as int).1,
        constrained(*old(rect), edge, follows as int).2 <= i32::MAX,
        constrained(*old(rect), edge, follows as int).3 <= i32::MAX,
    ensures
        (
            final(rect).left as int,
            final(rect).top as int,
            final(rect).right as int,
            final(rect).bottom as int,
        ) == constrained(*old(rect), edge, follows as int),
{
    let length: i32 = if follows < 1 {
        1
    } else {
        follows
    };
    if edge == WMSZ_TOP || edge == WMSZ_BOTTOM {
        rect.right = rect.left + length;
    } else if edge == WMSZ_TOPLEFT || edge == WMSZ_TOPRIGHT {
        rect.top = rect.bottom - length;
    } else {
        rect.bottom = rect.top + length;
    }
}

/// Half of a length; what is left over is dropped.
pub open spec fn halved(n: int) -> int {
    if n >= 0 {
        n / 2
    } else {
        -((-n) / 2)
    }
}

fn half(n: i64) -> (r: i64)
    requires
        i64::MIN < n,
    ensures
        r == halved(n as int),
{
    if n >= 0 {
        n / 2
    } else {
        let m: i64 = -n;
        let q: i64 = m / 2;
        -q
    }
}

/// Where a window is put to be in the middle of an area.
pub fn centred(area: Rect, width: i32, height: i32) -> (r: Point)
    requires
        i32::MIN <= area.left + halved(area.wide() - width) <= i32::MAX,
        i32::MIN <= area.top + halved(area.high() - height) <= i32::MAX,
    ensures
        r.x == area.left + halved(area.wide() - width),
        r.y == area.top + halved(area.high() - height),
{
    let across: i64 = area.right as i64 - area.left as i64 - width as i64;
    let down: i64 = area.bottom as i64 - area.top as i64 - height as i64;
    let x: i64 = area.left as i64 + half(across);
    let y: i64 = area.top as i64 + half(down);
    Point { x: x as i32, y: y as i32 }
}

// ── points in messages ──────────────────────────────────────────────────

/// Sixteen bits read as a signed number.
pub open spec fn signed_word(n: u32) -> int {
    if n < 0x8000 {
        n as int
    } else {
        n - 0x1_0000
    }
}

fn to_signed(n: u32) -> (r: i32)
    requires
        n < 0x1_0000,
    ensures
        r == signed_word(n),
{
    if n < 0x8000 {
        n as i32
    } else {
        n as i32 - 0x1_0000
    }
}

/// The point that a message carries: its lower half is across, its upper half
/// down.
pub fn message_point(packed: u32) -> (r: Point)
    ensures
        r.x == signed_word((packed % 0x1_0000) as u32),
        r.y == signed_word((packed / 0x1_0000) as u32),
{
    Point { x: to_signed(packed % 0x1_0000), y: to_signed(packed / 0x1_0000) }
}

/// The size that a message carries.
pub fn message_size(packed: u32) -> (r: (i32, i32))
    ensures
        r.0 == packed % 0x1_0000,
        r.1 == packed / 0x1_0000,
{
    ((packed % 0x1_0000) as i32, (packed / 0x1_0000) as i32)
}

/// How far a wheel turned, out of the keys and the turn that a message carries.
pub fn wheel_delta(packed: u32) -> (r: i32)
    ensures
        r == signed_word((packed / 0x1_0000) as u32),
{
    to_signed(packed / 0x1_0000)
}

fn to_word(n: i32) -> (r: u32)
    ensures
        r == n as int % 0x1_0000,
{
    if n >= 0 {
        n as u32 % 0x1_0000
    } else {
        let size: u64 = (-(n as i64)) as u64;
        let rest: u64 = size % 0x1_0000;
        if rest == 0 {
            0
        } else {
            (0x1_0000 - rest) as u32
        }
    }
}

/// Packs a point for a message: the lower halves of its numbers.
pub fn pack_point(p: Point) -> (r: u32)
    ensures
        r % 0x1_0000 == p.x as int % 0x1_0000,
        r / 0x1_0000 == p.y as int % 0x1_0000,
{
    let x: u32 = to_word(p.x);
    let y: u32 = to_word(p.y);
    assert((x + y * 0x1_0000) % 0x1_0000 == x && (x + y * 0x1_0000) / 0x1_0000 == y && x + y
        * 0x1_0000 <= u32::MAX) by (bit_vector)
        requires
            x < 0x1_0000,
            y < 0x1_0000,
    ;
    x + y * 0x1_0000
}

/// Follows the pointer.
#[derive(Debug, Clone, Copy, PartialEq, Eq, Structural)]
pub struct CursorMotion {
    pub last_pos: Option<Point>,
}

impl CursorMotion {
    pub fn new(last_pos: Option<Point>) -> (r: CursorMotion)
        ensures
            r.last_pos == last_pos,
    {
        CursorMotion { last_pos }
    }

    /// Takes a place of the pointer, and says whether it moved. The first place
    /// that is known is no move.
    pub fn observe(&mut self, point: Point) -> (r: bool)
        ensures
            r == (old(self).last_pos is Some && old(self).last_pos != Some(point)),
            final(self).last_pos == Some(point),
    {
        let moved = match self.last_pos {
            Some(last) => last.x != point.x || last.y != point.y,
            None => false,
        };
        self.last_pos = Some(point);
        moved
    }
}

// ── the state of the window ─────────────────────────────────────────────

/// How the window stands.
#[derive(Debug, Clone, Copy, PartialEq, Eq, Structural)]
pub struct Shell {
    pub is_fullscreen: bool,
    pub is_on_top: bool,
    pub saved_style: i64,
    pub saved_exstyle: i64,
    pub saved_rect: Rect,
    /// The place of the window before it was pinned.
    pub prepin_rect: Option<Rect>,
    pub cursor_hidden: bool,
    pub cursor_motion: CursorMotion,
    /// The window is covered, and nothing is drawn.
    pub standby: bool,
    /// The next tick draws, also without a new frame.
    pub force_present: bool,
}

/// What fullscreen asks of the window.
#[derive(Debug, Clone, Copy, PartialEq, Eq, Structural)]
pub enum Fullscreen {
    /// Take the style, and cover the monitor.
    Enter { style: i64 },
    /// Take the styles back; then maximize, or take the place back; then float
    /// above the others, if the window is pinned.
    Exit { style: i64, exstyle: i64, rect: Rect, maximize: bool, topmost: bool },
}

/// What pinning asks of the window.
#[derive(Debug, Clone, Copy, PartialEq, Eq, Structural)]
pub struct Pin {
    /// Float above the others, or no longer.
    pub topmost: bool,
    /// Take the shape of the video.
    pub snap: bool,
    /// Leave the maximized state first.
    pub restore: bool,
}

/// What a tick of the frame timer does.
#[derive(Debug, Clone, Copy, PartialEq, Eq, Structural)]
pub enum Tick {
    /// Nothing: the window is minimized.
    Rest,
    /// See whether the window is still covered.
    Poll,
    /// Draw and present.
    Present,
}

/// The style bits of a borderless window in place of those of a frame.
pub open spec fn borderless(style: u32) -> u32 {
    (style & !WS_OVERLAPPEDWINDOW) | WS_POPUP
}

pub open spec fn is_maximized_style(style: i64) -> bool {
    (style as u32) & WS_MAXIMIZE != 0
}

/// Where the video is in the client area.
#[derive(Debug, Clone, Copy, PartialEq, Eq, Structural)]
pub struct VideoPlace {
    pub top: i32,
    pub height: i32,
}

/// What is drawn of the client area: where the video begins, and how high it is.
/// Without a titlebar it begins at the top.
pub open spec fn layout_of(s: Shell, height: int, dpi: int) -> (int, int) {
    let top = if s.is_fullscreen || s.is_on_top {
        0
    } else {
        scaled(TITLEBAR_LOGICAL_H as int, dpi)
    };
    (top, at_least(height - top, 1))
}

impl Shell {
    /// A window that was just made, with the pointer at a place.
    pub fn new(cursor: Option<Point>) -> (r: Shell)
        ensures
            r == (Shell {
                is_fullscreen: false,
                is_on_top: false,
                saved_style: 0,
                saved_exstyle: 0,
                saved_rect: Rect { left: 0, top: 0, right: 0, bottom: 0 },
                prepin_rect: None,
                cursor_hidden: false,
                cursor_motion: CursorMotion { last_pos: cursor },
                standby: false,
                force_present: true,
            }),
    {
        Shell {
            is_fullscreen: false,
            is_on_top: false,
            saved_style: 0,
            saved_exstyle: 0,
            saved_rect: Rect { left: 0, top: 0, right: 0, bottom: 0 },
            prepin_rect: None,
            cursor_hidden: false,
            cursor_motion: CursorMotion::new(cursor),
            standby: false,
            force_present: true,
        }
    }

    /// Whether the frame is to be kept out of the work area of the monitor: a
    /// maximized window that is not fullscreen.
    pub fn keeps_to_work_area(&self, asked: bool, is_max: bool) -> (r: bool)
        ensures
            r == (asked && is_max && !self.is_fullscreen),
    {
        asked && is_max && !self.is_fullscreen
    }

    /// What the point that a message carries is to the window.
    pub fn hit_test(&self, packed: u32, window: Rect, dpi: i32, is_max: bool) -> (r: u32)
        requires
            i32::MIN <= window.wide() <= i32::MAX,
            i32::MIN <= window.high() <= i32::MAX,
            i32::MIN + 0x8000 <= window.left <= i32::MAX - 0x8000,
            i32::MIN + 0x8000 <= window.top <= i32::MAX - 0x8000,
        ensures
            r == if self.is_fullscreen {
                HTCLIENT
            } else {
                hit(
                    signed_word((packed % 0x1_0000) as u32) - window.left,
                    signed_word((packed / 0x1_0000) as u32) - window.top,
                    window.wide(),
                    window.high(),
                    dpi as int,
                    is_max,
                    !self.is_on_top,
                )
            },
    {
        if self.is_fullscreen {
            return HTCLIENT;
        }
        let p = message_point(packed);
        nc_hit(
            p.x - window.left,
            p.y - window.top,
            rect_width(window),
            rect_height(window),
            dpi,
            is_max,
            !self.is_on_top,
        )
    }

    /// The pointer moved over the window. Says whether the arrow is to be shown:
    /// the pointer was hidden, and it really moved.
    pub fn mouse_moved(&mut self, screen: Point) -> (r: bool)
        ensures
            r == (old(self).cursor_hidden && old(self).cursor_motion.last_pos is Some && old(
                self,
            ).cursor_motion.last_pos != Some(screen)),
            *final(self) == (Shell {
                cursor_hidden: old(self).cursor_hidden && !r,
                cursor_motion: CursorMotion { last_pos: Some(screen) },
                ..*old(self)
            }),
    {
        let moved = self.cursor_motion.observe(screen);
        if moved && self.cursor_hidden {
            self.cursor_hidden = false;
            true
        } else {
            false
        }
    }

    /// The overlay asks for a cursor, or for none.
    pub fn cursor_changed(&mut self, hidden: bool)
        ensures
            *final(self) == (Shell { cursor_hidden: hidden, ..*old(self) }),
    {
        self.cursor_hidden = hidden;
    }

    /// The video's place in a client area of a size: none where there is no area.
    /// The next tick draws.
    pub fn layout(&mut self, width: i32, height: i32, dpi: i32) -> (r: Option<VideoPlace>)
        requires
            TITLEBAR_LOGICAL_H * at_least(dpi as int, 96) <= i32::MAX,
        ensures
            width <= 0 || height <= 0 ==> r is None && *final(self) == *old(self),
            width > 0 && height > 0 ==> r is Some && (r->0.top as int, r->0.height as int) == layout_of(
                *old(self),
                height as int,
                dpi as int,
            ) && *final(self) == (Shell { force_present: true, ..*old(self) }),
    {
        if width <= 0 || height <= 0 {
            return None;
        }
        let top: i32 = if self.is_fullscreen || self.is_on_top {
            0
        } else {
            scale_for_dpi(TITLEBAR_LOGICAL_H, dpi)
        };
        proof {
            lemma_scaled(TITLEBAR_LOGICAL_H as int, dpi as int);
        }
        let left: i32 = height - top;
        let high: i32 = if left < 1 {
            1
        } else {
            left
        };
        self.force_present = true;
        Some(VideoPlace { top, height: high })
    }

    /// Goes fullscreen, or back. `window`, `style` and `exstyle` are those that
    /// the window has.
    pub fn toggle_fullscreen(&mut self, window: Rect, style: i64, exstyle: i64) -> (r: Fullscreen)
        ensures
            (*final(self), r) == fullscreen_toggled(*old(self), window, style, exstyle),
    {
        if self.is_fullscreen {
            self.is_fullscreen = false;
            Fullscreen::Exit {
                style: self.saved_style,
                exstyle: self.saved_exstyle,
                rect: self.saved_rect,
                maximize: (self.saved_style as u32) & WS_MAXIMIZE != 0,
                topmost: self.is_on_top,
            }
        } else {
            self.saved_rect = window;
            self.saved_style = style;
            self.saved_exstyle = exstyle;
            self.is_fullscreen = true;
            let bits: u32 = style as u32;
            let borderless: u32 = (bits & !WS_OVERLAPPEDWINDOW) | WS_POPUP;
            Fullscreen::Enter { style: borderless as i64 }
        }
    }

    /// Pins the window above the others, or no longer. A state that it is in
    /// already asks for nothing. `normal` is the place of the window when it is
    /// not maximized, if it is known.
    pub fn set_stay_on_top(&mut self, desired: bool, normal: Option<Rect>, is_max: bool) -> (r: Option<
        Pin,
    >)
        ensures
            (*final(self), r) == pin_set(*old(self), desired, normal, is_max),
    {
        if self.is_on_top == desired {
            return None;
        }
        self.is_on_top = desired;
        self.prepin_rect = if desired {
            normal
        } else {
            None
        };
        Some(Pin { topmost: desired, snap: desired && !self.is_fullscreen, restore: desired && is_max })
    }

    /// Whether resizing keeps to the shape of the video: only a pinned window
    /// does.
    pub fn locks_aspect(&self) -> (r: bool)
        ensures
            r == self.is_on_top,
    {
        self.is_on_top
    }

    /// What a tick of the frame timer does.
    pub fn tick(&self, minimized: bool) -> (r: Tick)
        ensures
            r == if minimized {
                Tick::Rest
            } else if self.standby {
                Tick::Poll
            } else {
                Tick::Present
            },
    {
        if minimized {
            Tick::Rest
        } else if self.standby {
            Tick::Poll
        } else {
            Tick::Present
        }
    }

    /// A covered window was looked at again. Once it shows, the next tick draws.
    pub fn polled(&mut self, occluded: bool)
        ensures
            *final(self) == if occluded {
                *old(self)
            } else {
                Shell { standby: false, force_present: true, ..*old(self) }
            },
    {
        if !occluded {
            self.standby = false;
            self.force_present = true;
        }
    }

    /// Whether the video is drawn anew: it has a new frame, or it is forced once.
    pub fn draws(&mut self, new_frame: bool) -> (r: bool)
        ensures
            r == (new_frame || old(self).force_present),
            *final(self) == (Shell {
                force_present: old(self).force_present && new_frame,
                ..*old(self)
            }),
    {
        if new_frame {
            return true;
        }
        let forced = self.force_present;
        self.force_present = false;
        forced
    }

    /// A frame was presented. A window that is covered goes to rest.
    pub fn presented(&mut self, occluded: bool)
        ensures
            *final(self) == (Shell { standby: old(self).standby || occluded, ..*old(self) }),
    {
        if occluded {
            self.standby = true;
        }
    }

    /// The place to remember of the window: that before fullscreen or before the
    /// pin, if it is in either. `normal` and `is_max` are those that it has.
    pub fn remembered(&self, normal: Rect, is_max: bool) -> (r: (Rect, bool))
        ensures
            r == place_to_remember(*self, normal, is_max),
    {
        if self.is_fullscreen {
            (self.saved_rect, (self.saved_style as u32) & WS_MAXIMIZE != 0)
        } else if self.is_on_top {
            match self.prepin_rect {
                Some(p) => (p, is_max),
                None => (normal, is_max),
            }
        } else {
            (normal, is_max)
        }
    }
}

/// Goes fullscreen, or back.
pub open spec fn fullscreen_toggled(s: Shell, window: Rect, style: i64, exstyle: i64) -> (
    Shell,
    Fullscreen,
) {
    if s.is_fullscreen {
        (
            Shell { is_fullscreen: false, ..s },
            Fullscreen::Exit {
                style: s.saved_style,
                exstyle: s.saved_exstyle,
                rect: s.saved_rect,
                maximize: is_maximized_style(s.saved_style),
                topmost: s.is_on_top,
            },
        )
    } else {
        (
            Shell {
                is_fullscreen: true,
                saved_rect: window,
                saved_style: style,
                saved_exstyle: exstyle,
                ..s
            },
            Fullscreen::Enter { style: borderless(style as u32) as i64 },
        )
    }
}

/// Pins the window, or no longer.
pub open spec fn pin_set(s: Shell, desired: bool, normal: Option<Rect>, is_max: bool) -> (
    Shell,
    Option<Pin>,
) {
    if s.is_on_top == desired {
        (s, None)
    } else {
        (
            Shell {
                is_on_top: desired,
                prepin_rect: if desired {
                    normal
                } else {
                    None
                },
                ..s
            },
            Some(
                Pin {
                    topmost: desired,
                    snap: desired && !s.is_fullscreen,
                    restore: desired && is_max,
                },
            ),
        )
    }
}

pub open spec fn place_to_remember(s: Shell, normal: Rect, is_max: bool) -> (Rect, bool) {
    if s.is_fullscreen {
        (s.saved_rect, is_maximized_style(s.saved_style))
    } else if s.is_on_top && s.prepin_rect is Some {
        (s.prepin_rect->0, is_max)
    } else {
        (normal, is_max)
    }
}

/// Whether the cursor of the overlay applies: over the client area it does.
pub fn overlay_cursor_applies(hit_code: u32) -> (r: bool)
    ensures
        r == (hit_code == HTCLIENT),
{
    hit_code == HTCLIENT
}

// ── the remembered place ────────────────────────────────────────────────

/// Where the window is put when it is made.
#[derive(Debug, Clone, Copy, PartialEq, Eq, Structural)]
pub struct Placement {
    pub left: i32,
    pub top: i32,
    pub width: i64,
    pub height: i64,
    pub maximized: bool,
}

/// A number of a record as one of 32 bits: of a larger one, the lower bits.
pub open spec fn low_field(v: JsonView, key: Seq<char>) -> Option<i32> {
    match json::int_field(v, key) {
        Some(n) => Some(n as i32),
        None => None,
    }
}

/// The place that a record tells, where it is complete and large enough.
pub open spec fn placement_in(v: JsonView) -> Option<Placement> {
    match (
        low_field(v, "left"@),
        low_field(v, "top"@),
        low_field(v, "right"@),
        low_field(v, "bottom"@),
        json::field(v, "maximized"@),
    ) {
        (Some(left), Some(top), Some(right), Some(bottom), Some(m)) => if right - left > 100
            && bottom - top > 100 {
            Some(
                Placement {
                    left,
                    top,
                    width: (right - left) as i64,
                    height: (bottom - top) as i64,
                    maximized: m == JsonView::Bool(true),
                },
            )
        } else {
            None
        },
        _ => None,
    }
}

fn low_int(v: &Value, key: &str) -> (r: Option<i32>)
    ensures
        r == low_field(json::json_view(*v), key@),
{
    match json::get_int(v, key) {
        Some(n) => Some(n as i32),
        None => None,
    }
}

/// Reads the place out of a record.
pub fn placement_of(v: &Value) -> (r: Option<Placement>)
    ensures
        r == placement_in(json::json_view(*v)),
{
    let maximized = match json::get_field(v, "maximized") {
        Some(m) => match m.as_bool() {
            Some(b) => b,
            None => false,
        },
        None => {
            return None;
        },
    };
    match (low_int(v, "left"), low_int(v, "top"), low_int(v, "right"), low_int(v, "bottom")) {
        (Some(left), Some(top), Some(right), Some(bottom)) => {
            let width: i64 = right as i64 - left as i64;
            let height: i64 = bottom as i64 - top as i64;
            if width > 100 && height > 100 {
                Some(Placement { left, top, width, height, maximized })
            } else {
                None
            }
        },
        _ => None,
    }
}

/// The place that a text tells, where there is one.
pub open spec fn placement_told(remembered: Option<Seq<char>>) -> Option<Placement> {
    match remembered {
        Some(t) => match json::json_parse(t) {
            Ok(v) => placement_in(v),
            Err(_) => None,
        },
        None => None,
    }
}

/// Reads the remembered place out of its text. Whether it is on a monitor is not
/// asked here.
pub fn load_window_placement(remembered: Option<&str>) -> (r: Option<Placement>)
    ensures
        r == placement_told(remembered.deep_view()),
{
    match remembered {
        Some(t) => match json::parse(t) {
            Ok(v) => placement_of(&v),
            Err(_) => None,
        },
        None => None,
    }
}

pub open spec fn placement_record(rect: Rect, maximized: bool) -> JsonView {
    let r = json::empty_record();
    let r = json::with_field(r, "left"@, JsonView::Int(rect.left as int));
    let r = json::with_field(r, "top"@, JsonView::Int(rect.top as int));
    let r = json::with_field(r, "right"@, JsonView::Int(rect.right as int));
    let r = json::with_field(r, "bottom"@, JsonView::Int(rect.bottom as int));
    json::with_field(r, "maximized"@, JsonView::Bool(maximized))
}

/// The place that is taken again of one that is remembered: it, where it is large
/// enough.
pub open spec fn place_again(rect: Rect, maximized: bool) -> Option<Placement> {
    if rect.wide() > 100 && rect.high() > 100 {
        Some(
            Placement {
                left: rect.left,
                top: rect.top,
                width: rect.wide() as i64,
                height: rect.high() as i64,
                maximized,
            },
        )
    } else {
        None
    }
}

/// The text in which a place is remembered. What is read of it is the place.
pub fn save_window_placement(rect: Rect, maximized: bool) -> (r: String)
    ensures
        r@ == json::json_compact(placement_record(rect, maximized)),
        placement_told(Some(r@)) == place_again(rect, maximized),
{
    let mut r = json::record();
    json::put(&mut r, "left", json::integer(rect.left as i64));
    json::put(&mut r, "top", json::integer(rect.top as i64));
    json::put(&mut r, "right", json::integer(rect.right as i64));
    json::put(&mut r, "bottom", json::integer(rect.bottom as i64));
    json::put(&mut r, "maximized", json::boolean(maximized));
    proof {
        law_placement_reads_back(rect, maximized);
    }
    json::print_compact(&r)
}

// ── laws ────────────────────────────────────────────────────────────────

proof fn lemma_scaled(logical: int, dpi: int)
    requires
        logical >= 0,
    ensures
        scaled(logical, dpi) >= logical,
{
    let d = at_least(dpi, 96);
    assert(logical * d >= logical * 96) by (nonlinear_arith)
        requires
            logical >= 0,
            d >= 96,
    ;
}

/// At every scale, the whole titlebar drags the window: inside the border and
/// left of the buttons every point of it is caption, and below it none is.
pub proof fn law_titlebar_drags(cx: int, cy: int, width: int, height: int, dpi: int)
    requires
        at_least(scaled(RESIZE_BORDER_LOGICAL as int, dpi), 1) <= cy < height - at_least(
            scaled(RESIZE_BORDER_LOGICAL as int, dpi),
            1,
        ),
        at_least(scaled(RESIZE_BORDER_LOGICAL as int, dpi), 1) <= cx < width - at_least(
            scaled(RESIZE_BORDER_LOGICAL as int, dpi),
            1,
        ),
    ensures
        (hit(cx, cy, width, height, dpi, false, true) == HTCAPTION) == (cy < scaled(
            TITLEBAR_LOGICAL_H as int,
            dpi,
        ) && cx < width - scaled(WINDOW_BUTTONS_LOGICAL_W as int, dpi)),
        hit(cx, cy, width, height, dpi, false, true) == HTCAPTION || hit(
            cx,
            cy,
            width,
            height,
            dpi,
            false,
            true,
        ) == HTCLIENT,
{
    lemma_scaled(RESIZE_BORDER_LOGICAL as int, dpi);
}

/// A maximized window has no border to resize it by.
pub proof fn law_maximized_has_no_border(
    cx: int,
    cy: int,
    width: int,
    height: int,
    dpi: int,
    has_titlebar: bool,
)
    ensures
        hit(cx, cy, width, height, dpi, true, has_titlebar) == HTCAPTION || hit(
            cx,
            cy,
            width,
            height,
            dpi,
            true,
            has_titlebar,
        ) == HTCLIENT,
{
}

/// A pinned window has no caption, but the same border as any other.
pub proof fn law_pinned_keeps_its_border(
    cx: int,
    cy: int,
    width: int,
    height: int,
    dpi: int,
    is_max: bool,
)
    ensures
        hit(cx, cy, width, height, dpi, is_max, false) != HTCAPTION,
        hit(cx, cy, width, height, dpi, is_max, true) != HTCAPTION ==> hit(
            cx,
            cy,
            width,
            height,
            dpi,
            is_max,
            false,
        ) == hit(cx, cy, width, height, dpi, is_max, true),
{
}

/// A window of the smallest size still has a caption to drag it by, at every
/// scale.
pub proof fn law_smallest_window_drags(width: int, height: int, dpi: int)
    requires
        width >= smallest((0, 0), dpi).0,
        height >= smallest((0, 0), dpi).1,
    ensures
        ({
            let b = at_least(scaled(RESIZE_BORDER_LOGICAL as int, dpi), 1);
            hit(b, b, width, height, dpi, false, true) == HTCAPTION
        }),
{
    let d = at_least(dpi, 96);
    let b = at_least(scaled(RESIZE_BORDER_LOGICAL as int, dpi), 1);
    assert(scaled(6, dpi) == 6 * d / 96);
    assert(scaled(32, dpi) == 32 * d / 96);
    assert(scaled(138, dpi) == 138 * d / 96);
    assert(scaled(218, dpi) == 218 * d / 96);
    assert(scaled(112, dpi) == 112 * d / 96);
}

/// Whether a window that is not maximized can be dragged by a point.
pub open spec fn is_caption(
    s: Shell,
    cx: int,
    cy: int,
    width: int,
    height: int,
    dpi: int,
) -> bool {
    hit(cx, cy, width, height, dpi, false, !s.is_on_top) == HTCAPTION
}

/// There is one way to drag the window at a time: it has a caption to be dragged by
/// exactly while it is not pinned. A pinned one is dragged by its surface.
pub proof fn law_one_drag_handle(s: Shell, width: int, height: int, dpi: int)
    requires
        width >= smallest((0, 0), dpi).0,
        height >= smallest((0, 0), dpi).1,
    ensures
        (exists|cx: int, cy: int| #[trigger] is_caption(s, cx, cy, width, height, dpi))
            == !s.is_on_top,
{
    let b = at_least(scaled(RESIZE_BORDER_LOGICAL as int, dpi), 1);
    law_smallest_window_drags(width, height, dpi);
    if !s.is_on_top {
        assert(is_caption(s, b, b, width, height, dpi));
    }
}

/// A number that fits in a half of a message is read as it was packed.
pub proof fn law_packed_numbers_read_back(n: int)
    requires
        -0x8000 <= n < 0x8000,
    ensures
        signed_word((n % 0x1_0000) as u32) == n,
{
}

/// A drag moves only the sides that it drags and the one that follows: the top
/// left stays, or for the upper corners the bottom.
pub proof fn law_drag_keeps_its_anchor(rect: Rect, edge: u32, follows: int)
    ensures
        ({
            let (left, top, right, bottom) = constrained(rect, edge, follows);
            &&& left == rect.left
            &&& top == rect.top || bottom == rect.bottom
            &&& height_leads(edge) ==> top == rect.top && bottom == rect.bottom && right - left
                == at_least(follows, 1)
            &&& !height_leads(edge) ==> right == rect.right && bottom - top == at_least(follows, 1)
            &&& edge != WMSZ_TOPLEFT && edge != WMSZ_TOPRIGHT ==> top == rect.top
        }),
{
}

/// Fullscreen and back is as it was: the window gets the styles and the place
/// that it had, it floats if it is pinned by then, and meanwhile the place that it
/// had is the one to remember.
pub proof fn law_fullscreen_and_back(
    s: Shell,
    window: Rect,
    style: i64,
    exstyle: i64,
    inside: Rect,
    inside_style: i64,
    inside_exstyle: i64,
)
    requires
        !s.is_fullscreen,
    ensures
        ({
            let (full, _) = fullscreen_toggled(s, window, style, exstyle);
            let (back, exit) = fullscreen_toggled(full, inside, inside_style, inside_exstyle);
            &&& !back.is_fullscreen
            &&& exit == Fullscreen::Exit {
                style,
                exstyle,
                rect: window,
                maximize: is_maximized_style(style),
                topmost: s.is_on_top,
            }
            &&& place_to_remember(full, inside, true) == (window, is_maximized_style(style))
        }),
{
}

/// A pin is set, not toggled: asking again for the same asks for nothing, and
/// taking it off forgets the place that it kept.
pub proof fn law_pin_is_set(s: Shell, desired: bool, normal: Option<Rect>, is_max: bool)
    ensures
        ({
            let (pinned, _) = pin_set(s, desired, normal, is_max);
            &&& pinned.is_on_top == desired
            &&& pin_set(pinned, desired, normal, is_max) == (pinned, None::<Pin>)
        }),
        s.is_on_top ==> pin_set(s, false, normal, is_max).0.prepin_rect is None,
{
}

/// While the window is pinned, the place that it had before is the one to
/// remember.
pub proof fn law_pin_keeps_the_place(s: Shell, normal: Rect, inside: Rect, is_max: bool)
    requires
        !s.is_fullscreen,
        !s.is_on_top,
    ensures
        place_to_remember(pin_set(s, true, Some(normal), is_max).0, inside, is_max) == (
            normal,
            is_max,
        ),
{
}

/// Without a titlebar the video fills the window.
pub proof fn law_video_fills_without_a_titlebar(s: Shell, height: int, dpi: int)
    requires
        s.is_fullscreen || s.is_on_top,
        height >= 1,
    ensures
        layout_of(s, height, dpi) == (0int, height),
{
}

/// What is remembered of a place is what is read, where it is large enough.
pub proof fn law_placement_reads_back(rect: Rect, maximized: bool)
    ensures
        placement_in(placement_record(rect, maximized)) == place_again(rect, maximized),
        json::is_flat(placement_record(rect, maximized)),
{
    reveal_strlit("left");
    reveal_strlit("top");
    reveal_strlit("right");
    reveal_strlit("bottom");
    reveal_strlit("maximized");
    assert("left"@.len() == 4 && "top"@.len() == 3 && "right"@.len() == 5 && "bottom"@.len() == 6
        && "maximized"@.len() == 9);
    let v = placement_record(rect, maximized);
    assert(json::field(v, "left"@) == Some(JsonView::Int(rect.left as int)));
    assert(json::field(v, "top"@) == Some(JsonView::Int(rect.top as int)));
    assert(json::field(v, "right"@) == Some(JsonView::Int(rect.right as int)));
    assert(json::field(v, "bottom"@) == Some(JsonView::Int(rect.bottom as int)));
    assert(json::field(v, "maximized"@) == Some(JsonView::Bool(maximized)));
}

} // verus!
