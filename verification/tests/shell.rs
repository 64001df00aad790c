//! The window: what can be grabbed, and what fullscreen and the pin do.

use shows::shell::{
    centred, constrain_rect_aspect, leads_with_height, load_window_placement, message_point, message_size,
    min_track_size, nc_hit, overlay_cursor_applies, pack_point, rect_height, rect_width, save_window_placement, scale_for_dpi,
    wheel_delta, CursorMotion, Fullscreen, Pin, Placement, Point, Rect, Shell, Tick, VideoPlace, HTBOTTOM,
    HTCAPTION, HTCLIENT, HTRIGHT, HTTOPLEFT, TITLEBAR_LOGICAL_H, WINDOW_BUTTONS_LOGICAL_W, WMSZ_BOTTOM,
    WMSZ_BOTTOMRIGHT, WMSZ_RIGHT, WMSZ_TOPLEFT,
};

fn point(x: i32, y: i32) -> Point {
    Point { x, y }
}

fn rect(left: i32, top: i32, right: i32, bottom: i32) -> Rect {
    Rect { left, top, right, bottom }
}

/// Keeps a rectangle to the shape of the video.
fn constrain(r: &mut Rect, edge: u32, aspect: f64) {
    let follows = if leads_with_height(edge) {
        (rect_height(*r) as f64 * aspect).round()
    } else {
        (rect_width(*r) as f64 / aspect).round()
    };
    constrain_rect_aspect(r, edge, follows as i32);
}

#[test]
fn cursor_motion_ignores_first_unseeded_position() {
    let mut motion = CursorMotion::new(None);

    assert!(!motion.observe(point(320, 180)));
    assert!(!motion.observe(point(320, 180)));
}

#[test]
fn cursor_motion_reveals_only_after_coordinate_change() {
    let mut motion = CursorMotion::new(Some(point(320, 180)));

    assert!(!motion.observe(point(320, 180)));
    assert!(motion.observe(point(321, 180)));
    assert!(!motion.observe(point(321, 180)));
    assert!(motion.observe(point(321, 181)));
}

#[test]
fn caption_drag_spans_full_titlebar_height_at_every_dpi() {
    for dpi in [96, 120, 144, 192] {
        let tb = scale_for_dpi(TITLEBAR_LOGICAL_H, dpi);
        // Bottom row of the visible titlebar, left of the buttons: drags.
        assert_eq!(nc_hit(200, tb - 1, 1000, 800, dpi, false, true), HTCAPTION, "dpi={dpi}");
        // One pixel below the titlebar is client, not caption.
        assert_eq!(nc_hit(200, tb + 1, 1000, 800, dpi, false, true), HTCLIENT, "dpi={dpi}");
    }
}

#[test]
fn button_cluster_stays_client_and_caption_starts_left_of_it() {
    for dpi in [96, 120, 144, 192] {
        let tb = scale_for_dpi(TITLEBAR_LOGICAL_H, dpi);
        let buttons = scale_for_dpi(WINDOW_BUTTONS_LOGICAL_W, dpi);
        assert_eq!(
            nc_hit(1000 - buttons + 5, tb / 2, 1000, 800, dpi, false, true),
            HTCLIENT,
            "dpi={dpi}"
        );
        assert_eq!(
            nc_hit(1000 - buttons - 5, tb / 2, 1000, 800, dpi, false, true),
            HTCAPTION,
            "dpi={dpi}"
        );
    }
}

#[test]
fn resize_borders_exist_only_when_not_maximized() {
    assert_eq!(nc_hit(0, 0, 1000, 800, 96, false, true), HTTOPLEFT);
    assert_eq!(nc_hit(500, 799, 1000, 800, 96, false, true), HTBOTTOM);
    assert_eq!(nc_hit(999, 400, 1000, 800, 96, false, true), HTRIGHT);
    // Maximized: no resize band — the corner falls through to caption.
    assert_eq!(nc_hit(0, 0, 1000, 800, 96, true, true), HTCAPTION);
}

#[test]
fn pin_mode_has_no_caption_strip_but_keeps_resize_borders() {
    assert_eq!(nc_hit(200, 10, 1000, 800, 96, false, false), HTCLIENT);
    assert_eq!(nc_hit(0, 0, 1000, 800, 96, false, false), HTTOPLEFT);
    assert_eq!(nc_hit(999, 400, 1000, 800, 96, false, false), HTRIGHT);
}

#[test]
fn aspect_lock_side_edges_derive_the_other_axis() {
    // 16:9. Drag the right edge to width 1600 → height becomes 900, top fixed.
    let mut r = rect(100, 50, 1700, 1000);
    constrain(&mut r, WMSZ_RIGHT, 16.0 / 9.0);
    assert_eq!(r.left, 100);
    assert_eq!(r.top, 50);
    assert_eq!(rect_width(r), 1600);
    assert_eq!(rect_height(r), 900);

    // Drag the bottom edge to height 450 → width becomes 800, left fixed.
    let mut r = rect(100, 50, 900, 500);
    constrain(&mut r, WMSZ_BOTTOM, 16.0 / 9.0);
    assert_eq!(r.left, 100);
    assert_eq!(r.top, 50);
    assert_eq!(rect_height(r), 450);
    assert_eq!(rect_width(r), 800);
}

#[test]
fn aspect_lock_corners_pin_the_fixed_corner() {
    // Bottom-right drag: top-left (100,50) is the anchor and stays put.
    let mut r = rect(100, 50, 1700, 1234);
    constrain(&mut r, WMSZ_BOTTOMRIGHT, 16.0 / 9.0);
    assert_eq!((r.left, r.top), (100, 50));
    assert_eq!(rect_width(r), 1600);
    assert_eq!(rect_height(r), 900);

    // Top-left drag: bottom-right (1700,1234) is the anchor and stays put;
    // the top moves up/down to give width 1600 → height 900.
    let mut r = rect(100, 50, 1700, 1234);
    constrain(&mut r, WMSZ_TOPLEFT, 16.0 / 9.0);
    assert_eq!((r.right, r.bottom), (1700, 1234));
    assert_eq!(rect_width(r), 1600);
    assert_eq!(rect_height(r), 900);
    assert_eq!(r.top, 334);
}

#[test]
fn lengths_scale_with_the_dots() {
    assert_eq!(scale_for_dpi(32, 144), 48);
    assert_eq!(scale_for_dpi(6, 120), 7);
    assert_eq!(scale_for_dpi(32, 0), 32);
    assert_eq!(min_track_size(0, 1000, 96), (218, 1000));
    assert_eq!(min_track_size(300, 0, 192), (436, 224));
}

#[test]
fn messages_carry_signed_points() {
    assert_eq!(message_point(0x0002_0001), point(1, 2));
    assert_eq!(message_point(0xFFFE_FFFF), point(-1, -2));
    assert_eq!(message_size(0x0258_0320), (800, 600));
    assert_eq!(wheel_delta(0xFF88_0000), -120);
    assert_eq!(pack_point(point(-1, 5)), 0x0005_FFFF);
    assert_eq!(message_point(pack_point(point(-300, 700))), point(-300, 700));
}

#[test]
fn fullscreen_and_back_gives_the_window_its_place() {
    let mut s = Shell::new(None);
    let window = rect(10, 20, 1290, 820);
    let style = 0x14CF_0000;
    assert_eq!(
        s.toggle_fullscreen(window, style, 7),
        Fullscreen::Enter { style: 0x9400_0000 }
    );
    assert_eq!(s.remembered(rect(0, 0, 1, 1), false), (window, false));
    assert_eq!(s.hit_test(0, rect(0, 0, 1000, 800), 96, false), HTCLIENT);
    assert_eq!(
        s.toggle_fullscreen(rect(0, 0, 1920, 1080), 0, 0),
        Fullscreen::Exit { style, exstyle: 7, rect: window, maximize: false, topmost: false }
    );
}

#[test]
fn a_maximized_window_is_maximized_again() {
    let mut s = Shell::new(None);
    s.toggle_fullscreen(rect(0, 0, 10, 10), 0x0100_0000, 0);
    assert_eq!(s.remembered(rect(0, 0, 1, 1), false), (rect(0, 0, 10, 10), true));
    assert!(matches!(
        s.toggle_fullscreen(rect(0, 0, 10, 10), 0, 0),
        Fullscreen::Exit { maximize: true, .. }
    ));
}

#[test]
fn a_pin_is_set_once() {
    let mut s = Shell::new(None);
    let normal = rect(1, 2, 301, 202);
    assert_eq!(
        s.set_stay_on_top(true, Some(normal), true),
        Some(Pin { topmost: true, snap: true, restore: true })
    );
    assert_eq!(s.set_stay_on_top(true, None, false), None);
    assert!(s.locks_aspect());
    assert_eq!(s.remembered(rect(5, 5, 6, 6), false), (normal, false));
    assert_eq!(
        s.set_stay_on_top(false, Some(normal), true),
        Some(Pin { topmost: false, snap: false, restore: false })
    );
    assert_eq!(s.remembered(rect(5, 5, 6, 6), false), (rect(5, 5, 6, 6), false));
}

#[test]
fn the_video_begins_below_the_titlebar() {
    let mut s = Shell::new(None);
    assert_eq!(s.layout(1280, 800, 96), Some(VideoPlace { top: 32, height: 768 }));
    assert_eq!(s.layout(1280, 10, 96), Some(VideoPlace { top: 32, height: 1 }));
    assert_eq!(s.layout(0, 800, 96), None);
    s.set_stay_on_top(true, None, false);
    assert_eq!(s.layout(1280, 800, 96), Some(VideoPlace { top: 0, height: 800 }));
}

#[test]
fn a_hidden_pointer_shows_when_it_really_moves() {
    let mut s = Shell::new(Some(point(1, 1)));
    s.cursor_changed(true);
    assert!(!s.mouse_moved(point(1, 1)));
    assert!(s.mouse_moved(point(2, 1)));
    assert!(!s.mouse_moved(point(3, 1)));
}

#[test]
fn a_covered_window_rests_until_it_shows() {
    let mut s = Shell::new(None);
    assert_eq!(s.tick(true), Tick::Rest);
    assert_eq!(s.tick(false), Tick::Present);
    assert!(s.draws(false)); // the first frame is forced
    assert!(!s.draws(false));
    assert!(s.draws(true));
    s.presented(true);
    assert_eq!(s.tick(false), Tick::Poll);
    s.polled(true);
    assert_eq!(s.tick(false), Tick::Poll);
    s.polled(false);
    assert_eq!(s.tick(false), Tick::Present);
    assert!(s.draws(false));
}

#[test]
fn a_place_reads_back() {
    let text = save_window_placement(rect(10, 20, 1290, 820), true);
    assert_eq!(
        load_window_placement(Some(&text)),
        Some(Placement { left: 10, top: 20, width: 1280, height: 800, maximized: true })
    );
    // too small to be of use
    let small = save_window_placement(rect(0, 0, 100, 800), false);
    assert_eq!(load_window_placement(Some(&small)), None);
    assert_eq!(load_window_placement(Some(r#"{"left":0}"#)), None);
    assert_eq!(load_window_placement(Some("?")), None);
    assert_eq!(load_window_placement(None), None);
    assert_eq!(
        load_window_placement(Some(r#"{"left":0,"top":0,"right":500,"bottom":500,"maximized":"x"}"#)),
        Some(Placement { left: 0, top: 0, width: 500, height: 500, maximized: false })
    );
}

#[test]
fn a_window_is_put_in_the_middle() {
    assert_eq!(centred(rect(0, 40, 1920, 1080), 1000, 500), point(460, 310));
}

#[test]
fn only_a_maximized_frame_keeps_to_the_work_area() {
    let mut s = Shell::new(None);
    assert!(s.keeps_to_work_area(true, true));
    assert!(!s.keeps_to_work_area(false, true));
    assert!(!s.keeps_to_work_area(true, false));
    s.is_fullscreen = true;
    assert!(!s.keeps_to_work_area(true, true));
}

#[test]
fn the_overlay_sets_the_cursor_of_the_client_area() {
    assert!(overlay_cursor_applies(HTCLIENT));
    assert!(!overlay_cursor_applies(HTCAPTION));
}
