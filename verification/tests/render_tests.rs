use raycaster::color::{rgba_bytes, Color};
use raycaster::framebuffer::Framebuffer;
use raycaster::map::LEVEL_1;
use raycaster::raycasting::{minimap_origin, minimap_rects, wall_color, wall_span, Rect};
use raycaster::recorder::encode_capture;
use raycaster::sprite::{next_frame, spawn_positions};
use raycaster::weapon::draw_crosshair_fb;

#[test]
fn wall_colors_by_kind_and_side() {
    assert_eq!(wall_color(1, 0), Color::new(180, 60, 60, 255));
    assert_eq!(wall_color(2, 0), Color::new(60, 130, 180, 255));
    assert_eq!(wall_color(3, 0), Color::new(90, 170, 90, 255));
    assert_eq!(wall_color(4, 0), Color::new(200, 170, 60, 255));
    assert_eq!(wall_color(9, 0), Color::new(150, 150, 150, 255));
    assert_eq!(wall_color(0, 2), Color::new(150, 150, 150, 255));
    assert_eq!(wall_color(1, 1), Color::new(126, 42, 42, 255));
    assert_eq!(wall_color(2, 1), Color::new(42, 91, 126, 255));
    assert_eq!(wall_color(3, 1), Color::new(63, 119, 63, 255));
    assert_eq!(wall_color(4, 1), Color::new(140, 119, 42, 255));
    assert_eq!(wall_color(7, 1), Color::new(105, 105, 105, 255));
}

#[test]
fn side_faces_match_seventy_percent_in_floats() {
    for t in 0..6u8 {
        let base = wall_color(t, 0);
        let side = wall_color(t, 1);
        assert_eq!(side.r, (base.r as f32 * 0.7) as u8);
        assert_eq!(side.g, (base.g as f32 * 0.7) as u8);
        assert_eq!(side.b, (base.b as f32 * 0.7) as u8);
    }
}

#[test]
fn wall_slices() {
    assert_eq!(wall_span(100, 540), (220, 320));
    assert_eq!(wall_span(2000, 540), (0, 539));
    assert_eq!(wall_span(0, 540), (270, 270));
    assert_eq!(wall_span(7, 10), (2, 8));
}

#[test]
fn minimap_layout() {
    assert_eq!(minimap_origin(960), (852, 12));
    let rects = minimap_rects(&LEVEL_1, 960);
    assert_eq!(rects.len(), 257);
    assert_eq!(rects[0], Rect { x: 848, y: 8, w: 104, h: 104, color: Color::new(0, 0, 0, 160) });
    assert_eq!(rects[1], Rect { x: 852, y: 12, w: 5, h: 5, color: wall_color(1, 0) });
    assert_eq!(rects[1 + 16 + 1], Rect { x: 858, y: 18, w: 5, h: 5, color: Color::new(30, 30, 30, 255) });
    assert_eq!(rects[1 + 7 * 16 + 13].color, wall_color(4, 0));
    assert_eq!(rects[256].x, 852 + 15 * 6);
    assert_eq!(rects[256].y, 12 + 15 * 6);
}

#[test]
fn crosshair_arms_and_gap() {
    let mut fb = Framebuffer::new(40, 30);
    draw_crosshair_fb(&mut fb);
    let white = Some(Color::new(255, 255, 255, 255));
    assert_eq!(fb.get_pixel(20, 15), Some(Color::new(0, 0, 0, 0)));
    for x in 9..=17 {
        assert_eq!(fb.get_pixel(x, 15), white);
    }
    for x in 23..=31 {
        assert_eq!(fb.get_pixel(x, 15), white);
    }
    for y in 4..=12 {
        assert_eq!(fb.get_pixel(20, y), white);
    }
    for y in 18..=26 {
        assert_eq!(fb.get_pixel(20, y), white);
    }
    assert_eq!(fb.get_pixel(18, 15), Some(Color::new(0, 0, 0, 0)));
    assert_eq!(fb.get_pixel(8, 15), Some(Color::new(0, 0, 0, 0)));
    assert_eq!(fb.get_pixel(20, 13), Some(Color::new(0, 0, 0, 0)));
    let lit = fb.pixels().chunks(4).filter(|p| p[3] != 0).count();
    assert_eq!(lit, 36);
}

#[test]
fn spawn_positions_cycle_through_points() {
    let none: [(i32, i32); 0] = [];
    assert!(spawn_positions(&none, 3).is_empty());
    let pts = [(1, 2), (3, 4)];
    assert_eq!(spawn_positions(&pts, 3), vec![(1, 2), (3, 4), (1, 2)]);
    assert!(spawn_positions(&pts, 0).is_empty());
}

#[test]
fn animation_frames_loop() {
    assert_eq!(next_frame(0), 1);
    assert_eq!(next_frame(2), 3);
    assert_eq!(next_frame(3), 0);
}

#[test]
fn colors_to_rgba_bytes() {
    let cs = [Color::new(1, 2, 3, 4), Color::new(5, 6, 7, 8)];
    assert_eq!(rgba_bytes(&cs), vec![1, 2, 3, 4, 5, 6, 7, 8]);
    assert!(rgba_bytes(&[]).is_empty());
}

#[test]
fn each_wall_kind_has_its_own_colour() {
    for side in 0..2u8 {
        let colours: Vec<Color> = (0..=5u8).map(|t| wall_color(t, side)).collect();
        for t in 1..=4usize {
            for u in 0..=5usize {
                if t != u {
                    assert_ne!(colours[t], colours[u]);
                }
            }
        }
    }
}

#[test]
fn capture_is_encoded_with_an_exact_palette() {
    let colors = [
        Color::new(10, 20, 30, 255),
        Color::new(1, 2, 3, 255),
        Color::new(10, 20, 30, 255),
        Color::new(1, 2, 3, 255),
        Color::new(1, 2, 3, 255),
        Color::new(10, 20, 30, 255),
    ];
    let f = encode_capture(&colors, 3, 2);
    assert_eq!(f.palette, Some(vec![1, 2, 3, 10, 20, 30]));
    assert_eq!(f.indices, vec![1, 0, 1, 0, 0, 1]);
    assert_eq!(f.transparent, None);
}

#[test]
fn capture_with_a_transparent_pixel() {
    let colors = [Color::new(5, 5, 5, 0), Color::new(9, 9, 9, 128)];
    let f = encode_capture(&colors, 2, 1);
    // non-zero alpha counts as opaque; the transparent pixel gets its own entry
    assert_eq!(f.palette, Some(vec![5, 5, 5, 9, 9, 9]));
    assert_eq!(f.indices, vec![0, 1]);
    assert_eq!(f.transparent, Some(0));
}
