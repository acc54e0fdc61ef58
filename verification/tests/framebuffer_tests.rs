use raycaster::color::Color;
use raycaster::framebuffer::Framebuffer;

fn red() -> Color {
    Color::new(200, 10, 20, 7)
}

fn painted(fb: &Framebuffer) -> Vec<(i32, i32)> {
    let mut v = Vec::new();
    for y in 0..fb.height() {
        for x in 0..fb.width() {
            if fb.get_pixel(x, y).unwrap().a != 0 {
                v.push((x, y));
            }
        }
    }
    v
}

#[test]
fn new_frame_is_zeroed() {
    let fb = Framebuffer::new(4, 3);
    assert_eq!(fb.width(), 4);
    assert_eq!(fb.height(), 3);
    assert_eq!(fb.pixels().len(), 48);
    assert!(fb.pixels().iter().all(|&b| b == 0));
    assert_eq!(fb.get_pixel(3, 2), Some(Color::new(0, 0, 0, 0)));
}

#[test]
fn set_then_get_reads_back_opaque() {
    let mut fb = Framebuffer::new(4, 3);
    fb.set_pixel(2, 1, red());
    assert_eq!(fb.get_pixel(2, 1), Some(Color::new(200, 10, 20, 255)));
    let idx = (1 * 4 + 2) * 4;
    assert_eq!(&fb.pixels()[idx..idx + 4], &[200, 10, 20, 255]);
    assert_eq!(painted(&fb), vec![(2, 1)]);
}

#[test]
fn out_of_frame_writes_are_ignored() {
    let mut fb = Framebuffer::new(4, 3);
    fb.set_pixel(-1, 0, red());
    fb.set_pixel(4, 0, red());
    fb.set_pixel(0, 3, red());
    fb.set_pixel(0, -7, red());
    assert!(fb.pixels().iter().all(|&b| b == 0));
    assert_eq!(fb.get_pixel(4, 0), None);
    assert_eq!(fb.get_pixel(-1, 2), None);
}

#[test]
fn fill_rect_is_clipped() {
    let mut fb = Framebuffer::new(5, 5);
    fb.fill_rect(-1, -1, 3, 3, red());
    assert_eq!(painted(&fb), vec![(0, 0), (1, 0), (0, 1), (1, 1)]);
    let mut fb2 = Framebuffer::new(5, 5);
    fb2.fill_rect(3, 4, 10, 10, red());
    assert_eq!(painted(&fb2), vec![(3, 4), (4, 4)]);
    let mut fb3 = Framebuffer::new(5, 5);
    fb3.fill_rect(1, 1, 0, 3, red());
    assert!(painted(&fb3).is_empty());
}

#[test]
fn filled_circle_pixels() {
    let mut fb = Framebuffer::new(5, 5);
    fb.draw_circle_filled(2, 2, 2, red());
    // offsets from -2 to 1 on each axis, within squared distance 4
    let expected = vec![
        (2, 0),
        (1, 1), (2, 1), (3, 1),
        (0, 2), (1, 2), (2, 2), (3, 2),
        (1, 3), (2, 3), (3, 3),
    ];
    assert_eq!(painted(&fb), expected);
    assert_eq!(fb.disc_cells(2, 2, 2), expected);
}

#[test]
fn circle_cells_are_clipped_to_the_frame() {
    let fb = Framebuffer::new(3, 3);
    assert_eq!(fb.disc_cells(0, 0, 1), vec![(0, 0)]);
    assert!(fb.disc_cells(1, 1, 0).is_empty());
    assert!(fb.disc_cells(10, 10, 2).is_empty());
}

#[test]
fn bresenham_line_pixels() {
    let mut fb = Framebuffer::new(6, 4);
    fb.draw_line(0, 0, 4, 2, red());
    let mut got = painted(&fb);
    got.sort();
    assert_eq!(got, vec![(0, 0), (1, 1), (2, 1), (3, 2), (4, 2)]);
}

#[test]
fn line_in_reverse_and_steep() {
    let mut fb = Framebuffer::new(6, 6);
    fb.draw_line(2, 5, 2, 1, red());
    let mut got = painted(&fb);
    got.sort();
    assert_eq!(got, vec![(2, 1), (2, 2), (2, 3), (2, 4), (2, 5)]);
    let mut fb2 = Framebuffer::new(6, 6);
    fb2.draw_line(3, 3, 3, 3, red());
    assert_eq!(painted(&fb2), vec![(3, 3)]);
}

#[test]
fn line_endpoints_are_drawn_and_clipping_keeps_the_rest() {
    let mut fb = Framebuffer::new(5, 5);
    fb.draw_line(-2, 2, 6, 2, red());
    assert_eq!(painted(&fb), vec![(0, 2), (1, 2), (2, 2), (3, 2), (4, 2)]);
    let mut fb2 = Framebuffer::new(8, 8);
    fb2.draw_line(6, 1, 1, 7, red());
    let got = painted(&fb2);
    assert!(got.contains(&(6, 1)));
    assert!(got.contains(&(1, 7)));
    for (x, y) in got {
        assert!((1..=6).contains(&x) && (1..=7).contains(&y));
    }
}

#[test]
fn line_has_one_pixel_per_major_step_near_the_segment() {
    let mut fb = Framebuffer::new(10, 10);
    fb.draw_line(0, 0, 7, 3, red());
    let got = painted(&fb);
    assert_eq!(got.len(), 8);
    for x in 0..=7 {
        let ys: Vec<i32> = got.iter().filter(|p| p.0 == x).map(|p| p.1).collect();
        assert_eq!(ys.len(), 1);
        assert!((2 * (7 * ys[0] - 3 * x)).abs() <= 7);
    }
    let mut steep = Framebuffer::new(10, 10);
    steep.draw_line(5, 9, 2, 0, red());
    let got = painted(&steep);
    assert_eq!(got.len(), 10);
    for y in 0..=9 {
        let xs: Vec<i32> = got.iter().filter(|p| p.1 == y).map(|p| p.0).collect();
        assert_eq!(xs.len(), 1);
        let (i, j) = ((xs[0] - 5).abs(), (y - 9).abs());
        assert!((2 * (9 * i - 3 * j)).abs() <= 9);
    }
}

#[test]
fn large_disc_clipped_to_a_small_frame() {
    let mut fb = Framebuffer::new(3, 3);
    fb.draw_circle_filled(0, 0, 40000, red());
    assert_eq!(painted(&fb).len(), 9);
    assert_eq!(fb.disc_cells(0, 0, 40000).len(), 9);
    // the column and row at +radius are outside the disc
    let mut fb2 = Framebuffer::new(5, 5);
    fb2.draw_circle_filled(2, 2, 1, red());
    assert_eq!(painted(&fb2), vec![(2, 1), (1, 2), (2, 2)]);
}
