use raycaster::color::Color;
use raycaster::textures::{
    brick_tiles, creature_shapes, panel_lines, panel_rivets, pistol_shapes, stone_tiles, Shape, Tile, CREATURE_SIZE,
    PISTOL_H, PISTOL_W, TEX_SIZE,
};

#[test]
fn brick_layout_matches_the_row_walk() {
    let mut expected = Vec::new();
    let (brick_w, brick_h, mortar) = (16, 8, 2);
    let mut y = 0;
    let mut row = 0;
    while y < TEX_SIZE {
        let offset = if row % 2 == 0 { 0 } else { brick_w / 2 };
        let mut x = -offset;
        while x < TEX_SIZE {
            expected.push(Tile {
                x: x + mortar,
                y: y + mortar,
                w: brick_w - 2 * mortar,
                h: brick_h - 2 * mortar,
                tone: (x.abs() * 7 + y * 3) % 5,
            });
            x += brick_w;
        }
        y += brick_h;
        row += 1;
    }
    assert_eq!(brick_tiles(), expected);
    assert_eq!(expected.len(), 36);
    assert_eq!(expected[0], Tile { x: 2, y: 2, w: 12, h: 4, tone: 0 });
    assert_eq!(expected[4], Tile { x: -6, y: 10, w: 12, h: 4, tone: 0 });
    assert_eq!(expected[1].tone, 2);
}

#[test]
fn stone_layout_uses_euclidean_noise() {
    let tiles = stone_tiles();
    assert_eq!(tiles.len(), 36);
    for (i, t) in tiles.iter().enumerate() {
        let (r, k) = ((i / 6) as i32, (i % 6) as i32);
        let x = 12 * k - if r % 2 == 0 { 0 } else { 6 };
        let y = 12 * r;
        assert_eq!(*t, Tile { x: x + 1, y: y + 1, w: 10, h: 10, tone: (x * 13 + y * 7).rem_euclid(11) });
    }
    // the shifted rows start left of the texture, where the noise term is negative
    assert_eq!(tiles[6], Tile { x: -5, y: 13, w: 10, h: 10, tone: (-78i32 + 84).rem_euclid(11) });
}

#[test]
fn panel_seams_and_rivets() {
    assert_eq!(
        panel_lines(),
        vec![
            Tile { x: 0, y: 0, w: 64, h: 2, tone: 0 },
            Tile { x: 0, y: 32, w: 64, h: 2, tone: 0 },
            Tile { x: 0, y: 0, w: 2, h: 64, tone: 0 },
            Tile { x: 32, y: 0, w: 2, h: 64, tone: 0 },
        ]
    );
    assert_eq!(
        panel_rivets(),
        vec![(4, 4), (28, 4), (36, 4), (60, 4), (4, 36), (28, 36), (36, 36), (60, 36)]
    );
}

#[test]
fn pistol_and_creature_shapes() {
    let pistol = pistol_shapes();
    assert_eq!(pistol.len(), 19);
    assert_eq!(pistol[0], Shape::Rect { x: 23, y: 8, w: 54, h: 26, color: Color::new(75, 75, 80, 255) });
    assert_eq!(pistol[9], Shape::Rect { x: 41, y: 50, w: 18, h: 12, color: Color::new(0, 0, 0, 0) });
    assert_eq!(pistol[18], Shape::Rect { x: 28, y: 104, w: 44, h: 6, color: Color::new(38, 25, 15, 255) });
    assert_eq!((PISTOL_W, PISTOL_H, CREATURE_SIZE), (100, 130, 48));

    let open = creature_shapes(false, -2);
    assert_eq!(open.len(), 7);
    assert_eq!(open[0], Shape::Circle { cx: 24, cy: 29, r: 19, color: Color::new(35, 100, 55, 255) });
    assert_eq!(open[3], Shape::Circle { cx: 17, cy: 23, r: 5, color: Color::new(250, 250, 240, 255) });
    assert_eq!(open[4], Shape::Circle { cx: 15, cy: 23, r: 2, color: Color::new(10, 10, 15, 255) });
    assert_eq!(open[6], Shape::Circle { cx: 29, cy: 23, r: 2, color: Color::new(10, 10, 15, 255) });

    let blink = creature_shapes(true, 0);
    assert_eq!(blink.len(), 5);
    assert_eq!(blink[3], Shape::Rect { x: 13, y: 22, w: 8, h: 2, color: Color::new(20, 45, 25, 255) });
    assert_eq!(blink[4], Shape::Rect { x: 27, y: 22, w: 8, h: 2, color: Color::new(20, 45, 25, 255) });
}
