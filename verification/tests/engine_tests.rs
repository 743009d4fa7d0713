use rasterize::doom::{clip_behind_player, dist, draw_wall, get_color, DrawState, Player};
use rasterize::level::Blockmap;
use rasterize::palette::{quantize, Framebuffer};
use rasterize::test_texture::{create, TH, TW};

#[test]
fn player_start_state() {
    let p = Player::new();
    assert_eq!(p.x, 70);
    assert_eq!(p.y, -110);
    assert_eq!(p.z, 20);
    assert_eq!(p.a, 0);
    assert_eq!(p.l, 0);
    assert!(!p.p);
}

#[test]
fn draw_state_transitions() {
    assert_eq!(DrawState::LowerContour(3).next(), DrawState::LowerFill(3));
    assert_eq!(DrawState::UpperContour(5).next(), DrawState::UpperFill(5));
    assert_eq!(DrawState::LowerFill(3).next(), DrawState::Done);
    assert_eq!(DrawState::UpperFill(5).next(), DrawState::Done);
    assert_eq!(DrawState::Fill.next(), DrawState::Done);
    assert_eq!(DrawState::Done.next(), DrawState::Done);
}

#[test]
fn wall_colors() {
    let c = get_color(0);
    assert_eq!((c.r, c.g, c.b), (255, 255, 0));
    let c = get_color(7);
    assert_eq!((c.r, c.g, c.b), (110, 50, 0));
    let c = get_color(42);
    assert_eq!((c.r, c.g, c.b), (0, 60, 130));
}

#[test]
fn integer_distance() {
    assert_eq!(dist(0, 0, 3, 4), 5);
    assert_eq!(dist(1, 1, 1, 1), 0);
    // The distance rounds down.
    assert_eq!(dist(0, 0, 1, 1), 1);
}

#[test]
fn clip_endpoint_behind_player() {
    // The endpoint at depth 0 moves all the way along the segment scaled
    // by 0 / (0 - 10): it stays, but the zero depth is nudged to one.
    let mut x1 = 4i64;
    let mut y1 = 0i64;
    let mut z1 = 8i64;
    clip_behind_player(&mut x1, &mut y1, &mut z1, 20, 10, 16);
    assert_eq!(x1, 4);
    assert_eq!(y1, 1);
    assert_eq!(z1, 8);

    // Halfway case: da = -10, d = -10 - 10 = -20, ratio one half toward
    // the other endpoint.
    let mut x1 = 0i64;
    let mut y1 = -10i64;
    let mut z1 = 100i64;
    clip_behind_player(&mut x1, &mut y1, &mut z1, 40, 10, 0);
    assert_eq!(x1, 20);
    assert_eq!(y1, 1);
    assert_eq!(z1, 50);
}

#[test]
fn test_texture_dimensions_and_corner() {
    let bitmap = create();
    assert_eq!(bitmap.len(), TW * TH);
    // At the top-left corner the border glow saturates all channels.
    assert_eq!(bitmap[0], 0xFFFFFF);
    // One texel away from the border the glow halves: 0x1FF >> 1 = 255,
    // still saturating.
    assert_eq!(bitmap[1 * 256 + 1], 0xFFFFFF);
}

#[test]
fn quantize_picks_nearest_and_earliest() {
    let mut palette = vec![0u32; 256];
    palette[0] = 0x000000;
    palette[1] = 0x0000FF;
    palette[2] = 0x00FF00;
    palette[3] = 0xFF0000;
    palette[4] = 0x0000FF;
    let rgb = vec![0x0000FE, 0x00FE00, 0x010101, 0x0000FF];
    let out = quantize(&palette, &rgb);
    assert_eq!(out, vec![1, 2, 0, 1]);
}

#[test]
fn framebuffer_resolves_through_palette() {
    let mut palette = vec![0u32; 256];
    palette[0] = 0x111111;
    palette[5] = 0xABCDEF;
    let mut fb = Framebuffer::new(4, 2, &palette);
    assert_eq!(fb.framebuffer.len(), 8);
    fb.framebuffer[3] = 5;
    fb.resolve();
    assert_eq!(fb.framebuffer_rgb[0], 0x111111);
    assert_eq!(fb.framebuffer_rgb[3], 0xABCDEF);
    fb.clear();
    assert_eq!(fb.framebuffer[3], 0);
}

#[test]
fn blockmap_single_cell() {
    let mut bm = Blockmap::new();
    let row: Vec<Vec<u8>> = vec![b"...1............".to_vec()];
    bm.add(2, 7, &row);
    assert!(bm.bitmap[7 * 128 + 5]);
    assert!(!bm.bitmap[7 * 128 + 4]);
    let (points, quads) = bm.get_polygons();
    // One isolated cell: eight corner points, four walls plus top and
    // bottom.
    assert_eq!(points.len(), 8);
    assert_eq!(quads.len(), 6);
    for q in quads.iter() {
        assert!(q.v0.index < 8 && q.v1.index < 8 && q.v2.index < 8 && q.v3.index < 8);
    }
}

#[test]
fn blockmap_neighbours_skip_shared_walls() {
    let mut bm = Blockmap::new();
    let rows: Vec<Vec<u8>> = vec![b"11..............".to_vec()];
    bm.add(4, 9, &rows);
    let (points, quads) = bm.get_polygons();
    assert_eq!(points.len(), 16);
    // Two adjacent cells share a wall: each loses one side face.
    assert_eq!(quads.len(), 10);
}

#[test]
fn draw_wall_contour_then_fill() {
    // Record an upper contour, then fill against it with another color.
    let mut line_buf = vec![0i64; 320];
    let px = draw_wall(
        10,
        20,
        20,
        30,
        0,
        0,
        3,
        &DrawState::UpperContour(6),
        &mut line_buf,
        320,
        240,
    );
    assert!(px.is_empty());
    // The recorded edge climbs from 20 to 30 over ten columns.
    assert_eq!(line_buf[10], 20);
    assert_eq!(line_buf[15], 25);
    assert_eq!(line_buf[19], 29);

    let px = draw_wall(
        10,
        20,
        100,
        110,
        200,
        210,
        3,
        &DrawState::UpperFill(6),
        &mut line_buf,
        320,
        240,
    );
    // Column 10: fill color 6 from the contour (20) up to the wall's lower
    // edge (100), then wall color 3 from 100 to 200.
    let col10: Vec<_> = px.iter().filter(|p| p.x == 10).collect();
    assert_eq!(col10.len(), 180);
    assert!(col10[..80].iter().all(|p| p.color == 6));
    assert_eq!(col10[0].y, 20);
    assert_eq!(col10[79].y, 99);
    assert!(col10[80..].iter().all(|p| p.color == 3));
    assert_eq!(col10[80].y, 100);
    assert_eq!(col10[179].y, 199);
}

#[test]
fn draw_wall_clamps_to_screen() {
    let mut line_buf = vec![0i64; 320];
    let px = draw_wall(
        -50,
        400,
        -10,
        500,
        -20,
        -5,
        2,
        &DrawState::Fill,
        &mut line_buf,
        320,
        240,
    );
    for p in px.iter() {
        assert!(1 <= p.x && p.x < 320);
        assert!(1 <= p.y && p.y < 240);
    }
}
