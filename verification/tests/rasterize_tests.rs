use rasterize::rasterize::{draw_polygon, rasterize_triangle, Point2d, Pt};
use rasterize::FP_ONE;

#[test]
fn triangle_span_count_is_height() {
    // A valid triangle emits exactly y2 - y0 spans.
    let spans = rasterize_triangle(
        Pt { x: 0, y: 0 },
        Pt { x: 5, y: 3 },
        Pt { x: 2, y: 10 },
    );
    assert_eq!(spans.len(), 10);
    for (i, sp) in spans.iter().enumerate() {
        assert_eq!(sp.y, i as i64);
    }
}

#[test]
fn degenerate_triangle_emits_nothing() {
    // Zero vertical extent: no spans at all.
    let spans = rasterize_triangle(
        Pt { x: 0, y: 4 },
        Pt { x: 10, y: 4 },
        Pt { x: 20, y: 4 },
    );
    assert_eq!(spans.len(), 0);
}

#[test]
fn triangle_exact_boundaries() {
    // Right triangle (0,0) (10,0) (0,10): the long edge is the vertical
    // left side at x = 0, the short edge walks from (10,0) to (0,10).
    let spans = rasterize_triangle(
        Pt { x: 0, y: 0 },
        Pt { x: 10, y: 0 },
        Pt { x: 0, y: 10 },
    );
    assert_eq!(spans.len(), 10);
    for (i, sp) in spans.iter().enumerate() {
        assert_eq!(sp.left, 0);
        assert_eq!(sp.right, (10 - i as i64) * FP_ONE);
        assert_eq!(sp.half, 1);
    }
}

#[test]
fn triangle_left_not_above_right() {
    // With edge heights dividing the fixed-point extents evenly, the left
    // boundary never exceeds the right one at any emitted scanline.
    let cases = [
        [(0i64, 0i64), (8, 4), (0, 8)],
        [(0, 0), (-8, 4), (4, 8)],
        [(3, 2), (3, 7), (13, 12)],
        [(0, 0), (10, 0), (5, 10)],
    ];
    for c in cases.iter() {
        let spans = rasterize_triangle(
            Pt { x: c[0].0, y: c[0].1 },
            Pt { x: c[1].0, y: c[1].1 },
            Pt { x: c[2].0, y: c[2].1 },
        );
        assert!(spans.len() > 0);
        for sp in spans.iter() {
            assert!(sp.left <= sp.right, "left {} right {}", sp.left, sp.right);
        }
    }
}

#[test]
fn triangle_vertex_order_is_irrelevant() {
    let a = rasterize_triangle(Pt { x: 0, y: 0 }, Pt { x: 5, y: 3 }, Pt { x: 2, y: 10 });
    let b = rasterize_triangle(Pt { x: 2, y: 10 }, Pt { x: 0, y: 0 }, Pt { x: 5, y: 3 });
    let c = rasterize_triangle(Pt { x: 5, y: 3 }, Pt { x: 2, y: 10 }, Pt { x: 0, y: 0 });
    assert_eq!(a, b);
    assert_eq!(a, c);
}

#[test]
fn draw_polygon_fills_expected_pixels() {
    // Triangle (0,0) (4,0) (0,4): row y holds x in 0..(4 - y).
    let pixels = draw_polygon(Pt { x: 0, y: 0 }, Pt { x: 4, y: 0 }, Pt { x: 0, y: 4 });
    let mut expected = Vec::new();
    for y in 0..4i64 {
        for x in 0..(4 - y) {
            expected.push((x, y));
        }
    }
    let got: Vec<(i64, i64)> = pixels.iter().map(|p| (p.x, p.y)).collect();
    assert_eq!(got, expected);
}

#[test]
fn point2d_accessors() {
    let p = Pt { x: 7, y: -3 };
    assert_eq!(p.get_xy(), (7, -3));
    assert_eq!(p.get_x(), 7);
    assert_eq!(p.get_y(), -3);
}
