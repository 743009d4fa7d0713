use rasterize::polygon::{rasterize_polygon, PolyVert};
use rasterize::rasterize::{rasterize_triangle, Pt};
use rasterize::slope::Vec4fp;
use rasterize::FP_ONE;

fn vert(x: i64, y: i64) -> PolyVert {
    PolyVert { x, y, lanes: Vec4fp { x: x * FP_ONE, y: 0, z: 0, w: 0 } }
}

#[test]
fn square_spans() {
    // An axis-aligned square covers its full height with constant borders.
    let pts = vec![vert(0, 0), vert(10, 0), vert(10, 10), vert(0, 10)];
    let mut counter = 0u32;
    let spans = rasterize_polygon(&pts, &mut counter);
    assert_eq!(spans.len(), 10);
    for (i, sp) in spans.iter().enumerate() {
        assert_eq!(sp.y, i as i64);
        assert_eq!(sp.left.x, 0);
        assert_eq!(sp.right.x, 10 * FP_ONE);
    }
    assert!(counter >= 1);
}

#[test]
fn degenerate_polygon_emits_nothing() {
    let pts = vec![vert(3, 3), vert(3, 3), vert(3, 3)];
    let mut counter = 0u32;
    let spans = rasterize_polygon(&pts, &mut counter);
    assert_eq!(spans.len(), 0);
}

#[test]
fn empty_polygon_emits_nothing() {
    let pts: Vec<PolyVert> = Vec::new();
    let mut counter = 7u32;
    let spans = rasterize_polygon(&pts, &mut counter);
    assert_eq!(spans.len(), 0);
    assert_eq!(counter, 7);
}

#[test]
fn aux_tags_are_monotone() {
    let pts = vec![vert(0, 0), vert(8, 2), vert(10, 10), vert(2, 6)];
    let mut counter = 5u32;
    let spans = rasterize_polygon(&pts, &mut counter);
    assert_eq!(spans.len(), 10);
    for w in spans.windows(2) {
        assert!(w[0].aux <= w[1].aux);
    }
    for sp in spans.iter() {
        assert!(5 <= sp.aux && sp.aux < counter);
    }
}

#[test]
fn polygon_reduces_to_triangle_shortside_right() {
    // Middle vertex to the right of the long edge: the list in sorted
    // order walks the long edge in the ring's decreasing direction.
    let (p0, p1, p2) = (Pt { x: 0, y: 0 }, Pt { x: 9, y: 2 }, Pt { x: 3, y: 8 });
    let tri = rasterize_triangle(p0, p1, p2);
    let pts = vec![vert(p0.x, p0.y), vert(p1.x, p1.y), vert(p2.x, p2.y)];
    let mut counter = 0u32;
    let poly = rasterize_polygon(&pts, &mut counter);
    assert_eq!(tri.len(), poly.len());
    for (t, p) in tri.iter().zip(poly.iter()) {
        assert_eq!(t.y, p.y);
        assert_eq!(t.left, p.left.x);
        assert_eq!(t.right, p.right.x);
    }
}

#[test]
fn polygon_reduces_to_triangle_shortside_left() {
    // Middle vertex to the left of the long edge: list the vertices the
    // other way round so the decreasing direction walks the short edges.
    let (p0, p1, p2) = (Pt { x: 9, y: 0 }, Pt { x: 1, y: 3 }, Pt { x: 6, y: 9 });
    let tri = rasterize_triangle(p0, p1, p2);
    let pts = vec![vert(p0.x, p0.y), vert(p2.x, p2.y), vert(p1.x, p1.y)];
    let mut counter = 0u32;
    let poly = rasterize_polygon(&pts, &mut counter);
    assert_eq!(tri.len(), poly.len());
    for (t, p) in tri.iter().zip(poly.iter()) {
        assert_eq!(t.y, p.y);
        assert_eq!(t.left, p.left.x);
        assert_eq!(t.right, p.right.x);
    }
}

#[test]
fn pentagon_walks_multi_edge_chains() {
    // A convex pentagon whose right side has two edges: the right boundary
    // follows the first edge until its end, then the second.
    let pts = vec![vert(0, 0), vert(6, 2), vert(6, 8), vert(0, 10), vert(0, 0)];
    // Drop the duplicated closing vertex; the ring is implicit.
    let pts = pts[..4].to_vec();
    let mut counter = 0u32;
    let spans = rasterize_polygon(&pts, &mut counter);
    assert_eq!(spans.len(), 10);
    for sp in spans.iter() {
        assert_eq!(sp.left.x, 0);
    }
    // Scanline 2 sits at the joint between the two right edges.
    assert_eq!(spans[2].right.x, 6 * FP_ONE);
    // Above the joint the boundary interpolates from 0 to 6 over two
    // scanlines; below it stays at 6 until the last edge begins.
    assert_eq!(spans[0].right.x, 0);
    assert_eq!(spans[1].right.x, 3 * FP_ONE);
    assert_eq!(spans[7].right.x, 6 * FP_ONE);
}

#[test]
fn horizontal_edges_are_skipped() {
    // A quad with a horizontal top edge: the walk consumes it without
    // emitting anything for it.
    let pts = vec![vert(2, 0), vert(8, 0), vert(8, 5), vert(2, 5)];
    let mut counter = 0u32;
    let spans = rasterize_polygon(&pts, &mut counter);
    assert_eq!(spans.len(), 5);
    for sp in spans.iter() {
        assert_eq!(sp.left.x, 2 * FP_ONE);
        assert_eq!(sp.right.x, 8 * FP_ONE);
    }
}
