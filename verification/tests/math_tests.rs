use rasterize::math::{perspective, Vec2fp, Vec3fp};
use rasterize::FP_ONE;

#[test]
fn test_perspective() {
    let tan_60 = ((120.0f64 / 2.0).to_radians().tan() * FP_ONE as f64) as i64;
    let pp = perspective(800 * FP_ONE, 600 * FP_ONE, tan_60);

    let point3 = Vec3fp { x: 10 * FP_ONE, y: 20 * FP_ONE, z: 30 * FP_ONE };
    let point2 = pp.project(point3);
    let point3_un = pp.unproject(point2, 30 * FP_ONE);
    println!("{:?} {:?} {:?}", point3, point2, point3_un);

    // The projected point agrees with the floating-point formula.
    let scale = 400.0 / (60.0f64).to_radians().tan();
    let ex = 400.0 + 10.0 * scale / 30.0;
    let ey = 300.0 + 20.0 * scale / 30.0;
    assert!((point2.x as f64 / FP_ONE as f64 - ex).abs() < 0.01);
    assert!((point2.y as f64 / FP_ONE as f64 - ey).abs() < 0.01);

    // Round trip: each recovered component is within 1e-3 of the original.
    let tol = (FP_ONE as f64 * 1e-3) as i64;
    assert!((point3_un.x - point3.x).abs() < tol);
    assert!((point3_un.y - point3.y).abs() < tol);
    assert_eq!(point3_un.z, point3.z);
}

#[test]
fn round_trip_many_points() {
    let tan_60 = ((120.0f64 / 2.0).to_radians().tan() * FP_ONE as f64) as i64;
    let pp = perspective(800 * FP_ONE, 600 * FP_ONE, tan_60);
    let tol = (FP_ONE as f64 * 1e-3) as i64;
    for &(x, y, z) in [(1i64, 2i64, 1i64), (-50, 40, 7), (63, -63, 100), (0, 0, 55)].iter() {
        let p = Vec3fp { x: x * FP_ONE, y: y * FP_ONE, z: z * FP_ONE };
        let q = pp.project(p);
        let back = pp.unproject(q, p.z);
        assert!((back.x - p.x).abs() < tol, "x {} back {}", p.x, back.x);
        assert!((back.y - p.y).abs() < tol, "y {} back {}", p.y, back.y);
        assert_eq!(back.z, p.z);
    }
}

#[test]
fn unproject_needs_no_projection() {
    // Unprojecting the screen center at any depth lands on the view axis.
    let tan_45 = FP_ONE;
    let pp = perspective(640 * FP_ONE, 480 * FP_ONE, tan_45);
    let center = Vec2fp { x: pp.center.x, y: pp.center.y };
    let p = pp.unproject(center, 12 * FP_ONE);
    assert_eq!(p.x, 0);
    assert_eq!(p.y, 0);
    assert_eq!(p.z, 12 * FP_ONE);
}
