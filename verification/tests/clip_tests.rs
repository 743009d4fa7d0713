use rasterize::clip::{clip_polygon, clip_polygon_inplace, make_frustum, ClipVert, Plane};
use rasterize::math::{perspective, Vec2fp, Vec3fp};
use rasterize::FP_ONE;

fn fp(v: i64) -> i64 {
    v * FP_ONE
}

fn v3(x: i64, y: i64, z: i64) -> Vec3fp {
    Vec3fp { x: fp(x), y: fp(y), z: fp(z) }
}

fn cv(x: i64, y: i64, z: i64, u: i64, v: i64) -> ClipVert {
    ClipVert { pos: v3(x, y, z), uv: Vec2fp { x: fp(u), y: fp(v) } }
}

#[test]
fn test_plane() {
    let p = Plane::new(v3(1, 1, 1), v3(2, 1, 1), v3(1, 2, 1));
    println!("{:?}", p);
    // Three points at height z = 1: the unit normal points along z and the
    // distance is one.
    assert_eq!(p.normal.x, 0);
    assert_eq!(p.normal.y, 0);
    assert_eq!(p.normal.z, FP_ONE);
    assert_eq!(p.distance, FP_ONE);

    let p = Plane::new(v3(1, 0, 0), v3(0, 1, 0), v3(0, 0, 1));
    println!("{:?}", p);
    // The diagonal plane x + y + z = 1: each normal component is close to
    // 1/sqrt(3) and the distance close to it as well.
    let third = (FP_ONE as f64) / 3f64.sqrt();
    assert!((p.normal.x as f64 - third).abs() < 3.0);
    assert!((p.normal.y as f64 - third).abs() < 3.0);
    assert!((p.normal.z as f64 - third).abs() < 3.0);

    let p = Plane::new(v3(1, 0, 0), v3(0, 1, 0), v3(0, 1, 1));
    println!("{:?}", p);
    let half = (FP_ONE as f64) / 2f64.sqrt();
    assert!((p.normal.x as f64 - half).abs() < 3.0);
    assert!((p.normal.y as f64 - half).abs() < 3.0);
    assert_eq!(p.normal.z, 0);
}

#[test]
fn test_clip() {
    let points = vec![
        cv(0, 0, 0, 0, 0),
        cv(2, 0, 0, 1, 0),
        cv(2, 2, 0, 1, 1),
        cv(0, 2, 0, 0, 1),
    ];

    let plane = Plane::new(v3(1, 0, 0), v3(0, 1, 0), v3(0, 1, 1));
    let clipped = clip_polygon(plane, &points);
    println!("{:?}", clipped);

    let mut clipped_inplace = points.clone();
    clip_polygon_inplace(plane, &mut clipped_inplace);
    println!("{:?}", clipped_inplace);
    assert_eq!(clipped, clipped_inplace);

    let plane = Plane::new(v3(0, 1, 1), v3(0, 1, 0), v3(1, 0, 0));
    let clipped = clip_polygon(plane, &points);
    println!("{:?}", clipped);
    let mut clipped_inplace = points.clone();
    clip_polygon_inplace(plane, &mut clipped_inplace);
    println!("{:?}", clipped_inplace);
    assert_eq!(clipped, clipped_inplace);
}

#[test]
fn clip_keeps_fully_inside_polygon() {
    // Clipping a polygon that already lies inside the plane returns it
    // unchanged, vertex for vertex.
    let plane = Plane { normal: Vec3fp { x: FP_ONE, y: 0, z: 0 }, distance: fp(1) };
    let points = vec![
        cv(2, 0, 0, 0, 0),
        cv(4, 0, 0, 1, 0),
        cv(4, 2, 0, 1, 1),
        cv(2, 2, 0, 0, 1),
    ];
    let clipped = clip_polygon(plane, &points);
    assert_eq!(clipped, points);
    let mut inplace = points.clone();
    clip_polygon_inplace(plane, &mut inplace);
    assert_eq!(inplace, points);
}

#[test]
fn clip_square_against_half_plane() {
    // The square [(0,0) (2,0) (2,2) (0,2)] clipped to x >= 1 becomes the
    // rectangle x in [1,2], with two vertices newly synthesized at x = 1
    // and texture coordinates interpolated to 0.5.
    let plane = Plane { normal: Vec3fp { x: FP_ONE, y: 0, z: 0 }, distance: fp(1) };
    let points = vec![
        cv(0, 0, 0, 0, 0),
        cv(2, 0, 0, 1, 0),
        cv(2, 2, 0, 1, 1),
        cv(0, 2, 0, 0, 1),
    ];
    let clipped = clip_polygon(plane, &points);
    assert_eq!(clipped.len(), 4);
    assert_eq!(clipped[0].pos, v3(1, 0, 0));
    assert_eq!(clipped[0].uv.x, FP_ONE / 2);
    assert_eq!(clipped[1].pos, v3(2, 0, 0));
    assert_eq!(clipped[2].pos, v3(2, 2, 0));
    assert_eq!(clipped[3].pos, v3(1, 2, 0));
    assert_eq!(clipped[3].uv.x, FP_ONE / 2);

    let mut inplace = points.clone();
    clip_polygon_inplace(plane, &mut inplace);
    assert_eq!(inplace, clipped);
}

#[test]
fn clip_drops_fully_outside_polygon() {
    let plane = Plane { normal: Vec3fp { x: FP_ONE, y: 0, z: 0 }, distance: fp(10) };
    let points = vec![cv(0, 0, 0, 0, 0), cv(2, 0, 0, 1, 0), cv(2, 2, 0, 1, 1)];
    let clipped = clip_polygon(plane, &points);
    assert!(clipped.len() < 3);
}

#[test]
fn frustum_has_five_planes() {
    let w = 320 * FP_ONE;
    let h = 240 * FP_ONE;
    let tan_half = ((50.0f64).to_radians().tan() * FP_ONE as f64) as i64;
    let pp = perspective(w, h, tan_half);
    let corners = vec![
        Vec2fp { x: 0, y: 0 },
        Vec2fp { x: w - FP_ONE, y: 0 },
        Vec2fp { x: w - FP_ONE, y: h - FP_ONE },
        Vec2fp { x: 0, y: h - FP_ONE },
    ];
    let frustum = make_frustum(&corners, &pp);
    println!("frustum: {:?}", frustum);
    assert_eq!(frustum.len(), 5);
    // The near plane faces forward from a small positive depth.
    assert_eq!(frustum[0].normal.x, 0);
    assert_eq!(frustum[0].normal.y, 0);
    assert_eq!(frustum[0].normal.z, FP_ONE);
    // A point well inside the frustum is inside every plane.
    let inside = v3(0, 0, 10);
    for pl in frustum.iter() {
        assert!(pl.distance_to(inside) >= 0);
    }
    // A point behind the camera is outside the near plane.
    let behind = v3(0, 0, -5);
    assert!(frustum[0].distance_to(behind) < 0);
}
