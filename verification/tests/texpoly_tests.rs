use rasterize::texpoly;
use rasterize::texpoly::TexVert;
use rasterize::texpoly_vec;
use rasterize::FP_ONE;

fn quad_5_to_20() -> Vec<TexVert> {
    // A textured quad whose left edge (x = 0) sits at depth 5 with u = 0
    // and whose right edge (x = 100) sits at depth 20 with u = 256.
    vec![
        TexVert { x: 0, y: 0, z: 5 * FP_ONE, u: 0, v: 0 },
        TexVert { x: 100, y: 0, z: 20 * FP_ONE, u: 256 * FP_ONE, v: 0 },
        TexVert { x: 100, y: 10, z: 20 * FP_ONE, u: 256 * FP_ONE, v: 0 },
        TexVert { x: 0, y: 10, z: 5 * FP_ONE, u: 0, v: 0 },
    ]
}

#[test]
fn perspective_correct_u_at_midpoint() {
    let quad = quad_5_to_20();
    let mut counter = 0u32;
    let frags = texpoly::draw_polygon(&quad, &mut counter);
    assert_eq!(frags.len(), 100 * 10);

    // The fragment at the screen-space midpoint of the first scanline.
    let mid = frags.iter().find(|f| f.y == 0 && f.x == 50).unwrap();
    let u = mid.u as f64 / FP_ONE as f64;
    let z = mid.z as f64 / FP_ONE as f64;

    // Analytically: 1/z and u/z vary linearly in x, so at the midpoint
    // 1/z = (1/5 + 1/20) / 2 = 1/8 and u/z = (0 + 256/20) / 2 = 6.4,
    // giving z = 8 and u = 51.2. Screen-linear interpolation would give
    // u = 128 instead.
    assert!((z - 8.0).abs() < 0.05, "z was {}", z);
    assert!((u - 51.2).abs() < 0.3, "u was {}", u);
    assert!((u - 128.0).abs() > 50.0);
}

#[test]
fn scalar_and_vector_paths_agree() {
    // The vectorized drawing path emits bit-for-bit the same fragments as
    // the scalar one.
    let quad = quad_5_to_20();
    let mut c1 = 3u32;
    let mut c2 = 3u32;
    let scalar = texpoly::draw_polygon(&quad, &mut c1);
    let vector = texpoly_vec::draw_polygon(&quad, &mut c2);
    assert_eq!(scalar, vector);
    assert_eq!(c1, c2);
}

#[test]
fn fragments_walk_left_to_right_top_to_bottom() {
    let quad = quad_5_to_20();
    let mut counter = 0u32;
    let frags = texpoly::draw_polygon(&quad, &mut counter);
    for w in frags.windows(2) {
        assert!(w[0].y < w[1].y || (w[0].y == w[1].y && w[0].x + 1 == w[1].x));
    }
}

#[test]
fn constant_depth_quad_keeps_u_linear() {
    // With constant depth, perspective-correct interpolation degenerates
    // to plain linear interpolation.
    let quad = vec![
        TexVert { x: 0, y: 0, z: 4 * FP_ONE, u: 0, v: 0 },
        TexVert { x: 64, y: 0, z: 4 * FP_ONE, u: 64 * FP_ONE, v: 0 },
        TexVert { x: 64, y: 4, z: 4 * FP_ONE, u: 64 * FP_ONE, v: 0 },
        TexVert { x: 0, y: 4, z: 4 * FP_ONE, u: 0, v: 0 },
    ];
    let mut counter = 0u32;
    let frags = texpoly::draw_polygon(&quad, &mut counter);
    for f in frags.iter() {
        let u = f.u as f64 / FP_ONE as f64;
        assert!((u - f.x as f64).abs() < 0.05, "x {} u {}", f.x, u);
        let z = f.z as f64 / FP_ONE as f64;
        assert!((z - 4.0).abs() < 0.01);
    }
}
