use rasterize::slope::{Slope, Slope4x, SlopeData, Vec4fp};

#[test]
fn slope_exact_steps() {
    // 0 to 100 in 10 steps: increment 10, value begin + k * 10.
    let mut s = SlopeData::new(0, 100, 10);
    for k in 0..=10i64 {
        assert_eq!(s.get(), k * 10);
        s.advance();
    }
}

#[test]
fn slope_truncating_negative() {
    // -7 / 2 truncates toward zero: step -3, not -4.
    let s = SlopeData::new(0, -7, 2);
    assert_eq!(s.step, -3);
    let t = SlopeData::new(0, 7, 2);
    assert_eq!(t.step, 3);
}

#[test]
fn slope_zero_span() {
    let mut s = SlopeData::new(42, 42, 5);
    assert_eq!(s.step, 0);
    s.advance();
    assert_eq!(s.get(), 42);
}

#[test]
fn vector_lanes_equal_scalar_slopes() {
    // The four-wide interpolator's lanes equal four independent scalar
    // interpolators at every step.
    let b = Vec4fp::new(0, 100, -50, 65536);
    let e = Vec4fp::new(37, -3, 49, 0);
    let n = Vec4fp::splat(7);
    let mut v = Slope4x::new(b, e, n);
    let mut s0 = SlopeData::new(b.x, e.x, 7);
    let mut s1 = SlopeData::new(b.y, e.y, 7);
    let mut s2 = SlopeData::new(b.z, e.z, 7);
    let mut s3 = SlopeData::new(b.w, e.w, 7);
    for _ in 0..=7 {
        let lanes = v.get();
        assert_eq!(lanes.x, s0.get());
        assert_eq!(lanes.y, s1.get());
        assert_eq!(lanes.z, s2.get());
        assert_eq!(lanes.w, s3.get());
        v.advance();
        s0.advance();
        s1.advance();
        s2.advance();
        s3.advance();
    }
}

#[test]
fn slope_through_trait() {
    let mut s = SlopeData::new(10, 40, 3);
    let mut vals = Vec::new();
    for _ in 0..3 {
        vals.push(Slope::get(&s));
        Slope::advance(&mut s);
    }
    assert_eq!(vals, vec![10, 20, 30]);
}
