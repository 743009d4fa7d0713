//! Helpers of the sector renderer: the player state, the wall-drawing state
//! machine, integer distance, and clipping of wall endpoints that lie
//! behind the player.

use vstd::prelude::*;

use crate::fixed::div_t;
use crate::fixed::is_sqrt_floor;
use crate::fixed::isqrt;
use crate::fixed::sqrt_floor;
use crate::fixed::tdiv;

verus! {

/// The player: position, view height, facing angle in degrees, look offset,
/// and the precision toggle.
#[derive(Clone, Copy, PartialEq, Eq, Structural, Debug)]
pub struct Player {
    pub x: i64,
    pub y: i64,
    pub z: i64,
    pub a: i64,
    pub l: i64,
    pub p: bool,
}

impl Player {
    /// The starting player state.
    pub fn new() -> (r: Player)
        ensures
            r == (Player { x: 70, y: -110i64, z: 20, a: 0, l: 0, p: false }),
    {
        Player { x: 70, y: -110, z: 20, a: 0, l: 0, p: false }
    }
}

/// The wall-drawing pass: record a surface contour, fill toward a recorded
/// contour, plain fill, or done. The color the pass draws with rides along.
#[derive(Clone, Copy, PartialEq, Eq, Structural, Debug)]
pub enum DrawState {
    LowerContour(i64),
    UpperContour(i64),
    LowerFill(i64),
    UpperFill(i64),
    Fill,
    Done,
}

/// The pass that follows a contour pass fills against the recorded
/// contour; anything else ends the walk.
pub open spec fn draw_state_next(s: DrawState) -> DrawState {
    match s {
        DrawState::LowerContour(c) => DrawState::LowerFill(c),
        DrawState::UpperContour(c) => DrawState::UpperFill(c),
        _ => DrawState::Done,
    }
}

impl DrawState {
    /// Step the wall-drawing pass.
    pub fn next(self) -> (r: DrawState)
        ensures
            r == draw_state_next(self),
    {
        match self {
            DrawState::LowerContour(c) => DrawState::LowerFill(c),
            DrawState::UpperContour(c) => DrawState::UpperFill(c),
            _ => DrawState::Done,
        }
    }
}

/// One of the eight wall colors, or the background, as packed RGB channels.
#[derive(Clone, Copy, PartialEq, Eq, Structural, Debug)]
pub struct Color {
    pub r: u8,
    pub g: u8,
    pub b: u8,
}

/// The palette of the sector renderer.
pub open spec fn color_spec(color_index: int) -> Color {
    if color_index == 0 {
        Color { r: 255, g: 255, b: 0 }
    } else if color_index == 1 {
        Color { r: 160, g: 160, b: 0 }
    } else if color_index == 2 {
        Color { r: 0, g: 255, b: 0 }
    } else if color_index == 3 {
        Color { r: 0, g: 160, b: 0 }
    } else if color_index == 4 {
        Color { r: 0, g: 255, b: 255 }
    } else if color_index == 5 {
        Color { r: 0, g: 160, b: 160 }
    } else if color_index == 6 {
        Color { r: 160, g: 100, b: 0 }
    } else if color_index == 7 {
        Color { r: 110, g: 50, b: 0 }
    } else {
        Color { r: 0, g: 60, b: 130 }
    }
}

/// Look up a wall color by index; any unknown index gives the background.
pub fn get_color(color_index: i64) -> (r: Color)
    ensures
        r == color_spec(color_index as int),
{
    match color_index {
        0 => Color { r: 255, g: 255, b: 0 },
        1 => Color { r: 160, g: 160, b: 0 },
        2 => Color { r: 0, g: 255, b: 0 },
        3 => Color { r: 0, g: 160, b: 0 },
        4 => Color { r: 0, g: 255, b: 255 },
        5 => Color { r: 0, g: 160, b: 160 },
        6 => Color { r: 160, g: 100, b: 0 },
        7 => Color { r: 110, g: 50, b: 0 },
        _ => Color { r: 0, g: 60, b: 130 },
    }
}

/// The integer distance between two map points, rounded down.
pub fn dist(x1: i64, y1: i64, x2: i64, y2: i64) -> (r: i64)
    requires
        -1073741824 <= x1 <= 1073741824,
        -1073741824 <= y1 <= 1073741824,
        -1073741824 <= x2 <= 1073741824,
        -1073741824 <= y2 <= 1073741824,
    ensures
        is_sqrt_floor((x2 - x1) * (x2 - x1) + (y2 - y1) * (y2 - y1), r as int),
        r == sqrt_floor((x2 - x1) * (x2 - x1) + (y2 - y1) * (y2 - y1)),
{
    let xd = x2 - x1;
    let yd = y2 - y1;
    proof {
        assert(0 <= xd * xd <= 0x4000_0000_0000_0000 && 0 <= yd * yd <= 0x4000_0000_0000_0000)
            by (nonlinear_arith)
            requires
                -2147483648 <= xd <= 2147483648,
                -2147483648 <= yd <= 2147483648,
        ;
    }
    let sq = (xd * xd) as u64 + (yd * yd) as u64;
    let r = isqrt(sq);
    proof {
        assert(r * r <= sq) by (nonlinear_arith)
            requires
                is_sqrt_floor(sq as int, r as int),
                0 <= r,
        ;
        assert(r <= 4294967296) by (nonlinear_arith)
            requires
                r * r <= sq,
                sq <= 0x8000_0000_0000_0000,
                0 <= r,
        ;
    }
    r as i64
}

/// Truncating division by a nonzero divisor of either sign.
pub open spec fn div_tz(n: int, d: int) -> int {
    if d > 0 {
        div_t(n, d)
    } else {
        div_t(-n, -d)
    }
}

/// The divisor the clip uses: the depth gap between the two endpoints, or
/// one when the endpoints share a depth.
pub open spec fn cbp_d(da: int, db: int) -> int {
    if da - db != 0 {
        da - db
    } else {
        1
    }
}

/// One clipped coordinate: the original plus the truncated proportional
/// step toward the other endpoint.
pub open spec fn cbp_val(v1: int, v2: int, da: int, d: int) -> int {
    v1 + div_tz(da * (v2 - v1), d)
}

/// Pull a wall endpoint that lies behind the player up to the view plane:
/// each coordinate moves toward the other endpoint by the ratio of the
/// first endpoint's depth to the depth gap, and a depth that lands exactly
/// on zero is nudged to one.
pub fn clip_behind_player(x1: &mut i64, y1: &mut i64, z1: &mut i64, x2: i64, y2: i64, z2: i64)
    requires
        -1073741824 <= *old(x1) <= 1073741824,
        -1073741824 <= *old(y1) <= 1073741824,
        -1073741824 <= *old(z1) <= 1073741824,
        -1073741824 <= x2 <= 1073741824,
        -1073741824 <= y2 <= 1073741824,
        -1073741824 <= z2 <= 1073741824,
    ensures
        ({
            let da = *old(y1) as int;
            let d = cbp_d(da, y2 as int);
            let ny = cbp_val(da, y2 as int, da, d);
            &&& *final (x1) == cbp_val(*old(x1) as int, x2 as int, da, d)
            &&& *final (y1) == if ny == 0 {
                1int
            } else {
                ny
            }
            &&& *final (z1) == cbp_val(*old(z1) as int, z2 as int, da, d)
        }),
{
    let da = *y1;
    let db = y2;
    let dd = da - db;
    let d = if dd != 0 {
        dd
    } else {
        1
    };
    *x1 = *x1 + div_step(da, x2 - *x1, d);
    *y1 = *y1 + div_step(da, y2 - *y1, d);
    if *y1 == 0 {
        *y1 = 1;
    }
    *z1 = *z1 + div_step(da, z2 - *z1, d);
}

/// The truncated proportional step `da * delta / d` for a nonzero divisor
/// of either sign.
fn div_step(da: i64, delta: i64, d: i64) -> (r: i64)
    requires
        d != 0,
        -2147483648 <= da <= 2147483648,
        -2147483648 <= delta <= 2147483648,
        -2147483648 <= d <= 2147483648,
    ensures
        r == div_tz(da * delta, d as int),
        -4611686018427387904 <= r <= 4611686018427387904,
{
    proof {
        assert(-4611686018427387904 <= da * delta <= 4611686018427387904) by (nonlinear_arith)
            requires
                -2147483648 <= da <= 2147483648,
                -2147483648 <= delta <= 2147483648,
        ;
        crate::fixed::lemma_div_t_bounds(da * delta, if d > 0 {
            d as int
        } else {
            -d as int
        });
        crate::fixed::lemma_div_t_bounds(-(da * delta), if d > 0 {
            d as int
        } else {
            -d as int
        });
    }
    let num = da * delta;
    if d > 0 {
        tdiv(num, d)
    } else {
        tdiv(-num, -d)
    }
}


/// One pixel the wall renderer paints.
#[derive(Clone, Copy, PartialEq, Eq, Structural, Debug)]
pub struct WallPixel {
    pub x: i64,
    pub y: i64,
    pub color: i64,
}

/// The horizontal extent a wall is interpolated over, never zero.
pub open spec fn wall_dx(x1: int, x2: int) -> int {
    if x2 - x1 != 0 {
        x2 - x1
    } else {
        1
    }
}

/// The edge height of a wall at column `x`: the rounded proportional step
/// along the edge's vertical extent, plus the edge's starting height.
pub open spec fn wall_y(dy: int, x: int, xs: int, dx: int, base: int) -> int {
    div_tz(dy * (x - xs) + div_tz(dy, 2), dx) + base
}

/// `v` clamped into `[lo, hi]`, upper bound last.
pub open spec fn clamp_i(v: int, lo: int, hi: int) -> int {
    if v < lo {
        lo
    } else if v > hi {
        hi
    } else {
        v
    }
}

/// The vertical pixel run of one column: color `color` from `lo` up to
/// `hi` (exclusive).
pub open spec fn col_run(x: int, lo: int, hi: int, color: int) -> Seq<WallPixel> {
    if lo <= hi {
        Seq::new(
            (hi - lo) as nat,
            |j: int| WallPixel { x: x as i64, y: (lo + j) as i64, color: color as i64 },
        )
    } else {
        Seq::empty()
    }
}

/// The clamped bottom edge height of a wall at column `x`.
pub open spec fn wall_y1c(x: int, xs: int, b1: int, b2: int, x2: int, h: int) -> int {
    clamp_i(wall_y(b2 - b1, x, xs, wall_dx(xs, x2), b1), 1, h - 1)
}

/// The clamped top edge height of a wall at column `x`.
pub open spec fn wall_y2c(x: int, xs: int, t1: int, t2: int, x2: int, h: int) -> int {
    clamp_i(wall_y(t2 - t1, x, xs, wall_dx(xs, x2), t1), 1, h - 1)
}

/// The pixels one column of a wall paints in a given draw pass: a fill run
/// against the recorded contour where the pass asks for one, then the wall
/// itself between its two edge heights. Contour passes paint nothing.
pub open spec fn wall_col_px(
    state: DrawState,
    lb: int,
    x: int,
    y1c: int,
    y2c: int,
    c: int,
) -> Seq<WallPixel> {
    match state {
        DrawState::UpperContour(_) => Seq::empty(),
        DrawState::LowerContour(_) => Seq::empty(),
        DrawState::UpperFill(fc) => col_run(x, lb, y1c, fc as int) + col_run(x, y1c, y2c, c),
        DrawState::LowerFill(fc) => col_run(x, y2c, lb, fc as int) + col_run(x, y1c, y2c, c),
        _ => col_run(x, y1c, y2c, c),
    }
}

/// Every pixel a wall paints, column by column from its clamped left edge
/// to its clamped right edge.
pub open spec fn wall_px(
    state: DrawState,
    lb: Seq<i64>,
    xs: int,
    x1c: int,
    x2c: int,
    b1: int,
    b2: int,
    t1: int,
    t2: int,
    x2: int,
    h: int,
    c: int,
) -> Seq<WallPixel> {
    if x1c <= x2c {
        Seq::new(
            (x2c - x1c) as nat,
            |i: int|
                wall_col_px(
                    state,
                    lb[x1c + i] as int,
                    x1c + i,
                    wall_y1c(x1c + i, xs, b1, b2, x2, h),
                    wall_y2c(x1c + i, xs, t1, t2, x2, h),
                    c,
                ),
        ).flatten()
    } else {
        Seq::empty()
    }
}

/// Draw one wall trapezoid column by column. In a contour pass the wall's
/// silhouette heights are recorded into `line_buf` and nothing is painted;
/// in a fill pass pixels run from the recorded contour to the wall's edge,
/// and in every non-contour pass the wall's own span is painted. The
/// columns walked are the wall's extent clamped to `[1, w - 1)`.
#[verifier::rlimit(100)]
#[verifier::loop_isolation(false)]
pub fn draw_wall(
    x1: i64,
    x2: i64,
    b1: i64,
    b2: i64,
    t1: i64,
    t2: i64,
    c: i64,
    draw_state: &DrawState,
    line_buf: &mut Vec<i64>,
    w: i64,
    h: i64,
) -> (px: Vec<WallPixel>)
    requires
        2 <= w <= 1048576,
        2 <= h <= 1048576,
        old(line_buf)@.len() == w,
        -1048576 <= x1 <= 1048576,
        -1048576 <= x2 <= 1048576,
        -1048576 <= b1 <= 1048576,
        -1048576 <= b2 <= 1048576,
        -1048576 <= t1 <= 1048576,
        -1048576 <= t2 <= 1048576,
    ensures
        final (line_buf)@.len() == old(line_buf)@.len(),
        ({
            let xs = x1 as int;
            let x1c = clamp_i(x1 as int, 1, w - 1);
            let x2c = clamp_i(x2 as int, 1, w - 1);
            match *draw_state {
                DrawState::UpperContour(_) => px@.len() == 0 && (forall|x: int|
                    x1c <= x < x2c ==> final (line_buf)@[x] == wall_y1c(
                        x,
                        xs,
                        b1 as int,
                        b2 as int,
                        x2 as int,
                        h as int,
                    )) && (forall|x: int|
                    0 <= x < w && !(x1c <= x < x2c) ==> final (line_buf)@[x] == old(
                        line_buf,
                    )@[x]),
                DrawState::LowerContour(_) => px@.len() == 0 && (forall|x: int|
                    x1c <= x < x2c ==> final (line_buf)@[x] == wall_y2c(
                        x,
                        xs,
                        t1 as int,
                        t2 as int,
                        x2 as int,
                        h as int,
                    )) && (forall|x: int|
                    0 <= x < w && !(x1c <= x < x2c) ==> final (line_buf)@[x] == old(
                        line_buf,
                    )@[x]),
                _ => final (line_buf)@ == old(line_buf)@ && px@ == wall_px(
                    *draw_state,
                    old(line_buf)@,
                    xs,
                    x1c,
                    x2c,
                    b1 as int,
                    b2 as int,
                    t1 as int,
                    t2 as int,
                    x2 as int,
                    h as int,
                    c as int,
                ),
            }
        }),
{
    let mut px: Vec<WallPixel> = Vec::new();
    let dyb = b2 - b1;
    let dyt = t2 - t1;
    let dx0 = x2 - x1;
    let dx = if dx0 != 0 {
        dx0
    } else {
        1
    };
    let xs = x1;

    let x1c = if x1 < 1 {
        1
    } else if x1 > w - 1 {
        w - 1
    } else {
        x1
    };
    let x2c = if x2 < 1 {
        1
    } else if x2 > w - 1 {
        w - 1
    } else {
        x2
    };

    let ghost lb0 = line_buf@;
    let ghost cols = if x1c <= x2c {
        Seq::new(
            (x2c - x1c) as nat,
            |i: int|
                wall_col_px(
                    *draw_state,
                    lb0[x1c + i] as int,
                    x1c + i,
                    wall_y1c(x1c + i, xs as int, b1 as int, b2 as int, x2 as int, h as int),
                    wall_y2c(x1c + i, xs as int, t1 as int, t2 as int, x2 as int, h as int),
                    c as int,
                ),
        )
    } else {
        Seq::empty()
    };

    let mut x = x1c;
    while x < x2c
        invariant
            x1c <= x,
            x <= x2c || x == x1c,
            line_buf@.len() == w,
            px@.len() == 0 || !(draw_state is UpperContour) && !(draw_state is LowerContour),
            match *draw_state {
                DrawState::UpperContour(_) => (forall|q: int|
                    x1c <= q < x ==> line_buf@[q] == wall_y1c(
                        q,
                        xs as int,
                        b1 as int,
                        b2 as int,
                        x2 as int,
                        h as int,
                    )) && (forall|q: int|
                    0 <= q < w && !(x1c <= q < x) ==> line_buf@[q] == lb0[q]),
                DrawState::LowerContour(_) => (forall|q: int|
                    x1c <= q < x ==> line_buf@[q] == wall_y2c(
                        q,
                        xs as int,
                        t1 as int,
                        t2 as int,
                        x2 as int,
                        h as int,
                    )) && (forall|q: int|
                    0 <= q < w && !(x1c <= q < x) ==> line_buf@[q] == lb0[q]),
                _ => line_buf@ == lb0 && px@ == cols.take(x - x1c).flatten(),
            },
        decreases x2c - x,
    {
        proof {
            assert(-4398046511104 <= dyb * (x - xs) <= 4398046511104 && -4398046511104 <= dyt * (
            x - xs) <= 4398046511104) by (nonlinear_arith)
                requires
                    -2097152 <= dyb <= 2097152,
                    -2097152 <= dyt <= 2097152,
                    -2097152 <= x - xs <= 2097152,
            ;
            crate::fixed::lemma_div_t_bounds(dyb as int, 2);
            crate::fixed::lemma_div_t_bounds(-(dyb as int), 2);
            crate::fixed::lemma_div_t_bounds(dyt as int, 2);
            crate::fixed::lemma_div_t_bounds(-(dyt as int), 2);
        }
        let hb = div_signed(dyb, 2);
        let ht = div_signed(dyt, 2);
        let num_b = dyb * (x - xs) + hb;
        let num_t = dyt * (x - xs) + ht;
        let y1r = div_signed(num_b, dx) + b1;
        let y2r = div_signed(num_t, dx) + t1;

        let y1 = if y1r < 1 {
            1
        } else if y1r > h - 1 {
            h - 1
        } else {
            y1r
        };
        let y2 = if y2r < 1 {
            1
        } else if y2r > h - 1 {
            h - 1
        } else {
            y2r
        };
        proof {
            assert(y1 == wall_y1c(x as int, xs as int, b1 as int, b2 as int, x2 as int, h as int));
            assert(y2 == wall_y2c(x as int, xs as int, t1 as int, t2 as int, x2 as int, h as int));
        }

        match draw_state {
            DrawState::UpperContour(_) => {
                line_buf[x as usize] = y1;
            }
            DrawState::LowerContour(_) => {
                line_buf[x as usize] = y2;
            }
            DrawState::UpperFill(fc) => {
                let lb = line_buf[x as usize];
                push_run(&mut px, x, lb, y1, *fc);
                push_run(&mut px, x, y1, y2, c);
                proof {
                    assert(px@ =~= cols.take(x - x1c).flatten() + (col_run(
                        x as int,
                        lb as int,
                        y1 as int,
                        *fc as int,
                    ) + col_run(x as int, y1 as int, y2 as int, c as int)));
                    lemma_wall_col_flatten(cols, x - x1c, px@, *draw_state);
                }
            }
            DrawState::LowerFill(fc) => {
                let lb = line_buf[x as usize];
                push_run(&mut px, x, y2, lb, *fc);
                push_run(&mut px, x, y1, y2, c);
                proof {
                    assert(px@ =~= cols.take(x - x1c).flatten() + (col_run(
                        x as int,
                        y2 as int,
                        lb as int,
                        *fc as int,
                    ) + col_run(x as int, y1 as int, y2 as int, c as int)));
                    lemma_wall_col_flatten(cols, x - x1c, px@, *draw_state);
                }
            }
            _ => {
                push_run(&mut px, x, y1, y2, c);
                proof {
                    lemma_wall_col_flatten(cols, x - x1c, px@, *draw_state);
                }
            }
        }
        x = x + 1;
    }
    proof {
        match *draw_state {
            DrawState::UpperContour(_) => {
            }
            DrawState::LowerContour(_) => {
            }
            _ => {
                if x1c <= x2c {
                    assert(cols.take(x2c - x1c) =~= cols);
                } else {
                    assert(px@ =~= Seq::<WallPixel>::empty());
                }
            }
        }
    }
    px
}

/// Append one vertical run of pixels to the output.
#[verifier::loop_isolation(false)]
fn push_run(px: &mut Vec<WallPixel>, x: i64, lo: i64, hi: i64, color: i64)
    ensures
        final (px)@ == old(px)@ + col_run(x as int, lo as int, hi as int, color as int),
{
    let ghost run = col_run(x as int, lo as int, hi as int, color as int);
    let mut y = lo;
    while y < hi
        invariant
            lo <= y,
            y <= hi || y == lo,
            px@ == old(px)@ + run.take(y - lo),
        decreases hi - y,
    {
        proof {
            assert(run.take(y - lo + 1) =~= run.take(y - lo).push(run[y - lo]));
        }
        px.push(WallPixel { x, y, color });
        y = y + 1;
    }
    proof {
        if lo < hi {
            assert(run.take(hi - lo) =~= run);
        } else {
            assert(run.take(0) =~= run);
        }
        assert(px@ =~= old(px)@ + run);
    }
}

/// Truncating division by a nonzero divisor of either sign.
fn div_signed(n: i64, d: i64) -> (r: i64)
    requires
        d != 0,
        -4611686018427387904 <= n <= 4611686018427387904,
        -4611686018427387904 <= d <= 4611686018427387904,
    ensures
        r == div_tz(n as int, d as int),
        -4611686018427387904 <= r <= 4611686018427387904,
{
    proof {
        crate::fixed::lemma_div_t_bounds(n as int, if d > 0 {
            d as int
        } else {
            -d as int
        });
        crate::fixed::lemma_div_t_bounds(-(n as int), if d > 0 {
            d as int
        } else {
            -d as int
        });
    }
    if d > 0 {
        tdiv(n, d)
    } else {
        tdiv(-n, -d)
    }
}

/// Appending one more column's pixels extends the flattened prefix by one
/// column.
proof fn lemma_wall_col_flatten(cols: Seq<Seq<WallPixel>>, i: int, cur: Seq<WallPixel>, state: DrawState)
    requires
        0 <= i < cols.len(),
        cur == cols.take(i).flatten() + cols[i],
    ensures
        cur == cols.take(i + 1).flatten(),
{
    assert(cols.take(i + 1) =~= cols.take(i).push(cols[i]));
    cols.take(i).lemma_flatten_push(cols[i]);
}

} // verus!
