//! Procedural test texture: a 256 by 256 bitmap combining a bitwise
//! red/green/blue pattern, a border glow, and a circular vignette.

use vstd::prelude::*;

verus! {

/// Width of the test texture in texels.
pub const TW: usize = 256;

/// Height of the test texture in texels.
pub const TH: usize = 256;

/// The smaller of two integers.
pub open spec fn imin(a: int, b: int) -> int {
    if a <= b {
        a
    } else {
        b
    }
}

/// The larger of two integers.
pub open spec fn imax(a: int, b: int) -> int {
    if a >= b {
        a
    } else {
        b
    }
}

/// The border glow: a brightness that falls off by powers of two with the
/// distance to the nearest texture edge, capped at 31 halvings.
pub open spec fn tex_glow(x: u32, y: u32) -> u32 {
    let m = imin(imin(imin(imin(x as int, y as int), 255 - x), 255 - y), 31);
    0x1FFu32 >> (m as u32)
}

/// The circular vignette darkening: strongest away from the texture's
/// center, clamped between zero and fifty.
pub open spec fn tex_vignette(x: u32, y: u32) -> int {
    let q = (x - 128) * (x - 128) + (y - 128) * (y - 128);
    let t = q / 1024;
    imin(50, imax(0, 255 - 50 * t))
}

/// One texel of the test texture, as a packed `0x00RRGGBB` color.
pub open spec fn texel(x: u32, y: u32) -> u32 {
    let l = tex_glow(x, y) as int;
    let d = tex_vignette(x, y);
    let r = ((!x & !y) & 255) as int;
    let g = ((x & !y) & 255) as int;
    let b = ((!x & y) & 255) as int;
    let cr = imin(imax(r - d, l), 255);
    let cg = imin(imax(g - d, l), 255);
    let cb = imin(imax(b - d, l), 255);
    (cr * 65536 + cg * 256 + cb) as u32
}

/// A byte-masked value stays below 256.
proof fn lemma_mask255(v: u32)
    ensures
        v & 255 <= 255,
{
    assert(v & 255 <= 255) by (bit_vector);
}

/// Build the test texture: one packed color per texel, row-major from the
/// top-left corner.
#[verifier::loop_isolation(false)]
pub fn create() -> (bitmap: Vec<u32>)
    ensures
        bitmap@.len() == TW * TH,
        forall|k: int|
            0 <= k < bitmap@.len() ==> bitmap@[k] == texel((k % 256) as u32, (k / 256) as u32),
{
    let mut bitmap: Vec<u32> = Vec::new();
    let mut y: u32 = 0;
    while y < 256
        invariant
            0 <= y <= 256,
            bitmap@.len() == y * 256,
            forall|k: int|
                0 <= k < bitmap@.len() ==> bitmap@[k] == texel((k % 256) as u32, (k / 256) as u32),
        decreases 256 - y,
    {
        let mut x: u32 = 0;
        while x < 256
            invariant
                0 <= x <= 256,
                y < 256,
                bitmap@.len() == y * 256 + x,
                forall|k: int|
                    0 <= k < bitmap@.len() ==> bitmap@[k] == texel(
                        (k % 256) as u32,
                        (k / 256) as u32,
                    ),
            decreases 256 - x,
        {
            let mut m: u32 = if x <= y {
                x
            } else {
                y
            };
            if 255 - x <= m {
                m = 255 - x;
            }
            if 255 - y <= m {
                m = 255 - y;
            }
            if 31 <= m {
                m = 31;
            }
            let l: i64 = (0x1FFu32 >> m) as i64;
            let dx: i64 = x as i64 - 128;
            let dy: i64 = y as i64 - 128;
            proof {
                assert(0 <= dx * dx <= 16384 && 0 <= dy * dy <= 16384) by (nonlinear_arith)
                    requires
                        -128 <= dx <= 128,
                        -128 <= dy <= 128,
                ;
            }
            let q: i64 = dx * dx + dy * dy;
            let t: i64 = crate::fixed::fdiv(q, 1024);
            let mut d: i64 = 255 - 50 * t;
            if d < 0 {
                d = 0;
            }
            if d > 50 {
                d = 50;
            }
            proof {
                lemma_mask255(!x & !y);
                lemma_mask255(x & !y);
                lemma_mask255(!x & y);
            }
            let r: i64 = ((!x & !y) & 255) as i64;
            let g: i64 = ((x & !y) & 255) as i64;
            let b: i64 = ((!x & y) & 255) as i64;
            let mut cr: i64 = r - d;
            if cr < l {
                cr = l;
            }
            if cr > 255 {
                cr = 255;
            }
            let mut cg: i64 = g - d;
            if cg < l {
                cg = l;
            }
            if cg > 255 {
                cg = 255;
            }
            let mut cb: i64 = b - d;
            if cb < l {
                cb = l;
            }
            if cb > 255 {
                cb = 255;
            }
            let color = (cr * 65536 + cg * 256 + cb) as u32;
            proof {
                let k = y * 256 + x;
                vstd::arithmetic::div_mod::lemma_fundamental_div_mod_converse_div(
                    k as int,
                    256,
                    y as int,
                    x as int,
                );
                vstd::arithmetic::div_mod::lemma_fundamental_div_mod_converse_mod(
                    k as int,
                    256,
                    y as int,
                    x as int,
                );
                assert(color == texel(x, y));
            }
            bitmap.push(color);
            x = x + 1;
        }
        y = y + 1;
    }
    bitmap
}

} // verus!
