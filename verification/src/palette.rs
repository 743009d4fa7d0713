//! Paletted framebuffer and color quantization.
//!
//! A `Framebuffer` holds one palette index per pixel plus a resolved RGB
//! copy; `resolve` maps every index through the 256-entry palette.
//! `quantize` maps RGB colors to the palette index with the smallest
//! squared color distance, preferring the earliest on ties.

use vstd::prelude::*;

verus! {

/// Number of palette entries.
pub const NUM_COLORS: usize = 256;

/// The squared color distance between two packed `0x00RRGGBB` colors:
/// the sum of the squared channel differences.
pub open spec fn msd(a: u32, b: u32) -> int {
    let r = (a & 255) - (b & 255);
    let g = ((a >> 8) & 255) - ((b >> 8) & 255);
    let bl = ((a >> 16) & 255) - ((b >> 16) & 255);
    r * r + g * g + bl * bl
}

/// `out` is the palette index `quantize` picks for color `c`: no entry is
/// strictly closer, and every earlier entry is strictly farther.
pub open spec fn is_nearest(pal: Seq<u32>, c: u32, out: u8) -> bool {
    &&& forall|j: int| 0 <= j < pal.len() ==> msd(c, pal[out as int]) <= msd(c, #[trigger] pal[j])
    &&& forall|j: int| 0 <= j < out ==> msd(c, #[trigger] pal[j]) > msd(c, pal[out as int])
}

/// A channel of a packed color, masked to a byte, stays below 256.
proof fn lemma_channel_bound(v: u32)
    ensures
        v & 255 <= 255,
        (v >> 8) & 255 <= 255,
        (v >> 16) & 255 <= 255,
{
    assert(v & 255 <= 255 && (v >> 8) & 255 <= 255 && (v >> 16) & 255 <= 255) by (bit_vector);
}

/// The squared color distance of two packed colors.
fn msd_px(a: u32, b: u32) -> (r: i64)
    ensures
        r == msd(a, b),
        0 <= r <= 195075,
{
    proof {
        lemma_channel_bound(a);
        lemma_channel_bound(b);
    }
    let dr: i64 = (a & 255) as i64 - (b & 255) as i64;
    let dg: i64 = ((a >> 8) & 255) as i64 - ((b >> 8) & 255) as i64;
    let db: i64 = ((a >> 16) & 255) as i64 - ((b >> 16) & 255) as i64;
    proof {
        assert(0 <= dr * dr <= 65025 && 0 <= dg * dg <= 65025 && 0 <= db * db <= 65025)
            by (nonlinear_arith)
            requires
                -255 <= dr <= 255,
                -255 <= dg <= 255,
                -255 <= db <= 255,
        ;
    }
    dr * dr + dg * dg + db * db
}

/// Map every RGB color to the index of the nearest palette entry by squared
/// color distance, earliest entry on ties.
#[verifier::loop_isolation(false)]
pub fn quantize(palette: &Vec<u32>, rgb: &Vec<u32>) -> (out: Vec<u8>)
    requires
        palette@.len() == NUM_COLORS,
    ensures
        out@.len() == rgb@.len(),
        forall|i: int| 0 <= i < out@.len() ==> is_nearest(palette@, rgb@[i], #[trigger] out@[i]),
{
    let mut out: Vec<u8> = Vec::new();
    let mut i: usize = 0;
    while i < rgb.len()
        invariant
            0 <= i <= rgb@.len(),
            out@.len() == i,
            forall|k: int| 0 <= k < i ==> is_nearest(palette@, rgb@[k], #[trigger] out@[k]),
        decreases rgb@.len() - i,
    {
        let c = rgb[i];
        let mut best: usize = 0;
        let mut min: i64 = i64::MAX;
        let mut j: usize = 0;
        while j < NUM_COLORS
            invariant
                0 <= j <= NUM_COLORS,
                j == 0 ==> best == 0 && min == i64::MAX,
                j > 0 ==> 0 <= best < j && min == msd(c, palette@[best as int]),
                forall|k: int| 0 <= k < j ==> min <= msd(c, #[trigger] palette@[k]),
                forall|k: int| 0 <= k < best ==> msd(c, #[trigger] palette@[k]) > min,
            decreases NUM_COLORS - j,
        {
            let err = msd_px(c, palette[j]);
            if err < min {
                min = err;
                best = j;
            }
            j = j + 1;
        }
        out.push(best as u8);
        i = i + 1;
    }
    out
}

/// A paletted framebuffer: one palette index per pixel, with a resolved
/// RGB copy filled from the palette on demand.
pub struct Framebuffer {
    pub width: u32,
    pub height: u32,
    pub palette: Vec<u32>,
    pub framebuffer: Vec<u8>,
    pub framebuffer_rgb: Vec<u32>,
}

/// The framebuffer's storage matches its dimensions and its palette is
/// complete.
pub open spec fn fb_ok(fb: Framebuffer) -> bool {
    &&& fb.palette@.len() == NUM_COLORS
    &&& fb.framebuffer@.len() == fb.width * fb.height
    &&& fb.framebuffer_rgb@.len() == fb.width * fb.height
}

impl Framebuffer {
    /// A framebuffer of the given size, cleared to palette index zero.
    pub fn new(width: u32, height: u32, palette: &Vec<u32>) -> (fb: Framebuffer)
        requires
            palette@.len() == NUM_COLORS,
            width <= 4096,
            height <= 4096,
        ensures
            fb_ok(fb),
            fb.width == width,
            fb.height == height,
            fb.palette@ == palette@,
            forall|i: int| 0 <= i < fb.framebuffer@.len() ==> fb.framebuffer@[i] == 0,
    {
        proof {
            assert(0 <= (width as int) * (height as int) <= 16777216) by (nonlinear_arith)
                requires
                    0 <= width <= 4096,
                    0 <= height <= 4096,
            ;
        }
        let n = (width as usize) * (height as usize);
        let mut pal: Vec<u32> = Vec::new();
        let mut i: usize = 0;
        while i < palette.len()
            invariant
                0 <= i <= palette@.len(),
                pal@ == palette@.take(i as int),
            decreases palette@.len() - i,
        {
            pal.push(palette[i]);
            proof {
                assert(pal@ =~= palette@.take(i as int + 1));
            }
            i = i + 1;
        }
        proof {
            assert(palette@.take(palette@.len() as int) =~= palette@);
        }
        let mut fbuf: Vec<u8> = Vec::new();
        let mut j: usize = 0;
        while j < n
            invariant
                0 <= j <= n,
                fbuf@.len() == j,
                forall|k: int| 0 <= k < j ==> fbuf@[k] == 0,
            decreases n - j,
        {
            fbuf.push(0);
            j = j + 1;
        }
        let mut rgbbuf: Vec<u32> = Vec::new();
        let mut k: usize = 0;
        while k < n
            invariant
                0 <= k <= n,
                rgbbuf@.len() == k,
            decreases n - k,
        {
            rgbbuf.push(0);
            k = k + 1;
        }
        Framebuffer { width, height, palette: pal, framebuffer: fbuf, framebuffer_rgb: rgbbuf }
    }

    /// Fill the RGB copy by mapping every pixel's palette index through the
    /// palette.
    pub fn resolve(&mut self)
        requires
            fb_ok(*old(self)),
        ensures
            fb_ok(*final (self)),
            final (self).width == old(self).width,
            final (self).height == old(self).height,
            final (self).palette@ == old(self).palette@,
            final (self).framebuffer@ == old(self).framebuffer@,
            forall|i: int|
                0 <= i < final (self).framebuffer_rgb@.len() ==> final (self).framebuffer_rgb@[i]
                    == old(self).palette@[old(self).framebuffer@[i] as int],
    {
        let mut i: usize = 0;
        while i < self.framebuffer.len()
            invariant
                0 <= i <= self.framebuffer@.len(),
                fb_ok(*self),
                self.width == old(self).width,
                self.height == old(self).height,
                self.palette@ == old(self).palette@,
                self.framebuffer@ == old(self).framebuffer@,
                forall|k: int|
                    0 <= k < i ==> self.framebuffer_rgb@[k] == old(self).palette@[old(
                        self,
                    ).framebuffer@[k] as int],
            decreases self.framebuffer@.len() - i,
        {
            let idx = self.framebuffer[i];
            let color = self.palette[idx as usize];
            self.framebuffer_rgb[i] = color;
            i = i + 1;
        }
    }

    /// Clear every pixel back to palette index zero.
    pub fn clear(&mut self)
        requires
            fb_ok(*old(self)),
        ensures
            fb_ok(*final (self)),
            final (self).width == old(self).width,
            final (self).height == old(self).height,
            final (self).palette@ == old(self).palette@,
            final (self).framebuffer_rgb@ == old(self).framebuffer_rgb@,
            forall|i: int|
                0 <= i < final (self).framebuffer@.len() ==> final (self).framebuffer@[i] == 0,
    {
        let mut i: usize = 0;
        while i < self.framebuffer.len()
            invariant
                0 <= i <= self.framebuffer@.len(),
                fb_ok(*self),
                self.width == old(self).width,
                self.height == old(self).height,
                self.palette@ == old(self).palette@,
                self.framebuffer_rgb@ == old(self).framebuffer_rgb@,
                self.framebuffer@.len() == old(self).framebuffer@.len(),
                forall|k: int| 0 <= k < i ==> self.framebuffer@[k] == 0,
            decreases self.framebuffer@.len() - i,
        {
            self.framebuffer[i] = 0;
            i = i + 1;
        }
    }
}

} // verus!
