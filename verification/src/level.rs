//! Voxel blockmap: a grid of occupied cells turned into textured cube-face
//! quads for the renderer.

use vstd::prelude::*;

use crate::fixed::FP_ONE;
use crate::math::Vec3fp;

verus! {

/// Width of the blockmap grid in cells.
pub const SIZE_X: usize = 128;

/// Depth of the blockmap grid in cells.
pub const SIZE_Z: usize = 128;

/// One corner reference of an emitted quad: an index into the shared point
/// list and a texture coordinate in 16.16 fixed point.
#[derive(Clone, Copy, PartialEq, Eq, Structural, Debug)]
pub struct QuadVert {
    pub index: usize,
    pub u: i64,
    pub v: i64,
}

/// One emitted cube face: four corner references in winding order and the
/// index of the texture it carries.
#[derive(Clone, Copy, PartialEq, Eq, Structural, Debug)]
pub struct LevelQuad {
    pub v0: QuadVert,
    pub v1: QuadVert,
    pub v2: QuadVert,
    pub v3: QuadVert,
    pub tex: usize,
}

/// A grid of occupied cells.
pub struct Blockmap {
    pub bitmap: Vec<bool>,
}

/// The blockmap's storage covers the whole grid.
pub open spec fn bm_ok(bm: Blockmap) -> bool {
    bm.bitmap@.len() == SIZE_X * SIZE_Z
}

/// Whether the cell at `(x, z)` is occupied.
pub open spec fn bm_at(bm: Blockmap, z: int, x: int) -> bool {
    bm.bitmap@[z * 128 + x]
}

/// How many of the first `k` grid slots hold an occupied cell.
pub open spec fn bm_count(bm: Blockmap, k: int) -> int
    decreases k,
{
    if k <= 0 {
        0
    } else {
        bm_count(bm, k - 1) + if bm.bitmap@[k - 1] {
            1int
        } else {
            0int
        }
    }
}

/// Every reference of the quad points at a real entry of a point list of
/// length `n`, and its texture index is one of the two wall textures.
pub open spec fn quad_ok(q: LevelQuad, n: int) -> bool {
    &&& q.v0.index < n
    &&& q.v1.index < n
    &&& q.v2.index < n
    &&& q.v3.index < n
    &&& q.tex <= 1
}

impl Blockmap {
    /// An empty blockmap.
    pub fn new() -> (bm: Blockmap)
        ensures
            bm_ok(bm),
            forall|i: int| 0 <= i < bm.bitmap@.len() ==> !bm.bitmap@[i],
    {
        let mut bitmap: Vec<bool> = Vec::new();
        let mut i: usize = 0;
        while i < SIZE_X * SIZE_Z
            invariant
                0 <= i <= SIZE_X * SIZE_Z,
                bitmap@.len() == i,
                forall|k: int| 0 <= k < i ==> !bitmap@[k],
            decreases SIZE_X * SIZE_Z - i,
        {
            bitmap.push(false);
            i = i + 1;
        }
        Blockmap { bitmap }
    }

    /// Stamp a block of rows into the grid at the given cell position; the
    /// rows are given top row last, and a cell becomes occupied exactly
    /// where its byte is the digit one.
    #[verifier::loop_isolation(false)]
    pub fn add(&mut self, pos_x: usize, pos_z: usize, fields: &Vec<Vec<u8>>)
        requires
            bm_ok(*old(self)),
            pos_x + 16 <= SIZE_X,
            pos_z + fields@.len() <= SIZE_Z,
            forall|r: int| 0 <= r < fields@.len() ==> (#[trigger] fields@[r])@.len() == 16,
        ensures
            bm_ok(*final (self)),
            forall|z: int, x: int|
                #![trigger fields@[fields@.len() - 1 - z]@[x]]
                0 <= z < fields@.len() && 0 <= x < 16 ==> bm_at(
                    *final (self),
                    pos_z + z,
                    pos_x + x,
                ) == (fields@[fields@.len() - 1 - z]@[x] == 49),
            forall|zz: int, xx: int|
                #![trigger bm_at(*old(self), zz, xx)]
                0 <= zz < 128 && 0 <= xx < 128 && !(pos_z <= zz < pos_z + fields@.len() && pos_x
                    <= xx < pos_x + 16) ==> bm_at(*final (self), zz, xx) == bm_at(
                    *old(self),
                    zz,
                    xx,
                ),
    {
        let flen = fields.len();
        let mut z: usize = 0;
        while z < flen
            invariant
                0 <= z <= flen,
                flen == fields@.len(),
                bm_ok(*self),
                pos_x + 16 <= SIZE_X,
                pos_z + flen <= SIZE_Z,
                forall|zz: int, xx: int|
                    #![trigger fields@[flen - 1 - zz]@[xx]]
                    0 <= zz < z && 0 <= xx < 16 ==> bm_at(*self, pos_z + zz, pos_x + xx) == (
                    fields@[flen - 1 - zz]@[xx] == 49),
                forall|zz: int, xx: int|
                    #![trigger bm_at(*old(self), zz, xx)]
                    0 <= zz < 128 && 0 <= xx < 128 && !(pos_z <= zz < pos_z + z && pos_x <= xx
                        < pos_x + 16) ==> bm_at(*self, zz, xx) == bm_at(*old(self), zz, xx),
            decreases flen - z,
        {
            let line = &fields[flen - 1 - z];
            let mut x: usize = 0;
            while x < 16
                invariant
                    0 <= x <= 16,
                    0 <= z < flen,
                    flen == fields@.len(),
                    bm_ok(*self),
                    pos_x + 16 <= SIZE_X,
                    pos_z + flen <= SIZE_Z,
                    line@ == fields@[flen - 1 - z]@,
                    forall|zz: int, xx: int|
                        #![trigger fields@[flen - 1 - zz]@[xx]]
                        0 <= zz < z && 0 <= xx < 16 ==> bm_at(*self, pos_z + zz, pos_x + xx) == (
                        fields@[flen - 1 - zz]@[xx] == 49),
                    forall|xx: int|
                        #![trigger fields@[flen - 1 - z]@[xx]]
                        0 <= xx < x ==> bm_at(*self, pos_z + z, pos_x + xx) == (fields@[flen - 1
                            - z]@[xx] == 49),
                    forall|zz: int, xx: int|
                        #![trigger bm_at(*old(self), zz, xx)]
                        0 <= zz < 128 && 0 <= xx < 128 && !(pos_z <= zz < pos_z + z && pos_x <= xx
                            < pos_x + 16) && !(zz == pos_z + z && pos_x <= xx < pos_x + x)
                            ==> bm_at(*self, zz, xx) == bm_at(*old(self), zz, xx),
                decreases 16 - x,
            {
                proof {
                    assert(fields@[flen - 1 - z]@.len() == 16);
                }
                let c = line[x];
                let idx = (pos_z + z) * 128 + (pos_x + x);
                let ghost prev = self.bitmap@;
                self.bitmap[idx] = c == 49;
                proof {
                    assert(self.bitmap@ == prev.update(idx as int, c == 49));
                    assert(bm_at(*self, pos_z + z, pos_x + x) == (fields@[flen - 1 - z]@[
                        x as int] == 49));
                    assert forall|zz: int, xx: int|
                        #![trigger fields@[flen - 1 - zz]@[xx]]
                        0 <= zz < z && 0 <= xx < 16 implies bm_at(*self, pos_z + zz, pos_x + xx)
                        == (fields@[flen - 1 - zz]@[xx] == 49) by {
                        assert((pos_z + zz) * 128 + (pos_x + xx) != idx);
                        assert(bm_at(*self, pos_z + zz, pos_x + xx) == prev[(pos_z + zz) * 128 + (
                        pos_x + xx)]);
                    }
                    assert forall|xx: int|
                        #![trigger fields@[flen - 1 - z]@[xx]]
                        0 <= xx < x + 1 implies bm_at(*self, pos_z + z, pos_x + xx) == (
                        fields@[flen - 1 - z]@[xx] == 49) by {
                        if xx < x {
                            assert((pos_z + z) * 128 + (pos_x + xx) != idx);
                            assert(bm_at(*self, pos_z + z, pos_x + xx) == prev[(pos_z + z) * 128
                                + (pos_x + xx)]);
                        }
                    }
                    assert forall|zz: int, xx: int|
                        #![trigger bm_at(*old(self), zz, xx)]
                        0 <= zz < 128 && 0 <= xx < 128 && !(pos_z <= zz < pos_z + z && pos_x <= xx
                            < pos_x + 16) && !(zz == pos_z + z && pos_x <= xx < pos_x + x
                            + 1) implies bm_at(*self, zz, xx) == bm_at(*old(self), zz, xx) by {
                        assert(zz * 128 + xx != idx);
                        assert(bm_at(*self, zz, xx) == prev[zz * 128 + xx]);
                    }
                }
                x = x + 1;
            }
            z = z + 1;
        }
    }

    /// Emit the renderable geometry of the occupied cells: eight cube
    /// corner points per occupied cell, and one textured quad per visible
    /// face (faces toward an occupied neighbour are skipped; top and
    /// bottom are always emitted). Occupied cells must not touch the grid
    /// border, so that every neighbour lookup lands inside the grid.
    #[verifier::loop_isolation(false)]
    pub fn get_polygons(&self) -> (r: (Vec<Vec3fp>, Vec<LevelQuad>))
        requires
            bm_ok(*self),
            forall|z: int, x: int|
                0 <= z < 128 && 0 <= x < 128 && bm_at(*self, z, x) ==> 1 <= z < 127 && 1 <= x
                    < 127,
        ensures
            r.0@.len() == 8 * bm_count(*self, 16384),
            r.0@.len() % 8 == 0,
            2 * bm_count(*self, 16384) <= r.1@.len() <= 6 * bm_count(*self, 16384),
            forall|q: int| 0 <= q < r.1@.len() ==> quad_ok(#[trigger] r.1@[q], r.0@.len() as int),
    {
        let mut points: Vec<Vec3fp> = Vec::new();
        let mut polys: Vec<LevelQuad> = Vec::new();
        let tw = 256 * FP_ONE;
        let th = 256 * FP_ONE;
        let mut z: usize = 0;
        while z < SIZE_Z
            invariant
                0 <= z <= SIZE_Z,
                bm_ok(*self),
                forall|zz: int, xx: int|
                    0 <= zz < 128 && 0 <= xx < 128 && bm_at(*self, zz, xx) ==> 1 <= zz < 127 && 1
                        <= xx < 127,
                points@.len() % 8 == 0,
                points@.len() == 8 * bm_count(*self, 128 * z),
                2 * bm_count(*self, 128 * z) <= polys@.len() <= 6 * bm_count(*self, 128 * z),
                forall|q: int|
                    0 <= q < polys@.len() ==> quad_ok(#[trigger] polys@[q], points@.len() as int),
            decreases SIZE_Z - z,
        {
            let mut x: usize = 0;
            while x < SIZE_X
                invariant
                    0 <= x <= SIZE_X,
                    0 <= z < SIZE_Z,
                    bm_ok(*self),
                    forall|zz: int, xx: int|
                        0 <= zz < 128 && 0 <= xx < 128 && bm_at(*self, zz, xx) ==> 1 <= zz < 127
                            && 1 <= xx < 127,
                    points@.len() % 8 == 0,
                    points@.len() == 8 * bm_count(*self, 128 * z + x),
                    2 * bm_count(*self, 128 * z + x) <= polys@.len() <= 6 * bm_count(
                        *self,
                        128 * z + x,
                    ),
                    forall|q: int|
                        0 <= q < polys@.len() ==> quad_ok(
                            #[trigger] polys@[q],
                            points@.len() as int,
                        ),
                decreases SIZE_X - x,
            {
                proof {
                    assert(bm_count(*self, 128 * z + x + 1) == bm_count(*self, 128 * z + x)
                        + if self.bitmap@[128 * z + x] {
                        1int
                    } else {
                        0int
                    });
                }
                if self.bitmap[z * 128 + x] {
                    proof {
                        assert(bm_at(*self, z as int, x as int));
                        assert(1 <= z < 127 && 1 <= x < 127);
                    }
                    let offs = points.len();
                    let ox = (x as i64) * 20 * FP_ONE;
                    let oy = 0i64;
                    let oz = (z as i64) * 20 * FP_ONE;
                    let e = 10 * FP_ONE;
                    points.push(Vec3fp { x: ox - e, y: oy - e, z: oz + e });
                    points.push(Vec3fp { x: ox - e, y: oy + e, z: oz + e });
                    points.push(Vec3fp { x: ox + e, y: oy + e, z: oz + e });
                    points.push(Vec3fp { x: ox + e, y: oy - e, z: oz + e });
                    points.push(Vec3fp { x: ox - e, y: oy - e, z: oz - e });
                    points.push(Vec3fp { x: ox - e, y: oy + e, z: oz - e });
                    points.push(Vec3fp { x: ox + e, y: oy + e, z: oz - e });
                    points.push(Vec3fp { x: ox + e, y: oy - e, z: oz - e });
                    if !self.bitmap[(z + 1) * 128 + x] {
                        polys.push(
                            LevelQuad {
                                v0: QuadVert { index: offs, u: 0, v: 0 },
                                v1: QuadVert { index: offs + 1, u: 0, v: th },
                                v2: QuadVert { index: offs + 2, u: tw, v: th },
                                v3: QuadVert { index: offs + 3, u: tw, v: 0 },
                                tex: 0,
                            },
                        );
                    }
                    if !self.bitmap[(z - 1) * 128 + x] {
                        polys.push(
                            LevelQuad {
                                v0: QuadVert { index: offs + 7, u: 0, v: 0 },
                                v1: QuadVert { index: offs + 6, u: 0, v: th },
                                v2: QuadVert { index: offs + 5, u: tw, v: th },
                                v3: QuadVert { index: offs + 4, u: tw, v: 0 },
                                tex: 0,
                            },
                        );
                    }
                    if !self.bitmap[z * 128 + (x - 1)] {
                        polys.push(
                            LevelQuad {
                                v0: QuadVert { index: offs, u: 0, v: 0 },
                                v1: QuadVert { index: offs + 4, u: tw, v: 0 },
                                v2: QuadVert { index: offs + 5, u: tw, v: th },
                                v3: QuadVert { index: offs + 1, u: 0, v: th },
                                tex: 0,
                            },
                        );
                    }
                    if !self.bitmap[z * 128 + (x + 1)] {
                        polys.push(
                            LevelQuad {
                                v0: QuadVert { index: offs + 3, u: 0, v: 0 },
                                v1: QuadVert { index: offs + 2, u: 0, v: th },
                                v2: QuadVert { index: offs + 6, u: tw, v: th },
                                v3: QuadVert { index: offs + 7, u: tw, v: 0 },
                                tex: 0,
                            },
                        );
                    }
                    polys.push(
                        LevelQuad {
                            v0: QuadVert { index: offs, u: 0, v: 0 },
                            v1: QuadVert { index: offs + 3, u: 0, v: th },
                            v2: QuadVert { index: offs + 7, u: tw, v: th },
                            v3: QuadVert { index: offs + 4, u: tw, v: 0 },
                            tex: 0,
                        },
                    );
                    polys.push(
                        LevelQuad {
                            v0: QuadVert { index: offs + 1, u: 0, v: 0 },
                            v1: QuadVert { index: offs + 5, u: tw, v: 0 },
                            v2: QuadVert { index: offs + 6, u: tw, v: th },
                            v3: QuadVert { index: offs + 2, u: 0, v: th },
                            tex: 1,
                        },
                    );
                }
                x = x + 1;
            }
            z = z + 1;
        }
        (points, polys)
    }
}

} // verus!
