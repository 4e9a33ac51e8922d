//! The model rasterizer: places a voxel model under an accumulated rigid
//! transform, registers its bounding box, pre-allocates every chunk the
//! model's extent touches, and writes one occupied cell per resolvable
//! voxel.
//!
//! The placement arithmetic follows the corner-anchored rotation convention:
//! the rotated extent is the entrywise-absolute rotation applied to the
//! size; the minimum corner centers that extent on the translation point,
//! shifted one unit along every axis the rotation flips; and a per-axis
//! offset re-anchors rotated voxel coordinates into non-negative local
//! space.

use vstd::prelude::*;
use vstd::arithmetic::div_mod::lemma_div_is_ordered;
use crate::math::{
    is_signed_perm, lemma_identity_mul, lemma_sdot_select, sabs_mat, sabs_row, sdot, sidentity,
    smulv, svadd, Mat3, V3, COORD_LIMIT,
};
use crate::grid::{cell_index, chunk_of, empty_cells, Cell, Rgb, SparseScene};
use crate::region::{region_set_minimal, spec_insert_region, Aabb, insert_region};

verus! {

/// Bound on the accumulated translation of any placement.
pub const TRANS_LIMIT: i64 = 0x10_0000_0000_0000;

/// One voxel of a model: local coordinates and a palette index.
#[derive(Clone, Copy, PartialEq, Eq, Structural, Debug)]
pub struct Voxel {
    pub x: u8,
    pub y: u8,
    pub z: u8,
    pub i: u8,
}

/// An imported voxel model: its size and its voxels.
#[derive(Debug)]
pub struct VoxModel {
    pub size: V3,
    pub voxels: Vec<Voxel>,
}

pub open spec fn vox_pos(v: Voxel) -> V3 {
    V3 { x: v.x as i64, y: v.y as i64, z: v.z as i64 }
}

/// The voxel's local coordinates lie inside the model's extent.
pub open spec fn in_size(v: Voxel, size: V3) -> bool {
    (v.x as int) < size.x && (v.y as int) < size.y && (v.z as int) < size.z
}

impl VoxModel {
    pub open spec fn wf(self) -> bool {
        &&& 0 <= self.size.x <= 0x1_0000_0000
        &&& 0 <= self.size.y <= 0x1_0000_0000
        &&& 0 <= self.size.z <= 0x1_0000_0000
        &&& forall|k: int| 0 <= k < self.voxels@.len() ==> in_size(#[trigger] self.voxels@[k], self.size)
    }
}

/// The rotated extent of a model: entrywise-absolute rotation times size.
pub open spec fn rotated_size(rot: Mat3, size: V3) -> V3 {
    smulv(sabs_mat(rot), size)
}

/// One unit of shift along every axis the rotation flips (the rotation is
/// defined around a corner, not a center).
pub open spec fn corr_of(rot: Mat3) -> V3 {
    let f = smulv(rot, V3 { x: 1i64, y: 1i64, z: 1i64 });
    V3 {
        x: if f.x < 0 { 1i64 } else { 0i64 },
        y: if f.y < 0 { 1i64 } else { 0i64 },
        z: if f.z < 0 { 1i64 } else { 0i64 },
    }
}

/// The minimum world corner that centers the rotated extent on the
/// translation point.
pub open spec fn min_corner(trans: V3, rsize: V3, corr: V3) -> V3 {
    V3 {
        x: (trans.x - (rsize.x + corr.x) / 2) as i64,
        y: (trans.y - (rsize.y + corr.y) / 2) as i64,
        z: (trans.z - (rsize.z + corr.z) / 2) as i64,
    }
}

/// The per-axis offset re-anchoring rotated voxel coordinates into
/// non-negative local space.
pub open spec fn corner_offset(rot: Mat3, size: V3) -> V3 {
    let v = smulv(rot, size);
    V3 {
        x: if v.x > 0 { 0i64 } else { (-v.x - 1) as i64 },
        y: if v.y > 0 { 0i64 } else { (-v.y - 1) as i64 },
        z: if v.z > 0 { 0i64 } else { (-v.z - 1) as i64 },
    }
}

/// The model's inclusive world bounding box.
pub open spec fn model_aabb(pos: V3, rsize: V3) -> Aabb {
    Aabb {
        min: pos,
        max: V3 {
            x: (pos.x + rsize.x - 1) as i64,
            y: (pos.y + rsize.y - 1) as i64,
            z: (pos.z + rsize.z - 1) as i64,
        },
    }
}

/// The world position a voxel is written at.
pub open spec fn voxel_wpos(rot: Mat3, off: V3, pos: V3, v: Voxel) -> V3 {
    svadd(svadd(smulv(rot, vox_pos(v)), off), pos)
}

/// The cell a voxel produces: its palette color with all flags clear, the
/// special mark for the reserved sentinel index; voxels whose index exceeds
/// the palette are skipped.
pub open spec fn vox_cell(v: Voxel, palette: Seq<Rgb>) -> Option<Cell> {
    if (v.i as int) < palette.len() {
        Some(
            Cell::Occupied {
                color: palette[v.i as int],
                hollow: false,
                glowy: false,
                shiny: false,
                special: v.i == 16,
            },
        )
    } else {
        None
    }
}

/// The ordered cell writes a model produces.
pub open spec fn model_writes(
    voxels: Seq<Voxel>,
    palette: Seq<Rgb>,
    rot: Mat3,
    off: V3,
    pos: V3,
) -> Seq<(V3, Cell)>
    decreases voxels.len(),
{
    if voxels.len() == 0 {
        Seq::empty()
    } else {
        let rest = model_writes(voxels.drop_last(), palette, rot, off, pos);
        match vox_cell(voxels.last(), palette) {
            Some(c) => rest.push((voxel_wpos(rot, off, pos, voxels.last()), c)),
            None => rest,
        }
    }
}

pub open spec fn in_cube(k: V3, lo: V3, hi: V3) -> bool {
    lo.x <= k.x <= hi.x && lo.y <= k.y <= hi.y && lo.z <= k.z <= hi.z
}

/// The grid after every chunk of the cube `[lo, hi]` exists, missing ones
/// filled with empty cells.
pub open spec fn fill_chunks(gm: Map<V3, Seq<Cell>>, lo: V3, hi: V3) -> Map<V3, Seq<Cell>> {
    Map::new(
        |k: V3| gm.contains_key(k) || in_cube(k, lo, hi),
        |k: V3|
            if gm.contains_key(k) {
                gm[k]
            } else {
                empty_cells()
            },
    )
}

/// One cell write applied to the grid model; a write into a missing chunk
/// leaves the grid unchanged (the rasterizer pre-allocates, so this never
/// happens to it).
pub open spec fn apply_write(gm: Map<V3, Seq<Cell>>, w: (V3, Cell)) -> Map<V3, Seq<Cell>> {
    if gm.contains_key(chunk_of(w.0)) {
        gm.insert(chunk_of(w.0), gm[chunk_of(w.0)].update(cell_index(w.0), w.1))
    } else {
        gm
    }
}

/// A write sequence applied in order: the last write to a cell wins.
pub open spec fn apply_writes(gm: Map<V3, Seq<Cell>>, ws: Seq<(V3, Cell)>) -> Map<V3, Seq<Cell>>
    decreases ws.len(),
{
    if ws.len() == 0 {
        gm
    } else {
        apply_write(apply_writes(gm, ws.drop_last()), ws.last())
    }
}

/// Applying writes never creates or removes chunks.
pub proof fn lemma_apply_writes_domain(gm: Map<V3, Seq<Cell>>, ws: Seq<(V3, Cell)>)
    ensures
        forall|k: V3|
            apply_writes(gm, ws).contains_key(k) == gm.contains_key(k),
    decreases ws.len(),
{
    if ws.len() > 0 {
        lemma_apply_writes_domain(gm, ws.drop_last());
    }
}

/// Everything rasterizing one model does: the bounding box is merged into
/// the region set, the chunks under the box are allocated, and the model's
/// writes are applied in voxel order.
pub open spec fn spec_render(
    gm: Map<V3, Seq<Cell>>,
    rs: Seq<Aabb>,
    size: V3,
    voxels: Seq<Voxel>,
    palette: Seq<Rgb>,
    rot: Mat3,
    trans: V3,
) -> (Map<V3, Seq<Cell>>, Seq<Aabb>) {
    let rsize = rotated_size(rot, size);
    let pos = min_corner(trans, rsize, corr_of(rot));
    let off = corner_offset(rot, size);
    let aabb = model_aabb(pos, rsize);
    let lo = chunk_of(aabb.min);
    let hi = chunk_of(aabb.max);
    (
        apply_writes(fill_chunks(gm, lo, hi), model_writes(voxels, palette, rot, off, pos)),
        spec_insert_region(rs, aabb),
    )
}

/// Per-axis placement bound: a voxel inside the model lands inside the
/// rotated extent, re-anchored to zero; all the involved quantities are
/// small.
proof fn lemma_axis_range(r: V3, size: V3, v: Voxel)
    requires
        crate::math::row_is_signed_axis(r),
        0 <= size.x <= 0x1_0000_0000,
        0 <= size.y <= 0x1_0000_0000,
        0 <= size.z <= 0x1_0000_0000,
        in_size(v, size),
    ensures
        0 <= sdot(r, vox_pos(v)) + (if sdot(r, size) > 0 { 0int } else { -sdot(r, size) - 1 })
            < sdot(sabs_row(r), size),
        -0x1_0000_0000 <= sdot(r, vox_pos(v)) <= 0x1_0000_0000,
        -0x1_0000_0000 <= sdot(r, size) <= 0x1_0000_0000,
        0 <= sdot(sabs_row(r), size) <= 0x1_0000_0000,
{
    lemma_sdot_select(r, vox_pos(v));
    lemma_sdot_select(r, size);
    lemma_sdot_select(sabs_row(r), size);
}

/// A voxel write lands inside the model's world bounding box.
proof fn lemma_write_in_aabb(rot: Mat3, size: V3, trans: V3, v: Voxel)
    requires
        is_signed_perm(rot),
        0 <= size.x <= 0x1_0000_0000,
        0 <= size.y <= 0x1_0000_0000,
        0 <= size.z <= 0x1_0000_0000,
        trans.bounded(TRANS_LIMIT as int),
        in_size(v, size),
    ensures
        ({
            let rsize = rotated_size(rot, size);
            let pos = min_corner(trans, rsize, corr_of(rot));
            let off = corner_offset(rot, size);
            let w = voxel_wpos(rot, off, pos, v);
            &&& pos.x <= w.x <= pos.x + rsize.x - 1
            &&& pos.y <= w.y <= pos.y + rsize.y - 1
            &&& pos.z <= w.z <= pos.z + rsize.z - 1
            &&& w.bounded(0x40_0000_0000_0000)
        }),
{
    lemma_axis_range(rot.rx, size, v);
    lemma_axis_range(rot.ry, size, v);
    lemma_axis_range(rot.rz, size, v);
}

/// Floor division by the chunk edge is monotone.
proof fn lemma_chunk_monotone(a: int, b: int)
    requires
        a <= b,
    ensures
        a / 32 <= b / 32,
{
    lemma_div_is_ordered(a, b, 32);
}

/// Allocates the chunks of one `z` line of the cube.
fn fill_line(scene: &mut SparseScene, x: i64, y: i64, z0: i64, z1: i64)
    requires
        old(scene).wf(),
        -0x0080_0000_0000_0000 <= z0 <= 0x0080_0000_0000_0000,
        -0x0080_0000_0000_0000 <= z1 <= 0x0080_0000_0000_0000,
    ensures
        final(scene).wf(),
        final(scene).as_map() == Map::new(
            |k: V3| old(scene).as_map().contains_key(k) || (k.x == x && k.y == y && z0 <= k.z
                <= z1),
            |k: V3|
                if old(scene).as_map().contains_key(k) {
                    old(scene).as_map()[k]
                } else {
                    empty_cells()
                },
        ),
{
    let ghost m0 = scene.as_map();
    let mut z: i64 = z0;
    proof {
        assert(m0 =~~= Map::new(
            |k: V3| m0.contains_key(k) || (k.x == x && k.y == y && z0 <= k.z < z0),
            |k: V3| if m0.contains_key(k) { m0[k] } else { empty_cells() },
        ));
    }
    while z <= z1
        invariant
            scene.wf(),
            z0 <= z,
            -0x0080_0000_0000_0000 <= z0,
            z1 <= 0x0080_0000_0000_0000,
            z <= 0x0080_0000_0000_0001,
            z <= z1 + 1 || z == z0,
            scene.as_map() == Map::new(
                |k: V3| m0.contains_key(k) || (k.x == x && k.y == y && z0 <= k.z < z),
                |k: V3| if m0.contains_key(k) { m0[k] } else { empty_cells() },
            ),
        decreases z1 + 1 - z,
    {
        scene.ensure_chunk(V3 { x, y, z });
        proof {
            assert(scene.as_map() =~~= Map::new(
                |k: V3| m0.contains_key(k) || (k.x == x && k.y == y && z0 <= k.z < z + 1),
                |k: V3| if m0.contains_key(k) { m0[k] } else { empty_cells() },
            ));
        }
        z = z + 1;
    }
    proof {
        assert(scene.as_map() =~~= Map::new(
            |k: V3| m0.contains_key(k) || (k.x == x && k.y == y && z0 <= k.z <= z1),
            |k: V3| if m0.contains_key(k) { m0[k] } else { empty_cells() },
        ));
    }
}

/// Allocates the chunks of one `x` plane of the cube.
fn fill_plane(scene: &mut SparseScene, x: i64, y0: i64, y1: i64, z0: i64, z1: i64)
    requires
        old(scene).wf(),
        -0x0080_0000_0000_0000 <= y0 <= 0x0080_0000_0000_0000,
        -0x0080_0000_0000_0000 <= y1 <= 0x0080_0000_0000_0000,
        -0x0080_0000_0000_0000 <= z0 <= 0x0080_0000_0000_0000,
        -0x0080_0000_0000_0000 <= z1 <= 0x0080_0000_0000_0000,
    ensures
        final(scene).wf(),
        final(scene).as_map() == Map::new(
            |k: V3| old(scene).as_map().contains_key(k) || (k.x == x && y0 <= k.y <= y1 && z0
                <= k.z <= z1),
            |k: V3|
                if old(scene).as_map().contains_key(k) {
                    old(scene).as_map()[k]
                } else {
                    empty_cells()
                },
        ),
{
    let ghost m0 = scene.as_map();
    let mut y: i64 = y0;
    proof {
        assert(m0 =~~= Map::new(
            |k: V3| m0.contains_key(k) || (k.x == x && y0 <= k.y < y0 && z0 <= k.z <= z1),
            |k: V3| if m0.contains_key(k) { m0[k] } else { empty_cells() },
        ));
    }
    while y <= y1
        invariant
            scene.wf(),
            y0 <= y,
            -0x0080_0000_0000_0000 <= y0,
            y1 <= 0x0080_0000_0000_0000,
            y <= 0x0080_0000_0000_0001,
            y <= y1 + 1 || y == y0,
            -0x0080_0000_0000_0000 <= z0 <= 0x0080_0000_0000_0000,
            -0x0080_0000_0000_0000 <= z1 <= 0x0080_0000_0000_0000,
            scene.as_map() == Map::new(
                |k: V3| m0.contains_key(k) || (k.x == x && y0 <= k.y < y && z0 <= k.z <= z1),
                |k: V3| if m0.contains_key(k) { m0[k] } else { empty_cells() },
            ),
        decreases y1 + 1 - y,
    {
        fill_line(scene, x, y, z0, z1);
        proof {
            assert(scene.as_map() =~~= Map::new(
                |k: V3| m0.contains_key(k) || (k.x == x && y0 <= k.y < y + 1 && z0 <= k.z <= z1),
                |k: V3| if m0.contains_key(k) { m0[k] } else { empty_cells() },
            ));
        }
        y = y + 1;
    }
    proof {
        assert(scene.as_map() =~~= Map::new(
            |k: V3| m0.contains_key(k) || (k.x == x && y0 <= k.y <= y1 && z0 <= k.z <= z1),
            |k: V3| if m0.contains_key(k) { m0[k] } else { empty_cells() },
        ));
    }
}

/// Allocates every chunk of the cube `[lo, hi]`.
fn fill_cube(scene: &mut SparseScene, lo: V3, hi: V3)
    requires
        old(scene).wf(),
        lo.bounded(0x0080_0000_0000_0000),
        hi.bounded(0x0080_0000_0000_0000),
    ensures
        final(scene).wf(),
        final(scene).as_map() == fill_chunks(old(scene).as_map(), lo, hi),
{
    let ghost m0 = scene.as_map();
    let mut x: i64 = lo.x;
    proof {
        assert(m0 =~~= Map::new(
            |k: V3| m0.contains_key(k) || (lo.x <= k.x < lo.x && in_cube(k, lo, hi)),
            |k: V3| if m0.contains_key(k) { m0[k] } else { empty_cells() },
        ));
    }
    while x <= hi.x
        invariant
            scene.wf(),
            lo.x <= x,
            lo.bounded(0x0080_0000_0000_0000),
            hi.bounded(0x0080_0000_0000_0000),
            x <= 0x0080_0000_0000_0001,
            x <= hi.x + 1 || x == lo.x,
            scene.as_map() == Map::new(
                |k: V3| m0.contains_key(k) || (lo.x <= k.x < x && in_cube(k, lo, hi)),
                |k: V3| if m0.contains_key(k) { m0[k] } else { empty_cells() },
            ),
        decreases hi.x + 1 - x,
    {
        fill_plane(scene, x, lo.y, hi.y, lo.z, hi.z);
        proof {
            assert(scene.as_map() =~~= Map::new(
                |k: V3| m0.contains_key(k) || (lo.x <= k.x < x + 1 && in_cube(k, lo, hi)),
                |k: V3| if m0.contains_key(k) { m0[k] } else { empty_cells() },
            ));
        }
        x = x + 1;
    }
    proof {
        assert(scene.as_map() =~~= fill_chunks(m0, lo, hi));
    }
}

/// Writes every voxel of the model whose palette index resolves, assuming
/// the chunks under the model's bounding box are already allocated.
#[verifier::rlimit(60)]
fn write_voxels(
    palette: &Vec<Rgb>,
    model: &VoxModel,
    scene: &mut SparseScene,
    rot: Mat3,
    trans: V3,
    pos: V3,
    off: V3,
    rsize: V3,
)
    requires
        model.wf(),
        is_signed_perm(rot),
        trans.bounded(TRANS_LIMIT as int),
        old(scene).wf(),
        rsize == rotated_size(rot, model.size),
        pos == min_corner(trans, rsize, corr_of(rot)),
        off == corner_offset(rot, model.size),
        pos.bounded(0x40_0000_0000_0000),
        off.bounded(0x2_0000_0001),
        forall|c: V3|
            in_cube(
                c,
                chunk_of(pos),
                chunk_of(V3 {
                    x: (pos.x + rsize.x - 1) as i64,
                    y: (pos.y + rsize.y - 1) as i64,
                    z: (pos.z + rsize.z - 1) as i64,
                }),
            ) ==> old(scene).as_map().contains_key(c),
    ensures
        final(scene).wf(),
        final(scene).as_map() == apply_writes(
            old(scene).as_map(),
            model_writes(model.voxels@, palette@, rot, off, pos),
        ),
{
    let ghost m0 = scene.as_map();
    let ghost lo = chunk_of(pos);
    let ghost hi = chunk_of(V3 {
        x: (pos.x + rsize.x - 1) as i64,
        y: (pos.y + rsize.y - 1) as i64,
        z: (pos.z + rsize.z - 1) as i64,
    });
    let n = model.voxels.len();
    let mut k: usize = 0;
    while k < n
        invariant
            scene.wf(),
            model.wf(),
            is_signed_perm(rot),
            trans.bounded(TRANS_LIMIT as int),
            n == model.voxels@.len(),
            0 <= k <= n,
            rsize == rotated_size(rot, model.size),
            pos == min_corner(trans, rsize, corr_of(rot)),
            off == corner_offset(rot, model.size),
            lo == chunk_of(pos),
            hi == chunk_of(V3 {
                x: (pos.x + rsize.x - 1) as i64,
                y: (pos.y + rsize.y - 1) as i64,
                z: (pos.z + rsize.z - 1) as i64,
            }),
            pos.bounded(0x40_0000_0000_0000),
            off.bounded(0x2_0000_0001),
            forall|c: V3| in_cube(c, lo, hi) ==> m0.contains_key(c),
            scene.as_map() == apply_writes(
                m0,
                model_writes(model.voxels@.take(k as int), palette@, rot, off, pos),
            ),
        decreases n - k,
    {
        let v = model.voxels[k];
        proof {
            assert(model.voxels@.take(k + 1).drop_last() =~= model.voxels@.take(k as int));
            assert(model.voxels@.take(k + 1).last() == v);
            lemma_apply_writes_domain(
                m0,
                model_writes(model.voxels@.take(k as int), palette@, rot, off, pos),
            );
        }
        if (v.i as usize) < palette.len() {
            let color = palette[v.i as usize];
            let cell = Cell::Occupied {
                color,
                hollow: false,
                glowy: false,
                shiny: false,
                special: v.i == 16,
            };
            let vv = V3 { x: v.x as i64, y: v.y as i64, z: v.z as i64 };
            proof {
                assert(vv.bounded(255));
            }
            let mv = rot.mul_vec(vv);
            proof {
                assert(mv.bounded(255));
                assert(off.bounded(COORD_LIMIT as int));
                assert(pos.bounded(COORD_LIMIT as int));
            }
            let wpos = mv.plus(off).plus(pos);
            proof {
                lemma_write_in_aabb(rot, model.size, trans, v);
                assert(wpos == voxel_wpos(rot, off, pos, v));
                lemma_chunk_monotone(pos.x as int, wpos.x as int);
                lemma_chunk_monotone(wpos.x as int, pos.x + rsize.x - 1);
                lemma_chunk_monotone(pos.y as int, wpos.y as int);
                lemma_chunk_monotone(wpos.y as int, pos.y + rsize.y - 1);
                lemma_chunk_monotone(pos.z as int, wpos.z as int);
                lemma_chunk_monotone(wpos.z as int, pos.z + rsize.z - 1);
                assert(in_cube(chunk_of(wpos), lo, hi));
                assert(m0.contains_key(chunk_of(wpos)));
                assert(scene.as_map().contains_key(chunk_of(wpos)));
            }
            let ok = scene.set_cell(wpos, cell);
            proof {
                assert(ok);
                assert(model_writes(model.voxels@.take(k + 1), palette@, rot, off, pos)
                    =~= model_writes(
                    model.voxels@.take(k as int),
                    palette@,
                    rot,
                    off,
                    pos,
                ).push((wpos, cell)));
                assert(model_writes(model.voxels@.take(k + 1), palette@, rot, off, pos)
                    .drop_last() =~= model_writes(
                    model.voxels@.take(k as int),
                    palette@,
                    rot,
                    off,
                    pos,
                ));
            }
        } else {
            proof {
                assert(model_writes(model.voxels@.take(k + 1), palette@, rot, off, pos)
                    == model_writes(model.voxels@.take(k as int), palette@, rot, off, pos));
            }
        }
        k = k + 1;
    }
    proof {
        assert(model.voxels@.take(n as int) =~= model.voxels@);
    }
}

/// Rasterizes one model under the accumulated transform `(rot, trans)`.
pub fn render_model(
    palette: &Vec<Rgb>,
    model: &VoxModel,
    scene: &mut SparseScene,
    aabbs: &mut Vec<Aabb>,
    rot: Mat3,
    trans: V3,
)
    requires
        model.wf(),
        is_signed_perm(rot),
        trans.bounded(TRANS_LIMIT as int),
        old(scene).wf(),
        region_set_minimal(old(aabbs)@),
    ensures
        final(scene).wf(),
        region_set_minimal(final(aabbs)@),
        (final(scene).as_map(), final(aabbs)@) == spec_render(
            old(scene).as_map(),
            old(aabbs)@,
            model.size,
            model.voxels@,
            palette@,
            rot,
            trans,
        ),
{
    let ghost gm0 = scene.as_map();
    // Rotated extent of the model.
    let rsize = rot.abs_mat().mul_vec(model.size);
    proof {
        lemma_sdot_select(sabs_row(rot.rx), model.size);
        lemma_sdot_select(sabs_row(rot.ry), model.size);
        lemma_sdot_select(sabs_row(rot.rz), model.size);
        assert(0 <= rsize.x <= 0x1_0000_0000);
        assert(0 <= rsize.y <= 0x1_0000_0000);
        assert(0 <= rsize.z <= 0x1_0000_0000);
    }
    // Position of the minimum corner, shifted on flipped axes.
    let f = rot.mul_vec(V3::one());
    let cx: i64 = if f.x < 0 { 1 } else { 0 };
    let cy: i64 = if f.y < 0 { 1 } else { 0 };
    let cz: i64 = if f.z < 0 { 1 } else { 0 };
    let pos = V3 {
        x: trans.x - (((rsize.x + cx) as u64) / 2) as i64,
        y: trans.y - (((rsize.y + cy) as u64) / 2) as i64,
        z: trans.z - (((rsize.z + cz) as u64) / 2) as i64,
    };
    proof {
        assert(pos == min_corner(trans, rsize, corr_of(rot)));
        assert(pos.bounded(0x40_0000_0000_0000));
    }
    let corner = V3 { x: pos.x + rsize.x - 1, y: pos.y + rsize.y - 1, z: pos.z + rsize.z - 1 };
    let bounds = Aabb { min: pos, max: corner };
    proof {
        assert(bounds == model_aabb(pos, rsize));
    }
    insert_region(aabbs, bounds);
    // Allocate every chunk the box touches, then write the voxels.
    let lo = SparseScene::chunk_coord(pos);
    let hi = SparseScene::chunk_coord(corner);
    fill_cube(scene, lo, hi);
    let sz = rot.mul_vec(model.size);
    proof {
        assert(model.size.bounded(0x1_0000_0000));
        assert(sz.bounded(0x1_0000_0000));
    }
    let off = V3 {
        x: if sz.x > 0 { 0 } else { -sz.x - 1 },
        y: if sz.y > 0 { 0 } else { -sz.y - 1 },
        z: if sz.z > 0 { 0 } else { -sz.z - 1 },
    };
    proof {
        assert(off == corner_offset(rot, model.size));
        assert(off.bounded(0x2_0000_0001));
        assert(scene.as_map() == fill_chunks(gm0, lo, hi));
        assert(forall|c: V3|
            in_cube(c, chunk_of(pos), chunk_of(corner)) ==> scene.as_map().contains_key(c));
    }
    write_voxels(palette, model, scene, rot, trans, pos, off, rsize);
}

/// With the identity rotation and zero translation, a voxel at local
/// `(x, y, z)` is placed at exactly `(x, y, z)` offset by the centering
/// correction `-(size / 2)` per axis, for any model size.
pub proof fn lemma_identity_placement(size: V3, v: Voxel)
    requires
        0 <= size.x <= 0x1_0000_0000,
        0 <= size.y <= 0x1_0000_0000,
        0 <= size.z <= 0x1_0000_0000,
        in_size(v, size),
    ensures
        ({
            let rsize = rotated_size(sidentity(), size);
            let pos = min_corner(V3 { x: 0i64, y: 0i64, z: 0i64 }, rsize, corr_of(sidentity()));
            let off = corner_offset(sidentity(), size);
            voxel_wpos(sidentity(), off, pos, v) == (V3 {
                x: (v.x - size.x / 2) as i64,
                y: (v.y - size.y / 2) as i64,
                z: (v.z - size.z / 2) as i64,
            })
        }),
{
    lemma_identity_mul(size);
    lemma_identity_mul(vox_pos(v));
    lemma_identity_mul(V3 { x: 1i64, y: 1i64, z: 1i64 });
    lemma_sdot_select(sabs_row(sidentity().rx), size);
    lemma_sdot_select(sabs_row(sidentity().ry), size);
    lemma_sdot_select(sabs_row(sidentity().rz), size);
    assert(sabs_mat(sidentity()) == sidentity());
}

} // verus!
