//! The transform accumulator: walks a scene graph of transform, group and
//! shape nodes, composing rotation and translation down each branch, and
//! rasterizes every resolvable model reference at shape nodes.
//!
//! State is passed by value down each branch, so sibling branches never
//! observe one another's accumulated transform.  Nodes reference each other
//! by index into the scene table; traversal carries a fuel bound of one step
//! per node, which covers every acyclic graph, and treats a missing node
//! index or exhausted fuel as an empty subtree.

use vstd::prelude::*;
use crate::math::{is_signed_perm, sidentity, smulm, smulv, svadd, Mat3, V3, COORD_LIMIT};
use crate::grid::{Cell, Rgb, SparseScene};
use crate::region::{region_set_minimal, Aabb};
use crate::raster::{render_model, spec_render, VoxModel, TRANS_LIMIT};
use crate::rot::{decode_rotation_or_identity, rot_of_code};

verus! {

/// Bound on a single scene node's translation.
pub const NODE_TRANS_LIMIT: i64 = 0x8000_0000;

/// Cap on the number of scene nodes of one piece, so that accumulated
/// translations stay exact.
pub const MAX_SCENE_NODES: usize = 0x10_0000;

/// One node of a scene graph.  A transform node carries the first animation
/// frame's translation and rotation encoding, either of which may be
/// missing.
pub enum SceneNode {
    Transform { translation: Option<V3>, rotation: Option<u8>, child: u32 },
    Group { children: Vec<u32> },
    Shape { models: Vec<u32> },
}

/// A decoded voxel file: its models, its palette, and its scene graph,
/// whose root is node 0.
pub struct VoxData {
    pub models: Vec<VoxModel>,
    pub palette: Vec<Rgb>,
    pub scenes: Vec<SceneNode>,
}

pub open spec fn trans_of(t: Option<V3>) -> V3 {
    match t {
        Option::None => V3 { x: 0i64, y: 0i64, z: 0i64 },
        Option::Some(v) => v,
    }
}

/// Every node's translation is a small (32-bit) vector.
pub open spec fn wf_scene(nodes: Seq<SceneNode>) -> bool {
    forall|i: int|
        0 <= i < nodes.len() ==> match #[trigger] nodes[i] {
            SceneNode::Transform { translation, .. } => trans_of(translation).bounded(
                NODE_TRANS_LIMIT as int,
            ),
            _ => true,
        }
}

pub open spec fn wf_models(models: Seq<VoxModel>) -> bool {
    forall|i: int| 0 <= i < models.len() ==> (#[trigger] models[i]).wf()
}

impl VoxData {
    pub open spec fn wf(self) -> bool {
        &&& wf_models(self.models@)
        &&& wf_scene(self.scenes@)
        &&& self.scenes@.len() <= MAX_SCENE_NODES
    }
}

/// The placements a traversal emits: for every model reference reached, the
/// referenced model id with the accumulated rotation and translation, in
/// traversal order.
pub open spec fn scene_placements(
    nodes: Seq<SceneNode>,
    idx: int,
    rot: Mat3,
    trans: V3,
    fuel: nat,
) -> Seq<(int, Mat3, V3)>
    decreases fuel, 1int, 0int,
{
    if fuel == 0 || idx < 0 || idx >= nodes.len() {
        Seq::empty()
    } else {
        match nodes[idx] {
            SceneNode::Transform { translation, rotation, child } => scene_placements(
                nodes,
                child as int,
                smulm(rot, rot_of_code(rotation)),
                svadd(trans, smulv(rot, trans_of(translation))),
                (fuel - 1) as nat,
            ),
            SceneNode::Group { children } => group_placements(nodes, children@, rot, trans, fuel),
            SceneNode::Shape { models } => shape_placements(models@, rot, trans),
        }
    }
}

/// The placements of a group's children, each from the same incoming state.
pub open spec fn group_placements(
    nodes: Seq<SceneNode>,
    children: Seq<u32>,
    rot: Mat3,
    trans: V3,
    fuel: nat,
) -> Seq<(int, Mat3, V3)>
    decreases fuel, 0int, children.len(),
{
    if fuel == 0 || children.len() == 0 {
        Seq::empty()
    } else {
        scene_placements(nodes, children[0] as int, rot, trans, (fuel - 1) as nat)
            + group_placements(nodes, children.drop_first(), rot, trans, fuel)
    }
}

/// The placements of a shape node: one per listed model reference.
pub open spec fn shape_placements(models: Seq<u32>, rot: Mat3, trans: V3) -> Seq<(int, Mat3, V3)>
    decreases models.len(),
{
    if models.len() == 0 {
        Seq::empty()
    } else {
        seq![(models[0] as int, rot, trans)] + shape_placements(models.drop_first(), rot, trans)
    }
}

/// Rasterizing a placement sequence in order; a model id outside the model
/// table is silently skipped.
pub open spec fn apply_placements(
    models: Seq<VoxModel>,
    palette: Seq<Rgb>,
    ps: Seq<(int, Mat3, V3)>,
    gm: Map<V3, Seq<Cell>>,
    rs: Seq<Aabb>,
) -> (Map<V3, Seq<Cell>>, Seq<Aabb>)
    decreases ps.len(),
{
    if ps.len() == 0 {
        (gm, rs)
    } else {
        let p = ps[0];
        let next = if 0 <= p.0 < models.len() {
            spec_render(gm, rs, models[p.0].size, models[p.0].voxels@, palette, p.1, p.2)
        } else {
            (gm, rs)
        };
        apply_placements(models, palette, ps.drop_first(), next.0, next.1)
    }
}

/// Placements rasterize sequentially: a concatenation applies the first
/// part, then the second from the state the first one left.
pub proof fn lemma_apply_placements_concat(
    models: Seq<VoxModel>,
    palette: Seq<Rgb>,
    ps1: Seq<(int, Mat3, V3)>,
    ps2: Seq<(int, Mat3, V3)>,
    gm: Map<V3, Seq<Cell>>,
    rs: Seq<Aabb>,
)
    ensures
        apply_placements(models, palette, ps1 + ps2, gm, rs) == apply_placements(
            models,
            palette,
            ps2,
            apply_placements(models, palette, ps1, gm, rs).0,
            apply_placements(models, palette, ps1, gm, rs).1,
        ),
    decreases ps1.len(),
{
    if ps1.len() == 0 {
        assert(ps1 + ps2 =~= ps2);
    } else {
        assert((ps1 + ps2)[0] == ps1[0]);
        assert((ps1 + ps2).drop_first() =~= ps1.drop_first() + ps2);
        let p = ps1[0];
        let next = if 0 <= p.0 < models.len() {
            spec_render(gm, rs, models[p.0].size, models[p.0].voxels@, palette, p.1, p.2)
        } else {
            (gm, rs)
        };
        lemma_apply_placements_concat(models, palette, ps1.drop_first(), ps2, next.0, next.1);
    }
}

/// Sibling independence: under a group node, the placements of the `i`-th
/// child are computed from the group's own incoming state, never from a
/// sibling's, and the children's contributions concatenate in declaration
/// order.
pub proof fn lemma_sibling_independence(
    nodes: Seq<SceneNode>,
    children: Seq<u32>,
    rot: Mat3,
    trans: V3,
    fuel: nat,
    i: int,
)
    requires
        0 <= i < children.len(),
        fuel > 0,
    ensures
        group_placements(nodes, children, rot, trans, fuel) == group_placements(
            nodes,
            children.take(i),
            rot,
            trans,
            fuel,
        ) + scene_placements(nodes, children[i] as int, rot, trans, (fuel - 1) as nat)
            + group_placements(nodes, children.skip(i + 1), rot, trans, fuel),
    decreases i,
{
    let sp0 = scene_placements(nodes, children[0] as int, rot, trans, (fuel - 1) as nat);
    if i == 0 {
        assert(children.take(0) =~= Seq::<u32>::empty());
        assert(children.drop_first() =~= children.skip(1));
        assert(group_placements(nodes, children.take(0), rot, trans, fuel) == Seq::<(
            int,
            Mat3,
            V3,
        )>::empty());
        assert(Seq::<(int, Mat3, V3)>::empty() + sp0 =~= sp0);
    } else {
        let rest = children.drop_first();
        lemma_sibling_independence(nodes, rest, rot, trans, fuel, i - 1);
        let spi = scene_placements(nodes, children[i] as int, rot, trans, (fuel - 1) as nat);
        assert(rest[i - 1] == children[i]);
        assert(rest.take(i - 1) =~= children.take(i).drop_first());
        assert(rest.skip(i) =~= children.skip(i + 1));
        assert(children.take(i)[0] == children[0]);
        assert(group_placements(nodes, children.take(i), rot, trans, fuel) == sp0
            + group_placements(nodes, rest.take(i - 1), rot, trans, fuel));
        assert(sp0 + (group_placements(nodes, rest.take(i - 1), rot, trans, fuel) + (spi
            + group_placements(nodes, children.skip(i + 1), rot, trans, fuel))) =~= (sp0
            + group_placements(nodes, rest.take(i - 1), rot, trans, fuel)) + spi
            + group_placements(nodes, children.skip(i + 1), rot, trans, fuel));
        assert(group_placements(nodes, rest, rot, trans, fuel) =~= group_placements(
            nodes,
            rest.take(i - 1),
            rot,
            trans,
            fuel,
        ) + (spi + group_placements(nodes, children.skip(i + 1), rot, trans, fuel)));
    }
}

/// Walks the scene graph from `idx` with the accumulated state
/// `(rot, trans)`, rasterizing every placement the traversal emits.
pub fn insert_scene(
    models: &Vec<VoxModel>,
    palette: &Vec<Rgb>,
    nodes: &Vec<SceneNode>,
    idx: usize,
    rot: Mat3,
    trans: V3,
    scene: &mut SparseScene,
    aabbs: &mut Vec<Aabb>,
    fuel: usize,
)
    requires
        wf_models(models@),
        wf_scene(nodes@),
        is_signed_perm(rot),
        fuel <= MAX_SCENE_NODES,
        trans.bounded(TRANS_LIMIT - fuel * NODE_TRANS_LIMIT),
        old(scene).wf(),
        region_set_minimal(old(aabbs)@),
    ensures
        final(scene).wf(),
        region_set_minimal(final(aabbs)@),
        (final(scene).as_map(), final(aabbs)@) == apply_placements(
            models@,
            palette@,
            scene_placements(nodes@, idx as int, rot, trans, fuel as nat),
            old(scene).as_map(),
            old(aabbs)@,
        ),
    decreases fuel,
{
    if fuel == 0 || idx >= nodes.len() {
        return ;
    }
    let ghost gm0 = scene.as_map();
    let ghost rs0 = aabbs@;
    match &nodes[idx] {
        SceneNode::Transform { translation, rotation, child } => {
            let t = match translation {
                Some(t) => *t,
                None => V3::zero(),
            };
            proof {
                assert(t == trans_of(nodes@[idx as int]->Transform_translation));
                assert(t.bounded(NODE_TRANS_LIMIT as int));
            }
            let r = decode_rotation_or_identity(*rotation);
            let mv = rot.mul_vec(t);
            proof {
                assert(mv.bounded(NODE_TRANS_LIMIT as int));
                assert(trans.bounded(COORD_LIMIT as int));
                assert(mv.bounded(COORD_LIMIT as int));
            }
            let trans2 = trans.plus(mv);
            let rot2 = rot.mul_mat(r);
            insert_scene(
                models,
                palette,
                nodes,
                (*child) as usize,
                rot2,
                trans2,
                scene,
                aabbs,
                fuel - 1,
            );
        },
        SceneNode::Group { children } => {
            let n = children.len();
            let ghost total = apply_placements(
                models@,
                palette@,
                group_placements(nodes@, children@, rot, trans, fuel as nat),
                gm0,
                rs0,
            );
            let mut i: usize = 0;
            proof {
                assert(children@.skip(0) =~= children@);
            }
            while i < n
                invariant
                    wf_models(models@),
                    wf_scene(nodes@),
                    is_signed_perm(rot),
                    1 <= fuel <= MAX_SCENE_NODES,
                    trans.bounded(TRANS_LIMIT - fuel * NODE_TRANS_LIMIT),
                    scene.wf(),
                    region_set_minimal(aabbs@),
                    n == children@.len(),
                    0 <= i <= n,
                    apply_placements(
                        models@,
                        palette@,
                        group_placements(nodes@, children@.skip(i as int), rot, trans, fuel as nat),
                        scene.as_map(),
                        aabbs@,
                    ) == total,
                decreases n - i,
            {
                let ghost before = (scene.as_map(), aabbs@);
                let ghost rem = children@.skip(i as int);
                insert_scene(
                    models,
                    palette,
                    nodes,
                    children[i] as usize,
                    rot,
                    trans,
                    scene,
                    aabbs,
                    fuel - 1,
                );
                proof {
                    assert(rem[0] == children@[i as int]);
                    assert(rem.drop_first() =~= children@.skip(i + 1));
                    lemma_apply_placements_concat(
                        models@,
                        palette@,
                        scene_placements(
                            nodes@,
                            children@[i as int] as int,
                            rot,
                            trans,
                            (fuel - 1) as nat,
                        ),
                        group_placements(nodes@, children@.skip(i + 1), rot, trans, fuel as nat),
                        before.0,
                        before.1,
                    );
                }
                i = i + 1;
            }
            proof {
                assert(children@.skip(n as int) =~= Seq::<u32>::empty());
            }
        },
        SceneNode::Shape { models: mrefs } => {
            let n = mrefs.len();
            let ghost total = apply_placements(
                models@,
                palette@,
                shape_placements(mrefs@, rot, trans),
                gm0,
                rs0,
            );
            let mut i: usize = 0;
            proof {
                assert(mrefs@.skip(0) =~= mrefs@);
            }
            while i < n
                invariant
                    wf_models(models@),
                    is_signed_perm(rot),
                    fuel >= 1,
                    trans.bounded(TRANS_LIMIT - fuel * NODE_TRANS_LIMIT),
                    scene.wf(),
                    region_set_minimal(aabbs@),
                    n == mrefs@.len(),
                    0 <= i <= n,
                    apply_placements(
                        models@,
                        palette@,
                        shape_placements(mrefs@.skip(i as int), rot, trans),
                        scene.as_map(),
                        aabbs@,
                    ) == total,
                decreases n - i,
            {
                let ghost before = (scene.as_map(), aabbs@);
                let ghost rem = mrefs@.skip(i as int);
                proof {
                    assert(rem[0] == mrefs@[i as int]);
                    assert(rem.drop_first() =~= mrefs@.skip(i + 1));
                    assert(shape_placements(rem, rot, trans)[0] == (
                        mrefs@[i as int] as int,
                        rot,
                        trans,
                    ));
                    assert(shape_placements(rem, rot, trans).drop_first() =~= shape_placements(
                        mrefs@.skip(i + 1),
                        rot,
                        trans,
                    ));
                }
                let id = mrefs[i] as usize;
                if id < models.len() {
                    proof {
                        assert(models@[id as int].wf());
                        assert(trans.bounded(TRANS_LIMIT as int));
                    }
                    render_model(palette, &models[id], scene, aabbs, rot, trans);
                }
                i = i + 1;
            }
            proof {
                assert(mrefs@.skip(n as int) =~= Seq::<u32>::empty());
            }
        },
    }
}

/// What assembling a whole piece does: traverse its scene graph from the
/// root (node 0) with the identity rotation and the piece's offset, with
/// fuel for one step per node.
pub open spec fn apply_piece(
    data: VoxData,
    offset: V3,
    gm: Map<V3, Seq<Cell>>,
    rs: Seq<Aabb>,
) -> (Map<V3, Seq<Cell>>, Seq<Aabb>) {
    apply_placements(
        data.models@,
        data.palette@,
        scene_placements(data.scenes@, 0, sidentity(), offset, data.scenes@.len() as nat),
        gm,
        rs,
    )
}

/// Assembling a list of pieces in order, starting from an empty grid.
pub open spec fn apply_pieces(
    pieces: Seq<(VoxData, V3)>,
    gm: Map<V3, Seq<Cell>>,
    rs: Seq<Aabb>,
) -> (Map<V3, Seq<Cell>>, Seq<Aabb>)
    decreases pieces.len(),
{
    if pieces.len() == 0 {
        (gm, rs)
    } else {
        let next = apply_piece(pieces[0].0, pieces[0].1, gm, rs);
        apply_pieces(pieces.drop_first(), next.0, next.1)
    }
}

/// Every piece is well formed and its offset small enough that every
/// accumulated translation stays exact.
pub open spec fn wf_pieces(pieces: Seq<(VoxData, V3)>) -> bool {
    forall|i: int|
        0 <= i < pieces.len() ==> (#[trigger] pieces[i]).0.wf() && pieces[i].1.bounded(
            0x8_0000_0000_0000,
        )
}

impl SparseScene {
    /// Assembles the placement list into a sparse chunked grid and its
    /// covering bounding boxes: for each piece, the scene graph is walked
    /// from its root and every reached model is rasterized at the
    /// accumulated transform.
    pub fn new_from(pieces: &Vec<(VoxData, V3)>) -> (r: (SparseScene, Vec<Aabb>))
        requires
            wf_pieces(pieces@),
        ensures
            r.0.wf(),
            region_set_minimal(r.1@),
            (r.0.as_map(), r.1@) == apply_pieces(
                pieces@,
                Map::<V3, Seq<Cell>>::empty(),
                Seq::<Aabb>::empty(),
            ),
    {
        let mut scene = SparseScene::new();
        let mut aabbs: Vec<Aabb> = Vec::new();
        let ghost total = apply_pieces(pieces@, Map::<V3, Seq<Cell>>::empty(), Seq::<Aabb>::empty());
        let n = pieces.len();
        let mut i: usize = 0;
        proof {
            assert(pieces@.skip(0) =~= pieces@);
        }
        while i < n
            invariant
                wf_pieces(pieces@),
                scene.wf(),
                region_set_minimal(aabbs@),
                n == pieces@.len(),
                0 <= i <= n,
                apply_pieces(pieces@.skip(i as int), scene.as_map(), aabbs@) == total,
            decreases n - i,
        {
            let ghost before = (scene.as_map(), aabbs@);
            let ghost rem = pieces@.skip(i as int);
            proof {
                assert(rem[0] == pieces@[i as int]);
                assert(rem.drop_first() =~= pieces@.skip(i + 1));
                assert(pieces@[i as int].0.wf());
                assert(pieces@[i as int].1.bounded(0x8_0000_0000_0000));
            }
            let piece = &pieces[i];
            let fuel = piece.0.scenes.len();
            proof {
                assert(fuel * NODE_TRANS_LIMIT <= MAX_SCENE_NODES * NODE_TRANS_LIMIT);
                assert(piece.1.bounded(TRANS_LIMIT - fuel * NODE_TRANS_LIMIT));
            }
            insert_scene(
                &piece.0.models,
                &piece.0.palette,
                &piece.0.scenes,
                0,
                Mat3::identity(),
                piece.1,
                &mut scene,
                &mut aabbs,
                fuel,
            );
            i = i + 1;
        }
        proof {
            assert(pieces@.skip(n as int) =~= Seq::<(VoxData, V3)>::empty());
        }
        (scene, aabbs)
    }
}

} // verus!
