use vox_place::classify::{classify_cell, Block, BlockKind};
use vox_place::grid::{Cell, Rgb, SparseScene, SscSize};
use vox_place::math::{Mat3, V3};
use vox_place::raster::{VoxModel, Voxel};
use vox_place::region::{regions_contain, Aabb, insert_region};
use vox_place::rot::{decode_rotation, decode_rotation_or_identity};
use vox_place::scene::{SceneNode, VoxData};

fn v(x: i64, y: i64, z: i64) -> V3 {
    V3 { x, y, z }
}

fn occupied(color: Rgb) -> Cell {
    Cell::Occupied { color, hollow: false, glowy: false, shiny: false, special: false }
}

fn count_occupied(scene: &SparseScene) -> usize {
    let mut occupied = 0;
    for ci in 0..scene.chunk_count() {
        let chunk = scene.chunk_at(ci);
        for cell in chunk.cells.iter() {
            if !matches!(cell, Cell::Empty) {
                occupied += 1;
            }
        }
    }
    occupied
}

#[test]
fn decode_identity_byte() {
    // Axis selectors 0 and 1, no sign bits: the identity rotation.
    assert_eq!(decode_rotation(0b0000_0100), Some(Mat3::identity()));
}

#[test]
fn decode_flip_and_swap() {
    // Sign bit 4 negates the first row.
    let m = decode_rotation(0b0001_0100).unwrap();
    assert_eq!(m, Mat3 { rx: v(-1, 0, 0), ry: v(0, 1, 0), rz: v(0, 0, 1) });
    // Selectors 1 then 0 swap the first two axes.
    let s = decode_rotation(0b0000_0001).unwrap();
    assert_eq!(s, Mat3 { rx: v(0, 1, 0), ry: v(1, 0, 0), rz: v(0, 0, 1) });
}

#[test]
fn same_axis_encoding_falls_back_to_identity() {
    // Both selectors name axis 0: rejected, never a singular matrix.
    assert_eq!(decode_rotation(0), None);
    assert_eq!(decode_rotation_or_identity(Some(0)), Mat3::identity());
    assert_eq!(decode_rotation_or_identity(None), Mat3::identity());
}

#[test]
fn every_valid_encoding_is_orthogonal() {
    for b in 0u8..=0x7f {
        if let Some(m) = decode_rotation(b) {
            for row in [m.rx, m.ry, m.rz] {
                let nonzero = [row.x, row.y, row.z]
                    .iter()
                    .filter(|e| **e != 0)
                    .count();
                assert_eq!(nonzero, 1);
                assert_eq!(row.x.abs() + row.y.abs() + row.z.abs(), 1);
            }
            for col in [
                v(m.rx.x, m.ry.x, m.rz.x),
                v(m.rx.y, m.ry.y, m.rz.y),
                v(m.rx.z, m.ry.z, m.rz.z),
            ] {
                assert_eq!(col.x.abs() + col.y.abs() + col.z.abs(), 1);
            }
            let det = m.rx.x * (m.ry.y * m.rz.z - m.ry.z * m.rz.y)
                - m.rx.y * (m.ry.x * m.rz.z - m.ry.z * m.rz.x)
                + m.rx.z * (m.ry.x * m.rz.y - m.ry.y * m.rz.x);
            assert_eq!(det.abs(), 1);
        }
    }
}

#[test]
fn chunk_coordinates_floor_divide() {
    assert_eq!(SscSize::side(), 32);
    assert_eq!(SparseScene::chunk_coord(v(31, 0, -1)), v(0, 0, -1));
    assert_eq!(SparseScene::chunk_coord(v(32, -32, -33)), v(1, -1, -2));
    assert_eq!(SparseScene::chunk_origin(v(-1, 2, 0)), v(-32, 64, 0));
}

#[test]
fn grid_distinguishes_missing_chunk_from_empty_cell() {
    let mut scene = SparseScene::new();
    assert_eq!(scene.get_cell(v(0, 0, 0)), None);
    scene.ensure_chunk(v(0, 0, 0));
    assert_eq!(scene.get_cell(v(0, 0, 0)), Some(Cell::Empty));
    assert_eq!(scene.get_cell(v(31, 31, 31)), Some(Cell::Empty));
    assert_eq!(scene.get_cell(v(32, 0, 0)), None);
    // Idempotent insertion.
    scene.ensure_chunk(v(0, 0, 0));
    assert_eq!(scene.chunk_count(), 1);
}

#[test]
fn writing_into_missing_chunk_is_refused() {
    let mut scene = SparseScene::new();
    let cell = occupied(Rgb { r: 1, g: 2, b: 3 });
    assert!(!scene.set_cell(v(5, 5, 5), cell));
    assert_eq!(scene.chunk_count(), 0);
    scene.ensure_chunk(v(0, 0, 0));
    assert!(scene.set_cell(v(5, 5, 5), cell));
    assert_eq!(scene.get_cell(v(5, 5, 5)), Some(cell));
    assert_eq!(scene.get_cell(v(5, 5, 6)), Some(Cell::Empty));
}

#[test]
fn region_merge_collapses_nested_boxes() {
    // Two models whose boxes are (0,0,0)-(9,9,9) and (2,2,2)-(5,5,5): after
    // merging only the outer box remains, in either insertion order.
    let big = Aabb { min: v(0, 0, 0), max: v(9, 9, 9) };
    let small = Aabb { min: v(2, 2, 2), max: v(5, 5, 5) };
    let mut regions = Vec::new();
    insert_region(&mut regions, big);
    insert_region(&mut regions, small);
    assert_eq!(regions, vec![big]);
    let mut regions2 = Vec::new();
    insert_region(&mut regions2, small);
    insert_region(&mut regions2, big);
    assert_eq!(regions2, vec![big]);
}

#[test]
fn region_merge_keeps_partial_overlaps_and_no_nesting() {
    let a = Aabb { min: v(0, 0, 0), max: v(5, 5, 5) };
    let b = Aabb { min: v(3, 3, 3), max: v(9, 9, 9) };
    let c = Aabb { min: v(1, 1, 1), max: v(2, 2, 2) };
    let mut regions = Vec::new();
    insert_region(&mut regions, a);
    insert_region(&mut regions, b);
    assert_eq!(regions.len(), 2);
    insert_region(&mut regions, c);
    assert_eq!(regions.len(), 2);
    // The merge invariant: no box strictly inside another.
    for i in 0..regions.len() {
        for j in 0..regions.len() {
            if i != j {
                assert!(!(regions[i].contains_aabb(&regions[j]) && regions[i] != regions[j]));
            }
        }
    }
    assert!(regions_contain(&regions, v(4, 4, 4)));
    assert!(!regions_contain(&regions, v(10, 0, 0)));
}

#[test]
fn single_voxel_identity_placement() {
    // A model of size (2,2,2) with one voxel at local (0,0,0), palette index
    // 0 mapped to (4,119,191), placed at offset (0,0,0) with the identity
    // rotation: exactly one occupied cell, at the centered position
    // (0,0,0) - (2,2,2)/2 = (-1,-1,-1).
    let color = Rgb { r: 4, g: 119, b: 191 };
    let data = VoxData {
        models: vec![VoxModel { size: v(2, 2, 2), voxels: vec![Voxel { x: 0, y: 0, z: 0, i: 0 }] }],
        palette: vec![color],
        scenes: vec![SceneNode::Shape { models: vec![0] }],
    };
    let (scene, aabbs) = SparseScene::new_from(&vec![(data, v(0, 0, 0))]);
    assert_eq!(scene.get_cell(v(-1, -1, -1)), Some(occupied(color)));
    assert_eq!(count_occupied(&scene), 1);
    assert_eq!(aabbs, vec![Aabb { min: v(-1, -1, -1), max: v(0, 0, 0) }]);
    // No table match and no flags: the miscellaneous solid block of the
    // cell's color.
    let cell = scene.get_cell(v(-1, -1, -1)).unwrap();
    let (block, used) = classify_cell(cell, &Vec::new(), &Vec::new(), 0);
    assert_eq!(block, Block::Filled { kind: BlockKind::Misc, color });
    assert_eq!(used, 0);
}

#[test]
fn transform_node_offsets_placement() {
    let color = Rgb { r: 10, g: 20, b: 30 };
    let data = VoxData {
        models: vec![VoxModel { size: v(2, 2, 2), voxels: vec![Voxel { x: 0, y: 0, z: 0, i: 0 }] }],
        palette: vec![color],
        scenes: vec![
            SceneNode::Transform { translation: Some(v(5, 0, 0)), rotation: None, child: 1 },
            SceneNode::Shape { models: vec![0] },
        ],
    };
    let (scene, _aabbs) = SparseScene::new_from(&vec![(data, v(0, 0, 0))]);
    assert_eq!(scene.get_cell(v(4, -1, -1)), Some(occupied(color)));
    assert_eq!(count_occupied(&scene), 1);
}

#[test]
fn group_siblings_share_the_incoming_state() {
    // Two transform branches under one group: each child sees only the
    // group's own state, so the two voxels land at independent offsets.
    let color = Rgb { r: 1, g: 1, b: 1 };
    let data = VoxData {
        models: vec![VoxModel { size: v(1, 1, 1), voxels: vec![Voxel { x: 0, y: 0, z: 0, i: 0 }] }],
        palette: vec![color],
        scenes: vec![
            SceneNode::Group { children: vec![1, 3] },
            SceneNode::Transform { translation: Some(v(8, 0, 0)), rotation: None, child: 2 },
            SceneNode::Shape { models: vec![0] },
            SceneNode::Transform { translation: Some(v(0, 8, 0)), rotation: None, child: 4 },
            SceneNode::Shape { models: vec![0] },
        ],
    };
    let (scene, _aabbs) = SparseScene::new_from(&vec![(data, v(0, 0, 0))]);
    assert_eq!(scene.get_cell(v(8, 0, 0)), Some(occupied(color)));
    assert_eq!(scene.get_cell(v(0, 8, 0)), Some(occupied(color)));
    assert_eq!(count_occupied(&scene), 2);
}

#[test]
fn unresolvable_references_are_skipped() {
    // A shape naming a missing model, a transform child out of range, and a
    // voxel whose palette index exceeds the palette: all silently skipped.
    let data = VoxData {
        models: vec![VoxModel { size: v(1, 1, 1), voxels: vec![Voxel { x: 0, y: 0, z: 0, i: 9 }] }],
        palette: vec![Rgb { r: 0, g: 0, b: 0 }],
        scenes: vec![
            SceneNode::Group { children: vec![1, 2, 3] },
            SceneNode::Shape { models: vec![7] },
            SceneNode::Transform { translation: None, rotation: None, child: 99 },
            SceneNode::Shape { models: vec![0] },
        ],
    };
    let (scene, _aabbs) = SparseScene::new_from(&vec![(data, v(0, 0, 0))]);
    // The model was placed (its chunk exists) but its only voxel was skipped.
    assert_eq!(count_occupied(&scene), 0);
    assert!(scene.chunk_count() > 0);
}

#[test]
fn cyclic_scene_graph_terminates_empty() {
    let data = VoxData {
        models: vec![],
        palette: vec![],
        scenes: vec![SceneNode::Transform { translation: None, rotation: None, child: 0 }],
    };
    let (scene, aabbs) = SparseScene::new_from(&vec![(data, v(0, 0, 0))]);
    assert_eq!(scene.chunk_count(), 0);
    assert!(aabbs.is_empty());
}

#[test]
fn sentinel_palette_index_marks_special() {
    let mut palette = Vec::new();
    for i in 0..17 {
        palette.push(Rgb { r: i as u8, g: 0, b: 0 });
    }
    let data = VoxData {
        models: vec![VoxModel {
            size: v(1, 1, 1),
            voxels: vec![Voxel { x: 0, y: 0, z: 0, i: 16 }],
        }],
        palette,
        scenes: vec![SceneNode::Shape { models: vec![0] }],
    };
    let (scene, _aabbs) = SparseScene::new_from(&vec![(data, v(0, 0, 0))]);
    let cell = scene.get_cell(v(0, 0, 0)).unwrap();
    assert_eq!(
        cell,
        Cell::Occupied {
            color: Rgb { r: 16, g: 0, b: 0 },
            hollow: false,
            glowy: false,
            shiny: false,
            special: true,
        }
    );
}

#[test]
fn rotated_placement_swaps_axes() {
    // Rotation byte with selectors 1 then 0 swaps x and y; a voxel at local
    // (1,0,0) of a (2,1,1) model lands on the y axis instead.
    let color = Rgb { r: 9, g: 9, b: 9 };
    let data = VoxData {
        models: vec![VoxModel {
            size: v(2, 1, 1),
            voxels: vec![Voxel { x: 1, y: 0, z: 0, i: 0 }],
        }],
        palette: vec![color],
        scenes: vec![
            SceneNode::Transform { translation: None, rotation: Some(0b0000_0001), child: 1 },
            SceneNode::Shape { models: vec![0] },
        ],
    };
    let (scene, _aabbs) = SparseScene::new_from(&vec![(data, v(0, 0, 0))]);
    // Rotated size is (1,2,1): min corner (0,-1,0); the voxel's rotated
    // coordinates are (0,1,0), so it lands at (0,0,0).
    assert_eq!(scene.get_cell(v(0, 0, 0)), Some(occupied(color)));
    assert_eq!(count_occupied(&scene), 1);
}
