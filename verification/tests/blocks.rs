use vox_place::classify::{
    classify_cell, Block, BlockKind, BlockSpec, Medium, SpriteId,
};
use vox_place::grid::{Cell, Rgb};

fn cell_with(color: Rgb, hollow: bool, glowy: bool, shiny: bool) -> Cell {
    Cell::Occupied { color, hollow, glowy, shiny, special: false }
}

#[test]
fn empty_cell_yields_no_block() {
    let (block, used) = classify_cell(Cell::Empty, &Vec::new(), &Vec::new(), 0);
    assert_eq!(block, Block::Empty);
    assert_eq!(used, 0);
}

#[test]
fn fallback_priority_order() {
    let color = Rgb { r: 7, g: 8, b: 9 };
    let table = Vec::new();
    let draws = Vec::new();
    let (b, _) = classify_cell(cell_with(color, true, true, true), &table, &draws, 0);
    assert_eq!(b, Block::Unfilled { sprite: SpriteId::Empty, medium: Medium::Air });
    let (b, _) = classify_cell(cell_with(color, false, true, true), &table, &draws, 0);
    assert_eq!(b, Block::Filled { kind: BlockKind::GlowingRock, color });
    let (b, _) = classify_cell(cell_with(color, false, false, true), &table, &draws, 0);
    assert_eq!(b, Block::Unfilled { sprite: SpriteId::Empty, medium: Medium::Water });
    let (b, _) = classify_cell(cell_with(color, false, false, false), &table, &draws, 0);
    assert_eq!(b, Block::Filled { kind: BlockKind::Misc, color });
}

#[test]
fn table_match_wins_regardless_of_flags() {
    // The replacement table maps (4,119,191) to a water-medium sprite: the
    // output is the water block whatever the flags say.
    let color = Rgb { r: 4, g: 119, b: 191 };
    let table = vec![(
        color,
        BlockSpec::Sprite { sprite: SpriteId::Empty, medium: Medium::Water },
    )];
    let draws = Vec::new();
    for (hollow, glowy, shiny) in [
        (false, false, false),
        (true, false, false),
        (false, true, false),
        (false, false, true),
    ] {
        let (b, used) = classify_cell(cell_with(color, hollow, glowy, shiny), &table, &draws, 0);
        assert_eq!(b, Block::Unfilled { sprite: SpriteId::Empty, medium: Medium::Water });
        assert_eq!(used, 0);
    }
    // A different color still falls back.
    let other = Rgb { r: 1, g: 2, b: 3 };
    let (b, _) = classify_cell(cell_with(other, false, false, false), &table, &draws, 0);
    assert_eq!(b, Block::Filled { kind: BlockKind::Misc, color: other });
}

#[test]
fn solid_spec_produces_the_given_block() {
    let color = Rgb { r: 4, g: 119, b: 191 };
    let over = Rgb { r: 40, g: 40, b: 40 };
    let table = vec![(color, BlockSpec::Block { kind: BlockKind::Other(11), color: over })];
    let (b, _) = classify_cell(cell_with(color, false, false, false), &table, &Vec::new(), 0);
    assert_eq!(b, Block::Filled { kind: BlockKind::Other(11), color: over });
}

#[test]
fn weighted_choice_scales_the_draw() {
    // Weights 1 and 3: a draw of 0 scales to 0 and selects the first entry
    // (cumulative weight 1 exceeds 0); the largest draw scales to 3 and
    // selects the second (cumulative weight 4 exceeds 3).
    let color = Rgb { r: 1, g: 2, b: 3 };
    let first = Rgb { r: 100, g: 0, b: 0 };
    let second = Rgb { r: 0, g: 100, b: 0 };
    let table = vec![(
        color,
        BlockSpec::Random(vec![
            (1, BlockSpec::Block { kind: BlockKind::Misc, color: first }),
            (3, BlockSpec::Block { kind: BlockKind::Misc, color: second }),
        ]),
    )];
    let (b, used) = classify_cell(cell_with(color, false, false, false), &table, &vec![0u64], 0);
    assert_eq!(b, Block::Filled { kind: BlockKind::Misc, color: first });
    assert_eq!(used, 1);
    let (b, used) = classify_cell(
        cell_with(color, false, false, false),
        &table,
        &vec![u64::MAX],
        0,
    );
    assert_eq!(b, Block::Filled { kind: BlockKind::Misc, color: second });
    assert_eq!(used, 1);
}

#[test]
fn nested_choice_consumes_one_draw_per_level() {
    let color = Rgb { r: 5, g: 5, b: 5 };
    let inner_a = Rgb { r: 1, g: 0, b: 0 };
    let inner_b = Rgb { r: 2, g: 0, b: 0 };
    let table = vec![(
        color,
        BlockSpec::Random(vec![(
            1,
            BlockSpec::Random(vec![
                (1, BlockSpec::Block { kind: BlockKind::Misc, color: inner_a }),
                (1, BlockSpec::Block { kind: BlockKind::Misc, color: inner_b }),
            ]),
        )]),
    )];
    let draws = vec![0u64, u64::MAX];
    let (b, used) = classify_cell(cell_with(color, false, false, false), &table, &draws, 0);
    assert_eq!(used, 2);
    assert_eq!(b, Block::Filled { kind: BlockKind::Misc, color: inner_b });
}

#[test]
fn classification_is_deterministic_for_a_fixed_draw_sequence() {
    // The same color classified twice with the same table and the same
    // draw sequence yields the same block.
    let color = Rgb { r: 4, g: 119, b: 191 };
    let table = vec![(
        color,
        BlockSpec::Random(vec![
            (5, BlockSpec::Block { kind: BlockKind::Misc, color: Rgb { r: 1, g: 1, b: 1 } }),
            (5, BlockSpec::Sprite { sprite: SpriteId::Other(42), medium: Medium::Air }),
        ]),
    )];
    for draw in [0u64, 1 << 60, 1 << 63, u64::MAX] {
        let draws = vec![draw];
        let cell = cell_with(color, false, false, false);
        let one = classify_cell(cell, &table, &draws, 0);
        let two = classify_cell(cell, &table, &draws, 0);
        assert_eq!(one, two);
    }
}

#[test]
fn exhausted_draws_read_as_zero() {
    let color = Rgb { r: 6, g: 6, b: 6 };
    let first = Rgb { r: 11, g: 0, b: 0 };
    let table = vec![(
        color,
        BlockSpec::Random(vec![
            (1, BlockSpec::Block { kind: BlockKind::Misc, color: first }),
            (1, BlockSpec::Block { kind: BlockKind::Misc, color: Rgb { r: 12, g: 0, b: 0 } }),
        ]),
    )];
    let (b, used) = classify_cell(cell_with(color, false, false, false), &table, &Vec::new(), 0);
    assert_eq!(b, Block::Filled { kind: BlockKind::Misc, color: first });
    assert_eq!(used, 1);
}
