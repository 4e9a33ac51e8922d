//! The block classifier: maps a populated cell to a typed block value,
//! through an optional exact-color replacement table with weighted random
//! alternatives, falling back to flag-based rules.
//!
//! Randomness is never drawn implicitly: every classification takes an
//! explicit sequence of 64-bit draws and a cursor into it, and consumes one
//! draw per weighted choice it meets, so runs are reproducible given a fixed
//! draw sequence.

use vstd::prelude::*;
use vstd::arithmetic::div_mod::lemma_multiply_divide_lt;
use vstd::arithmetic::mul::{lemma_mul_strict_inequality, lemma_mul_upper_bound};
use crate::grid::{Cell, Rgb};

verus! {

broadcast use vstd::std_specs::vec::axiom_vec_index_decreases;

/// The medium a sprite block is placed in.
#[derive(Clone, Copy, PartialEq, Eq, Structural, Debug)]
pub enum Medium {
    Air,
    Water,
}

/// A sprite identifier of the storage backend; `Empty` is the sprite-less
/// marker.
#[derive(Clone, Copy, PartialEq, Eq, Structural, Debug)]
pub enum SpriteId {
    Empty,
    Other(u32),
}

/// A block kind of the storage backend.  The classifier itself only ever
/// produces `GlowingRock` and `Misc`; replacement tables may carry any kind.
#[derive(Clone, Copy, PartialEq, Eq, Structural, Debug)]
pub enum BlockKind {
    GlowingRock,
    Misc,
    Other(u8),
}

/// The output value handed to the persistence backend for one grid
/// position.
#[derive(Clone, Copy, PartialEq, Eq, Structural, Debug)]
pub enum Block {
    /// The backend's explicit "no block" value.
    Empty,
    /// An unfilled block holding a sprite in a medium.
    Unfilled { sprite: SpriteId, medium: Medium },
    /// A solid block of a kind with an override color.
    Filled { kind: BlockKind, color: Rgb },
}

/// A block-producing rule of the replacement table.
#[derive(Debug)]
pub enum BlockSpec {
    /// A sprite placed in air or in water.
    Sprite { sprite: SpriteId, medium: Medium },
    /// A solid block of the given kind and color.
    Block { kind: BlockKind, color: Rgb },
    /// A weighted random choice among nested rules.
    Random(Vec<(u32, BlockSpec)>),
}

/// Sum of the first `i` weights.
pub open spec fn cum_weight(entries: Seq<(u32, BlockSpec)>, i: int) -> int
    decreases i,
{
    if i <= 0 {
        0
    } else {
        cum_weight(entries, i - 1) + entries[i - 1].0
    }
}

/// Total weight of a weighted choice.
pub open spec fn total_weight(entries: Seq<(u32, BlockSpec)>) -> int {
    cum_weight(entries, entries.len() as int)
}

/// The index the scaled draw selects: the first entry whose cumulative
/// weight exceeds the draw, ties broken by declaration order; the last entry
/// when no cumulative weight does.
pub open spec fn pick_from(entries: Seq<(u32, BlockSpec)>, scaled: int, acc: int, i: int) -> int
    decreases entries.len() - i,
{
    if i >= entries.len() - 1 {
        entries.len() - 1
    } else if acc + entries[i].0 > scaled {
        i
    } else {
        pick_from(entries, scaled, acc + entries[i].0, i + 1)
    }
}

pub open spec fn pick_index(entries: Seq<(u32, BlockSpec)>, scaled: int) -> int {
    pick_from(entries, scaled, 0, 0)
}

/// A draw in `[0, 2^64)` read as the fraction `d / 2^64` of the total
/// weight, rounded down.
pub open spec fn scaled_draw(d: u64, total: int) -> int {
    (d * total) / 0x1_0000_0000_0000_0000
}

/// The draw consumed at cursor `at`: past the end of the sequence the draw
/// is zero, so classification stays total and deterministic.
pub open spec fn draw_at(draws: Seq<u64>, at: int) -> u64 {
    if 0 <= at < draws.len() {
        draws[at]
    } else {
        0
    }
}

/// Well-formed block rule: every weighted choice is non-empty and small
/// enough for exact 64-bit weight sums.
pub open spec fn spec_wf_block_spec(s: BlockSpec) -> bool
    decreases s,
{
    match s {
        BlockSpec::Sprite { .. } => true,
        BlockSpec::Block { .. } => true,
        BlockSpec::Random(entries) => {
            &&& entries@.len() >= 1
            &&& entries@.len() <= 0x8000_0000
            &&& forall|i: int|
                0 <= i < entries@.len() ==> spec_wf_block_spec((#[trigger] entries@[i]).1)
        },
    }
}

/// What a block rule produces: the block, and the cursor after the draws it
/// consumed.  Each weighted choice consumes exactly one draw.
pub open spec fn spec_get_block(s: BlockSpec, draws: Seq<u64>, at: int) -> (Block, int)
    decreases s,
{
    match s {
        BlockSpec::Sprite { sprite, medium } => (Block::Unfilled { sprite, medium }, at),
        BlockSpec::Block { kind, color } => (Block::Filled { kind, color }, at),
        BlockSpec::Random(entries) => {
            if entries@.len() == 0 {
                (Block::Empty, at)
            } else {
                let d = draw_at(draws, at);
                let total = total_weight(entries@);
                let scaled = if total > 0 {
                    scaled_draw(d, total)
                } else {
                    0
                };
                let j = pick_index(entries@, scaled);
                let jr = if 0 <= j < entries@.len() {
                    j
                } else {
                    0
                };
                spec_get_block(entries@[jr].1, draws, at + 1)
            }
        },
    }
}

/// Cumulative weights grow with the index.
proof fn lemma_cum_monotone(entries: Seq<(u32, BlockSpec)>, i: int, j: int)
    requires
        i <= j,
    ensures
        cum_weight(entries, i) <= cum_weight(entries, j),
    decreases j - i,
{
    if i < j {
        lemma_cum_monotone(entries, i, j - 1);
    }
}

/// The selected index is always in range.
proof fn lemma_pick_from_range(entries: Seq<(u32, BlockSpec)>, scaled: int, acc: int, i: int)
    requires
        entries.len() >= 1,
        0 <= i < entries.len(),
    ensures
        i <= pick_from(entries, scaled, acc, i) < entries.len(),
    decreases entries.len() - i,
{
    if !(i >= entries.len() - 1 || acc + entries[i].0 > scaled) {
        lemma_pick_from_range(entries, scaled, acc + entries[i].0, i + 1);
    }
}

impl BlockSpec {
    pub open spec fn wf(self) -> bool {
        spec_wf_block_spec(self)
    }

    /// Produces this rule's block, consuming one draw per weighted choice
    /// met; returns the block and the cursor after the consumed draws.
    pub fn get_block(&self, draws: &Vec<u64>, at: usize) -> (r: (Block, usize))
        requires
            self.wf(),
            at <= usize::MAX - height_bound(*self),
        ensures
            (r.0, r.1 as int) == spec_get_block(*self, draws@, at as int),
            at <= r.1,
        decreases *self,
    {
        match self {
            BlockSpec::Sprite { sprite, medium } => (
                Block::Unfilled { sprite: *sprite, medium: *medium },
                at,
            ),
            BlockSpec::Block { kind, color } => (Block::Filled { kind: *kind, color: *color }, at),
            BlockSpec::Random(entries) => {
                let d: u64 = if at < draws.len() {
                    draws[at]
                } else {
                    0
                };
                let n = entries.len();
                let mut total: u64 = 0;
                for k in 0..n
                    invariant
                        n == entries@.len(),
                        n <= 0x8000_0000,
                        total == cum_weight(entries@, k as int),
                        total <= (k as int) * 0xffff_ffff,
                    {
                    proof {
                        lemma_cum_monotone(entries@, 0, k as int);
                    }
                    total = total + entries[k].0 as u64;
                }
                let scaled: u64 = if total > 0 {
                    proof {
                        lemma_mul_upper_bound(
                            d as int,
                            0xffff_ffff_ffff_ffff,
                            total as int,
                            0x8000_0000_0000_0000,
                        );
                        lemma_mul_strict_inequality(
                            d as int,
                            0x1_0000_0000_0000_0000,
                            total as int,
                        );
                        lemma_multiply_divide_lt(
                            d as int * total as int,
                            0x1_0000_0000_0000_0000,
                            total as int,
                        );
                    }
                    (((d as u128) * (total as u128)) / 0x1_0000_0000_0000_0000u128) as u64
                } else {
                    0
                };
                let mut acc: u64 = 0;
                let mut j: usize = 0;
                let ghost sc: int = scaled as int;
                while j < n - 1 && acc + entries[j].0 as u64 <= scaled
                    invariant
                        n == entries@.len(),
                        1 <= n <= 0x8000_0000,
                        0 <= j < n,
                        acc == cum_weight(entries@, j as int),
                        acc <= (j as int) * 0xffff_ffff,
                        acc <= scaled || j == 0,
                        pick_index(entries@, sc) == pick_from(entries@, sc, acc as int, j as int),
                        sc == scaled,
                    decreases n - j,
                {
                    proof {
                        lemma_cum_monotone(entries@, 0, j as int);
                    }
                    acc = acc + entries[j].0 as u64;
                    j = j + 1;
                }
                proof {
                    lemma_pick_from_range(entries@, sc, 0, 0);
                    assert(j as int == pick_index(entries@, sc));
                }
                let chosen = &entries[j];
                proof {
                    assert(height_bound(chosen.1) < height_bound(*self)) by {
                        lemma_height_bound_entry(*self, j as int, entries@.len() as int);
                    }
                }
                chosen.1.get_block(draws, at + 1)
            },
        }
    }
}

/// The nested rules of a weighted choice; empty for the two leaf rules.
pub open spec fn entries_of(s: BlockSpec) -> Seq<(u32, BlockSpec)> {
    match s {
        BlockSpec::Random(entries) => entries@,
        _ => Seq::empty(),
    }
}

/// An upper bound on how many draws a rule can consume: its nesting depth.
pub open spec fn height_bound(s: BlockSpec) -> nat
    decreases s, 1int, 0int,
{
    match s {
        BlockSpec::Sprite { .. } => 0,
        BlockSpec::Block { .. } => 0,
        BlockSpec::Random(entries) => 1 + max_entry_height(s, entries@.len() as int),
    }
}

/// The largest nesting depth among the first `i` nested rules of a weighted
/// choice.
pub open spec fn max_entry_height(s: BlockSpec, i: int) -> nat
    decreases s, 0int, i,
{
    match s {
        BlockSpec::Random(entries) => {
            if i <= 0 || i > entries@.len() {
                0
            } else {
                let rest = max_entry_height(s, i - 1);
                let h = height_bound(entries@[i - 1].1);
                if h > rest {
                    h
                } else {
                    rest
                }
            }
        },
        _ => 0,
    }
}

/// Each nested rule's depth is below the weighted choice's depth.
proof fn lemma_height_bound_entry(s: BlockSpec, j: int, i: int)
    requires
        0 <= j < i <= entries_of(s).len(),
    ensures
        height_bound(entries_of(s)[j].1) <= max_entry_height(s, i),
    decreases i,
{
    if j < i - 1 {
        lemma_height_bound_entry(s, j, i - 1);
    }
}

/// First matching entry of the replacement table for an exact color.
pub open spec fn spec_table_lookup(table: Seq<(Rgb, BlockSpec)>, color: Rgb) -> Option<int>
    decreases table.len(),
{
    if table.len() == 0 {
        None
    } else if table[0].0 == color {
        Some(0int)
    } else {
        match spec_table_lookup(table.drop_first(), color) {
            Some(i) => Some(i + 1),
            None => None,
        }
    }
}

/// What classifying a cell yields, per the replacement table and the
/// flag-based fallback: an exact color match invokes the table's rule; with
/// no match, hollow cells become an air sprite, glowy cells glowing rock of
/// the cell's color, shiny cells a water-medium sprite, and anything else a
/// solid miscellaneous block of the cell's color; empty cells yield the
/// explicit no-block value.
pub open spec fn spec_classify(
    cell: Cell,
    table: Seq<(Rgb, BlockSpec)>,
    draws: Seq<u64>,
    at: int,
) -> (Block, int) {
    match cell {
        Cell::Empty => (Block::Empty, at),
        Cell::Occupied { color, hollow, glowy, shiny, special } => {
            match spec_table_lookup(table, color) {
                Some(i) => spec_get_block(table[i].1, draws, at),
                None => (
                    if hollow {
                        Block::Unfilled { sprite: SpriteId::Empty, medium: Medium::Air }
                    } else if glowy {
                        Block::Filled { kind: BlockKind::GlowingRock, color }
                    } else if shiny {
                        Block::Unfilled { sprite: SpriteId::Empty, medium: Medium::Water }
                    } else {
                        Block::Filled { kind: BlockKind::Misc, color }
                    },
                    at,
                ),
            }
        },
    }
}

pub open spec fn wf_table(table: Seq<(Rgb, BlockSpec)>) -> bool {
    forall|i: int| 0 <= i < table.len() ==> spec_wf_block_spec((#[trigger] table[i]).1)
}

pub open spec fn max_table_height(table: Seq<(Rgb, BlockSpec)>) -> nat
    decreases table.len(),
{
    if table.len() == 0 {
        0
    } else {
        let rest = max_table_height(table.drop_last());
        let last = height_bound(table.last().1);
        if last > rest {
            last
        } else {
            rest
        }
    }
}

proof fn lemma_table_height_entry(table: Seq<(Rgb, BlockSpec)>, i: int)
    requires
        0 <= i < table.len(),
    ensures
        height_bound(table[i].1) <= max_table_height(table),
    decreases table.len(),
{
    if i == table.len() - 1 {
    } else {
        lemma_table_height_entry(table.drop_last(), i);
    }
}

/// Classifies one cell.  Returns the block and the cursor after the draws
/// the classification consumed.
pub fn classify_cell(cell: Cell, table: &Vec<(Rgb, BlockSpec)>, draws: &Vec<u64>, at: usize) -> (r:
    (Block, usize))
    requires
        wf_table(table@),
        at <= usize::MAX - max_table_height(table@),
    ensures
        (r.0, r.1 as int) == spec_classify(cell, table@, draws@, at as int),
        at <= r.1,
{
    match cell {
        Cell::Empty => (Block::Empty, at),
        Cell::Occupied { color, hollow, glowy, shiny, special } => {
            let n = table.len();
            let mut k: usize = 0;
            proof {
                assert(table@.skip(0) =~= table@);
            }
            while k < n
                invariant
                    n == table@.len(),
                    0 <= k <= n,
                    wf_table(table@),
                    at <= usize::MAX - max_table_height(table@),
                    cell == (Cell::Occupied { color, hollow, glowy, shiny, special }),
                    spec_table_lookup(table@, color) == match spec_table_lookup(
                        table@.skip(k as int),
                        color,
                    ) {
                        Some(i) => Some(i + k as int),
                        None => None::<int>,
                    },
                decreases n - k,
            {
                proof {
                    assert(table@.skip(k as int).drop_first() =~= table@.skip(k + 1));
                    assert(table@.skip(k as int)[0] == table@[k as int]);
                }
                if table[k].0 == color {
                    proof {
                        lemma_table_height_entry(table@, k as int);
                        assert(spec_wf_block_spec(table@[k as int].1));
                        assert(spec_table_lookup(table@.skip(k as int), color) == Some(0int));
                        assert(spec_table_lookup(table@, color) == Some(k as int));
                    }
                    return table[k].1.get_block(draws, at);
                }
                k = k + 1;
            }
            proof {
                assert(table@.skip(n as int) =~= Seq::<(Rgb, BlockSpec)>::empty());
            }
            (
                if hollow {
                    Block::Unfilled { sprite: SpriteId::Empty, medium: Medium::Air }
                } else if glowy {
                    Block::Filled { kind: BlockKind::GlowingRock, color }
                } else if shiny {
                    Block::Unfilled { sprite: SpriteId::Empty, medium: Medium::Water }
                } else {
                    Block::Filled { kind: BlockKind::Misc, color }
                },
                at,
            )
        },
    }
}

/// A block rule's outcome depends only on the draws it reads: two draw
/// sequences that agree from the cursor on yield the same block and consume
/// the same draws.
pub proof fn lemma_get_block_depends_on_draws(s: BlockSpec, d1: Seq<u64>, d2: Seq<u64>, at: int)
    requires
        forall|j: int| at <= j ==> draw_at(d1, j) == draw_at(d2, j),
    ensures
        spec_get_block(s, d1, at) == spec_get_block(s, d2, at),
    decreases s,
{
    match s {
        BlockSpec::Sprite { .. } => {},
        BlockSpec::Block { .. } => {},
        BlockSpec::Random(entries) => {
            if entries@.len() > 0 {
                assert(draw_at(d1, at) == draw_at(d2, at));
                let total = total_weight(entries@);
                let scaled = if total > 0 {
                    scaled_draw(draw_at(d1, at), total)
                } else {
                    0
                };
                let j = pick_index(entries@, scaled);
                let jr = if 0 <= j < entries@.len() {
                    j
                } else {
                    0
                };
                lemma_get_block_depends_on_draws(entries@[jr].1, d1, d2, at + 1);
            }
        },
    }
}

/// Classification is deterministic given a fixed draw sequence: the same
/// cell classified twice against the same table with draw sequences that
/// agree from the cursor on yields the same block.
pub proof fn lemma_classify_deterministic(
    cell: Cell,
    table: Seq<(Rgb, BlockSpec)>,
    d1: Seq<u64>,
    d2: Seq<u64>,
    at: int,
)
    requires
        forall|j: int| at <= j ==> draw_at(d1, j) == draw_at(d2, j),
    ensures
        spec_classify(cell, table, d1, at) == spec_classify(cell, table, d2, at),
{
    match cell {
        Cell::Empty => {},
        Cell::Occupied { color, .. } => {
            match spec_table_lookup(table, color) {
                Some(i) => {
                    lemma_get_block_depends_on_draws(table[i].1, d1, d2, at);
                },
                None => {},
            }
        },
    }
}

} // verus!
