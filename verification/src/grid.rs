//! The sparse chunked grid: a mapping from chunk coordinates to fixed-size
//! 32x32x32 cubes of cells, allocated on demand.
//!
//! A cell is addressable only once its owning chunk has been inserted;
//! reading a missing chunk is reported as "no chunk", which is distinct from
//! "chunk present, cell empty".  The grid's model is a map from chunk
//! coordinate to the sequence of the chunk's cells.

use vstd::prelude::*;
use vstd::arithmetic::div_mod::{
    lemma_fundamental_div_mod, lemma_fundamental_div_mod_converse, lemma_mod_bound,
};
use crate::math::{COORD_LIMIT, V3};

verus! {

/// Edge length of a chunk, in cells.
pub const CHUNK_SIDE: i64 = 32;

/// Number of cells of one chunk.
pub const CHUNK_VOLUME: usize = 32768;

/// The chunk edge length as a design parameter, kept as a named carrier.
pub struct SscSize;

impl SscSize {
    pub fn side() -> (r: i64)
        ensures
            r == CHUNK_SIDE,
    {
        32
    }
}

/// An RGB color from a model palette.
#[derive(Clone, Copy, PartialEq, Eq, Structural, Debug)]
pub struct Rgb {
    pub r: u8,
    pub g: u8,
    pub b: u8,
}

/// The state of one grid point.  The `special` mark records that the source
/// palette index was the reserved sentinel 16 ("empty/invisible matter").
#[derive(Clone, Copy, PartialEq, Eq, Structural, Debug)]
pub enum Cell {
    Empty,
    Occupied { color: Rgb, hollow: bool, glowy: bool, shiny: bool, special: bool },
}

/// A 32x32x32 cube of cells, plus nothing else: the auxiliary metadata slot
/// of the storage backend stays outside this core.
#[derive(Debug)]
pub struct Chunk {
    pub cells: Vec<Cell>,
}

impl Chunk {
    pub open spec fn wf(self) -> bool {
        self.cells@.len() == CHUNK_VOLUME
    }
}

/// The all-empty chunk contents.
pub open spec fn empty_cells() -> Seq<Cell> {
    Seq::new(CHUNK_VOLUME as nat, |i: int| Cell::Empty)
}

/// The chunk coordinate owning a world position: floor division by the
/// chunk edge, per axis.
pub open spec fn chunk_of(p: V3) -> V3 {
    V3 {
        x: (p.x as int / 32) as i64,
        y: (p.y as int / 32) as i64,
        z: (p.z as int / 32) as i64,
    }
}

/// The world position of a chunk's minimum corner; inverse of `chunk_of`.
pub open spec fn origin_of(c: V3) -> V3 {
    V3 { x: (c.x * 32) as i64, y: (c.y * 32) as i64, z: (c.z * 32) as i64 }
}

/// The index of a world position's cell inside its owning chunk.
pub open spec fn cell_index(p: V3) -> int {
    (p.x as int % 32) * 1024 + (p.y as int % 32) * 32 + (p.z as int % 32)
}

/// What a point read of the grid model yields: `None` when the owning chunk
/// is absent, otherwise the stored cell.
pub open spec fn spec_cell_at(m: Map<V3, Seq<Cell>>, p: V3) -> Option<Cell> {
    if m.contains_key(chunk_of(p)) {
        Some(m[chunk_of(p)][cell_index(p)])
    } else {
        None
    }
}

/// The cell index is always within the chunk volume.
pub proof fn lemma_cell_index_range(p: V3)
    ensures
        0 <= cell_index(p) < 32768,
{
    lemma_mod_bound(p.x as int, 32);
    lemma_mod_bound(p.y as int, 32);
    lemma_mod_bound(p.z as int, 32);
}

/// Floor division by the chunk edge, exact on the whole coordinate range.
fn div32_floor(a: i64) -> (q: i64)
    requires
        -COORD_LIMIT <= a <= COORD_LIMIT,
    ensures
        q == a as int / 32,
        0 <= a - 32 * q < 32,
        a as int % 32 == a - 32 * q,
{
    proof {
        lemma_fundamental_div_mod(a as int, 32);
        lemma_mod_bound(a as int, 32);
    }
    if a >= 0 {
        ((a as u64) / 32) as i64
    } else {
        let na: u64 = (-a) as u64;
        let m: u64 = (na + 31) / 32;
        let q: i64 = -(m as i64);
        proof {
            lemma_fundamental_div_mod((na + 31) as int, 32);
            lemma_mod_bound((na + 31) as int, 32);
            let s = (na + 31) as int % 32;
            lemma_fundamental_div_mod_converse(a as int, 32, q as int, 31 - s);
        }
        q
    }
}

/// The map a list of chunk entries denotes: later entries would win, though
/// the grid keeps its keys unique.
pub open spec fn gmap(keys: Seq<V3>, slabs: Seq<Chunk>) -> Map<V3, Seq<Cell>>
    decreases keys.len(),
{
    if keys.len() == 0 || slabs.len() == 0 {
        Map::empty()
    } else {
        gmap(keys.drop_last(), slabs.drop_last()).insert(keys.last(), slabs.last().cells@)
    }
}

pub open spec fn keys_unique(keys: Seq<V3>) -> bool {
    forall|i: int, j: int| 0 <= i < j < keys.len() ==> keys[i] != keys[j]
}

/// A key is in the denoted map exactly when some entry holds it.
proof fn lemma_gmap_contains(keys: Seq<V3>, slabs: Seq<Chunk>)
    requires
        keys.len() == slabs.len(),
    ensures
        forall|k: V3|
            #[trigger] gmap(keys, slabs).contains_key(k) <==> exists|i: int|
                0 <= i < keys.len() && keys[i] == k,
    decreases keys.len(),
{
    if keys.len() > 0 {
        lemma_gmap_contains(keys.drop_last(), slabs.drop_last());
        assert forall|k: V3| #[trigger]
            gmap(keys, slabs).contains_key(k) implies exists|i: int|
            0 <= i < keys.len() && keys[i] == k by {
            if k == keys.last() {
                assert(keys[keys.len() - 1] == k);
            } else {
                assert(gmap(keys.drop_last(), slabs.drop_last()).contains_key(k));
                let i = choose|i: int| 0 <= i < keys.len() - 1 && keys.drop_last()[i] == k;
                assert(keys[i] == k);
            }
        }
        assert forall|k: V3| (exists|i: int| 0 <= i < keys.len() && keys[i] == k) implies #[trigger]
            gmap(keys, slabs).contains_key(k) by {
            let i = choose|i: int| 0 <= i < keys.len() && keys[i] == k;
            if i < keys.len() - 1 {
                assert(keys.drop_last()[i] == k);
                assert(gmap(keys.drop_last(), slabs.drop_last()).contains_key(k));
            }
        }
    }
}

/// With unique keys, each entry is what the denoted map holds at its key.
proof fn lemma_gmap_at(keys: Seq<V3>, slabs: Seq<Chunk>, i: int)
    requires
        keys.len() == slabs.len(),
        keys_unique(keys),
        0 <= i < keys.len(),
    ensures
        gmap(keys, slabs).contains_key(keys[i]),
        gmap(keys, slabs)[keys[i]] == slabs[i].cells@,
    decreases keys.len(),
{
    if i == keys.len() - 1 {
    } else {
        lemma_gmap_at(keys.drop_last(), slabs.drop_last(), i);
        assert(keys[i] != keys.last());
    }
}

/// With unique keys, replacing one entry's chunk updates the denoted map at
/// that entry's key and nothing else.
proof fn lemma_gmap_update(keys: Seq<V3>, slabs: Seq<Chunk>, i: int, c: Chunk)
    requires
        keys.len() == slabs.len(),
        keys_unique(keys),
        0 <= i < keys.len(),
    ensures
        gmap(keys, slabs.update(i, c)) == gmap(keys, slabs).insert(keys[i], c.cells@),
    decreases keys.len(),
{
    let n = keys.len() - 1;
    if i == n {
        assert(slabs.update(i, c).drop_last() =~= slabs.drop_last());
        assert(gmap(keys, slabs.update(i, c)) == gmap(keys.drop_last(), slabs.drop_last()).insert(
            keys.last(),
            c.cells@,
        ));
        assert(gmap(keys, slabs).insert(keys[i], c.cells@) =~= gmap(
            keys.drop_last(),
            slabs.drop_last(),
        ).insert(keys.last(), c.cells@));
    } else {
        lemma_gmap_update(keys.drop_last(), slabs.drop_last(), i, c);
        assert(slabs.update(i, c).drop_last() =~= slabs.drop_last().update(i, c));
        assert(slabs.update(i, c).last() == slabs.last());
        assert(keys[i] != keys.last());
        assert(gmap(keys, slabs.update(i, c)) == gmap(keys.drop_last(), slabs.drop_last()).insert(
            keys[i],
            c.cells@,
        ).insert(keys.last(), slabs.last().cells@));
        assert(gmap(keys.drop_last(), slabs.drop_last()).insert(keys[i], c.cells@).insert(
            keys.last(),
            slabs.last().cells@,
        ) =~= gmap(keys, slabs).insert(keys[i], c.cells@));
    }
}

/// The sparse chunked grid of an assembled scene.
pub struct SparseScene {
    pub keys: Vec<V3>,
    pub slabs: Vec<Chunk>,
}

impl SparseScene {
    /// Internal consistency: one chunk per key, keys unique, chunks full
    /// size.
    pub open spec fn wf(self) -> bool {
        &&& self.keys@.len() == self.slabs@.len()
        &&& keys_unique(self.keys@)
        &&& forall|i: int| 0 <= i < self.slabs@.len() ==> (#[trigger] self.slabs@[i]).wf()
    }

    /// The grid's model: chunk coordinate to cell contents.
    pub open spec fn as_map(self) -> Map<V3, Seq<Cell>> {
        gmap(self.keys@, self.slabs@)
    }

    pub fn new() -> (r: SparseScene)
        ensures
            r.wf(),
            r.as_map() == Map::<V3, Seq<Cell>>::empty(),
            r.keys@.len() == 0,
    {
        SparseScene { keys: Vec::new(), slabs: Vec::new() }
    }

    /// World position to owning chunk coordinate: floor division per axis.
    pub fn chunk_coord(p: V3) -> (r: V3)
        requires
            p.bounded(COORD_LIMIT as int),
        ensures
            r == chunk_of(p),
            r.bounded(COORD_LIMIT as int),
    {
        V3 { x: div32_floor(p.x), y: div32_floor(p.y), z: div32_floor(p.z) }
    }

    /// Chunk coordinate to the world position of its minimum corner.
    pub fn chunk_origin(c: V3) -> (r: V3)
        requires
            c.bounded(0x0080_0000_0000_0000),
        ensures
            r == origin_of(c),
    {
        V3 { x: c.x * 32, y: c.y * 32, z: c.z * 32 }
    }

    /// Index of the entry holding `key`, if any.
    fn find(&self, key: V3) -> (r: Option<usize>)
        requires
            self.wf(),
        ensures
            match r {
                Some(i) => 0 <= i < self.keys@.len() && self.keys@[i as int] == key,
                None => !self.as_map().contains_key(key),
            },
    {
        let n = self.keys.len();
        for i in 0..n
            invariant
                n == self.keys@.len(),
                self.wf(),
                forall|j: int| 0 <= j < i ==> self.keys@[j] != key,
        {
            if self.keys[i] == key {
                return Some(i);
            }
        }
        proof {
            lemma_gmap_contains(self.keys@, self.slabs@);
        }
        None
    }

    /// Whether the chunk at `c` exists, and its contents if so; no
    /// allocation.
    pub fn get_chunk(&self, c: V3) -> (r: Option<&Chunk>)
        requires
            self.wf(),
        ensures
            match r {
                Some(chunk) => self.as_map().contains_key(c) && self.as_map()[c] == chunk.cells@
                    && chunk.wf(),
                None => !self.as_map().contains_key(c),
            },
    {
        match self.find(c) {
            Some(i) => {
                proof {
                    lemma_gmap_at(self.keys@, self.slabs@, i as int);
                }
                Some(&self.slabs[i])
            },
            None => None,
        }
    }

    /// Idempotent insertion of an all-empty chunk at `c`.
    pub fn ensure_chunk(&mut self, c: V3)
        requires
            old(self).wf(),
        ensures
            final(self).wf(),
            final(self).as_map() == if old(self).as_map().contains_key(c) {
                old(self).as_map()
            } else {
                old(self).as_map().insert(c, empty_cells())
            },
            final(self).as_map().contains_key(c),
    {
        match self.find(c) {
            Some(i) => {
                proof {
                    lemma_gmap_at(self.keys@, self.slabs@, i as int);
                    lemma_gmap_contains(self.keys@, self.slabs@);
                }
            },
            None => {
                let chunk = new_empty_chunk();
                self.keys.push(c);
                self.slabs.push(chunk);
                proof {
                    assert(self.keys@.drop_last() =~= old(self).keys@);
                    assert(self.slabs@.drop_last() =~= old(self).slabs@);
                    lemma_gmap_contains(old(self).keys@, old(self).slabs@);
                }
            },
        }
    }

    /// Point read: `None` when the owning chunk is missing, the stored cell
    /// otherwise.
    pub fn get_cell(&self, p: V3) -> (r: Option<Cell>)
        requires
            self.wf(),
            p.bounded(COORD_LIMIT as int),
        ensures
            r == spec_cell_at(self.as_map(), p),
    {
        let key = Self::chunk_coord(p);
        proof {
            lemma_cell_index_range(p);
        }
        match self.find(key) {
            Some(i) => {
                proof {
                    lemma_gmap_at(self.keys@, self.slabs@, i as int);
                }
                let idx = cell_index_exec(p);
                Some(self.slabs[i].cells[idx])
            },
            None => None,
        }
    }

    /// Point write.  Writing into a missing chunk is the caller's fault: the
    /// grid reports it by returning `false` and stays unchanged, so callers
    /// that pre-allocated every chunk (as the rasterizer does) always get
    /// `true`.
    pub fn set_cell(&mut self, p: V3, cell: Cell) -> (ok: bool)
        requires
            old(self).wf(),
            p.bounded(COORD_LIMIT as int),
        ensures
            final(self).wf(),
            ok == old(self).as_map().contains_key(chunk_of(p)),
            ok ==> final(self).as_map() == old(self).as_map().insert(
                chunk_of(p),
                old(self).as_map()[chunk_of(p)].update(cell_index(p), cell),
            ),
            !ok ==> *final(self) == *old(self),
    {
        let key = Self::chunk_coord(p);
        proof {
            lemma_cell_index_range(p);
            lemma_gmap_contains(self.keys@, self.slabs@);
        }
        match self.find(key) {
            Some(i) => {
                proof {
                    lemma_gmap_at(self.keys@, self.slabs@, i as int);
                }
                let idx = cell_index_exec(p);
                let chunk = &mut self.slabs[i];
                chunk.cells[idx] = cell;
                proof {
                    assert(self.slabs@ == old(self).slabs@.update(
                        i as int,
                        self.slabs@[i as int],
                    ));
                    assert(self.slabs@[i as int].cells@ == old(self).slabs@[i as int].cells@.update(
                        cell_index(p),
                        cell,
                    ));
                    lemma_gmap_update(
                        old(self).keys@,
                        old(self).slabs@,
                        i as int,
                        self.slabs@[i as int],
                    );
                }
                true
            },
            None => false,
        }
    }

    /// Number of chunk entries, for iteration.
    pub fn chunk_count(&self) -> (r: usize)
        ensures
            r == self.keys@.len(),
    {
        self.keys.len()
    }

    /// Key of the `i`-th chunk entry, in the grid's stable iteration order.
    pub fn chunk_key_at(&self, i: usize) -> (r: V3)
        requires
            self.wf(),
            i < self.keys@.len(),
        ensures
            r == self.keys@[i as int],
            self.as_map().contains_key(r),
            self.as_map()[r] == self.slabs@[i as int].cells@,
    {
        proof {
            lemma_gmap_at(self.keys@, self.slabs@, i as int);
        }
        self.keys[i]
    }

    /// Contents of the `i`-th chunk entry.
    pub fn chunk_at(&self, i: usize) -> (r: &Chunk)
        requires
            self.wf(),
            i < self.keys@.len(),
        ensures
            r.cells@ == self.as_map()[self.keys@[i as int]],
            r.wf(),
    {
        proof {
            lemma_gmap_at(self.keys@, self.slabs@, i as int);
        }
        &self.slabs[i]
    }
}

/// The cell index of a world position, computed exactly.
fn cell_index_exec(p: V3) -> (r: usize)
    requires
        p.bounded(COORD_LIMIT as int),
    ensures
        r == cell_index(p),
        r < CHUNK_VOLUME,
{
    let qx = div32_floor(p.x);
    let qy = div32_floor(p.y);
    let qz = div32_floor(p.z);
    let rx = (p.x - 32 * qx) as usize;
    let ry = (p.y - 32 * qy) as usize;
    let rz = (p.z - 32 * qz) as usize;
    rx * 1024 + ry * 32 + rz
}

/// A freshly allocated all-empty chunk.
pub fn new_empty_chunk() -> (c: Chunk)
    ensures
        c.wf(),
        c.cells@ == empty_cells(),
{
    let mut cells: Vec<Cell> = Vec::new();
    let mut i: usize = 0;
    while i < CHUNK_VOLUME
        invariant
            i == cells@.len(),
            i <= CHUNK_VOLUME,
            forall|j: int| 0 <= j < i ==> cells@[j] == Cell::Empty,
        decreases CHUNK_VOLUME - i,
    {
        cells.push(Cell::Empty);
        i = i + 1;
    }
    proof {
        assert(cells@ =~= empty_cells());
    }
    Chunk { cells }
}

} // verus!
