//! Terrain tile kinds, the per-chunk buffer of tile kinds that the terrain shader reads, and
//! the progress of terrain generation.
//!
//! The elevation band of each tile kind (floating point) is kept by the game beside these
//! records; here a tile kind is its identifier and name.

use vstd::prelude::*;
use crate::grid::{fits_i32, side, GridPos};
use crate::lookup::{first_with, position_of, Identified};

verus! {

/// Identifier of a tile kind.
pub type TileID = String;

/// A kind of terrain tile.
#[derive(Clone, Debug)]
pub struct TileAsset {
    pub id: TileID,
    pub name: String,
}

impl Identified for TileAsset {
    open spec fn key(&self) -> Seq<char> {
        self.id@
    }

    fn id(&self) -> (id: &String) {
        &self.id
    }
}

/// The kind of a tile.
#[derive(Clone, Debug)]
pub struct Tile(pub TileID);

/// The tile kinds known to the game, in the order the shader numbers them.
#[derive(Clone, Debug)]
pub struct TerrainAssets {
    pub tiles: Vec<TileAsset>,
}

/// The number the shader gets for a tile kind: its position among the tile kinds, or -1 for
/// an unknown kind.
pub open spec fn tile_number(tiles: Seq<TileAsset>, id: Seq<char>) -> i32 {
    match first_with(tiles, id) {
        Some(i) => i as i32,
        None => -1i32,
    }
}

/// Position in the chunk buffer of the tile at offset `(x, y)` from the chunk center: rows by
/// y, each row `2 * r + 1` long.
pub open spec fn buffer_index(r: int, x: int, y: int) -> int {
    (y + r) * side(r) + (x + r)
}

/// The offset `(x, y)` lands inside the buffer of a chunk of radius `r`, and the index is
/// computed without leaving `i32`.
pub open spec fn entry_fits(r: int, x: int, y: int) -> bool {
    &&& fits_i32(x + r)
    &&& fits_i32(y + r)
    &&& fits_i32((y + r) * side(r))
    &&& fits_i32(buffer_index(r, x, y))
    &&& 0 <= buffer_index(r, x, y) < side(r) * side(r)
}

/// The buffer after writing the entries in order into a buffer of -1: each entry writes the
/// number of its tile kind at its index, so a later entry for the same index wins.
pub open spec fn chunk_buffer(
    tiles: Seq<TileAsset>,
    r: int,
    entries: Seq<(GridPos, TileID)>,
) -> Seq<i32>
    decreases entries.len(),
{
    if entries.len() == 0 {
        Seq::new((side(r) * side(r)) as nat, |k: int| -1i32)
    } else {
        let e = entries.last();
        chunk_buffer(tiles, r, entries.drop_last()).update(
            buffer_index(r, e.0.x as int, e.0.y as int),
            tile_number(tiles, e.1@),
        )
    }
}

proof fn lemma_chunk_buffer_len(tiles: Seq<TileAsset>, r: int, entries: Seq<(GridPos, TileID)>)
    requires
        r >= 0,
        forall|k: int|
            0 <= k < entries.len() ==> entry_fits(
                r,
                (#[trigger] entries[k]).0.x as int,
                entries[k].0.y as int,
            ),
    ensures
        chunk_buffer(tiles, r, entries).len() == side(r) * side(r),
    decreases entries.len(),
{
    if entries.len() > 0 {
        assert forall|k: int| 0 <= k < entries.drop_last().len() implies entry_fits(
            r,
            (#[trigger] entries.drop_last()[k]).0.x as int,
            entries.drop_last()[k].0.y as int,
        ) by {
            assert(entries.drop_last()[k] == entries[k]);
        }
        lemma_chunk_buffer_len(tiles, r, entries.drop_last());
        assert(entry_fits(r, entries.last().0.x as int, entries.last().0.y as int)) by {
            assert(entries.last() == entries[entries.len() - 1]);
        }
    } else {
        assert(side(r) * side(r) >= 0) by (nonlinear_arith)
            requires
                r >= 0,
        ;
    }
}

proof fn lemma_side_small(r: int)
    requires
        r >= 0,
        side(r) * side(r) <= u32::MAX,
    ensures
        side(r) <= 65535,
{
    assert(side(r) <= 65535) by (nonlinear_arith)
        requires
            side(r) >= 1,
            side(r) * side(r) <= 4294967295,
    ;
}

/// Every tile offset of a chunk (within the chunk radius of its center) lands inside the
/// chunk's buffer without leaving `i32`, when the buffer's size fits in `i32`.
pub proof fn law_chunk_offsets_fit(r: int, x: int, y: int)
    requires
        r >= 0,
        side(r) * side(r) <= i32::MAX,
        -r <= x <= r,
        -r <= y <= r,
    ensures
        entry_fits(r, x, y),
{
    let n = side(r);
    assert(0 <= (y + r) * n <= (n - 1) * n) by (nonlinear_arith)
        requires
            0 <= y + r <= n - 1,
            n >= 1,
    ;
    assert((n - 1) * n + (n - 1) == n * n - 1) by (nonlinear_arith);
}

/// Distinct tile offsets of a chunk land in distinct slots of the chunk's buffer.
pub proof fn law_buffer_slots_distinct(r: int, x1: int, y1: int, x2: int, y2: int)
    requires
        r >= 0,
        -r <= x1 <= r,
        -r <= y1 <= r,
        -r <= x2 <= r,
        -r <= y2 <= r,
        (x1, y1) != (x2, y2),
    ensures
        buffer_index(r, x1, y1) != buffer_index(r, x2, y2),
{
    let n = side(r);
    vstd::arithmetic::div_mod::lemma_fundamental_div_mod_converse(
        buffer_index(r, x1, y1),
        n,
        y1 + r,
        x1 + r,
    );
    vstd::arithmetic::div_mod::lemma_fundamental_div_mod_converse(
        buffer_index(r, x2, y2),
        n,
        y2 + r,
        x2 + r,
    );
}

impl TerrainAssets {
    pub fn new(tiles: Vec<TileAsset>) -> (assets: TerrainAssets)
        ensures
            assets.tiles == tiles,
    {
        TerrainAssets { tiles }
    }

    /// Position of the first tile kind whose identifier is `id`.
    pub fn get_tile_index(&self, id: &TileID) -> (index: Option<usize>)
        ensures
            match index {
                Some(i) => first_with(self.tiles@, id@) == Some(i as int),
                None => first_with(self.tiles@, id@) is None,
            },
    {
        position_of(&self.tiles, id)
    }

    /// The buffer of tile-kind numbers of a chunk of radius `chunk_radius`, from the chunk's
    /// tiles given as (offset from the chunk center, tile kind).
    pub fn chunk_tile_buffer(&self, chunk_radius: u32, entries: &Vec<(GridPos, TileID)>) -> (buffer:
        Vec<i32>)
        requires
            side(chunk_radius as int) * side(chunk_radius as int) <= u32::MAX,
            forall|k: int|
                0 <= k < entries@.len() ==> entry_fits(
                    chunk_radius as int,
                    (#[trigger] entries@[k]).0.x as int,
                    entries@[k].0.y as int,
                ),
        ensures
            buffer@ == chunk_buffer(self.tiles@, chunk_radius as int, entries@),
    {
        let ghost r = chunk_radius as int;
        proof {
            lemma_side_small(r);
        }
        let size: u32 = chunk_radius * 2 + 1;
        let n: usize = (size * size) as usize;
        let mut buffer: Vec<i32> = Vec::new();
        let mut k: usize = 0;
        while k < n
            invariant
                0 <= k <= n,
                n == side(r) * side(r),
                buffer@ == Seq::new(k as nat, |j: int| -1i32),
            decreases n - k,
        {
            buffer.push(-1);
            proof {
                assert(buffer@ == Seq::new((k + 1) as nat, |j: int| -1i32));
            }
            k = k + 1;
        }
        let mut i: usize = 0;
        while i < entries.len()
            invariant
                0 <= i <= entries@.len(),
                r == chunk_radius,
                size == side(r),
                side(r) <= 65535,
                forall|k: int|
                    0 <= k < entries@.len() ==> entry_fits(
                        r,
                        (#[trigger] entries@[k]).0.x as int,
                        entries@[k].0.y as int,
                    ),
                buffer@ == chunk_buffer(self.tiles@, r, entries@.take(i as int)),
            decreases entries@.len() - i,
        {
            let ghost t = entries@.take(i + 1);
            proof {
                assert(t.drop_last() == entries@.take(i as int));
                assert(t.last() == entries@[i as int]);
                assert forall|k: int| 0 <= k < entries@.take(i as int).len() implies entry_fits(
                    r,
                    (#[trigger] entries@.take(i as int)[k]).0.x as int,
                    entries@.take(i as int)[k].0.y as int,
                ) by {
                    assert(entries@.take(i as int)[k] == entries@[k]);
                }
                lemma_chunk_buffer_len(self.tiles@, r, entries@.take(i as int));
                assert(entry_fits(r, entries@[i as int].0.x as int, entries@[i as int].0.y as int));
            }
            let local = entries[i].0;
            let q_offset: i32 = local.x + chunk_radius as i32;
            let r_offset: i32 = local.y + chunk_radius as i32;
            let index: usize = (r_offset * size as i32 + q_offset) as usize;
            let value: i32 = match self.get_tile_index(&entries[i].1) {
                Some(j) => j as i32,
                None => -1,
            };
            buffer.set(index, value);
            i = i + 1;
        }
        proof {
            assert(entries@.take(entries@.len() as int) == entries@);
        }
        buffer
    }
}

/// How far terrain generation has come: chunks spawned and chunks ready.
#[derive(Clone, Copy, Debug, PartialEq, Eq, Structural)]
pub struct TerrainGenerationProgress {
    pub total_chunks: u32,
    pub generated_chunks: u32,
}

/// How many of the flags are set.
pub open spec fn count_set(flags: Seq<bool>) -> nat
    decreases flags.len(),
{
    if flags.len() == 0 {
        0
    } else {
        count_set(flags.drop_last()) + if flags.last() {
            1nat
        } else {
            0nat
        }
    }
}

/// `count_set` counts the set flags: it is the length of the flags filtered to the set ones;
/// appending a flag adds one exactly when the flag is set; no flags count zero; a run of `n`
/// set flags counts `n`.
pub proof fn law_count_set(flags: Seq<bool>, b: bool, n: nat)
    ensures
        count_set(flags) == flags.filter(|f: bool| f).len(),
        count_set(flags.push(b)) == count_set(flags) + if b {
            1nat
        } else {
            0nat
        },
        count_set(Seq::<bool>::empty()) == 0,
        count_set(Seq::new(n, |i: int| true)) == n,
        count_set(flags) <= flags.len(),
{
    lemma_count_set_filter(flags);
    assert(flags.push(b).drop_last() == flags);
    lemma_count_set_all(n);
    lemma_count_set_filter(flags);
    flags.lemma_filter_len(|f: bool| f);
}

proof fn lemma_count_set_filter(flags: Seq<bool>)
    ensures
        count_set(flags) == flags.filter(|f: bool| f).len(),
    decreases flags.len(),
{
    reveal_with_fuel(Seq::<_>::filter, 1);
    if flags.len() > 0 {
        lemma_count_set_filter(flags.drop_last());
    }
}

proof fn lemma_count_set_all(n: nat)
    ensures
        count_set(Seq::new(n, |i: int| true)) == n,
    decreases n,
{
    if n > 0 {
        assert(Seq::new(n, |i: int| true).drop_last() == Seq::new((n - 1) as nat, |i: int| true));
        lemma_count_set_all((n - 1) as nat);
    }
}

impl TerrainGenerationProgress {
    /// Progress from the chunks spawned so far, one flag per chunk telling whether it is
    /// ready. The counts are truncated to `u32`, as the game's casts do.
    pub fn from_chunks(ready: &Vec<bool>) -> (progress: TerrainGenerationProgress)
        ensures
            progress.total_chunks == ready@.len() as u32,
            progress.generated_chunks == count_set(ready@) as u32,
    {
        let mut generated: usize = 0;
        let mut i: usize = 0;
        while i < ready.len()
            invariant
                0 <= i <= ready@.len(),
                generated == count_set(ready@.take(i as int)),
                generated <= i,
            decreases ready@.len() - i,
        {
            proof {
                let t = ready@.take(i + 1);
                assert(t.drop_last() == ready@.take(i as int));
                assert(t.last() == ready@[i as int]);
            }
            if ready[i] {
                generated = generated + 1;
            }
            i = i + 1;
        }
        proof {
            assert(ready@.take(ready@.len() as int) == ready@);
        }
        TerrainGenerationProgress {
            total_chunks: ready.len() as u32,
            generated_chunks: generated as u32,
        }
    }

    /// Progress as (done, total) for the loading screen: the ready chunks out of the spawned
    /// ones, with a total of at least 1.
    pub fn progress(&self) -> (done_total: (u32, u32))
        ensures
            done_total.0 == self.generated_chunks,
            done_total.1 == if self.total_chunks >= 1 {
                self.total_chunks
            } else {
                1
            },
    {
        let total = if self.total_chunks >= 1 {
            self.total_chunks
        } else {
            1
        };
        (self.generated_chunks, total)
    }
}

} // verus!
