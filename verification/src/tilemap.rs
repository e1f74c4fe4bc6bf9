//! The square tile map: tiles are grouped into square chunks of `2 * chunk_radius + 1` tiles
//! on a side, anchored at their center tile. Chunk centers lie on the lattice of multiples of
//! that side length, so every tile belongs to exactly one chunk.
//!
//! `TileMapStorage` holds the radii and the chunks spawned so far (center to chunk entity).
//! World positions (floating point) are converted to tiles outside this crate.

use vstd::prelude::*;
use bevy::platform::collections::HashMap;
use crate::grid::{
    fits_i32, is_square, law_square_point_at, side, square_fits, square_grid, square_point,
    GridPos,
};
use crate::hash_maps::{chunk_entries, chunk_map_get, chunk_map_insert, chunk_map_new};

verus! {

/// -1, 0 or 1 by the sign of `n`.
pub open spec fn sign(n: int) -> int {
    if n > 0 {
        1
    } else if n < 0 {
        -1
    } else {
        0
    }
}

/// Integer division rounding toward zero (as `i32` division does), for `b > 0`.
pub open spec fn trunc_div(a: int, b: int) -> int {
    if a >= 0 {
        a / b
    } else {
        -((-a) / b)
    }
}

/// One coordinate of the center of the chunk that holds the tile coordinate `n`:
/// `((n + signum(n) * r) / step) * step` with division rounding toward zero.
pub open spec fn center_coord(n: int, r: int) -> int {
    trunc_div(n + sign(n) * r, side(r)) * side(r)
}

/// Whether `n` is a coordinate of some chunk center (a multiple of the chunk side).
pub open spec fn is_center_coord(n: int, r: int) -> bool {
    n % side(r) == 0
}

/// The `k`-th tile of the border ring around the chunk at `(cx, cy)`: first the bottom and top
/// rows, in pairs of equal x from left to right, then the left and right columns without their
/// corners, in pairs of equal y from bottom to top.
pub open spec fn border_point(cx: int, cy: int, r: int, k: int) -> (int, int) {
    let rr = r + 1;
    let rows = 2 * side(rr);
    if k < rows {
        let x = cx + k / 2 - rr;
        if k % 2 == 0 {
            (x, cy - rr)
        } else {
            (x, cy + rr)
        }
    } else {
        let j = k - rows;
        let y = cy + j / 2 - rr + 1;
        if j % 2 == 0 {
            (cx - rr, y)
        } else {
            (cx + rr, y)
        }
    }
}

/// Number of tiles in the border ring of a chunk of radius `r`.
pub open spec fn border_len(r: int) -> int {
    8 * (r + 1)
}

/// The chunk radius gives a side length that fits in `i32`.
pub open spec fn radius_fits(r: int) -> bool {
    side(r) <= i32::MAX
}

/// Chebyshev distance between two grid points.
pub open spec fn chebyshev(a: (int, int), b: (int, int)) -> int {
    let dx = if a.0 >= b.0 {
        a.0 - b.0
    } else {
        b.0 - a.0
    };
    let dy = if a.1 >= b.1 {
        a.1 - b.1
    } else {
        b.1 - a.1
    };
    if dx >= dy {
        dx
    } else {
        dy
    }
}

/// The chunk bookkeeping of the tile map.
pub struct TileMapStorage {
    /// Radius of a chunk in tiles: a chunk has `2 * chunk_radius + 1` tiles on a side.
    pub chunk_radius: u32,
    /// Radius, in chunks, of the square of chunks discovered around a chunk.
    pub discover_radius: u32,
    /// The chunks spawned so far, by center.
    pub chunks: HashMap<(i32, i32), u64>,
}

impl TileMapStorage {
    /// The chunks spawned so far: chunk center to chunk entity (as entity bits).
    pub closed spec fn chunks(&self) -> Map<(i32, i32), u64> {
        chunk_entries(self.chunks)
    }

    /// What `get_chunk` gives for a center.
    pub open spec fn lookup(&self, center: (i32, i32)) -> Option<u64> {
        if self.chunks().contains_key(center) {
            Some(self.chunks()[center])
        } else {
            None
        }
    }

    /// Side length of a chunk, in tiles.
    pub open spec fn step(&self) -> int {
        side(self.chunk_radius as int)
    }

    /// A storage with the given radii and no chunk.
    pub fn new(chunk_radius: u32, discover_radius: u32) -> (s: TileMapStorage)
        ensures
            s.chunk_radius == chunk_radius,
            s.discover_radius == discover_radius,
            s.chunks() == Map::<(i32, i32), u64>::empty(),
    {
        TileMapStorage { chunk_radius, discover_radius, chunks: chunk_map_new() }
    }

    /// The centers of the chunks in the square of `discover_radius` chunks around the chunk
    /// centered at `center`, column by column.
    pub fn discover_chunks(&self, center: GridPos) -> (chunks: Vec<GridPos>)
        requires
            radius_fits(self.chunk_radius as int),
            square_fits(
                center.x as int,
                center.y as int,
                self.discover_radius as int,
                self.step(),
            ),
        ensures
            is_square(
                chunks@,
                center.x as int,
                center.y as int,
                self.discover_radius as int,
                self.step(),
            ),
    {
        let step: i32 = (self.chunk_radius as i32) * 2 + 1;
        square_grid(center, self.discover_radius, step)
    }

    /// The tiles of the chunk centered at `center`, column by column.
    pub fn chunk_tiles(&self, center: GridPos) -> (tiles: Vec<GridPos>)
        requires
            square_fits(center.x as int, center.y as int, self.chunk_radius as int, 1),
        ensures
            is_square(tiles@, center.x as int, center.y as int, self.chunk_radius as int, 1),
    {
        square_grid(center, self.chunk_radius, 1)
    }

    /// The ring of tiles just outside the chunk centered at `center` (see `border_point`).
    pub fn chunk_border(&self, center: GridPos) -> (border: Vec<GridPos>)
        requires
            self.chunk_radius < i32::MAX,
            fits_i32(center.x - (self.chunk_radius + 1)),
            fits_i32(center.x + (self.chunk_radius + 1)),
            fits_i32(center.y - (self.chunk_radius + 1)),
            fits_i32(center.y + (self.chunk_radius + 1)),
        ensures
            border@.len() == border_len(self.chunk_radius as int),
            forall|k: int|
                0 <= k < border@.len() ==> (#[trigger] border@[k]).pair() == border_point(
                    center.x as int,
                    center.y as int,
                    self.chunk_radius as int,
                    k,
                ),
    {
        let ghost cx = center.x as int;
        let ghost cy = center.y as int;
        let ghost r = self.chunk_radius as int;
        let rr: i32 = self.chunk_radius as i32 + 1;
        let mut border: Vec<GridPos> = Vec::new();
        let mut x: i64 = -(rr as i64);
        while x <= rr as i64
            invariant
                rr == r + 1,
                cx == center.x,
                cy == center.y,
                -rr <= x <= rr + 1,
                fits_i32(cx - rr),
                fits_i32(cx + rr),
                fits_i32(cy - rr),
                fits_i32(cy + rr),
                border@.len() == 2 * (x + rr),
                forall|k: int|
                    0 <= k < border@.len() ==> (#[trigger] border@[k]).pair() == border_point(
                        cx,
                        cy,
                        r,
                        k,
                    ),
            decreases rr + 1 - x,
        {
            border.push(GridPos { x: (center.x as i64 + x) as i32, y: center.y - rr });
            border.push(GridPos { x: (center.x as i64 + x) as i32, y: center.y + rr });
            x = x + 1;
        }
        let mut y: i64 = -(rr as i64) + 1;
        while y <= rr as i64 - 1
            invariant
                rr == r + 1,
                cx == center.x,
                cy == center.y,
                -rr + 1 <= y <= rr,
                fits_i32(cx - rr),
                fits_i32(cx + rr),
                fits_i32(cy - rr),
                fits_i32(cy + rr),
                border@.len() == 2 * side(rr as int) + 2 * (y + rr - 1),
                forall|k: int|
                    0 <= k < border@.len() ==> (#[trigger] border@[k]).pair() == border_point(
                        cx,
                        cy,
                        r,
                        k,
                    ),
            decreases rr - y,
        {
            border.push(GridPos { x: center.x - rr, y: (center.y as i64 + y) as i32 });
            border.push(GridPos { x: center.x + rr, y: (center.y as i64 + y) as i32 });
            y = y + 1;
        }
        border
    }

    /// The center of the chunk that holds `tile`.
    pub fn tile_to_center(&self, tile: &GridPos) -> (center: GridPos)
        requires
            radius_fits(self.chunk_radius as int),
            fits_i32(tile.x + sign(tile.x as int) * self.chunk_radius),
            fits_i32(tile.y + sign(tile.y as int) * self.chunk_radius),
        ensures
            center.x == center_coord(tile.x as int, self.chunk_radius as int),
            center.y == center_coord(tile.y as int, self.chunk_radius as int),
    {
        let x = center_of(tile.x, self.chunk_radius);
        let y = center_of(tile.y, self.chunk_radius);
        GridPos { x, y }
    }

    /// The chunk entity stored for the chunk centered at `tile`, if that chunk was spawned.
    pub fn get_chunk(&self, tile: GridPos) -> (chunk: Option<u64>)
        ensures
            chunk == self.lookup((tile.x, tile.y)),
    {
        chunk_map_get(&self.chunks, (tile.x, tile.y))
    }

    /// Records `chunk` as the entity of the chunk centered at `center`.
    pub fn insert_chunk(&mut self, center: GridPos, chunk: u64)
        ensures
            final(self).chunks() == old(self).chunks().insert((center.x, center.y), chunk),
            final(self).chunk_radius == old(self).chunk_radius,
            final(self).discover_radius == old(self).discover_radius,
    {
        chunk_map_insert(&mut self.chunks, (center.x, center.y), chunk);
    }

    /// The chunks to spawn when tiles are discovered around `tile`: the centers of the square
    /// of `discover_radius` chunks around the chunk of `tile`, column by column, leaving out
    /// the chunks already stored.
    pub fn chunks_to_generate(&self, tile: GridPos) -> (centers: Vec<GridPos>)
        requires
            radius_fits(self.chunk_radius as int),
            fits_i32(tile.x + sign(tile.x as int) * self.chunk_radius),
            fits_i32(tile.y + sign(tile.y as int) * self.chunk_radius),
            square_fits(
                center_coord(tile.x as int, self.chunk_radius as int),
                center_coord(tile.y as int, self.chunk_radius as int),
                self.discover_radius as int,
                self.step(),
            ),
        ensures
            centers@ == self.discovered(tile).filter(
                |c: GridPos| !self.chunks().contains_key((c.x, c.y)),
            ),
    {
        proof {
            lemma_center_coord_fits(tile.x as int, self.chunk_radius as int);
            lemma_center_coord_fits(tile.y as int, self.chunk_radius as int);
        }
        let center = self.tile_to_center(&tile);
        let all = self.discover_chunks(center);
        let ghost pred = |c: GridPos| !self.chunks().contains_key((c.x, c.y));
        let mut centers: Vec<GridPos> = Vec::new();
        let mut i: usize = 0;
        proof {
            assert(all@ == self.discovered(tile)) by {
                assert forall|k: int| 0 <= k < all@.len() implies all@[k] == self.discovered(
                    tile,
                )[k] by {
                    assert(all@[k].pair() == self.discovered(tile)[k].pair());
                }
            }
        }
        while i < all.len()
            invariant
                0 <= i <= all@.len(),
                all@ == self.discovered(tile),
                pred == (|c: GridPos| !self.chunks().contains_key((c.x, c.y))),
                centers@ == all@.take(i as int).filter(pred),
            decreases all@.len() - i,
        {
            proof {
                reveal_with_fuel(Seq::<_>::filter, 1);
                assert(all@.take(i + 1).drop_last() == all@.take(i as int));
            }
            let c = all[i];
            let ghost prev = centers@;
            if chunk_map_get(&self.chunks, (c.x, c.y)).is_none() {
                centers.push(c);
            }
            proof {
                let s = all@.take(i + 1);
                assert(s.last() == c);
                assert(s.filter(pred) == if pred(c) {
                    s.drop_last().filter(pred).push(c)
                } else {
                    s.drop_last().filter(pred)
                });
            }
            i = i + 1;
        }
        proof {
            assert(all@.take(all@.len() as int) == all@);
        }
        centers
    }

    /// The chunk centers that `chunks_to_generate` considers for `tile`, stored or not.
    pub open spec fn discovered(&self, tile: GridPos) -> Seq<GridPos> {
        let cx = center_coord(tile.x as int, self.chunk_radius as int);
        let cy = center_coord(tile.y as int, self.chunk_radius as int);
        let d = self.discover_radius as int;
        Seq::new(
            (side(d) * side(d)) as nat,
            |k: int|
                GridPos {
                    x: square_point(cx, cy, d, self.step(), k).0 as i32,
                    y: square_point(cx, cy, d, self.step(), k).1 as i32,
                },
        )
    }
}

/// Every tile coordinate lies within `r` of the coordinate of its chunk's center, and that
/// center coordinate is a multiple of the chunk side.
pub proof fn law_tile_near_its_center(n: int, r: int)
    requires
        r >= 0,
    ensures
        -r <= n - center_coord(n, r) <= r,
        is_center_coord(center_coord(n, r), r),
{
    let s = side(r);
    let m = n + sign(n) * r;
    lemma_trunc_div_bound(m, s);
    vstd::arithmetic::div_mod::lemma_mod_multiples_basic(trunc_div(m, s), s);
}

/// Chunks do not overlap: a tile within `r` of a chunk center `c` (a multiple of the chunk
/// side) belongs to the chunk centered at `c`, and to no other.
pub proof fn law_center_unique(c: int, o: int, r: int)
    requires
        r >= 0,
        is_center_coord(c, r),
        -r <= o <= r,
    ensures
        center_coord(c + o, r) == c,
{
    let s = side(r);
    let k = c / s;
    vstd::arithmetic::div_mod::lemma_fundamental_div_mod(c, s);
    assert(c == k * s) by (nonlinear_arith)
        requires
            c == s * (c / s) + c % s,
            c % s == 0,
            k == c / s,
    ;
    let n = c + o;
    if n > 0 {
        assert(k >= 0) by (nonlinear_arith)
            requires
                c == k * s,
                c + o > 0,
                -r <= o <= r,
                s == 2 * r + 1,
                r >= 0,
        ;
        vstd::arithmetic::div_mod::lemma_fundamental_div_mod_converse(n + r, s, k, o + r);
    } else if n < 0 {
        assert(k <= 0) by (nonlinear_arith)
            requires
                c == k * s,
                c + o < 0,
                -r <= o <= r,
                s == 2 * r + 1,
                r >= 0,
        ;
        assert((-k) * s == -(k * s)) by (nonlinear_arith);
        vstd::arithmetic::div_mod::lemma_fundamental_div_mod_converse(-(n - r), s, -k, r - o);
    } else {
        assert(k == 0) by (nonlinear_arith)
            requires
                c == k * s,
                c + o == 0,
                -r <= o <= r,
                s == 2 * r + 1,
                r >= 0,
        ;
    }
}

/// The center of a chunk is its own chunk's center.
pub proof fn law_center_idempotent(n: int, r: int)
    requires
        r >= 0,
    ensures
        center_coord(center_coord(n, r), r) == center_coord(n, r),
{
    law_tile_near_its_center(n, r);
    law_center_unique(center_coord(n, r), 0, r);
}

/// Each tile is listed among the tiles of the chunk that `tile_to_center` assigns it to.
pub proof fn law_tile_listed_in_its_chunk(x: int, y: int, r: int)
    requires
        r >= 0,
    ensures
        exists|k: int|
            0 <= k < side(r) * side(r) && #[trigger] square_point(
                center_coord(x, r),
                center_coord(y, r),
                r,
                1,
                k,
            ) == (x, y),
{
    let cx = center_coord(x, r);
    let cy = center_coord(y, r);
    law_tile_near_its_center(x, r);
    law_tile_near_its_center(y, r);
    let n = side(r);
    let xi = x - cx + r;
    let yi = y - cy + r;
    let k = xi * n + yi;
    vstd::arithmetic::div_mod::lemma_fundamental_div_mod_converse(k, n, xi, yi);
    assert(0 <= k < n * n) by (nonlinear_arith)
        requires
            0 <= xi < n,
            0 <= yi < n,
            k == xi * n + yi,
    ;
    assert(square_point(cx, cy, r, 1, k) == (x, y));
}

/// Every tile of a chunk lies within the chunk radius of its center, and maps back to that
/// center when the center is a chunk center.
pub proof fn law_chunk_tile_maps_back(cx: int, cy: int, r: int, k: int)
    requires
        r >= 0,
        0 <= k < side(r) * side(r),
    ensures
        chebyshev(square_point(cx, cy, r, 1, k), (cx, cy)) <= r,
        is_center_coord(cx, r) ==> center_coord(square_point(cx, cy, r, 1, k).0, r) == cx,
        is_center_coord(cy, r) ==> center_coord(square_point(cx, cy, r, 1, k).1, r) == cy,
{
    let n = side(r);
    vstd::arithmetic::div_mod::lemma_fundamental_div_mod(k, n);
    vstd::arithmetic::div_mod::lemma_mod_bound(k, n);
    assert(0 <= k / n < n) by {
        vstd::arithmetic::div_mod::lemma_div_pos_is_pos(k, n);
        vstd::arithmetic::div_mod::lemma_div_by_multiple_is_strongly_ordered(k, n * n, n, n);
        vstd::arithmetic::div_mod::lemma_div_by_multiple(n, n);
    }
    if is_center_coord(cx, r) {
        law_center_unique(cx, k / n - r, r);
    }
    if is_center_coord(cy, r) {
        law_center_unique(cy, k % n - r, r);
    }
}

/// The border ring lies exactly one tile outside the chunk: every border tile is at Chebyshev
/// distance `r + 1` from the center.
pub proof fn law_border_ring(cx: int, cy: int, r: int, k: int)
    requires
        r >= 0,
        0 <= k < border_len(r),
    ensures
        chebyshev(border_point(cx, cy, r, k), (cx, cy)) == r + 1,
{
}

/// The chunks discovered around a chunk center are chunk centers themselves.
pub proof fn law_discovered_are_centers(cx: int, cy: int, d: int, r: int, k: int)
    requires
        r >= 0,
        d >= 0,
        is_center_coord(cx, r),
        is_center_coord(cy, r),
    ensures
        is_center_coord(square_point(cx, cy, d, side(r), k).0, r),
        is_center_coord(square_point(cx, cy, d, side(r), k).1, r),
{
    let s = side(r);
    let n = side(d);
    vstd::arithmetic::div_mod::lemma_mod_multiples_vanish(k / n - d, cx, s);
    vstd::arithmetic::div_mod::lemma_mod_multiples_vanish(k % n - d, cy, s);
}

/// The points of a square neighbourhood are pairwise distinct.
pub proof fn law_square_points_distinct(cx: int, cy: int, radius: int, step: int, j: int, k: int)
    requires
        radius >= 0,
        step > 0,
        0 <= j < k < side(radius) * side(radius),
    ensures
        square_point(cx, cy, radius, step, j) != square_point(cx, cy, radius, step, k),
{
    let n = side(radius);
    if square_point(cx, cy, radius, step, j) == square_point(cx, cy, radius, step, k) {
        assert(j / n == k / n) by (nonlinear_arith)
            requires
                (j / n - radius) * step == (k / n - radius) * step,
                step > 0,
        ;
        assert(j % n == k % n) by (nonlinear_arith)
            requires
                (j % n - radius) * step == (k % n - radius) * step,
                step > 0,
        ;
        vstd::arithmetic::div_mod::lemma_fundamental_div_mod(j, n);
        vstd::arithmetic::div_mod::lemma_fundamental_div_mod(k, n);
    }
}

/// Discovering again around the same tile, once every chunk the first discovery asked for has
/// been stored and no stored chunk was dropped, asks for no chunk.
pub proof fn law_rediscovery_spawns_nothing(
    before: TileMapStorage,
    after: TileMapStorage,
    tile: GridPos,
)
    requires
        after.chunk_radius == before.chunk_radius,
        after.discover_radius == before.discover_radius,
        forall|c: (i32, i32)|
            #[trigger] before.chunks().contains_key(c) ==> after.chunks().contains_key(c),
        forall|g: GridPos|
            before.discovered(tile).filter(
                |c: GridPos| !before.chunks().contains_key((c.x, c.y)),
            ).contains(g) ==> #[trigger] after.chunks().contains_key((g.x, g.y)),
    ensures
        after.discovered(tile).filter(
            |c: GridPos| !after.chunks().contains_key((c.x, c.y)),
        ).len() == 0,
{
    let all = before.discovered(tile);
    let pred_before = |c: GridPos| !before.chunks().contains_key((c.x, c.y));
    let pred_after = |c: GridPos| !after.chunks().contains_key((c.x, c.y));
    assert(after.discovered(tile) == all);
    assert forall|i: int| 0 <= i < all.len() implies !pred_after(#[trigger] all[i]) by {
        if pred_before(all[i]) {
            all.lemma_filter_contains(pred_before, i);
        }
    }
    all.lemma_all_neg_filter_empty(pred_after);
}

/// The chunks considered around a tile: `(2d + 1)^2` pairwise distinct chunk centers
/// (multiples of the chunk side), each within `d` chunk sides plus the chunk radius of the tile
/// in each coordinate, and among them the chunk that holds the tile (within the chunk radius
/// of it in both coordinates).
pub proof fn law_discovered_around_tile(s: TileMapStorage, tile: GridPos)
    requires
        radius_fits(s.chunk_radius as int),
        s.discover_radius * s.step() <= i32::MAX,
        fits_i32(tile.x - s.chunk_radius - s.discover_radius * s.step()),
        fits_i32(tile.x + s.chunk_radius + s.discover_radius * s.step()),
        fits_i32(tile.y - s.chunk_radius - s.discover_radius * s.step()),
        fits_i32(tile.y + s.chunk_radius + s.discover_radius * s.step()),
    ensures
        s.discovered(tile).len() == side(s.discover_radius as int) * side(
            s.discover_radius as int,
        ),
        forall|k: int|
            0 <= k < s.discovered(tile).len() ==> {
                let c = #[trigger] s.discovered(tile)[k];
                let reach = s.chunk_radius + s.discover_radius * s.step();
                &&& (c.x as int) % s.step() == 0
                &&& (c.y as int) % s.step() == 0
                &&& -reach <= c.x - tile.x <= reach
                &&& -reach <= c.y - tile.y <= reach
            },
        exists|k: int|
            0 <= k < s.discovered(tile).len() && -s.chunk_radius <= (#[trigger] s.discovered(
                tile,
            )[k]).x - tile.x <= s.chunk_radius && -s.chunk_radius <= s.discovered(tile)[k].y
                - tile.y <= s.chunk_radius,
        forall|j: int, k: int|
            0 <= j < k < s.discovered(tile).len() ==> s.discovered(tile)[j] != s.discovered(
                tile,
            )[k],
{
    let r = s.chunk_radius as int;
    let d = s.discover_radius as int;
    let st = s.step();
    let n = side(d);
    let cx = center_coord(tile.x as int, r);
    let cy = center_coord(tile.y as int, r);
    let disc = s.discovered(tile);
    law_tile_near_its_center(tile.x as int, r);
    law_tile_near_its_center(tile.y as int, r);
    assert forall|k: int| #![trigger square_point(cx, cy, d, st, k)] 0 <= k < n * n implies {
        let p = square_point(cx, cy, d, st, k);
        &&& -(d * st) <= p.0 - cx <= d * st
        &&& -(d * st) <= p.1 - cy <= d * st
        &&& is_center_coord(p.0, r)
        &&& is_center_coord(p.1, r)
    } by {
        vstd::arithmetic::div_mod::lemma_fundamental_div_mod(k, n);
        vstd::arithmetic::div_mod::lemma_mod_bound(k, n);
        assert(0 <= k / n < n) by {
            vstd::arithmetic::div_mod::lemma_div_pos_is_pos(k, n);
            vstd::arithmetic::div_mod::lemma_div_by_multiple_is_strongly_ordered(k, n * n, n, n);
            vstd::arithmetic::div_mod::lemma_div_by_multiple(n, n);
        }
        let a = k / n - d;
        let b = k % n - d;
        assert(-(d * st) <= a * st <= d * st) by (nonlinear_arith)
            requires
                -d <= a <= d,
                st > 0,
        ;
        assert(-(d * st) <= b * st <= d * st) by (nonlinear_arith)
            requires
                -d <= b <= d,
                st > 0,
        ;
        law_discovered_are_centers(cx, cy, d, r, k);
    }
    assert forall|k: int| 0 <= k < disc.len() implies {
        let c = #[trigger] disc[k];
        let reach = s.chunk_radius + s.discover_radius * s.step();
        &&& (c.x as int) % s.step() == 0
        &&& (c.y as int) % s.step() == 0
        &&& -reach <= c.x - tile.x <= reach
        &&& -reach <= c.y - tile.y <= reach
    } by {
        let p = square_point(cx, cy, d, st, k);
        assert(disc[k].x == p.0 && disc[k].y == p.1);
    }
    let k0 = d * n + d;
    law_square_point_at(cx, cy, d, st, 0, 0);
    assert(disc[k0].x == cx && disc[k0].y == cy);
    assert forall|j: int, k: int| 0 <= j < k < disc.len() implies disc[j] != disc[k] by {
        law_square_points_distinct(cx, cy, d, st, j, k);
        let pj = square_point(cx, cy, d, st, j);
        let pk = square_point(cx, cy, d, st, k);
        assert(disc[j].x == pj.0 && disc[j].y == pj.1);
        assert(disc[k].x == pk.0 && disc[k].y == pk.1);
    }
}

/// The border tiles are pairwise distinct.
pub proof fn law_border_distinct(cx: int, cy: int, r: int, j: int, k: int)
    requires
        r >= 0,
        0 <= j < k < border_len(r),
    ensures
        border_point(cx, cy, r, j) != border_point(cx, cy, r, k),
{
}

/// Every tile at Chebyshev distance `r + 1` from the center is a border tile.
pub proof fn law_border_covers_ring(cx: int, cy: int, r: int, a: int, b: int)
    requires
        r >= 0,
        chebyshev((cx + a, cy + b), (cx, cy)) == r + 1,
    ensures
        exists|k: int|
            0 <= k < border_len(r) && #[trigger] border_point(cx, cy, r, k) == (cx + a, cy + b),
{
    let rr = r + 1;
    let rows = 2 * side(rr);
    if b == rr || b == -rr {
        let k = 2 * (a + rr) + if b > 0 {
            1int
        } else {
            0int
        };
        assert(border_point(cx, cy, r, k) == (cx + a, cy + b));
    } else {
        let k = rows + 2 * (b + rr - 1) + if a > 0 {
            1int
        } else {
            0int
        };
        assert(border_point(cx, cy, r, k) == (cx + a, cy + b));
    }
}

/// What `get_chunk` gives after `insert_chunk`: the inserted entity for that center, and for
/// every other center what it gave before.
pub proof fn law_get_after_insert(
    before: TileMapStorage,
    after: TileMapStorage,
    center: (i32, i32),
    chunk: u64,
    other: (i32, i32),
)
    requires
        after.chunks() == before.chunks().insert(center, chunk),
    ensures
        after.lookup(center) == Some(chunk),
        other != center ==> after.lookup(other) == before.lookup(other),
{
}

proof fn lemma_trunc_div_bound(a: int, s: int)
    requires
        s > 0,
    ensures
        a >= 0 ==> 0 <= trunc_div(a, s) * s <= a,
        a < 0 ==> a <= trunc_div(a, s) * s <= 0,
        a >= 0 ==> a - trunc_div(a, s) * s < s,
        a < 0 ==> trunc_div(a, s) * s - a < s,
{
    if a >= 0 {
        vstd::arithmetic::div_mod::lemma_fundamental_div_mod(a, s);
        assert(s * (a / s) == (a / s) * s) by (nonlinear_arith);
        assert(0 <= a / s) by {
            vstd::arithmetic::div_mod::lemma_div_pos_is_pos(a, s);
        }
        assert(0 <= (a / s) * s) by (nonlinear_arith)
            requires
                0 <= a / s,
                s > 0,
        ;
    } else {
        vstd::arithmetic::div_mod::lemma_fundamental_div_mod(-a, s);
        assert(s * ((-a) / s) == ((-a) / s) * s) by (nonlinear_arith);
        assert(0 <= (-a) / s) by {
            vstd::arithmetic::div_mod::lemma_div_pos_is_pos(-a, s);
        }
        assert(0 <= ((-a) / s) * s) by (nonlinear_arith)
            requires
                0 <= (-a) / s,
                s > 0,
        ;
        assert(trunc_div(a, s) * s == -(((-a) / s) * s)) by (nonlinear_arith)
            requires
                trunc_div(a, s) == -((-a) / s),
        ;
    }
}

proof fn lemma_center_coord_fits(n: int, r: int)
    requires
        r >= 0,
        fits_i32(n + sign(n) * r),
    ensures
        fits_i32(center_coord(n, r)),
{
    lemma_trunc_div_bound(n + sign(n) * r, side(r));
}

/// One coordinate of `tile_to_center`, computed without overflow.
fn center_of(n: i32, chunk_radius: u32) -> (c: i32)
    requires
        radius_fits(chunk_radius as int),
        fits_i32(n + sign(n as int) * chunk_radius),
    ensures
        c == center_coord(n as int, chunk_radius as int),
{
    let s: u64 = 2 * (chunk_radius as u64) + 1;
    let signum: i64 = if n > 0 {
        1
    } else if n < 0 {
        -1
    } else {
        0
    };
    let m: i64 = n as i64 + signum * (chunk_radius as i64);
    proof {
        lemma_trunc_div_bound(m as int, s as int);
    }
    if m >= 0 {
        let q: u64 = (m as u64) / s;
        proof {
            assert(q * s == trunc_div(m as int, s as int) * s);
        }
        (q * s) as i32
    } else {
        let q: u64 = ((-m) as u64) / s;
        proof {
            assert(q * s == -(trunc_div(m as int, s as int) * s)) by (nonlinear_arith)
                requires
                    q == (-m) / (s as int),
                    trunc_div(m as int, s as int) == -((-m) / (s as int)),
            ;
        }
        -((q * s) as i64) as i32
    }
}

} // verus!
