//! Integer grid coordinates and square neighbourhoods on the grid.
//!
//! A square neighbourhood of radius `r` around a center holds `(2r + 1)^2` points. The points
//! are listed column by column: the x offset grows in the outer loop, the y offset in the
//! inner loop, both from `-r` to `r`. Consecutive offsets are `step` grid units apart, so that
//! the same enumeration yields the tiles of a chunk (`step == 1`) and the chunk centers around
//! a chunk (`step == 2 * chunk_radius + 1`).

use vstd::prelude::*;
use vstd::arithmetic::div_mod::lemma_fundamental_div_mod_converse;

verus! {

/// A point of the integer grid (a tile, or the center tile of a chunk).
#[derive(Clone, Copy, Debug, PartialEq, Eq, Hash, Structural)]
pub struct GridPos {
    pub x: i32,
    pub y: i32,
}

impl GridPos {
    pub fn new(x: i32, y: i32) -> (p: GridPos)
        ensures
            p.x == x,
            p.y == y,
    {
        GridPos { x, y }
    }

    /// The point as a pair of mathematical integers.
    pub open spec fn pair(self) -> (int, int) {
        (self.x as int, self.y as int)
    }
}

/// Whether `v` is a value of `i32`.
pub open spec fn fits_i32(v: int) -> bool {
    i32::MIN <= v <= i32::MAX
}

/// Number of points on one side of a square neighbourhood of the given radius.
pub open spec fn side(radius: int) -> int {
    2 * radius + 1
}

/// The `k`-th point of the square neighbourhood of `radius` around `(cx, cy)` whose points lie
/// `step` apart: column `k / side` and row `k % side`, each shifted by `-radius`.
pub open spec fn square_point(cx: int, cy: int, radius: int, step: int, k: int) -> (int, int) {
    (cx + (k / side(radius) - radius) * step, cy + (k % side(radius) - radius) * step)
}

/// Every point of the square neighbourhood fits in `i32`, and so does `radius * step`.
pub open spec fn square_fits(cx: int, cy: int, radius: int, step: int) -> bool {
    &&& 0 <= radius
    &&& 0 < step
    &&& radius * step <= i32::MAX
    &&& fits_i32(cx - radius * step)
    &&& fits_i32(cx + radius * step)
    &&& fits_i32(cy - radius * step)
    &&& fits_i32(cy + radius * step)
}

/// `points` is exactly the square neighbourhood of `radius` around `(cx, cy)` with spacing
/// `step`, in column-by-column order.
pub open spec fn is_square(points: Seq<GridPos>, cx: int, cy: int, radius: int, step: int) -> bool {
    &&& points.len() == side(radius) * side(radius)
    &&& forall|k: int|
        0 <= k < points.len() ==> (#[trigger] points[k]).pair() == square_point(
            cx,
            cy,
            radius,
            step,
            k,
        )
}

proof fn lemma_offset_bound(off: int, radius: int, step: int)
    requires
        -radius <= off <= radius,
        0 < step,
    ensures
        -(radius * step) <= off * step <= radius * step,
{
    assert(-(radius * step) <= off * step <= radius * step) by (nonlinear_arith)
        requires
            -radius <= off <= radius,
            0 < step,
    ;
}

/// The point of the square neighbourhood at offset `(a, b)` (in steps from the center, each
/// within the radius) sits at position `(a + radius) * side + (b + radius)` of the listing:
/// the listing runs over x offsets in the outer loop and y offsets in the inner loop.
pub proof fn law_square_point_at(cx: int, cy: int, radius: int, step: int, a: int, b: int)
    requires
        radius >= 0,
        -radius <= a <= radius,
        -radius <= b <= radius,
    ensures
        0 <= (a + radius) * side(radius) + (b + radius) < side(radius) * side(radius),
        square_point(cx, cy, radius, step, (a + radius) * side(radius) + (b + radius)) == (
            cx + a * step,
            cy + b * step,
        ),
{
    let n = side(radius);
    let k = (a + radius) * n + (b + radius);
    lemma_fundamental_div_mod_converse(k, n, a + radius, b + radius);
    assert(0 <= k < n * n) by (nonlinear_arith)
        requires
            0 <= a + radius < n,
            0 <= b + radius < n,
            k == (a + radius) * n + (b + radius),
    ;
}

/// The square neighbourhood of `radius` around `center` whose points lie `step` apart, listed
/// column by column.
pub fn square_grid(center: GridPos, radius: u32, step: i32) -> (points: Vec<GridPos>)
    requires
        square_fits(center.x as int, center.y as int, radius as int, step as int),
    ensures
        is_square(points@, center.x as int, center.y as int, radius as int, step as int),
{
    let n: u64 = 2 * (radius as u64) + 1;
    let ghost cx = center.x as int;
    let ghost cy = center.y as int;
    let ghost r = radius as int;
    let ghost s = step as int;
    let mut points: Vec<GridPos> = Vec::new();
    let mut xi: u64 = 0;
    while xi < n
        invariant
            n == side(r),
            0 <= xi <= n,
            r == radius,
            s == step,
            cx == center.x,
            cy == center.y,
            square_fits(cx, cy, r, s),
            points.len() == xi * n,
            forall|k: int|
                0 <= k < points.len() ==> (#[trigger] points@[k]).pair() == square_point(
                    cx,
                    cy,
                    r,
                    s,
                    k,
                ),
        decreases n - xi,
    {
        let mut yi: u64 = 0;
        while yi < n
            invariant
                n == side(r),
                0 <= xi < n,
                0 <= yi <= n,
                r == radius,
                s == step,
                cx == center.x,
                cy == center.y,
                square_fits(cx, cy, r, s),
                points.len() == xi * n + yi,
                forall|k: int|
                    0 <= k < points.len() ==> (#[trigger] points@[k]).pair() == square_point(
                        cx,
                        cy,
                        r,
                        s,
                        k,
                    ),
            decreases n - yi,
        {
            let ghost k = points.len() as int;
            proof {
                lemma_fundamental_div_mod_converse(k, n as int, xi as int, yi as int);
                lemma_offset_bound(xi - r, r, s);
                lemma_offset_bound(yi - r, r, s);
            }
            let dx: i64 = (xi as i64 - radius as i64) * (step as i64);
            let dy: i64 = (yi as i64 - radius as i64) * (step as i64);
            let x: i64 = center.x as i64 + dx;
            let y: i64 = center.y as i64 + dy;
            points.push(GridPos { x: x as i32, y: y as i32 });
            yi = yi + 1;
        }
        proof {
            assert(xi * n + n == (xi + 1) * n) by (nonlinear_arith);
        }
        xi = xi + 1;
    }
    points
}

} // verus!
