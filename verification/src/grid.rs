//! The tile grid: a row-major rectangle of materials with a fixed cell
//! size, coordinate snapping, editor resize operations, and the raycasting
//! primitive that reports the first solid obstruction along a segment.

use vstd::prelude::*;

use crate::geom::{
    abs_i, div_trunc, div_trunc_i128, floor_div_i64, lemma_hit_between, mul_i64, Vec2, COORD_LIMIT,
};
use crate::material::Material;

verus! {

/// World units per grid cell.
pub const CELL_UNITS: i64 = 32;

/// Milliunits per grid cell (the cell size all world coordinates snap by).
pub const CELL: i64 = 32000;

/// The cell index that contains the world coordinate `w` (floor division).
pub open spec fn cell_of(w: int) -> int {
    w / (CELL as int)
}

/// The material used to fill cells created by `new` and the resize
/// operations.
pub open spec fn default_fill() -> Material {
    Material::Grass
}

/// A fixed-size 2D array of materials, row-major.
pub struct Grid {
    width: u16,
    height: u16,
    cells: Vec<Material>,
}

/// Distinct row-major coordinates give distinct flat indices, and every
/// index stays within 32-bit range for grid dimensions.
proof fn lemma_row_major(x: int, y: int, x2: int, y2: int, w: int, h: int)
    by (nonlinear_arith)
    requires
        0 <= x < w,
        0 <= x2 < w,
        0 <= y < h,
        0 <= y2 < h,
        w <= 0x10000,
        h <= 0x10000,
    ensures
        0 <= y * w + x < h * w,
        0 <= y2 * w + x2 < h * w,
        y * w + x < 0x1_0000_0000,
        h * w == w * h,
        (y * w + x == y2 * w + x2) <==> (x == x2 && y == y2),
{
}

impl Grid {
    /// Cell columns.
    pub closed spec fn width_spec(self) -> int {
        self.width as int
    }

    /// Cell rows.
    pub closed spec fn height_spec(self) -> int {
        self.height as int
    }

    /// Structural validity: at least one cell each way, and storage for
    /// exactly `width * height` cells.
    pub closed spec fn wf(self) -> bool {
        &&& 1 <= self.width
        &&& 1 <= self.height
        &&& self.cells.len() == self.width_spec() * self.height_spec()
    }

    /// The material of cell `(x, y)`; any out-of-range query sees the
    /// designated boundary material, `Missing`.
    pub closed spec fn cell_spec(self, x: int, y: int) -> Material {
        if 0 <= x < self.width_spec() && 0 <= y < self.height_spec() {
            self.cells[y * self.width_spec() + x]
        } else {
            Material::Missing
        }
    }

    /// Whether cell `(x, y)` blocks motion and raycasts.
    pub open spec fn solid_at(self, x: int, y: int) -> bool {
        self.cell_spec(x, y).solid_spec()
    }

    pub fn width(&self) -> (w: u16)
        ensures
            w == self.width_spec(),
    {
        self.width
    }

    pub fn height(&self) -> (h: u16)
        ensures
            h == self.height_spec(),
    {
        self.height
    }

    /// A fresh grid of the given size, every cell holding the default fill.
    pub fn new(width: u16, height: u16) -> (g: Grid)
        requires
            1 <= width,
            1 <= height,
        ensures
            g.wf(),
            g.width_spec() == width,
            g.height_spec() == height,
            forall|x: int, y: int|
                0 <= x < width && 0 <= y < height ==> g.cell_spec(x, y) == default_fill(),
    {
        proof {
            assert(width as int * height as int <= 0xffff * 0xffff) by (nonlinear_arith)
                requires
                    width <= 0xffff,
                    height <= 0xffff;
        }
        let n: u32 = (width as u32) * (height as u32);
        let mut cells: Vec<Material> = Vec::new();
        let mut i: u32 = 0;
        while i < n
            invariant
                i <= n,
                cells.len() == i,
                forall|k: int| 0 <= k < i ==> cells[k] == default_fill(),
            decreases n - i,
        {
            cells.push(Material::Grass);
            i = i + 1;
        }
        let g = Grid { width, height, cells };
        proof {
            assert(n == width as int * height as int) by (nonlinear_arith)
                requires
                    n == (width as u32) * (height as u32),
                    width <= 0xffff,
                    height <= 0xffff;
            assert forall|x: int, y: int|
                0 <= x < width && 0 <= y < height implies g.cell_spec(x, y) == default_fill() by {
                lemma_row_major(x, y, x, y, width as int, height as int);
            }
        }
        g
    }

    /// The material at cell `(x, y)`, the boundary material when out of
    /// range: a grid query is defined for every pair of indices.
    pub fn get(&self, x: i64, y: i64) -> (m: Material)
        requires
            self.wf(),
        ensures
            m == self.cell_spec(x as int, y as int),
    {
        if 0 <= x && x < self.width as i64 && 0 <= y && y < self.height as i64 {
            proof {
                lemma_row_major(
                    x as int,
                    y as int,
                    x as int,
                    y as int,
                    self.width_spec(),
                    self.height_spec(),
                );
            }
            let idx: usize = (y as usize) * (self.width as usize) + (x as usize);
            self.cells[idx]
        } else {
            Material::Missing
        }
    }

    /// Write `mat` into cell `(x, y)`; writes outside the grid are ignored.
    pub fn insert(&mut self, x: i64, y: i64, mat: Material)
        requires
            old(self).wf(),
        ensures
            final(self).wf(),
            final(self).width_spec() == old(self).width_spec(),
            final(self).height_spec() == old(self).height_spec(),
            0 <= x < old(self).width_spec() && 0 <= y < old(self).height_spec() ==> final(self).cell_spec(x as int, y as int) == mat,
            forall|x2: int, y2: int|
                !(x2 == x && y2 == y) ==> final(self).cell_spec(x2, y2) == old(self).cell_spec(
                    x2,
                    y2,
                ),
    {
        if 0 <= x && x < self.width as i64 && 0 <= y && y < self.height as i64 {
            proof {
                lemma_row_major(
                    x as int,
                    y as int,
                    x as int,
                    y as int,
                    self.width_spec(),
                    self.height_spec(),
                );
            }
            let idx: usize = (y as usize) * (self.width as usize) + (x as usize);
            self.cells[idx] = mat;
            proof {
                assert(idx == y as int * self.width_spec() + x as int);
                assert(self.cells@ == old(self).cells@.update(
                    y as int * self.width_spec() + x as int,
                    mat,
                ));
                assert forall|x2: int, y2: int|
                    !(x2 == x && y2 == y) implies self.cell_spec(x2, y2) == old(self).cell_spec(
                    x2,
                    y2,
                ) by {
                    assert(self.width_spec() == old(self).width_spec());
                    assert(self.height_spec() == old(self).height_spec());
                    if 0 <= x2 < self.width_spec() && 0 <= y2 < self.height_spec() {
                        lemma_row_major(
                            x as int,
                            y as int,
                            x2,
                            y2,
                            self.width_spec(),
                            self.height_spec(),
                        );
                    }
                }
            }
        }
    }

    /// Snap a world position to the indices of its containing cell.
    pub fn snap(pos: Vec2) -> (c: (i64, i64))
        requires
            pos.bounded(COORD_LIMIT as int),
        ensures
            c.0 == cell_of(pos.x as int),
            c.1 == cell_of(pos.y as int),
    {
        (floor_div_i64(pos.x, CELL), floor_div_i64(pos.y, CELL))
    }

    /// Append a column of default fill on the right edge.
    pub fn widen(&mut self)
        requires
            old(self).wf(),
            old(self).width_spec() < 0xffff,
        ensures
            final(self).wf(),
            final(self).width_spec() == old(self).width_spec() + 1,
            final(self).height_spec() == old(self).height_spec(),
            forall|x: int, y: int|
                0 <= x < old(self).width_spec() && 0 <= y < old(self).height_spec() ==> final(self).cell_spec(x, y) == old(self).cell_spec(x, y),
            forall|y: int|
                0 <= y < old(self).height_spec() ==> final(self).cell_spec(
                    old(self).width_spec(),
                    y,
                ) == default_fill(),
    {
        let w = self.width;
        let h = self.height;
        let nw: u16 = w + 1;
        let mut cells: Vec<Material> = Vec::new();
        let mut y: u16 = 0;
        while y < h
            invariant
                self == old(self),
                w == old(self).width,
                h == old(self).height,
                nw == w + 1,
                old(self).wf(),
                y <= h,
                cells.len() == y as int * nw as int,
                forall|x2: int, y2: int|
                    0 <= x2 < nw && 0 <= y2 < y ==> #[trigger] cells[y2 * nw as int + x2] == (
                    if x2 < w {
                        old(self).cell_spec(x2, y2)
                    } else {
                        default_fill()
                    }),
            decreases h - y,
        {
            let ghost len0 = cells.len() as int;
            let ghost cells0 = cells;
            let mut x: u16 = 0;
            while x < w
                invariant
                    self == old(self),
                    w == old(self).width,
                    old(self).wf(),
                    x <= w,
                    y < h,
                    cells.len() == len0 + x as int,
                    len0 == y as int * nw as int,
                    len0 == cells0.len(),
                    forall|k: int| 0 <= k < len0 ==> cells[k] == cells0[k],
                    forall|x2: int|
                        0 <= x2 < x ==> #[trigger] cells[len0 + x2] == old(self).cell_spec(
                            x2,
                            y as int,
                        ),
                decreases w - x,
            {
                let m = self.get(x as i64, y as i64);
                cells.push(m);
                x = x + 1;
            }
            cells.push(Material::Grass);
            y = y + 1;
            proof {
                assert(y as int * nw as int == len0 + nw as int) by (nonlinear_arith)
                    requires
                        len0 == (y - 1) as int * nw as int;
                assert forall|x2: int, y2: int|
                    0 <= x2 < nw && 0 <= y2 < y implies #[trigger] cells[y2 * nw as int + x2] == (
                if x2 < w {
                    old(self).cell_spec(x2, y2)
                } else {
                    default_fill()
                }) by {
                    lemma_row_major(x2, y2, x2, y2, nw as int, y as int);
                    if y2 < y - 1 {
                        assert(y2 * nw as int + x2 < len0) by (nonlinear_arith)
                            requires
                                len0 == (y - 1) as int * nw as int,
                                0 <= x2 < nw as int,
                                y2 <= (y - 1) as int - 1;
                    } else {
                        assert(y2 * nw as int + x2 == len0 + x2);
                    }
                }
            }
        }
        self.width = nw;
        self.cells = cells;
        proof {
            assert(h as int * nw as int == nw as int * h as int) by (nonlinear_arith);
            assert forall|x: int, y2: int|
                0 <= x < w && 0 <= y2 < h implies self.cell_spec(x, y2) == old(self).cell_spec(
                x,
                y2,
            ) by {
                lemma_row_major(x, y2, x, y2, nw as int, h as int);
            }
            assert forall|y2: int| 0 <= y2 < h implies self.cell_spec(w as int, y2)
                == default_fill() by {
                lemma_row_major(w as int, y2, w as int, y2, nw as int, h as int);
            }
        }
    }

    /// Remove the rightmost column; the grid keeps at least one column.
    pub fn thin(&mut self)
        requires
            old(self).wf(),
            old(self).width_spec() > 1,
        ensures
            final(self).wf(),
            final(self).width_spec() == old(self).width_spec() - 1,
            final(self).height_spec() == old(self).height_spec(),
            forall|x: int, y: int|
                0 <= x < old(self).width_spec() - 1 && 0 <= y < old(self).height_spec() ==> final(self).cell_spec(x, y) == old(self).cell_spec(x, y),
    {
        let w = self.width;
        let h = self.height;
        let nw: u16 = w - 1;
        let mut cells: Vec<Material> = Vec::new();
        let mut y: u16 = 0;
        while y < h
            invariant
                self == old(self),
                w == old(self).width,
                h == old(self).height,
                nw == w - 1,
                1 <= nw,
                old(self).wf(),
                y <= h,
                cells.len() == y as int * nw as int,
                forall|x2: int, y2: int|
                    0 <= x2 < nw && 0 <= y2 < y ==> #[trigger] cells[y2 * nw as int + x2] == old(
                        self,
                    ).cell_spec(x2, y2),
            decreases h - y,
        {
            let ghost len0 = cells.len() as int;
            let ghost cells0 = cells;
            let mut x: u16 = 0;
            while x < nw
                invariant
                    self == old(self),
                    w == old(self).width,
                    nw == w - 1,
                    old(self).wf(),
                    x <= nw,
                    y < h,
                    cells.len() == len0 + x as int,
                    len0 == y as int * nw as int,
                    len0 == cells0.len(),
                    forall|k: int| 0 <= k < len0 ==> cells[k] == cells0[k],
                    forall|x2: int|
                        0 <= x2 < x ==> #[trigger] cells[len0 + x2] == old(self).cell_spec(
                            x2,
                            y as int,
                        ),
                decreases nw - x,
            {
                let m = self.get(x as i64, y as i64);
                cells.push(m);
                x = x + 1;
            }
            y = y + 1;
            proof {
                assert(y as int * nw as int == len0 + nw as int) by (nonlinear_arith)
                    requires
                        len0 == (y - 1) as int * nw as int;
                assert forall|x2: int, y2: int|
                    0 <= x2 < nw && 0 <= y2 < y implies #[trigger] cells[y2 * nw as int + x2]
                    == old(self).cell_spec(x2, y2) by {
                    lemma_row_major(x2, y2, x2, y2, nw as int, y as int);
                    if y2 < y - 1 {
                        assert(y2 * nw as int + x2 < len0) by (nonlinear_arith)
                            requires
                                len0 == (y - 1) as int * nw as int,
                                0 <= x2 < nw as int,
                                y2 <= (y - 1) as int - 1;
                    } else {
                        assert(y2 * nw as int + x2 == len0 + x2);
                    }
                }
            }
        }
        self.width = nw;
        self.cells = cells;
        proof {
            assert(h as int * nw as int == nw as int * h as int) by (nonlinear_arith);
            assert forall|x: int, y2: int|
                0 <= x < nw && 0 <= y2 < h implies self.cell_spec(x, y2) == old(self).cell_spec(
                x,
                y2,
            ) by {
                lemma_row_major(x, y2, x, y2, nw as int, h as int);
            }
        }
    }

    /// Append a row of default fill on the bottom edge.
    pub fn heighten(&mut self)
        requires
            old(self).wf(),
            old(self).height_spec() < 0xffff,
        ensures
            final(self).wf(),
            final(self).width_spec() == old(self).width_spec(),
            final(self).height_spec() == old(self).height_spec() + 1,
            forall|x: int, y: int|
                0 <= x < old(self).width_spec() && 0 <= y < old(self).height_spec() ==> final(self).cell_spec(x, y) == old(self).cell_spec(x, y),
            forall|x: int|
                0 <= x < old(self).width_spec() ==> final(self).cell_spec(
                    x,
                    old(self).height_spec(),
                ) == default_fill(),
    {
        let w = self.width;
        let h = self.height;
        let mut x: u16 = 0;
        while x < w
            invariant
                w == self.width,
                h == self.height,
                old(self).wf(),
                self.width == old(self).width,
                self.height == old(self).height,
                x <= w,
                self.cells.len() == old(self).cells.len() + x as int,
                forall|k: int| 0 <= k < old(self).cells.len() ==> self.cells[k] == old(self).cells[k],
                forall|k: int|
                    old(self).cells.len() <= k < self.cells.len() ==> self.cells[k]
                        == default_fill(),
            decreases w - x,
        {
            self.cells.push(Material::Grass);
            x = x + 1;
        }
        self.height = h + 1;
        proof {
            assert(self.cells.len() == w as int * (h as int + 1)) by (nonlinear_arith)
                requires
                    self.cells.len() == w as int * h as int + w as int;
            assert forall|x2: int, y2: int|
                0 <= x2 < w && 0 <= y2 < h implies self.cell_spec(x2, y2) == old(self).cell_spec(
                x2,
                y2,
            ) by {
                lemma_row_major(x2, y2, x2, y2, w as int, h as int);
            }
            assert forall|x2: int| 0 <= x2 < w implies self.cell_spec(x2, h as int)
                == default_fill() by {
                lemma_row_major(x2, h as int, x2, h as int, w as int, h as int + 1);
                assert(h as int * w as int == w as int * h as int) by (nonlinear_arith);
            }
        }
    }

    /// Remove the bottom row; the grid keeps at least one row.
    pub fn shorten(&mut self)
        requires
            old(self).wf(),
            old(self).height_spec() > 1,
        ensures
            final(self).wf(),
            final(self).width_spec() == old(self).width_spec(),
            final(self).height_spec() == old(self).height_spec() - 1,
            forall|x: int, y: int|
                0 <= x < old(self).width_spec() && 0 <= y < old(self).height_spec() - 1 ==> final(self).cell_spec(x, y) == old(self).cell_spec(x, y),
    {
        let w = self.width;
        let h = self.height;
        let nh: u16 = h - 1;
        proof {
            assert(w as int * nh as int <= 0xffff * 0xffff) by (nonlinear_arith)
                requires
                    w <= 0xffff,
                    nh <= 0xffff;
        }
        let n: u32 = (w as u32) * (nh as u32);
        proof {
            assert(n <= w as int * h as int) by (nonlinear_arith)
                requires
                    n == w as int * nh as int,
                    w >= 0,
                    nh < h;
        }
        self.cells.truncate(n as usize);
        self.height = nh;
        proof {
            assert forall|x2: int, y2: int|
                0 <= x2 < w && 0 <= y2 < nh implies self.cell_spec(x2, y2) == old(self).cell_spec(
                x2,
                y2,
            ) by {
                lemma_row_major(x2, y2, x2, y2, w as int, nh as int);
                lemma_row_major(x2, y2, x2, y2, w as int, h as int);
            }
        }
    }
}

/// The unsigned gap between two integers.
pub open spec fn dist_i(a: int, b: int) -> int {
    if a <= b {
        b - a
    } else {
        a - b
    }
}

/// Outcome of a grid walk, at specification level.
pub ghost enum HitSpec {
    /// The whole vector was traversed unobstructed.
    Full,
    /// The origin's own cell is solid: blocked at distance zero.
    AtStart,
    /// Blocked on crossing the vertical cell boundary `x == bx`.
    Vertical { bx: int },
    /// Blocked on crossing the horizontal cell boundary `y == by`.
    Horizontal { by: int },
}

/// The coordinate of the next cell boundary ahead of cell `c` for travel
/// direction `v`.
pub open spec fn step_bound(c: int, v: int) -> int {
    if v > 0 {
        (c + 1) * (CELL as int)
    } else {
        c * (CELL as int)
    }
}

/// The distance from the origin coordinate `o` to that boundary, measured
/// along the direction of travel.
pub open spec fn step_dist(o: int, c: int, v: int) -> int {
    if v > 0 {
        step_bound(c, v) - o
    } else {
        o - step_bound(c, v)
    }
}

/// Whether the ray still crosses from cell `c` into the next cell along
/// this axis within its remaining length. A cell owns its low boundary, so
/// stepping up happens exactly at the shared boundary and stepping down
/// only strictly beyond it.
pub open spec fn can_step(o: int, v: int, c: int) -> bool {
    if v > 0 {
        step_dist(o, c, v) <= v
    } else if v < 0 {
        step_dist(o, c, v) < -v
    } else {
        false
    }
}

/// When both axes can step, the vertical boundary is crossed first iff its
/// parametric distance is no larger: `dx / |vx| <= dy / |vy|`, compared by
/// cross-multiplication.
pub open spec fn x_first(ox: int, oy: int, vx: int, vy: int, cx: int, cy: int) -> bool {
    step_dist(ox, cx, vx) * abs_i(vy) <= step_dist(oy, cy, vy) * abs_i(vx)
}

/// One cell at a time, the walk crosses whichever boundary comes first
/// along the ray until the vector is exhausted. In stop-early mode the
/// first crossing into a solid cell ends the walk; otherwise the walk runs
/// the whole vector and `acc` carries the last crossing from an open cell
/// into a solid one.
pub open spec fn walk(
    g: Grid,
    ox: int,
    oy: int,
    vx: int,
    vy: int,
    cx: int,
    cy: int,
    stop_early: bool,
    acc: HitSpec,
) -> HitSpec
    decreases dist_i(cx, cell_of(ox + vx)) + dist_i(cy, cell_of(oy + vy))
    via walk_via
{
    let go_x = can_step(ox, vx, cx);
    let go_y = can_step(oy, vy, cy);
    if go_x && (!go_y || x_first(ox, oy, vx, vy, cx, cy)) {
        let ncx = if vx > 0 {
            cx + 1
        } else {
            cx - 1
        };
        let hit = HitSpec::Vertical { bx: step_bound(cx, vx) };
        if g.solid_at(ncx, cy) && stop_early {
            hit
        } else {
            let acc2 = if g.solid_at(ncx, cy) && !g.solid_at(cx, cy) {
                hit
            } else {
                acc
            };
            walk(g, ox, oy, vx, vy, ncx, cy, stop_early, acc2)
        }
    } else if go_y {
        let ncy = if vy > 0 {
            cy + 1
        } else {
            cy - 1
        };
        let hit = HitSpec::Horizontal { by: step_bound(cy, vy) };
        if g.solid_at(cx, ncy) && stop_early {
            hit
        } else {
            let acc2 = if g.solid_at(cx, ncy) && !g.solid_at(cx, cy) {
                hit
            } else {
                acc
            };
            walk(g, ox, oy, vx, vy, cx, ncy, stop_early, acc2)
        }
    } else {
        acc
    }
}

#[via_fn]
proof fn walk_via(
    g: Grid,
    ox: int,
    oy: int,
    vx: int,
    vy: int,
    cx: int,
    cy: int,
    stop_early: bool,
    acc: HitSpec,
) {
    lemma_step_toward_target(ox, vx, cx);
    lemma_step_toward_target(oy, vy, cy);
}

/// A reachable crossing moves the cell index strictly toward the cell that
/// holds the segment's endpoint.
proof fn lemma_step_toward_target(o: int, v: int, c: int)
    ensures
        v > 0 && can_step(o, v, c) ==> c + 1 <= cell_of(o + v),
        v < 0 && can_step(o, v, c) ==> cell_of(o + v) < c,
{
    if v > 0 && can_step(o, v, c) {
        lemma_cell_lower(o + v, c + 1);
    }
    if v < 0 && can_step(o, v, c) {
        lemma_cell_upper(o + v, c);
    }
}

/// `a * CELL <= w` forces `a <= cell_of(w)`.
proof fn lemma_cell_lower(w: int, a: int)
    requires
        a * (CELL as int) <= w,
    ensures
        a <= cell_of(w),
{
    vstd::arithmetic::div_mod::lemma_div_is_ordered(a * (CELL as int), w, CELL as int);
    vstd::arithmetic::div_mod::lemma_div_multiples_vanish(a, CELL as int);
}

/// `w < a * CELL` forces `cell_of(w) < a`.
proof fn lemma_cell_upper(w: int, a: int)
    requires
        w < a * (CELL as int),
    ensures
        cell_of(w) < a,
{
    vstd::arithmetic::div_mod::lemma_div_is_ordered(w, a * (CELL as int) - 1, CELL as int);
    vstd::arithmetic::div_mod::lemma_div_multiples_vanish_fancy(
        a - 1,
        (CELL as int) - 1,
        CELL as int,
    );
}

/// A coordinate sits between the boundaries of its own cell.
proof fn lemma_cell_brackets(w: int)
    ensures
        (CELL as int) * cell_of(w) <= w < (CELL as int) * (cell_of(w) + 1),
{
    vstd::arithmetic::div_mod::lemma_fundamental_div_mod(w, CELL as int);
    vstd::arithmetic::div_mod::lemma_mod_division_less_than_divisor(w, CELL as int);
}

/// Inside an all-open region the walk never records or reports a hit: it
/// runs the whole vector and stays `Full`.
proof fn lemma_walk_open(
    g: Grid,
    ox: int,
    oy: int,
    vx: int,
    vy: int,
    cx: int,
    cy: int,
    stop_early: bool,
)
    requires
        forall|x: int, y: int|
            0 <= x < g.width_spec() && 0 <= y < g.height_spec() ==> !g.solid_at(x, y),
        0 <= cell_of(ox) < g.width_spec(),
        0 <= cell_of(ox + vx) < g.width_spec(),
        0 <= cell_of(oy) < g.height_spec(),
        0 <= cell_of(oy + vy) < g.height_spec(),
        vx > 0 ==> cell_of(ox) <= cx <= cell_of(ox + vx),
        vx == 0 ==> cx == cell_of(ox),
        vx < 0 ==> cell_of(ox + vx) <= cx <= cell_of(ox),
        vy > 0 ==> cell_of(oy) <= cy <= cell_of(oy + vy),
        vy == 0 ==> cy == cell_of(oy),
        vy < 0 ==> cell_of(oy + vy) <= cy <= cell_of(oy),
    ensures
        walk(g, ox, oy, vx, vy, cx, cy, stop_early, HitSpec::Full) == HitSpec::Full,
    decreases dist_i(cx, cell_of(ox + vx)) + dist_i(cy, cell_of(oy + vy)),
{
    let go_x = can_step(ox, vx, cx);
    let go_y = can_step(oy, vy, cy);
    lemma_step_toward_target(ox, vx, cx);
    lemma_step_toward_target(oy, vy, cy);
    if go_x && (!go_y || x_first(ox, oy, vx, vy, cx, cy)) {
        let ncx = if vx > 0 {
            cx + 1
        } else {
            cx - 1
        };
        assert(0 <= ncx < g.width_spec());
        assert(0 <= cy < g.height_spec());
        assert(!g.solid_at(ncx, cy));
        lemma_walk_open(g, ox, oy, vx, vy, ncx, cy, stop_early);
    } else if go_y {
        let ncy = if vy > 0 {
            cy + 1
        } else {
            cy - 1
        };
        assert(0 <= cx < g.width_spec());
        assert(0 <= ncy < g.height_spec());
        assert(!g.solid_at(cx, ncy));
        lemma_walk_open(g, ox, oy, vx, vy, cx, ncy, stop_early);
    }
}

/// Full-cast correctness: through a grid whose every cell is open, a cast
/// whose segment stays inside the grid travels its whole vector — the
/// result is full and its point is exactly `origin + vector`.
pub proof fn lemma_full_cast_open_grid(g: Grid, origin: Vec2, vector: Vec2, stop_early: bool)
    requires
        forall|x: int, y: int|
            0 <= x < g.width_spec() && 0 <= y < g.height_spec() ==> !g.solid_at(x, y),
        0 <= origin.x,
        0 <= origin.y,
        0 <= origin.x + vector.x,
        0 <= origin.y + vector.y,
        origin.x < g.width_spec() * (CELL as int),
        origin.y < g.height_spec() * (CELL as int),
        origin.x + vector.x < g.width_spec() * (CELL as int),
        origin.y + vector.y < g.height_spec() * (CELL as int),
    ensures
        cast_hit(g, origin, vector, stop_early) == HitSpec::Full,
        hit_point(origin, vector, cast_hit(g, origin, vector, stop_early)) == (
            origin.x + vector.x,
            origin.y + vector.y,
        ),
        hit_normal(vector, cast_hit(g, origin, vector, stop_early)) is None,
{
    lemma_cell_lower(origin.x as int, 0);
    lemma_cell_upper(origin.x as int, g.width_spec());
    lemma_cell_lower(origin.y as int, 0);
    lemma_cell_upper(origin.y as int, g.height_spec());
    lemma_cell_lower(origin.x + vector.x, 0);
    lemma_cell_upper(origin.x + vector.x, g.width_spec());
    lemma_cell_lower(origin.y + vector.y, 0);
    lemma_cell_upper(origin.y + vector.y, g.height_spec());
    if !(vector.x == 0 && vector.y == 0) {
        assert(!g.solid_at(cell_of(origin.x as int), cell_of(origin.y as int)));
        lemma_walk_open(
            g,
            origin.x as int,
            origin.y as int,
            vector.x as int,
            vector.y as int,
            cell_of(origin.x as int),
            cell_of(origin.y as int),
            stop_early,
        );
    }
}

/// Blocked-cast correctness: casting straight rightward into a solid cell
/// from a point inside the adjacent open cell is blocked exactly at the
/// shared boundary — the cast is not full and its point lies on the cell
/// boundary, at the origin's own height.
pub proof fn lemma_blocked_adjacent_right(g: Grid, origin: Vec2, vector: Vec2)
    requires
        !g.solid_at(cell_of(origin.x as int), cell_of(origin.y as int)),
        g.solid_at(cell_of(origin.x as int) + 1, cell_of(origin.y as int)),
        vector.y == 0,
        origin.x + vector.x >= (cell_of(origin.x as int) + 1) * (CELL as int),
    ensures
        cast_hit(g, origin, vector, true) == (HitSpec::Vertical {
            bx: (cell_of(origin.x as int) + 1) * (CELL as int),
        }),
        hit_point(origin, vector, cast_hit(g, origin, vector, true)) == (
            (cell_of(origin.x as int) + 1) * (CELL as int),
            origin.y as int,
        ),
        hit_normal(vector, cast_hit(g, origin, vector, true)) == Some(Vec2 { x: -1i64, y: 0i64 }),
{
    lemma_cell_brackets(origin.x as int);
    let scx = cell_of(origin.x as int);
    let scy = cell_of(origin.y as int);
    let bx = (scx + 1) * (CELL as int);
    assert(vector.x > 0);
    assert(can_step(origin.x as int, vector.x as int, scx));
    assert(!can_step(origin.y as int, vector.y as int, scy));
    assert(walk(
        g,
        origin.x as int,
        origin.y as int,
        vector.x as int,
        vector.y as int,
        scx,
        scy,
        true,
        HitSpec::Full,
    ) == (HitSpec::Vertical { bx }));
    assert(vector.y as int * (bx - origin.x) == 0) by (nonlinear_arith)
        requires
            vector.y == 0;
    vstd::arithmetic::div_mod::lemma_div_of0(abs_i(vector.x as int));
}

/// Blocked-cast correctness on the other axis: casting straight downward
/// (+y) into a solid cell from a point inside the adjacent open cell is
/// blocked exactly at the shared boundary.
pub proof fn lemma_blocked_adjacent_down(g: Grid, origin: Vec2, vector: Vec2)
    requires
        !g.solid_at(cell_of(origin.x as int), cell_of(origin.y as int)),
        g.solid_at(cell_of(origin.x as int), cell_of(origin.y as int) + 1),
        vector.x == 0,
        origin.y + vector.y >= (cell_of(origin.y as int) + 1) * (CELL as int),
    ensures
        cast_hit(g, origin, vector, true) == (HitSpec::Horizontal {
            by: (cell_of(origin.y as int) + 1) * (CELL as int),
        }),
        hit_point(origin, vector, cast_hit(g, origin, vector, true)) == (
            origin.x as int,
            (cell_of(origin.y as int) + 1) * (CELL as int),
        ),
        hit_normal(vector, cast_hit(g, origin, vector, true)) == Some(Vec2 { x: 0i64, y: -1i64 }),
{
    lemma_cell_brackets(origin.y as int);
    let scx = cell_of(origin.x as int);
    let scy = cell_of(origin.y as int);
    let by = (scy + 1) * (CELL as int);
    assert(vector.y > 0);
    assert(can_step(origin.y as int, vector.y as int, scy));
    assert(!can_step(origin.x as int, vector.x as int, scx));
    assert(walk(
        g,
        origin.x as int,
        origin.y as int,
        vector.x as int,
        vector.y as int,
        scx,
        scy,
        true,
        HitSpec::Full,
    ) == (HitSpec::Horizontal { by }));
    assert(vector.x as int * (by - origin.y) == 0) by (nonlinear_arith)
        requires
            vector.x == 0;
    vstd::arithmetic::div_mod::lemma_div_of0(abs_i(vector.y as int));
}

/// Scaling the requested vector by a positive factor preserves every step
/// of a blocked stop-early walk: unless the segment's endpoint lies
/// exactly on a cell corner, the longer walk crosses the same boundaries
/// in the same order and is blocked at the same crossing.
proof fn lemma_walk_scale(g: Grid, ox: int, oy: int, vx: int, vy: int, k: int, cx: int, cy: int)
    requires
        k >= 1,
        !((ox + vx) % (CELL as int) == 0 && (oy + vy) % (CELL as int) == 0),
        !(walk(g, ox, oy, vx, vy, cx, cy, true, HitSpec::Full) is Full),
        vx > 0 ==> cell_of(ox) <= cx <= cell_of(ox + vx),
        vx == 0 ==> cx == cell_of(ox),
        vx < 0 ==> cell_of(ox + vx) <= cx <= cell_of(ox),
        vy > 0 ==> cell_of(oy) <= cy <= cell_of(oy + vy),
        vy == 0 ==> cy == cell_of(oy),
        vy < 0 ==> cell_of(oy + vy) <= cy <= cell_of(oy),
    ensures
        walk(g, ox, oy, k * vx, k * vy, cx, cy, true, HitSpec::Full) == walk(
            g,
            ox,
            oy,
            vx,
            vy,
            cx,
            cy,
            true,
            HitSpec::Full,
        ),
    decreases dist_i(cx, cell_of(ox + vx)) + dist_i(cy, cell_of(oy + vy)),
{
    crate::geom::lemma_abs_scale(k, vx);
    crate::geom::lemma_abs_scale(k, vy);
    lemma_cell_brackets(ox);
    lemma_cell_brackets(oy);
    lemma_step_toward_target(ox, vx, cx);
    lemma_step_toward_target(oy, vy, cy);
    let go_x = can_step(ox, vx, cx);
    let go_y = can_step(oy, vy, cy);
    let go_xk = can_step(ox, k * vx, cx);
    let go_yk = can_step(oy, k * vy, cy);
    let dxv = step_dist(ox, cx, vx);
    let dyv = step_dist(oy, cy, vy);
    let ax = abs_i(vx);
    let ay = abs_i(vy);
    assert(step_bound(cx, k * vx) == step_bound(cx, vx));
    assert(step_bound(cy, k * vy) == step_bound(cy, vy));
    assert(step_dist(ox, cx, k * vx) == dxv);
    assert(step_dist(oy, cy, k * vy) == dyv);
    assert(vx != 0 ==> dxv >= 0);
    assert(vy != 0 ==> dyv >= 0);
    assert(go_x ==> go_xk) by {
        if go_x {
            if vx > 0 {
                assert(vx <= k * vx) by (nonlinear_arith)
                    requires
                        k >= 1 && vx > 0;
            } else {
                assert(-vx <= -(k * vx)) by (nonlinear_arith)
                    requires
                        k >= 1 && vx < 0;
            }
        }
    }
    assert(go_y ==> go_yk) by {
        if go_y {
            if vy > 0 {
                assert(vy <= k * vy) by (nonlinear_arith)
                    requires
                        k >= 1 && vy > 0;
            } else {
                assert(-vy <= -(k * vy)) by (nonlinear_arith)
                    requires
                        k >= 1 && vy < 0;
            }
        }
    }
    assert(dxv * abs_i(k * vy) == k * (dxv * ay)) by (nonlinear_arith)
        requires
            abs_i(k * vy) == k * ay;
    assert(dyv * abs_i(k * vx) == k * (dyv * ax)) by (nonlinear_arith)
        requires
            abs_i(k * vx) == k * ax;
    crate::geom::lemma_scale_le(k, dxv * ay, dyv * ax);
    assert(x_first(ox, oy, k * vx, k * vy, cx, cy) == x_first(ox, oy, vx, vy, cx, cy));
    if go_x && (!go_y || x_first(ox, oy, vx, vy, cx, cy)) {
        // the shorter walk steps in x; show the longer one does too
        assert(go_xk);
        if !go_y && vy != 0 {
            // the y-crossing is out of the shorter vector's reach, so the
            // x-crossing comes no later even for the longer one
            assert(dyv >= ay);
            assert(dxv <= ax);
            assert(dxv * ay <= dyv * ax) by (nonlinear_arith)
                requires
                    0 <= dxv <= ax,
                    0 <= ay <= dyv;
        }
        assert(go_xk && (!go_yk || x_first(ox, oy, k * vx, k * vy, cx, cy)));
        let ncx = if vx > 0 {
            cx + 1
        } else {
            cx - 1
        };
        assert((if k * vx > 0 {
            cx + 1
        } else {
            cx - 1
        }) == ncx);
        if !g.solid_at(ncx, cy) {
            lemma_walk_scale(g, ox, oy, vx, vy, k, ncx, cy);
        }
    } else {
        // the shorter walk steps in y; show the longer one cannot prefer x
        assert(go_y);
        assert(go_xk ==> !x_first(ox, oy, k * vx, k * vy, cx, cy)) by {
            if go_xk && vx != 0 && !go_x {
                assert(dyv <= ay);
                assert(dxv >= ax);
                if dxv > ax {
                    assert(ay >= 1);
                    assert(dxv * ay > dyv * ax) by (nonlinear_arith)
                        requires
                            dxv >= ax + 1,
                            0 <= dyv <= ay,
                            ax >= 0,
                            ay >= 1;
                } else {
                    // the x-crossing sits exactly at the segment's end, so
                    // the end lies on that boundary; by the corner
                    // hypothesis it is not on a y-boundary too
                    assert(vx < 0);
                    assert(ox + vx == cx * (CELL as int));
                    vstd::arithmetic::div_mod::lemma_mod_multiples_basic(cx, CELL as int);
                    assert((ox + vx) % (CELL as int) == 0);
                    assert(dyv < ay) by {
                        if vy > 0 && dyv == ay {
                            assert(oy + vy == (cy + 1) * (CELL as int));
                            vstd::arithmetic::div_mod::lemma_mod_multiples_basic(
                                cy + 1,
                                CELL as int,
                            );
                        }
                    }
                    assert(ax >= 1);
                    assert(dxv * ay > dyv * ax) by (nonlinear_arith)
                        requires
                            dxv == ax,
                            0 <= dyv < ay,
                            ax >= 1;
                }
            }
        }
        let ncy = if vy > 0 {
            cy + 1
        } else {
            cy - 1
        };
        assert((if k * vy > 0 {
            cy + 1
        } else {
            cy - 1
        }) == ncy);
        if !g.solid_at(cx, ncy) {
            lemma_walk_scale(g, ox, oy, vx, vy, k, cx, ncy);
        }
    }
}

/// A stop-early walk can only be blocked on a boundary of an axis it
/// actually travels along.
proof fn lemma_walk_hit_axis(g: Grid, ox: int, oy: int, vx: int, vy: int, cx: int, cy: int)
    ensures
        walk(g, ox, oy, vx, vy, cx, cy, true, HitSpec::Full) is Vertical ==> vx != 0,
        walk(g, ox, oy, vx, vy, cx, cy, true, HitSpec::Full) is Horizontal ==> vy != 0,
    decreases dist_i(cx, cell_of(ox + vx)) + dist_i(cy, cell_of(oy + vy)),
{
    lemma_step_toward_target(ox, vx, cx);
    lemma_step_toward_target(oy, vy, cy);
    let go_x = can_step(ox, vx, cx);
    let go_y = can_step(oy, vy, cy);
    if go_x && (!go_y || x_first(ox, oy, vx, vy, cx, cy)) {
        let ncx = if vx > 0 {
            cx + 1
        } else {
            cx - 1
        };
        if !g.solid_at(ncx, cy) {
            lemma_walk_hit_axis(g, ox, oy, vx, vy, ncx, cy);
        }
    } else if go_y {
        let ncy = if vy > 0 {
            cy + 1
        } else {
            cy - 1
        };
        if !g.solid_at(cx, ncy) {
            lemma_walk_hit_axis(g, ox, oy, vx, vy, cx, ncy);
        }
    }
}

/// Raycast monotonicity: lengthening a blocked stop-early cast's vector by
/// any positive integer factor leaves the hit where it was — the same
/// crossing, the same point and the same contact normal — provided the
/// shorter segment does not end exactly on a cell corner. The traveled
/// distance is therefore pinned by the obstruction, and exactly the added
/// length goes into the clip.
pub proof fn lemma_cast_monotone(g: Grid, origin: Vec2, vector: Vec2, long: Vec2, k: int)
    requires
        k >= 1,
        long.x == k * vector.x,
        long.y == k * vector.y,
        !((origin.x + vector.x) % (CELL as int) == 0 && (origin.y + vector.y) % (CELL as int)
            == 0),
        !(cast_hit(g, origin, vector, true) is Full),
    ensures
        cast_hit(g, origin, long, true) == cast_hit(g, origin, vector, true),
        hit_point(origin, long, cast_hit(g, origin, long, true)) == hit_point(
            origin,
            vector,
            cast_hit(g, origin, vector, true),
        ),
        hit_normal(long, cast_hit(g, origin, long, true)) == hit_normal(
            vector,
            cast_hit(g, origin, vector, true),
        ),
{
    crate::geom::lemma_abs_scale(k, vector.x as int);
    crate::geom::lemma_abs_scale(k, vector.y as int);
    assert(!(vector.x == 0 && vector.y == 0));
    let scx = cell_of(origin.x as int);
    let scy = cell_of(origin.y as int);
    if g.solid_at(scx, scy) {
        assert(cast_hit(g, origin, vector, true) == HitSpec::AtStart);
        assert(cast_hit(g, origin, long, true) == HitSpec::AtStart);
    } else {
        lemma_walk_scale(
            g,
            origin.x as int,
            origin.y as int,
            vector.x as int,
            vector.y as int,
            k,
            scx,
            scy,
        );
        lemma_walk_hit_axis(
            g,
            origin.x as int,
            origin.y as int,
            vector.x as int,
            vector.y as int,
            scx,
            scy,
        );
        let h = cast_hit(g, origin, vector, true);
        match h {
            HitSpec::Vertical { bx } => {
                assert(long.y as int * (bx - origin.x) == k * (vector.y as int * (bx - origin.x)))
                    by (nonlinear_arith)
                    requires
                        long.y == k * vector.y;
                crate::geom::lemma_div_trunc_scale(
                    vector.y as int * (bx - origin.x),
                    vector.x as int,
                    k,
                );
            },
            HitSpec::Horizontal { by } => {
                assert(long.x as int * (by - origin.y) == k * (vector.x as int * (by - origin.y)))
                    by (nonlinear_arith)
                    requires
                        long.x == k * vector.x;
                crate::geom::lemma_div_trunc_scale(
                    vector.x as int * (by - origin.y),
                    vector.y as int,
                    k,
                );
            },
            _ => {},
        }
    }
}

/// Where the whole cast ends up: a zero vector stays at the origin, an
/// origin inside a solid cell is blocked at distance zero, anything else
/// walks the grid from the origin's cell.
pub open spec fn cast_hit(g: Grid, origin: Vec2, vector: Vec2, stop_early: bool) -> HitSpec {
    if vector.x == 0 && vector.y == 0 {
        HitSpec::Full
    } else if g.solid_at(cell_of(origin.x as int), cell_of(origin.y as int)) {
        HitSpec::AtStart
    } else {
        walk(
            g,
            origin.x as int,
            origin.y as int,
            vector.x as int,
            vector.y as int,
            cell_of(origin.x as int),
            cell_of(origin.y as int),
            stop_early,
            HitSpec::Full,
        )
    }
}

/// Where the cast ends for a given walk outcome: a boundary hit pins the
/// crossed coordinate exactly and places the other by the ray's slope,
/// evaluated with the same truncating division the executable uses.
pub open spec fn hit_point(origin: Vec2, vector: Vec2, h: HitSpec) -> (int, int) {
    match h {
        HitSpec::Full => (origin.x + vector.x, origin.y + vector.y),
        HitSpec::AtStart => (origin.x as int, origin.y as int),
        HitSpec::Vertical { bx } => (
            bx,
            origin.y + div_trunc(vector.y * (bx - origin.x), vector.x as int),
        ),
        HitSpec::Horizontal { by } => (
            origin.x + div_trunc(vector.x * (by - origin.y), vector.y as int),
            by,
        ),
    }
}

/// The outward face normal of the crossed boundary; a degenerate zero
/// normal for a cast blocked at its origin; absent when nothing was
/// struck.
pub open spec fn hit_normal(vector: Vec2, h: HitSpec) -> Option<Vec2> {
    match h {
        HitSpec::Full => None,
        HitSpec::AtStart => Some(Vec2 { x: 0i64, y: 0i64 }),
        HitSpec::Vertical { .. } => Some(
            Vec2 {
                x: if vector.x > 0 {
                    -1i64
                } else {
                    1i64
                },
                y: 0i64,
            },
        ),
        HitSpec::Horizontal { .. } => Some(
            Vec2 {
                x: 0i64,
                y: if vector.y > 0 {
                    -1i64
                } else {
                    1i64
                },
            },
        ),
    }
}

/// The walk accumulator that the executable loop carries.
pub open spec fn acc_spec(have: bool, vertical: bool, b: int) -> HitSpec {
    if !have {
        HitSpec::Full
    } else if vertical {
        HitSpec::Vertical { bx: b }
    } else {
        HitSpec::Horizontal { by: b }
    }
}

/// What a raycast reports: the resulting point, the clip (the remainder of
/// the requested vector that was not traveled), and, if a solid boundary
/// was struck, the outward contact normal of the crossed face.
#[derive(Clone, Copy, PartialEq, Eq, Structural, Debug)]
pub struct CastResult {
    pub point: Vec2,
    pub clip: Vec2,
    pub normal: Option<Vec2>,
}

impl CastResult {
    /// True iff the cast traveled the entire requested vector unobstructed.
    pub open spec fn full_spec(self) -> bool {
        self.normal is None
    }

    pub fn full(&self) -> (b: bool)
        ensures
            b == self.full_spec(),
    {
        self.normal.is_none()
    }

    /// The resulting point of the cast.
    pub fn into_point(self) -> (p: Vec2)
        ensures
            p == self.point,
    {
        self.point
    }
}

impl Grid {
    /// Cast a ray from `origin` along `vector` through the grid, walking
    /// cell boundaries in parametric order. The result's point always obeys
    /// `point == origin + (vector - clip)` and lies in the bounding box of
    /// the segment; the contact normal is present exactly when a solid
    /// boundary was struck. With `stop_early` the walk halts at the first
    /// solid crossing (the line-of-sight mode); without it the walk runs
    /// the whole vector and reports the last crossing from open into solid.
    pub fn ray_cast(&self, origin: Vec2, vector: Vec2, stop_early: bool) -> (r: CastResult)
        requires
            self.wf(),
            origin.bounded(COORD_LIMIT as int),
            vector.bounded(COORD_LIMIT as int),
        ensures
            r.point.x == hit_point(origin, vector, cast_hit(*self, origin, vector, stop_early)).0,
            r.point.y == hit_point(origin, vector, cast_hit(*self, origin, vector, stop_early)).1,
            r.normal == hit_normal(vector, cast_hit(*self, origin, vector, stop_early)),
            r.clip.x == origin.x + vector.x - r.point.x,
            r.clip.y == origin.y + vector.y - r.point.y,
            vector.x >= 0 ==> origin.x <= r.point.x <= origin.x + vector.x,
            vector.x < 0 ==> origin.x + vector.x <= r.point.x <= origin.x,
            vector.y >= 0 ==> origin.y <= r.point.y <= origin.y + vector.y,
            vector.y < 0 ==> origin.y + vector.y <= r.point.y <= origin.y,
    {
        if vector.x == 0 && vector.y == 0 {
            return CastResult { point: origin, clip: Vec2 { x: 0, y: 0 }, normal: None };
        }
        let (scx, scy) = Grid::snap(origin);
        if self.get(scx, scy).solid() {
            return CastResult { point: origin, clip: vector, normal: Some(Vec2 { x: 0, y: 0 }) };
        }
        let ox = origin.x;
        let oy = origin.y;
        let vx = vector.x;
        let vy = vector.y;
        let avx: i64 = if vx < 0 {
            -vx
        } else {
            vx
        };
        let avy: i64 = if vy < 0 {
            -vy
        } else {
            vy
        };
        let ghost g = *self;
        let ghost tx = cell_of(ox + vx);
        let ghost ty = cell_of(oy + vy);
        let ghost w_total = walk(
            g,
            ox as int,
            oy as int,
            vx as int,
            vy as int,
            scx as int,
            scy as int,
            stop_early,
            HitSpec::Full,
        );
        proof {
            lemma_cell_brackets(ox as int);
            lemma_cell_brackets(oy as int);
            lemma_cell_brackets(ox + vx);
            lemma_cell_brackets(oy + vy);
            assert(cast_hit(g, origin, vector, stop_early) == w_total);
        }
        let mut cx = scx;
        let mut cy = scy;
        let mut have_acc = false;
        let mut acc_vert = false;
        let mut acc_b: i64 = 0;
        let mut cur_solid = false;
        loop
            invariant
                self.wf(),
                g == *self,
                ox == origin.x && oy == origin.y && vx == vector.x && vy == vector.y,
                origin.bounded(COORD_LIMIT as int),
                vector.bounded(COORD_LIMIT as int),
                avx == abs_i(vx as int) && avy == abs_i(vy as int),
                !(vx == 0 && vy == 0),
                scx == cell_of(ox as int) && scy == cell_of(oy as int),
                tx == cell_of(ox + vx) && ty == cell_of(oy + vy),
                -0x4000_0000 <= scx <= 0x4000_0000,
                -0x4000_0000 <= scy <= 0x4000_0000,
                -0x4000_0000 <= tx <= 0x4000_0000,
                -0x4000_0000 <= ty <= 0x4000_0000,
                !g.solid_at(scx as int, scy as int),
                cast_hit(g, origin, vector, stop_early) == w_total,
                vx > 0 ==> scx <= cx <= tx,
                vx == 0 ==> cx == scx,
                vx < 0 ==> tx <= cx <= scx,
                vy > 0 ==> scy <= cy <= ty,
                vy == 0 ==> cy == scy,
                vy < 0 ==> ty <= cy <= scy,
                cur_solid == g.solid_at(cx as int, cy as int),
                stop_early ==> !cur_solid,
                have_acc ==> (acc_vert ==> vx != 0) && (!acc_vert ==> vy != 0),
                have_acc && acc_vert ==> (vx > 0 ==> ox <= acc_b <= ox + vx) && (vx < 0 ==> ox + vx
                    <= acc_b <= ox),
                have_acc && !acc_vert ==> (vy > 0 ==> oy <= acc_b <= oy + vy) && (vy < 0 ==> oy + vy
                    <= acc_b <= oy),
                walk(
                    g,
                    ox as int,
                    oy as int,
                    vx as int,
                    vy as int,
                    cx as int,
                    cy as int,
                    stop_early,
                    acc_spec(have_acc, acc_vert, acc_b as int),
                ) == w_total,
            ensures
                w_total == acc_spec(have_acc, acc_vert, acc_b as int),
                have_acc ==> (acc_vert ==> vx != 0) && (!acc_vert ==> vy != 0),
                have_acc && acc_vert ==> (vx > 0 ==> ox <= acc_b <= ox + vx) && (vx < 0 ==> ox + vx
                    <= acc_b <= ox),
                have_acc && !acc_vert ==> (vy > 0 ==> oy <= acc_b <= oy + vy) && (vy < 0 ==> oy + vy
                    <= acc_b <= oy),
            decreases dist_i(cx as int, tx) + dist_i(cy as int, ty),
        {
            let bx: i64 = if vx > 0 {
                (cx + 1) * CELL
            } else {
                cx * CELL
            };
            let by: i64 = if vy > 0 {
                (cy + 1) * CELL
            } else {
                cy * CELL
            };
            let dx: i64 = if vx > 0 {
                bx - ox
            } else {
                ox - bx
            };
            let dy: i64 = if vy > 0 {
                by - oy
            } else {
                oy - by
            };
            let go_x: bool = if vx > 0 {
                dx <= vx
            } else if vx < 0 {
                dx < avx
            } else {
                false
            };
            let go_y: bool = if vy > 0 {
                dy <= vy
            } else if vy < 0 {
                dy < avy
            } else {
                false
            };
            proof {
                lemma_cell_brackets(ox as int);
                lemma_cell_brackets(oy as int);
                assert(go_x == can_step(ox as int, vx as int, cx as int));
                assert(go_y == can_step(oy as int, vy as int, cy as int));
                assert(vx != 0 ==> dx >= 0);
                assert(vy != 0 ==> dy >= 0);
            }
            if !go_x && !go_y {
                break ;
            }
            let px = mul_i64(dx, avy);
            let py = mul_i64(dy, avx);
            let step_x: bool = go_x && (!go_y || px <= py);
            proof {
                if go_x && go_y {
                    assert((px <= py) == x_first(
                        ox as int,
                        oy as int,
                        vx as int,
                        vy as int,
                        cx as int,
                        cy as int,
                    ));
                }
            }
            if step_x {
                let ncx = if vx > 0 {
                    cx + 1
                } else {
                    cx - 1
                };
                let hit_solid = self.get(ncx, cy).solid();
                proof {
                    lemma_step_toward_target(ox as int, vx as int, cx as int);
                }
                if hit_solid && stop_early {
                    let t: i64 = bx - ox;
                    proof {
                        crate::geom::lemma_mul_abs_bound(
                            vy as int,
                            t as int,
                            COORD_LIMIT as int,
                            COORD_LIMIT as int,
                        );
                        lemma_hit_between(vy as int, t as int, vx as int);
                        assert(walk(
                            g,
                            ox as int,
                            oy as int,
                            vx as int,
                            vy as int,
                            cx as int,
                            cy as int,
                            stop_early,
                            acc_spec(have_acc, acc_vert, acc_b as int),
                        ) == HitSpec::Vertical { bx: bx as int });
                    }
                    let py_hit: i64 = oy + div_trunc_i128(mul_i64(vy, t), vx as i128) as i64;
                    let nrm = if vx > 0 {
                        Vec2 { x: -1, y: 0 }
                    } else {
                        Vec2 { x: 1, y: 0 }
                    };
                    return CastResult {
                        point: Vec2 { x: bx, y: py_hit },
                        clip: Vec2 { x: ox + vx - bx, y: oy + vy - py_hit },
                        normal: Some(nrm),
                    };
                }
                proof {
                    assert(walk(
                        g,
                        ox as int,
                        oy as int,
                        vx as int,
                        vy as int,
                        cx as int,
                        cy as int,
                        stop_early,
                        acc_spec(have_acc, acc_vert, acc_b as int),
                    ) == walk(
                        g,
                        ox as int,
                        oy as int,
                        vx as int,
                        vy as int,
                        ncx as int,
                        cy as int,
                        stop_early,
                        acc_spec(
                            have_acc || (hit_solid && !cur_solid),
                            if hit_solid && !cur_solid {
                                true
                            } else {
                                acc_vert
                            },
                            if hit_solid && !cur_solid {
                                bx as int
                            } else {
                                acc_b as int
                            },
                        ),
                    ));
                }
                if hit_solid && !cur_solid {
                    have_acc = true;
                    acc_vert = true;
                    acc_b = bx;
                }
                cur_solid = hit_solid;
                cx = ncx;
            } else {
                let ncy = if vy > 0 {
                    cy + 1
                } else {
                    cy - 1
                };
                let hit_solid = self.get(cx, ncy).solid();
                proof {
                    lemma_step_toward_target(oy as int, vy as int, cy as int);
                }
                if hit_solid && stop_early {
                    let t: i64 = by - oy;
                    proof {
                        crate::geom::lemma_mul_abs_bound(
                            vx as int,
                            t as int,
                            COORD_LIMIT as int,
                            COORD_LIMIT as int,
                        );
                        lemma_hit_between(vx as int, t as int, vy as int);
                        assert(walk(
                            g,
                            ox as int,
                            oy as int,
                            vx as int,
                            vy as int,
                            cx as int,
                            cy as int,
                            stop_early,
                            acc_spec(have_acc, acc_vert, acc_b as int),
                        ) == HitSpec::Horizontal { by: by as int });
                    }
                    let px_hit: i64 = ox + div_trunc_i128(mul_i64(vx, t), vy as i128) as i64;
                    let nrm = if vy > 0 {
                        Vec2 { x: 0, y: -1 }
                    } else {
                        Vec2 { x: 0, y: 1 }
                    };
                    return CastResult {
                        point: Vec2 { x: px_hit, y: by },
                        clip: Vec2 { x: ox + vx - px_hit, y: oy + vy - by },
                        normal: Some(nrm),
                    };
                }
                proof {
                    assert(walk(
                        g,
                        ox as int,
                        oy as int,
                        vx as int,
                        vy as int,
                        cx as int,
                        cy as int,
                        stop_early,
                        acc_spec(have_acc, acc_vert, acc_b as int),
                    ) == walk(
                        g,
                        ox as int,
                        oy as int,
                        vx as int,
                        vy as int,
                        cx as int,
                        ncy as int,
                        stop_early,
                        acc_spec(
                            have_acc || (hit_solid && !cur_solid),
                            if hit_solid && !cur_solid {
                                false
                            } else {
                                acc_vert
                            },
                            if hit_solid && !cur_solid {
                                by as int
                            } else {
                                acc_b as int
                            },
                        ),
                    ));
                }
                if hit_solid && !cur_solid {
                    have_acc = true;
                    acc_vert = false;
                    acc_b = by;
                }
                cur_solid = hit_solid;
                cy = ncy;
            }
        }
        if !have_acc {
            return CastResult {
                point: Vec2 { x: ox + vx, y: oy + vy },
                clip: Vec2 { x: 0, y: 0 },
                normal: None,
            };
        }
        if acc_vert {
            let t: i64 = acc_b - ox;
            proof {
                crate::geom::lemma_mul_abs_bound(
                    vy as int,
                    t as int,
                    COORD_LIMIT as int,
                    COORD_LIMIT as int,
                );
                lemma_hit_between(vy as int, t as int, vx as int);
            }
            let py_hit: i64 = oy + div_trunc_i128(mul_i64(vy, t), vx as i128) as i64;
            let nrm = if vx > 0 {
                Vec2 { x: -1, y: 0 }
            } else {
                Vec2 { x: 1, y: 0 }
            };
            CastResult {
                point: Vec2 { x: acc_b, y: py_hit },
                clip: Vec2 { x: ox + vx - acc_b, y: oy + vy - py_hit },
                normal: Some(nrm),
            }
        } else {
            let t: i64 = acc_b - oy;
            proof {
                crate::geom::lemma_mul_abs_bound(
                    vx as int,
                    t as int,
                    COORD_LIMIT as int,
                    COORD_LIMIT as int,
                );
                lemma_hit_between(vx as int, t as int, vy as int);
            }
            let px_hit: i64 = ox + div_trunc_i128(mul_i64(vx, t), vy as i128) as i64;
            let nrm = if vy > 0 {
                Vec2 { x: 0, y: -1 }
            } else {
                Vec2 { x: 0, y: 1 }
            };
            CastResult {
                point: Vec2 { x: px_hit, y: acc_b },
                clip: Vec2 { x: ox + vx - px_hit, y: oy + vy - acc_b },
                normal: Some(nrm),
            }
        }
    }
}

} // verus!
