//! The minimal positioned entity shared by every movable game thing: a
//! position and a heading, with grid-aware movement.

use vstd::prelude::*;

use crate::geom::{
    abs_i, div_trunc, div_trunc_i128, isqrt, lemma_mul_abs_bound, mul_i64, Vec2, COORD_LIMIT,
    MU_PER_UNIT,
};
use crate::grid::{cell_of, Grid, CELL};

verus! {

/// The widest tick length the integrators accept, in milliseconds.
pub const TICK_LIMIT_MS: u32 = 1000;

/// The fastest speed the movement helpers accept, in world units per
/// second.
pub const SPEED_LIMIT: i64 = 0x400_0000;

/// A positioned, rotated entity. The heading is a fixed-point unit
/// direction vector scaled by `MU_PER_UNIT`, so `(1000, 0)` is a zero
/// rotation along the x-axis; converting an angle in radians to and from
/// this vector is the rendering layer's concern.
#[derive(Clone, Copy, PartialEq, Eq, Structural, Debug)]
pub struct Object {
    /// World position in milliunits.
    pub pos: Vec2,
    /// Unit heading direction scaled by `MU_PER_UNIT`.
    pub heading: Vec2,
}

/// The direction actually traveled after the solidity probes: each
/// component of `v` is zeroed when the cell 16 units ahead along that
/// component is solid.
pub open spec fn masked_dir(pos: Vec2, v: Vec2, grid: Grid) -> (int, int) {
    (
        if v.x != 0 && grid.solid_at(cell_of(pos.x + 16 * v.x), cell_of(pos.y as int)) {
            0
        } else {
            v.x as int
        },
        if v.y != 0 && grid.solid_at(cell_of(pos.x as int), cell_of(pos.y + 16 * v.y)) {
            0
        } else {
            v.y as int
        },
    )
}

impl Object {
    /// A new object at `pos`, heading along the positive x-axis.
    pub fn new(pos: Vec2) -> (o: Object)
        ensures
            o.pos == pos,
            o.heading == (Vec2 { x: 1000i64, y: 0i64 }),
    {
        Object { pos, heading: Vec2 { x: 1000, y: 0 } }
    }

    /// Whether the object's position is inside a solid cell.
    pub fn is_on_solid(&self, grid: &Grid) -> (b: bool)
        requires
            grid.wf(),
            self.pos.bounded(COORD_LIMIT as int),
        ensures
            b == grid.solid_at(cell_of(self.pos.x as int), cell_of(self.pos.y as int)),
    {
        let (x, y) = Grid::snap(self.pos);
        grid.get(x, y).solid()
    }

    /// Walk along the input direction `v` (a unit-scale vector in
    /// milliunits): a component is dropped when the cell 16 units ahead of
    /// it is solid, the rest is normalized by the integer square root of
    /// its squared length, and the position advances by `speed` world
    /// units per second over `dt` milliseconds.
    pub fn move_on_grid(&mut self, v: Vec2, speed: i64, grid: &Grid, dt: u32)
        requires
            grid.wf(),
            old(self).pos.bounded(COORD_LIMIT as int - 2 * CELL),
            v.bounded(2 * MU_PER_UNIT as int),
            0 <= speed <= SPEED_LIMIT,
            dt <= TICK_LIMIT_MS,
        ensures
            final(self).heading == old(self).heading,
            ({
                let (mx, my) = masked_dir(old(self).pos, v, *grid);
                if mx == 0 && my == 0 {
                    final(self).pos == old(self).pos
                } else {
                    exists|n: int|
                        {
                            &&& 1 <= n
                            &&& #[trigger] (n * n) <= mx * mx + my * my < (n + 1) * (n + 1)
                            &&& final(self).pos.x == old(self).pos.x + div_trunc(
                                mx * speed * dt,
                                n,
                            )
                            &&& final(self).pos.y == old(self).pos.y + div_trunc(
                                my * speed * dt,
                                n,
                            )
                        }
                }
            }),
    {
        let mut mx: i64 = v.x;
        let mut my: i64 = v.y;
        if v.x != 0 {
            let probe = Vec2 { x: self.pos.x + 16 * v.x, y: self.pos.y };
            let (px, py) = Grid::snap(probe);
            if grid.get(px, py).solid() {
                mx = 0;
            }
        }
        if v.y != 0 {
            let probe = Vec2 { x: self.pos.x, y: self.pos.y + 16 * v.y };
            let (px, py) = Grid::snap(probe);
            if grid.get(px, py).solid() {
                my = 0;
            }
        }
        proof {
            assert((mx as int, my as int) == masked_dir(old(self).pos, v, *grid));
        }
        if mx == 0 && my == 0 {
            return ;
        }
        proof {
            lemma_mul_abs_bound(mx as int, mx as int, 2000, 2000);
            lemma_mul_abs_bound(my as int, my as int, 2000, 2000);
            assert(abs_i(mx as int * mx as int) <= 4000000);
            assert(abs_i(my as int * my as int) <= 4000000);
            assert(mx as int * mx as int + my as int * my as int >= 1) by (nonlinear_arith)
                requires
                    !(mx == 0 && my == 0);
        }
        let n2: i64 = mx * mx + my * my;
        let norm: u64 = isqrt(n2 as u64);
        proof {
            assert(n2 >= 1);
            assert(norm >= 1) by (nonlinear_arith)
                requires
                    norm as int * norm as int <= n2 as int,
                    n2 >= 1,
                    (n2 as int) < ((norm as int) + 1) * ((norm as int) + 1);
            lemma_mul_abs_bound(mx as int, speed as int, 2 * MU_PER_UNIT as int, SPEED_LIMIT as int);
            lemma_mul_abs_bound(my as int, speed as int, 2 * MU_PER_UNIT as int, SPEED_LIMIT as int);
            lemma_mul_abs_bound(
                mx as int * speed as int,
                dt as int,
                2 * MU_PER_UNIT as int * SPEED_LIMIT as int,
                TICK_LIMIT_MS as int,
            );
            lemma_mul_abs_bound(
                my as int * speed as int,
                dt as int,
                2 * MU_PER_UNIT as int * SPEED_LIMIT as int,
                TICK_LIMIT_MS as int,
            );
        }
        let num_x: i128 = mul_i64(mx, speed) * (dt as i128);
        let num_y: i128 = mul_i64(my, speed) * (dt as i128);
        let dx = div_trunc_i128(num_x, norm as i128) as i64;
        let dy = div_trunc_i128(num_y, norm as i128) as i64;
        self.pos = Vec2 { x: self.pos.x + dx, y: self.pos.y + dy };
    }
}

} // verus!
