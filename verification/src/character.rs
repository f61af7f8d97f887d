//! Characters as the projectile and the explosion resolver see them: a
//! positioned body and a mutable health accepting damage applications.

use vstd::prelude::*;

use crate::geom::{div_trunc, div_trunc_i128, mul_i64};
use crate::object::Object;

verus! {

/// The widest health magnitude the damage arithmetic accepts, in
/// thousandths of a hit point.
pub const HEALTH_LIMIT: i64 = 0x4000_0000_0000;

/// A mutable health pool in thousandths of a hit point.
#[derive(Clone, Copy, PartialEq, Eq, Structural, Debug)]
pub struct Health {
    pub hp: i64,
}

impl Health {
    /// Apply a weapon damage application: `amount` thousandths of a hit
    /// point, scaled by a penetration factor in thousandths. The health
    /// drops by exactly `amount * penetration / 1000` (truncated).
    pub fn weapon_damage(&mut self, amount: i64, penetration: i64)
        requires
            0 <= amount <= 1_000_000_000,
            0 <= penetration <= 1000,
            -HEALTH_LIMIT <= old(self).hp <= HEALTH_LIMIT,
        ensures
            final(self).hp == old(self).hp - div_trunc(amount * penetration, 1000),
    {
        proof {
            crate::geom::lemma_mul_abs_bound(amount as int, penetration as int, 1_000_000_000, 1000);
        }
        let d = div_trunc_i128(mul_i64(amount, penetration), 1000) as i64;
        self.hp = self.hp - d;
    }
}

/// The player, as the grenade logic needs it: a body and a health.
#[derive(Clone, Copy, PartialEq, Eq, Structural, Debug)]
pub struct Player {
    pub obj: Object,
    pub health: Health,
}

/// An enemy wraps the same body-and-health pair.
#[derive(Clone, Copy, PartialEq, Eq, Structural, Debug)]
pub struct Enemy {
    pub pl: Player,
}

} // verus!
