//! The closed table of terrain surface kinds. Each material carries a
//! solidity flag and a sprite identifier, and persists as a single byte
//! holding its numeric identifier; unrecognized bytes degrade to the
//! designated `Missing` fallback instead of failing a load.

use vstd::prelude::*;

verus! {

#[derive(Clone, Copy, PartialEq, Eq, Structural, Debug)]
pub enum Material {
    Grass,
    Dirt,
    Floor,
    Wall,
    Asphalt,
    Sand,
    Concrete,
    WoodFloor,
    Stairs,
    /// Fallback for unrecognized persisted identifiers; also the designated
    /// boundary material that out-of-range grid queries return.
    Missing,
}

impl Material {
    /// Whether this material blocks motion and raycasts.
    pub open spec fn solid_spec(self) -> bool {
        self is Wall || self is Missing
    }

    pub fn solid(&self) -> (b: bool)
        ensures
            b == self.solid_spec(),
    {
        match self {
            Material::Wall | Material::Missing => true,
            _ => false,
        }
    }

    /// The numeric identifier under which this material persists.
    pub open spec fn id_spec(self) -> u8 {
        match self {
            Material::Grass => 0,
            Material::Dirt => 1,
            Material::Floor => 2,
            Material::Wall => 3,
            Material::Asphalt => 4,
            Material::Sand => 5,
            Material::Concrete => 6,
            Material::WoodFloor => 7,
            Material::Stairs => 8,
            Material::Missing => 255,
        }
    }

    /// Serialize as the single identifier byte.
    pub fn to_byte(self) -> (b: u8)
        ensures
            b == self.id_spec(),
    {
        match self {
            Material::Grass => 0,
            Material::Dirt => 1,
            Material::Floor => 2,
            Material::Wall => 3,
            Material::Asphalt => 4,
            Material::Sand => 5,
            Material::Concrete => 6,
            Material::WoodFloor => 7,
            Material::Stairs => 8,
            Material::Missing => 255,
        }
    }

    /// The material a persisted byte denotes: every known identifier maps to
    /// its material, anything else to the `Missing` fallback.
    pub open spec fn of_byte_spec(b: u8) -> Material {
        if b == 0 {
            Material::Grass
        } else if b == 1 {
            Material::Dirt
        } else if b == 2 {
            Material::Floor
        } else if b == 3 {
            Material::Wall
        } else if b == 4 {
            Material::Asphalt
        } else if b == 5 {
            Material::Sand
        } else if b == 6 {
            Material::Concrete
        } else if b == 7 {
            Material::WoodFloor
        } else if b == 8 {
            Material::Stairs
        } else {
            Material::Missing
        }
    }

    /// Deserialize a persisted byte, degrading unknown identifiers to
    /// `Missing` rather than failing.
    pub fn from_byte(b: u8) -> (m: Material)
        ensures
            m == Material::of_byte_spec(b),
    {
        match b {
            0 => Material::Grass,
            1 => Material::Dirt,
            2 => Material::Floor,
            3 => Material::Wall,
            4 => Material::Asphalt,
            5 => Material::Sand,
            6 => Material::Concrete,
            7 => Material::WoodFloor,
            8 => Material::Stairs,
            _ => Material::Missing,
        }
    }

    /// The sprite identifier under which the renderer draws this material.
    pub fn get_spr(&self) -> (s: &'static str)
        ensures
            self is Grass ==> s@ == "materials/grass"@,
            self is Dirt ==> s@ == "materials/dirt"@,
            self is Floor ==> s@ == "materials/floor"@,
            self is Wall ==> s@ == "materials/wall"@,
            self is Asphalt ==> s@ == "materials/asphalt"@,
            self is Sand ==> s@ == "materials/sand"@,
            self is Concrete ==> s@ == "materials/concrete"@,
            self is WoodFloor ==> s@ == "materials/wood_floor"@,
            self is Stairs ==> s@ == "materials/stairs"@,
            self is Missing ==> s@ == "materials/missing"@,
    {
        match self {
            Material::Grass => "materials/grass",
            Material::Dirt => "materials/dirt",
            Material::Floor => "materials/floor",
            Material::Wall => "materials/wall",
            Material::Asphalt => "materials/asphalt",
            Material::Sand => "materials/sand",
            Material::Concrete => "materials/concrete",
            Material::WoodFloor => "materials/wood_floor",
            Material::Stairs => "materials/stairs",
            Material::Missing => "materials/missing",
        }
    }
}

/// Persisting a material and reading the byte back always restores the
/// same material: the byte codec round-trips on every member of the table.
pub proof fn lemma_material_byte_round_trip(m: Material)
    ensures
        Material::of_byte_spec(m.id_spec()) == m,
{
}

} // verus!
