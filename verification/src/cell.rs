//! Terrain kinds and the cells that carry them.

use vstd::prelude::*;

verus! {

/// One whole, in the fixed-point scale used for altitudes and other samples.
pub const UNIT: u32 = 1_000_000;

/// The closed set of terrain kinds.
#[derive(Clone, Copy, Debug, PartialEq, Eq, Structural)]
pub enum CellType {
    Grass,
    Dirt,
    Tree,
    River,
    Water,
    MediumWater,
    DeepWater,
    Sand,
    Snow,
    Mountain,
    MediumMountain,
    HighMountain,
    Tundra,
    ShallowWater,
    Ice,
    Cliff,
    MediumCliff,
    Lake,
}

impl CellType {
    /// Cost of crossing one cell of this kind.
    pub open spec fn weight(self) -> int {
        match self {
            CellType::Grass => 1,
            CellType::Dirt => 1,
            CellType::Tree => 5,
            CellType::River => 6,
            CellType::Water => 5,
            CellType::MediumWater => 10,
            CellType::DeepWater => 20,
            CellType::Sand => 2,
            CellType::Snow => 2,
            CellType::Mountain => 100,
            CellType::MediumMountain => 200,
            CellType::HighMountain => 300,
            CellType::Tundra => 2,
            CellType::ShallowWater => 2,
            CellType::Ice => 3,
            CellType::Cliff => 5,
            CellType::MediumCliff => 5,
            CellType::Lake => 5,
        }
    }

    /// Standing or open water: a river that meets one of these has arrived.
    pub open spec fn is_water(self) -> bool {
        self == CellType::Lake || self == CellType::Water || self == CellType::ShallowWater
            || self == CellType::MediumWater || self == CellType::DeepWater
    }

    /// High relief from which a river may spring.
    pub open spec fn is_river_source(self) -> bool {
        self == CellType::Cliff || self == CellType::MediumCliff || self == CellType::Mountain
            || self == CellType::MediumMountain || self == CellType::HighMountain
    }

    /// The traversal cost of this kind of terrain.
    pub fn get_weight(&self) -> (w: i32)
        ensures
            w == self.weight(),
    {
        match self {
            CellType::Grass => 1,
            CellType::Water => 5,
            CellType::Sand => 2,
            CellType::Snow => 2,
            CellType::Mountain => 100,
            CellType::DeepWater => 20,
            CellType::MediumWater => 10,
            CellType::River => 6,
            CellType::Tundra => 2,
            CellType::MediumMountain => 200,
            CellType::HighMountain => 300,
            CellType::Dirt => 1,
            CellType::ShallowWater => 2,
            CellType::Tree => 5,
            CellType::Ice => 3,
            CellType::Cliff => 5,
            CellType::MediumCliff => 5,
            CellType::Lake => 5,
        }
    }

    /// Whether this kind is a body of water that ends a river.
    pub fn water(&self) -> (b: bool)
        ensures
            b == self.is_water(),
    {
        matches!(
            self,
            CellType::Lake | CellType::Water | CellType::ShallowWater | CellType::MediumWater
                | CellType::DeepWater
        )
    }

    /// Whether a river may start on this kind of terrain.
    pub fn river_source(&self) -> (b: bool)
        ensures
            b == self.is_river_source(),
    {
        matches!(
            self,
            CellType::Cliff | CellType::MediumCliff | CellType::Mountain
                | CellType::MediumMountain | CellType::HighMountain
        )
    }
}

/// One grid position: its terrain, its sampled altitude, and how far that
/// altitude lies above the threshold of the band that classified it. Both
/// altitudes are in millionths.
#[derive(Clone, Copy, Debug, PartialEq, Eq, Structural)]
pub struct Cell {
    pub cell_type: CellType,
    pub altitude: u32,
    pub relative_altitude: u32,
}

} // verus!
