//! Classification of one cell from its noise samples.
//!
//! Altitude is the primary axis. The bands are tried from the highest down and
//! the first that matches wins; temperature, vegetation and the two bias
//! fields only matter between the water line and the cliffs.

use vstd::prelude::*;
use crate::cell::{Cell, CellType};

verus! {

/// Above this altitude everything is snow.
pub const SNOW_LINE: u32 = 850_000;

/// Lower edge of the high mountains.
pub const HIGH_MOUNTAIN_LINE: u32 = 810_000;

/// Lower edge of the medium mountains.
pub const MEDIUM_MOUNTAIN_LINE: u32 = 800_000;

/// Lower edge of the mountains.
pub const MOUNTAIN_LINE: u32 = 780_000;

/// Lower edge of the band in which cliffs may form.
pub const CLIFF_LINE: u32 = 650_000;

/// Lower edge of dry land.
pub const LAND_LINE: u32 = 600_000;

/// Lower edge of the strip in which beaches may form.
pub const BEACH_LINE: u32 = 590_000;

/// Lower edge of the shallows.
pub const SHORE_LINE: u32 = 560_000;

/// Lower edge of open water.
pub const WATER_LINE: u32 = 520_000;

/// Lower edge of medium-deep water; everything below is deep.
pub const MEDIUM_WATER_LINE: u32 = 480_000;

/// Cliff bias above which a cliff is a medium cliff.
pub const MEDIUM_CLIFF_BIAS: u32 = 950_000;

/// Cliff bias above which a cliff forms at all.
pub const CLIFF_BIAS: u32 = 800_000;

/// Beach bias above which the beach strip turns to sand.
pub const BEACH_BIAS: u32 = 650_000;

/// Temperature above which dry land is sand.
pub const HOT: u32 = 700_000;

/// Temperature above which dry land is bare dirt.
pub const WARM: u32 = 500_000;

/// Temperature above which dry land is green, and beaches can form.
pub const MILD: u32 = 400_000;

/// Temperature above which dry land is tundra and the shallows stay liquid.
pub const COLD: u32 = 300_000;

/// Vegetation above which green land is wooded.
pub const WOODED: u32 = 600_000;

/// The noise samples of one grid position, each nominally between nothing
/// and one whole, in millionths.
#[derive(Clone, Copy, Debug, PartialEq, Eq, Structural)]
pub struct Samples {
    pub altitude: u32,
    pub temperature: u32,
    pub vegetation: u32,
    pub beach_bias: u32,
    pub cliff_bias: u32,
}

/// Terrain of dry land below the cliffs, which temperature decides.
pub open spec fn land_type(temperature: u32, vegetation: u32) -> CellType {
    if temperature > HOT {
        CellType::Sand
    } else if temperature > WARM {
        CellType::Dirt
    } else if temperature > MILD {
        if vegetation > WOODED {
            CellType::Tree
        } else {
            CellType::Grass
        }
    } else if temperature > COLD {
        CellType::Tundra
    } else {
        CellType::Snow
    }
}

/// Terrain of the strip between the water line and dry land.
pub open spec fn shore_type(s: Samples) -> CellType {
    if s.altitude > BEACH_LINE && s.beach_bias > BEACH_BIAS && s.temperature > MILD {
        CellType::Sand
    } else if s.temperature > COLD {
        CellType::ShallowWater
    } else {
        CellType::Ice
    }
}

/// The threshold from which the relative altitude of a cell is measured: the
/// lower bound of the altitude band that the samples fall in.
pub open spec fn band_floor(s: Samples) -> int {
    if s.altitude > SNOW_LINE {
        SNOW_LINE as int
    } else if s.altitude > HIGH_MOUNTAIN_LINE {
        HIGH_MOUNTAIN_LINE as int
    } else if s.altitude > MEDIUM_MOUNTAIN_LINE {
        MEDIUM_MOUNTAIN_LINE as int
    } else if s.altitude > MOUNTAIN_LINE {
        MOUNTAIN_LINE as int
    } else if s.altitude > CLIFF_LINE && s.cliff_bias > CLIFF_BIAS {
        CLIFF_LINE as int
    } else if s.altitude > LAND_LINE {
        LAND_LINE as int
    } else if s.altitude > SHORE_LINE {
        SHORE_LINE as int
    } else if s.altitude > WATER_LINE {
        WATER_LINE as int
    } else if s.altitude > MEDIUM_WATER_LINE {
        MEDIUM_WATER_LINE as int
    } else {
        0
    }
}

/// The terrain that the samples are classified as.
pub open spec fn band_type(s: Samples) -> CellType {
    if s.altitude > SNOW_LINE {
        CellType::Snow
    } else if s.altitude > HIGH_MOUNTAIN_LINE {
        CellType::HighMountain
    } else if s.altitude > MEDIUM_MOUNTAIN_LINE {
        CellType::MediumMountain
    } else if s.altitude > MOUNTAIN_LINE {
        CellType::Mountain
    } else if s.altitude > CLIFF_LINE && s.cliff_bias > MEDIUM_CLIFF_BIAS {
        CellType::MediumCliff
    } else if s.altitude > CLIFF_LINE && s.cliff_bias > CLIFF_BIAS {
        CellType::Cliff
    } else if s.altitude > LAND_LINE {
        land_type(s.temperature, s.vegetation)
    } else if s.altitude > SHORE_LINE {
        shore_type(s)
    } else if s.altitude > WATER_LINE {
        CellType::Water
    } else if s.altitude > MEDIUM_WATER_LINE {
        CellType::MediumWater
    } else {
        CellType::DeepWater
    }
}

/// The cell that the samples give rise to.
pub open spec fn classified(s: Samples) -> Cell {
    Cell {
        cell_type: band_type(s),
        altitude: s.altitude,
        relative_altitude: (s.altitude - band_floor(s)) as u32,
    }
}

/// The relative altitude of a freshly classified cell is never negative: the
/// floor of its band lies at or below its altitude.
pub proof fn lemma_relative_altitude_nonnegative(s: Samples)
    ensures
        0 <= band_floor(s) <= s.altitude,
        classified(s).relative_altitude == s.altitude - band_floor(s),
        classified(s).relative_altitude >= 0,
{
}

/// Deep water lies at or below the medium-water line, and everything at or
/// below that line is deep water.
pub proof fn lemma_deep_water_is_low(s: Samples)
    ensures
        band_type(s) == CellType::DeepWater <==> s.altitude <= MEDIUM_WATER_LINE,
{
}

/// Snow whose relative altitude is measured from the snow line lies above the
/// snow line, and everything above that line is such snow.
pub proof fn lemma_top_band_snow_is_high(s: Samples)
    ensures
        band_type(s) == CellType::Snow && band_floor(s) == SNOW_LINE <==> s.altitude > SNOW_LINE,
{
}

/// Classification alone never produces a river or a lake.
pub proof fn lemma_classified_is_neither_river_nor_lake(s: Samples)
    ensures
        band_type(s) != CellType::River,
        band_type(s) != CellType::Lake,
{
}

/// River sources are exactly the cells between the mountain line and the
/// snow line, and the cells between the cliff line and the mountain line
/// whose cliff bias lets a cliff form.
pub proof fn lemma_river_sources_are_high(s: Samples)
    ensures
        band_type(s).is_river_source() <==> (MOUNTAIN_LINE < s.altitude <= SNOW_LINE) || (CLIFF_LINE
            < s.altitude <= MOUNTAIN_LINE && s.cliff_bias > CLIFF_BIAS),
{
}

/// Classifies one position from its five samples: the terrain of the first
/// band that matches, and the altitude's offset above that band's floor.
pub fn classify(
    altitude: u32,
    temperature: u32,
    vegetation: u32,
    beach_bias: u32,
    cliff_bias: u32,
) -> (r: (CellType, u32))
    ensures
        r.0 == band_type(Samples { altitude, temperature, vegetation, beach_bias, cliff_bias }),
        r.1 == altitude - band_floor(
            Samples { altitude, temperature, vegetation, beach_bias, cliff_bias },
        ),
{
    if altitude > SNOW_LINE {
        (CellType::Snow, altitude - SNOW_LINE)
    } else if altitude > HIGH_MOUNTAIN_LINE {
        (CellType::HighMountain, altitude - HIGH_MOUNTAIN_LINE)
    } else if altitude > MEDIUM_MOUNTAIN_LINE {
        (CellType::MediumMountain, altitude - MEDIUM_MOUNTAIN_LINE)
    } else if altitude > MOUNTAIN_LINE {
        (CellType::Mountain, altitude - MOUNTAIN_LINE)
    } else if altitude > CLIFF_LINE && cliff_bias > MEDIUM_CLIFF_BIAS {
        (CellType::MediumCliff, altitude - CLIFF_LINE)
    } else if altitude > CLIFF_LINE && cliff_bias > CLIFF_BIAS {
        (CellType::Cliff, altitude - CLIFF_LINE)
    } else if altitude > LAND_LINE {
        let land = if temperature > HOT {
            CellType::Sand
        } else if temperature > WARM {
            CellType::Dirt
        } else if temperature > MILD {
            if vegetation > WOODED {
                CellType::Tree
            } else {
                CellType::Grass
            }
        } else if temperature > COLD {
            CellType::Tundra
        } else {
            CellType::Snow
        };
        (land, altitude - LAND_LINE)
    } else if altitude > BEACH_LINE && beach_bias > BEACH_BIAS && temperature > MILD {
        (CellType::Sand, altitude - SHORE_LINE)
    } else if altitude > SHORE_LINE && temperature > COLD {
        (CellType::ShallowWater, altitude - SHORE_LINE)
    } else if altitude > SHORE_LINE {
        (CellType::Ice, altitude - SHORE_LINE)
    } else if altitude > WATER_LINE {
        (CellType::Water, altitude - WATER_LINE)
    } else if altitude > MEDIUM_WATER_LINE {
        (CellType::MediumWater, altitude - MEDIUM_WATER_LINE)
    } else {
        (CellType::DeepWater, altitude)
    }
}

/// Classifies one position into a cell.
pub fn classify_cell(s: &Samples) -> (cell: Cell)
    ensures
        cell == classified(*s),
{
    let (cell_type, relative_altitude) = classify(
        s.altitude,
        s.temperature,
        s.vegetation,
        s.beach_bias,
        s.cliff_bias,
    );
    Cell { cell_type, altitude: s.altitude, relative_altitude }
}

} // verus!
