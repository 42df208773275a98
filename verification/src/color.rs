//! Shading: from a cell's terrain and relative altitude to its colour.
//!
//! Every terrain has a base colour and one of three shading curves. Land
//! and water brighten with height, water much faster; rock darkens. All
//! three give the exact value of their formula rounded down to a whole
//! colour step and cut off at 0 and 255.

use vstd::prelude::*;
use crate::cell::{Cell, CellType, UNIT};
use crate::grid::{Grid, World};

verus! {

/// How fast land brightens with height, in tenths.
pub const LAND_GAIN: u32 = 14;

/// How fast water and ice brighten with height, in tenths.
pub const WATER_GAIN: u32 = 70;

/// The three shading curves.
#[derive(Clone, Copy, Debug, PartialEq, Eq, Structural)]
pub enum Shading {
    /// Brightens with height, for land.
    Brighten,
    /// Brightens steeply with height, for water and ice.
    BrightenWater,
    /// Darkens with height, for mountains and cliffs.
    Darken,
}

/// The cube of a number.
pub open spec fn cube(x: int) -> int {
    x * x * x
}

/// A channel brightened by height: `channel / (1 - height * gain)` with the
/// height in millionths and the gain in tenths, rounded down and cut off at
/// 0 and 255. Where the divisor is nothing the value is beyond every bound,
/// and where it is negative so is the value.
pub open spec fn brightened(channel: int, height: int, gain: int) -> int {
    let whole = 10 * UNIT;
    let rest = whole - gain * height;
    if rest > 0 {
        if channel * whole / rest > 255 {
            255
        } else {
            channel * whole / rest
        }
    } else if rest == 0 && channel > 0 {
        255
    } else {
        0
    }
}

/// Whether taking `drop` colour steps off a channel darkens it at least as
/// much as the height asks for: `drop >= channel * cbrt(height)`.
pub open spec fn drops_enough(channel: int, height: int, drop: int) -> bool {
    cube(drop) * UNIT >= cube(channel) * height
}

/// The least number of colour steps from `from` on that darkens the channel
/// enough, and the whole channel if none below it does.
pub open spec fn drop_from(channel: int, height: int, from: int) -> int
    decreases channel - from,
{
    if from >= channel || drops_enough(channel, height, from) {
        from
    } else {
        drop_from(channel, height, from + 1)
    }
}

/// A channel darkened by height: `channel * (1 - cbrt(height))` with the
/// height in millionths, rounded down and cut off at 0.
pub open spec fn darkened(channel: int, height: int) -> int {
    channel - drop_from(channel, height, 0)
}

/// Cubes grow with their root.
pub proof fn lemma_cube_monotonic(a: int, b: int)
    requires
        a <= b,
    ensures
        cube(a) <= cube(b),
{
    assert(a * a * a <= b * b * b) by (nonlinear_arith)
        requires
            a <= b,
    {
        if a >= 0 {
            assert(a * a <= b * b);
            assert(a * a * a <= b * b * a);
            assert(b * b * a <= b * b * b);
        } else if b <= 0 {
            assert(a * a >= b * b);
            assert(a * a * a <= b * b * a);
            assert(b * b * a <= b * b * b);
        } else {
            assert(a * a * a <= 0);
            assert(b * b * b >= 0);
        }
    }
}

/// If fewer steps than `drop` never darken enough, and `drop` does or is the
/// whole channel, then `drop` is where the search from `from` ends.
pub proof fn lemma_drop_found(channel: int, height: int, from: int, drop: int)
    requires
        0 <= from <= drop <= channel,
        forall|m: int| from <= m < drop ==> !drops_enough(channel, height, m),
        drop == channel || drops_enough(channel, height, drop),
    ensures
        drop_from(channel, height, from) == drop,
    decreases drop - from,
{
    if from < drop {
        lemma_drop_found(channel, height, from + 1, drop);
    }
}

/// The search from `from` ends between `from` and the whole channel, on the
/// first number of steps that darkens enough.
pub proof fn lemma_drop_from(channel: int, height: int, from: int)
    requires
        0 <= from <= channel,
    ensures
        from <= drop_from(channel, height, from) <= channel,
        forall|m: int|
            from <= m < drop_from(channel, height, from) ==> !drops_enough(channel, height, m),
        drop_from(channel, height, from) < channel ==> drops_enough(
            channel,
            height,
            drop_from(channel, height, from),
        ),
    decreases channel - from,
{
    if !(from >= channel || drops_enough(channel, height, from)) {
        lemma_drop_from(channel, height, from + 1);
    }
}

/// All three shading curves stay between 0 and 255 on every channel and at
/// every height.
pub proof fn lemma_shades_clamped(channel: int, height: int)
    requires
        0 <= channel <= 255,
        0 <= height,
    ensures
        0 <= brightened(channel, height, LAND_GAIN as int) <= 255,
        0 <= brightened(channel, height, WATER_GAIN as int) <= 255,
        0 <= darkened(channel, height) <= 255,
{
    lemma_brightened(channel, height, LAND_GAIN as int);
    lemma_brightened(channel, height, WATER_GAIN as int);
    lemma_drop_from(channel, height, 0);
}

/// A brightened channel stays between 0 and 255. While the divisor is
/// positive it is the quotient rounded down, cut off at 255, and never
/// darker than the channel was.
pub proof fn lemma_brightened(channel: int, height: int, gain: int)
    requires
        0 <= channel <= 255,
        0 <= height,
        0 <= gain,
    ensures
        0 <= brightened(channel, height, gain) <= 255,
        gain * height < 10 * UNIT ==> channel <= brightened(channel, height, gain),
        gain * height < 10 * UNIT && brightened(channel, height, gain) < 255 ==> {
            let rest = 10 * UNIT - gain * height;
            let shade = brightened(channel, height, gain);
            shade * rest <= channel * (10 * UNIT) < (shade + 1) * rest
        },
{
    let whole = 10 * UNIT;
    let rest = whole - gain * height;
    assert(gain * height >= 0) by (nonlinear_arith)
        requires
            0 <= gain,
            0 <= height,
    ;
    if rest > 0 {
        let q = channel * whole / rest;
        assert(q * rest <= channel * whole < (q + 1) * rest && q >= 0) by (nonlinear_arith)
            requires
                rest > 0,
                channel * whole >= 0,
                q == channel * whole / rest,
        ;
        assert(q >= channel) by (nonlinear_arith)
            requires
                0 < rest <= whole,
                channel >= 0,
                channel * whole < (q + 1) * rest,
        ;
    }
}

/// A darkened channel is `channel * (1 - cbrt(height))` rounded down, or
/// nothing where that is negative: it is never brighter than the channel
/// was, one step more would be too bright, and unless it is black it is not
/// too bright itself.
pub proof fn lemma_darkened(channel: int, height: int)
    requires
        0 <= channel <= 255,
        0 <= height,
    ensures
        0 <= darkened(channel, height) <= channel,
        cube(channel - darkened(channel, height) - 1) * UNIT < cube(channel) * height,
        darkened(channel, height) > 0 ==> cube(channel - darkened(channel, height)) * UNIT >= cube(
            channel,
        ) * height,
{
    lemma_drop_from(channel, height, 0);
    let drop = drop_from(channel, height, 0);
    if drop > 0 {
        assert(!drops_enough(channel, height, drop - 1));
    } else {
        let full = cube(channel);
        assert(full >= 0) by (nonlinear_arith)
            requires
                channel >= 0,
                full == channel * channel * channel,
        ;
        assert(full * height >= 0) by (nonlinear_arith)
            requires
                full >= 0,
                height >= 0,
        ;
        assert(cube(-1) == -1);
    }
}

/// Brightens one channel by height, with the gain in tenths.
fn brighten_channel(channel: u8, height: u32, gain: u32) -> (shade: u8)
    requires
        gain <= 100,
    ensures
        shade == brightened(channel as int, height as int, gain as int),
{
    let whole: u64 = 10 * (UNIT as u64);
    assert(gain * height <= 100 * 0xffff_ffff) by (nonlinear_arith)
        requires
            0 <= gain <= 100,
            0 <= height <= 0xffff_ffff,
    ;
    let taken: u64 = gain as u64 * height as u64;
    if taken < whole {
        let rest = whole - taken;
        assert(channel * whole <= 255 * whole) by (nonlinear_arith)
            requires
                0 <= channel <= 255,
                whole >= 0,
        ;
        let quotient = channel as u64 * whole / rest;
        if quotient > 255 {
            255
        } else {
            quotient as u8
        }
    } else if taken == whole && channel > 0 {
        255
    } else {
        0
    }
}

/// Whether `drop` steps darken the channel enough for the height.
fn enough(channel: u8, height: u32, drop: u8) -> (b: bool)
    ensures
        b == drops_enough(channel as int, height as int, drop as int),
{
    let (c, d) = (channel as u64, drop as u64);
    assert(c * c <= 255 * 255 && c * c * c <= 255 * 255 * 255) by (nonlinear_arith)
        requires
            0 <= c <= 255,
    ;
    assert(d * d <= 255 * 255 && d * d * d <= 255 * 255 * 255) by (nonlinear_arith)
        requires
            0 <= d <= 255,
    ;
    let (c3, d3) = (c * c * c, d * d * d);
    assert(c3 * height <= 255 * 255 * 255 * 0xffff_ffff) by (nonlinear_arith)
        requires
            0 <= c3 <= 255 * 255 * 255,
            0 <= height <= 0xffff_ffff,
    ;
    assert(d3 * UNIT <= 255 * 255 * 255 * UNIT) by (nonlinear_arith)
        requires
            0 <= d3 <= 255 * 255 * 255,
    ;
    d3 * UNIT as u64 >= c3 * height as u64
}

/// Darkens one channel by height.
fn darken_channel(channel: u8, height: u32) -> (shade: u8)
    ensures
        shade == darkened(channel as int, height as int),
{
    let mut low: u8 = 0;
    let mut high: u8 = channel;
    while low < high
        invariant
            0 <= low <= high <= channel,
            forall|m: int| 0 <= m < low ==> !drops_enough(channel as int, height as int, m),
            high == channel || drops_enough(channel as int, height as int, high as int),
        decreases high - low,
    {
        let mid = low + (high - low) / 2;
        if enough(channel, height, mid) {
            high = mid;
        } else {
            assert forall|m: int| 0 <= m < mid + 1 implies !drops_enough(
                channel as int,
                height as int,
                m,
            ) by {
                lemma_cube_monotonic(m, mid as int);
                assert(cube(m) * UNIT <= cube(mid as int) * UNIT) by (nonlinear_arith)
                    requires
                        cube(m) <= cube(mid as int),
                ;
            }
            low = mid + 1;
        }
    }
    proof {
        lemma_drop_found(channel as int, height as int, 0, low as int);
    }
    channel - low
}

/// Shades a land colour: each channel is `channel / (1 - 1.4 * height)`
/// with the height in millionths, rounded down and cut off at 0 and 255.
pub fn increase_color_by_height(color: (u8, u8, u8), height: u32) -> (shade: (u8, u8, u8))
    ensures
        shade.0 == brightened(color.0 as int, height as int, LAND_GAIN as int),
        shade.1 == brightened(color.1 as int, height as int, LAND_GAIN as int),
        shade.2 == brightened(color.2 as int, height as int, LAND_GAIN as int),
{
    (
        brighten_channel(color.0, height, LAND_GAIN),
        brighten_channel(color.1, height, LAND_GAIN),
        brighten_channel(color.2, height, LAND_GAIN),
    )
}

/// Shades a water colour: each channel is `channel / (1 - 7 * height)` with
/// the height in millionths, rounded down and cut off at 0 and 255.
pub fn increase_color_by_height_water(color: (u8, u8, u8), height: u32) -> (shade: (u8, u8, u8))
    ensures
        shade.0 == brightened(color.0 as int, height as int, WATER_GAIN as int),
        shade.1 == brightened(color.1 as int, height as int, WATER_GAIN as int),
        shade.2 == brightened(color.2 as int, height as int, WATER_GAIN as int),
{
    (
        brighten_channel(color.0, height, WATER_GAIN),
        brighten_channel(color.1, height, WATER_GAIN),
        brighten_channel(color.2, height, WATER_GAIN),
    )
}

/// Shades a rock colour: each channel is `channel * (1 - cbrt(height))` with
/// the height in millionths, rounded down and cut off at 0.
pub fn decrease_color_by_height(color: (u8, u8, u8), height: u32) -> (shade: (u8, u8, u8))
    ensures
        shade.0 == darkened(color.0 as int, height as int),
        shade.1 == darkened(color.1 as int, height as int),
        shade.2 == darkened(color.2 as int, height as int),
{
    (
        darken_channel(color.0, height),
        darken_channel(color.1, height),
        darken_channel(color.2, height),
    )
}

impl CellType {
    /// The colour of this terrain at the floor of its band.
    pub open spec fn base(self) -> (u8, u8, u8) {
        match self {
            CellType::Grass => (125, 205, 127),
            CellType::Dirt => (196, 210, 130),
            CellType::Tree => (50, 150, 50),
            CellType::River => (50, 100, 150),
            CellType::Water => (15, 15, 160),
            CellType::MediumWater => (22, 30, 64),
            CellType::DeepWater => (30, 50, 100),
            CellType::Sand => (230, 210, 100),
            CellType::Snow => (230, 230, 230),
            CellType::Mountain => (100, 100, 100),
            CellType::MediumMountain => (80, 80, 80),
            CellType::HighMountain => (60, 60, 60),
            CellType::Tundra => (20, 100, 20),
            CellType::ShallowWater => (40, 100, 160),
            CellType::Ice => (150, 150, 200),
            CellType::Cliff => (150, 150, 130),
            CellType::MediumCliff => (130, 130, 110),
            CellType::Lake => (40, 100, 160),
        }
    }

    /// The curve by which this terrain is shaded: rock darkens, water and
    /// ice brighten steeply, and all other land brightens.
    pub open spec fn shade(self) -> Shading {
        if self.is_river_source() {
            Shading::Darken
        } else if self.is_water() || self == CellType::Ice {
            Shading::BrightenWater
        } else {
            Shading::Brighten
        }
    }

    /// The base colour of this terrain.
    pub fn base_color(&self) -> (rgb: (u8, u8, u8))
        ensures
            rgb == self.base(),
    {
        match self {
            CellType::Grass => (125, 205, 127),
            CellType::ShallowWater => (40, 100, 160),
            CellType::Water => (15, 15, 160),
            CellType::MediumWater => (22, 30, 64),
            CellType::DeepWater => (30, 50, 100),
            CellType::Sand => (230, 210, 100),
            CellType::Snow => (230, 230, 230),
            CellType::River => (50, 100, 150),
            CellType::Tundra => (20, 100, 20),
            CellType::Mountain => (100, 100, 100),
            CellType::MediumMountain => (80, 80, 80),
            CellType::HighMountain => (60, 60, 60),
            CellType::Dirt => (196, 210, 130),
            CellType::Tree => (50, 150, 50),
            CellType::Ice => (150, 150, 200),
            CellType::Cliff => (150, 150, 130),
            CellType::MediumCliff => (130, 130, 110),
            CellType::Lake => (40, 100, 160),
        }
    }

    /// The shading curve of this terrain.
    pub fn shading(&self) -> (curve: Shading)
        ensures
            curve == self.shade(),
    {
        match self {
            CellType::Grass
            | CellType::Sand
            | CellType::Snow
            | CellType::River
            | CellType::Tundra
            | CellType::Dirt
            | CellType::Tree => Shading::Brighten,
            CellType::ShallowWater
            | CellType::Water
            | CellType::MediumWater
            | CellType::DeepWater
            | CellType::Lake
            | CellType::Ice => Shading::BrightenWater,
            CellType::Mountain
            | CellType::MediumMountain
            | CellType::HighMountain
            | CellType::Cliff
            | CellType::MediumCliff => Shading::Darken,
        }
    }
}

/// One channel shaded along a curve.
pub open spec fn shaded(curve: Shading, channel: int, height: int) -> int {
    match curve {
        Shading::Brighten => brightened(channel, height, LAND_GAIN as int),
        Shading::BrightenWater => brightened(channel, height, WATER_GAIN as int),
        Shading::Darken => darkened(channel, height),
    }
}

impl Cell {
    /// The colour of the cell: the base colour of its terrain, shaded along
    /// the terrain's curve by the cell's relative altitude.
    pub open spec fn color(self) -> (int, int, int) {
        let base = self.cell_type.base();
        let curve = self.cell_type.shade();
        let height = self.relative_altitude as int;
        (
            shaded(curve, base.0 as int, height),
            shaded(curve, base.1 as int, height),
            shaded(curve, base.2 as int, height),
        )
    }

    /// The colour of the cell as red, green and blue.
    pub fn get_color(&self) -> (rgb: (u8, u8, u8))
        ensures
            (rgb.0 as int, rgb.1 as int, rgb.2 as int) == self.color(),
    {
        let base = self.cell_type.base_color();
        match self.cell_type.shading() {
            Shading::Brighten => increase_color_by_height(base, self.relative_altitude),
            Shading::BrightenWater => increase_color_by_height_water(base, self.relative_altitude),
            Shading::Darken => decrease_color_by_height(base, self.relative_altitude),
        }
    }
}

/// The byte at position `i` of the colour buffer of a grid: red, green,
/// blue and a full alpha for each cell in turn.
pub open spec fn buffer_byte(g: Grid, i: int) -> int {
    let rgb = g.cells[i / 4].color();
    if i % 4 == 0 {
        rgb.0
    } else if i % 4 == 1 {
        rgb.1
    } else if i % 4 == 2 {
        rgb.2
    } else {
        255
    }
}

/// The colours of all cells of the map, row by row, as four bytes for each
/// cell: red, green, blue, and an alpha that is always 255.
pub fn generate_world_colors(map: &World) -> (colors: Vec<u8>)
    requires
        map.wf(),
    ensures
        colors@.len() == 4 * map@.cells.len(),
        forall|i: int| 0 <= i < colors@.len() ==> #[trigger] colors@[i] == buffer_byte(map@, i),
{
    let cells = map.cells();
    let mut colors: Vec<u8> = Vec::new();
    let mut n: usize = 0;
    while n < cells.len()
        invariant
            cells@ == map@.cells,
            0 <= n <= cells@.len(),
            colors@.len() == 4 * n,
            forall|i: int| 0 <= i < colors@.len() ==> #[trigger] colors@[i] == buffer_byte(map@, i),
        decreases cells@.len() - n,
    {
        let (r, g, b) = cells[n].get_color();
        colors.push(r);
        colors.push(g);
        colors.push(b);
        colors.push(255);
        n += 1;
    }
    colors
}

} // verus!
