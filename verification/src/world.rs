//! Generation of a whole world: classify every cell, then let rivers run.

use vstd::prelude::*;
use crate::cell::{Cell, CellType};
use crate::classify::{band_type, classified, classify_cell, Samples};
use crate::dice::Dice;
use crate::grid::{Grid, World};
use crate::river::{generate_river, lemma_no_source_no_river, pass_follows, Walk};

verus! {

/// The grid of the given shape in which every cell is classified from the
/// samples of its position, row by row.
pub open spec fn classified_grid(width: u32, height: u32, samples: Seq<Samples>) -> Grid {
    Grid { width, height, cells: Seq::new(samples.len(), |i: int| classified(samples[i])) }
}

/// Worlds generated from the same samples differ at most in their rivers,
/// whatever their seeds: they have the same shape and the same altitudes,
/// and where the terrain of a cell differs, one of the two is river.
pub proof fn lemma_same_samples_same_relief(g: Grid, first: Grid, second: Grid)
    requires
        g.carved_into(first),
        g.carved_into(second),
    ensures
        first.width == second.width,
        first.height == second.height,
        first.cells.len() == second.cells.len(),
        forall|i: int|
            0 <= i < first.cells.len() ==> {
                &&& (#[trigger] first.cells[i]).altitude == second.cells[i].altitude
                &&& first.cells[i].relative_altitude == second.cells[i].relative_altitude
                &&& (first.cells[i].cell_type == second.cells[i].cell_type
                    || first.cells[i].cell_type == CellType::River || second.cells[i].cell_type
                    == CellType::River)
            },
{
    assert forall|i: int| 0 <= i < first.cells.len() implies {
        &&& (#[trigger] first.cells[i]).altitude == second.cells[i].altitude
        &&& first.cells[i].relative_altitude == second.cells[i].relative_altitude
        &&& (first.cells[i].cell_type == second.cells[i].cell_type || first.cells[i].cell_type
            == CellType::River || second.cells[i].cell_type == CellType::River)
    } by {
        assert(second.cells[i].altitude == g.cells[i].altitude);
    }
}

/// Classifies every position of a world of the given shape from its samples,
/// given row by row. There is no world if the number of samples is not
/// `width` times `height`.
pub fn classify_world(width: u32, height: u32, samples: &Vec<Samples>) -> (world: Option<World>)
    ensures
        world.is_some() <==> samples@.len() == width * height,
        world matches Some(map) ==> map.wf() && map@ == classified_grid(width, height, samples@),
{
    let mut cells: Vec<Cell> = Vec::new();
    let mut i: usize = 0;
    while i < samples.len()
        invariant
            0 <= i <= samples@.len(),
            cells@.len() == i,
            forall|k: int| 0 <= k < i ==> cells@[k] == classified(samples@[k]),
        decreases samples@.len() - i,
    {
        cells.push(classify_cell(&samples[i]));
        i += 1;
    }
    assert(cells@ =~= classified_grid(width, height, samples@).cells);
    World::new(width, height, cells)
}

/// Generates the world of the given shape: classifies every position from
/// its samples, then carves rivers with a generator seeded with `seed`.
///
/// The result has the altitudes of the classified grid, and each of its
/// cells is as classified or river: the rivers are those of one pass over
/// the classified grid. No water is ever turned into river. Where the classified grid has no mountain and no
/// cliff, the result is the classified grid. There is no world if the number
/// of samples is not `width` times `height`.
pub fn generate_world(seed: u64, width: u32, height: u32, samples: &Vec<Samples>) -> (world:
    Option<World>)
    ensures
        world.is_some() <==> samples@.len() == width * height,
        world matches Some(map) ==> {
            &&& map.wf()
            &&& classified_grid(width, height, samples@).carved_into(map@)
            &&& classified_grid(width, height, samples@).keeps_water(map@)
            &&& exists|rivers: Seq<Walk>|
                pass_follows(classified_grid(width, height, samples@), rivers, map@)
            &&& (forall|i: int|
                0 <= i < samples@.len() ==> !band_type(#[trigger] samples@[i]).is_river_source())
                ==> map@ == classified_grid(width, height, samples@)
        },
{
    match classify_world(width, height, samples) {
        None => None,
        Some(mut map) => {
            let mut dice = Dice::new(seed);
            let rivers = generate_river(&mut map, &mut dice);
            proof {
                let g = classified_grid(width, height, samples@);
                if forall|i: int|
                    0 <= i < samples@.len() ==> !band_type(#[trigger] samples@[i]).is_river_source() {
                    assert forall|i: int| 0 <= i < g.cells.len() implies !(
                    #[trigger] g.cells[i]).cell_type.is_river_source() by {
                        assert(!band_type(samples@[i]).is_river_source());
                    }
                    lemma_no_source_no_river(g, rivers@, map@);
                }
            }
            Some(map)
        },
    }
}

} // verus!
