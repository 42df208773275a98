//! River carving: randomized walks downhill from high-relief cells.
//!
//! A walk turns the cell it stands on into river, looks at the neighbours it
//! has not been to in a random order, and moves to one of them, until it
//! reaches the edge of the map, a body of water, a dead end, or a step that
//! climbs too much.

use vstd::prelude::*;
use vstd::set_lib::{lemma_int_range, lemma_len_subset, set_int_range};
use crate::cell::CellType;
use crate::dice::Dice;
use crate::grid::{
    hex_of, lemma_aligned_positions_distinct, lemma_position_in_range, Grid, HexPos, World,
};
use crate::hex::{get_neighbors, lemma_neighbors};

verus! {

/// The most a river may climb in one step, in millionths of altitude.
pub const MAX_CLIMB: u32 = 40_000;

/// One eligible cell in this many becomes the source of a river.
pub const SOURCE_ODDS: u32 = 1250;

/// What a scan over the candidates for the next step finds.
#[derive(Clone, Copy, Debug, PartialEq, Eq, Structural)]
pub enum Scan {
    /// A body of water was met: the river has arrived.
    Water,
    /// The candidate to move to.
    Next(HexPos),
}

/// Why a walk ended.
#[derive(Clone, Copy, Debug, PartialEq, Eq, Structural)]
pub enum WalkEnd {
    /// The walk stands at the edge of the map.
    Edge,
    /// Every neighbour has been visited already.
    DeadEnd,
    /// A body of water lies next to the walk.
    Water,
    /// The chosen step would climb more than a river can.
    Climb,
}

/// What a walk does at the position it stands on.
#[derive(Clone, Copy, Debug, PartialEq, Eq, Structural)]
pub enum Step {
    /// The walk ends here.
    Stop(WalkEnd),
    /// The walk moves on to this position.
    Advance(HexPos),
}

/// The scan over `order` from its candidate number `from` on. The first
/// candidate is the one to beat. A candidate that is water ends the walk,
/// whatever its altitude; one that is not, but lies strictly lower than the
/// first, is taken at once. If the scan runs out, the first candidate is
/// taken.
pub open spec fn scan(g: Grid, order: Seq<HexPos>, from: int) -> Scan
    decreases order.len() - from,
{
    if from >= order.len() {
        Scan::Next(order[0])
    } else if g.cell_at(order[from]).cell_type.is_water() {
        Scan::Water
    } else if g.cell_at(order[from]).altitude < g.cell_at(order[0]).altitude {
        Scan::Next(order[from])
    } else {
        scan(g, order, from + 1)
    }
}

/// What a walk standing on `current` does when it looks at its candidates in
/// the given order.
pub open spec fn step_in_order(g: Grid, current: HexPos, order: Seq<HexPos>) -> Step {
    match scan(g, order, 0) {
        Scan::Water => Step::Stop(WalkEnd::Water),
        Scan::Next(next) => if g.cell_at(next).altitude > g.cell_at(current).altitude + MAX_CLIMB {
            Step::Stop(WalkEnd::Climb)
        } else {
            Step::Advance(next)
        },
    }
}

/// Whether candidate number `k` of `order` neither beats the first candidate
/// nor is water, so that the scan passes over it.
pub open spec fn passed_over(g: Grid, order: Seq<HexPos>, k: int) -> bool {
    g.cell_at(order[k]).altitude >= g.cell_at(order[0]).altitude && !g.cell_at(
        order[k],
    ).cell_type.is_water()
}

/// What the scan finds, said without recursion. It stops at the first
/// candidate that is water or lies lower than the first one: water ends the
/// walk, and a lower candidate that is not water is taken. If there is none,
/// it takes the first candidate.
pub proof fn lemma_scan(g: Grid, order: Seq<HexPos>, from: int)
    requires
        0 <= from <= order.len(),
        order.len() > 0,
    ensures
        match scan(g, order, from) {
            Scan::Water => exists|k: int|
                {
                    &&& from <= k < order.len()
                    &&& g.cell_at(#[trigger] order[k]).cell_type.is_water()
                    &&& forall|j: int| from <= j < k ==> passed_over(g, order, j)
                },
            Scan::Next(next) => {
                ||| exists|k: int|
                    {
                        &&& from <= k < order.len()
                        &&& #[trigger] order[k] == next
                        &&& !g.cell_at(next).cell_type.is_water()
                        &&& g.cell_at(next).altitude < g.cell_at(order[0]).altitude
                        &&& forall|j: int| from <= j < k ==> passed_over(g, order, j)
                    }
                ||| {
                    &&& next == order[0]
                    &&& forall|j: int| from <= j < order.len() ==> passed_over(g, order, j)
                }
            },
        },
    decreases order.len() - from,
{
    if from >= order.len() {
    } else if g.cell_at(order[from]).cell_type.is_water() {
        assert(g.cell_at(order[from]).cell_type.is_water());
    } else if g.cell_at(order[from]).altitude < g.cell_at(order[0]).altitude {
        assert(order[from] == order[from]);
    } else {
        lemma_scan(g, order, from + 1);
        assert(passed_over(g, order, from));
        match scan(g, order, from + 1) {
            Scan::Water => {
                let k = choose|k: int|
                    {
                        &&& from + 1 <= k < order.len()
                        &&& g.cell_at(#[trigger] order[k]).cell_type.is_water()
                        &&& forall|j: int| from + 1 <= j < k ==> passed_over(g, order, j)
                    };
                assert(g.cell_at(order[k]).cell_type.is_water());
                assert(forall|j: int| from <= j < k ==> passed_over(g, order, j));
            },
            Scan::Next(next) => {
                if exists|k: int|
                    {
                        &&& from + 1 <= k < order.len()
                        &&& #[trigger] order[k] == next
                        &&& !g.cell_at(next).cell_type.is_water()
                        &&& g.cell_at(next).altitude < g.cell_at(order[0]).altitude
                        &&& forall|j: int| from + 1 <= j < k ==> passed_over(g, order, j)
                    } {
                    let k = choose|k: int|
                        {
                            &&& from + 1 <= k < order.len()
                            &&& #[trigger] order[k] == next
                            &&& !g.cell_at(next).cell_type.is_water()
                            &&& g.cell_at(next).altitude < g.cell_at(order[0]).altitude
                            &&& forall|j: int| from + 1 <= j < k ==> passed_over(g, order, j)
                        };
                    assert(order[k] == next);
                    assert(forall|j: int| from <= j < k ==> passed_over(g, order, j));
                } else {
                    assert(forall|j: int| from <= j < order.len() ==> passed_over(g, order, j));
                }
            },
        }
    }
}

/// The candidate that a scan moves to is one of the candidates, it is not
/// water, and it lies no higher than the first of them. A scan ends at water
/// only if one of the candidates is water.
pub proof fn lemma_scan_picks_candidate(g: Grid, order: Seq<HexPos>)
    requires
        order.len() > 0,
    ensures
        scan(g, order, 0) matches Scan::Next(next) ==> order.contains(next) && !g.cell_at(
            next,
        ).cell_type.is_water() && g.cell_at(next).altitude <= g.cell_at(order[0]).altitude,
        scan(g, order, 0) == Scan::Water ==> exists|k: int|
            0 <= k < order.len() && g.cell_at(#[trigger] order[k]).cell_type.is_water(),
{
    lemma_scan(g, order, 0);
    assert(order[0] == order[0]);
    if let Scan::Next(next) = scan(g, order, 0) {
        if next == order[0] && g.cell_at(next).cell_type.is_water() {
            assert(passed_over(g, order, 0));
        }
    }
}

/// A scan never gets past water: where candidate number `k` is water, the
/// scan ends at water or moves to a candidate that comes before number `k`.
pub proof fn lemma_scan_meets_water(g: Grid, order: Seq<HexPos>, k: int)
    requires
        0 <= k < order.len(),
        g.cell_at(order[k]).cell_type.is_water(),
    ensures
        scan(g, order, 0) matches Scan::Next(next) ==> exists|j: int|
            0 <= j < k && #[trigger] order[j] == next,
{
    lemma_scan(g, order, 0);
    if let Scan::Next(next) = scan(g, order, 0) {
        if next == order[0] && (forall|j: int| 0 <= j < order.len() ==> passed_over(g, order, j)) {
            assert(passed_over(g, order, k));
        } else {
            let j = choose|j: int|
                {
                    &&& 0 <= j < order.len()
                    &&& #[trigger] order[j] == next
                    &&& !g.cell_at(next).cell_type.is_water()
                    &&& g.cell_at(next).altitude < g.cell_at(order[0]).altitude
                    &&& forall|i: int| 0 <= i < j ==> passed_over(g, order, i)
                };
            if j >= k {
                assert(passed_over(g, order, k));
            }
            assert(order[j] == next);
        }
    }
}

/// Where one of the candidates is water and those that are not all lie at
/// one altitude, the scan ends at water in whatever order it looks at them.
pub proof fn lemma_scan_level_ends_at_water(g: Grid, order: Seq<HexPos>)
    requires
        exists|k: int| 0 <= k < order.len() && g.cell_at(#[trigger] order[k]).cell_type.is_water(),
        forall|i: int, j: int|
            0 <= i < order.len() && 0 <= j < order.len() && !g.cell_at(
                #[trigger] order[i],
            ).cell_type.is_water() && !g.cell_at(#[trigger] order[j]).cell_type.is_water()
                ==> g.cell_at(order[i]).altitude == g.cell_at(order[j]).altitude,
    ensures
        scan(g, order, 0) == Scan::Water,
{
    let wet = choose|k: int|
        0 <= k < order.len() && g.cell_at(#[trigger] order[k]).cell_type.is_water();
    lemma_scan(g, order, 0);
    if let Scan::Next(next) = scan(g, order, 0) {
        if next == order[0] && (forall|j: int| 0 <= j < order.len() ==> passed_over(g, order, j)) {
            assert(passed_over(g, order, wet));
        } else {
            let k = choose|k: int|
                {
                    &&& 0 <= k < order.len()
                    &&& #[trigger] order[k] == next
                    &&& !g.cell_at(next).cell_type.is_water()
                    &&& g.cell_at(next).altitude < g.cell_at(order[0]).altitude
                    &&& forall|j: int| 0 <= j < k ==> passed_over(g, order, j)
                };
            assert(passed_over(g, order, 0));
            assert(g.cell_at(order[k]).altitude == g.cell_at(order[0]).altitude);
        }
    }
}

/// A scan looks only at the cells under its candidates: on two grids that
/// agree there it finds the same.
pub proof fn lemma_scan_local(g: Grid, h: Grid, order: Seq<HexPos>, from: int)
    requires
        0 <= from,
        forall|k: int| 0 <= k < order.len() ==> g.cell_at(#[trigger] order[k]) == h.cell_at(order[k]),
    ensures
        order.len() > 0 ==> scan(g, order, from) == scan(h, order, from),
    decreases order.len() - from,
{
    if order.len() > 0 && from < order.len() {
        assert(g.cell_at(order[from]) == h.cell_at(order[from]));
        assert(g.cell_at(order[0]) == h.cell_at(order[0]));
        lemma_scan_local(g, h, order, from + 1);
    }
}

/// Scans the candidates for the next step in the order given.
pub fn scan_candidates(map: &World, order: &Vec<HexPos>) -> (found: Scan)
    requires
        map.wf(),
        order@.len() > 0,
        forall|k: int| 0 <= k < order@.len() ==> map@.contains(#[trigger] order@[k]),
    ensures
        found == scan(map@, order@, 0),
{
    let first = map.cell_at(order[0]).altitude;
    let mut i: usize = 0;
    while i < order.len()
        invariant
            map.wf(),
            0 <= i <= order@.len(),
            order@.len() > 0,
            first == map@.cell_at(order@[0]).altitude,
            forall|k: int| 0 <= k < order@.len() ==> map@.contains(#[trigger] order@[k]),
            scan(map@, order@, 0) == scan(map@, order@, i as int),
        decreases order@.len() - i,
    {
        let cell = map.cell_at(order[i]);
        if cell.cell_type.water() {
            return Scan::Water;
        }
        if cell.altitude < first {
            return Scan::Next(order[i]);
        }
        i += 1;
    }
    Scan::Next(order[0])
}

/// Decides what a walk standing on `current` does, given its candidates in
/// the order in which they are to be looked at.
pub fn next_step(map: &World, current: HexPos, order: &Vec<HexPos>) -> (step: Step)
    requires
        map.wf(),
        map@.contains(current),
        order@.len() > 0,
        forall|k: int| 0 <= k < order@.len() ==> map@.contains(#[trigger] order@[k]),
    ensures
        step == step_in_order(map@, current, order@),
{
    match scan_candidates(map, order) {
        Scan::Water => Step::Stop(WalkEnd::Water),
        Scan::Next(next) => {
            proof {
                lemma_scan_picks_candidate(map@, order@);
            }
            let here = map.cell_at(current).altitude as u64;
            if map.cell_at(next).altitude as u64 > here + MAX_CLIMB as u64 {
                Step::Stop(WalkEnd::Climb)
            } else {
                Step::Advance(next)
            }
        },
    }
}

/// The neighbours of `current` that are not among the visited positions, in
/// the order of the neighbours.
pub open spec fn unvisited(g: Grid, visited: Seq<HexPos>, current: HexPos) -> Seq<HexPos> {
    g.neighbors(current).filter(|q: HexPos| !visited.contains(q))
}

/// Whether a walk that stands on `current` and has been to `visited` may take
/// the given step. At the edge of the map and at a dead end there is one
/// answer. Otherwise the step is the one decided on some ordering of the
/// unvisited neighbours: which ordering is left to chance.
pub open spec fn may_step(g: Grid, visited: Seq<HexPos>, current: HexPos, step: Step) -> bool {
    if g.at_edge(current) {
        step == Step::Stop(WalkEnd::Edge)
    } else if unvisited(g, visited, current).len() == 0 {
        step == Step::Stop(WalkEnd::DeadEnd)
    } else {
        exists|order: Seq<HexPos>|
            #[trigger] order.to_multiset() == unvisited(g, visited, current).to_multiset() && step
                == step_in_order(g, current, order)
    }
}

/// Whether the walk along `path` may move from its position number `i` to
/// the one after it, having been to all positions up to number `i`.
pub open spec fn moves_on(g: Grid, path: Seq<HexPos>, i: int) -> bool {
    may_step(g, path.take(i + 1), path[i], Step::Advance(path[i + 1]))
}

/// Whether `path` with the ending `end` is a river walk on the grid `g`, as
/// the grid was when the walk began: every move is one the walk may make, and
/// at the last position the walk may stop for the reason given.
pub open spec fn walk_follows(g: Grid, path: Seq<HexPos>, end: WalkEnd) -> bool {
    &&& path.len() >= 1
    &&& forall|i: int| 0 <= i < path.len() - 1 ==> #[trigger] moves_on(g, path, i)
    &&& may_step(g, path, path.last(), Step::Stop(end))
}

impl Grid {
    /// The grid after a river has been carved along `path`: the cell under
    /// each position of the path is river.
    pub open spec fn carved(self, path: Seq<HexPos>) -> Grid
        decreases path.len(),
    {
        if path.len() == 0 {
            self
        } else {
            self.carved(path.drop_last()).with_river(self.index_of(path.last()))
        }
    }

    /// Whether some position of `path` lies over the cell stored at `index`.
    pub open spec fn covered(self, path: Seq<HexPos>, index: int) -> bool {
        exists|k: int| 0 <= k < path.len() && self.index_of(#[trigger] path[k]) == index
    }
}

/// A move of a walk goes to a neighbour that the walk has not been to and
/// that is not water, from a position that is not at the edge, and climbs no
/// more than a river can.
pub proof fn lemma_advance(g: Grid, visited: Seq<HexPos>, current: HexPos, next: HexPos)
    requires
        may_step(g, visited, current, Step::Advance(next)),
    ensures
        !g.at_edge(current),
        g.neighbors(current).contains(next),
        !visited.contains(next),
        !g.cell_at(next).cell_type.is_water(),
        g.cell_at(next).altitude <= g.cell_at(current).altitude + MAX_CLIMB,
{
    let pool = unvisited(g, visited, current);
    let order = choose|order: Seq<HexPos>|
        #[trigger] order.to_multiset() == pool.to_multiset() && Step::Advance(next)
            == step_in_order(g, current, order);
    order.to_multiset_ensures();
    pool.to_multiset_ensures();
    lemma_scan_picks_candidate(g, order);
    assert(order.contains(next));
    assert(pool.to_multiset().count(next) > 0);
    assert(pool.contains(next));
    lemma_unvisited(g, visited, current);
}

/// A walk that stands away from the edge beside water it has not been to
/// ends there, whatever the dice give, if its other unvisited neighbours all
/// lie at one altitude.
pub proof fn lemma_walk_ends_at_level_water(
    g: Grid,
    visited: Seq<HexPos>,
    current: HexPos,
    step: Step,
)
    requires
        may_step(g, visited, current, step),
        !g.at_edge(current),
        exists|k: int|
            0 <= k < unvisited(g, visited, current).len() && g.cell_at(
                #[trigger] unvisited(g, visited, current)[k],
            ).cell_type.is_water(),
        forall|i: int, j: int|
            0 <= i < unvisited(g, visited, current).len() && 0 <= j < unvisited(
                g,
                visited,
                current,
            ).len() && !g.cell_at(#[trigger] unvisited(g, visited, current)[i]).cell_type.is_water()
                && !g.cell_at(#[trigger] unvisited(g, visited, current)[j]).cell_type.is_water()
                ==> g.cell_at(unvisited(g, visited, current)[i]).altitude == g.cell_at(
                unvisited(g, visited, current)[j],
            ).altitude,
    ensures
        step == Step::Stop(WalkEnd::Water),
{
    let pool = unvisited(g, visited, current);
    let order = choose|order: Seq<HexPos>|
        #[trigger] order.to_multiset() == pool.to_multiset() && step == step_in_order(
            g,
            current,
            order,
        );
    order.to_multiset_ensures();
    pool.to_multiset_ensures();
    let wet = choose|k: int| 0 <= k < pool.len() && g.cell_at(#[trigger] pool[k]).cell_type.is_water();
    assert(pool.contains(pool[wet]));
    assert(order.to_multiset().count(pool[wet]) > 0);
    assert(order.contains(pool[wet]));
    let w = choose|w: int| 0 <= w < order.len() && order[w] == pool[wet];
    assert(g.cell_at(order[w]).cell_type.is_water());
    assert forall|i: int, j: int|
        0 <= i < order.len() && 0 <= j < order.len() && !g.cell_at(
            #[trigger] order[i],
        ).cell_type.is_water() && !g.cell_at(#[trigger] order[j]).cell_type.is_water() implies g.cell_at(
        order[i],
    ).altitude == g.cell_at(order[j]).altitude by {
        assert(order.contains(order[i]));
        assert(pool.to_multiset().count(order[i]) > 0);
        assert(pool.contains(order[i]));
        assert(order.contains(order[j]));
        assert(pool.to_multiset().count(order[j]) > 0);
        assert(pool.contains(order[j]));
        let a = choose|a: int| 0 <= a < pool.len() && pool[a] == order[i];
        let b = choose|b: int| 0 <= b < pool.len() && pool[b] == order[j];
        assert(g.cell_at(pool[a]).altitude == g.cell_at(pool[b]).altitude);
    }
    lemma_scan_level_ends_at_water(g, order);
}

/// The unvisited neighbours of a position are its neighbours that have not
/// been visited, no more and no less.
pub proof fn lemma_unvisited(g: Grid, visited: Seq<HexPos>, current: HexPos)
    ensures
        forall|q: HexPos|
            unvisited(g, visited, current).contains(q) <==> g.neighbors(current).contains(q)
                && !visited.contains(q),
{
    let around = g.neighbors(current);
    let fresh = |q: HexPos| !visited.contains(q);
    assert forall|q: HexPos| around.filter(fresh).contains(q) implies around.contains(q)
        && !visited.contains(q) by {
        around.lemma_filter_contains_rev(fresh, q);
        let k = choose|k: int| 0 <= k < around.filter(fresh).len() && around.filter(fresh)[k] == q;
        around.lemma_filter_pred(fresh, k);
    }
    assert forall|q: HexPos| around.contains(q) && !visited.contains(q) implies around.filter(
        fresh,
    ).contains(q) by {
        let k = choose|k: int| 0 <= k < around.len() && around[k] == q;
        around.lemma_filter_contains(fresh, k);
    }
}

/// A river walk never comes to the same position twice.
pub proof fn lemma_walk_never_returns(g: Grid, path: Seq<HexPos>, end: WalkEnd)
    requires
        walk_follows(g, path, end),
    ensures
        path.no_duplicates(),
{
    assert forall|i: int, j: int| 0 <= i < j < path.len() implies path[i] != path[j] by {
        assert(moves_on(g, path, j - 1));
        lemma_advance(g, path.take(j), path[j - 1], path[j]);
        assert(path.take(j)[i] == path[i]);
    }
}

/// A river walk never steps onto water: every position after the first lies
/// on a cell that was not water when the walk began.
pub proof fn lemma_walk_spares_water(g: Grid, path: Seq<HexPos>, end: WalkEnd, i: int)
    requires
        walk_follows(g, path, end),
        0 < i < path.len(),
    ensures
        !g.cell_at(path[i]).cell_type.is_water(),
{
    assert(moves_on(g, path, i - 1));
    lemma_advance(g, path.take(i), path[i - 1], path[i]);
}

/// Every position of a river walk that starts on a cell of the grid is the
/// centre of a cell of the grid, and each is a neighbour of the one before.
pub proof fn lemma_walk_stays_on_grid(g: Grid, path: Seq<HexPos>, end: WalkEnd, i: int)
    requires
        walk_follows(g, path, end),
        g.contains(path[0]),
        path[0].aligned(),
        0 <= i < path.len(),
    ensures
        g.contains(path[i]),
        path[i].aligned(),
        i > 0 ==> g.neighbors(path[i - 1]).contains(path[i]),
        i > 0 ==> g.cell_at(path[i]).altitude <= g.cell_at(path[i - 1]).altitude + MAX_CLIMB,
    decreases i,
{
    if i > 0 {
        lemma_walk_stays_on_grid(g, path, end, i - 1);
        assert(moves_on(g, path, i - 1));
        lemma_advance(g, path.take(i), path[i - 1], path[i]);
        lemma_neighbors(g.width, g.height, path[i - 1]);
        let around = g.neighbors(path[i - 1]);
        let k = choose|k: int| 0 <= k < around.len() && around[k] == path[i];
        assert(around[k].aligned());
    }
}

/// Positions that are centres of different cells of a grid cannot outnumber
/// its cells.
pub proof fn lemma_distinct_positions_bounded(g: Grid, path: Seq<HexPos>)
    requires
        path.no_duplicates(),
        forall|k: int| 0 <= k < path.len() ==> g.contains(#[trigger] path[k]) && path[k].aligned(),
    ensures
        path.len() <= g.width * g.height,
{
    let area = g.width * g.height;
    let stored = Seq::new(path.len(), |k: int| g.index_of(path[k]));
    assert forall|i: int, j: int| 0 <= i < j < stored.len() implies stored[i] != stored[j] by {
        if g.index_of(path[i]) == g.index_of(path[j]) {
            lemma_aligned_positions_distinct(g, path[i], path[j]);
        }
    }
    stored.unique_seq_to_set();
    lemma_int_range(0, area);
    assert forall|index: int| stored.to_set().contains(index) implies set_int_range(
        0,
        area,
    ).contains(index) by {
        let k = choose|k: int| 0 <= k < stored.len() && stored[k] == index;
        lemma_position_in_range(g, path[k]);
    }
    lemma_len_subset(stored.to_set(), set_int_range(0, area));
}

/// A river walk that starts on a cell of the grid ends after at most as many
/// positions as the grid has cells.
pub proof fn lemma_walk_is_bounded(g: Grid, path: Seq<HexPos>, end: WalkEnd)
    requires
        walk_follows(g, path, end),
        g.contains(path[0]),
        path[0].aligned(),
    ensures
        path.len() <= g.width * g.height,
{
    lemma_walk_never_returns(g, path, end);
    assert forall|k: int| 0 <= k < path.len() implies g.contains(#[trigger] path[k])
        && path[k].aligned() by {
        lemma_walk_stays_on_grid(g, path, end, k);
    }
    lemma_distinct_positions_bounded(g, path);
}

/// Carving along a path on the grid turns the cells under the path into
/// river and leaves every other cell, the shape of the grid and all
/// altitudes as they were.
pub proof fn lemma_carved(g: Grid, path: Seq<HexPos>)
    requires
        g.wf(),
        forall|k: int| 0 <= k < path.len() ==> g.contains(#[trigger] path[k]),
    ensures
        g.carved(path).wf(),
        g.carved_into(g.carved(path)),
        forall|i: int|
            0 <= i < g.cells.len() ==> (#[trigger] g.carved(path).cells[i]).cell_type == if g.covered(
                path,
                i,
            ) {
                CellType::River
            } else {
                g.cells[i].cell_type
            },
    decreases path.len(),
{
    if path.len() > 0 {
        let before = path.drop_last();
        lemma_carved(g, before);
        lemma_position_in_range(g, path.last());
        let at = g.index_of(path.last());
        let (was, now) = (g.carved(before), g.carved(path));
        assert(now == was.with_river(at));
        assert forall|i: int| 0 <= i < g.cells.len() implies (#[trigger] now.cells[i]).cell_type
            == if g.covered(path, i) {
            CellType::River
        } else {
            g.cells[i].cell_type
        } by {
            if i == at {
                assert(g.index_of(path[path.len() - 1]) == i);
            } else if g.covered(before, i) {
                let k = choose|k: int| 0 <= k < before.len() && g.index_of(#[trigger] before[k]) == i;
                assert(g.index_of(path[k]) == i);
            } else if g.covered(path, i) {
                let k = choose|k: int| 0 <= k < path.len() && g.index_of(#[trigger] path[k]) == i;
                assert(g.index_of(before[k]) == i);
            }
        }
    }
}

/// What a walk decides depends only on the cells under its candidates and
/// on the altitude it stands at: on two grids that agree there it decides the
/// same.
pub proof fn lemma_step_local(g: Grid, h: Grid, current: HexPos, order: Seq<HexPos>)
    requires
        order.len() > 0,
        forall|k: int| 0 <= k < order.len() ==> g.cell_at(#[trigger] order[k]) == h.cell_at(order[k]),
        g.cell_at(current).altitude == h.cell_at(current).altitude,
    ensures
        step_in_order(g, current, order) == step_in_order(h, current, order),
{
    lemma_scan_local(g, h, order, 0);
    lemma_scan_picks_candidate(g, order);
    if let Scan::Next(next) = scan(g, order, 0) {
        let k = choose|k: int| 0 <= k < order.len() && order[k] == next;
        assert(g.cell_at(order[k]) == h.cell_at(order[k]));
    }
}

/// One river walk: where it went, and why it ended.
#[derive(Clone, Debug, PartialEq, Eq)]
pub struct Walk {
    /// The positions that the walk turned into river, in the order in which
    /// it came to them.
    pub path: Vec<HexPos>,
    /// Why the walk ended at the last of them.
    pub end: WalkEnd,
}

/// Whether `p` is among the positions.
pub fn contains_position(positions: &Vec<HexPos>, p: HexPos) -> (found: bool)
    ensures
        found == positions@.contains(p),
{
    let mut i: usize = 0;
    while i < positions.len()
        invariant
            0 <= i <= positions@.len(),
            forall|k: int| 0 <= k < i ==> positions@[k] != p,
        decreases positions@.len() - i,
    {
        if positions[i] == p {
            return true;
        }
        i += 1;
    }
    false
}

/// The neighbours of `current` on the map that are not among the visited
/// positions, in the order of the neighbours.
pub fn unvisited_neighbors(map: &World, current: HexPos, visited: &Vec<HexPos>) -> (fresh: Vec<
    HexPos,
>)
    ensures
        fresh@ == unvisited(map@, visited@, current),
{
    let around = get_neighbors(map, current.x, current.y);
    let ghost unseen = |q: HexPos| !visited@.contains(q);
    let mut fresh: Vec<HexPos> = Vec::new();
    let mut i: usize = 0;
    proof {
        reveal(Seq::filter);
        assert(around@.take(0).filter(unseen) =~= Seq::<HexPos>::empty());
    }
    while i < around.len()
        invariant
            0 <= i <= around@.len(),
            unseen == |q: HexPos| !visited@.contains(q),
            fresh@ == around@.take(i as int).filter(unseen),
        decreases around@.len() - i,
    {
        proof {
            assert(around@.take(i + 1) =~= around@.take(i as int).push(around@[i as int]));
            around@.take(i as int).lemma_filter_push(around@[i as int], unseen);
        }
        if !contains_position(visited, around[i]) {
            fresh.push(around[i]);
        }
        i += 1;
    }
    assert(around@.take(i as int) =~= around@);
    fresh
}

/// Carves one river, starting on the cell in column `col` of row `row`.
///
/// The walk turns the cell it stands on into river. At the edge of the map,
/// or where it has been to every neighbour, it ends. Otherwise it looks at
/// the neighbours it has not been to in a random order and ends, or moves
/// on, as that order decides. Altitudes are never changed, and cells off the
/// path stay as they are.
pub fn carve_river(map: &mut World, col: u32, row: u32, dice: &mut Dice) -> (walk: Walk)
    requires
        old(map).wf(),
        col < old(map)@.width,
        row < old(map)@.height,
    ensures
        final(map).wf(),
        walk.path@[0] == hex_of(col as int, row as int),
        walk_follows(old(map)@, walk.path@, walk.end),
        final(map)@ == old(map)@.carved(walk.path@),
        old(map)@.carved_into(final(map)@),
        walk.path@.no_duplicates(),
        walk.path@.len() <= old(map)@.width * old(map)@.height,
        forall|k: int|
            0 <= k < walk.path@.len() ==> old(map)@.contains(#[trigger] walk.path@[k])
                && walk.path@[k].aligned(),
        forall|k: int|
            0 < k < walk.path@.len() ==> !old(map)@.cell_at(
                #[trigger] walk.path@[k],
            ).cell_type.is_water(),
        !old(map)@.at(col as int, row as int).cell_type.is_water() ==> old(map)@.keeps_water(
            final(map)@,
        ),
{
    let ghost g = map@;
    let start = map.position(col, row);
    let mut path: Vec<HexPos> = Vec::new();
    let mut current = start;
    let mut end = WalkEnd::Edge;
    loop
        invariant_except_break
            !path@.contains(current),
            path@.len() > 0 ==> may_step(g, path@, path@.last(), Step::Advance(current)),
            path@.len() == 0 ==> current == start,
        invariant
            g == old(map)@,
            g.wf(),
            map.wf(),
            map@ == g.carved(path@),
            g.contains(current),
            current.aligned(),
            g.contains(start),
            path@.len() > 0 ==> path@[0] == start,
            path@.no_duplicates(),
            path@.len() <= g.width * g.height,
            forall|k: int| 0 <= k < path@.len() ==> g.contains(#[trigger] path@[k]) && path@[k].aligned(),
            forall|i: int| 0 <= i < path@.len() - 1 ==> #[trigger] moves_on(g, path@, i),
        ensures
            path@.len() > 0,
            may_step(g, path@, path@.last(), Step::Stop(end)),
        decreases g.width * g.height - path@.len(),
    {
        let ghost before = path@;
        proof {
            lemma_carved(g, before);
        }
        map.mark_river(current);
        path.push(current);
        proof {
            assert(path@.drop_last() =~= before);
            assert forall|i: int| 0 <= i < path@.len() - 1 implies #[trigger] moves_on(
                g,
                path@,
                i,
            ) by {
                if i < before.len() - 1 {
                    assert(moves_on(g, before, i));
                    assert(path@.take(i + 1) =~= before.take(i + 1));
                } else {
                    assert(path@.take(i + 1) =~= before);
                }
            }
            lemma_distinct_positions_bounded(g, path@);
            lemma_carved(g, path@);
        }
        let around = get_neighbors(map, current.x, current.y);
        if around.len() < 6 {
            end = WalkEnd::Edge;
            break ;
        }
        let mut candidates = unvisited_neighbors(map, current, &path);
        if candidates.len() == 0 {
            end = WalkEnd::DeadEnd;
            break ;
        }
        let ghost pool = candidates@;
        dice.shuffle(&mut candidates);
        proof {
            lemma_unvisited(g, path@, current);
            lemma_neighbors(g.width, g.height, current);
            assert forall|k: int| 0 <= k < candidates@.len() implies {
                &&& g.contains(#[trigger] candidates@[k])
                &&& candidates@[k].aligned()
                &&& !path@.contains(candidates@[k])
                &&& map@.cell_at(candidates@[k]) == g.cell_at(candidates@[k])
            } by {
                let q = candidates@[k];
                assert(candidates@.contains(q));
                assert(pool.contains(q));
                let n = choose|n: int|
                    0 <= n < g.neighbors(current).len() && g.neighbors(current)[n] == q;
                assert(g.neighbors(current)[n].aligned());
                lemma_position_in_range(g, q);
                if g.covered(path@, g.index_of(q)) {
                    let j = choose|j: int|
                        0 <= j < path@.len() && g.index_of(#[trigger] path@[j]) == g.index_of(q);
                    lemma_aligned_positions_distinct(g, path@[j], q);
                }
            }
            lemma_position_in_range(g, current);
            lemma_step_local(map@, g, current, candidates@);
        }
        match next_step(map, current, &candidates) {
            Step::Stop(reason) => {
                end = reason;
                break ;
            },
            Step::Advance(next) => {
                proof {
                    lemma_scan_picks_candidate(g, candidates@);
                    let k = choose|k: int| 0 <= k < candidates@.len() && candidates@[k] == next;
                    assert(g.contains(candidates@[k]));
                }
                current = next;
            },
        }
    }
    proof {
        lemma_carved(g, path@);
        assert forall|k: int| 0 < k < path@.len() implies !g.cell_at(
            #[trigger] path@[k],
        ).cell_type.is_water() by {
            lemma_walk_spares_water(g, path@, end, k);
        }
        if !g.cell_at(start).cell_type.is_water() {
            lemma_walk_keeps_water(g, path@, end);
        }
    }
    Walk { path, end }
}

/// The grid after the first `n` of the walks have been carved into it, one
/// after the other.
pub open spec fn carved_all(g: Grid, walks: Seq<Walk>, n: int) -> Grid
    decreases n,
{
    if n <= 0 {
        g
    } else {
        carved_all(g, walks, n - 1).carved(walks[n - 1].path@)
    }
}

/// Whether walk number `k` is a river of a pass over the grid `g`: it starts
/// on a cell that is still a river source when the walks before it have been
/// carved, further on in the rows than the walk before it, and it is a river
/// walk on the grid as those walks left it.
pub open spec fn river_springs(g: Grid, walks: Seq<Walk>, k: int) -> bool {
    let so_far = carved_all(g, walks, k);
    let path = walks[k].path@;
    &&& path.len() > 0
    &&& g.contains(path[0])
    &&& path[0].aligned()
    &&& so_far.cell_at(path[0]).cell_type.is_river_source()
    &&& walk_follows(so_far, path, walks[k].end)
    &&& k > 0 ==> g.index_of(walks[k - 1].path@[0]) < g.index_of(path[0])
}

/// Whether the walks are the rivers of one pass over the grid `g` that leaves
/// the grid `after`. Which of the eligible cells become sources is left to
/// chance.
pub open spec fn pass_follows(g: Grid, walks: Seq<Walk>, after: Grid) -> bool {
    &&& forall|k: int| 0 <= k < walks.len() ==> #[trigger] river_springs(g, walks, k)
    &&& after == carved_all(g, walks, walks.len() as int)
}

/// A river walk that does not start on water leaves every water cell as it
/// was.
pub proof fn lemma_walk_keeps_water(g: Grid, path: Seq<HexPos>, end: WalkEnd)
    requires
        g.wf(),
        walk_follows(g, path, end),
        g.contains(path[0]),
        path[0].aligned(),
        !g.cell_at(path[0]).cell_type.is_water(),
    ensures
        g.keeps_water(g.carved(path)),
{
    assert forall|k: int| 0 <= k < path.len() implies g.contains(#[trigger] path[k]) by {
        lemma_walk_stays_on_grid(g, path, end, k);
    }
    lemma_carved(g, path);
    let after = g.carved(path);
    assert forall|i: int|
        0 <= i < g.cells.len() && (#[trigger] g.cells[i]).cell_type.is_water() implies after.cells[i]
        == g.cells[i] by {
        if g.covered(path, i) {
            let k = choose|k: int| 0 <= k < path.len() && g.index_of(#[trigger] path[k]) == i;
            if k > 0 {
                lemma_walk_spares_water(g, path, end, k);
            }
        }
        assert(after.cells[i].cell_type == g.cells[i].cell_type);
        assert(after.cells[i].altitude == g.cells[i].altitude);
        assert(after.cells[i].relative_altitude == g.cells[i].relative_altitude);
    }
}

/// Carving the first walks of a list does not depend on the walks after them.
pub proof fn lemma_carved_all_prefix(g: Grid, walks: Seq<Walk>, longer: Seq<Walk>, n: int)
    requires
        n <= walks.len() <= longer.len(),
        forall|k: int| 0 <= k < n ==> walks[k] == longer[k],
    ensures
        carved_all(g, walks, n) == carved_all(g, longer, n),
    decreases n,
{
    if n > 0 {
        lemma_carved_all_prefix(g, walks, longer, n - 1);
    }
}

/// Rivers only ever turn cells into river: carving on keeps the shape of the
/// grid and all altitudes.
pub proof fn lemma_carved_into_transitive(g: Grid, h: Grid, i: Grid)
    requires
        g.carved_into(h),
        h.carved_into(i),
    ensures
        g.carved_into(i),
{
    assert forall|k: int| 0 <= k < g.cells.len() implies {
        &&& (#[trigger] i.cells[k]).altitude == g.cells[k].altitude
        &&& i.cells[k].relative_altitude == g.cells[k].relative_altitude
        &&& (i.cells[k].cell_type == g.cells[k].cell_type || i.cells[k].cell_type
            == CellType::River)
    } by {
        assert(h.cells[k].altitude == g.cells[k].altitude);
    }
}

/// A pass only ever turns cells into river: it keeps the shape of the grid,
/// both altitudes of every cell, and every river that was there. It never
/// turns water into river.
pub proof fn lemma_pass_only_adds_rivers(g: Grid, walks: Seq<Walk>, n: int)
    requires
        g.wf(),
        0 <= n <= walks.len(),
        forall|k: int| 0 <= k < walks.len() ==> #[trigger] river_springs(g, walks, k),
    ensures
        carved_all(g, walks, n).wf(),
        g.carved_into(carved_all(g, walks, n)),
        g.keeps_water(carved_all(g, walks, n)),
    decreases n,
{
    if n > 0 {
        lemma_pass_only_adds_rivers(g, walks, n - 1);
        let so_far = carved_all(g, walks, n - 1);
        let path = walks[n - 1].path@;
        assert(river_springs(g, walks, n - 1));
        assert forall|k: int| 0 <= k < path.len() implies so_far.contains(#[trigger] path[k]) by {
            lemma_walk_stays_on_grid(so_far, path, walks[n - 1].end, k);
        }
        lemma_carved(so_far, path);
        lemma_carved_into_transitive(g, so_far, so_far.carved(path));
        lemma_walk_keeps_water(so_far, path, walks[n - 1].end);
        assert forall|i: int|
            0 <= i < g.cells.len() && (#[trigger] g.cells[i]).cell_type.is_water() implies so_far.carved(
            path,
        ).cells[i] == g.cells[i] by {
            assert(so_far.cells[i] == g.cells[i]);
        }
    }
}

/// The rivers of a pass decide the grid it leaves: two passes over one grid
/// in which the same rivers sprang leave the same grid.
pub proof fn lemma_same_rivers_same_world(g: Grid, walks: Seq<Walk>, first: Grid, second: Grid)
    requires
        pass_follows(g, walks, first),
        pass_follows(g, walks, second),
    ensures
        first == second,
{
}

/// A pass over a grid without river sources carves nothing.
pub proof fn lemma_no_source_no_river(g: Grid, walks: Seq<Walk>, after: Grid)
    requires
        g.wf(),
        pass_follows(g, walks, after),
        forall|i: int| 0 <= i < g.cells.len() ==> !(#[trigger] g.cells[i]).cell_type.is_river_source(),
    ensures
        walks.len() == 0,
        after == g,
{
    if walks.len() > 0 {
        assert(river_springs(g, walks, 0));
        lemma_position_in_range(g, walks[0].path@[0]);
    }
}

/// One pass over the map that lets rivers spring. The cells are gone through
/// row by row. On each cell that is mountain or cliff at that moment a river
/// starts with a chance of one in `SOURCE_ODDS`, and is carved before the
/// pass goes on. Returns the rivers in the order in which they sprang.
pub fn generate_river(map: &mut World, dice: &mut Dice) -> (rivers: Vec<Walk>)
    requires
        old(map).wf(),
    ensures
        final(map).wf(),
        pass_follows(old(map)@, rivers@, final(map)@),
        old(map)@.carved_into(final(map)@),
        old(map)@.keeps_water(final(map)@),
        (forall|i: int|
            0 <= i < old(map)@.cells.len() ==> !(#[trigger] old(
                map,
            )@.cells[i]).cell_type.is_river_source()) ==> rivers@.len() == 0 && final(map)@ == old(
            map,
        )@,
{
    let ghost g = map@;
    let mut rivers: Vec<Walk> = Vec::new();
    let (width, height) = (map.width(), map.height());
    let mut row: u32 = 0;
    while row < height
        invariant
            g == old(map)@,
            g.wf(),
            map.wf(),
            width == g.width,
            height == g.height,
            0 <= row <= height,
            g.carved_into(map@),
            map@ == carved_all(g, rivers@, rivers@.len() as int),
            forall|k: int| 0 <= k < rivers@.len() ==> #[trigger] river_springs(g, rivers@, k),
            rivers@.len() > 0 ==> g.index_of(rivers@.last().path@[0]) < row * g.width,
        decreases height - row,
    {
        let mut col: u32 = 0;
        while col < width
            invariant
                g == old(map)@,
                g.wf(),
                map.wf(),
                width == g.width,
                height == g.height,
                0 <= row < height,
                0 <= col <= width,
                g.carved_into(map@),
                map@ == carved_all(g, rivers@, rivers@.len() as int),
                forall|k: int| 0 <= k < rivers@.len() ==> #[trigger] river_springs(g, rivers@, k),
                rivers@.len() > 0 ==> g.index_of(rivers@.last().path@[0]) < row * g.width + col,
            decreases width - col,
        {
            let ghost so_far = map@;
            let ghost earlier = rivers@;
            let drawn = map.cell(col, row).cell_type.river_source() && dice.chance(1, SOURCE_ODDS);
            if let Some(walk) = spring_river(map, col, row, drawn, dice) {
                let ghost start = hex_of(col as int, row as int);
                rivers.push(walk);
                proof {
                    let n = earlier.len() as int;
                    lemma_carved_into_transitive(g, so_far, map@);
                    lemma_carved_all_prefix(g, earlier, rivers@, n);
                    assert(rivers@[n].path@[0] == start);
                    assert(so_far.index_of(start) == g.index_of(start));
                    assert(river_springs(g, rivers@, n));
                    assert forall|k: int| 0 <= k < rivers@.len() implies #[trigger] river_springs(
                        g,
                        rivers@,
                        k,
                    ) by {
                        if k < n {
                            assert(river_springs(g, earlier, k));
                            lemma_carved_all_prefix(g, earlier, rivers@, k);
                        }
                    }
                }
            }
            col += 1;
        }
        proof {
            assert((row + 1) * g.width == row * g.width + g.width) by (nonlinear_arith);
        }
        row += 1;
    }
    proof {
        lemma_pass_only_adds_rivers(g, rivers@, rivers@.len() as int);
        if forall|i: int|
            0 <= i < g.cells.len() ==> !(#[trigger] g.cells[i]).cell_type.is_river_source() {
            lemma_no_source_no_river(g, rivers@, map@);
        }
    }
    rivers
}

/// Lets a river spring on the cell in column `col` of row `row` if the draw
/// fell on it. Where `drawn` holds and the cell is mountain or cliff, one
/// river is carved from it and returned. Otherwise there is no river and the
/// map stays as it is.
pub fn spring_river(map: &mut World, col: u32, row: u32, drawn: bool, dice: &mut Dice) -> (river:
    Option<Walk>)
    requires
        old(map).wf(),
        col < old(map)@.width,
        row < old(map)@.height,
    ensures
        final(map).wf(),
        river.is_some() <==> drawn && old(map)@.at(col as int, row as int).cell_type.is_river_source(),
        river.is_none() ==> final(map)@ == old(map)@,
        old(map)@.keeps_water(final(map)@),
        river matches Some(walk) ==> {
            &&& walk.path@.len() > 0
            &&& walk.path@[0] == hex_of(col as int, row as int)
            &&& walk_follows(old(map)@, walk.path@, walk.end)
            &&& final(map)@ == old(map)@.carved(walk.path@)
            &&& old(map)@.carved_into(final(map)@)
            &&& forall|k: int|
                0 <= k < walk.path@.len() ==> !old(map)@.cell_at(
                    #[trigger] walk.path@[k],
                ).cell_type.is_water()
        },
{
    if drawn && map.cell(col, row).cell_type.river_source() {
        Some(carve_river(map, col, row, dice))
    } else {
        None
    }
}

} // verus!
