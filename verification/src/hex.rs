//! Adjacency on the hexagonal lattice.
//!
//! Every cell touches up to six others: two in its own row, two hexes away
//! in half columns, and two in each of the rows above and below, one half
//! column to either side.

use vstd::prelude::*;
use crate::grid::{Grid, HexPos, World};

verus! {

/// Whether half column `x` of row `y` lies on a grid of the given shape.
pub open spec fn inside(width: u32, height: u32, x: int, y: int) -> bool {
    0 <= x < 2 * width && 0 <= y < height
}

/// The position at half column `x` of row `y` if it lies on the grid, and
/// nothing otherwise.
pub open spec fn slot(width: u32, height: u32, x: int, y: int) -> Seq<HexPos> {
    if inside(width, height, x, y) {
        seq![HexPos { x: x as u64, y: y as u64 }]
    } else {
        Seq::empty()
    }
}

/// The neighbours of a position on a grid of the given shape: east, north-east,
/// north-west, west, south-west, south-east, leaving out those off the grid.
pub open spec fn neighbors(width: u32, height: u32, p: HexPos) -> Seq<HexPos> {
    slot(width, height, p.x + 2, p.y as int) + slot(width, height, p.x + 1, p.y - 1) + slot(
        width,
        height,
        p.x - 1,
        p.y - 1,
    ) + slot(width, height, p.x - 2, p.y as int) + slot(width, height, p.x - 1, p.y + 1) + slot(
        width,
        height,
        p.x + 1,
        p.y + 1,
    )
}

/// Whether two positions are one hex apart.
pub open spec fn adjacent(p: HexPos, q: HexPos) -> bool {
    let dx = q.x - p.x;
    let dy = q.y - p.y;
    (dy == 0 && (dx == 2 || dx == -2)) || ((dy == 1 || dy == -1) && (dx == 1 || dx == -1))
}

impl Grid {
    /// The neighbours of a position that lie on this grid.
    pub open spec fn neighbors(self, p: HexPos) -> Seq<HexPos> {
        neighbors(self.width, self.height, p)
    }

    /// A position with fewer than six neighbours on the grid is at its edge.
    pub open spec fn at_edge(self, p: HexPos) -> bool {
        self.neighbors(p).len() < 6
    }
}

/// The neighbours of a position are exactly the positions on the grid that
/// are one hex away from it. There are at most six, none occurs twice, and
/// the neighbours of a cell centre are cell centres.
pub proof fn lemma_neighbors(width: u32, height: u32, p: HexPos)
    ensures
        neighbors(width, height, p).len() <= 6,
        neighbors(width, height, p).no_duplicates(),
        forall|q: HexPos|
            neighbors(width, height, p).contains(q) <==> inside(width, height, q.x as int, q.y as int)
                && adjacent(p, q),
        p.aligned() ==> forall|i: int|
            0 <= i < neighbors(width, height, p).len() ==> (#[trigger] neighbors(
                width,
                height,
                p,
            )[i]).aligned(),
{
    let n = neighbors(width, height, p);
    let (x, y) = (p.x as int, p.y as int);
    let s0 = slot(width, height, x + 2, y);
    let s1 = slot(width, height, x + 1, y - 1);
    let s2 = slot(width, height, x - 1, y - 1);
    let s3 = slot(width, height, x - 2, y);
    let s4 = slot(width, height, x - 1, y + 1);
    let s5 = slot(width, height, x + 1, y + 1);
    assert(n == s0 + s1 + s2 + s3 + s4 + s5);
    assert forall|q: HexPos|
        inside(width, height, q.x as int, q.y as int) && adjacent(p, q) implies n.contains(q) by {
        let (dx, dy) = (q.x - x, q.y - y);
        let k: int = if dy == 0 && dx == 2 {
            assert(s0[0] == q);
            0
        } else if dy == -1 && dx == 1 {
            assert(s1[0] == q);
            s0.len() as int
        } else if dy == -1 && dx == -1 {
            assert(s2[0] == q);
            (s0.len() + s1.len()) as int
        } else if dy == 0 && dx == -2 {
            assert(s3[0] == q);
            (s0.len() + s1.len() + s2.len()) as int
        } else if dy == 1 && dx == -1 {
            assert(s4[0] == q);
            (s0.len() + s1.len() + s2.len() + s3.len()) as int
        } else {
            assert(s5[0] == q);
            (s0.len() + s1.len() + s2.len() + s3.len() + s4.len()) as int
        };
        assert(n[k] == q);
    }
    assert forall|q: HexPos| n.contains(q) implies inside(width, height, q.x as int, q.y as int)
        && adjacent(p, q) by {
        let k = choose|k: int| 0 <= k < n.len() && n[k] == q;
        assert(n[k] == q);
    }
}

/// A position that has all six neighbours is not on the rim of the grid, and
/// lies on the grid itself.
pub proof fn lemma_six_neighbors_is_interior(width: u32, height: u32, p: HexPos)
    ensures
        neighbors(width, height, p).len() == 6 <==> 2 <= p.x && p.x + 2 < 2 * width && 1 <= p.y
            && p.y + 1 < height,
{
}

/// Adjacency is symmetric.
pub proof fn lemma_adjacent_symmetric(p: HexPos, q: HexPos)
    ensures
        adjacent(p, q) == adjacent(q, p),
{
}

/// The position at half column `x` of row `y`, if it lies on the map.
fn slot_at(map: &World, x: i128, y: i128) -> (r: Option<HexPos>)
    requires
        -2 <= x <= u64::MAX + 2,
        -2 <= y <= u64::MAX + 2,
    ensures
        r.is_some() <==> inside(map@.width, map@.height, x as int, y as int),
        r matches Some(q) ==> q.x == x && q.y == y,
{
    let columns = 2 * (map.width() as i128);
    let rows = map.height() as i128;
    if 0 <= x && x < columns && 0 <= y && y < rows {
        Some(HexPos { x: x as u64, y: y as u64 })
    } else {
        None
    }
}

/// Appends the position at half column `x` of row `y` if it lies on the map.
fn push_slot(found: &mut Vec<HexPos>, map: &World, x: i128, y: i128)
    requires
        -2 <= x <= u64::MAX + 2,
        -2 <= y <= u64::MAX + 2,
    ensures
        final(found)@ == old(found)@ + slot(map@.width, map@.height, x as int, y as int),
{
    match slot_at(map, x, y) {
        Some(q) => {
            found.push(q);
            assert(found@ =~= old(found)@ + seq![q]);
        },
        None => {
            assert(found@ =~= old(found)@ + Seq::<HexPos>::empty());
        },
    }
}

/// The neighbours on the map of the position at half column `x` of row `y`,
/// in the order east, north-east, north-west, west, south-west, south-east.
/// A position with fewer than six is at the edge of the map.
pub fn get_neighbors(map: &World, x: u64, y: u64) -> (found: Vec<HexPos>)
    ensures
        found@ == map@.neighbors(HexPos { x, y }),
{
    let (x, y) = (x as i128, y as i128);
    let mut found: Vec<HexPos> = Vec::new();
    assert(found@ =~= Seq::<HexPos>::empty());
    push_slot(&mut found, map, x + 2, y);
    push_slot(&mut found, map, x + 1, y - 1);
    push_slot(&mut found, map, x - 1, y - 1);
    push_slot(&mut found, map, x - 2, y);
    push_slot(&mut found, map, x - 1, y + 1);
    push_slot(&mut found, map, x + 1, y + 1);
    assert(found@ =~= map@.neighbors(HexPos { x: x as u64, y: y as u64 }));
    found
}

} // verus!
