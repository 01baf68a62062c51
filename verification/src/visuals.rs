//! What a drawing layer shows of the grid and of the selected units.

use crate::geometry::WorldPos;
use crate::hex::Hex;
use crate::layout::{cell_at, corners_in_place, GridLayout};
use crate::motion::{has_arrived, ARRIVAL_RADIUS};
use crate::unit::{Unit, UnitView};
use vstd::prelude::*;

verus! {

/// A straight line between two world points.
#[derive(Clone, Copy, Debug, PartialEq, Eq, Hash, Structural)]
pub struct Segment {
    pub from: WorldPos,
    pub to: WorldPos,
}

/// The closed outline through `corners`: a line from each corner to the
/// next, and from the last back to the first.
pub open spec fn outline(corners: Seq<WorldPos>) -> Seq<Segment> {
    Seq::new(
        corners.len(),
        |i: int| Segment { from: corners[i], to: corners[(i + 1) % (corners.len() as int)] },
    )
}

/// The points of the path preview of a unit: where it is, where it heads,
/// and the waypoints that follow.
pub open spec fn preview_points(u: UnitView) -> Seq<WorldPos> {
    seq![u.position, u.target] + u.path
}

/// The cell to mark as the unit's destination: the cell where its journey
/// ends, as long as the unit is under way.
pub open spec fn destination_shown(u: UnitView, layout: GridLayout) -> Option<Hex> {
    if u.path.len() > 0 || !has_arrived(u) {
        Some(cell_at(layout, u.journey_end()))
    } else {
        None
    }
}

/// The closed outline through `corners`.
pub fn outline_of(corners: &Vec<WorldPos>) -> (edges: Vec<Segment>)
    ensures
        edges@ == outline(corners@),
{
    let n = corners.len();
    let mut edges: Vec<Segment> = Vec::new();
    let mut i: usize = 0;
    while i < n
        invariant
            0 <= i <= n,
            n == corners@.len(),
            edges@.len() == i,
            forall|j: int| 0 <= j < i ==> #[trigger] edges@[j] == outline(corners@)[j],
        decreases n - i,
    {
        let next = if i + 1 == n { 0 } else { i + 1 };
        proof {
            if i + 1 == n {
                vstd::arithmetic::div_mod::lemma_mod_self_0(n as int);
            } else {
                vstd::arithmetic::div_mod::lemma_small_mod((i + 1) as nat, n as nat);
            }
        }
        edges.push(Segment { from: corners[i], to: corners[next] });
        i += 1;
    }
    proof {
        assert(edges@ =~= outline(corners@));
    }
    edges
}

/// The points at which the sides of an outline begin, in order.
pub open spec fn outline_corners(edges: Seq<Segment>) -> Seq<WorldPos> {
    edges.map_values(|e: Segment| e.from)
}

/// The six sides of `cell`: a closed outline that runs from corner to corner
/// of the cell in rotational order, each side beginning where the one before
/// it ends.
pub fn hex_outline(layout: &GridLayout, cell: Hex) -> (edges: Vec<Segment>)
    ensures
        edges@.len() == 6,
        edges@ == outline(outline_corners(edges@)),
        corners_in_place(*layout, cell, outline_corners(edges@)),
{
    let corners = layout.corners(cell);
    let edges = outline_of(&corners);
    proof {
        assert(outline_corners(edges@) =~= corners@);
    }
    edges
}

/// The points of the path preview of a unit, in order.
pub fn path_preview(unit: &Unit) -> (points: Vec<WorldPos>)
    ensures
        points@ == preview_points(unit@),
{
    let mut points: Vec<WorldPos> = Vec::new();
    points.push(unit.position);
    points.push(unit.target);
    let mut i: usize = 0;
    while i < unit.path.len()
        invariant
            0 <= i <= unit.path@.len(),
            points@ == seq![unit.position, unit.target] + unit.path@.take(i as int),
        decreases unit.path@.len() - i,
    {
        points.push(unit.path[i]);
        proof {
            assert(points@ =~= seq![unit.position, unit.target] + unit.path@.take(i + 1));
        }
        i += 1;
    }
    proof {
        assert(unit.path@.take(unit.path@.len() as int) =~= unit.path@);
    }
    points
}

/// The cell to mark as the unit's destination, if the unit is under way.
pub fn destination_marker(unit: &Unit, layout: &GridLayout) -> (cell: Option<Hex>)
    ensures
        cell == destination_shown(unit@, *layout),
{
    let reach: u128 = 4;
    assert(reach == ARRIVAL_RADIUS * ARRIVAL_RADIUS);
    let n = unit.path.len();
    if n > 0 {
        Some(layout.world_to_hex(unit.path[n - 1]))
    } else if unit.position.distance_squared(unit.target) > reach {
        Some(layout.world_to_hex(unit.target))
    } else {
        None
    }
}

} // verus!
