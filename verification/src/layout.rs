//! The bridge between grid cells and the world plane.

use crate::geometry::WorldPos;
use crate::hex::Hex;
use vstd::prelude::*;

verus! {

/// Which way the hexagons point.
#[derive(Clone, Copy, Debug, PartialEq, Eq, Hash, Structural)]
pub enum Orientation {
    /// A corner of each hexagon points up.
    Pointy,
    /// A side of each hexagon faces up.
    Flat,
}

/// How the grid is laid over the world plane. It is chosen once and never
/// changes afterwards.
#[derive(Clone, Copy, Debug, PartialEq, Eq, Hash, Structural)]
pub struct GridLayout {
    /// Which way the hexagons point.
    pub orientation: Orientation,
    /// Size of a cell: the distance from its centre to a corner, in world
    /// units.
    pub scale: i32,
    /// The world point at the centre of the cell (0, 0).
    pub origin: WorldPos,
}

/// The cell in which the grid crate places a world point.
pub uninterp spec fn cell_at(layout: GridLayout, pos: WorldPos) -> Hex;

/// The world point, in whole units, nearest to where the grid crate places
/// the centre of a cell.
pub uninterp spec fn center_of(layout: GridLayout, cell: Hex) -> WorldPos;

/// `hexx::HexLayout::world_pos_to_hex` on the layout with the same
/// orientation, origin and scale: the cell whose centre lies nearest to the
/// point. The crate computes in single precision, so the result is only
/// named.
#[verifier::external_body]
fn hexx_world_pos_to_hex(layout: &GridLayout, pos: WorldPos) -> (cell: Hex)
    ensures
        cell == cell_at(*layout, pos),
{
    let grid = hexx::HexLayout {
        orientation: match layout.orientation {
            Orientation::Pointy => hexx::HexOrientation::Pointy,
            Orientation::Flat => hexx::HexOrientation::Flat,
        },
        origin: hexx::IVec2::new(layout.origin.x, layout.origin.y).as_vec2(),
        scale: hexx::IVec2::splat(layout.scale).as_vec2(),
    };
    let h = grid.world_pos_to_hex(hexx::IVec2::new(pos.x, pos.y).as_vec2());
    Hex { q: h.x, r: h.y }
}

/// `hexx::HexLayout::hex_to_world_pos` on the layout with the same
/// orientation, origin and scale: the centre of the cell, rounded to whole
/// world units.
#[verifier::external_body]
fn hexx_hex_to_world_pos(layout: &GridLayout, cell: Hex) -> (pos: WorldPos)
    ensures
        pos == center_of(*layout, cell),
{
    let grid = hexx::HexLayout {
        orientation: match layout.orientation {
            Orientation::Pointy => hexx::HexOrientation::Pointy,
            Orientation::Flat => hexx::HexOrientation::Flat,
        },
        origin: hexx::IVec2::new(layout.origin.x, layout.origin.y).as_vec2(),
        scale: hexx::IVec2::splat(layout.scale).as_vec2(),
    };
    let p = grid.hex_to_world_pos(hexx::Hex::new(cell.q, cell.r)).round().as_ivec2();
    WorldPos { x: p.x, y: p.y }
}

/// Whether the centre of `cell` lies in `cell`: the way from the cell to
/// the world and back ends where it began.
pub open spec fn round_trips(layout: GridLayout, cell: Hex) -> bool {
    cell_at(layout, center_of(layout, cell)) == cell
}

/// Largest cell size for which the library says where the corners of a cell
/// lie.
pub const CORNER_SCALE_LIMIT: i32 = 65_536;

/// How far from the world origin, along either axis, the corners of a cell
/// may lie for the library to say where they lie.
pub const CORNER_RANGE: i32 = 4_000_000;

/// The size of a cell of the layout: the magnitude of its scale.
pub open spec fn cell_size(layout: GridLayout) -> int {
    if layout.scale < 0 {
        -layout.scale
    } else {
        layout.scale as int
    }
}

/// Whether the cell is small enough and near enough to the world origin for
/// single precision to place its corners to within a fraction of a world
/// unit.
pub open spec fn corners_in_range(layout: GridLayout, cell: Hex) -> bool {
    let c = center_of(layout, cell);
    let s = cell_size(layout);
    &&& s <= CORNER_SCALE_LIMIT
    &&& -CORNER_RANGE < c.x - s && c.x + s < CORNER_RANGE
    &&& -CORNER_RANGE < c.y - s && c.y + s < CORNER_RANGE
}

/// Whether `p` lies no farther from the centre of `cell` than a corner can,
/// along either axis: a cell size, and one unit for the rounding.
pub open spec fn near_centre(layout: GridLayout, cell: Hex, p: WorldPos) -> bool {
    let c = center_of(layout, cell);
    let s = cell_size(layout);
    &&& c.x - s - 1 <= p.x <= c.x + s + 1
    &&& c.y - s - 1 <= p.y <= c.y + s + 1
}

/// Whether `a` and `b` lie as far apart as two corners of a cell that follow
/// each other: a cell size, give or take three units for the rounding.
pub open spec fn one_side_apart(layout: GridLayout, a: WorldPos, b: WorldPos) -> bool {
    let s = cell_size(layout);
    &&& a.dist_sq(b) <= (s + 3) * (s + 3)
    &&& s >= 3 ==> (s - 3) * (s - 3) <= a.dist_sq(b)
}

/// Whether `points` are six points that lie where the corners of `cell`
/// belong, as far as that is the same on every machine: each within a cell
/// size of the centre, and each a side's length from the next, the last
/// from the first. Nothing is said of a cell out of range but the number of
/// its corners.
pub open spec fn corners_in_place(layout: GridLayout, cell: Hex, points: Seq<WorldPos>) -> bool {
    &&& points.len() == 6
    &&& corners_in_range(layout, cell) ==> forall|i: int|
        0 <= i < 6 ==> near_centre(layout, cell, #[trigger] points[i]) && one_side_apart(
            layout,
            points[i],
            points[(i + 1) % 6],
        )
}

/// `hexx::HexLayout::hex_corners` on the layout with the same orientation,
/// origin and scale: the six corners of the cell in the crate's fixed
/// rotational order, each rounded to whole world units.
///
/// The crate adds to the centre of the cell, as
/// `hexx::HexLayout::hex_to_world_pos` gives it, the scale times the cosine
/// and sine of six angles that are a sixth of a turn apart. The standard
/// library leaves the last digits of sine and cosine open, so the corners
/// are not named. What is claimed leaves each of the two an error of five
/// millionths, some forty times the last digit of single precision, and is
/// claimed only of cells in range: there the angles, the products, the sums
/// and the rounding to whole units together displace a corner by about one
/// unit at most along either axis.
#[verifier::external_body]
fn hexx_hex_corners(layout: &GridLayout, cell: Hex) -> (points: Vec<WorldPos>)
    ensures
        corners_in_place(*layout, cell, points@),
{
    let grid = hexx::HexLayout {
        orientation: match layout.orientation {
            Orientation::Pointy => hexx::HexOrientation::Pointy,
            Orientation::Flat => hexx::HexOrientation::Flat,
        },
        origin: hexx::IVec2::new(layout.origin.x, layout.origin.y).as_vec2(),
        scale: hexx::IVec2::splat(layout.scale).as_vec2(),
    };
    let corners = grid.hex_corners(hexx::Hex::new(cell.q, cell.r));
    corners.iter().map(|c| c.round().as_ivec2()).map(|p| WorldPos { x: p.x, y: p.y }).collect()
}

impl GridLayout {
    /// A layout of the given orientation and cell size with the cell (0, 0)
    /// at the world origin.
    pub fn new(orientation: Orientation, scale: i32) -> (layout: GridLayout)
        ensures
            layout == (GridLayout { orientation, scale, origin: WorldPos { x: 0, y: 0 } }),
    {
        GridLayout { orientation, scale, origin: WorldPos { x: 0, y: 0 } }
    }

    /// The world point at the centre of `cell`.
    pub fn hex_to_world(&self, cell: Hex) -> (pos: WorldPos)
        ensures
            pos == center_of(*self, cell),
    {
        hexx_hex_to_world_pos(self, cell)
    }

    /// The cell that contains the world point `pos`: the one whose centre
    /// lies nearest.
    pub fn world_to_hex(&self, pos: WorldPos) -> (cell: Hex)
        ensures
            cell == cell_at(*self, pos),
    {
        hexx_world_pos_to_hex(self, pos)
    }

    /// Whether the centre of `cell` lies in `cell`. It need not: on a layout
    /// of scale 0 every centre is the origin.
    pub fn round_trips_at(&self, cell: Hex) -> (ok: bool)
        ensures
            ok == round_trips(*self, cell),
    {
        self.world_to_hex(self.hex_to_world(cell)) == cell
    }

    /// The six corners of `cell`, in a fixed rotational order: each lies
    /// within a cell size of the centre of the cell, and a side's length
    /// from the corner that follows it.
    pub fn corners(&self, cell: Hex) -> (points: Vec<WorldPos>)
        ensures
            points@.len() == 6,
            corners_in_place(*self, cell, points@),
    {
        hexx_hex_corners(self, cell)
    }
}

} // verus!
