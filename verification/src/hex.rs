//! Axial hexagonal coordinates: distance, rings, spirals and line walks.

use crate::rings::{
    lemma_ring_complete, lemma_ring_no_duplicates, lemma_spiral_complete, lemma_spiral_distance,
    lemma_spiral_len, lemma_spiral_no_duplicates, lemma_spiral_ordering,
    lemma_spiral_ring_monotone, ring_cells, ring_len, spiral_cells, spiral_len, spiral_ring,
};
use vstd::prelude::*;

verus! {

/// Largest magnitude of an axial coordinate between which the library
/// walks a line. Within it every coordinate is held exactly by the
/// single-precision arithmetic of the grid crate.
pub const COORD_LIMIT: i32 = 8_388_608;

/// A cell of the unbounded mathematical grid, in axial coordinates.
pub struct Axial {
    pub q: int,
    pub r: int,
}

/// A cell of the grid, in axial coordinates.
#[derive(Clone, Copy, Debug, PartialEq, Eq, Hash, Structural)]
pub struct Hex {
    pub q: i32,
    pub r: i32,
}

impl View for Hex {
    type V = Axial;

    open spec fn view(&self) -> Axial {
        Axial { q: self.q as int, r: self.r as int }
    }
}

/// Absolute value of an integer.
pub open spec fn abs(x: int) -> int {
    if x < 0 {
        -x
    } else {
        x
    }
}

/// The larger of two integers.
pub open spec fn max2(a: int, b: int) -> int {
    if a >= b {
        a
    } else {
        b
    }
}

impl Axial {
    /// Number of steps between neighbouring cells from `self` to `other`.
    pub open spec fn distance(self, other: Axial) -> int {
        let dq = self.q - other.q;
        let dr = self.r - other.r;
        max2(abs(dq), max2(abs(dr), abs(dq + dr)))
    }

    /// Both coordinates lie within `limit` of zero.
    pub open spec fn within(self, limit: int) -> bool {
        -limit <= self.q <= limit && -limit <= self.r <= limit
    }

    /// There is room around `self` for every cell within `radius` steps:
    /// the coordinates of each fit 32 bits.
    pub open spec fn has_room(self, radius: int) -> bool {
        &&& i32::MIN <= self.q - radius && self.q + radius <= i32::MAX
        &&& i32::MIN <= self.r - radius && self.r + radius <= i32::MAX
    }
}

/// The cell of the bounded grid at a mathematical coordinate that fits it.
pub open spec fn hex_of(a: Axial) -> Hex {
    Hex { q: a.q as i32, r: a.r as i32 }
}

/// The spiral of radius `r` around `center`, as cells of the bounded grid.
pub open spec fn spiral_hexes(center: Hex, r: nat) -> Seq<Hex> {
    spiral_cells(center@, r).map_values(|a: Axial| hex_of(a))
}

/// The ring of radius `k` around `center`, as cells of the bounded grid.
pub open spec fn ring_hexes(center: Hex, k: nat) -> Seq<Hex> {
    ring_cells(center@, k).map_values(|a: Axial| hex_of(a))
}

/// The views of a sequence of cells, in order.
pub open spec fn hex_views(cells: Seq<Hex>) -> Seq<Axial> {
    cells.map_values(|h: Hex| h@)
}

/// A sequence of cells holds a cell exactly where the sequence of their
/// views holds its view.
pub proof fn lemma_views_contain(cells: Seq<Hex>, h: Hex)
    ensures
        cells.contains(h) <==> hex_views(cells).contains(h@),
{
    if cells.contains(h) {
        let i = choose|i: int| 0 <= i < cells.len() && cells[i] == h;
        assert(hex_views(cells)[i] == h@);
    }
    if hex_views(cells).contains(h@) {
        let i = choose|i: int| 0 <= i < hex_views(cells).len() && hex_views(cells)[i] == h@;
        assert(cells[i]@ == h@);
        assert(cells[i] == h);
    }
}

/// What holds of a sequence of grid cells whose views are the ring of radius
/// `k` around `center`.
pub proof fn lemma_ring_facts(center: Hex, k: nat, cells: Seq<Hex>)
    requires
        hex_views(cells) == ring_cells(center@, k),
    ensures
        cells == ring_hexes(center, k),
        cells.len() == ring_len(k),
        cells.no_duplicates(),
        forall|h: Hex| cells.contains(h) <==> h@.distance(center@) == k,
{
    assert(hex_views(cells).len() == cells.len());
    assert forall|i: int| 0 <= i < cells.len() implies (#[trigger] cells[i])@ == ring_cells(
        center@,
        k,
    )[i] by {
        assert(cells[i]@ == hex_views(cells)[i]);
    }
    lemma_ring_no_duplicates(center@, k);
    assert forall|h: Hex| cells.contains(h) <==> h@.distance(center@) == k by {
        lemma_ring_complete(center@, k, h@);
        lemma_views_contain(cells, h);
    }
    assert(cells =~= ring_hexes(center, k));
}

/// What holds of a sequence of grid cells whose views are the spiral of
/// radius `r` around `center`.
pub proof fn lemma_spiral_facts(center: Hex, r: nat, cells: Seq<Hex>)
    requires
        hex_views(cells) == spiral_cells(center@, r),
    ensures
        cells == spiral_hexes(center, r),
        cells.len() == 1 + 3 * r * (r + 1),
        cells[0] == center,
        cells.no_duplicates(),
        forall|h: Hex| cells.contains(h) <==> h@.distance(center@) <= r,
        forall|i: int|
            0 <= i < cells.len() ==> (#[trigger] cells[i])@.distance(center@) == spiral_ring(r, i),
        forall|i: int, j: int|
            0 <= i <= j < cells.len() ==> (#[trigger] cells[i])@.distance(center@) <= (
            #[trigger] cells[j])@.distance(center@),
{
    assert(hex_views(cells).len() == cells.len());
    assert forall|i: int| 0 <= i < cells.len() implies (#[trigger] cells[i])@ == spiral_cells(
        center@,
        r,
    )[i] by {
        assert(cells[i]@ == hex_views(cells)[i]);
    }
    lemma_spiral_ordering(center@, r);
    lemma_spiral_no_duplicates(center@, r);
    assert forall|h: Hex| cells.contains(h) <==> h@.distance(center@) <= r by {
        lemma_spiral_complete(center@, r, h@);
        lemma_views_contain(cells, h);
    }
    assert forall|i: int| 0 <= i < cells.len() implies (#[trigger] cells[i])@.distance(center@)
        == spiral_ring(r, i) by {
        lemma_spiral_distance(center@, r, i);
    }
    assert forall|i: int, j: int| 0 <= i <= j < cells.len() implies (#[trigger] cells[i])@.distance(
        center@,
    ) <= (#[trigger] cells[j])@.distance(center@) by {
        lemma_spiral_distance(center@, r, i);
        lemma_spiral_distance(center@, r, j);
        lemma_spiral_ring_monotone(r, i, j);
    }
    assert(cells[0]@ == center@);
    assert(cells =~= spiral_hexes(center, r));
}

/// Where there is room for it, the spiral of grid cells around `center` is,
/// cell by cell, the spiral of the unbounded grid.
pub proof fn lemma_spiral_hexes_views(center: Hex, r: nat)
    requires
        center@.has_room(r as int),
    ensures
        hex_views(spiral_hexes(center, r)) == spiral_cells(center@, r),
{
    let cells = spiral_cells(center@, r);
    lemma_spiral_len(center@, r);
    assert forall|i: int| 0 <= i < cells.len() implies hex_of(cells[i])@ == cells[i] by {
        lemma_spiral_distance(center@, r, i);
    }
    assert(hex_views(spiral_hexes(center, r)) =~= cells);
}

/// The cells that the grid crate's line walk visits from `from` to `to`, in
/// order.
pub uninterp spec fn line_cells(from: Hex, to: Hex) -> Seq<Hex>;

/// `hexx::Hex::ring`: the ring of the given radius around `center`. The
/// crate starts at the neighbour direction of index 0, scaled by the radius,
/// and walks the six sides counter-clockwise, which is the order of
/// `ring_cells`. It adds and multiplies in 32 bits and counts the cells in a
/// `usize`; the bounds keep both from overflowing.
#[verifier::external_body]
fn hexx_ring(center: Hex, radius: u32) -> (cells: Vec<Hex>)
    requires
        center@.has_room(radius as int),
        ring_len(radius as nat) <= usize::MAX,
    ensures
        hex_views(cells@) == ring_cells(center@, radius as nat),
{
    hexx::Hex::new(center.q, center.r).ring(radius).map(|h| Hex { q: h.x, r: h.y }).collect()
}

/// `hexx::Hex::spiral_range` over the radii `0..=radius`: the rings around
/// `center` one after the other, each as `hexx::Hex::ring` gives it.
#[verifier::external_body]
fn hexx_spiral_range(center: Hex, radius: u32) -> (cells: Vec<Hex>)
    requires
        center@.has_room(radius as int),
        spiral_len(radius as nat) <= usize::MAX,
    ensures
        hex_views(cells@) == spiral_cells(center@, radius as nat),
{
    hexx::Hex::new(center.q, center.r).spiral_range(0..=radius).map(
        |h| Hex { q: h.x, r: h.y },
    ).collect()
}

/// `hexx::Hex::line_to`: the cells on the line from `from` to `to`. The crate
/// interpolates between the two cells in single precision and rounds each
/// sample to a cell; it yields one cell more than the distance, and within
/// the coordinate limit the first sample is `from` and the last is `to`.
#[verifier::external_body]
fn hexx_line_to(from: Hex, to: Hex) -> (cells: Vec<Hex>)
    requires
        from@.within(COORD_LIMIT as int),
        to@.within(COORD_LIMIT as int),
    ensures
        cells@ == line_cells(from, to),
        cells@.len() == from@.distance(to@) + 1,
        cells@.first() == from,
        cells@.last() == to,
{
    hexx::Hex::new(from.q, from.r).line_to(hexx::Hex::new(to.q, to.r)).map(
        |h| Hex { q: h.x, r: h.y },
    ).collect()
}

impl Hex {
    /// The cell at (`q`, `r`).
    pub fn new(q: i32, r: i32) -> (h: Hex)
        ensures
            h == (Hex { q, r }),
    {
        Hex { q, r }
    }

    /// The cell at the origin.
    pub fn zero() -> (h: Hex)
        ensures
            h == (Hex { q: 0, r: 0 }),
    {
        Hex { q: 0, r: 0 }
    }

    /// Whether both coordinates lie within `limit` of zero.
    pub fn within(self, limit: i32) -> (b: bool)
        ensures
            b == self@.within(limit as int),
    {
        limit >= 0 && -limit <= self.q && self.q <= limit && -limit <= self.r && self.r <= limit
    }

    /// Whether there is room around `self` for the ring of the given
    /// radius, and a `usize` can count its cells.
    pub fn ring_fits(self, radius: u32) -> (fits: bool)
        ensures
            fits == (self@.has_room(radius as int) && ring_len(radius as nat) <= usize::MAX),
    {
        let k: i64 = radius as i64;
        let q: i64 = self.q as i64;
        let r: i64 = self.r as i64;
        let low: i64 = i32::MIN as i64;
        let high: i64 = i32::MAX as i64;
        let count: u128 = if radius == 0 { 1 } else { 6 * (radius as u128) };
        low <= q - k && q + k <= high && low <= r - k && r + k <= high && count <= (
        usize::MAX as u128)
    }

    /// Whether there is room around `self` for the spiral of the given
    /// radius, and a `usize` can count its cells.
    pub fn spiral_fits(self, radius: u32) -> (fits: bool)
        ensures
            fits == (self@.has_room(radius as int) && spiral_len(radius as nat) <= usize::MAX),
    {
        let k: i64 = radius as i64;
        let q: i64 = self.q as i64;
        let r: i64 = self.r as i64;
        let low: i64 = i32::MIN as i64;
        let high: i64 = i32::MAX as i64;
        let n: u128 = radius as u128;
        assert(0 <= n * (n + 1) <= 0x1_0000_0000 * 0x1_0000_0000) by (nonlinear_arith)
            requires
                0 <= n < 0x1_0000_0000,
        ;
        assert(3 * n * (n + 1) == 3 * (n * (n + 1))) by (nonlinear_arith);
        let count: u128 = 1 + 3 * (n * (n + 1));
        low <= q - k && q + k <= high && low <= r - k && r + k <= high && count <= (
        usize::MAX as u128)
    }

    /// Number of steps between neighbouring cells from `self` to `other`.
    pub fn distance_to(self, other: Hex) -> (d: u64)
        ensures
            d == self@.distance(other@),
    {
        let dq: i64 = self.q as i64 - other.q as i64;
        let dr: i64 = self.r as i64 - other.r as i64;
        let ds: i64 = dq + dr;
        let aq: i64 = if dq < 0 { -dq } else { dq };
        let ar: i64 = if dr < 0 { -dr } else { dr };
        let a_s: i64 = if ds < 0 { -ds } else { ds };
        let m: i64 = if ar >= a_s { ar } else { a_s };
        if aq >= m { aq as u64 } else { m as u64 }
    }

    /// The ring of radius `radius` around `self`: from the corner on the
    /// positive q axis counter-clockwise. Radius 0 gives `self` alone. The
    /// ring holds each cell at distance `radius` from `self` once, and no
    /// other cell.
    pub fn ring(self, radius: u32) -> (cells: Vec<Hex>)
        requires
            self@.has_room(radius as int),
            ring_len(radius as nat) <= usize::MAX,
        ensures
            cells@ == ring_hexes(self, radius as nat),
            hex_views(cells@) == ring_cells(self@, radius as nat),
            cells@.len() == ring_len(radius as nat),
            cells@.no_duplicates(),
            forall|h: Hex| cells@.contains(h) <==> h@.distance(self@) == radius,
    {
        let cells = hexx_ring(self, radius);
        proof {
            lemma_ring_facts(self, radius as nat, cells@);
        }
        cells
    }

    /// Every cell within `radius` steps of `self`, ring by ring outwards:
    /// `self` first, then ring 1, ring 2 and so on, each in the order of
    /// [`Hex::ring`]. The spiral holds each cell within `radius` steps of
    /// `self` once, and no other cell.
    pub fn spiral_range(self, radius: u32) -> (cells: Vec<Hex>)
        requires
            self@.has_room(radius as int),
            spiral_len(radius as nat) <= usize::MAX,
        ensures
            cells@ == spiral_hexes(self, radius as nat),
            hex_views(cells@) == spiral_cells(self@, radius as nat),
            cells@.len() == 1 + 3 * radius * (radius + 1),
            cells@[0] == self,
            cells@.no_duplicates(),
            forall|h: Hex| cells@.contains(h) <==> h@.distance(self@) <= radius,
            forall|i: int|
                0 <= i < cells@.len() ==> (#[trigger] cells@[i])@.distance(self@) == spiral_ring(
                    radius as nat,
                    i,
                ),
            forall|i: int, j: int|
                0 <= i <= j < cells@.len() ==> (#[trigger] cells@[i])@.distance(self@) <= (
                #[trigger] cells@[j])@.distance(self@),
    {
        let cells = hexx_spiral_range(self, radius);
        proof {
            lemma_spiral_facts(self, radius as nat, cells@);
        }
        cells
    }

    /// The cells on the straight walk from `self` to `other`, both included:
    /// one cell more than the distance between the two.
    pub fn line_to(self, other: Hex) -> (cells: Vec<Hex>)
        requires
            self@.within(COORD_LIMIT as int),
            other@.within(COORD_LIMIT as int),
        ensures
            cells@ == line_cells(self, other),
            cells@.len() == self@.distance(other@) + 1,
            cells@.first() == self,
            cells@.last() == other,
    {
        hexx_line_to(self, other)
    }
}

} // verus!
