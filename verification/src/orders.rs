//! Move orders: free destination cells for the selected units and a route
//! to each.

use crate::assignment::{
    assign, assign_destinations, blocked_count, cells_of, free_cells, lemma_assign_distinct,
    lemma_assign_len, lemma_assign_takes_first_free, lemma_blocked_none,
};
use crate::geometry::WorldPos;
use crate::hex::{
    lemma_spiral_facts, lemma_spiral_hexes_views, line_cells, spiral_hexes, Hex, COORD_LIMIT,
};
use crate::layout::{cell_at, center_of, round_trips, GridLayout};
use crate::rings::spiral_len;
use crate::selection::{
    find_unit_at, first_hit, lemma_first_hit, lemma_first_hit_by_position, lemma_first_hit_is,
    toggled_at,
};
use crate::unit::{unit_views, Unit, UnitView};
use std::collections::VecDeque;
use vstd::prelude::*;

verus! {

/// How far around the clicked cell a move order looks for free cells.
pub const SEARCH_RADIUS: u32 = 10;

/// What a click did.
#[derive(Clone, Copy, Debug, PartialEq, Eq, Structural)]
pub enum ClickOutcome {
    /// The click hit the unit of this index, whose selection marker was
    /// flipped.
    Toggled(usize),
    /// The click fell on an empty cell and this many selected units were
    /// sent towards it.
    Ordered(usize),
    /// The click fell on an empty cell while nothing was selected.
    NothingSelected,
    /// The click fell on an empty cell, no free destination was found and
    /// the selection was dropped.
    SelectionCleared,
}

/// Whether unit `u` is not selected and heads for `cell`.
pub open spec fn heads_for(u: UnitView, layout: GridLayout, cell: Hex) -> bool {
    !u.selected && cell_at(layout, u.target) == cell
}

/// Whether one of the first `n` units is not selected and heads for `cell`.
pub open spec fn occupied_among(
    units: Seq<UnitView>,
    layout: GridLayout,
    n: int,
    cell: Hex,
) -> bool {
    exists|i: int| 0 <= i < n && i < units.len() && #[trigger] heads_for(units[i], layout, cell)
}

/// The cells that a move order must keep clear of: those that the units
/// outside the selection head for.
pub open spec fn occupied_cells(units: Seq<UnitView>, layout: GridLayout) -> Set<Hex> {
    Set::new(|h: Hex| occupied_among(units, layout, units.len() as int, h))
}

/// How many units of the table are selected.
pub open spec fn selected_count(units: Seq<UnitView>) -> nat
    decreases units.len(),
{
    if units.len() == 0 {
        0
    } else {
        selected_count(units.drop_last()) + if units.last().selected {
            1nat
        } else {
            0nat
        }
    }
}

/// No more units are selected than the table holds.
pub proof fn lemma_selected_count_bound(units: Seq<UnitView>)
    ensures
        selected_count(units) <= units.len(),
    decreases units.len(),
{
    if units.len() > 0 {
        lemma_selected_count_bound(units.drop_last());
    }
}

/// The selected units among the first `i + 1` are those among the first `i`
/// and, if it is selected, unit `i`.
pub proof fn lemma_selected_count_step(units: Seq<UnitView>, i: int)
    requires
        0 <= i < units.len(),
    ensures
        selected_count(units.take(i + 1)) == selected_count(units.take(i)) + if units[i].selected {
            1nat
        } else {
            0nat
        },
{
    assert(units.take(i + 1).drop_last() =~= units.take(i));
}

/// The cells from which a move order picks destinations: the spiral of the
/// search radius around the clicked cell.
pub open spec fn candidates(anchor: Hex) -> Seq<Hex> {
    spiral_hexes(anchor, SEARCH_RADIUS as nat)
}

/// The destinations that a move order towards `anchor` hands to the
/// selected units, the first to the first selected unit of the table.
pub open spec fn destinations(units: Seq<UnitView>, layout: GridLayout, anchor: Hex) -> Seq<Hex> {
    assign(candidates(anchor), occupied_cells(units, layout), selected_count(units))
}

/// The waypoints from the world point `from` to the cell `dest`: the centres
/// of the cells on the line walk from the cell of `from` to `dest`, without
/// the cell of `from` itself.
pub open spec fn route(layout: GridLayout, from: WorldPos, dest: Hex) -> Seq<WorldPos> {
    let cells = line_cells(cell_at(layout, from), dest);
    Seq::new((cells.len() - 1) as nat, |k: int| center_of(layout, cells[k + 1]))
}

/// Unit `u` after it has been sent to `dest`: it heads for the first
/// waypoint of the route and queues the others, in place of any earlier
/// queue. A unit that stands in `dest` already heads for its centre.
pub open spec fn ordered_to(u: UnitView, layout: GridLayout, dest: Hex) -> UnitView {
    u.sent_along(route(layout, u.position, dest), center_of(layout, dest))
}

/// Unit number `i` after a move order that hands out `dests`: the selected
/// unit that has `k` selected units before it in the table goes to
/// `dests[k]`, if there is such a destination.
pub open spec fn ordered_unit(
    units: Seq<UnitView>,
    layout: GridLayout,
    dests: Seq<Hex>,
    i: int,
) -> UnitView {
    let k = selected_count(units.take(i));
    if units[i].selected && k < dests.len() {
        ordered_to(units[i], layout, dests[k as int])
    } else {
        units[i]
    }
}

/// The unit table after a move order towards `anchor`. With nothing
/// selected nothing changes. Where no destination is free the selection is
/// dropped. Otherwise the selected units are sent to their destinations, as
/// far as these reach.
pub open spec fn move_order(units: Seq<UnitView>, layout: GridLayout, anchor: Hex) -> Seq<
    UnitView,
> {
    let dests = destinations(units, layout, anchor);
    if selected_count(units) == 0 {
        units
    } else if dests.len() == 0 {
        Seq::new(units.len(), |i: int| units[i].deselected())
    } else {
        Seq::new(units.len(), |i: int| ordered_unit(units, layout, dests, i))
    }
}

/// What a move order towards `anchor` reports.
pub open spec fn move_outcome(
    units: Seq<UnitView>,
    layout: GridLayout,
    anchor: Hex,
) -> ClickOutcome {
    let dests = destinations(units, layout, anchor);
    if selected_count(units) == 0 {
        ClickOutcome::NothingSelected
    } else if dests.len() == 0 {
        ClickOutcome::SelectionCleared
    } else {
        ClickOutcome::Ordered(dests.len() as usize)
    }
}

/// Whether unit `after` is on its way to the cell `dest` from where unit
/// `before` stands: its journey ends at the centre of `dest`, and it has one
/// leg to go for every cell between, or one where it stands in `dest`
/// already.
pub open spec fn bound_for(
    before: UnitView,
    after: UnitView,
    layout: GridLayout,
    dest: Hex,
) -> bool {
    let cells = cell_at(layout, before.position)@.distance(dest@);
    &&& after.journey_end() == center_of(layout, dest)
    &&& after.path.len() + 1 == if cells == 0 {
        1
    } else {
        cells
    }
}

/// Whether every unit that a move order towards `anchor` serves is on its
/// way to the destination handed to it.
pub open spec fn orders_lead_home(
    before: Seq<UnitView>,
    after: Seq<UnitView>,
    layout: GridLayout,
    anchor: Hex,
) -> bool {
    let dests = destinations(before, layout, anchor);
    forall|i: int|
        0 <= i < before.len() && before[i].selected && selected_count(before.take(i))
            < dests.len() ==> bound_for(
            before[i],
            #[trigger] after[i],
            layout,
            dests[selected_count(before.take(i)) as int],
        )
}

/// Whether the unit stands in a cell within the coordinate limit.
pub open spec fn stands_in_reach(u: UnitView, layout: GridLayout) -> bool {
    cell_at(layout, u.position)@.within(COORD_LIMIT as int)
}

/// Whether a move order towards `anchor` stays within the coordinate limit:
/// the spiral around `anchor` does, and so does the cell of every selected
/// unit.
pub open spec fn order_in_reach(units: Seq<UnitView>, layout: GridLayout, anchor: Hex) -> bool {
    &&& anchor@.within(COORD_LIMIT - SEARCH_RADIUS)
    &&& forall|i: int|
        0 <= i < units.len() && units[i].selected ==> #[trigger] stands_in_reach(units[i], layout)
}

/// The cells that the units outside the selection head for.
pub fn collect_occupied(units: &Vec<Unit>, layout: &GridLayout) -> (cells: Vec<Hex>)
    ensures
        cells_of(cells@) == occupied_cells(unit_views(units@), *layout),
{
    let ghost views = unit_views(units@);
    let mut cells: Vec<Hex> = Vec::new();
    let mut i: usize = 0;
    while i < units.len()
        invariant
            0 <= i <= units.len(),
            views == unit_views(units@),
            forall|h: Hex| cells@.contains(h) == occupied_among(views, *layout, i as int, h),
        decreases units.len() - i,
    {
        let ghost prev = cells@;
        assert(views[i as int] == units@[i as int]@);
        if !units[i].selected {
            let cell = layout.world_to_hex(units[i].target);
            cells.push(cell);
            proof {
                assert(heads_for(views[i as int], *layout, cell));
                assert forall|h: Hex| cells@.contains(h) == occupied_among(
                    views,
                    *layout,
                    i + 1,
                    h,
                ) by {
                    if cells@.contains(h) {
                        let k = choose|k: int| 0 <= k < cells@.len() && cells@[k] == h;
                        if k < prev.len() {
                            assert(prev[k] == h);
                            assert(prev.contains(h));
                            assert(occupied_among(views, *layout, i as int, h));
                        }
                    }
                    if occupied_among(views, *layout, i + 1, h) {
                        let j = choose|j: int|
                            0 <= j < i + 1 && j < views.len() && #[trigger] heads_for(
                                views[j],
                                *layout,
                                h,
                            );
                        if j < i {
                            assert(occupied_among(views, *layout, i as int, h));
                            assert(prev.contains(h));
                            let k = choose|k: int| 0 <= k < prev.len() && prev[k] == h;
                            assert(cells@[k] == h);
                        } else {
                            assert(cells@[prev.len() as int] == h);
                        }
                    }
                }
            }
        } else {
            proof {
                assert forall|h: Hex| cells@.contains(h) == occupied_among(
                    views,
                    *layout,
                    i + 1,
                    h,
                ) by {
                    if occupied_among(views, *layout, i + 1, h) {
                        let j = choose|j: int|
                            0 <= j < i + 1 && j < views.len() && #[trigger] heads_for(
                                views[j],
                                *layout,
                                h,
                            );
                        assert(j < i);
                    }
                }
            }
        }
        i += 1;
    }
    proof {
        assert(cells_of(cells@) =~= occupied_cells(views, *layout));
    }
    cells
}

/// How many units of the table are selected.
pub fn count_selected(units: &Vec<Unit>) -> (n: usize)
    ensures
        n == selected_count(unit_views(units@)),
{
    let ghost views = unit_views(units@);
    let mut n: usize = 0;
    let mut i: usize = 0;
    proof {
        assert(views.take(0) =~= Seq::<UnitView>::empty());
    }
    while i < units.len()
        invariant
            0 <= i <= units.len(),
            views == unit_views(units@),
            n == selected_count(views.take(i as int)),
            n <= i,
        decreases units.len() - i,
    {
        proof {
            lemma_selected_count_step(views, i as int);
            assert(views[i as int] == units@[i as int]@);
        }
        if units[i].selected {
            n += 1;
        }
        i += 1;
    }
    proof {
        assert(views.take(units.len() as int) =~= views);
    }
    n
}

/// Sends the unit to the cell `dest`: its waypoint queue becomes the route
/// from where it stands, and it heads for the first waypoint at once.
pub fn give_order(unit: &mut Unit, layout: &GridLayout, dest: Hex)
    requires
        dest@.within(COORD_LIMIT as int),
        stands_in_reach(old(unit)@, *layout),
    ensures
        final(unit)@ == ordered_to(old(unit)@, *layout, dest),
        bound_for(old(unit)@, final(unit)@, *layout, dest),
{
    let here = layout.world_to_hex(unit.position);
    let line = here.line_to(dest);
    let ghost waypoints = route(*layout, unit.position, dest);
    let mut path: VecDeque<WorldPos> = VecDeque::new();
    let mut k: usize = 1;
    while k < line.len()
        invariant
            1 <= k <= line.len(),
            line@ == line_cells(here, dest),
            waypoints == Seq::new(
                (line@.len() - 1) as nat,
                |n: int| center_of(*layout, line@[n + 1]),
            ),
            path@ == waypoints.take(k - 1),
        decreases line.len() - k,
    {
        let point = layout.hex_to_world(line[k]);
        path.push_back(point);
        proof {
            assert(path@ =~= waypoints.take(k as int));
        }
        k += 1;
    }
    proof {
        assert(path@ =~= waypoints);
    }
    unit.set_course(path, layout.hex_to_world(dest));
}

/// Takes every unit out of the selection.
pub fn clear_selection(units: &mut Vec<Unit>)
    ensures
        final(units)@.len() == old(units)@.len(),
        unit_views(final(units)@) == Seq::new(
            old(units)@.len(),
            |i: int| old(units)@[i]@.deselected(),
        ),
{
    let mut i: usize = 0;
    while i < units.len()
        invariant
            0 <= i <= units.len(),
            units@.len() == old(units)@.len(),
            forall|j: int| 0 <= j < i ==> (#[trigger] units@[j])@ == old(units)@[j]@.deselected(),
            forall|j: int| i <= j < units.len() ==> #[trigger] units@[j] == old(units)@[j],
        decreases units.len() - i,
    {
        units[i].deselect();
        i += 1;
    }
    proof {
        assert(unit_views(units@) =~= Seq::new(
            old(units)@.len(),
            |i: int| old(units)@[i]@.deselected(),
        ));
    }
}

/// Carries out a move order towards the cell `anchor`: hands free cells of
/// the spiral around it to the selected units, in table order, and sends
/// each unit on its way. Drops the selection where no cell is free.
pub fn issue_move_order(units: &mut Vec<Unit>, layout: &GridLayout, anchor: Hex) -> (outcome:
    ClickOutcome)
    requires
        order_in_reach(unit_views(old(units)@), *layout, anchor),
    ensures
        final(units)@.len() == old(units)@.len(),
        unit_views(final(units)@) == move_order(unit_views(old(units)@), *layout, anchor),
        outcome == move_outcome(unit_views(old(units)@), *layout, anchor),
        orders_lead_home(unit_views(old(units)@), unit_views(final(units)@), *layout, anchor),
{
    let ghost before = unit_views(units@);
    let occupied = collect_occupied(units, layout);
    let n = count_selected(units);
    if n == 0 {
        return ClickOutcome::NothingSelected;
    }
    proof {
        lemma_search_size();
    }
    let cells = anchor.spiral_range(SEARCH_RADIUS);
    let dests = assign_destinations(&cells, occupied, n);
    assert(dests@ == destinations(before, *layout, anchor));
    if dests.len() == 0 {
        clear_selection(units);
        proof {
            assert(unit_views(units@) =~= move_order(before, *layout, anchor));
        }
        return ClickOutcome::SelectionCleared;
    }
    let mut k: usize = 0;
    let mut i: usize = 0;
    proof {
        assert(before.take(0) =~= Seq::<UnitView>::empty());
    }
    while i < units.len()
        invariant
            0 <= i <= units.len(),
            units@.len() == before.len(),
            k == selected_count(before.take(i as int)),
            k <= i,
            forall|j: int|
                0 <= j < i ==> (#[trigger] units@[j])@ == ordered_unit(before, *layout, dests@, j),
            forall|j: int|
                0 <= j < i && before[j].selected && selected_count(before.take(j)) < dests@.len()
                    ==> bound_for(
                    before[j],
                    (#[trigger] units@[j])@,
                    *layout,
                    dests@[selected_count(before.take(j)) as int],
                ),
            forall|j: int| i <= j < units.len() ==> (#[trigger] units@[j])@ == before[j],
            forall|j: int|
                0 <= j < before.len() && before[j].selected ==> #[trigger] stands_in_reach(
                    before[j],
                    *layout,
                ),
            forall|m: int|
                0 <= m < dests@.len() ==> (#[trigger] dests@[m])@.within(COORD_LIMIT as int),
        decreases units.len() - i,
    {
        proof {
            lemma_selected_count_step(before, i as int);
            assert(units@[i as int]@ == before[i as int]);
        }
        if units[i].selected {
            if k < dests.len() {
                assert(stands_in_reach(before[i as int], *layout));
                give_order(&mut units[i], layout, dests[k]);
            }
            k += 1;
        }
        i += 1;
    }
    proof {
        assert(unit_views(units@) =~= move_order(before, *layout, anchor));
        assert forall|j: int|
            0 <= j < before.len() && before[j].selected && selected_count(before.take(j))
                < dests@.len() implies bound_for(
            before[j],
            #[trigger] unit_views(units@)[j],
            *layout,
            dests@[selected_count(before.take(j)) as int],
        ) by {
            assert(unit_views(units@)[j] == units@[j]@);
        }
    }
    ClickOutcome::Ordered(dests.len())
}

/// The unit table after a click at the world point `pos`. A click on a cell
/// in which a unit stands flips the selection marker of the first such unit
/// and changes nothing else. A click on an empty cell is a move order
/// towards that cell.
pub open spec fn click_result(units: Seq<UnitView>, layout: GridLayout, pos: WorldPos) -> Seq<
    UnitView,
> {
    let cell = cell_at(layout, pos);
    match first_hit(units, layout, cell) {
        Some(i) => toggled_at(units, i),
        None => move_order(units, layout, cell),
    }
}

/// What a click at the world point `pos` reports.
pub open spec fn click_outcome(
    units: Seq<UnitView>,
    layout: GridLayout,
    pos: WorldPos,
) -> ClickOutcome {
    let cell = cell_at(layout, pos);
    match first_hit(units, layout, cell) {
        Some(i) => ClickOutcome::Toggled(i as usize),
        None => move_outcome(units, layout, cell),
    }
}

/// Whether a click at `pos` can be carried out: it hits a unit, or the move
/// order that it stands for stays within the coordinate limit.
pub open spec fn click_in_reach(units: Seq<UnitView>, layout: GridLayout, pos: WorldPos) -> bool {
    let cell = cell_at(layout, pos);
    first_hit(units, layout, cell) is None ==> order_in_reach(units, layout, cell)
}

/// Whether a move order towards `anchor` stays within the coordinate limit.
pub fn order_is_in_reach(units: &Vec<Unit>, layout: &GridLayout, anchor: Hex) -> (ok: bool)
    ensures
        ok == order_in_reach(unit_views(units@), *layout, anchor),
{
    if !anchor.within(COORD_LIMIT - (SEARCH_RADIUS as i32)) {
        return false;
    }
    let ghost views = unit_views(units@);
    let mut i: usize = 0;
    while i < units.len()
        invariant
            0 <= i <= units.len(),
            views == unit_views(units@),
            forall|j: int|
                0 <= j < i && views[j].selected ==> #[trigger] stands_in_reach(views[j], *layout),
        decreases units.len() - i,
    {
        assert(views[i as int] == units@[i as int]@);
        if units[i].selected {
            let here = layout.world_to_hex(units[i].position);
            if !here.within(COORD_LIMIT) {
                assert(!stands_in_reach(views[i as int], *layout));
                return false;
            }
        }
        i += 1;
    }
    true
}

/// Whether a click at `pos` can be carried out.
pub fn click_is_in_reach(units: &Vec<Unit>, layout: &GridLayout, pos: WorldPos) -> (ok: bool)
    ensures
        ok == click_in_reach(unit_views(units@), *layout, pos),
{
    let cell = layout.world_to_hex(pos);
    match find_unit_at(units, layout, cell) {
        Some(_) => true,
        None => order_is_in_reach(units, layout, cell),
    }
}

/// Resolves a click at the world point `pos`: flips the selection marker of
/// the unit that stands in the clicked cell, or, where the cell is empty,
/// sends the selected units towards it.
pub fn handle_click(units: &mut Vec<Unit>, layout: &GridLayout, pos: WorldPos) -> (outcome:
    ClickOutcome)
    requires
        click_in_reach(unit_views(old(units)@), *layout, pos),
    ensures
        final(units)@.len() == old(units)@.len(),
        unit_views(final(units)@) == click_result(unit_views(old(units)@), *layout, pos),
        outcome == click_outcome(unit_views(old(units)@), *layout, pos),
        first_hit(unit_views(old(units)@), *layout, cell_at(*layout, pos)) is None
            ==> orders_lead_home(
            unit_views(old(units)@),
            unit_views(final(units)@),
            *layout,
            cell_at(*layout, pos),
        ),
{
    let cell = layout.world_to_hex(pos);
    match find_unit_at(units, layout, cell) {
        Some(i) => {
            proof {
                lemma_first_hit(unit_views(units@), *layout, cell);
                assert(unit_views(units@)[i as int] == units@[i as int]@);
            }
            units[i].toggle_selected();
            ClickOutcome::Toggled(i)
        },
        None => issue_move_order(units, layout, cell),
    }
}

/// No two units are sent to the same cell, and none to a cell that a unit
/// outside the selection heads for.
pub proof fn lemma_destinations_distinct(units: Seq<UnitView>, layout: GridLayout, anchor: Hex)
    ensures
        destinations(units, layout, anchor).no_duplicates(),
        destinations(units, layout, anchor).len() <= selected_count(units),
        forall|k: int|
            0 <= k < destinations(units, layout, anchor).len() ==> !occupied_cells(
                units,
                layout,
            ).contains(#[trigger] destinations(units, layout, anchor)[k]),
{
    lemma_assign_distinct(candidates(anchor), occupied_cells(units, layout), selected_count(units));
}

/// The candidates of a move order are the 331 cells within the search
/// radius of the clicked cell, each offered once, the clicked cell first.
pub proof fn lemma_candidates(anchor: Hex)
    requires
        anchor@.has_room(SEARCH_RADIUS as int),
    ensures
        candidates(anchor).len() == 331,
        candidates(anchor).no_duplicates(),
        candidates(anchor)[0] == anchor,
        forall|h: Hex|
            candidates(anchor).contains(h) <==> h@.distance(anchor@) <= SEARCH_RADIUS,
{
    let r = SEARCH_RADIUS as nat;
    lemma_spiral_hexes_views(anchor, r);
    lemma_spiral_facts(anchor, r, candidates(anchor));
    lemma_search_size();
}

/// The spiral of the search radius holds 331 cells.
pub proof fn lemma_search_size()
    ensures
        spiral_len(SEARCH_RADIUS as nat) == 331,
{
    let r = SEARCH_RADIUS as nat;
    assert(3 * r * (r + 1) == 330) by (nonlinear_arith)
        requires
            r == 10,
    ;
}

/// A move order hands out the free cells around the clicked cell in spiral
/// order: the destinations are the candidates that no unit outside the
/// selection heads for, from the first on, one for each selected unit as far
/// as they reach.
pub proof fn lemma_destinations_in_spiral_order(
    units: Seq<UnitView>,
    layout: GridLayout,
    anchor: Hex,
)
    requires
        anchor@.has_room(SEARCH_RADIUS as int),
    ensures
        ({
            let free = free_cells(candidates(anchor), occupied_cells(units, layout));
            let n = selected_count(units);
            destinations(units, layout, anchor) == free.take(
                if n <= free.len() {
                    n as int
                } else {
                    free.len() as int
                },
            )
        }),
{
    lemma_candidates(anchor);
    lemma_assign_takes_first_free(
        candidates(anchor),
        occupied_cells(units, layout),
        selected_count(units),
    );
}

/// A move order changes only the units it serves: a unit outside the
/// selection stays as it was, and so does a selected unit for which no
/// destination is left while others are served.
pub proof fn lemma_unserved_units_stay(
    units: Seq<UnitView>,
    layout: GridLayout,
    anchor: Hex,
    j: int,
)
    requires
        0 <= j < units.len(),
        !units[j].selected || 0 < destinations(units, layout, anchor).len() <= selected_count(
            units.take(j),
        ),
    ensures
        move_order(units, layout, anchor).len() == units.len(),
        move_order(units, layout, anchor)[j] == units[j],
{
}

/// A move order serves every selected unit as long as free cells are left
/// within the search radius: it hands out as many destinations as there are
/// selected units, or as there are candidates not occupied, whichever is
/// less.
pub proof fn lemma_destinations_count(units: Seq<UnitView>, layout: GridLayout, anchor: Hex)
    requires
        anchor@.has_room(SEARCH_RADIUS as int),
    ensures
        blocked_count(candidates(anchor), occupied_cells(units, layout)) <= 331,
        destinations(units, layout, anchor).len() == if selected_count(units) <= 331
            - blocked_count(candidates(anchor), occupied_cells(units, layout)) {
            selected_count(units) as int
        } else {
            331 - blocked_count(candidates(anchor), occupied_cells(units, layout))
        },
{
    lemma_candidates(anchor);
    lemma_assign_len(candidates(anchor), occupied_cells(units, layout), selected_count(units));
}

/// Where no unit outside the selection heads anywhere, a move order for up
/// to 331 selected units sends each of them to a cell of its own.
pub proof fn lemma_free_ground_serves_all(units: Seq<UnitView>, layout: GridLayout, anchor: Hex)
    requires
        anchor@.has_room(SEARCH_RADIUS as int),
        forall|i: int| 0 <= i < units.len() ==> (#[trigger] units[i]).selected,
        selected_count(units) <= 331,
    ensures
        destinations(units, layout, anchor).len() == selected_count(units),
        destinations(units, layout, anchor).no_duplicates(),
{
    let occupied = occupied_cells(units, layout);
    assert forall|h: Hex| !occupied.contains(h) by {
        if occupied_among(units, layout, units.len() as int, h) {
            let i = choose|i: int|
                0 <= i < units.len() && i < units.len() && #[trigger] heads_for(
                    units[i],
                    layout,
                    h,
                );
            assert(units[i].selected);
        }
    }
    lemma_blocked_none(candidates(anchor), occupied);
    lemma_destinations_count(units, layout, anchor);
    lemma_destinations_distinct(units, layout, anchor);
}

/// A click moves nobody: it leaves every unit where it is, at the velocity
/// it has, facing as it does and in its role.
pub proof fn lemma_click_moves_nobody(units: Seq<UnitView>, layout: GridLayout, pos: WorldPos)
    ensures
        click_result(units, layout, pos).len() == units.len(),
        forall|i: int|
            0 <= i < units.len() ==> {
                let after = #[trigger] click_result(units, layout, pos)[i];
                &&& after.role == units[i].role
                &&& after.position == units[i].position
                &&& after.velocity == units[i].velocity
                &&& after.facing == units[i].facing
            },
{
    let cell = cell_at(layout, pos);
    lemma_first_hit(units, layout, cell);
}

/// A click on a cell in which a unit stands changes nothing but the
/// selection marker of the first unit in that cell.
pub proof fn lemma_click_is_additive(units: Seq<UnitView>, layout: GridLayout, pos: WorldPos)
    requires
        first_hit(units, layout, cell_at(layout, pos)) is Some,
    ensures
        click_result(units, layout, pos).len() == units.len(),
        forall|j: int|
            0 <= j < units.len() && Some(j) != first_hit(units, layout, cell_at(layout, pos))
                ==> #[trigger] click_result(units, layout, pos)[j] == units[j],
        forall|j: int|
            Some(j) == first_hit(units, layout, cell_at(layout, pos)) ==> #[trigger] click_result(
                units,
                layout,
                pos,
            )[j] == units[j].toggled(),
{
    lemma_first_hit(units, layout, cell_at(layout, pos));
}

/// A click on the centre of a cell in which one unit stands alone flips the
/// selection marker of that unit and changes nothing else, on a layout on
/// which the centre of that cell lies in the cell.
pub proof fn lemma_click_on_centre(units: Seq<UnitView>, layout: GridLayout, cell: Hex, i: int)
    requires
        round_trips(layout, cell),
        0 <= i < units.len(),
        cell_at(layout, units[i].position) == cell,
        forall|j: int|
            0 <= j < units.len() && j != i ==> cell_at(layout, #[trigger] units[j].position)
                != cell,
    ensures
        click_in_reach(units, layout, center_of(layout, cell)),
        click_result(units, layout, center_of(layout, cell)) == toggled_at(units, i),
        click_outcome(units, layout, center_of(layout, cell)) == ClickOutcome::Toggled(i as usize),
{
    lemma_first_hit_is(units, layout, cell, i);
}

/// The first destination of a move order is the clicked cell itself, unless
/// a unit outside the selection heads for it.
pub proof fn lemma_clicked_cell_goes_first(units: Seq<UnitView>, layout: GridLayout, anchor: Hex)
    requires
        anchor@.has_room(SEARCH_RADIUS as int),
        selected_count(units) > 0,
        !occupied_cells(units, layout).contains(anchor),
    ensures
        destinations(units, layout, anchor).len() > 0,
        destinations(units, layout, anchor)[0] == anchor,
        selected_count(units) == 1 ==> destinations(units, layout, anchor) == seq![anchor],
{
    lemma_candidates(anchor);
    let cells = candidates(anchor);
    let occupied = occupied_cells(units, layout);
    let n = selected_count(units);
    let rest = assign(cells.drop_first(), occupied.insert(anchor), (n - 1) as nat);
    assert(assign(cells, occupied, n) == seq![anchor] + rest);
    if n == 1 {
        assert(rest =~= Seq::<Hex>::empty());
        assert(seq![anchor] + rest =~= seq![anchor]);
    }
}

/// The units of a move order end their journeys at points of their own: on
/// a layout on which the centre of each destination lies in that
/// destination, no two destinations have the same centre, and the centres
/// lie in cells that differ.
pub proof fn lemma_journeys_end_apart(units: Seq<UnitView>, layout: GridLayout, anchor: Hex)
    requires
        forall|k: int|
            0 <= k < destinations(units, layout, anchor).len() ==> round_trips(
                layout,
                #[trigger] destinations(units, layout, anchor)[k],
            ),
    ensures
        forall|k: int, m: int|
            0 <= k < destinations(units, layout, anchor).len() && 0 <= m < destinations(
                units,
                layout,
                anchor,
            ).len() && k != m ==> center_of(
                layout,
                #[trigger] destinations(units, layout, anchor)[k],
            ) != center_of(layout, #[trigger] destinations(units, layout, anchor)[m]),
{
    lemma_destinations_distinct(units, layout, anchor);
}

/// Two clicks at the same point, on a cell in which a unit stands, leave
/// the unit table as it was.
pub proof fn lemma_double_click(units: Seq<UnitView>, layout: GridLayout, pos: WorldPos)
    requires
        first_hit(units, layout, cell_at(layout, pos)) is Some,
    ensures
        click_result(click_result(units, layout, pos), layout, pos) == units,
{
    let cell = cell_at(layout, pos);
    let i = first_hit(units, layout, cell)->0;
    lemma_first_hit(units, layout, cell);
    let once = toggled_at(units, i);
    lemma_first_hit_by_position(once, units, layout, cell);
    assert(toggled_at(once, i) =~= units);
}

} // verus!
