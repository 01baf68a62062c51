//! The selection: drag gestures, click hits and box selection.

use crate::geometry::{lemma_larger_rect_still_touches, Rect, WorldPos};
use crate::hex::Hex;
use crate::layout::{cell_at, GridLayout};
use crate::unit::{unit_views, Unit, UnitView};
use vstd::prelude::*;

verus! {

/// A pointer that travels less than this between press and release has
/// clicked; one that travels farther has dragged a box.
pub const CLICK_THRESHOLD: i32 = 5;

/// The drag gesture in progress, if any. Both points are absent while no
/// button or finger is down.
#[derive(Clone, Copy, Debug, PartialEq, Eq, Structural)]
pub struct SelectionState {
    /// Where the pointer went down.
    pub start_pos: Option<WorldPos>,
    /// Where the pointer was seen last.
    pub drag_current: Option<WorldPos>,
}

/// What the pointer did in one frame.
#[derive(Clone, Copy, Debug, PartialEq, Eq, Structural)]
pub struct PointerFrame {
    /// Where the pointer is, in world units.
    pub position: WorldPos,
    /// The button or finger went down in this frame.
    pub just_pressed: bool,
    /// The button or finger is down.
    pub held: bool,
    /// The button or finger came up in this frame.
    pub just_released: bool,
}

/// What a frame of pointer input amounts to.
#[derive(Clone, Copy, Debug, PartialEq, Eq, Structural)]
pub enum Resolution {
    /// No gesture ended in this frame.
    Nothing,
    /// A click at the given point.
    Click(WorldPos),
    /// A box dragged over the given rectangle.
    BoxSelect(Rect),
}

impl SelectionState {
    /// The state in which no gesture is in progress.
    pub open spec fn idle() -> SelectionState {
        SelectionState { start_pos: None, drag_current: None }
    }

    /// Whether a gesture is in progress.
    pub open spec fn is_dragging(self) -> bool {
        self.start_pos is Some
    }

    /// The state once a press seen in `frame` has been taken up: a press
    /// starts a gesture at the pointer, and a pointer that is down drags the
    /// current point along.
    pub open spec fn following(self, frame: PointerFrame) -> SelectionState {
        let pressed = if frame.just_pressed {
            SelectionState {
                start_pos: Some(frame.position),
                drag_current: Some(frame.position),
            }
        } else {
            self
        };
        if frame.held {
            SelectionState { drag_current: Some(frame.position), ..pressed }
        } else {
            pressed
        }
    }

    /// The state after `frame`: a release ends the gesture whatever it was.
    pub open spec fn after(self, frame: PointerFrame) -> SelectionState {
        if frame.just_released {
            SelectionState::idle()
        } else {
            self.following(frame)
        }
    }

    /// What `frame` amounts to: on release, a click where the pointer
    /// travelled less than the threshold from where it went down, a box
    /// between the two points otherwise.
    pub open spec fn resolution(self, frame: PointerFrame) -> Resolution {
        if frame.just_released {
            match self.following(frame).start_pos {
                Some(start) => if start.dist_sq(frame.position) < CLICK_THRESHOLD
                    * CLICK_THRESHOLD {
                    Resolution::Click(frame.position)
                } else {
                    Resolution::BoxSelect(Rect::span(start, frame.position))
                },
                None => Resolution::Nothing,
            }
        } else {
            Resolution::Nothing
        }
    }

    /// The rectangle to show for the gesture in progress: the box between
    /// the two points, once they lie farther apart than the click threshold.
    pub open spec fn visible_box(self) -> Option<Rect> {
        match (self.start_pos, self.drag_current) {
            (Some(start), Some(current)) => if start.dist_sq(current) > CLICK_THRESHOLD
                * CLICK_THRESHOLD {
                Some(Rect::span(start, current))
            } else {
                None
            },
            _ => None,
        }
    }

    /// The state in which no gesture is in progress.
    pub fn new() -> (state: SelectionState)
        ensures
            state == SelectionState::idle(),
    {
        SelectionState { start_pos: None, drag_current: None }
    }

    /// Takes one frame of pointer input into the gesture and says what it
    /// amounts to.
    pub fn advance(&mut self, frame: PointerFrame) -> (res: Resolution)
        ensures
            *final(self) == old(self).after(frame),
            res == old(self).resolution(frame),
    {
        if frame.just_pressed {
            self.start_pos = Some(frame.position);
            self.drag_current = Some(frame.position);
        }
        if frame.held {
            self.drag_current = Some(frame.position);
        }
        let mut res = Resolution::Nothing;
        if frame.just_released {
            if let Some(start) = self.start_pos {
                if start.is_within(frame.position, CLICK_THRESHOLD) {
                    res = Resolution::Click(frame.position);
                } else {
                    res = Resolution::BoxSelect(Rect::spanning(start, frame.position));
                }
            }
            self.start_pos = None;
            self.drag_current = None;
        }
        res
    }

    /// The rectangle to show for the gesture in progress, if there is one
    /// to show.
    pub fn drag_box(&self) -> (shown: Option<Rect>)
        ensures
            shown == self.visible_box(),
    {
        match (self.start_pos, self.drag_current) {
            (Some(start), Some(current)) => {
                let limit: u128 = 25;
                assert(limit == CLICK_THRESHOLD * CLICK_THRESHOLD);
                if start.distance_squared(current) > limit {
                    Some(Rect::spanning(start, current))
                } else {
                    None
                }
            },
            _ => None,
        }
    }
}

/// The life of a gesture: a press begins one at the pointer, a release ends
/// it, and nothing else begins or ends one; only a release resolves to a
/// click or a box.
pub proof fn lemma_gesture_lifecycle(state: SelectionState, frame: PointerFrame)
    ensures
        frame.just_released ==> state.after(frame) == SelectionState::idle(),
        !frame.just_released && frame.just_pressed ==> state.after(frame).start_pos == Some(
            frame.position,
        ),
        !frame.just_released && !frame.just_pressed ==> state.after(frame).start_pos
            == state.start_pos,
        !frame.just_released ==> state.resolution(frame) == Resolution::Nothing,
        frame.just_released && (state.is_dragging() || frame.just_pressed) ==> state.resolution(
            frame,
        ) != Resolution::Nothing,
        frame.just_released && !state.is_dragging() && !frame.just_pressed ==> state.resolution(
            frame,
        ) == Resolution::Nothing,
{
}

/// A box resolution spans the point where the pointer went down and the
/// point where it came up, whichever way the pointer went.
pub proof fn lemma_box_is_order_independent(a: WorldPos, b: WorldPos)
    ensures
        Rect::span(a, b) == Rect::span(b, a),
        Rect::span(a, b).wf(),
{
}

/// The first unit of the table that stands in `cell`, if any does. Where
/// several units stand in one cell, the one that comes first in the table is
/// the one hit.
pub open spec fn first_hit(units: Seq<UnitView>, layout: GridLayout, cell: Hex) -> Option<int>
    decreases units.len(),
{
    if units.len() == 0 {
        None
    } else {
        match first_hit(units.drop_last(), layout, cell) {
            Some(i) => Some(i),
            None => if cell_at(layout, units.last().position) == cell {
                Some(units.len() - 1)
            } else {
                None
            },
        }
    }
}

/// `first_hit` finds the least index of a unit in the cell, and finds
/// nothing only where no unit stands in it.
pub proof fn lemma_first_hit(units: Seq<UnitView>, layout: GridLayout, cell: Hex)
    ensures
        match first_hit(units, layout, cell) {
            Some(i) => {
                &&& 0 <= i < units.len()
                &&& cell_at(layout, units[i].position) == cell
                &&& forall|j: int|
                    0 <= j < i ==> cell_at(layout, #[trigger] units[j].position) != cell
            },
            None => forall|j: int|
                0 <= j < units.len() ==> cell_at(layout, #[trigger] units[j].position) != cell,
        },
    decreases units.len(),
{
    if units.len() > 0 {
        lemma_first_hit(units.drop_last(), layout, cell);
        let front = units.drop_last();
        assert forall|j: int| 0 <= j < front.len() implies #[trigger] front[j] == units[j] by {}
        match first_hit(front, layout, cell) {
            Some(i) => {
                assert forall|j: int| 0 <= j < i implies cell_at(
                    layout,
                    #[trigger] units[j].position,
                ) != cell by {
                    assert(front[j] == units[j]);
                }
            },
            None => {
                assert forall|j: int| 0 <= j < units.len() - 1 implies cell_at(
                    layout,
                    #[trigger] units[j].position,
                ) != cell by {
                    assert(front[j] == units[j]);
                }
            },
        }
    }
}

/// The least index of a unit in the cell is what `first_hit` finds.
pub proof fn lemma_first_hit_is(units: Seq<UnitView>, layout: GridLayout, cell: Hex, i: int)
    requires
        0 <= i < units.len(),
        cell_at(layout, units[i].position) == cell,
        forall|j: int| 0 <= j < i ==> cell_at(layout, #[trigger] units[j].position) != cell,
    ensures
        first_hit(units, layout, cell) == Some(i),
{
    lemma_first_hit(units, layout, cell);
}

/// Which unit a click hits depends on the units' positions alone.
pub proof fn lemma_first_hit_by_position(
    a: Seq<UnitView>,
    b: Seq<UnitView>,
    layout: GridLayout,
    cell: Hex,
)
    requires
        a.len() == b.len(),
        forall|i: int| 0 <= i < a.len() ==> (#[trigger] a[i]).position == b[i].position,
    ensures
        first_hit(a, layout, cell) == first_hit(b, layout, cell),
{
    lemma_first_hit(a, layout, cell);
    lemma_first_hit(b, layout, cell);
    match first_hit(a, layout, cell) {
        Some(i) => {
            assert(a[i].position == b[i].position);
            match first_hit(b, layout, cell) {
                Some(j) => {
                    assert(a[j].position == b[j].position);
                },
                None => {},
            }
        },
        None => {
            match first_hit(b, layout, cell) {
                Some(j) => {
                    assert(a[j].position == b[j].position);
                },
                None => {},
            }
        },
    }
}

/// The first unit of the table that stands in `cell`, if any does.
pub fn find_unit_at(units: &Vec<Unit>, layout: &GridLayout, cell: Hex) -> (hit: Option<usize>)
    ensures
        match hit {
            Some(i) => first_hit(unit_views(units@), *layout, cell) == Some(i as int),
            None => first_hit(unit_views(units@), *layout, cell) is None,
        },
{
    let ghost views = unit_views(units@);
    let mut i: usize = 0;
    while i < units.len()
        invariant
            0 <= i <= units.len(),
            views == unit_views(units@),
            forall|j: int| 0 <= j < i ==> cell_at(*layout, #[trigger] views[j].position) != cell,
        decreases units.len() - i,
    {
        let here = layout.world_to_hex(units[i].position);
        if here == cell {
            proof {
                assert(views[i as int].position == units@[i as int].position);
                lemma_first_hit_is(views, *layout, cell, i as int);
            }
            return Some(i);
        }
        assert(views[i as int].position == units@[i as int].position);
        i += 1;
    }
    proof {
        lemma_first_hit(views, *layout, cell);
    }
    None
}

/// The unit table after a click has hit unit number `i`: that unit's
/// selection marker is flipped and nothing else changes.
pub open spec fn toggled_at(units: Seq<UnitView>, i: int) -> Seq<UnitView> {
    units.update(i, units[i].toggled())
}

/// The unit table after a box has been dragged over `rect`: every unit
/// within `radius` of the rectangle has its selection marker flipped, and
/// nothing else changes.
pub open spec fn box_selected(units: Seq<UnitView>, rect: Rect, radius: int) -> Seq<UnitView> {
    Seq::new(
        units.len(),
        |i: int|
            if rect.touches_circle(units[i].position, radius) {
                units[i].toggled()
            } else {
                units[i]
            },
    )
}

/// The units that a box dragged over `rect` would toggle.
pub open spec fn box_candidates(units: Seq<UnitView>, rect: Rect, radius: int) -> Set<int> {
    Set::new(|i: int| 0 <= i < units.len() && rect.touches_circle(units[i].position, radius))
}

/// A larger box toggles every unit that a box inside it toggles.
pub proof fn lemma_box_select_monotone(
    units: Seq<UnitView>,
    inner: Rect,
    outer: Rect,
    radius: int,
)
    requires
        inner.wf(),
        outer.encloses(inner),
    ensures
        box_candidates(units, inner, radius).subset_of(box_candidates(units, outer, radius)),
{
    assert forall|i: int| box_candidates(units, inner, radius).contains(i) implies box_candidates(
        units,
        outer,
        radius,
    ).contains(i) by {
        lemma_larger_rect_still_touches(inner, outer, units[i].position, radius);
    }
}

/// Flips the selection marker of every unit that lies within a cell size of
/// the rectangle between `start` and `end`, and leaves the others as they
/// are.
pub fn handle_box_select(
    units: &mut Vec<Unit>,
    layout: &GridLayout,
    start: WorldPos,
    end: WorldPos,
)
    ensures
        final(units)@.len() == old(units)@.len(),
        unit_views(final(units)@) == box_selected(
            unit_views(old(units)@),
            Rect::span(start, end),
            layout.scale as int,
        ),
{
    let rect = Rect::spanning(start, end);
    let ghost before = unit_views(units@);
    let mut i: usize = 0;
    while i < units.len()
        invariant
            0 <= i <= units.len(),
            units@.len() == before.len(),
            rect == Rect::span(start, end),
            forall|j: int|
                0 <= j < i ==> (#[trigger] units@[j])@ == box_selected(
                    before,
                    rect,
                    layout.scale as int,
                )[j],
            forall|j: int| i <= j < units.len() ==> (#[trigger] units@[j])@ == before[j],
        decreases units.len() - i,
    {
        if rect.hits_circle(units[i].position, layout.scale) {
            units[i].toggle_selected();
        }
        i += 1;
    }
    proof {
        assert(unit_views(units@) =~= box_selected(before, rect, layout.scale as int));
    }
}

} // verus!
