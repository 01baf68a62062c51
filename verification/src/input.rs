//! One frame of the game: pointer input first, then motion.

use crate::geometry::{lemma_dist_sq_zero, Rect, WorldPos};
use crate::hex::Hex;
use crate::layout::{cell_at, center_of, round_trips, GridLayout};
use crate::motion::{move_ants, moved};
use crate::orders::{
    click_in_reach, click_is_in_reach, click_outcome, click_result, handle_click,
    lemma_click_on_centre, ClickOutcome,
};
use crate::selection::{
    box_selected, handle_box_select, toggled_at, PointerFrame, Resolution, SelectionState,
};
use crate::unit::{unit_views, Unit, UnitView};
use vstd::prelude::*;

verus! {

/// What one pointing device reports in a frame.
#[derive(Clone, Copy, Debug, PartialEq, Eq, Structural)]
pub struct PointerSource {
    /// Where the device points, in world units, if it points anywhere.
    pub position: Option<WorldPos>,
    /// The device was pressed in this frame.
    pub just_pressed: bool,
    /// The device is pressed.
    pub held: bool,
    /// The device was released in this frame.
    pub just_released: bool,
}

/// What the pointing devices report in a frame.
#[derive(Clone, Copy, Debug, PartialEq, Eq, Structural)]
pub struct PointerInput {
    /// The touch screen; its position is that of the finger that went down
    /// first.
    pub touch: PointerSource,
    /// The mouse, with its left button.
    pub mouse: PointerSource,
}

/// What a frame of input did.
#[derive(Clone, Copy, Debug, PartialEq, Eq, Structural)]
pub enum InputOutcome {
    /// No device pointed anywhere; nothing was done.
    NoPointer,
    /// No gesture ended in this frame.
    Pending,
    /// A click was resolved.
    Clicked(ClickOutcome),
    /// A box was dragged over the given rectangle.
    BoxSelected(Rect),
    /// A click asked for a move order beyond the coordinate limit; the units
    /// were left as they were.
    OutOfReach,
}

impl PointerInput {
    /// The one pointer that counts in this frame: it is where the touch
    /// screen points if that points anywhere, else where the mouse points,
    /// and it is pressed, held or released where either device is.
    pub open spec fn frame(self) -> Option<PointerFrame> {
        let position = match self.touch.position {
            Some(p) => Some(p),
            None => self.mouse.position,
        };
        match position {
            Some(p) => Some(
                PointerFrame {
                    position: p,
                    just_pressed: self.mouse.just_pressed || self.touch.just_pressed,
                    held: self.mouse.held || self.touch.held,
                    just_released: self.mouse.just_released || self.touch.just_released,
                },
            ),
            None => None,
        }
    }

    /// The one pointer that counts in this frame, if any device points
    /// anywhere.
    pub fn primary(&self) -> (frame: Option<PointerFrame>)
        ensures
            frame == self.frame(),
    {
        let position = match self.touch.position {
            Some(p) => Some(p),
            None => self.mouse.position,
        };
        match position {
            Some(p) => Some(
                PointerFrame {
                    position: p,
                    just_pressed: self.mouse.just_pressed || self.touch.just_pressed,
                    held: self.mouse.held || self.touch.held,
                    just_released: self.mouse.just_released || self.touch.just_released,
                },
            ),
            None => None,
        }
    }
}

/// The gesture state after a frame of input.
pub open spec fn state_after_input(state: SelectionState, input: PointerInput) -> SelectionState {
    match input.frame() {
        Some(frame) => state.after(frame),
        None => state,
    }
}

/// What a frame of input amounts to.
pub open spec fn input_resolution(state: SelectionState, input: PointerInput) -> Resolution {
    match input.frame() {
        Some(frame) => state.resolution(frame),
        None => Resolution::Nothing,
    }
}

/// The unit table after a frame of input: a click is resolved where it can
/// be carried out, a box toggles the units under it, and anything else
/// leaves the units alone.
pub open spec fn units_after_input(
    state: SelectionState,
    units: Seq<UnitView>,
    layout: GridLayout,
    input: PointerInput,
) -> Seq<UnitView> {
    match input_resolution(state, input) {
        Resolution::Nothing => units,
        Resolution::Click(pos) => if click_in_reach(units, layout, pos) {
            click_result(units, layout, pos)
        } else {
            units
        },
        Resolution::BoxSelect(rect) => box_selected(units, rect, layout.scale as int),
    }
}

/// What a frame of input reports.
pub open spec fn input_outcome(
    state: SelectionState,
    units: Seq<UnitView>,
    layout: GridLayout,
    input: PointerInput,
) -> InputOutcome {
    match input.frame() {
        None => InputOutcome::NoPointer,
        Some(frame) => match state.resolution(frame) {
            Resolution::Nothing => InputOutcome::Pending,
            Resolution::Click(pos) => if click_in_reach(units, layout, pos) {
                InputOutcome::Clicked(click_outcome(units, layout, pos))
            } else {
                InputOutcome::OutOfReach
            },
            Resolution::BoxSelect(rect) => InputOutcome::BoxSelected(rect),
        },
    }
}

/// A press and a release on the centre of a cell in which one unit stands
/// alone flip the selection marker of that unit and change nothing else, on
/// a layout on which the centre of that cell lies in the cell.
pub proof fn lemma_tap_on_centre(
    state: SelectionState,
    units: Seq<UnitView>,
    layout: GridLayout,
    input: PointerInput,
    cell: Hex,
    i: int,
)
    requires
        input.frame() matches Some(frame) && frame.position == center_of(layout, cell)
            && frame.just_released && (frame.just_pressed || state.start_pos == Some(
            frame.position,
        )),
        round_trips(layout, cell),
        0 <= i < units.len(),
        cell_at(layout, units[i].position) == cell,
        forall|j: int|
            0 <= j < units.len() && j != i ==> cell_at(layout, #[trigger] units[j].position)
                != cell,
    ensures
        state_after_input(state, input) == SelectionState::idle(),
        units_after_input(state, units, layout, input) == toggled_at(units, i),
        input_outcome(state, units, layout, input) == InputOutcome::Clicked(
            ClickOutcome::Toggled(i as usize),
        ),
{
    let p = center_of(layout, cell);
    lemma_dist_sq_zero(p, p);
    lemma_click_on_centre(units, layout, cell, i);
}

/// Takes one frame of pointer input: follows the drag gesture and, when it
/// ends, resolves it as a click or as a box selection.
pub fn ant_input(
    state: &mut SelectionState,
    units: &mut Vec<Unit>,
    layout: &GridLayout,
    input: &PointerInput,
) -> (outcome: InputOutcome)
    ensures
        *final(state) == state_after_input(*old(state), *input),
        final(units)@.len() == old(units)@.len(),
        unit_views(final(units)@) == units_after_input(
            *old(state),
            unit_views(old(units)@),
            *layout,
            *input,
        ),
        outcome == input_outcome(*old(state), unit_views(old(units)@), *layout, *input),
{
    let frame = match input.primary() {
        Some(frame) => frame,
        None => {
            return InputOutcome::NoPointer;
        },
    };
    match state.advance(frame) {
        Resolution::Nothing => InputOutcome::Pending,
        Resolution::Click(pos) => {
            if click_is_in_reach(units, layout, pos) {
                InputOutcome::Clicked(handle_click(units, layout, pos))
            } else {
                InputOutcome::OutOfReach
            }
        },
        Resolution::BoxSelect(rect) => {
            assert(Rect::span(rect.min, rect.max) == rect);
            handle_box_select(units, layout, rect.min, rect.max);
            InputOutcome::BoxSelected(rect)
        },
    }
}

/// One frame of the game: the input is resolved first and the units move
/// afterwards, so that a unit ordered in this frame sets off in this frame.
pub fn tick(
    state: &mut SelectionState,
    units: &mut Vec<Unit>,
    layout: &GridLayout,
    input: &PointerInput,
) -> (outcome: InputOutcome)
    ensures
        *final(state) == state_after_input(*old(state), *input),
        final(units)@.len() == old(units)@.len(),
        unit_views(final(units)@) == moved(
            units_after_input(*old(state), unit_views(old(units)@), *layout, *input),
        ),
        outcome == input_outcome(*old(state), unit_views(old(units)@), *layout, *input),
{
    let outcome = ant_input(state, units, layout, input);
    move_ants(units);
    outcome
}

} // verus!
