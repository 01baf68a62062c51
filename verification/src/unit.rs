//! The units of the colony and the state each one carries.

use crate::geometry::{WorldPos, WorldVec};
use std::collections::VecDeque;
use vstd::prelude::*;

verus! {

/// Speed of a moving unit, in world units per second.
pub const SPEED: u32 = 100;

/// What part a unit plays in the colony.
#[derive(Clone, Copy, Debug, PartialEq, Eq, Hash, Structural)]
pub enum Role {
    /// The single queen, which never moves.
    Queen,
    /// A mobile worker.
    Worker,
}

/// A linear velocity: `speed` world units per second in the direction of
/// `dir`, whose length carries no meaning. At rest both are zero.
#[derive(Clone, Copy, Debug, PartialEq, Eq, Hash, Structural)]
pub struct Velocity {
    pub dir: WorldVec,
    pub speed: u32,
}

/// A unit of the colony.
#[derive(Clone, Debug, PartialEq, Eq)]
pub struct Unit {
    /// Queen or worker.
    pub role: Role,
    /// Where the unit is.
    pub position: WorldPos,
    /// The point the unit is heading for.
    pub target: WorldPos,
    /// The points to head for after `target`, next one first.
    pub path: VecDeque<WorldPos>,
    /// Whether the unit is part of the selection.
    pub selected: bool,
    /// The velocity handed to the physics layer.
    pub velocity: Velocity,
    /// The direction the unit faces; never zero once it has moved.
    pub facing: WorldVec,
}

/// The mathematical value of a [`Unit`].
pub struct UnitView {
    pub role: Role,
    pub position: WorldPos,
    pub target: WorldPos,
    pub path: Seq<WorldPos>,
    pub selected: bool,
    pub velocity: Velocity,
    pub facing: WorldVec,
}

impl View for Unit {
    type V = UnitView;

    open spec fn view(&self) -> UnitView {
        UnitView {
            role: self.role,
            position: self.position,
            target: self.target,
            path: self.path@,
            selected: self.selected,
            velocity: self.velocity,
            facing: self.facing,
        }
    }
}

impl Velocity {
    /// The velocity of a unit at rest.
    pub open spec fn rest() -> Velocity {
        Velocity { dir: WorldVec { dx: 0, dy: 0 }, speed: 0 }
    }

    /// The velocity of a unit that heads along `dir` at full speed, or rests
    /// when `dir` is zero.
    pub open spec fn heading(dir: WorldVec) -> Velocity {
        if dir.is_zero() {
            Velocity::rest()
        } else {
            Velocity { dir, speed: SPEED }
        }
    }

    /// Whether this velocity moves nothing.
    pub open spec fn is_rest(self) -> bool {
        self.speed == 0 || self.dir.is_zero()
    }

    /// The velocity of a unit at rest.
    pub fn zero() -> (v: Velocity)
        ensures
            v == Velocity::rest(),
    {
        Velocity { dir: WorldVec { dx: 0, dy: 0 }, speed: 0 }
    }

    /// The velocity of a unit that heads along `dir` at full speed, or rests
    /// when `dir` is zero.
    pub fn toward(dir: WorldVec) -> (v: Velocity)
        ensures
            v == Velocity::heading(dir),
    {
        if dir.dx == 0 && dir.dy == 0 {
            Velocity::zero()
        } else {
            Velocity { dir, speed: SPEED }
        }
    }
}

impl UnitView {
    /// The same unit with its selection marker flipped.
    pub open spec fn toggled(self) -> UnitView {
        UnitView { selected: !self.selected, ..self }
    }

    /// The same unit, not selected.
    pub open spec fn deselected(self) -> UnitView {
        UnitView { selected: false, ..self }
    }

    /// The point at which the unit's journey ends: its last waypoint, or its
    /// target where nothing is queued.
    pub open spec fn journey_end(self) -> WorldPos {
        if self.path.len() > 0 {
            self.path.last()
        } else {
            self.target
        }
    }

    /// The same unit sent along `waypoints`: it heads for the first of them
    /// and queues the others, in place of any earlier queue. With no
    /// waypoint to go by it heads for `centre` directly.
    pub open spec fn sent_along(self, waypoints: Seq<WorldPos>, centre: WorldPos) -> UnitView {
        if waypoints.len() > 0 {
            UnitView { target: waypoints[0], path: waypoints.drop_first(), ..self }
        } else {
            UnitView { target: centre, path: Seq::empty(), ..self }
        }
    }
}

impl Unit {
    /// A unit of the given role at rest at `position`, with nowhere to go,
    /// not selected and facing along the positive x axis.
    pub fn new(role: Role, position: WorldPos) -> (unit: Unit)
        ensures
            unit@ == (UnitView {
                role,
                position,
                target: position,
                path: Seq::empty(),
                selected: false,
                velocity: Velocity::rest(),
                facing: WorldVec { dx: 1, dy: 0 },
            }),
    {
        Unit {
            role,
            position,
            target: position,
            path: VecDeque::new(),
            selected: false,
            velocity: Velocity::zero(),
            facing: WorldVec { dx: 1, dy: 0 },
        }
    }

    /// Flips the selection marker.
    pub fn toggle_selected(&mut self)
        ensures
            final(self)@ == old(self)@.toggled(),
    {
        self.selected = !self.selected;
    }

    /// Takes the unit out of the selection.
    pub fn deselect(&mut self)
        ensures
            final(self)@ == old(self)@.deselected(),
    {
        self.selected = false;
    }

    /// Sends the unit along `waypoints`, or, where there are none, straight
    /// to `centre`. The unit's earlier queue is dropped.
    pub fn set_course(&mut self, waypoints: VecDeque<WorldPos>, centre: WorldPos)
        ensures
            final(self)@ == old(self)@.sent_along(waypoints@, centre),
    {
        let mut path = waypoints;
        let target = match path.pop_front() {
            Some(first) => first,
            None => centre,
        };
        proof {
            if waypoints@.len() > 0 {
                assert(path@ =~= waypoints@.drop_first());
            } else {
                assert(path@ =~= Seq::<WorldPos>::empty());
            }
        }
        self.path = path;
        self.target = target;
    }
}

/// The mathematical values of the units of a table, in order.
pub open spec fn unit_views(units: Seq<Unit>) -> Seq<UnitView> {
    units.map_values(|u: Unit| u@)
}

} // verus!
