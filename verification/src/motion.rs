//! Frame-by-frame motion of the units along their waypoint queues.

use crate::geometry::lemma_dist_sq_zero;
use crate::unit::{unit_views, Role, Unit, UnitView, Velocity};
use vstd::prelude::*;

verus! {

/// A unit no farther than this from its target has arrived.
pub const ARRIVAL_RADIUS: i32 = 2;

/// Whether the unit is no farther from its target than the arrival radius.
pub open spec fn has_arrived(u: UnitView) -> bool {
    u.position.dist_sq(u.target) <= ARRIVAL_RADIUS * ARRIVAL_RADIUS
}

/// A mobile unit after one frame.
///
/// Short of its target it heads for it at full speed and faces it. Once
/// arrived it is put exactly on the target; it then takes the next waypoint
/// as its target and heads for it at once, or, with no waypoint left, comes
/// to rest. Its facing changes only where there is a direction to face.
pub open spec fn stepped(u: UnitView) -> UnitView {
    if !has_arrived(u) {
        let delta = u.position.vector_to(u.target);
        UnitView { velocity: Velocity::heading(delta), facing: delta, ..u }
    } else if u.path.len() > 0 {
        let delta = u.target.vector_to(u.path[0]);
        UnitView {
            position: u.target,
            target: u.path[0],
            path: u.path.drop_first(),
            velocity: Velocity::heading(delta),
            facing: if delta.is_zero() {
                u.facing
            } else {
                delta
            },
            ..u
        }
    } else {
        UnitView { position: u.target, velocity: Velocity::rest(), ..u }
    }
}

/// The unit table after one frame of motion: every worker takes a step, and
/// the queen stays as she is.
pub open spec fn moved(units: Seq<UnitView>) -> Seq<UnitView> {
    Seq::new(
        units.len(),
        |i: int|
            if units[i].role == Role::Queen {
                units[i]
            } else {
                stepped(units[i])
            },
    )
}

impl Unit {
    /// Advances the unit by one frame, as a mobile unit moves.
    pub fn step(&mut self)
        ensures
            final(self)@ == stepped(old(self)@),
    {
        let position = self.position;
        let target = self.target;
        let delta = position.delta_to(target);
        let reach: u128 = 4;
        assert(reach == ARRIVAL_RADIUS * ARRIVAL_RADIUS);
        if position.distance_squared(target) > reach {
            proof {
                lemma_dist_sq_zero(position, target);
            }
            self.velocity = Velocity::toward(delta);
            self.facing = delta;
        } else {
            self.position = target;
            let ghost queue = self.path@;
            match self.path.pop_front() {
                Some(next) => {
                    let onward = target.delta_to(next);
                    self.target = next;
                    if onward.dx != 0 || onward.dy != 0 {
                        self.facing = onward;
                    }
                    self.velocity = Velocity::toward(onward);
                    proof {
                        assert(self.path@ =~= queue.drop_first());
                    }
                },
                None => {
                    self.velocity = Velocity::zero();
                },
            }
        }
    }
}

/// Advances every worker by one frame; the queen is left out.
pub fn move_ants(units: &mut Vec<Unit>)
    ensures
        final(units)@.len() == old(units)@.len(),
        unit_views(final(units)@) == moved(unit_views(old(units)@)),
{
    let ghost before = unit_views(units@);
    let mut i: usize = 0;
    while i < units.len()
        invariant
            0 <= i <= units.len(),
            units@.len() == before.len(),
            forall|j: int| 0 <= j < i ==> (#[trigger] units@[j])@ == moved(before)[j],
            forall|j: int| i <= j < units.len() ==> (#[trigger] units@[j])@ == before[j],
        decreases units.len() - i,
    {
        match units[i].role {
            Role::Queen => {},
            Role::Worker => {
                units[i].step();
            },
        }
        i += 1;
    }
    proof {
        assert(unit_views(units@) =~= moved(before));
    }
}

/// A mobile unit that has arrived with nothing queued is put exactly on its
/// target and comes to rest.
pub proof fn lemma_arrival_snap(u: UnitView)
    requires
        has_arrived(u),
        u.path.len() == 0,
    ensures
        stepped(u).position == u.target,
        stepped(u).velocity == Velocity::rest(),
        stepped(u).velocity.is_rest(),
        stepped(u).target == u.target,
{
}

/// In a frame of motion a worker that has arrived with nothing queued is
/// put exactly on its target and comes to rest.
pub proof fn lemma_move_ants_snaps(units: Seq<UnitView>, i: int)
    requires
        0 <= i < units.len(),
        units[i].role == Role::Worker,
        has_arrived(units[i]),
        units[i].path.len() == 0,
    ensures
        moved(units)[i].position == units[i].target,
        moved(units)[i].velocity == Velocity::rest(),
{
}

/// The queen never moves: a frame of motion leaves her as she is, whatever
/// she has been ordered to do.
pub proof fn lemma_queen_is_immobile(units: Seq<UnitView>, i: int)
    requires
        0 <= i < units.len(),
        units[i].role == Role::Queen,
    ensures
        moved(units)[i] == units[i],
{
}

/// A unit at rest on its target with nothing queued stays as it is.
pub proof fn lemma_rest_is_stable(u: UnitView)
    requires
        u.position == u.target,
        u.path.len() == 0,
        u.velocity == Velocity::rest(),
    ensures
        stepped(u) == u,
{
    lemma_dist_sq_zero(u.position, u.target);
}

/// The direction that a unit faces after a step is never zero, if it was
/// not zero before.
pub proof fn lemma_facing_stays_nonzero(u: UnitView)
    requires
        !u.facing.is_zero(),
    ensures
        !stepped(u).facing.is_zero(),
{
    lemma_dist_sq_zero(u.position, u.target);
}

} // verus!
