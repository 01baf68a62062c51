//! The colony as it stands when the game begins.

use crate::geometry::{WorldPos, WorldVec};
use crate::hex::Hex;
use crate::layout::{cell_at, center_of, round_trips, GridLayout};
use crate::selection::{first_hit, lemma_first_hit_is};
use crate::unit::{unit_views, Role, Unit, UnitView, Velocity};
use vstd::prelude::*;

verus! {

/// How many workers the colony begins with.
pub const WORKER_COUNT: usize = 3;

/// A unit of the given role as it is placed: at rest at `position`, with
/// nowhere to go and not selected.
pub open spec fn placed(role: Role, position: WorldPos) -> UnitView {
    UnitView {
        role,
        position,
        target: position,
        path: Seq::empty(),
        selected: false,
        velocity: Velocity::rest(),
        facing: WorldVec { dx: 1, dy: 0 },
    }
}

/// The colony at the start: the queen in the cell (0, 0) and three workers
/// in the first three cells of the ring around her.
pub open spec fn colony_at_start(layout: GridLayout) -> Seq<UnitView> {
    seq![
        placed(Role::Queen, center_of(layout, Hex { q: 0, r: 0 })),
        placed(Role::Worker, center_of(layout, Hex { q: 1, r: 0 })),
        placed(Role::Worker, center_of(layout, Hex { q: 0, r: 1 })),
        placed(Role::Worker, center_of(layout, Hex { q: -1i32, r: 1 })),
    ]
}

/// The cells in which the colony begins: the queen's first, then the
/// workers'.
pub open spec fn home_cells() -> Seq<Hex> {
    seq![
        Hex { q: 0, r: 0 },
        Hex { q: 1, r: 0 },
        Hex { q: 0, r: 1 },
        Hex { q: -1i32, r: 1 },
    ]
}

/// Every unit of the colony begins at rest on the centre of its cell, and,
/// on a layout on which those centres lie in their cells, stands in its
/// cell, with no other unit in it.
pub proof fn lemma_colony_stands_on_its_cells(layout: GridLayout)
    requires
        forall|k: int| 0 <= k < 4 ==> round_trips(layout, #[trigger] home_cells()[k]),
    ensures
        colony_at_start(layout).len() == 4,
        forall|k: int|
            0 <= k < 4 ==> {
                let unit = #[trigger] colony_at_start(layout)[k];
                &&& unit.position == center_of(layout, home_cells()[k])
                &&& unit.target == unit.position
                &&& cell_at(layout, unit.position) == home_cells()[k]
                &&& first_hit(colony_at_start(layout), layout, home_cells()[k]) == Some(k)
            },
{
    let units = colony_at_start(layout);
    assert forall|k: int| 0 <= k < 4 implies cell_at(layout, (#[trigger] units[k]).position)
        == home_cells()[k] by {
        assert(round_trips(layout, home_cells()[k]));
    }
    assert forall|k: int| 0 <= k < 4 implies first_hit(units, layout, home_cells()[k]) == Some(
        k,
    ) by {
        assert(round_trips(layout, home_cells()[0]));
        assert(round_trips(layout, home_cells()[1]));
        assert(round_trips(layout, home_cells()[2]));
        assert(round_trips(layout, home_cells()[3]));
        lemma_first_hit_is(units, layout, home_cells()[k], k);
    }
}

/// Places the queen and the workers on the grid.
pub fn spawn_units(layout: &GridLayout) -> (units: Vec<Unit>)
    ensures
        units@.len() == WORKER_COUNT + 1,
        unit_views(units@) == colony_at_start(*layout),
{
    let mut units: Vec<Unit> = Vec::new();
    units.push(Unit::new(Role::Queen, layout.hex_to_world(Hex::zero())));
    let ring = Hex::zero().ring(1);
    assert(ring@[0] == (Hex { q: 1, r: 0 }));
    assert(ring@[1] == (Hex { q: 0, r: 1 }));
    assert(ring@[2] == (Hex { q: -1i32, r: 1 }));
    let mut k: usize = 0;
    while k < WORKER_COUNT
        invariant
            0 <= k <= WORKER_COUNT,
            ring@.len() == 6,
            units@.len() == k + 1,
            forall|j: int|
                0 <= j < units@.len() ==> (#[trigger] units@[j])@ == colony_at_start(*layout)[j],
            ring@[0] == (Hex { q: 1, r: 0 }),
            ring@[1] == (Hex { q: 0, r: 1 }),
            ring@[2] == (Hex { q: -1i32, r: 1 }),
        decreases WORKER_COUNT - k,
    {
        units.push(Unit::new(Role::Worker, layout.hex_to_world(ring[k])));
        k += 1;
    }
    proof {
        assert(unit_views(units@) =~= colony_at_start(*layout));
    }
    units
}

} // verus!
