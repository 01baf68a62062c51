use ant_colony::geometry::{WorldPos, WorldVec};
use ant_colony::motion::{move_ants, ARRIVAL_RADIUS};
use ant_colony::unit::{Role, Unit, Velocity, SPEED};

fn worker(x: i32, y: i32, tx: i32, ty: i32) -> Unit {
    let mut unit = Unit::new(Role::Worker, WorldPos::new(x, y));
    unit.target = WorldPos::new(tx, ty);
    unit
}

#[test]
fn motion_constants() {
    assert_eq!(ARRIVAL_RADIUS, 2);
    assert_eq!(SPEED, 100);
}

#[test]
fn velocity_toward_a_direction_runs_at_full_speed() {
    assert_eq!(
        Velocity::toward(WorldVec { dx: 3, dy: -4 }),
        Velocity { dir: WorldVec { dx: 3, dy: -4 }, speed: 100 }
    );
    assert_eq!(Velocity::toward(WorldVec { dx: 0, dy: 0 }), Velocity::zero());
    assert_eq!(Velocity::zero(), Velocity { dir: WorldVec { dx: 0, dy: 0 }, speed: 0 });
}

#[test]
fn unit_short_of_its_target_heads_for_it_and_faces_it() {
    let mut units = vec![worker(10, 10, 40, -30)];
    move_ants(&mut units);
    assert_eq!(units[0].position, WorldPos::new(10, 10));
    assert_eq!(units[0].target, WorldPos::new(40, -30));
    assert_eq!(units[0].velocity, Velocity { dir: WorldVec { dx: 30, dy: -40 }, speed: 100 });
    assert_eq!(units[0].facing, WorldVec { dx: 30, dy: -40 });
}

#[test]
fn arrival_radius_is_inclusive() {
    let mut units = vec![worker(0, 0, 2, 0), worker(0, 0, 2, 1), worker(0, 0, 0, -2)];
    move_ants(&mut units);
    assert_eq!(units[0].position, WorldPos::new(2, 0));
    assert_eq!(units[0].velocity, Velocity::zero());
    assert_eq!(units[1].position, WorldPos::new(0, 0));
    assert_eq!(units[1].velocity, Velocity { dir: WorldVec { dx: 2, dy: 1 }, speed: 100 });
    assert_eq!(units[2].position, WorldPos::new(0, -2));
    assert_eq!(units[2].velocity, Velocity::zero());
}

#[test]
fn arrival_with_nothing_queued_snaps_and_stops() {
    let mut unit = worker(99, 101, 100, 100);
    unit.velocity = Velocity { dir: WorldVec { dx: 50, dy: 50 }, speed: 100 };
    unit.facing = WorldVec { dx: 50, dy: 50 };
    let mut units = vec![unit];
    move_ants(&mut units);
    assert_eq!(units[0].position, WorldPos::new(100, 100));
    assert_eq!(units[0].target, WorldPos::new(100, 100));
    assert_eq!(units[0].velocity, Velocity::zero());
    assert_eq!(units[0].facing, WorldVec { dx: 50, dy: 50 });
    assert!(units[0].path.is_empty());
    let rested = units.clone();
    move_ants(&mut units);
    assert_eq!(units, rested);
}

#[test]
fn arrival_takes_the_next_waypoint_and_moves_on_at_once() {
    let mut unit = worker(34, 1, 35, 0);
    unit.path.push_back(WorldPos::new(69, 0));
    unit.path.push_back(WorldPos::new(104, 0));
    let mut units = vec![unit];
    move_ants(&mut units);
    assert_eq!(units[0].position, WorldPos::new(35, 0));
    assert_eq!(units[0].target, WorldPos::new(69, 0));
    assert_eq!(units[0].path, vec![WorldPos::new(104, 0)]);
    assert_eq!(units[0].velocity, Velocity { dir: WorldVec { dx: 34, dy: 0 }, speed: 100 });
    assert_eq!(units[0].facing, WorldVec { dx: 34, dy: 0 });
}

#[test]
fn waypoint_on_the_spot_gives_no_direction() {
    let mut unit = worker(5, 5, 5, 5);
    unit.facing = WorldVec { dx: -1, dy: 7 };
    unit.path.push_back(WorldPos::new(5, 5));
    unit.path.push_back(WorldPos::new(9, 9));
    let mut units = vec![unit];
    move_ants(&mut units);
    assert_eq!(units[0].position, WorldPos::new(5, 5));
    assert_eq!(units[0].target, WorldPos::new(5, 5));
    assert_eq!(units[0].path, vec![WorldPos::new(9, 9)]);
    assert_eq!(units[0].velocity, Velocity::zero());
    assert_eq!(units[0].facing, WorldVec { dx: -1, dy: 7 });
}

#[test]
fn queen_is_left_out_of_motion() {
    let mut queen = Unit::new(Role::Queen, WorldPos::new(0, 0));
    queen.target = WorldPos::new(500, 500);
    queen.path.push_back(WorldPos::new(600, 600));
    let mut units = vec![queen, worker(0, 0, 100, 0)];
    let before = units.clone();
    move_ants(&mut units);
    assert_eq!(units[0], before[0]);
    assert_eq!(units[0].velocity, Velocity::zero());
    assert_eq!(units[1].velocity, Velocity { dir: WorldVec { dx: 100, dy: 0 }, speed: 100 });
}

#[test]
fn step_advances_one_unit_only() {
    let mut units = vec![worker(0, 0, 100, 0), worker(0, 0, 0, 100)];
    let before = units.clone();
    units[1].step();
    assert_eq!(units[0], before[0]);
    assert_eq!(units[1].velocity, Velocity { dir: WorldVec { dx: 0, dy: 100 }, speed: 100 });
}

#[test]
fn motion_copes_with_the_far_corners_of_the_plane() {
    let mut units = vec![worker(i32::MIN, i32::MIN, i32::MAX, i32::MAX)];
    move_ants(&mut units);
    assert_eq!(
        units[0].velocity,
        Velocity { dir: WorldVec { dx: u32::MAX as i64, dy: u32::MAX as i64 }, speed: 100 }
    );
}
