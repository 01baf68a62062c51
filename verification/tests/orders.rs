use ant_colony::geometry::WorldPos;
use ant_colony::hex::Hex;
use ant_colony::layout::{GridLayout, Orientation};
use ant_colony::assignment::{assign_destinations, contains_hex};
use ant_colony::orders::{
    clear_selection, click_is_in_reach, collect_occupied, count_selected, give_order,
    handle_click, issue_move_order, order_is_in_reach, ClickOutcome, SEARCH_RADIUS,
};
use ant_colony::unit::{Role, Unit};
use std::collections::VecDeque;

fn layout() -> GridLayout {
    GridLayout::new(Orientation::Pointy, 20)
}

fn worker_in(layout: &GridLayout, q: i32, r: i32) -> Unit {
    Unit::new(Role::Worker, layout.hex_to_world(Hex::new(q, r)))
}

fn selected_worker_in(layout: &GridLayout, q: i32, r: i32) -> Unit {
    let mut unit = worker_in(layout, q, r);
    unit.selected = true;
    unit
}

fn journey_end(unit: &Unit) -> WorldPos {
    match unit.path.back() {
        Some(&last) => last,
        None => unit.target,
    }
}

#[test]
fn search_radius_is_ten_cells() {
    assert_eq!(SEARCH_RADIUS, 10);
}

#[test]
fn contains_hex_finds_cells() {
    let cells = vec![Hex::new(1, 2), Hex::new(-3, 4)];
    assert!(contains_hex(&cells, Hex::new(-3, 4)));
    assert!(!contains_hex(&cells, Hex::new(4, -3)));
    assert!(!contains_hex(&Vec::new(), Hex::new(0, 0)));
}

#[test]
fn destinations_pass_over_occupied_cells() {
    let candidates = vec![Hex::new(0, 0), Hex::new(1, 0), Hex::new(0, 1), Hex::new(-1, 1)];
    let occupied = vec![Hex::new(1, 0)];
    assert_eq!(
        assign_destinations(&candidates, occupied.clone(), 2),
        vec![Hex::new(0, 0), Hex::new(0, 1)]
    );
    assert_eq!(
        assign_destinations(&candidates, occupied.clone(), 3),
        vec![Hex::new(0, 0), Hex::new(0, 1), Hex::new(-1, 1)]
    );
    assert_eq!(
        assign_destinations(&candidates, occupied, 9),
        vec![Hex::new(0, 0), Hex::new(0, 1), Hex::new(-1, 1)]
    );
}

#[test]
fn destinations_stop_at_the_number_asked_for() {
    let candidates = vec![Hex::new(0, 0), Hex::new(1, 0), Hex::new(0, 1)];
    assert_eq!(assign_destinations(&candidates, Vec::new(), 0), Vec::<Hex>::new());
    assert_eq!(assign_destinations(&candidates, Vec::new(), 1), vec![Hex::new(0, 0)]);
    assert_eq!(assign_destinations(&Vec::new(), Vec::new(), 4), Vec::<Hex>::new());
}

#[test]
fn a_cell_is_handed_out_once_even_if_offered_twice() {
    let candidates = vec![Hex::new(2, 2), Hex::new(2, 2), Hex::new(3, 3), Hex::new(2, 2)];
    assert_eq!(
        assign_destinations(&candidates, Vec::new(), 4),
        vec![Hex::new(2, 2), Hex::new(3, 3)]
    );
}

#[test]
fn no_destination_where_everything_is_occupied() {
    let candidates = vec![Hex::new(0, 0), Hex::new(1, 0)];
    let occupied = vec![Hex::new(1, 0), Hex::new(0, 0), Hex::new(9, 9)];
    assert_eq!(assign_destinations(&candidates, occupied, 2), Vec::<Hex>::new());
}

#[test]
fn occupied_cells_are_the_targets_of_units_outside_the_selection() {
    let layout = layout();
    let mut a = worker_in(&layout, 1, 0);
    a.target = layout.hex_to_world(Hex::new(4, 4));
    let b = selected_worker_in(&layout, 2, 0);
    let c = Unit::new(Role::Queen, layout.hex_to_world(Hex::new(0, 0)));
    let units = vec![a, b, c];
    assert_eq!(collect_occupied(&units, &layout), vec![Hex::new(4, 4), Hex::new(0, 0)]);
    assert_eq!(count_selected(&units), 1);
    assert_eq!(count_selected(&Vec::new()), 0);
}

#[test]
fn click_on_a_unit_toggles_it_and_nothing_else() {
    let layout = layout();
    let mut units = vec![
        Unit::new(Role::Queen, WorldPos::new(0, 0)),
        worker_in(&layout, 1, 0),
        selected_worker_in(&layout, 0, 1),
    ];
    let before = units.clone();
    assert_eq!(handle_click(&mut units, &layout, WorldPos::new(30, 5)), ClickOutcome::Toggled(1));
    assert!(units[1].selected);
    assert!(units[2].selected);
    assert_eq!(units[0], before[0]);
    assert_eq!(units[2], before[2]);
    assert_eq!(handle_click(&mut units, &layout, WorldPos::new(18, 28)), ClickOutcome::Toggled(2));
    assert!(units[1].selected);
    assert!(!units[2].selected);
    assert_eq!(units[1].target, before[1].target);
}

#[test]
fn clicking_an_occupied_cell_twice_restores_the_selection() {
    let layout = layout();
    for start_selected in [false, true] {
        let mut units = vec![
            Unit::new(Role::Queen, WorldPos::new(0, 0)),
            worker_in(&layout, 1, 0),
            selected_worker_in(&layout, 0, 1),
        ];
        units[1].selected = start_selected;
        let before = units.clone();
        handle_click(&mut units, &layout, WorldPos::new(35, 0));
        assert_eq!(units[1].selected, !start_selected);
        handle_click(&mut units, &layout, WorldPos::new(35, 0));
        assert_eq!(units, before);
    }
}

#[test]
fn click_on_an_empty_cell_with_nothing_selected_does_nothing() {
    let layout = layout();
    let mut units = vec![Unit::new(Role::Queen, WorldPos::new(0, 0)), worker_in(&layout, 1, 0)];
    let before = units.clone();
    assert_eq!(
        handle_click(&mut units, &layout, WorldPos::new(173, 0)),
        ClickOutcome::NothingSelected
    );
    assert_eq!(units, before);
    let mut nobody: Vec<Unit> = Vec::new();
    assert_eq!(
        handle_click(&mut nobody, &layout, WorldPos::new(173, 0)),
        ClickOutcome::NothingSelected
    );
}

#[test]
fn move_order_walks_the_line_cell_by_cell() {
    let layout = layout();
    let mut units = vec![
        Unit::new(Role::Queen, WorldPos::new(0, 0)),
        selected_worker_in(&layout, 1, 0),
    ];
    assert_eq!(handle_click(&mut units, &layout, WorldPos::new(173, 0)), ClickOutcome::Ordered(1));
    assert_eq!(units[1].position, WorldPos::new(35, 0));
    assert_eq!(units[1].target, WorldPos::new(69, 0));
    assert_eq!(
        units[1].path,
        vec![WorldPos::new(104, 0), WorldPos::new(139, 0), WorldPos::new(173, 0)]
    );
    assert!(units[1].selected);
    assert_eq!(units[0], Unit::new(Role::Queen, WorldPos::new(0, 0)));
}

#[test]
fn move_order_replaces_an_earlier_queue() {
    let layout = layout();
    let mut unit = selected_worker_in(&layout, 1, 0);
    unit.target = WorldPos::new(-500, -500);
    unit.path.push_back(WorldPos::new(-600, -600));
    unit.path.push_back(WorldPos::new(-700, -700));
    let mut units = vec![unit];
    assert_eq!(handle_click(&mut units, &layout, WorldPos::new(104, 0)), ClickOutcome::Ordered(1));
    assert_eq!(units[0].target, WorldPos::new(69, 0));
    assert_eq!(units[0].path, vec![WorldPos::new(104, 0)]);
}

#[test]
fn neighbouring_destination_needs_no_queue() {
    let layout = layout();
    let mut units = vec![selected_worker_in(&layout, 1, 0)];
    assert_eq!(handle_click(&mut units, &layout, WorldPos::new(69, 0)), ClickOutcome::Ordered(1));
    assert_eq!(units[0].target, WorldPos::new(69, 0));
    assert!(units[0].path.is_empty());
}

#[test]
fn unit_already_in_its_destination_heads_for_the_centre() {
    let layout = layout();
    let mut first = selected_worker_in(&layout, 1, 0);
    let mut second = selected_worker_in(&layout, 6, 0);
    first.position = WorldPos::new(38, 3);
    second.position = WorldPos::new(205, -4);
    let mut units = vec![first, second];
    assert_eq!(handle_click(&mut units, &layout, WorldPos::new(173, 0)), ClickOutcome::Ordered(2));
    assert_eq!(journey_end(&units[0]), WorldPos::new(173, 0));
    assert_eq!(units[1].target, WorldPos::new(208, 0));
    assert!(units[1].path.is_empty());
    assert_eq!(units[1].position, WorldPos::new(205, -4));
}

#[test]
fn destinations_go_out_in_spiral_order_past_occupied_cells() {
    let layout = layout();
    let mut units = vec![Unit::new(Role::Queen, WorldPos::new(0, 0))];
    for k in 0..5 {
        units.push(selected_worker_in(&layout, -6, k));
    }
    let anchor = layout.hex_to_world(Hex::new(1, -1));
    assert_eq!(anchor, WorldPos::new(17, -30));
    assert_eq!(handle_click(&mut units, &layout, anchor), ClickOutcome::Ordered(5));
    let ends: Vec<Hex> = units[1..].iter().map(|u| layout.world_to_hex(journey_end(u))).collect();
    assert_eq!(
        ends,
        vec![Hex::new(1, -1), Hex::new(2, -1), Hex::new(1, 0), Hex::new(0, -1), Hex::new(1, -2)]
    );
    for unit in &units[1..] {
        assert!(!unit.path.is_empty());
        assert!(unit.selected);
    }
}

#[test]
fn targets_of_selected_units_do_not_block() {
    let layout = layout();
    let mut mover = selected_worker_in(&layout, -3, 0);
    mover.target = layout.hex_to_world(Hex::new(5, 0));
    let mut bystander = worker_in(&layout, -3, 1);
    bystander.target = layout.hex_to_world(Hex::new(6, 0));
    let mut other = selected_worker_in(&layout, -3, 2);
    other.target = layout.hex_to_world(Hex::new(5, 1));
    let mut units = vec![mover, bystander, other];
    let bystander_before = units[1].clone();
    assert_eq!(handle_click(&mut units, &layout, WorldPos::new(173, 0)), ClickOutcome::Ordered(2));
    assert_eq!(layout.world_to_hex(journey_end(&units[0])), Hex::new(5, 0));
    assert_eq!(layout.world_to_hex(journey_end(&units[2])), Hex::new(5, 1));
    assert_eq!(units[1], bystander_before);
}

#[test]
fn assigned_destinations_are_pairwise_distinct() {
    let layout = layout();
    let mut units = Vec::new();
    for k in 0..60 {
        units.push(selected_worker_in(&layout, -20, k - 30));
    }
    let anchor = layout.hex_to_world(Hex::new(4, 3));
    assert_eq!(handle_click(&mut units, &layout, anchor), ClickOutcome::Ordered(60));
    let ends: Vec<Hex> = units.iter().map(|u| layout.world_to_hex(journey_end(u))).collect();
    for i in 0..ends.len() {
        assert!(ends[i].distance_to(Hex::new(4, 3)) <= 10);
        for j in 0..i {
            assert_ne!(ends[i], ends[j]);
        }
    }
    assert_eq!(ends[0], Hex::new(4, 3));
}

#[test]
fn selection_is_dropped_where_no_cell_is_free() {
    let layout = layout();
    let anchor = Hex::new(20, 0);
    let mut units = Vec::new();
    for cell in anchor.spiral_range(10) {
        let mut blocker = worker_in(&layout, -40, 0);
        blocker.target = layout.hex_to_world(cell);
        units.push(blocker);
    }
    assert_eq!(units.len(), 331);
    units.push(selected_worker_in(&layout, -41, 0));
    units.push(selected_worker_in(&layout, -42, 0));
    let before = units.clone();
    assert_eq!(
        handle_click(&mut units, &layout, layout.hex_to_world(anchor)),
        ClickOutcome::SelectionCleared
    );
    assert!(!units[331].selected);
    assert!(!units[332].selected);
    for (now, then) in units.iter_mut().zip(before.iter()) {
        now.selected = then.selected;
    }
    assert_eq!(units, before);
}

#[test]
fn units_beyond_the_free_cells_keep_their_order() {
    let layout = layout();
    let mut units = Vec::new();
    for k in 0..335 {
        let mut unit = selected_worker_in(&layout, -60, k - 170);
        unit.path.push_back(WorldPos::new(k, k));
        units.push(unit);
    }
    let before = units.clone();
    assert_eq!(
        issue_move_order(&mut units, &layout, Hex::new(0, 0)),
        ClickOutcome::Ordered(331)
    );
    for k in 0..331 {
        assert_ne!(units[k], before[k]);
        assert!(layout.world_to_hex(journey_end(&units[k])).distance_to(Hex::new(0, 0)) <= 10);
    }
    assert_eq!(layout.world_to_hex(journey_end(&units[330])).distance_to(Hex::new(0, 0)), 10);
    for k in 331..335 {
        assert_eq!(units[k], before[k]);
    }
}

#[test]
fn clear_selection_deselects_everyone() {
    let layout = layout();
    let mut units = vec![
        selected_worker_in(&layout, 1, 0),
        worker_in(&layout, 2, 0),
        selected_worker_in(&layout, 3, 0),
    ];
    clear_selection(&mut units);
    assert_eq!(
        units,
        vec![worker_in(&layout, 1, 0), worker_in(&layout, 2, 0), worker_in(&layout, 3, 0)]
    );
}

#[test]
fn orders_beyond_the_coordinate_limit_are_out_of_reach() {
    let fine = GridLayout::new(Orientation::Pointy, 1);
    let mut units = vec![Unit::new(Role::Worker, WorldPos::new(0, 0))];
    units[0].selected = true;
    assert!(click_is_in_reach(&units, &fine, WorldPos::new(1000, 1000)));
    assert!(!click_is_in_reach(&units, &fine, WorldPos::new(2_000_000_000, 0)));
    assert!(click_is_in_reach(&units, &fine, WorldPos::new(0, 0)));
    assert!(order_is_in_reach(&units, &fine, Hex::new(8_388_598, -8_388_598)));
    assert!(!order_is_in_reach(&units, &fine, Hex::new(8_388_599, 0)));
    assert!(!order_is_in_reach(&units, &fine, Hex::new(0, -8_388_599)));
    units[0].position = WorldPos::new(-2_000_000_000, 0);
    assert!(!click_is_in_reach(&units, &fine, WorldPos::new(0, 0)));
    assert!(click_is_in_reach(&units, &fine, WorldPos::new(-2_000_000_000, 0)));
    units[0].selected = false;
    assert!(click_is_in_reach(&units, &fine, WorldPos::new(0, 0)));
}

#[test]
fn move_order_works_at_the_coordinate_limit() {
    let layout = layout();
    let mut units = vec![Unit::new(Role::Worker, WorldPos::new(0, 0))];
    units[0].selected = true;
    let anchor = Hex::new(8_388_598, -8_388_598);
    assert!(order_is_in_reach(&units, &layout, anchor));
    assert_eq!(collect_occupied(&units, &layout), Vec::<Hex>::new());
    let ring = anchor.ring(10);
    assert_eq!(ring[0], Hex::new(8_388_608, -8_388_598));
    let line = ring[0].line_to(Hex::new(8_388_608, -8_388_608));
    assert_eq!(line.len(), 11);
    assert_eq!(line[10], Hex::new(8_388_608, -8_388_608));
}

#[test]
fn course_takes_the_first_waypoint_as_target() {
    let mut units = vec![Unit::new(Role::Worker, WorldPos::new(0, 0)); 2];
    units[0].path.push_back(WorldPos::new(-9, -9));
    units[0].selected = true;
    let waypoints = VecDeque::from(vec![WorldPos::new(1, 1), WorldPos::new(2, 2), WorldPos::new(3, 3)]);
    units[0].set_course(waypoints, WorldPos::new(50, 50));
    assert_eq!(units[0].target, WorldPos::new(1, 1));
    assert_eq!(units[0].path, vec![WorldPos::new(2, 2), WorldPos::new(3, 3)]);
    assert_eq!(units[0].position, WorldPos::new(0, 0));
    assert!(units[0].selected);
    assert_eq!(units[1], Unit::new(Role::Worker, WorldPos::new(0, 0)));
}

#[test]
fn course_without_waypoints_heads_for_the_centre() {
    let mut units = vec![Unit::new(Role::Worker, WorldPos::new(0, 0))];
    units[0].path.push_back(WorldPos::new(-9, -9));
    units[0].set_course(VecDeque::new(), WorldPos::new(50, 50));
    assert_eq!(units[0].target, WorldPos::new(50, 50));
    assert!(units[0].path.is_empty());
}

#[test]
fn order_queues_the_cells_between_unit_and_destination() {
    let layout = layout();
    let mut unit = worker_in(&layout, 0, 0);
    unit.path.push_back(WorldPos::new(1, 1));
    give_order(&mut unit, &layout, Hex::new(0, 3));
    assert_eq!(unit.target, WorldPos::new(17, 30));
    assert_eq!(unit.path, vec![WorldPos::new(35, 60), WorldPos::new(52, 90)]);
    give_order(&mut unit, &layout, Hex::new(0, 0));
    assert_eq!(unit.target, WorldPos::new(0, 0));
    assert!(unit.path.is_empty());
    assert!(!unit.selected);
}

#[test]
fn deselect_clears_the_marker_whatever_it_was() {
    let mut unit = Unit::new(Role::Worker, WorldPos::new(0, 0));
    unit.deselect();
    assert!(!unit.selected);
    unit.selected = true;
    unit.deselect();
    assert_eq!(unit, Unit::new(Role::Worker, WorldPos::new(0, 0)));
}
