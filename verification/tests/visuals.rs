use ant_colony::geometry::WorldPos;
use ant_colony::hex::Hex;
use ant_colony::layout::{GridLayout, Orientation};
use ant_colony::unit::{Role, Unit};
use ant_colony::visuals::{destination_marker, hex_outline, outline_of, path_preview, Segment};

#[test]
fn outline_joins_each_corner_to_the_next() {
    let layout = GridLayout::new(Orientation::Flat, 100);
    let edges = hex_outline(&layout, Hex::new(0, 0));
    let expected = [(100, 0), (50, 87), (-50, 87), (-100, 0), (-50, -87), (50, -87)];
    assert_eq!(edges.len(), 6);
    for i in 0..6 {
        assert!((edges[i].from.x - expected[i].0).abs() <= 1);
        assert!((edges[i].from.y - expected[i].1).abs() <= 1);
        assert_eq!(edges[i].to, edges[(i + 1) % 6].from);
    }
}

#[test]
fn outline_of_a_far_cell_lies_around_that_cell() {
    let layout = GridLayout::new(Orientation::Pointy, 20);
    let cell = Hex::new(40, -25);
    let centre = layout.hex_to_world(cell);
    let edges = hex_outline(&layout, cell);
    assert_eq!(edges.len(), 6);
    for i in 0..6 {
        assert!((edges[i].from.x - centre.x).abs() <= 21);
        assert!((edges[i].from.y - centre.y).abs() <= 21);
        let side = edges[i].from.distance_squared(edges[i].to);
        assert!(17 * 17 <= side && side <= 23 * 23);
    }
}

#[test]
fn preview_runs_from_the_unit_through_target_and_queue() {
    let mut unit = Unit::new(Role::Worker, WorldPos::new(1, 1));
    assert_eq!(path_preview(&unit), vec![WorldPos::new(1, 1), WorldPos::new(1, 1)]);
    unit.target = WorldPos::new(5, 5);
    unit.path.push_back(WorldPos::new(9, 9));
    unit.path.push_back(WorldPos::new(13, 9));
    assert_eq!(
        path_preview(&unit),
        vec![WorldPos::new(1, 1), WorldPos::new(5, 5), WorldPos::new(9, 9), WorldPos::new(13, 9)]
    );
}

#[test]
fn destination_is_marked_while_the_unit_is_under_way() {
    let layout = GridLayout::new(Orientation::Pointy, 20);
    let mut unit = Unit::new(Role::Worker, WorldPos::new(0, 0));
    assert_eq!(destination_marker(&unit, &layout), None);
    unit.target = WorldPos::new(2, 0);
    assert_eq!(destination_marker(&unit, &layout), None);
    unit.target = WorldPos::new(35, 0);
    assert_eq!(destination_marker(&unit, &layout), Some(Hex::new(1, 0)));
    unit.path.push_back(WorldPos::new(69, 0));
    unit.path.push_back(WorldPos::new(104, 0));
    assert_eq!(destination_marker(&unit, &layout), Some(Hex::new(3, 0)));
    unit.position = WorldPos::new(35, 0);
    assert_eq!(destination_marker(&unit, &layout), Some(Hex::new(3, 0)));
}

#[test]
fn outline_of_any_corners_is_closed() {
    let p = WorldPos::new;
    assert_eq!(
        outline_of(&vec![p(0, 0), p(4, 0), p(0, 3)]),
        vec![
            Segment { from: p(0, 0), to: p(4, 0) },
            Segment { from: p(4, 0), to: p(0, 3) },
            Segment { from: p(0, 3), to: p(0, 0) },
        ]
    );
    assert_eq!(outline_of(&vec![p(7, 7)]), vec![Segment { from: p(7, 7), to: p(7, 7) }]);
    assert_eq!(outline_of(&Vec::new()), Vec::<Segment>::new());
}
