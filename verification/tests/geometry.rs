use ant_colony::geometry::{Rect, WorldPos, WorldVec};

#[test]
fn delta_and_squared_distance() {
    let a = WorldPos::new(1, 2);
    let b = WorldPos::new(4, -2);
    assert_eq!(a.delta_to(b), WorldVec { dx: 3, dy: -4 });
    assert_eq!(a.distance_squared(b), 25);
    assert_eq!(b.distance_squared(a), 25);
    assert_eq!(a.distance_squared(a), 0);
    assert_eq!(WorldVec::zero(), WorldVec { dx: 0, dy: 0 });
    assert_eq!(WorldVec { dx: -6, dy: 8 }.length_squared(), 100);
    assert_eq!(WorldVec { dx: i64::MIN, dy: i64::MIN }.length_squared(), 1u128 << 127);
}

#[test]
fn squared_distance_spans_the_whole_plane() {
    let a = WorldPos::new(i32::MIN, i32::MIN);
    let b = WorldPos::new(i32::MAX, i32::MAX);
    let side = u32::MAX as u128;
    assert_eq!(a.distance_squared(b), 2 * side * side);
    assert_eq!(a.delta_to(b), WorldVec { dx: u32::MAX as i64, dy: u32::MAX as i64 });
}

#[test]
fn within_is_strict() {
    let a = WorldPos::new(0, 0);
    assert!(a.is_within(WorldPos::new(4, 2), 5));
    assert!(!a.is_within(WorldPos::new(3, 4), 5));
    assert!(!a.is_within(WorldPos::new(5, 0), 5));
    assert!(a.is_within(WorldPos::new(0, 0), 1));
    assert!(!a.is_within(WorldPos::new(0, 0), 0));
    assert!(!a.is_within(WorldPos::new(0, 0), -3));
}

#[test]
fn spanning_orders_the_corners() {
    let r = Rect::spanning(WorldPos::new(10, -3), WorldPos::new(-2, 7));
    assert_eq!(r, Rect { min: WorldPos::new(-2, -3), max: WorldPos::new(10, 7) });
    assert_eq!(r, Rect::spanning(WorldPos::new(-2, 7), WorldPos::new(10, -3)));
}

#[test]
fn clamp_moves_a_point_onto_the_rectangle() {
    let r = Rect::spanning(WorldPos::new(0, 0), WorldPos::new(10, 10));
    assert_eq!(r.clamp(WorldPos::new(5, 5)), WorldPos::new(5, 5));
    assert_eq!(r.clamp(WorldPos::new(-3, 5)), WorldPos::new(0, 5));
    assert_eq!(r.clamp(WorldPos::new(12, 15)), WorldPos::new(10, 10));
    assert_eq!(r.clamp(WorldPos::new(4, -9)), WorldPos::new(4, 0));
}

#[test]
fn circle_touches_rectangle_within_its_radius() {
    let r = Rect::spanning(WorldPos::new(10, 10), WorldPos::new(0, 0));
    assert!(r.hits_circle(WorldPos::new(5, 5), 1));
    assert!(r.hits_circle(WorldPos::new(-3, 5), 4));
    assert!(!r.hits_circle(WorldPos::new(-3, 5), 3));
    assert!(r.hits_circle(WorldPos::new(13, 14), 6));
    assert!(!r.hits_circle(WorldPos::new(13, 14), 5));
    assert!(r.hits_circle(WorldPos::new(13, 14), -6));
    assert!(!r.hits_circle(WorldPos::new(5, 5), 0));
}

#[test]
fn larger_rectangle_touches_whatever_a_smaller_one_touches() {
    let inner = Rect::spanning(WorldPos::new(3, 3), WorldPos::new(6, 8));
    let outer = Rect::spanning(WorldPos::new(0, -2), WorldPos::new(9, 8));
    for x in -15..25 {
        for y in -15..25 {
            for radius in 0..12 {
                let p = WorldPos::new(x, y);
                if inner.hits_circle(p, radius) {
                    assert!(outer.hits_circle(p, radius));
                }
            }
        }
    }
}
