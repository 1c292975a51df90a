use factorish::belts::{splitter_bounding_box, splitter_rotate, transport_item, under_distance, Splitter};
use factorish::structure::{bounding_box, contains, BoundingBox, Position, Rotation, Size};

#[test]
fn position_div_mod_is_euclidean() {
    let (div, rem) = Position::new(-1, 17).div_mod(16);
    assert_eq!(div, Position::new(-1, 1));
    assert_eq!(rem, Position::new(15, 1));
    let (div, rem) = Position::new(-16, -17).div_mod(16);
    assert_eq!(div, Position::new(-1, -2));
    assert_eq!(rem, Position::new(0, 15));
}

#[test]
fn position_add_and_distance() {
    let p = Position::new(3, 4);
    assert_eq!(p.add((-1, 2)), Position::new(2, 6));
    assert_eq!(Position::new(0, 0).distance(&Position::new(3, -5)), 5);
    assert_eq!(Position::new(2, 2).distance(&Position::new(2, 2)), 0);
}

#[test]
fn neighbours_are_the_four_sides() {
    let o = Position::new(0, 0);
    assert_eq!(Position::new(-1, 0).neighbor_index(&o), Some(0));
    assert_eq!(Position::new(0, -1).neighbor_index(&o), Some(1));
    assert_eq!(Position::new(1, 0).neighbor_index(&o), Some(2));
    assert_eq!(Position::new(0, 1).neighbor_index(&o), Some(3));
    assert_eq!(Position::new(1, 1).neighbor_index(&o), None);
    assert_eq!(o.neighbor_index(&o), None);
    assert!(Position::new(0, 1).is_neighbor(&o));
    assert!(!Position::new(2, 0).is_neighbor(&o));
}

#[test]
fn rotation_steps_and_angles() {
    assert_eq!(Rotation::Left.delta(), (-1, 0));
    assert_eq!(Rotation::Top.delta(), (0, -1));
    assert_eq!(Rotation::Right.delta(), (1, 0));
    assert_eq!(Rotation::Bottom.delta(), (0, 1));
    assert_eq!(Rotation::Left.delta_inv(), (1, 0));
    assert_eq!(Rotation::Left.angle_4(), 2);
    assert_eq!(Rotation::Top.angle_deg(), 270);
    assert_eq!(Rotation::Right.angle_deg(), 0);
    assert!(Rotation::Left.is_horizontal());
    assert!(Rotation::Bottom.is_vertical());
}

#[test]
fn rotation_next_and_prev_undo_each_other() {
    for r in [Rotation::Left, Rotation::Top, Rotation::Right, Rotation::Bottom] {
        assert_eq!(r.next().prev(), r);
        assert_eq!(r.prev().next(), r);
        assert_eq!(r.next().next().next().next(), r);
    }
    assert_eq!(Rotation::Left.next(), Rotation::Top);
    assert_eq!(Rotation::Bottom.next(), Rotation::Left);
    assert_eq!(Rotation::Left.prev(), Rotation::Bottom);
}

#[test]
fn bounding_box_and_contains() {
    let bb = bounding_box(&Position::new(2, 3), &Size { width: 2, height: 2 });
    assert_eq!(bb, BoundingBox { x0: 2, y0: 3, x1: 4, y1: 5 });
    assert!(contains(&Some(bb), &Position::new(3, 4)));
    assert!(!contains(&Some(bb), &Position::new(4, 4)));
    assert!(!contains(&None, &Position::new(3, 4)));
}

#[test]
fn belt_moves_one_pixel_and_centres() {
    assert_eq!(transport_item(Rotation::Right, 5, 40), (6, 48));
    assert_eq!(transport_item(Rotation::Top, 70, 100), (80, 99));
    assert_eq!(transport_item(Rotation::Left, -5, -40), (-6, -48));
}

#[test]
fn splitter_alternates_lanes() {
    let mut s = Splitter::new();
    assert_eq!(s.direction, 0);
    let pos = Position::new(1, 1);
    // An item not crossing a tile edge moves like on a belt.
    assert_eq!(s.item_response(pos, Rotation::Right, 40, 40), (41, 48));
    assert_eq!(s.direction, 0);
    // Crossing: first to lane 0, then lane 1.
    assert_eq!(s.item_response(pos, Rotation::Right, 47, 40), (48, 48));
    assert_eq!(s.direction, 1);
    assert_eq!(s.item_response(pos, Rotation::Right, 47, 40), (48, 80));
    assert_eq!(s.direction, 0);
}

#[test]
fn splitter_rotation_keeps_its_tiles() {
    let mut pos = Position::new(5, 5);
    let mut rot = Rotation::Right;
    let before = splitter_bounding_box(&pos, &rot);
    assert_eq!(before, BoundingBox { x0: 5, y0: 5, x1: 6, y1: 7 });
    splitter_rotate(&mut pos, &mut rot);
    assert_eq!(pos, Position::new(5, 6));
    assert_eq!(rot, Rotation::Left);
    assert_eq!(splitter_bounding_box(&pos, &rot), before);
}

#[test]
fn underground_distance_along_the_line() {
    let o = Position::new(0, 0);
    assert_eq!(under_distance(&o, &Rotation::Right, &Position::new(3, 0)), Some(3));
    assert_eq!(under_distance(&o, &Rotation::Right, &Position::new(3, 1)), None);
    assert_eq!(under_distance(&o, &Rotation::Left, &Position::new(-2, 0)), Some(2));
    assert_eq!(under_distance(&o, &Rotation::Top, &Position::new(0, -4)), Some(4));
    assert_eq!(under_distance(&o, &Rotation::Bottom, &Position::new(0, -4)), Some(-4));
}
