use collisions::collision::{can_collide, collision};
use collisions::components::{
    Collider, Position, PreviousPosition, Velocity, COORD_LIMIT, ENTITY_SIZE, EPSILON, UNIT,
};
use collisions::geometry::Rect;
use collisions::movement::movement;
use hecs::{Entity, World};

const SIZE: Collider = Collider { w: ENTITY_SIZE, h: ENTITY_SIZE };

fn at(x: i64, y: i64) -> Position {
    Position { x: x * UNIT, y: y * UNIT }
}

fn was(x: i64, y: i64) -> PreviousPosition {
    PreviousPosition { x: x * UNIT, y: y * UNIT }
}

fn still() -> Velocity {
    Velocity { x: 0, y: 0 }
}

fn wall(world: &mut World, x: i64, y: i64) -> Entity {
    world.spawn((at(x, y), SIZE))
}

fn mover(world: &mut World, now: (i64, i64), before: (i64, i64)) -> Entity {
    world.spawn((at(now.0, now.1), was(before.0, before.1), still(), SIZE))
}

fn position(world: &World, entity: Entity) -> Position {
    *world.get::<&Position>(entity).unwrap()
}

fn previous(world: &World, entity: Entity) -> PreviousPosition {
    *world.get::<&PreviousPosition>(entity).unwrap()
}

fn overlap(world: &World, a: Entity, b: Entity) -> bool {
    let first = Rect::centered(position(world, a), *world.get::<&Collider>(a).unwrap());
    let second = Rect::centered(position(world, b), *world.get::<&Collider>(b).unwrap());
    first.overlaps(second)
}

#[test]
fn player_moving_right_is_pushed_back_to_the_wall() {
    let mut world = World::new();
    let player = world.spawn((at(400, 300), was(400, 300), Velocity { x: 1000, y: 0 }, SIZE));
    let obstacle = wall(&mut world, 464, 300);
    movement(&mut world, 100);
    assert_eq!(position(&world, player), at(410, 300));
    assert!(can_collide(&mut world));
    collision(&mut world);
    let wall_left = 464 * UNIT - 32 * UNIT;
    assert_eq!(position(&world, player).x, wall_left - 32 * UNIT - EPSILON);
    assert_eq!(position(&world, player).y, 300 * UNIT);
    assert_eq!(position(&world, player), Position { x: 3_999_999, y: 3_000_000 });
    assert_eq!(position(&world, obstacle), at(464, 300));
}

#[test]
fn two_movers_split_their_vertical_overlap() {
    let mut world = World::new();
    let a = mover(&mut world, (100, 100), (100, 100));
    let b = mover(&mut world, (154, 124), (154, 120));
    assert!(can_collide(&mut world));
    collision(&mut world);
    assert_eq!(position(&world, a), at(100, 80));
    assert_eq!(position(&world, b), at(154, 144));
    assert!(!overlap(&world, a, b));
}

#[test]
fn two_movers_split_their_horizontal_overlap() {
    let mut world = World::new();
    let a = mover(&mut world, (100, 100), (20, 100));
    let b = mover(&mut world, (150, 110), (230, 110));
    collision(&mut world);
    assert_eq!(position(&world, a), at(93, 100));
    assert_eq!(position(&world, b), at(157, 110));
    assert!(!overlap(&world, a, b));
}

#[test]
fn the_mover_that_was_lower_moves_down() {
    let mut world = World::new();
    let a = mover(&mut world, (100, 124), (100, 120));
    let b = mover(&mut world, (154, 100), (154, 100));
    collision(&mut world);
    assert_eq!(position(&world, a), at(100, 144));
    assert_eq!(position(&world, b), at(154, 80));
}

#[test]
fn movers_that_remember_the_same_height_part_with_the_first_going_down() {
    let mut world = World::new();
    let a = mover(&mut world, (100, 100), (100, 100));
    let b = mover(&mut world, (100, 110), (100, 100));
    collision(&mut world);
    assert_eq!(position(&world, a), at(100, 127));
    assert_eq!(position(&world, b), at(100, 83));
}

#[test]
fn an_odd_overlap_is_split_into_its_lower_and_upper_half() {
    let mut world = World::new();
    let size = Collider { w: 10, h: 10 };
    let a = world.spawn((
        Position { x: 0, y: 0 },
        PreviousPosition { x: 0, y: 0 },
        still(),
        size,
    ));
    let b = world.spawn((
        Position { x: 0, y: 3 },
        PreviousPosition { x: 0, y: 3 },
        still(),
        size,
    ));
    collision(&mut world);
    assert_eq!(position(&world, a), Position { x: 0, y: -3 });
    assert_eq!(position(&world, b), Position { x: 0, y: 7 });
    assert!(!overlap(&world, a, b));
}

#[test]
fn a_second_pass_leaves_a_separated_pair_alone() {
    let mut world = World::new();
    let player = mover(&mut world, (410, 300), (400, 300));
    let obstacle = wall(&mut world, 464, 300);
    assert!(overlap(&world, player, obstacle));
    collision(&mut world);
    let once = position(&world, player);
    assert!(!overlap(&world, player, obstacle));
    collision(&mut world);
    assert_eq!(position(&world, player), once);
    assert_eq!(position(&world, obstacle), at(464, 300));
    assert!(!overlap(&world, player, obstacle));
}

#[test]
fn entities_without_velocity_never_move() {
    let mut world = World::new();
    let first = wall(&mut world, 100, 100);
    let second = wall(&mut world, 110, 110);
    let player = mover(&mut world, (105, 105), (0, 105));
    let bystander = world.spawn((at(105, 105),));
    collision(&mut world);
    assert_eq!(position(&world, first), at(100, 100));
    assert_eq!(position(&world, second), at(110, 110));
    assert_eq!(position(&world, bystander), at(105, 105));
    assert!(position(&world, player) != at(105, 105));
}

#[test]
fn a_pass_does_not_touch_what_a_mover_remembers() {
    let mut world = World::new();
    let player = mover(&mut world, (410, 300), (400, 300));
    wall(&mut world, 464, 300);
    collision(&mut world);
    assert_eq!(previous(&world, player), was(400, 300));
}

#[test]
fn a_mover_that_came_from_above_lands_on_top() {
    let mut world = World::new();
    let player = mover(&mut world, (100, 50), (100, 30));
    wall(&mut world, 110, 100);
    collision(&mut world);
    assert_eq!(
        position(&world, player),
        Position { x: 100 * UNIT, y: 68 * UNIT - EPSILON - 32 * UNIT }
    );
}

#[test]
fn a_mover_that_came_from_below_is_put_underneath() {
    let mut world = World::new();
    let player = mover(&mut world, (100, 150), (100, 170));
    wall(&mut world, 110, 100);
    collision(&mut world);
    assert_eq!(
        position(&world, player),
        Position { x: 100 * UNIT, y: 132 * UNIT + EPSILON + 32 * UNIT }
    );
}

#[test]
fn a_mover_that_came_from_the_right_is_put_to_the_right() {
    let mut world = World::new();
    let player = mover(&mut world, (160, 100), (170, 100));
    wall(&mut world, 100, 100);
    collision(&mut world);
    assert_eq!(
        position(&world, player),
        Position { x: 132 * UNIT + EPSILON + 32 * UNIT, y: 100 * UNIT }
    );
}

#[test]
fn the_axis_against_a_wall_turns_at_one_entity_size() {
    let mut world = World::new();
    let inside = world.spawn((
        Position { x: 50 * UNIT, y: 50 * UNIT },
        PreviousPosition { x: 64 * UNIT - 1, y: 0 },
        still(),
        SIZE,
    ));
    world.spawn((Position { x: 0, y: 0 }, SIZE));
    collision(&mut world);
    assert_eq!(position(&world, inside), Position { x: 50 * UNIT, y: 64 * UNIT + EPSILON });

    let mut world = World::new();
    let outside = world.spawn((
        Position { x: 50 * UNIT, y: 50 * UNIT },
        PreviousPosition { x: 64 * UNIT, y: 0 },
        still(),
        SIZE,
    ));
    world.spawn((Position { x: 0, y: 0 }, SIZE));
    collision(&mut world);
    assert_eq!(position(&world, outside), Position { x: 64 * UNIT + EPSILON, y: 50 * UNIT });
}

#[test]
fn the_axis_between_movers_uses_the_rounded_distance() {
    let mut world = World::new();
    let a = world.spawn((
        Position { x: 0, y: 0 },
        PreviousPosition { x: 0, y: 0 },
        still(),
        SIZE,
    ));
    let b = world.spawn((
        Position { x: 10 * UNIT, y: 10 * UNIT },
        PreviousPosition { x: 64 * UNIT - UNIT / 2 - 1, y: 10 * UNIT },
        still(),
        SIZE,
    ));
    collision(&mut world);
    assert_eq!(position(&world, a), Position { x: 0, y: -27 * UNIT });
    assert_eq!(position(&world, b), Position { x: 10 * UNIT, y: 37 * UNIT });

    let mut world = World::new();
    let a = world.spawn((
        Position { x: 0, y: 0 },
        PreviousPosition { x: 0, y: 0 },
        still(),
        SIZE,
    ));
    let b = world.spawn((
        Position { x: 10 * UNIT, y: 10 * UNIT },
        PreviousPosition { x: 64 * UNIT - UNIT / 2, y: 10 * UNIT },
        still(),
        SIZE,
    ));
    collision(&mut world);
    assert_eq!(position(&world, a), Position { x: -27 * UNIT, y: 0 });
    assert_eq!(position(&world, b), Position { x: 37 * UNIT, y: 10 * UNIT });
}

#[test]
fn touching_boxes_do_not_collide() {
    let mut world = World::new();
    let player = mover(&mut world, (400, 300), (390, 300));
    wall(&mut world, 464, 300);
    collision(&mut world);
    assert_eq!(position(&world, player), at(400, 300));
}

#[test]
fn a_column_of_walls_stops_a_mover_once() {
    let mut world = World::new();
    let player = mover(&mut world, (410, 332), (400, 332));
    wall(&mut world, 464, 300);
    wall(&mut world, 464, 364);
    collision(&mut world);
    assert_eq!(position(&world, player), Position { x: 400 * UNIT - EPSILON, y: 332 * UNIT });
}

#[test]
fn every_wall_is_tested_against_the_box_at_the_start_of_the_turn() {
    let mut world = World::new();
    let player = mover(&mut world, (100, 100), (100, 0));
    wall(&mut world, 100, 150);
    wall(&mut world, 100, 160);
    collision(&mut world);
    // Once it stands on the first wall the entity no longer reaches the
    // second, which still lifts it: the test uses the box the turn began with.
    assert_eq!(
        position(&world, player),
        Position { x: 100 * UNIT, y: 128 * UNIT - EPSILON - 32 * UNIT }
    );
}

#[test]
fn each_pair_of_movers_is_visited_once() {
    let mut world = World::new();
    let a = mover(&mut world, (0, 0), (0, 0));
    let b = mover(&mut world, (0, 60), (0, 60));
    let c = mover(&mut world, (0, 120), (0, 120));
    collision(&mut world);
    // a and b overlap by 4 and part by 2 each; b's turn still uses the box it
    // had when the turn began, 2 lower than where it was at first.
    assert_eq!(position(&world, a), at(0, -2));
    assert_eq!(position(&world, b), at(0, 59));
    assert_eq!(position(&world, c), at(0, 123));
}

#[test]
fn a_mover_without_a_position_makes_the_world_unfit() {
    let mut world = World::new();
    world.spawn((was(0, 0), still(), SIZE));
    assert!(!can_collide(&mut world));
}

#[test]
fn a_degenerate_collider_makes_the_world_unfit() {
    let mut world = World::new();
    world.spawn((at(0, 0), Collider { w: 0, h: 10 }));
    assert!(!can_collide(&mut world));
    let mut world = World::new();
    world.spawn((at(0, 0), was(0, 0), still(), Collider { w: 10, h: -1 }));
    assert!(!can_collide(&mut world));
}

#[test]
fn a_world_at_the_edge_of_the_plane_is_unfit() {
    let mut world = World::new();
    world.spawn((Position { x: COORD_LIMIT, y: 0 }, SIZE));
    assert!(!can_collide(&mut world));
    let mut world = World::new();
    world.spawn((Position { x: COORD_LIMIT / 2, y: 0 }, SIZE));
    assert!(can_collide(&mut world));
}

#[test]
fn an_empty_world_is_fit_and_stays_empty() {
    let mut world = World::new();
    assert!(can_collide(&mut world));
    collision(&mut world);
    assert_eq!(world.len(), 0);
}
