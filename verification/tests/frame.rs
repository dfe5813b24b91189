use collisions::collision::{collision, has_room};
use collisions::components::{
    Collider, Player, Position, PreviousPosition, Velocity, COORD_LIMIT, ENTITY_SIZE, EPSILON,
    UNIT,
};
use collisions::frame::{can_settle, settle, step, try_step, ITERATIONS};
use hecs::{Entity, World};

const SIZE: Collider = Collider { w: ENTITY_SIZE, h: ENTITY_SIZE };

fn row_of_movers(world: &mut World) -> Vec<Entity> {
    let mut row = Vec::new();
    for i in 0..4i64 {
        row.push(world.spawn((
            Position { x: i * 50 * UNIT, y: 0 },
            PreviousPosition { x: i * 100 * UNIT, y: 0 },
            Velocity { x: 0, y: 0 },
            SIZE,
        )));
    }
    row
}

fn places(world: &World, entities: &[Entity]) -> Vec<Position> {
    entities.iter().map(|e| *world.get::<&Position>(*e).unwrap()).collect()
}

#[test]
fn the_stage_runs_eight_times_a_tick() {
    assert_eq!(ITERATIONS, 8);
}

#[test]
fn settling_is_eight_passes() {
    let mut settled = World::new();
    let row = row_of_movers(&mut settled);
    assert!(can_settle(&mut settled));
    settle(&mut settled);

    let mut passed = World::new();
    let same_row = row_of_movers(&mut passed);
    for _ in 0..8 {
        collision(&mut passed);
    }
    assert_eq!(places(&settled, &row), places(&passed, &same_row));

    let mut once = World::new();
    let again = row_of_movers(&mut once);
    collision(&mut once);
    assert!(places(&settled, &row) != places(&once, &again));
}

#[test]
fn a_tick_moves_then_separates() {
    let mut world = World::new();
    let player = world.spawn((
        Position { x: 400 * UNIT, y: 300 * UNIT },
        PreviousPosition { x: 400 * UNIT, y: 300 * UNIT },
        Velocity { x: 1000, y: 0 },
        SIZE,
        Player,
    ));
    world.spawn((Position { x: 464 * UNIT, y: 300 * UNIT }, SIZE));
    step(&mut world, 100, None);
    assert_eq!(
        *world.get::<&Position>(player).unwrap(),
        Position { x: 400 * UNIT - EPSILON, y: 300 * UNIT }
    );
    assert_eq!(
        *world.get::<&PreviousPosition>(player).unwrap(),
        PreviousPosition { x: 400 * UNIT, y: 300 * UNIT }
    );
}

#[test]
fn a_click_during_a_tick_overrides_the_move() {
    let mut world = World::new();
    let player = world.spawn((
        Position { x: 0, y: 0 },
        PreviousPosition { x: 0, y: 0 },
        Velocity { x: 5, y: 5 },
        SIZE,
        Player,
    ));
    assert!(try_step(&mut world, 10, Some(Position { x: 1000 * UNIT, y: 2000 * UNIT })));
    assert_eq!(
        *world.get::<&Position>(player).unwrap(),
        Position { x: 1000 * UNIT, y: 2000 * UNIT }
    );
    assert_eq!(*world.get::<&PreviousPosition>(player).unwrap(), PreviousPosition { x: 50, y: 50 });
}

#[test]
fn a_tick_that_cannot_move_changes_nothing() {
    let mut world = World::new();
    let e = world.spawn((
        Position { x: i64::MAX, y: 0 },
        PreviousPosition { x: 7, y: 7 },
        Velocity { x: 1, y: 0 },
    ));
    assert!(!try_step(&mut world, 1, None));
    assert_eq!(*world.get::<&Position>(e).unwrap(), Position { x: i64::MAX, y: 0 });
    assert_eq!(*world.get::<&PreviousPosition>(e).unwrap(), PreviousPosition { x: 7, y: 7 });
}

#[test]
fn a_tick_that_leaves_no_room_stops_after_moving() {
    let mut world = World::new();
    let e = world.spawn((
        Position { x: 0, y: 0 },
        PreviousPosition { x: 0, y: 0 },
        Velocity { x: COORD_LIMIT, y: 0 },
        SIZE,
    ));
    assert!(!try_step(&mut world, 1, None));
    assert_eq!(*world.get::<&Position>(e).unwrap(), Position { x: COORD_LIMIT, y: 0 });
    assert!(!can_settle(&mut world));
}

#[test]
fn repeated_passes_spread_a_crowd() {
    let mut world = World::new();
    let row = row_of_movers(&mut world);
    settle(&mut world);
    let after = places(&world, &row);
    for pair in after.windows(2) {
        assert!(pair[1].x - pair[0].x >= 50 * UNIT);
    }
    assert!(after[3].x - after[0].x > 150 * UNIT);
}

#[test]
fn room_shrinks_with_the_number_of_passes() {
    let limit: i64 = 1 << 30;
    let mut world = World::new();
    world.spawn((
        Position { x: COORD_LIMIT - 30 * limit, y: 0 },
        PreviousPosition { x: 0, y: 0 },
        Velocity { x: 0, y: 0 },
        SIZE,
    ));
    assert!(has_room(&mut world, 0));
    assert!(has_room(&mut world, 1));
    assert!(has_room(&mut world, 8));
    assert!(has_room(&mut world, 10));
    assert!(!has_room(&mut world, 11));
    assert!(!has_room(&mut world, u32::MAX));
    let mut empty = World::new();
    assert!(has_room(&mut empty, u32::MAX));
}

#[test]
fn room_is_counted_in_collider_limits() {
    let limit: i64 = 1 << 30;
    let mut world = World::new();
    // One dynamic entity: a pass may move it by three times the largest
    // collider extent.
    world.spawn((
        Position { x: COORD_LIMIT - 6 * limit, y: 0 },
        PreviousPosition { x: 0, y: 0 },
        Velocity { x: 0, y: 0 },
        SIZE,
    ));
    assert!(has_room(&mut world, 2));
    assert!(!has_room(&mut world, 3));
}
