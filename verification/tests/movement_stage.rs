use collisions::components::{Collider, Player, Position, PreviousPosition, Velocity};
use collisions::movement::{can_move, movement};
use collisions::pointer::mouse_movement;
use hecs::World;

#[test]
fn a_movable_entity_advances_by_velocity_times_time() {
    let mut world = World::new();
    let e = world.spawn((
        Position { x: 10, y: -20 },
        PreviousPosition { x: 1, y: 2 },
        Velocity { x: 3, y: -7 },
    ));
    assert!(can_move(&mut world, 16));
    movement(&mut world, 16);
    assert_eq!(*world.get::<&Position>(e).unwrap(), Position { x: 58, y: -132 });
    assert_eq!(*world.get::<&PreviousPosition>(e).unwrap(), PreviousPosition { x: 10, y: -20 });
    assert_eq!(*world.get::<&Velocity>(e).unwrap(), Velocity { x: 3, y: -7 });
}

#[test]
fn no_time_means_no_travel_but_the_place_is_remembered() {
    let mut world = World::new();
    let e = world.spawn((
        Position { x: 10, y: 20 },
        PreviousPosition { x: 1, y: 2 },
        Velocity { x: 3, y: 4 },
    ));
    movement(&mut world, 0);
    assert_eq!(*world.get::<&Position>(e).unwrap(), Position { x: 10, y: 20 });
    assert_eq!(*world.get::<&PreviousPosition>(e).unwrap(), PreviousPosition { x: 10, y: 20 });
}

#[test]
fn entities_that_lack_a_component_do_not_move() {
    let mut world = World::new();
    let wall = world.spawn((Position { x: 1, y: 2 }, Collider { w: 4, h: 4 }));
    let forgetful = world.spawn((Position { x: 5, y: 6 }, Velocity { x: 1, y: 1 }));
    let remembering = world.spawn((Position { x: 7, y: 8 }, PreviousPosition { x: 0, y: 0 }));
    movement(&mut world, 10);
    assert_eq!(*world.get::<&Position>(wall).unwrap(), Position { x: 1, y: 2 });
    assert_eq!(*world.get::<&Position>(forgetful).unwrap(), Position { x: 5, y: 6 });
    assert_eq!(*world.get::<&Position>(remembering).unwrap(), Position { x: 7, y: 8 });
    assert_eq!(
        *world.get::<&PreviousPosition>(remembering).unwrap(),
        PreviousPosition { x: 0, y: 0 }
    );
}

#[test]
fn every_movable_entity_moves_once() {
    let mut world = World::new();
    let mut entities = Vec::new();
    for i in 0..5i64 {
        entities.push(world.spawn((
            Position { x: i, y: 0 },
            PreviousPosition { x: 0, y: 0 },
            Velocity { x: 1, y: i },
        )));
    }
    let marked = world.spawn((
        Position { x: 100, y: 0 },
        PreviousPosition { x: 0, y: 0 },
        Velocity { x: -1, y: 0 },
        Player,
    ));
    movement(&mut world, 2);
    for (i, e) in entities.iter().enumerate() {
        let i = i as i64;
        assert_eq!(*world.get::<&Position>(*e).unwrap(), Position { x: i + 2, y: 2 * i });
        assert_eq!(*world.get::<&PreviousPosition>(*e).unwrap(), PreviousPosition { x: i, y: 0 });
    }
    assert_eq!(*world.get::<&Position>(marked).unwrap(), Position { x: 98, y: 0 });
}

#[test]
fn a_destination_beyond_the_machine_range_is_refused() {
    let mut world = World::new();
    let e = world.spawn((
        Position { x: i64::MAX - 5, y: 0 },
        PreviousPosition { x: 0, y: 0 },
        Velocity { x: 2, y: 0 },
    ));
    assert!(can_move(&mut world, 2));
    assert!(!can_move(&mut world, 3));
    assert_eq!(*world.get::<&Position>(e).unwrap(), Position { x: i64::MAX - 5, y: 0 });
    let mut world = World::new();
    world.spawn((
        Position { x: 0, y: 0 },
        PreviousPosition { x: 0, y: 0 },
        Velocity { x: 0, y: i64::MIN },
    ));
    assert!(can_move(&mut world, 1));
    assert!(!can_move(&mut world, 2));
    assert!(!can_move(&mut world, u32::MAX));
}

#[test]
fn a_click_makes_players_jump_and_remember() {
    let mut world = World::new();
    let player = world.spawn((Position { x: 1, y: 2 }, PreviousPosition { x: 0, y: 0 }, Player));
    let other = world.spawn((Position { x: 3, y: 4 }, PreviousPosition { x: 0, y: 0 }));
    let rootless = world.spawn((Position { x: 5, y: 6 }, Player));
    mouse_movement(&mut world, Position { x: 50, y: 60 }, true);
    assert_eq!(*world.get::<&Position>(player).unwrap(), Position { x: 50, y: 60 });
    assert_eq!(*world.get::<&PreviousPosition>(player).unwrap(), PreviousPosition { x: 1, y: 2 });
    assert_eq!(*world.get::<&Position>(other).unwrap(), Position { x: 3, y: 4 });
    assert_eq!(*world.get::<&PreviousPosition>(other).unwrap(), PreviousPosition { x: 0, y: 0 });
    assert_eq!(*world.get::<&Position>(rootless).unwrap(), Position { x: 5, y: 6 });
}

#[test]
fn without_a_click_nobody_jumps() {
    let mut world = World::new();
    let player = world.spawn((Position { x: 1, y: 2 }, PreviousPosition { x: 0, y: 0 }, Player));
    mouse_movement(&mut world, Position { x: 50, y: 60 }, false);
    assert_eq!(*world.get::<&Position>(player).unwrap(), Position { x: 1, y: 2 });
    assert_eq!(*world.get::<&PreviousPosition>(player).unwrap(), PreviousPosition { x: 0, y: 0 });
}
