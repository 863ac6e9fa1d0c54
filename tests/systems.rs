use game_ecs::components::{
    Collision, CollisionType, GameComponent, InputHandler, InputState, Position, Size, Velocity,
};
use game_ecs::input::{blend, Command, Control, Controls, InputSystem, Movement};
use game_ecs::physics::{add_clamped, resolve, sub_clamped, Body, Physics, Rect};
use game_ecs::slot::GenerationalIndex;
use game_ecs::state::{PlayerState, State};
use game_ecs::world::World;

fn spawn(world: &mut World<GameComponent>, parts: &[(usize, GameComponent)]) -> GenerationalIndex {
    let mut b = world.create_entity();
    for (ty, value) in parts {
        b.with(*ty, *value).unwrap();
    }
    let e = b.entity;
    b.build();
    e
}

struct Setup {
    world: World<GameComponent>,
    physics: Physics,
    input: usize,
}

fn setup() -> Setup {
    let mut world = World::new();
    let position = world.register();
    let velocity = world.register();
    let size = world.register();
    let collision = world.register();
    let input = world.register();
    Setup { world, physics: Physics { position, velocity, size, collision }, input }
}

#[test]
fn rect_intersection() {
    let a = Rect { x: 0, y: 0, w: 10, h: 10 };
    let b = Rect { x: 5, y: 6, w: 10, h: 10 };
    assert_eq!(a.intersection(&b), Some(Rect { x: 5, y: 6, w: 5, h: 4 }));
    assert_eq!(b.intersection(&a), Some(Rect { x: 5, y: 6, w: 5, h: 4 }));
    let c = Rect { x: 10, y: 0, w: 5, h: 5 };
    assert_eq!(a.intersection(&c), None);
    let empty = Rect { x: 1, y: 1, w: 0, h: 3 };
    assert_eq!(a.intersection(&empty), None);
}

#[test]
fn rectangles_are_clamped_into_range() {
    assert_eq!(Rect::new(1, 2, 0, 5), Rect { x: 1, y: 2, w: 1, h: 5 });
    assert_eq!(Rect::new(i32::MAX, i32::MIN, -3, 7), Rect { x: 1_073_741_823, y: -1_073_741_824, w: 1_073_741_823, h: 7 });
}

#[test]
fn clamped_arithmetic() {
    assert_eq!(add_clamped(i32::MAX, 1), i32::MAX);
    assert_eq!(add_clamped(-3, 5), 2);
    assert_eq!(sub_clamped(i32::MIN, 1), i32::MIN);
    assert_eq!(sub_clamped(3, 5), -2);
}

#[test]
fn motion_moves_then_applies_gravity() {
    let mut s = setup();
    let p = s.physics.position;
    let v = s.physics.velocity;
    let e = spawn(
        &mut s.world,
        &[
            (p, GameComponent::Position(Position(10, 10))),
            (v, GameComponent::Velocity(Velocity(2, 25))),
        ],
    );
    assert!(s.physics.move_entity(&mut s.world, e));
    assert_eq!(s.world.get(p, e), Some(&GameComponent::Position(Position(12, 35))));
    assert_eq!(s.world.get(v, e), Some(&GameComponent::Velocity(Velocity(2, 21))));
    let lone = spawn(&mut s.world, &[(p, GameComponent::Position(Position(0, 0)))]);
    assert!(!s.physics.move_entity(&mut s.world, lone));
}

#[test]
fn physics_pass_pushes_bodies_out_of_later_ones() {
    let mut s = setup();
    let ph = &s.physics;
    let (p, v, sz, c) = (ph.position, ph.velocity, ph.size, ph.collision);
    let body = spawn(
        &mut s.world,
        &[
            (p, GameComponent::Position(Position(0, 10))),
            (v, GameComponent::Velocity(Velocity(0, 0))),
            (sz, GameComponent::Size(Size(10, 10))),
            (c, GameComponent::Collision(Collision(None))),
        ],
    );
    let floor = spawn(
        &mut s.world,
        &[
            (p, GameComponent::Position(Position(0, 15))),
            (sz, GameComponent::Size(Size(100, 10))),
            (c, GameComponent::Collision(Collision(Some(CollisionType::Static)))),
        ],
    );
    let mut physics = Physics { position: p, velocity: v, size: sz, collision: c };
    s.world.run_system(&mut physics, &vec![p, v]).unwrap();
    // moved to y = 10, overlapping the floor from 15 to 20: pushed up by 5
    assert_eq!(s.world.get(p, body), Some(&GameComponent::Position(Position(0, 5))));
    assert_eq!(s.world.get(v, body), Some(&GameComponent::Velocity(Velocity(0, 0))));
    assert_eq!(s.world.get(p, floor), Some(&GameComponent::Position(Position(0, 15))));
}

#[test]
fn settle_without_velocity_keeps_it_absent() {
    let mut s = setup();
    let p = s.physics.position;
    let v = s.physics.velocity;
    let e = spawn(&mut s.world, &[(p, GameComponent::Position(Position(4, 4)))]);
    assert!(s.physics.settle(&mut s.world, e, 1));
    assert_eq!(s.world.get(p, e), Some(&GameComponent::Position(Position(4, 1))));
    assert_eq!(s.world.get(v, e), None);
}

fn body(index: usize, x: i32, y: i32, w: i32, h: i32, fixed: bool) -> Body {
    Body {
        entity: GenerationalIndex { index, generation: 0 },
        rect: Rect { x, y, w, h },
        fixed,
        landed: false,
    }
}

#[test]
fn later_bodies_push_earlier_movable_ones_up() {
    let mut bodies = vec![
        body(0, 0, 10, 10, 10, false),
        body(1, 5, 12, 10, 10, false),
        body(2, 0, 15, 100, 10, true),
    ];
    resolve(&mut bodies);
    // body 1 pushes body 0 up by 8 (to y = 2); then the floor pushes body 1
    // up by 7 (to y = 5); body 0 no longer reaches the floor.
    assert_eq!(bodies[0].rect.y, 2);
    assert!(bodies[0].landed);
    assert_eq!(bodies[1].rect.y, 5);
    assert!(bodies[1].landed);
    assert_eq!(bodies[2].rect.y, 15);
    assert!(!bodies[2].landed);
}

#[test]
fn fixed_bodies_are_never_moved() {
    let mut bodies = vec![body(0, 0, 0, 10, 10, true), body(1, 0, 0, 10, 10, false)];
    resolve(&mut bodies);
    assert_eq!(bodies[0].rect.y, 0);
    assert!(!bodies[0].landed);
    assert_eq!(bodies[1].rect.y, 0);
}

#[test]
fn blend_truncates_toward_zero() {
    assert_eq!(blend(5, 0), 2);
    assert_eq!(blend(-5, 0), -2);
    assert_eq!(blend(-5, -4), -4);
    assert_eq!(blend(5, 4), 4);
}

#[test]
fn controls_steer_entities() {
    let mut s = setup();
    let v = s.physics.velocity;
    let inp = s.input;
    let e = spawn(
        &mut s.world,
        &[
            (inp, GameComponent::Input(InputHandler(None))),
            (v, GameComponent::Velocity(Velocity(-4, 3))),
        ],
    );
    let mut sys = InputSystem::new(inp, v);
    sys.command(Command::Press(Movement::RIGHT));
    sys.command(Command::Press(Movement::UP));
    assert!(sys.controls.right && sys.controls.up);
    s.world.run_system(&mut sys, &vec![inp, v]).unwrap();
    assert_eq!(s.world.get(v, e), Some(&GameComponent::Velocity(Velocity(0, -10))));
    assert_eq!(
        s.world.get(inp, e),
        Some(&GameComponent::Input(InputHandler(Some(InputState::Running))))
    );
    sys.command(Command::Release(Movement::RIGHT));
    sys.command(Command::Release(Movement::UP));
    assert!(sys.steer_entity(&mut s.world, e));
    assert_eq!(s.world.get(v, e), Some(&GameComponent::Velocity(Velocity(0, 10))));
    assert_eq!(
        s.world.get(inp, e),
        Some(&GameComponent::Input(InputHandler(Some(InputState::Idle))))
    );
    sys.command(Command::Quit);
    assert!(!sys.running);
}

#[test]
fn right_wins_over_left() {
    let mut c = Controls::new();
    c.set(Control::Left, true);
    assert_eq!(c.steer(), (-5, 10, InputState::Running));
    c.set(Control::Right, true);
    assert_eq!(c.steer(), (5, 10, InputState::Running));
    c.set(Control::Right, false);
    c.set(Control::Left, false);
    c.set(Control::Down, true);
    assert_eq!(c.steer(), (0, 10, InputState::Idle));
}

#[test]
fn player_falls_and_lands() {
    let mut pl = PlayerState::new();
    assert_eq!(pl.state, State::Idle);
    assert_eq!((pl.position, pl.velocity), ((100, 100), (0, 0)));
    pl.velocity = (50, 95);
    pl.update();
    // run speed capped at 20, damped to 19
    assert_eq!(pl.position, (119, 195));
    assert_eq!(pl.velocity, (19, 105));
    pl.update();
    assert_eq!(pl.position, (137, 200));
    assert_eq!(pl.velocity, (18, 0));
    pl.velocity = (-10, 0);
    pl.update();
    assert_eq!(pl.velocity.0, -9);
}

#[test]
fn player_commands() {
    let mut pl = PlayerState::new();
    assert!(pl.apply(Command::Press(Movement::LEFT)));
    assert_eq!(pl.velocity, (-5, 0));
    assert!(pl.apply(Command::Press(Movement::RIGHT)));
    assert_eq!(pl.velocity, (10, 0));
    assert!(pl.apply(Command::Press(Movement::UP)));
    assert_eq!(pl.velocity, (10, -40));
    assert!(pl.apply(Command::Release(Movement::LEFT)));
    assert_eq!(pl.velocity, (-5, -40));
    assert!(pl.apply(Command::Press(Movement::DOWN)));
    assert_eq!(pl.velocity, (-5, -40));
    assert!(!pl.apply(Command::Quit));
}
