//! Input decisions: logical controls and commands (decoded from raw events
//! outside the library) and how they steer velocities.

use vstd::prelude::*;
use crate::components::{GameComponent, InputHandler, InputState, Velocity};
use crate::slot::GenerationalIndex;
use crate::store::write_component;
use crate::world::{Entities, System, World, lemma_join_disjoint, lemma_read_written};

verus! {

/// A direction of player movement.
#[derive(Clone, Copy, Debug, PartialEq, Eq, Structural)]
pub enum Movement {
    UP,
    DOWN,
    LEFT,
    RIGHT,
}

/// A logical command decoded from one input event.
#[derive(Clone, Copy, Debug, PartialEq, Eq, Structural)]
pub enum Command {
    /// Leave the game.
    Quit,
    /// A movement key went down.
    Press(Movement),
    /// A movement key went up.
    Release(Movement),
}

/// A logical control a key can be bound to.
#[derive(Clone, Copy, Debug, PartialEq, Eq, Structural)]
pub enum Control {
    Left,
    Right,
    Up,
    Down,
}

/// Whether each control is held down.
#[derive(Clone, Copy, Debug, PartialEq, Eq, Structural)]
pub struct Controls {
    pub left: bool,
    pub right: bool,
    pub up: bool,
    pub down: bool,
}

/// Horizontal speed a held left or right key steers towards.
pub const RUN_SPEED: i32 = 5;

/// Vertical speed with the up key held (negative is upwards).
pub const JUMP_SPEED: i32 = -10;

/// Vertical speed with the up key released.
pub const FALL_SPEED: i32 = 10;

/// The horizontal target speed, vertical speed and animation signal the
/// held controls ask for; right wins over left.
pub open spec fn steering(c: Controls) -> (i32, i32, InputState) {
    let x: i32 = if c.right {
        RUN_SPEED
    } else if c.left {
        (-RUN_SPEED) as i32
    } else {
        0i32
    };
    let y = if c.up {
        JUMP_SPEED
    } else {
        FALL_SPEED
    };
    let s = if c.left || c.right {
        InputState::Running
    } else {
        InputState::Idle
    };
    (x, y, s)
}

/// The mean of `a` and `b`, truncated toward zero.
pub open spec fn half_sum(a: i32, b: i32) -> i32 {
    let s = a + b;
    if s >= 0 {
        (s / 2) as i32
    } else {
        (-((-s) / 2)) as i32
    }
}

impl Controls {
    /// Nothing held.
    pub fn new() -> (r: Self)
        ensures
            !r.left && !r.right && !r.up && !r.down,
    {
        Controls { left: false, right: false, up: false, down: false }
    }

    /// Records that `control` went down (`down`) or up.
    pub fn set(&mut self, control: Control, down: bool)
        ensures
            *final(self) == match control {
                Control::Left => Controls { left: down, ..*old(self) },
                Control::Right => Controls { right: down, ..*old(self) },
                Control::Up => Controls { up: down, ..*old(self) },
                Control::Down => Controls { down: down, ..*old(self) },
            },
    {
        match control {
            Control::Left => self.left = down,
            Control::Right => self.right = down,
            Control::Up => self.up = down,
            Control::Down => self.down = down,
        }
    }

    /// The target speeds and signal the held controls ask for.
    pub fn steer(&self) -> (r: (i32, i32, InputState))
        ensures
            r == steering(*self),
    {
        let x = if self.right {
            RUN_SPEED
        } else if self.left {
            -RUN_SPEED
        } else {
            0
        };
        let y = if self.up {
            JUMP_SPEED
        } else {
            FALL_SPEED
        };
        let s = if self.left || self.right {
            InputState::Running
        } else {
            InputState::Idle
        };
        (x, y, s)
    }
}

/// The mean of `a` and `b`, truncated toward zero: the horizontal speed
/// eases halfway to its target each tick.
pub fn blend(a: i32, b: i32) -> (r: i32)
    ensures
        r == half_sum(a, b),
{
    let s: i64 = a as i64 + b as i64;
    if s >= 0 {
        (s / 2) as i32
    } else {
        let m: i64 = -s;
        (-(m / 2)) as i32
    }
}

/// The input system: steers every entity holding an input handler and a
/// velocity from the held controls.
pub struct InputSystem {
    pub input: usize,
    pub velocity: usize,
    pub controls: Controls,
    pub running: bool,
}

impl InputSystem {
    /// A running input system over the given component ordinals with
    /// nothing held.
    pub fn new(input: usize, velocity: usize) -> (r: Self)
        ensures
            r.input == input,
            r.velocity == velocity,
            !r.controls.left && !r.controls.right && !r.controls.up && !r.controls.down,
            r.running,
    {
        InputSystem { input, velocity, controls: Controls::new(), running: true }
    }

    /// Applies one decoded command: quitting stops the game, movement keys
    /// update the held controls.
    pub fn command(&mut self, command: Command)
        ensures
            final(self).input == old(self).input,
            final(self).velocity == old(self).velocity,
            *final(self) == match command {
                Command::Quit => InputSystem { running: false, ..*old(self) },
                Command::Press(m) => InputSystem {
                    controls: set_control(old(self).controls, m, true),
                    ..*old(self)
                },
                Command::Release(m) => InputSystem {
                    controls: set_control(old(self).controls, m, false),
                    ..*old(self)
                },
            },
    {
        match command {
            Command::Quit => self.running = false,
            Command::Press(m) => self.controls.set(control_of(m), true),
            Command::Release(m) => self.controls.set(control_of(m), false),
        }
    }

    /// Steers `entity`: its horizontal speed eases halfway to the target,
    /// its vertical speed becomes the target, and its input handler records
    /// the signal. Entities without both components are left alone.
    pub fn steer_entity(&self, world: &mut World<GameComponent>, entity: GenerationalIndex) -> (r:
        bool)
        requires
            old(world).wf(),
            self.input != self.velocity,
        ensures
            final(world).wf(),
            old(world).same_entities(&*final(world)),
            match (old(world).read(self.input as int, entity), old(world).read(self.velocity as int, entity)) {
                (Some(GameComponent::Input(_)), Some(GameComponent::Velocity(v))) => {
                    let (tx, ty, s) = steering(self.controls);
                    &&& r
                    &&& final(world).arrays() == write_component(
                        write_component(
                            old(world).arrays(),
                            self.velocity as int,
                            entity,
                            GameComponent::Velocity(Velocity(half_sum(tx, v.0), ty)),
                        ),
                        self.input as int,
                        entity,
                        GameComponent::Input(InputHandler(Some(s))),
                    )
                },
                _ => !r && final(world).arrays() == old(world).arrays(),
            },
    {
        match world.get(self.input, entity) {
            Some(GameComponent::Input(_)) => {},
            _ => return false,
        }
        let v = match world.get(self.velocity, entity) {
            Some(GameComponent::Velocity(v)) => *v,
            _ => return false,
        };
        let (tx, ty, s) = self.controls.steer();
        let steered = Velocity(blend(tx, v.0), ty);
        let ghost w0 = *world;
        match world.get_mut(self.velocity, entity) {
            Some(slot) => {
                *slot = GameComponent::Velocity(steered);
            },
            None => {},
        }
        proof {
            lemma_read_written(&w0, &*world, self.velocity as int, entity, GameComponent::Velocity(steered));
        }
        match world.get_mut(self.input, entity) {
            Some(slot) => {
                *slot = GameComponent::Input(InputHandler(Some(s)));
            },
            None => {},
        }
        true
    }
}

/// The control a movement key is bound to.
pub open spec fn control_spec(m: Movement) -> Control {
    match m {
        Movement::UP => Control::Up,
        Movement::DOWN => Control::Down,
        Movement::LEFT => Control::Left,
        Movement::RIGHT => Control::Right,
    }
}

/// `c` with the control of `m` held (`down`) or released.
pub open spec fn set_control(c: Controls, m: Movement, down: bool) -> Controls {
    match m {
        Movement::LEFT => Controls { left: down, ..c },
        Movement::RIGHT => Controls { right: down, ..c },
        Movement::UP => Controls { up: down, ..c },
        Movement::DOWN => Controls { down: down, ..c },
    }
}

/// The control a movement key is bound to.
pub fn control_of(m: Movement) -> (r: Control)
    ensures
        r == control_spec(m),
{
    match m {
        Movement::UP => Control::Up,
        Movement::DOWN => Control::Down,
        Movement::LEFT => Control::Left,
        Movement::RIGHT => Control::Right,
    }
}

/// What a pass of `sys` makes a read of type `t` through an entity `q`
/// it was handed yield: an entity holding an input handler and a velocity
/// is steered, anything else reads as before.
pub open spec fn steered_read(sys: &InputSystem, pre: World<GameComponent>, t: int, q: GenerationalIndex) -> Option<
    GameComponent,
> {
    let (tx, ty, s) = steering(sys.controls);
    match (pre.read(sys.input as int, q), pre.read(sys.velocity as int, q)) {
        (Some(GameComponent::Input(_)), Some(GameComponent::Velocity(v))) => if t == sys.velocity {
            Some(GameComponent::Velocity(Velocity(half_sum(tx, v.0), ty)))
        } else if t == sys.input {
            Some(GameComponent::Input(InputHandler(Some(s))))
        } else {
            pre.read(t, q)
        },
        _ => pre.read(t, q),
    }
}

impl System<GameComponent> for InputSystem {
    /// Every entity handed in is steered; nothing else changes.
    open spec fn updated(
        &self,
        post: &Self,
        entities: Seq<GenerationalIndex>,
        pre: World<GameComponent>,
        post_world: World<GameComponent>,
    ) -> bool {
        &&& *post == *self
        &&& forall|t: int, q: GenerationalIndex| #[trigger]
            post_world.read(t, q) == if entities.contains(q) {
                steered_read(self, pre, t, q)
            } else {
                pre.read(t, q)
            }
    }

    /// Steers every entity handed in.
    fn update(&mut self, entities: &Entities, world: &mut World<GameComponent>) {
        if self.input == self.velocity {
            return;
        }
        let ghost w0 = *world;
        let ghost es = entities.entities@;
        let mut k: usize = 0;
        while k < entities.entities.len()
            invariant
                world.wf(),
                self.input != self.velocity,
                es == entities.entities@,
                es.no_duplicates(),
                k <= es.len(),
                w0.same_entities(&*world),
                forall|t: int, q: GenerationalIndex| #[trigger]
                    world.read(t, q) == if es.subrange(0, k as int).contains(q) {
                        steered_read(self, w0, t, q)
                    } else {
                        w0.read(t, q)
                    },
            decreases es.len() - k,
        {
            let e = entities.entities[k];
            let ghost w1 = *world;
            proof {
                assert(!es.subrange(0, k as int).contains(e)) by {
                    if es.subrange(0, k as int).contains(e) {
                        let i = choose|i: int| 0 <= i < k && es.subrange(0, k as int)[i] == e;
                        assert(es[i] == es[k as int]);
                    }
                }
                assert(es.subrange(0, k as int + 1) =~= es.subrange(0, k as int).push(e));
                assert(w1.read(self.input as int, e) == w0.read(self.input as int, e));
                assert(w1.read(self.velocity as int, e) == w0.read(self.velocity as int, e));
            }
            let steered = self.steer_entity(world, e);
            proof {
                if steered {
                    let (tx, ty, s) = steering(self.controls);
                    let v = match w1.read(self.velocity as int, e) {
                        Some(GameComponent::Velocity(v)) => v,
                        _ => arbitrary(),
                    };
                    lemma_join_disjoint(
                        &w1,
                        &*world,
                        self.velocity as int,
                        self.input as int,
                        e,
                        GameComponent::Velocity(Velocity(half_sum(tx, v.0), ty)),
                        GameComponent::Input(InputHandler(Some(s))),
                    );
                }
                assert forall|t: int, q: GenerationalIndex| #[trigger]
                    world.read(t, q) == if es.subrange(0, k as int + 1).contains(q) {
                        steered_read(self, w0, t, q)
                    } else {
                        w0.read(t, q)
                    } by {
                    if q == e {
                        assert(es.subrange(0, k as int + 1).contains(q)) by {
                            assert(es.subrange(0, k as int + 1)[k as int] == e);
                        }
                        assert(w1.read(t, q) == w0.read(t, q));
                    } else {
                        let sub = es.subrange(0, k as int);
                        let sub1 = es.subrange(0, k as int + 1);
                        assert(sub1.contains(q) == sub.contains(q)) by {
                            if sub1.contains(q) {
                                let i = choose|i: int| 0 <= i < sub1.len() && #[trigger] sub1[i] == q;
                                assert(sub[i] == q);
                            }
                            if sub.contains(q) {
                                let i = choose|i: int| 0 <= i < sub.len() && #[trigger] sub[i] == q;
                                assert(sub1[i] == q);
                            }
                        }
                    }
                    assert(w1.read(t, q) == if es.subrange(0, k as int).contains(q) {
                        steered_read(self, w0, t, q)
                    } else {
                        w0.read(t, q)
                    });
                }
            }
            k = k + 1;
        }
        proof {
            assert(es.subrange(0, es.len() as int) =~= es);
        }
    }
}

} // verus!
