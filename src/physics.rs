//! The physics system: moves entities by their velocity with gravity, then
//! pushes movable bodies up out of the bodies they overlap.

use vstd::prelude::*;
use crate::components::{GameComponent, Position, Size, Velocity};
use crate::slot::GenerationalIndex;
use crate::store::write_component;
use crate::world::{Entities, System, World, lemma_join_disjoint, lemma_read_written, lemma_write_back};

verus! {

/// Fastest downward speed gravity accelerates to, in pixels per tick.
pub const TERMINAL_VELOCITY: i32 = 20;

/// `v` clamped to the `i32` range.
pub open spec fn clamp_i32(v: int) -> i32 {
    if v > i32::MAX {
        i32::MAX
    } else if v < i32::MIN {
        i32::MIN
    } else {
        v as i32
    }
}

/// `a + b`, saturating at the `i32` bounds.
pub fn add_clamped(a: i32, b: i32) -> (r: i32)
    ensures
        r == clamp_i32(a + b),
{
    let s: i64 = a as i64 + b as i64;
    if s > i32::MAX as i64 {
        i32::MAX
    } else if s < i32::MIN as i64 {
        i32::MIN
    } else {
        s as i32
    }
}

/// `a - b`, saturating at the `i32` bounds.
pub fn sub_clamped(a: i32, b: i32) -> (r: i32)
    ensures
        r == clamp_i32(a - b),
{
    let s: i64 = a as i64 - b as i64;
    if s > i32::MAX as i64 {
        i32::MAX
    } else if s < i32::MIN as i64 {
        i32::MIN
    } else {
        s as i32
    }
}

/// One tick of motion: the position moves by the velocity, then the
/// vertical speed is capped at the terminal velocity and gravity adds one.
pub open spec fn motion(p: Position, v: Velocity) -> (Position, Velocity) {
    let vy = if v.1 < TERMINAL_VELOCITY {
        v.1
    } else {
        TERMINAL_VELOCITY
    };
    (Position(clamp_i32(p.0 + v.0), clamp_i32(p.1 + v.1)), Velocity(v.0, (vy + 1) as i32))
}

/// An axis-aligned rectangle; a non-positive width or height makes it empty.
#[derive(Clone, Copy, Debug, PartialEq, Eq, Structural)]
pub struct Rect {
    pub x: i32,
    pub y: i32,
    pub w: i32,
    pub h: i32,
}

/// The overlap of `a` and `b`, if it has positive area: the rectangle from
/// the larger of the left/top edges to the smaller of the right/bottom
/// edges.
pub open spec fn overlap(a: Rect, b: Rect) -> Option<Rect> {
    let x0 = if a.x > b.x { a.x as int } else { b.x as int };
    let y0 = if a.y > b.y { a.y as int } else { b.y as int };
    let x1 = if a.x + a.w < b.x + b.w { a.x + a.w } else { b.x + b.w };
    let y1 = if a.y + a.h < b.y + b.h { a.y + a.h } else { b.y + b.h };
    if a.w > 0 && a.h > 0 && b.w > 0 && b.h > 0 && x1 > x0 && y1 > y0 {
        Some(Rect { x: x0 as i32, y: y0 as i32, w: (x1 - x0) as i32, h: (y1 - y0) as i32 })
    } else {
        None
    }
}

impl Rect {
    /// The overlap of two rectangles, absent when they do not overlap.
    pub fn intersection(&self, other: &Rect) -> (r: Option<Rect>)
        ensures
            r == overlap(*self, *other),
    {
        let a_left: i64 = self.x as i64;
        let a_top: i64 = self.y as i64;
        let b_left: i64 = other.x as i64;
        let b_top: i64 = other.y as i64;
        let x0: i64 = if a_left > b_left { a_left } else { b_left };
        let y0: i64 = if a_top > b_top { a_top } else { b_top };
        let a_right: i64 = a_left + self.w as i64;
        let b_right: i64 = b_left + other.w as i64;
        let a_bottom: i64 = a_top + self.h as i64;
        let b_bottom: i64 = b_top + other.h as i64;
        let x1: i64 = if a_right < b_right { a_right } else { b_right };
        let y1: i64 = if a_bottom < b_bottom { a_bottom } else { b_bottom };
        if self.w > 0 && self.h > 0 && other.w > 0 && other.h > 0 && x1 > x0 && y1 > y0 {
            Some(Rect { x: x0 as i32, y: y0 as i32, w: (x1 - x0) as i32, h: (y1 - y0) as i32 })
        } else {
            None
        }
    }
}

/// Largest coordinate and size of a rectangle: half of `i32::MAX`, so that
/// no edge overflows.
pub const RECT_MAX: i32 = 1_073_741_823;

/// Smallest coordinate of a rectangle: half of `i32::MIN`.
pub const RECT_MIN: i32 = -1_073_741_824;

/// A coordinate clamped to the rectangle range.
pub open spec fn clamp_position(v: i32) -> i32 {
    if v > RECT_MAX {
        RECT_MAX
    } else if v < RECT_MIN {
        RECT_MIN
    } else {
        v
    }
}

/// A size read as unsigned (a negative size wraps to a huge one), clamped
/// to the rectangle range; rectangles are never empty, so zero becomes one.
pub open spec fn clamp_size(v: i32) -> i32 {
    if v == 0 {
        1
    } else if v < 0 || v > RECT_MAX {
        RECT_MAX
    } else {
        v
    }
}

/// The rectangle at `(x, y)` of size `w` by `h`, clamped into range.
pub open spec fn rect_of(x: i32, y: i32, w: i32, h: i32) -> Rect {
    Rect { x: clamp_position(x), y: clamp_position(y), w: clamp_size(w), h: clamp_size(h) }
}

impl Rect {
    /// The rectangle at `(x, y)` of size `w` by `h`: coordinates clamped to
    /// `RECT_MIN..=RECT_MAX`, sizes read as unsigned and clamped to
    /// `1..=RECT_MAX`.
    pub fn new(x: i32, y: i32, w: i32, h: i32) -> (r: Rect)
        ensures
            r == rect_of(x, y, w, h),
    {
        Rect { x: position_in_range(x), y: position_in_range(y), w: size_in_range(w), h: size_in_range(h) }
    }
}

/// `v` clamped to the rectangle coordinate range.
pub fn position_in_range(v: i32) -> (r: i32)
    ensures
        r == clamp_position(v),
{
    if v > RECT_MAX {
        RECT_MAX
    } else if v < RECT_MIN {
        RECT_MIN
    } else {
        v
    }
}

/// `v` as a rectangle size.
pub fn size_in_range(v: i32) -> (r: i32)
    ensures
        r == clamp_size(v),
{
    if v == 0 {
        1
    } else if v < 0 || v > RECT_MAX {
        RECT_MAX
    } else {
        v
    }
}

/// The physics system, holding the ordinals its component types were
/// registered under.
pub struct Physics {
    pub position: usize,
    pub velocity: usize,
    pub size: usize,
    pub collision: usize,
}

/// A body taking part in collision resolution: its entity, its rectangle,
/// whether collisions never move it, and whether it has landed on
/// something during the pass.
#[derive(Clone, Copy, Debug, PartialEq, Eq, Structural)]
pub struct Body {
    pub entity: GenerationalIndex,
    pub rect: Rect,
    pub fixed: bool,
    pub landed: bool,
}

/// The bodies of the entities `found` holding a position, a size and a
/// collision in `w`, in order, none landed yet.
pub open spec fn bodies_of(sys: Physics, w: World<GameComponent>, found: Seq<GenerationalIndex>) -> Seq<Body>
    decreases found.len(),
{
    if found.len() == 0 {
        Seq::empty()
    } else {
        let prev = bodies_of(sys, w, found.drop_last());
        let e = found.last();
        match (w.read(sys.position as int, e), w.read(sys.size as int, e), w.read(sys.collision as int, e)) {
            (
                Some(GameComponent::Position(p)),
                Some(GameComponent::Size(s)),
                Some(GameComponent::Collision(c)),
            ) => prev.push(
                Body { entity: e, rect: rect_of(p.0, p.1, s.0, s.1), fixed: c.0 is Some, landed: false },
            ),
            _ => prev,
        }
    }
}

/// The height the last landed body of `q` in `rb` settled at, if any.
pub open spec fn landing(rb: Seq<Body>, q: GenerationalIndex) -> Option<i32>
    decreases rb.len(),
{
    if rb.len() == 0 {
        None
    } else if rb.last().entity == q && rb.last().landed {
        Some(rb.last().rect.y)
    } else {
        landing(rb.drop_last(), q)
    }
}

/// What a read of type `t` through `q` yields after the landed bodies of
/// `rb` are settled in `w`: a landed entity holding a position has its top
/// edge at the landing height and its vertical speed (if it has one) zero.
pub open spec fn settled_read(
    sys: Physics,
    w: World<GameComponent>,
    rb: Seq<Body>,
    t: int,
    q: GenerationalIndex,
) -> Option<GameComponent> {
    match landing(rb, q) {
        Some(y) => match w.read(sys.position as int, q) {
            Some(GameComponent::Position(p)) => if t == sys.position {
                Some(GameComponent::Position(Position(p.0, y)))
            } else if t == sys.velocity {
                match w.read(sys.velocity as int, q) {
                    Some(GameComponent::Velocity(v)) => Some(GameComponent::Velocity(Velocity(v.0, 0))),
                    other => other,
                }
            } else {
                w.read(t, q)
            },
            _ => w.read(t, q),
        },
        None => w.read(t, q),
    }
}

/// The bodies of `w` after collision resolution: those of the live entities
/// holding a position, a size and a collision, resolved in build order.
pub open spec fn resolved_bodies(sys: Physics, w: World<GameComponent>) -> Seq<Body> {
    let bs = bodies_of(
        sys,
        w,
        w.query(seq![sys.position, sys.size, sys.collision]),
    );
    resolved(bs, bs.len())
}

/// What one tick of motion makes a read of type `t` through an entity `q`
/// it was handed yield.
pub open spec fn moved_read(sys: Physics, w: World<GameComponent>, t: int, q: GenerationalIndex) -> Option<
    GameComponent,
> {
    match (w.read(sys.position as int, q), w.read(sys.velocity as int, q)) {
        (Some(GameComponent::Position(p)), Some(GameComponent::Velocity(v))) => if t == sys.position {
            Some(GameComponent::Position(motion(p, v).0))
        } else if t == sys.velocity {
            Some(GameComponent::Velocity(motion(p, v).1))
        } else {
            w.read(t, q)
        },
        _ => w.read(t, q),
    }
}

/// Bodies need all three types registered.
proof fn lemma_bodies_unregistered(sys: Physics, w: World<GameComponent>, found: Seq<GenerationalIndex>)
    requires
        !(sys.position < w.types() && sys.size < w.types() && sys.collision < w.types()),
    ensures
        bodies_of(sys, w, found) == Seq::<Body>::empty(),
    decreases found.len(),
{
    if found.len() > 0 {
        lemma_bodies_unregistered(sys, w, found.drop_last());
    }
}

/// Body `a` after meeting rectangle `b`: a movable body overlapping `b` is
/// pushed up by the overlap's height and marked as landed.
pub open spec fn push_out(a: Body, b: Rect) -> Body {
    match overlap(a.rect, b) {
        Some(hit) => if a.fixed {
            a
        } else {
            Body {
                rect: Rect { y: clamp_position(clamp_i32(a.rect.y - hit.h)), ..a.rect },
                landed: true,
                ..a
            }
        },
        None => a,
    }
}

/// The bodies after body `i` has pushed out bodies `0..j`, in order.
pub open spec fn inner_pass(bs: Seq<Body>, i: int, j: nat) -> Seq<Body>
    decreases j,
{
    if j == 0 {
        bs
    } else {
        let prev = inner_pass(bs, i, (j - 1) as nat);
        prev.update(j - 1, push_out(prev[j - 1], bs[i].rect))
    }
}

/// The bodies after bodies `0..i` have each pushed out every earlier body.
pub open spec fn resolved(bs: Seq<Body>, i: nat) -> Seq<Body>
    decreases i,
{
    if i == 0 {
        bs
    } else {
        let prev = resolved(bs, (i - 1) as nat);
        inner_pass(prev, i - 1, (i - 1) as nat)
    }
}

proof fn lemma_inner_pass(bs: Seq<Body>, i: int, j: nat)
    requires
        j <= i < bs.len(),
    ensures
        inner_pass(bs, i, j).len() == bs.len(),
        inner_pass(bs, i, j)[i] == bs[i],
        forall|k: int| j <= k < bs.len() ==> #[trigger] inner_pass(bs, i, j)[k] == bs[k],
        forall|k: int| 0 <= k < bs.len() ==> #[trigger] inner_pass(bs, i, j)[k].entity == bs[k].entity,
    decreases j,
{
    if j > 0 {
        lemma_inner_pass(bs, i, (j - 1) as nat);
    }
}

proof fn lemma_resolved_len(bs: Seq<Body>, i: nat)
    requires
        i <= bs.len(),
    ensures
        resolved(bs, i).len() == bs.len(),
        forall|k: int| 0 <= k < bs.len() ==> #[trigger] resolved(bs, i)[k].entity == bs[k].entity,
    decreases i,
{
    if i > 0 {
        lemma_resolved_len(bs, (i - 1) as nat);
        lemma_inner_pass(resolved(bs, (i - 1) as nat), i - 1, (i - 1) as nat);
    }
}

/// Resolves overlaps among `bodies`: each body in turn pushes every earlier
/// movable body it overlaps up out of it.
pub fn resolve(bodies: &mut Vec<Body>)
    ensures
        final(bodies)@ == resolved(old(bodies)@, old(bodies)@.len()),
{
    let ghost start = bodies@;
    let n = bodies.len();
    let mut i: usize = 0;
    while i < n
        invariant
            n == start.len(),
            i <= n,
            bodies@ == resolved(start, i as nat),
        decreases n - i,
    {
        proof {
            lemma_resolved_len(start, i as nat);
        }
        let ghost outer = bodies@;
        let other = bodies[i].rect;
        let mut j: usize = 0;
        while j < i
            invariant
                n == start.len(),
                i < n,
                j <= i,
                outer.len() == n,
                other == outer[i as int].rect,
                bodies@ == inner_pass(outer, i as int, j as nat),
            decreases i - j,
        {
            proof {
                lemma_inner_pass(outer, i as int, j as nat);
            }
            let a = bodies[j];
            let pushed = match a.rect.intersection(&other) {
                Some(hit) => if a.fixed {
                    a
                } else {
                    Body {
                        entity: a.entity,
                        rect: Rect {
                            x: a.rect.x,
                            y: position_in_range(sub_clamped(a.rect.y, hit.h)),
                            w: a.rect.w,
                            h: a.rect.h,
                        },
                        fixed: a.fixed,
                        landed: true,
                    }
                },
                None => a,
            };
            bodies.set(j, pushed);
            j = j + 1;
        }
        i = i + 1;
    }
}

impl Physics {
    /// Applies one tick of `motion` to `entity` when it holds both a
    /// position and a velocity; otherwise changes nothing.
    pub fn move_entity(&self, world: &mut World<GameComponent>, entity: GenerationalIndex) -> (r:
        bool)
        requires
            old(world).wf(),
            self.position != self.velocity,
        ensures
            final(world).wf(),
            old(world).same_entities(&*final(world)),
            match (old(world).read(self.position as int, entity), old(world).read(self.velocity as int, entity)) {
                (Some(GameComponent::Position(p)), Some(GameComponent::Velocity(v))) => {
                    &&& r
                    &&& final(world).arrays() == write_component(
                        write_component(
                            old(world).arrays(),
                            self.position as int,
                            entity,
                            GameComponent::Position(motion(p, v).0),
                        ),
                        self.velocity as int,
                        entity,
                        GameComponent::Velocity(motion(p, v).1),
                    )
                },
                _ => !r && final(world).arrays() == old(world).arrays(),
            },
    {
        let ghost w0 = *world;
        match world.join_mut(self.position, self.velocity, entity) {
            Some((pos, vel)) => {
                match (*pos, *vel) {
                    (GameComponent::Position(p), GameComponent::Velocity(v)) => {
                        let vy = if v.1 < TERMINAL_VELOCITY {
                            v.1
                        } else {
                            TERMINAL_VELOCITY
                        };
                        *pos = GameComponent::Position(Position(add_clamped(p.0, v.0), add_clamped(p.1, v.1)));
                        *vel = GameComponent::Velocity(Velocity(v.0, vy + 1));
                        true
                    },
                    _ => {
                        proof {
                            lemma_write_back(&w0, self.position as int, entity, *pos);
                            lemma_write_back(&w0, self.velocity as int, entity, *vel);
                        }
                        false
                    },
                }
            },
            None => false,
        }
    }

    /// The bodies of the entities `found` that hold a position, a size and
    /// a collision, in order; none has landed yet.
    pub fn bodies(&self, world: &World<GameComponent>, found: &Vec<GenerationalIndex>) -> (r: Vec<Body>)
        ensures
            r@ == bodies_of(*self, *world, found@),
    {
        let mut bodies: Vec<Body> = Vec::new();
        let mut k: usize = 0;
        while k < found.len()
            invariant
                k <= found@.len(),
                bodies@ == bodies_of(*self, *world, found@.subrange(0, k as int)),
            decreases found@.len() - k,
        {
            let e = found[k];
            proof {
                let sub = found@.subrange(0, k as int + 1);
                assert(sub.drop_last() =~= found@.subrange(0, k as int));
                assert(sub.last() == e);
            }
            match (world.get(self.position, e), world.get(self.size, e), world.get(self.collision, e)) {
                (
                    Some(GameComponent::Position(p)),
                    Some(GameComponent::Size(s)),
                    Some(GameComponent::Collision(c)),
                ) => {
                    bodies.push(
                        Body {
                            entity: e,
                            rect: Rect::new(p.0, p.1, s.0, s.1),
                            fixed: c.0.is_some(),
                            landed: false,
                        },
                    );
                },
                _ => {},
            }
            k = k + 1;
        }
        proof {
            assert(found@.subrange(0, found@.len() as int) =~= found@);
        }
        bodies
    }

    /// Sets the top edge of `entity`'s position to `y` and stops its
    /// vertical motion. A missing velocity stays absent; without a position
    /// nothing changes.
    pub fn settle(&self, world: &mut World<GameComponent>, entity: GenerationalIndex, y: i32) -> (r:
        bool)
        requires
            old(world).wf(),
            self.position != self.velocity,
        ensures
            final(world).wf(),
            old(world).same_entities(&*final(world)),
            match old(world).read(self.position as int, entity) {
                Some(GameComponent::Position(p)) => {
                    let placed = write_component(
                        old(world).arrays(),
                        self.position as int,
                        entity,
                        GameComponent::Position(Position(p.0, y)),
                    );
                    &&& r
                    &&& final(world).arrays() == match old(world).read(self.velocity as int, entity) {
                        Some(GameComponent::Velocity(v)) => write_component(
                            placed,
                            self.velocity as int,
                            entity,
                            GameComponent::Velocity(Velocity(v.0, 0)),
                        ),
                        _ => placed,
                    }
                },
                _ => !r && final(world).arrays() == old(world).arrays(),
            },
    {
        let p = match world.get(self.position, entity) {
            Some(GameComponent::Position(p)) => *p,
            _ => return false,
        };
        let ghost w0 = *world;
        match world.get_mut(self.position, entity) {
            Some(slot) => {
                *slot = GameComponent::Position(Position(p.0, y));
            },
            None => {},
        }
        proof {
            lemma_read_written(&w0, &*world, self.position as int, entity, GameComponent::Position(Position(p.0, y)));
        }
        let vx = match world.get(self.velocity, entity) {
            Some(GameComponent::Velocity(v)) => v.0,
            _ => return true,
        };
        match world.get_mut(self.velocity, entity) {
            Some(slot) => {
                *slot = GameComponent::Velocity(Velocity(vx, 0));
            },
            None => {},
        }
        true
    }

    /// Resolves overlaps among the live entities holding a position, a
    /// size and a collision (see `resolve`), then settles every body that
    /// landed at its new height.
    pub fn collide(&self, world: &mut World<GameComponent>)
        requires
            old(world).wf(),
            self.position != self.velocity,
        ensures
            final(world).wf(),
            old(world).same_entities(&*final(world)),
            forall|t: int, q: GenerationalIndex| #[trigger]
                final(world).read(t, q) == settled_read(*self, *old(world), resolved_bodies(*self, *old(world)), t, q),
    {
        let ghost w0 = *world;
        let wanted = vec![self.position, self.size, self.collision];
        assert(wanted@ == seq![self.position, self.size, self.collision]);
        let found = match world.run_query(&wanted) {
            Ok(found) => found,
            Err(_) => {
                proof {
                    let found_spec = w0.query(seq![self.position, self.size, self.collision]);
                    lemma_bodies_unregistered(*self, w0, found_spec);
                    assert(resolved_bodies(*self, w0) == Seq::<Body>::empty());
                }
                return;
            },
        };
        let mut bodies = self.bodies(world, &found);
        resolve(&mut bodies);
        let ghost rb = bodies@;
        assert(rb == resolved_bodies(*self, w0));
        let mut k: usize = 0;
        while k < bodies.len()
            invariant
                world.wf(),
                w0.same_entities(&*world),
                self.position != self.velocity,
                bodies@ == rb,
                k <= rb.len(),
                forall|t: int, q: GenerationalIndex| #[trigger]
                    world.read(t, q) == settled_read(*self, w0, rb.subrange(0, k as int), t, q),
            decreases bodies@.len() - k,
        {
            let b = bodies[k];
            let ghost w1 = *world;
            let ghost sub = rb.subrange(0, k as int);
            let ghost sub1 = rb.subrange(0, k as int + 1);
            proof {
                assert(sub1.drop_last() =~= sub);
                assert(sub1.last() == b);
            }
            if b.landed {
                let e = b.entity;
                let y = b.rect.y;
                self.settle(world, e, y);
                proof {
                    let pos = self.position as int;
                    let vel = self.velocity as int;
                    // what settle saw at e
                    assert(w1.read(pos, e) == settled_read(*self, w0, sub, pos, e));
                    assert(w1.read(vel, e) == settled_read(*self, w0, sub, vel, e));
                    match w1.read(pos, e) {
                        Some(GameComponent::Position(p1)) => {
                            match w1.read(vel, e) {
                                Some(GameComponent::Velocity(v1)) => {
                                    lemma_join_disjoint(
                                        &w1,
                                        &*world,
                                        pos,
                                        vel,
                                        e,
                                        GameComponent::Position(Position(p1.0, y)),
                                        GameComponent::Velocity(Velocity(v1.0, 0)),
                                    );
                                },
                                _ => {
                                    lemma_read_written(&w1, &*world, pos, e, GameComponent::Position(Position(p1.0, y)));
                                },
                            }
                        },
                        _ => {},
                    }
                    assert forall|t: int, q: GenerationalIndex| #[trigger]
                        world.read(t, q) == settled_read(*self, w0, sub1, t, q) by {
                        assert(w1.read(t, q) == settled_read(*self, w0, sub, t, q));
                    }
                }
            } else {
                proof {
                    assert forall|t: int, q: GenerationalIndex| #[trigger]
                        world.read(t, q) == settled_read(*self, w0, sub1, t, q) by {
                        assert(w1.read(t, q) == settled_read(*self, w0, sub, t, q));
                    }
                }
            }
            k = k + 1;
        }
        proof {
            assert(rb.subrange(0, rb.len() as int) =~= rb);
        }
    }
}

/// One pass of the physics system: `mid` is `pre` after every entity
/// handed in has moved, and `post` is `mid` after collision resolution.
pub open spec fn moved_then_collided(
    sys: Physics,
    entities: Seq<GenerationalIndex>,
    pre: World<GameComponent>,
    mid: World<GameComponent>,
    post: World<GameComponent>,
) -> bool {
    &&& pre.same_entities(&mid)
    &&& forall|t: int, q: GenerationalIndex| #[trigger]
        mid.read(t, q) == if entities.contains(q) {
            moved_read(sys, pre, t, q)
        } else {
            pre.read(t, q)
        }
    &&& forall|t: int, q: GenerationalIndex| #[trigger]
        post.read(t, q) == settled_read(sys, mid, resolved_bodies(sys, mid), t, q)
}

impl System<GameComponent> for Physics {
    /// Every entity handed in moves one tick, then collisions among all
    /// collidable entities are resolved; with position and velocity under
    /// one ordinal nothing changes.
    open spec fn updated(
        &self,
        post: &Self,
        entities: Seq<GenerationalIndex>,
        pre: World<GameComponent>,
        post_world: World<GameComponent>,
    ) -> bool {
        &&& *post == *self
        &&& if self.position == self.velocity {
            forall|t: int, q: GenerationalIndex| #[trigger] post_world.read(t, q) == pre.read(t, q)
        } else {
            exists|mid: World<GameComponent>| #[trigger]
                moved_then_collided(*self, entities, pre, mid, post_world)
        }
    }

    /// Moves every entity handed in, then resolves collisions.
    fn update(&mut self, entities: &Entities, world: &mut World<GameComponent>) {
        if self.position == self.velocity {
            return;
        }
        let ghost w0 = *world;
        let ghost es = entities.entities@;
        let mut k: usize = 0;
        while k < entities.entities.len()
            invariant
                world.wf(),
                self.position != self.velocity,
                es == entities.entities@,
                es.no_duplicates(),
                k <= es.len(),
                w0.same_entities(&*world),
                forall|t: int, q: GenerationalIndex| #[trigger]
                    world.read(t, q) == if es.subrange(0, k as int).contains(q) {
                        moved_read(*self, w0, t, q)
                    } else {
                        w0.read(t, q)
                    },
            decreases es.len() - k,
        {
            let e = entities.entities[k];
            let ghost w1 = *world;
            proof {
                assert(!es.subrange(0, k as int).contains(e)) by {
                    if es.subrange(0, k as int).contains(e) {
                        let i = choose|i: int| 0 <= i < k && es.subrange(0, k as int)[i] == e;
                        assert(es[i] == es[k as int]);
                    }
                }
                assert(es.subrange(0, k as int + 1) =~= es.subrange(0, k as int).push(e));
                assert(w1.read(self.position as int, e) == w0.read(self.position as int, e));
                assert(w1.read(self.velocity as int, e) == w0.read(self.velocity as int, e));
            }
            let moved = self.move_entity(world, e);
            proof {
                if moved {
                    match (w1.read(self.position as int, e), w1.read(self.velocity as int, e)) {
                        (Some(GameComponent::Position(p)), Some(GameComponent::Velocity(v))) => {
                            lemma_join_disjoint(
                                &w1,
                                &*world,
                                self.position as int,
                                self.velocity as int,
                                e,
                                GameComponent::Position(motion(p, v).0),
                                GameComponent::Velocity(motion(p, v).1),
                            );
                        },
                        _ => {},
                    }
                }
                assert forall|t: int, q: GenerationalIndex| #[trigger]
                    world.read(t, q) == if es.subrange(0, k as int + 1).contains(q) {
                        moved_read(*self, w0, t, q)
                    } else {
                        w0.read(t, q)
                    } by {
                    if q == e {
                        assert(es.subrange(0, k as int + 1).contains(q)) by {
                            assert(es.subrange(0, k as int + 1)[k as int] == e);
                        }
                        assert(w1.read(t, q) == w0.read(t, q));
                    } else {
                        let sub = es.subrange(0, k as int);
                        let sub1 = es.subrange(0, k as int + 1);
                        assert(sub1.contains(q) == sub.contains(q)) by {
                            if sub1.contains(q) {
                                let i = choose|i: int| 0 <= i < sub1.len() && #[trigger] sub1[i] == q;
                                assert(sub[i] == q);
                            }
                            if sub.contains(q) {
                                let i = choose|i: int| 0 <= i < sub.len() && #[trigger] sub[i] == q;
                                assert(sub1[i] == q);
                            }
                        }
                    }
                    assert(w1.read(t, q) == if es.subrange(0, k as int).contains(q) {
                        moved_read(*self, w0, t, q)
                    } else {
                        w0.read(t, q)
                    });
                }
            }
            k = k + 1;
        }
        proof {
            assert(es.subrange(0, es.len() as int) =~= es);
        }
        let ghost mid = *world;
        self.collide(world);
        proof {
            assert(moved_then_collided(*self, es, w0, mid, *world));
        }
    }
}

} // verus!
