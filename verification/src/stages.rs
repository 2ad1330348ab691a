use vstd::prelude::*;

use crate::body::{abs_le, Body, Entity, Transform};
use crate::math::{
    abs_i, sqrt_of, tdiv, vec2, Vec2i, ARENA_LIMIT, DELTA_LIMIT, FLASH_DURATION,
    FORCE_LIMIT, POS_LIMIT, RADIUS_LIMIT, SEEK_STRENGTH, VEL_LIMIT,
};
use crate::math::{div_i128, isqrt_u128, lemma_abs_square, lemma_mul_bound, lemma_scaled_bound, lemma_sqrt_lower, lemma_sqrt_of, lemma_sqrt_unique};

verus! {

/// Loose coordinate bound under which the containment arithmetic cannot
/// overflow; positions straight out of the integrator stay well below it.
pub const POS_WILD: i64 = 1_000_000_000_000_000_000;

/// Position bound guaranteed after one integration step over well-formed
/// entities: `POS_LIMIT + (VEL_LIMIT + FORCE_LIMIT) * DELTA_LIMIT` rounded up.
pub const INTEGRATE_POS_BOUND: i64 = 6_000_000_000_000_000;

/// Velocity bound guaranteed after one integration step over well-formed
/// entities: `VEL_LIMIT + 2 * FORCE_LIMIT`.
pub const INTEGRATE_VEL_BOUND: i64 = 5_002_000_000;

// ---------------------------------------------------------------------------
// Collision-state decay
// ---------------------------------------------------------------------------

/// One entity after the per-frame decay: the collision flag is cleared and a
/// still-running highlight timer is decremented by `delta`.
pub open spec fn decay_entity(e: Entity, delta: int) -> Entity {
    Entity {
        is_colliding: false,
        highlight_time_remaining: if e.highlight_time_remaining > 0 {
            (e.highlight_time_remaining - delta) as i64
        } else {
            e.highlight_time_remaining
        },
        ..e
    }
}

pub open spec fn decay_all(s: Seq<Entity>, delta: int) -> Seq<Entity> {
    Seq::new(s.len(), |i: int| decay_entity(s[i], delta))
}

/// Clears every collision flag and decays every running highlight timer.
pub fn decay(entities: &mut Vec<Entity>, delta: i64)
    requires
        0 <= delta <= DELTA_LIMIT,
    ensures
        final(entities)@ == decay_all(old(entities)@, delta as int),
{
    let ghost s0 = entities@;
    let mut i: usize = 0;
    while i < entities.len()
        invariant
            0 <= delta <= DELTA_LIMIT,
            i <= entities@.len(),
            entities@.len() == s0.len(),
            forall|k: int| 0 <= k < i ==> entities@[k] == decay_entity(s0[k], delta as int),
            forall|k: int| i <= k < s0.len() ==> entities@[k] == s0[k],
        decreases entities@.len() - i,
    {
        let e = entities[i];
        let h: i64 = if e.highlight_time_remaining > 0 {
            e.highlight_time_remaining - delta
        } else {
            e.highlight_time_remaining
        };
        entities[i] = Entity { is_colliding: false, highlight_time_remaining: h, ..e };
        i = i + 1;
    }
    assert(entities@ =~= decay_all(s0, delta as int));
}

// ---------------------------------------------------------------------------
// Seek behaviour
// ---------------------------------------------------------------------------

/// One entity after the seek hook with the given `strength`: an entity that
/// follows the target gains a force of magnitude `strength` along the unit
/// vector toward `target` (componentwise `tdiv(d * strength, |d|)`), and
/// exactly at the target it gains nothing.
pub open spec fn seek_entity(e: Entity, target: Vec2i, strength: int) -> Entity {
    if !e.follow_target {
        e
    } else {
        let dx = target.x - e.body.position.x;
        let dy = target.y - e.body.position.y;
        let dist = sqrt_of(dx * dx + dy * dy);
        if dist == 0 {
            e
        } else {
            Entity {
                body: Body {
                    force: Vec2i {
                        x: (e.body.force.x + tdiv(dx * strength, dist)) as i64,
                        y: (e.body.force.y + tdiv(dy * strength, dist)) as i64,
                    },
                    ..e.body
                },
                ..e
            }
        }
    }
}

pub open spec fn seek_all(s: Seq<Entity>, target: Vec2i, strength: int) -> Seq<Entity> {
    Seq::new(s.len(), |i: int| seek_entity(s[i], target, strength))
}

/// Adds a steering force of the given `strength` toward `target` to every
/// entity flagged to follow it; composes with other hooks by accumulation
/// into `body.force`.
pub fn apply_seek(entities: &mut Vec<Entity>, target: Vec2i, strength: i64)
    requires
        abs_le(target, ARENA_LIMIT as int),
        0 <= strength <= FORCE_LIMIT,
        forall|k: int| 0 <= k < old(entities)@.len() ==> abs_le(#[trigger] old(entities)@[k].body.position, POS_LIMIT as int),
        forall|k: int| 0 <= k < old(entities)@.len() ==> abs_le(#[trigger] old(entities)@[k].body.force, FORCE_LIMIT as int),
    ensures
        final(entities)@ == seek_all(old(entities)@, target, strength as int),
        forall|k: int| 0 <= k < final(entities)@.len() ==> abs_le(
            #[trigger] final(entities)@[k].body.force,
            FORCE_LIMIT + strength,
        ),
{
    let ghost s0 = entities@;
    let mut i: usize = 0;
    while i < entities.len()
        invariant
            abs_le(target, ARENA_LIMIT as int),
            0 <= strength <= FORCE_LIMIT,
            forall|k: int| 0 <= k < s0.len() ==> abs_le(#[trigger] s0[k].body.position, POS_LIMIT as int),
            forall|k: int| 0 <= k < s0.len() ==> abs_le(#[trigger] s0[k].body.force, FORCE_LIMIT as int),
            i <= entities@.len(),
            entities@.len() == s0.len(),
            forall|k: int| 0 <= k < i ==> entities@[k] == seek_entity(s0[k], target, strength as int),
            forall|k: int| 0 <= k < i ==> abs_le(#[trigger] entities@[k].body.force, FORCE_LIMIT + strength),
            forall|k: int| i <= k < s0.len() ==> entities@[k] == s0[k],
        decreases entities@.len() - i,
    {
        let e = entities[i];
        proof {
            assert(entities@[i as int] == s0[i as int]);
            assert(abs_le(s0[i as int].body.position, POS_LIMIT as int));
            assert(abs_le(s0[i as int].body.force, FORCE_LIMIT as int));
        }
        if e.follow_target {
            let dx: i64 = target.x - e.body.position.x;
            let dy: i64 = target.y - e.body.position.y;
            proof {
                lemma_abs_square(dx as int);
                lemma_abs_square(dy as int);
                lemma_mul_bound(dx as int, dx as int, 2_200_000_000, 2_200_000_000);
                lemma_mul_bound(dy as int, dy as int, 2_200_000_000, 2_200_000_000);
            }
            let d2: i128 = (dx as i128) * (dx as i128) + (dy as i128) * (dy as i128);
            let dist: u64 = isqrt_u128(d2 as u128);
            proof {
                lemma_sqrt_of(d2 as int);
                lemma_sqrt_unique(d2 as int, dist as int, sqrt_of(d2 as int));
            }
            if dist > 0 {
                proof {
                    lemma_sqrt_lower(d2 as int, dist as int, abs_i(dx as int));
                    lemma_sqrt_lower(d2 as int, dist as int, abs_i(dy as int));
                    lemma_mul_bound(dx as int, strength as int, 2_200_000_000, FORCE_LIMIT as int);
                    lemma_mul_bound(dy as int, strength as int, 2_200_000_000, FORCE_LIMIT as int);
                    lemma_scaled_bound(dx as int, strength as int, dist as int);
                    lemma_scaled_bound(dy as int, strength as int, dist as int);
                }
                let fx: i128 = div_i128((dx as i128) * (strength as i128), dist as i128);
                let fy: i128 = div_i128((dy as i128) * (strength as i128), dist as i128);
                let nf = vec2(e.body.force.x + (fx as i64), e.body.force.y + (fy as i64));
                entities[i] = Entity { body: Body { force: nf, ..e.body }, ..e };
            }
        }
        i = i + 1;
    }
    assert(entities@ =~= seek_all(s0, target, strength as int));
}

// ---------------------------------------------------------------------------
// Integration
// ---------------------------------------------------------------------------

/// One entity after integration: the accumulated force folds into the
/// velocity, the position advances by `velocity * delta`, and the force
/// accumulator is cleared.
pub open spec fn integrate_entity(e: Entity, delta: int) -> Entity {
    let vx = e.body.velocity.x + e.body.force.x;
    let vy = e.body.velocity.y + e.body.force.y;
    Entity {
        body: Body {
            position: Vec2i {
                x: (e.body.position.x + vx * delta) as i64,
                y: (e.body.position.y + vy * delta) as i64,
            },
            velocity: Vec2i { x: vx as i64, y: vy as i64 },
            force: Vec2i { x: 0, y: 0 },
            ..e.body
        },
        ..e
    }
}

pub open spec fn integrate_all(s: Seq<Entity>, delta: int) -> Seq<Entity> {
    Seq::new(s.len(), |i: int| integrate_entity(s[i], delta))
}

/// Advances every body by one time step of `delta`; a `delta` of zero moves
/// nothing but still clears the force accumulators.
pub fn integrate(entities: &mut Vec<Entity>, delta: i64)
    requires
        0 <= delta <= DELTA_LIMIT,
        forall|k: int| 0 <= k < old(entities)@.len() ==> abs_le(#[trigger] old(entities)@[k].body.position, POS_LIMIT as int),
        forall|k: int| 0 <= k < old(entities)@.len() ==> abs_le(#[trigger] old(entities)@[k].body.velocity, VEL_LIMIT as int),
        forall|k: int| 0 <= k < old(entities)@.len() ==> abs_le(#[trigger] old(entities)@[k].body.force, 2 * FORCE_LIMIT),
    ensures
        final(entities)@ == integrate_all(old(entities)@, delta as int),
        forall|k: int| 0 <= k < final(entities)@.len() ==> abs_le(
            #[trigger] final(entities)@[k].body.position,
            INTEGRATE_POS_BOUND as int,
        ),
        forall|k: int| 0 <= k < final(entities)@.len() ==> abs_le(
            #[trigger] final(entities)@[k].body.velocity,
            INTEGRATE_VEL_BOUND as int,
        ),
{
    let ghost s0 = entities@;
    let mut i: usize = 0;
    while i < entities.len()
        invariant
            0 <= delta <= DELTA_LIMIT,
            forall|k: int| 0 <= k < s0.len() ==> abs_le(#[trigger] s0[k].body.position, POS_LIMIT as int),
            forall|k: int| 0 <= k < s0.len() ==> abs_le(#[trigger] s0[k].body.velocity, VEL_LIMIT as int),
            forall|k: int| 0 <= k < s0.len() ==> abs_le(#[trigger] s0[k].body.force, 2 * FORCE_LIMIT),
            i <= entities@.len(),
            entities@.len() == s0.len(),
            forall|k: int| 0 <= k < i ==> entities@[k] == integrate_entity(s0[k], delta as int),
            forall|k: int| 0 <= k < i ==> abs_le(#[trigger] entities@[k].body.position, INTEGRATE_POS_BOUND as int),
            forall|k: int| 0 <= k < i ==> abs_le(#[trigger] entities@[k].body.velocity, INTEGRATE_VEL_BOUND as int),
            forall|k: int| i <= k < s0.len() ==> entities@[k] == s0[k],
        decreases entities@.len() - i,
    {
        let e = entities[i];
        proof {
            assert(entities@[i as int] == s0[i as int]);
            assert(abs_le(s0[i as int].body.position, POS_LIMIT as int));
            assert(abs_le(s0[i as int].body.velocity, VEL_LIMIT as int));
            assert(abs_le(s0[i as int].body.force, 2 * FORCE_LIMIT));
        }
        let vx: i64 = e.body.velocity.x + e.body.force.x;
        let vy: i64 = e.body.velocity.y + e.body.force.y;
        proof {
            lemma_mul_bound(vx as int, delta as int, INTEGRATE_VEL_BOUND as int, DELTA_LIMIT as int);
            lemma_mul_bound(vy as int, delta as int, INTEGRATE_VEL_BOUND as int, DELTA_LIMIT as int);
        }
        let px: i64 = e.body.position.x + vx * delta;
        let py: i64 = e.body.position.y + vy * delta;
        entities[i] = Entity {
            body: Body {
                position: vec2(px, py),
                velocity: vec2(vx, vy),
                force: vec2(0, 0),
                ..e.body
            },
            ..e
        };
        i = i + 1;
    }
    assert(entities@ =~= integrate_all(s0, delta as int));
}

// ---------------------------------------------------------------------------
// Boundary containment
// ---------------------------------------------------------------------------

/// Containment along one axis. A leading edge at or past `0` clamps the edge
/// onto `0` and reflects the velocity when it still points outward; then a
/// trailing edge at or past `dim` clamps and reflects symmetrically. Both
/// tests are inclusive, so a body exactly touching a wall is still corrected
/// (no sticking), and reflecting only an outward velocity makes a second pass
/// a no-op.
pub open spec fn bounce_axis(p: int, v: int, r: int, dim: int) -> (int, int) {
    let low = if p - r <= 0 {
        (r, if v < 0 { -v } else { v })
    } else {
        (p, v)
    };
    if low.0 + r >= dim {
        (dim - r, if low.1 > 0 { -low.1 } else { low.1 })
    } else {
        low
    }
}

/// One entity after boundary containment on both axes.
pub open spec fn contain_entity(e: Entity, w: int, h: int) -> Entity {
    let bx = bounce_axis(e.body.position.x as int, e.body.velocity.x as int, e.body.radius as int, w);
    let by = bounce_axis(e.body.position.y as int, e.body.velocity.y as int, e.body.radius as int, h);
    Entity {
        body: Body {
            position: Vec2i { x: bx.0 as i64, y: by.0 as i64 },
            velocity: Vec2i { x: bx.1 as i64, y: by.1 as i64 },
            ..e.body
        },
        ..e
    }
}

pub open spec fn contain_all(s: Seq<Entity>, w: int, h: int) -> Seq<Entity> {
    Seq::new(s.len(), |i: int| contain_entity(s[i], w, h))
}

/// Keeps every body inside the `w` by `h` arena, reflecting the velocity on
/// each crossed edge. When the body fits the arena (`2 * radius <= dim`) the
/// resulting position lies within `[radius, dim - radius]` on that axis.
pub fn contain(entities: &mut Vec<Entity>, w: i64, h: i64)
    requires
        0 < w <= ARENA_LIMIT,
        0 < h <= ARENA_LIMIT,
        forall|k: int| 0 <= k < old(entities)@.len() ==> 1 <= #[trigger] old(entities)@[k].body.radius <= RADIUS_LIMIT,
        forall|k: int| 0 <= k < old(entities)@.len() ==> abs_le(#[trigger] old(entities)@[k].body.position, POS_WILD as int),
        forall|k: int| 0 <= k < old(entities)@.len() ==> abs_le(#[trigger] old(entities)@[k].body.velocity, POS_WILD as int),
    ensures
        final(entities)@ == contain_all(old(entities)@, w as int, h as int),
        forall|k: int| 0 <= k < final(entities)@.len() ==> abs_le(
            #[trigger] final(entities)@[k].body.position,
            ARENA_LIMIT + RADIUS_LIMIT,
        ),
        forall|k: int|
            0 <= k < final(entities)@.len() && 2 * old(entities)@[k].body.radius <= w ==> old(
                entities,
            )@[k].body.radius <= #[trigger] final(entities)@[k].body.position.x <= w - old(entities)@[k].body.radius,
        forall|k: int|
            0 <= k < final(entities)@.len() && 2 * old(entities)@[k].body.radius <= h ==> old(
                entities,
            )@[k].body.radius <= #[trigger] final(entities)@[k].body.position.y <= h - old(entities)@[k].body.radius,
        forall|k: int| 0 <= k < final(entities)@.len() ==> abs_i(
            #[trigger] final(entities)@[k].body.velocity.x as int,
        ) == abs_i(old(entities)@[k].body.velocity.x as int) && abs_i(
            final(entities)@[k].body.velocity.y as int,
        ) == abs_i(old(entities)@[k].body.velocity.y as int),
{
    let ghost s0 = entities@;
    let mut i: usize = 0;
    while i < entities.len()
        invariant
            0 < w <= ARENA_LIMIT,
            0 < h <= ARENA_LIMIT,
            forall|k: int| 0 <= k < s0.len() ==> 1 <= #[trigger] s0[k].body.radius <= RADIUS_LIMIT,
            forall|k: int| 0 <= k < s0.len() ==> abs_le(#[trigger] s0[k].body.position, POS_WILD as int),
            forall|k: int| 0 <= k < s0.len() ==> abs_le(#[trigger] s0[k].body.velocity, POS_WILD as int),
            i <= entities@.len(),
            entities@.len() == s0.len(),
            forall|k: int| 0 <= k < i ==> entities@[k] == contain_entity(s0[k], w as int, h as int),
            forall|k: int| i <= k < s0.len() ==> entities@[k] == s0[k],
        decreases entities@.len() - i,
    {
        let e = entities[i];
        proof {
            assert(entities@[i as int] == s0[i as int]);
            assert(1 <= s0[i as int].body.radius <= RADIUS_LIMIT);
            assert(abs_le(s0[i as int].body.position, POS_WILD as int));
            assert(abs_le(s0[i as int].body.velocity, POS_WILD as int));
        }
        let r: i64 = e.body.radius;
        let mut px: i64 = e.body.position.x;
        let mut vx: i64 = e.body.velocity.x;
        if px - r <= 0 {
            if vx < 0 {
                vx = -vx;
            }
            px = r;
        }
        if px + r >= w {
            if vx > 0 {
                vx = -vx;
            }
            px = w - r;
        }
        let mut py: i64 = e.body.position.y;
        let mut vy: i64 = e.body.velocity.y;
        if py - r <= 0 {
            if vy < 0 {
                vy = -vy;
            }
            py = r;
        }
        if py + r >= h {
            if vy > 0 {
                vy = -vy;
            }
            py = h - r;
        }
        entities[i] = Entity {
            body: Body { position: vec2(px, py), velocity: vec2(vx, vy), ..e.body },
            ..e
        };
        i = i + 1;
    }
    assert(entities@ =~= contain_all(s0, w as int, h as int));
}

// ---------------------------------------------------------------------------
// Transform projection
// ---------------------------------------------------------------------------

/// One entity after projection: the authoritative body position is copied
/// into the render transform; the visual size is static and untouched.
pub open spec fn project_entity(e: Entity) -> Entity {
    Entity { transform: Transform { position: e.body.position, ..e.transform }, ..e }
}

pub open spec fn project_all(s: Seq<Entity>) -> Seq<Entity> {
    Seq::new(s.len(), |i: int| project_entity(s[i]))
}

/// Copies every body position into its render-facing transform.
pub fn project(entities: &mut Vec<Entity>)
    ensures
        final(entities)@ == project_all(old(entities)@),
{
    let ghost s0 = entities@;
    let mut i: usize = 0;
    while i < entities.len()
        invariant
            i <= entities@.len(),
            entities@.len() == s0.len(),
            forall|k: int| 0 <= k < i ==> entities@[k] == project_entity(s0[k]),
            forall|k: int| i <= k < s0.len() ==> entities@[k] == s0[k],
        decreases entities@.len() - i,
    {
        let e = entities[i];
        entities[i] = Entity {
            transform: Transform { position: e.body.position, ..e.transform },
            ..e
        };
        i = i + 1;
    }
    assert(entities@ =~= project_all(s0));
}

} // verus!
