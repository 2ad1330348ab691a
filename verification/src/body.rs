use vstd::prelude::*;

use crate::math::{Vec2i, FLASH_DURATION, FORCE_LIMIT, POS_LIMIT, RADIUS_LIMIT, VEL_LIMIT};

verus! {

/// Physical state of one circular body.
#[derive(Clone, Copy, PartialEq, Eq, Structural, Debug)]
pub struct Body {
    pub position: Vec2i,
    pub velocity: Vec2i,
    pub force: Vec2i,
    pub radius: i64,
}

/// Render-facing placement of a body: written by the transform projector,
/// read by the host's renderer.
#[derive(Clone, Copy, PartialEq, Eq, Structural, Debug)]
pub struct Transform {
    pub position: Vec2i,
    pub size: Vec2i,
}

/// One simulated entity: a body, its render transform, its transient
/// collision state, and whether it steers toward the pointer.
#[derive(Clone, Copy, PartialEq, Eq, Structural, Debug)]
pub struct Entity {
    pub body: Body,
    pub transform: Transform,
    pub is_colliding: bool,
    pub highlight_time_remaining: i64,
    pub follow_target: bool,
}

/// The bounds that every entity satisfies between frames.
pub open spec fn wf_entity(e: Entity) -> bool {
    &&& 1 <= e.body.radius <= RADIUS_LIMIT
    &&& abs_le(e.body.position, POS_LIMIT as int)
    &&& abs_le(e.body.velocity, VEL_LIMIT as int)
    &&& abs_le(e.body.force, FORCE_LIMIT as int)
    &&& e.highlight_time_remaining <= FLASH_DURATION
}

/// Both components of `v` have magnitude at most `cap`.
pub open spec fn abs_le(v: Vec2i, cap: int) -> bool {
    -cap <= v.x <= cap && -cap <= v.y <= cap
}

/// A fresh entity: no accumulated force, no collision state, visual size
/// twice the radius on both axes.
pub open spec fn fresh_entity(position: Vec2i, velocity: Vec2i, radius: i64, follow: bool) -> Entity {
    Entity {
        body: Body {
            position,
            velocity,
            force: Vec2i { x: 0, y: 0 },
            radius,
        },
        transform: Transform {
            position,
            size: Vec2i { x: (2 * radius) as i64, y: (2 * radius) as i64 },
        },
        is_colliding: false,
        highlight_time_remaining: 0,
        follow_target: follow,
    }
}

pub fn new_entity(position: Vec2i, velocity: Vec2i, radius: i64, follow: bool) -> (e: Entity)
    requires
        1 <= radius <= RADIUS_LIMIT,
    ensures
        e == fresh_entity(position, velocity, radius, follow),
        e.follow_target == follow,
{
    Entity {
        body: Body {
            position,
            velocity,
            force: Vec2i { x: 0, y: 0 },
            radius,
        },
        transform: Transform {
            position,
            size: Vec2i { x: 2 * radius, y: 2 * radius },
        },
        is_colliding: false,
        highlight_time_remaining: 0,
        follow_target: follow,
    }
}

/// Maps one raw random draw into the closed range `[lo, hi]`, by reduction
/// modulo the range width: what the host's randomness decides is only `raw`;
/// the margin-bounded placement itself is this function's verified work.
pub fn draw_in_range(raw: u64, lo: i64, hi: i64) -> (r: i64)
    requires
        lo <= hi,
        hi - lo < i64::MAX,
    ensures
        r == lo + (raw as int) % (hi - lo + 1),
        lo <= r <= hi,
{
    let width: u64 = ((hi as i128) - (lo as i128) + 1) as u64;
    let m: u64 = raw % width;
    proof {
        assert(0 <= (raw as int) % (hi - lo + 1) <= hi - lo);
    }
    lo + (m as i64)
}

/// Populates the store from host-supplied positions and velocities (the host
/// draws them at random), all with the same radius and no target to follow.
pub fn init_entities(positions: &Vec<Vec2i>, velocities: &Vec<Vec2i>, radius: i64) -> (r: Vec<Entity>)
    requires
        positions@.len() == velocities@.len(),
        1 <= radius <= RADIUS_LIMIT,
    ensures
        r@.len() == positions@.len(),
        forall|i: int|
            0 <= i < r@.len() ==> r@[i] == fresh_entity(positions@[i], velocities@[i], radius, false),
{
    let mut out: Vec<Entity> = Vec::new();
    let mut i: usize = 0;
    while i < positions.len()
        invariant
            positions@.len() == velocities@.len(),
            1 <= radius <= RADIUS_LIMIT,
            i <= positions@.len(),
            out@.len() == i,
            forall|k: int|
                0 <= k < i ==> out@[k] == fresh_entity(positions@[k], velocities@[k], radius, false),
        decreases positions@.len() - i,
    {
        let e = new_entity(positions[i], velocities[i], radius, false);
        out.push(e);
        i = i + 1;
    }
    out
}

} // verus!
