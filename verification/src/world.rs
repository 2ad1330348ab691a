use vstd::prelude::*;

use crate::body::{abs_le, fresh_entity, new_entity, wf_entity, Entity};
use crate::math::{
    vec2, Vec2i, ARENA_LIMIT, DELTA_LIMIT, FLASH_DURATION, FORCE_LIMIT, POS_LIMIT, RADIUS_LIMIT,
    SEEK_STRENGTH, VEL_LIMIT,
};
use crate::narrow::{all_lists_ok, check_collisions, overlapping};
use crate::resolve::{
    lemma_resolve_upto_flags, lemma_resolve_upto_props, resolve_all, resolve_collisions,
};
use crate::stages::{
    apply_seek, contain, contain_all, decay, decay_all, integrate, integrate_all, project,
    project_all, seek_all,
};

verus! {

/// The whole simulation: the body store and the arena it runs in. Owned by
/// the host, which drives it one `frame` at a time.
pub struct World {
    pub entities: Vec<Entity>,
    pub arena_width: i64,
    pub arena_height: i64,
    pub paused: bool,
}

/// Well-formedness that every frame re-establishes: a positive arena within
/// `ARENA_LIMIT`, and every entity within the store-wide bounds.
pub open spec fn wf_world(w: World) -> bool {
    &&& 0 < w.arena_width <= ARENA_LIMIT
    &&& 0 < w.arena_height <= ARENA_LIMIT
    &&& forall|k: int| 0 <= k < w.entities@.len() ==> wf_entity(#[trigger] w.entities@[k])
}

/// The velocity headroom one frame needs: forces folded in by this frame's
/// integration cannot push any component past `VEL_LIMIT`. A frame ensures
/// only `wf_world` back, not this: followers genuinely accelerate every
/// frame, so no fixed bound can be re-established by a contract. The host
/// re-checks this cheap bound before each call (as the bundled driver does)
/// and decides what to do with a runaway body — in practice speeds sit far
/// below it, and the resolver already skips any body beyond `VEL_GUARD`.
pub open spec fn frame_ready(w: World) -> bool {
    forall|k: int|
        0 <= k < w.entities@.len() ==> abs_le(
            (#[trigger] w.entities@[k]).body.velocity,
            VEL_LIMIT - FORCE_LIMIT - SEEK_STRENGTH,
        )
}

/// The store just before collision resolution: timers decayed, an optional
/// entity spawned, steering forces applied, motion integrated, and every body
/// contained in the arena. The broad and narrow phases run on this snapshot.
pub open spec fn pre_resolve(
    s: Seq<Entity>,
    w: int,
    h: int,
    delta: int,
    pointer: Vec2i,
    spawn: Option<(Vec2i, i64)>,
) -> Seq<Entity> {
    let s1 = decay_all(s, delta);
    let s2 = match spawn {
        Some(sp) => s1.push(fresh_entity(sp.0, Vec2i { x: 0, y: 0 }, sp.1, true)),
        None => s1,
    };
    contain_all(integrate_all(seek_all(s2, pointer, SEEK_STRENGTH as int), delta), w, h)
}

impl World {
    /// An empty arena of the given size, running (not paused).
    pub fn new(arena_width: i64, arena_height: i64) -> (w: World)
        requires
            0 < arena_width <= ARENA_LIMIT,
            0 < arena_height <= ARENA_LIMIT,
        ensures
            w.arena_width == arena_width,
            w.arena_height == arena_height,
            !w.paused,
            w.entities@.len() == 0,
            wf_world(w),
    {
        World { entities: Vec::new(), arena_width, arena_height, paused: false }
    }

    /// Spawns one body with no velocity that steers toward the pointer, as a
    /// user action does; the store only ever grows.
    pub fn spawn_follower(&mut self, position: Vec2i, radius: i64)
        requires
            abs_le(position, ARENA_LIMIT as int),
            1 <= radius <= RADIUS_LIMIT,
        ensures
            final(self).entities@ == old(self).entities@.push(
                fresh_entity(position, Vec2i { x: 0, y: 0 }, radius, true),
            ),
            final(self).arena_width == old(self).arena_width,
            final(self).arena_height == old(self).arena_height,
            final(self).paused == old(self).paused,
            wf_world(*old(self)) ==> wf_world(*final(self)),
    {
        let e = new_entity(position, vec2(0, 0), radius, true);
        self.entities.push(e);
    }

    /// The render-facing output of a frame, in store order: authoritative
    /// transform position, static visual size, this frame's collision flag,
    /// and the remaining highlight time for colour interpolation.
    pub fn render_states(&self) -> (r: Vec<(Vec2i, Vec2i, bool, i64)>)
        ensures
            r@.len() == self.entities@.len(),
            forall|k: int|
                0 <= k < r@.len() ==> #[trigger] r@[k] == (
                    self.entities@[k].transform.position,
                    self.entities@[k].transform.size,
                    self.entities@[k].is_colliding,
                    self.entities@[k].highlight_time_remaining,
                ),
    {
        let mut out: Vec<(Vec2i, Vec2i, bool, i64)> = Vec::new();
        let mut i: usize = 0;
        while i < self.entities.len()
            invariant
                i <= self.entities@.len(),
                out@.len() == i,
                forall|k: int|
                    0 <= k < i ==> #[trigger] out@[k] == (
                        self.entities@[k].transform.position,
                        self.entities@[k].transform.size,
                        self.entities@[k].is_colliding,
                        self.entities@[k].highlight_time_remaining,
                    ),
            decreases self.entities@.len() - i,
        {
            let e = &self.entities[i];
            out.push((e.transform.position, e.transform.size, e.is_colliding, e.highlight_time_remaining));
            i = i + 1;
        }
        out
    }

    /// One frame. A pause toggle is consumed first; a paused world does no
    /// physics and no index work. Otherwise the pipeline runs in order: decay
    /// timers, spawn, seek, integrate, contain, detect (broad phase and
    /// parallel narrow phase on the `pre_resolve` snapshot), resolve
    /// sequentially, project transforms. The candidate lists exist but their
    /// order is the index's own, so they are quantified, pinned down by
    /// `all_lists_ok`; and any entity flagged after the frame truly overlapped
    /// a partner at the start of resolution.
    pub fn frame(
        &mut self,
        delta: i64,
        pointer: Vec2i,
        pause_toggled: bool,
        spawn: Option<(Vec2i, i64)>,
    )
        requires
            wf_world(*old(self)),
            frame_ready(*old(self)),
            0 <= delta <= DELTA_LIMIT,
            abs_le(pointer, ARENA_LIMIT as int),
            spawn matches Some(sp) ==> abs_le(sp.0, ARENA_LIMIT as int) && 1 <= sp.1
                <= RADIUS_LIMIT,
        ensures
            final(self).arena_width == old(self).arena_width,
            final(self).arena_height == old(self).arena_height,
            final(self).paused == (if pause_toggled {
                !old(self).paused
            } else {
                old(self).paused
            }),
            final(self).paused ==> final(self).entities@ == old(self).entities@,
            !final(self).paused ==> {
                let pre = pre_resolve(
                    old(self).entities@,
                    old(self).arena_width as int,
                    old(self).arena_height as int,
                    delta as int,
                    pointer,
                    spawn,
                );
                &&& exists|colls: Seq<Vec<usize>>|
                    #[trigger] all_lists_ok(pre, colls) && final(self).entities@ == project_all(
                        resolve_all(pre, colls),
                    )
                &&& forall|k: int|
                    0 <= k < final(self).entities@.len() && (#[trigger] final(self).entities@[k]).is_colliding
                        ==> exists|j: int| overlapping(pre, k, j)
                &&& final(self).entities@.len() == old(self).entities@.len() + (
                if spawn is Some {
                    1int
                } else {
                    0int
                })
            },
            wf_world(*final(self)),
    {
        let ghost s0 = self.entities@;
        if pause_toggled {
            self.paused = !self.paused;
        }
        if self.paused {
            return ;
        }
        let w: i64 = self.arena_width;
        let h: i64 = self.arena_height;
        proof {
            assert forall|k: int| 0 <= k < s0.len() implies wf_entity(s0[k]) by {
                assert(wf_entity(s0[k]));
            }
        }
        decay(&mut self.entities, delta);
        match spawn {
            Some(sp) => {
                let e = new_entity(sp.0, vec2(0, 0), sp.1, true);
                self.entities.push(e);
            },
            None => {},
        }
        let ghost s2 = self.entities@;
        proof {
            assert forall|k: int|
                0 <= k < s2.len() implies abs_le(#[trigger] s2[k].body.position, POS_LIMIT as int)
                && abs_le(s2[k].body.force, FORCE_LIMIT as int) && abs_le(
                s2[k].body.velocity,
                VEL_LIMIT - FORCE_LIMIT - SEEK_STRENGTH,
            ) && 1 <= s2[k].body.radius <= RADIUS_LIMIT && s2[k].highlight_time_remaining
                <= FLASH_DURATION && !s2[k].is_colliding by {
                if k < s0.len() {
                    assert(wf_entity(s0[k]));
                    assert(abs_le(s0[k].body.velocity, VEL_LIMIT - FORCE_LIMIT - SEEK_STRENGTH));
                }
            }
        }
        apply_seek(&mut self.entities, pointer, SEEK_STRENGTH);
        let ghost s3 = self.entities@;
        proof {
            assert forall|k: int|
                0 <= k < s3.len() implies abs_le(#[trigger] s3[k].body.position, POS_LIMIT as int)
                && abs_le(s3[k].body.velocity, VEL_LIMIT as int) && 1 <= s3[k].body.radius
                <= RADIUS_LIMIT by {
                assert(s3[k] == crate::stages::seek_entity(s2[k], pointer, SEEK_STRENGTH as int));
            }
        }
        integrate(&mut self.entities, delta);
        let ghost s4 = self.entities@;
        proof {
            assert forall|k: int|
                0 <= k < s4.len() implies 1 <= (#[trigger] s4[k]).body.radius <= RADIUS_LIMIT
                && abs_le(s4[k].body.velocity, VEL_LIMIT as int) by {
                assert(s4[k] == crate::stages::integrate_entity(s3[k], delta as int));
                assert(abs_le(s3[k].body.velocity, VEL_LIMIT - FORCE_LIMIT - SEEK_STRENGTH));
                assert(abs_le(s3[k].body.force, FORCE_LIMIT + SEEK_STRENGTH));
            }
        }
        contain(&mut self.entities, w, h);
        let ghost pre = self.entities@;
        proof {
            assert(pre == pre_resolve(s0, w as int, h as int, delta as int, pointer, spawn));
            assert forall|k: int|
                0 <= k < pre.len() implies abs_le(
                #[trigger] pre[k].body.position,
                crate::math::POS_GUARD as int,
            ) && abs_le(pre[k].body.position, POS_LIMIT as int) && abs_le(
                pre[k].body.velocity,
                VEL_LIMIT as int,
            ) && 1 <= pre[k].body.radius <= RADIUS_LIMIT && abs_le(
                pre[k].body.force,
                FORCE_LIMIT as int,
            ) && pre[k].highlight_time_remaining <= FLASH_DURATION && !pre[k].is_colliding by {
                assert(pre[k] == crate::stages::contain_entity(s4[k], w as int, h as int));
                assert(s4[k] == crate::stages::integrate_entity(s3[k], delta as int));
                assert(s3[k] == crate::stages::seek_entity(s2[k], pointer, SEEK_STRENGTH as int));
                assert(abs_le(pre[k].body.position, ARENA_LIMIT + RADIUS_LIMIT));
            }
        }
        let colls = check_collisions(&self.entities);
        resolve_collisions(&mut self.entities, &colls);
        let ghost after = self.entities@;
        proof {
            lemma_resolve_upto_props(pre, colls@, colls@.len() as int);
            lemma_resolve_upto_flags(pre, colls@, colls@.len() as int);
        }
        project(&mut self.entities);
        proof {
            let fin = self.entities@;
            assert(all_lists_ok(pre, colls@) && fin == project_all(
                resolve_all(pre, colls@),
            ));
            assert forall|k: int|
                0 <= k < fin.len() && (#[trigger] fin[k]).is_colliding implies exists|j: int|
                overlapping(pre, k, j) by {
                assert(fin[k] == crate::stages::project_entity(after[k]));
                assert(after[k].is_colliding);
            }
            assert forall|k: int| 0 <= k < fin.len() implies wf_entity(#[trigger] fin[k]) by {
                assert(fin[k] == crate::stages::project_entity(after[k]));
                assert(abs_le(after[k].body.position, POS_LIMIT as int));
                assert(abs_le(after[k].body.velocity, VEL_LIMIT as int));
                assert(after[k].body.force == pre[k].body.force);
                assert(after[k].body.radius == pre[k].body.radius);
                assert(after[k].highlight_time_remaining == pre[k].highlight_time_remaining
                    || after[k].highlight_time_remaining == FLASH_DURATION);
            }
        }
    }
}

} // verus!
