use vstd::prelude::*;

use crate::body::{abs_le, Body, Entity};
use crate::narrow::{candidate_list_ok, overlapping};
use crate::math::{
    abs_i, cdivp, sqrt_of, tdiv, Vec2i, FLASH_DURATION, POS_GUARD, POS_LIMIT, RADIUS_LIMIT,
    VEL_GUARD, VEL_LIMIT,
};
use crate::math::{
    div_i128, isqrt_u128, lemma_abs_square, lemma_cdivp_bounds, lemma_mul_bound,
    lemma_scaled_bound, lemma_sqrt_lower, lemma_sqrt_of, lemma_sqrt_unique, lemma_sqrt_upper,
    lemma_tdiv_bounded, lemma_tdiv_sign,
};
use crate::narrow::dist_sq;

verus! {

/// An entity marked as colliding this frame, its highlight timer restarted.
pub open spec fn flash(e: Entity) -> Entity {
    Entity { is_colliding: true, highlight_time_remaining: FLASH_DURATION, ..e }
}

/// The geometry guard of the resolver: radii in range and positions within
/// `POS_GUARD`. A pair that fails it is flagged but not moved (a guarded skip
/// instead of a fault).
pub open spec fn geom_ok(a: Entity, b: Entity) -> bool {
    &&& 1 <= a.body.radius <= RADIUS_LIMIT
    &&& 1 <= b.body.radius <= RADIUS_LIMIT
    &&& abs_le(a.body.position, POS_GUARD as int)
    &&& abs_le(b.body.position, POS_GUARD as int)
}

/// The velocity guard of the impulse: a pair with a component beyond
/// `VEL_GUARD` keeps its velocities (a guarded skip).
pub open spec fn vel_ok(a: Entity, b: Entity) -> bool {
    abs_le(a.body.velocity, VEL_GUARD as int) && abs_le(b.body.velocity, VEL_GUARD as int)
}

/// The entity displaced by `(ax, ay)`.
pub open spec fn moved(e: Entity, ax: int, ay: int) -> Entity {
    Entity {
        body: Body {
            position: Vec2i {
                x: (e.body.position.x + ax) as i64,
                y: (e.body.position.y + ay) as i64,
            },
            ..e.body
        },
        ..e
    }
}

/// The entity with `(ax, ay)` added to its velocity.
pub open spec fn kicked(e: Entity, ax: int, ay: int) -> Entity {
    Entity {
        body: Body {
            velocity: Vec2i {
                x: (e.body.velocity.x + ax) as i64,
                y: (e.body.velocity.y + ay) as i64,
            },
            ..e.body
        },
        ..e
    }
}

/// The positional displacement of one visit: `push` scaled along the unit
/// direction `(ux, uy) / den`, rounded toward zero componentwise — except
/// that a positive push whose both components would round away is turned
/// into one unit along the dominant axis, so a strictly overlapping visit
/// always moves somebody.
pub open spec fn push_vec(ux: int, uy: int, den: int, push: int) -> (int, int) {
    let mx: int = tdiv(ux * push, den);
    let my: int = tdiv(uy * push, den);
    if push > 0 && mx == 0 && my == 0 {
        if abs_i(ux) >= abs_i(uy) {
            ((if ux >= 0 { 1int } else { -1int }), 0int)
        } else {
            (0int, (if uy >= 0 { 1int } else { -1int }))
        }
    } else {
        (mx, my)
    }
}

/// The displacement components never exceed the push, point with (or against)
/// the direction they scale, and a positive push never vanishes entirely.
pub proof fn lemma_push_vec_props(ux: int, uy: int, den: int, push: int)
    requires
        den > 0,
        abs_i(ux) <= den,
        abs_i(uy) <= den,
        0 <= push,
    ensures
        abs_i(push_vec(ux, uy, den, push).0) <= push,
        abs_i(push_vec(ux, uy, den, push).1) <= push,
        ux * push_vec(ux, uy, den, push).0 >= 0,
        uy * push_vec(ux, uy, den, push).1 >= 0,
        push >= 1 ==> !(push_vec(ux, uy, den, push).0 == 0 && push_vec(ux, uy, den, push).1
            == 0),
{
    let mx: int = tdiv(ux * push, den);
    let my: int = tdiv(uy * push, den);
    lemma_scaled_bound(ux, push, den);
    lemma_scaled_bound(uy, push, den);
    lemma_tdiv_sign(ux * push, den);
    lemma_tdiv_sign(uy * push, den);
    if ux >= 0 {
        assert(ux * push >= 0) by (nonlinear_arith)
            requires
                ux >= 0,
                push >= 0,
        ;
        assert(ux * mx >= 0) by (nonlinear_arith)
            requires
                ux >= 0,
                mx >= 0,
        ;
    } else {
        assert(ux * push <= 0) by (nonlinear_arith)
            requires
                ux <= 0,
                push >= 0,
        ;
        assert(ux * mx >= 0) by (nonlinear_arith)
            requires
                ux <= 0,
                mx <= 0,
        ;
    }
    if uy >= 0 {
        assert(uy * push >= 0) by (nonlinear_arith)
            requires
                uy >= 0,
                push >= 0,
        ;
        assert(uy * my >= 0) by (nonlinear_arith)
            requires
                uy >= 0,
                my >= 0,
        ;
    } else {
        assert(uy * push <= 0) by (nonlinear_arith)
            requires
                uy <= 0,
                push >= 0,
        ;
        assert(uy * my >= 0) by (nonlinear_arith)
            requires
                uy <= 0,
                my <= 0,
        ;
    }
    if push > 0 && mx == 0 && my == 0 {
        let pv = push_vec(ux, uy, den, push);
        if abs_i(ux) >= abs_i(uy) {
            assert(pv.1 == 0);
            assert(ux * pv.0 >= 0) by (nonlinear_arith)
                requires
                    (ux >= 0 && pv.0 == 1) || (ux < 0 && pv.0 == -1),
            ;
            assert(uy * pv.1 == 0) by (nonlinear_arith)
                requires
                    pv.1 == 0,
            ;
        } else {
            assert(pv.0 == 0);
            assert(uy * pv.1 >= 0) by (nonlinear_arith)
                requires
                    (uy >= 0 && pv.1 == 1) || (uy < 0 && pv.1 == -1),
            ;
            assert(ux * pv.0 == 0) by (nonlinear_arith)
                requires
                    pv.0 == 0,
            ;
        }
    }
}

/// One directional visit of the candidate pair `(i, j)`:
/// - both entities are flagged as colliding and their highlight restarts;
/// - the penetration `r_i + r_j - dist` is recomputed from the current
///   positions; an already separated pair (negative penetration) is left;
/// - positional correction along the unit direction from `i` to `j` (a fixed
///   `(1, 0)` when the centers coincide): the smaller body yields, moving by
///   `penetration * other_radius / (r_i + r_j)` rounded up, and by at least
///   one unit along the dominant axis, so sub-unit corrections never round
///   away and a strictly overlapping visit always separates; on the visit
///   from the other side the larger body yields, so the pair separates
///   without double-counting;
/// - an equal-mass impulse with restitution one exchanges the normal velocity
///   components, applied only when the pair is approaching (negative relative
///   normal velocity), so the second directional visit never re-applies it.
/// The push rounds up, every other division rounds toward zero; out-of-range
/// indices leave the store unchanged.
pub open spec fn resolve_pair(s: Seq<Entity>, i: int, j: int) -> Seq<Entity> {
    if !(0 <= i < s.len() && 0 <= j < s.len() && i != j) {
        s
    } else {
        let e1 = s[i];
        let e2 = s[j];
        let s2 = s.update(i, flash(e1)).update(j, flash(e2));
        if !geom_ok(e1, e2) {
            s2
        } else {
            let dx: int = e2.body.position.x - e1.body.position.x;
            let dy: int = e2.body.position.y - e1.body.position.y;
            let dist: int = sqrt_of(dx * dx + dy * dy);
            let rsum: int = e1.body.radius + e2.body.radius;
            let pen: int = rsum - dist;
            if pen < 0 {
                s2
            } else {
                let ux: int = if dist == 0 { 1 } else { dx };
                let uy: int = if dist == 0 { 0 } else { dy };
                let den: int = if dist == 0 { 1 } else { dist };
                let s3 = if e1.body.radius < e2.body.radius {
                    let push: int = cdivp(pen * e2.body.radius, rsum);
                    let mv = push_vec(ux, uy, den, push);
                    s2.update(i, moved(s2[i], -mv.0, -mv.1))
                } else {
                    let push: int = cdivp(pen * e1.body.radius, rsum);
                    let mv = push_vec(ux, uy, den, push);
                    s2.update(j, moved(s2[j], mv.0, mv.1))
                };
                if !vel_ok(e1, e2) {
                    s3
                } else {
                    let vnn: int = (e2.body.velocity.x - e1.body.velocity.x) * ux + (
                    e2.body.velocity.y - e1.body.velocity.y) * uy;
                    if vnn >= 0 {
                        s3
                    } else {
                        let vn: int = tdiv(vnn, den);
                        let dvx: int = tdiv(vn * ux, den);
                        let dvy: int = tdiv(vn * uy, den);
                        s3.update(i, kicked(s3[i], dvx, dvy)).update(
                            j,
                            kicked(s3[j], -dvx, -dvy),
                        )
                    }
                }
            }
        }
    }
}

/// The store after the first `m` partners in `i`'s candidate list.
pub open spec fn resolve_list_upto(s: Seq<Entity>, i: int, cols: Seq<usize>, m: int) -> Seq<Entity>
    decreases m,
{
    if m <= 0 {
        s
    } else {
        resolve_pair(resolve_list_upto(s, i, cols, m - 1), i, cols[m - 1] as int)
    }
}

/// The store after every partner in `i`'s candidate list, in list order.
pub open spec fn resolve_list(s: Seq<Entity>, i: int, cols: Seq<usize>) -> Seq<Entity> {
    resolve_list_upto(s, i, cols, cols.len() as int)
}

/// The store after the candidate lists of bodies `0 .. k`.
pub open spec fn resolve_upto(s: Seq<Entity>, colls: Seq<Vec<usize>>, k: int) -> Seq<Entity>
    decreases k,
{
    if k <= 0 {
        s
    } else {
        resolve_list(resolve_upto(s, colls, k - 1), k - 1, colls[k - 1]@)
    }
}

/// The store after sequentially resolving every candidate list in order:
/// list `i` holds the partners of body `i`, and both directions of a pair are
/// visited.
pub open spec fn resolve_all(s: Seq<Entity>, colls: Seq<Vec<usize>>) -> Seq<Entity> {
    resolve_upto(s, colls, colls.len() as int)
}

/// One directional pair resolution, exactly `resolve_pair`.
#[verifier::rlimit(100)]
pub fn resolve_pair_step(entities: &mut Vec<Entity>, i: usize, j: usize)
    ensures
        final(entities)@ == resolve_pair(old(entities)@, i as int, j as int),
{
    let ghost s0 = entities@;
    if i >= entities.len() || j >= entities.len() || i == j {
        return ;
    }
    let e1 = entities[i];
    let e2 = entities[j];
    entities[i] = Entity { is_colliding: true, highlight_time_remaining: FLASH_DURATION, ..e1 };
    entities[j] = Entity { is_colliding: true, highlight_time_remaining: FLASH_DURATION, ..e2 };
    let ghost s2 = entities@;
    proof {
        assert(s2 =~= s0.update(i as int, flash(e1)).update(j as int, flash(e2)));
    }
    let r1: i64 = e1.body.radius;
    let r2: i64 = e2.body.radius;
    let geom = 1 <= r1 && r1 <= RADIUS_LIMIT && 1 <= r2 && r2 <= RADIUS_LIMIT && abs_le_check(
        e1.body.position,
        POS_GUARD,
    ) && abs_le_check(e2.body.position, POS_GUARD);
    if !geom {
        assert(!geom_ok(e1, e2));
        return ;
    }
    assert(geom_ok(e1, e2));
    let dx: i64 = e2.body.position.x - e1.body.position.x;
    let dy: i64 = e2.body.position.y - e1.body.position.y;
    proof {
        lemma_abs_square(dx as int);
        lemma_abs_square(dy as int);
        lemma_mul_bound(dx as int, dx as int, 2_200_000_000, 2_200_000_000);
        lemma_mul_bound(dy as int, dy as int, 2_200_000_000, 2_200_000_000);
    }
    let d2: i128 = (dx as i128) * (dx as i128) + (dy as i128) * (dy as i128);
    let dist_u: u64 = isqrt_u128(d2 as u128);
    proof {
        lemma_sqrt_of(d2 as int);
        lemma_sqrt_unique(d2 as int, dist_u as int, sqrt_of(d2 as int));
        lemma_sqrt_upper(d2 as int, dist_u as int, 3_200_000_000);
        lemma_sqrt_lower(d2 as int, dist_u as int, abs_i(dx as int));
        lemma_sqrt_lower(d2 as int, dist_u as int, abs_i(dy as int));
    }
    let dist: i64 = dist_u as i64;
    let pen: i64 = r1 + r2 - dist;
    if pen < 0 {
        return ;
    }
    let ux: i64 = if dist == 0 { 1 } else { dx };
    let uy: i64 = if dist == 0 { 0 } else { dy };
    let den: i64 = if dist == 0 { 1 } else { dist };
    assert(abs_i(ux as int) <= den as int);
    assert(abs_i(uy as int) <= den as int);
    let rsum: i64 = r1 + r2;
    // positional correction: the smaller-or-equal body of this visit yields
    if r1 < r2 {
        proof {
            lemma_mul_bound(pen as int, r2 as int, 2_000_000, 1_000_000);
            assert(pen as int * r2 as int >= 0) by (nonlinear_arith)
                requires
                    pen >= 0,
                    r2 >= 0,
            ;
            lemma_cdivp_bounds(pen as int, r2 as int, rsum as int);
        }
        let push: i64 = div_i128(
            (pen as i128) * (r2 as i128) + (rsum as i128) - 1,
            rsum as i128,
        ) as i64;
        let mv = push_displacement(ux, uy, den, push);
        let cur = entities[i];
        entities[i] = Entity {
            body: Body {
                position: Vec2i { x: cur.body.position.x - mv.0, y: cur.body.position.y - mv.1 },
                ..cur.body
            },
            ..cur
        };
    } else {
        proof {
            lemma_mul_bound(pen as int, r1 as int, 2_000_000, 1_000_000);
            assert(pen as int * r1 as int >= 0) by (nonlinear_arith)
                requires
                    pen >= 0,
                    r1 >= 0,
            ;
            lemma_cdivp_bounds(pen as int, r1 as int, rsum as int);
        }
        let push: i64 = div_i128(
            (pen as i128) * (r1 as i128) + (rsum as i128) - 1,
            rsum as i128,
        ) as i64;
        let mv = push_displacement(ux, uy, den, push);
        let cur = entities[j];
        entities[j] = Entity {
            body: Body {
                position: Vec2i { x: cur.body.position.x + mv.0, y: cur.body.position.y + mv.1 },
                ..cur.body
            },
            ..cur
        };
    }
    let ghost s3 = entities@;
    // impulse: exchange the normal velocity components when approaching
    let velg = abs_le_check(e1.body.velocity, VEL_GUARD) && abs_le_check(
        e2.body.velocity,
        VEL_GUARD,
    );
    if !velg {
        assert(!vel_ok(e1, e2));
        return ;
    }
    assert(vel_ok(e1, e2));
    let vrx: i64 = e2.body.velocity.x - e1.body.velocity.x;
    let vry: i64 = e2.body.velocity.y - e1.body.velocity.y;
    proof {
        lemma_mul_bound(vrx as int, ux as int, 2_000_000_000, 2_200_000_000);
        lemma_mul_bound(vry as int, uy as int, 2_000_000_000, 2_200_000_000);
        lemma_mul_bound(vrx as int, ux as int, 2_000_000_000, den as int);
        lemma_mul_bound(vry as int, uy as int, 2_000_000_000, den as int);
    }
    let vnn: i128 = (vrx as i128) * (ux as i128) + (vry as i128) * (uy as i128);
    if vnn >= 0 {
        return ;
    }
    proof {
        lemma_tdiv_bounded(vnn as int, den as int, 4_000_000_000);
    }
    let vn: i64 = div_i128(vnn, den as i128) as i64;
    proof {
        lemma_mul_bound(vn as int, ux as int, 4_000_000_000, 2_200_000_000);
        lemma_mul_bound(vn as int, uy as int, 4_000_000_000, 2_200_000_000);
        lemma_mul_bound(vn as int, ux as int, 4_000_000_000, den as int);
        lemma_mul_bound(vn as int, uy as int, 4_000_000_000, den as int);
        lemma_tdiv_bounded(vn as int * ux as int, den as int, 4_000_000_000);
        lemma_tdiv_bounded(vn as int * uy as int, den as int, 4_000_000_000);
    }
    let dvx: i64 = div_i128((vn as i128) * (ux as i128), den as i128) as i64;
    let dvy: i64 = div_i128((vn as i128) * (uy as i128), den as i128) as i64;
    let ci = entities[i];
    entities[i] = Entity {
        body: Body {
            velocity: Vec2i { x: ci.body.velocity.x + dvx, y: ci.body.velocity.y + dvy },
            ..ci.body
        },
        ..ci
    };
    let cj = entities[j];
    entities[j] = Entity {
        body: Body {
            velocity: Vec2i { x: cj.body.velocity.x - dvx, y: cj.body.velocity.y - dvy },
            ..cj.body
        },
        ..cj
    };
    proof {
        assert(entities@ =~= resolve_pair(s0, i as int, j as int));
    }
}

/// Computes `push_vec` for this visit's direction and push.
pub fn push_displacement(ux: i64, uy: i64, den: i64, push: i64) -> (r: (i64, i64))
    requires
        den > 0,
        abs_i(ux as int) <= den,
        abs_i(uy as int) <= den,
        abs_i(ux as int) <= 2_200_000_000,
        abs_i(uy as int) <= 2_200_000_000,
        0 <= push <= 2 * RADIUS_LIMIT,
    ensures
        (r.0 as int, r.1 as int) == push_vec(ux as int, uy as int, den as int, push as int),
        abs_i(r.0 as int) <= push,
        abs_i(r.1 as int) <= push,
{
    proof {
        lemma_push_vec_props(ux as int, uy as int, den as int, push as int);
        lemma_mul_bound(ux as int, push as int, 2_200_000_000, 2 * RADIUS_LIMIT);
        lemma_mul_bound(uy as int, push as int, 2_200_000_000, 2 * RADIUS_LIMIT);
        lemma_scaled_bound(ux as int, push as int, den as int);
        lemma_scaled_bound(uy as int, push as int, den as int);
    }
    let mx: i64 = div_i128((ux as i128) * (push as i128), den as i128) as i64;
    let my: i64 = div_i128((uy as i128) * (push as i128), den as i128) as i64;
    if push > 0 && mx == 0 && my == 0 {
        let ax: i64 = if ux >= 0 { ux } else { -ux };
        let ay: i64 = if uy >= 0 { uy } else { -uy };
        if ax >= ay {
            (if ux >= 0 { 1 } else { -1 }, 0)
        } else {
            (0, if uy >= 0 { 1 } else { -1 })
        }
    } else {
        (mx, my)
    }
}

/// Exact test that both components of `v` have magnitude at most `cap`.
pub fn abs_le_check(v: Vec2i, cap: i64) -> (b: bool)
    requires
        cap >= 0,
    ensures
        b == abs_le(v, cap as int),
{
    -cap <= v.x && v.x <= cap && -cap <= v.y && v.y <= cap
}

/// Resolves every candidate list sequentially (list order, then owner order),
/// so cross-pair interaction is deterministic and needs no locking.
pub fn resolve_collisions(entities: &mut Vec<Entity>, collisions: &Vec<Vec<usize>>)
    ensures
        final(entities)@ == resolve_all(old(entities)@, collisions@),
{
    let ghost s0 = entities@;
    let mut k: usize = 0;
    while k < collisions.len()
        invariant
            k <= collisions@.len(),
            entities@ == resolve_upto(s0, collisions@, k as int),
        decreases collisions@.len() - k,
    {
        let ghost sk = entities@;
        let mut m: usize = 0;
        let cols_len: usize = collisions[k].len();
        while m < cols_len
            invariant
                k < collisions@.len(),
                m <= collisions@[k as int]@.len(),
                cols_len == collisions@[k as int]@.len(),
                entities@ == resolve_list_upto(sk, k as int, collisions@[k as int]@, m as int),
            decreases cols_len - m,
        {
            let j: usize = collisions[k][m];
            resolve_pair_step(entities, k, j);
            m = m + 1;
        }
        proof {
            assert(entities@ == resolve_list(sk, k as int, collisions@[k as int]@));
            assert(resolve_upto(s0, collisions@, k as int + 1) == resolve_list(
                resolve_upto(s0, collisions@, k as int),
                k as int,
                collisions@[k as int]@,
            ));
        }
        k = k + 1;
    }
}


/// What one pair visit can and cannot change: the store keeps its length;
/// radii, follow flags, transforms, forces are untouched; only the two
/// visited entities gain a collision flag; a highlight timer is either kept
/// or restarted; and positions within `POS_LIMIT` and velocities within
/// `VEL_LIMIT` stay within them (the resolver's guards see to it).
#[verifier::rlimit(100)]
pub proof fn lemma_resolve_pair_props(s: Seq<Entity>, i: int, j: int)
    ensures
        resolve_pair(s, i, j).len() == s.len(),
        forall|k: int|
            0 <= k < s.len() ==> {
                let r = #[trigger] resolve_pair(s, i, j)[k];
                &&& r.body.radius == s[k].body.radius
                &&& r.follow_target == s[k].follow_target
                &&& r.transform == s[k].transform
                &&& r.body.force == s[k].body.force
                &&& (r.is_colliding ==> s[k].is_colliding || k == i || k == j)
                &&& (r.highlight_time_remaining == s[k].highlight_time_remaining
                    || r.highlight_time_remaining == FLASH_DURATION)
            },
        (forall|k: int|
            0 <= k < s.len() ==> abs_le(#[trigger] s[k].body.position, POS_LIMIT as int) && abs_le(
                s[k].body.velocity,
                VEL_LIMIT as int,
            )) ==> forall|k: int|
            0 <= k < s.len() ==> abs_le(
                #[trigger] resolve_pair(s, i, j)[k].body.position,
                POS_LIMIT as int,
            ) && abs_le(resolve_pair(s, i, j)[k].body.velocity, VEL_LIMIT as int),
{
    let hyp = forall|k: int|
        0 <= k < s.len() ==> abs_le(#[trigger] s[k].body.position, POS_LIMIT as int) && abs_le(
            s[k].body.velocity,
            VEL_LIMIT as int,
        );
    if 0 <= i < s.len() && 0 <= j < s.len() && i != j {
        let e1 = s[i];
        let e2 = s[j];
        if geom_ok(e1, e2) {
            let dx: int = e2.body.position.x - e1.body.position.x;
            let dy: int = e2.body.position.y - e1.body.position.y;
            lemma_abs_square(dx);
            lemma_abs_square(dy);
            let n: int = dx * dx + dy * dy;
            lemma_sqrt_of(n);
            let dist: int = sqrt_of(n);
            lemma_sqrt_lower(n, dist, abs_i(dx));
            lemma_sqrt_lower(n, dist, abs_i(dy));
            let rsum: int = e1.body.radius + e2.body.radius;
            let pen: int = rsum - dist;
            if pen >= 0 {
                let ux: int = if dist == 0 { 1 } else { dx };
                let uy: int = if dist == 0 { 0 } else { dy };
                let den: int = if dist == 0 { 1 } else { dist };
                assert(abs_i(ux) <= den);
                assert(abs_i(uy) <= den);
                let rbig: int = if e1.body.radius < e2.body.radius {
                    e2.body.radius as int
                } else {
                    e1.body.radius as int
                };
                lemma_cdivp_bounds(pen, rbig, rsum);
                let push: int = cdivp(pen * rbig, rsum);
                lemma_push_vec_props(ux, uy, den, push);
                assert(0 <= push <= pen);
                assert(abs_i(push_vec(ux, uy, den, push).0) <= push);
                assert(abs_i(push_vec(ux, uy, den, push).1) <= push);
                assert(e1.body.radius < e2.body.radius ==> push == cdivp(
                    pen * e2.body.radius,
                    rsum,
                ));
                assert(e1.body.radius >= e2.body.radius ==> push == cdivp(
                    pen * e1.body.radius,
                    rsum,
                ));
                if vel_ok(e1, e2) {
                    let vnn: int = (e2.body.velocity.x - e1.body.velocity.x) * ux + (
                    e2.body.velocity.y - e1.body.velocity.y) * uy;
                    if vnn < 0 {
                        lemma_mul_bound(
                            e2.body.velocity.x - e1.body.velocity.x,
                            ux,
                            2_000_000_000,
                            den,
                        );
                        lemma_mul_bound(
                            e2.body.velocity.y - e1.body.velocity.y,
                            uy,
                            2_000_000_000,
                            den,
                        );
                        lemma_tdiv_bounded(vnn, den, 4_000_000_000);
                        let vn: int = tdiv(vnn, den);
                        lemma_mul_bound(vn, ux, 4_000_000_000, den);
                        lemma_mul_bound(vn, uy, 4_000_000_000, den);
                        lemma_tdiv_bounded(vn * ux, den, 4_000_000_000);
                        lemma_tdiv_bounded(vn * uy, den, 4_000_000_000);
                    }
                }
                if hyp {
                    assert forall|k: int| 0 <= k < s.len() implies abs_le(
                        #[trigger] resolve_pair(s, i, j)[k].body.position,
                        POS_LIMIT as int,
                    ) && abs_le(resolve_pair(s, i, j)[k].body.velocity, VEL_LIMIT as int) by {
                        assert(abs_le(s[k].body.position, POS_LIMIT as int));
                        assert(abs_le(s[k].body.velocity, VEL_LIMIT as int));
                        assert(abs_le(s[i].body.position, POS_LIMIT as int));
                        assert(abs_le(s[j].body.position, POS_LIMIT as int));
                        assert(abs_le(s[i].body.velocity, VEL_LIMIT as int));
                        assert(abs_le(s[j].body.velocity, VEL_LIMIT as int));
                    }
                }
            } else {
                if hyp {
                    assert forall|k: int| 0 <= k < s.len() implies abs_le(
                        #[trigger] resolve_pair(s, i, j)[k].body.position,
                        POS_LIMIT as int,
                    ) && abs_le(resolve_pair(s, i, j)[k].body.velocity, VEL_LIMIT as int) by {
                        assert(abs_le(s[k].body.position, POS_LIMIT as int));
                        assert(abs_le(s[k].body.velocity, VEL_LIMIT as int));
                        assert(abs_le(s[i].body.position, POS_LIMIT as int));
                        assert(abs_le(s[j].body.position, POS_LIMIT as int));
                    }
                }
            }
        } else {
            if hyp {
                assert forall|k: int| 0 <= k < s.len() implies abs_le(
                    #[trigger] resolve_pair(s, i, j)[k].body.position,
                    POS_LIMIT as int,
                ) && abs_le(resolve_pair(s, i, j)[k].body.velocity, VEL_LIMIT as int) by {
                    assert(abs_le(s[k].body.position, POS_LIMIT as int));
                    assert(abs_le(s[k].body.velocity, VEL_LIMIT as int));
                    assert(abs_le(s[i].body.position, POS_LIMIT as int));
                    assert(abs_le(s[j].body.position, POS_LIMIT as int));
                }
            }
        }
    }
}

/// `lemma_resolve_pair_props` folded over a whole candidate list: the same
/// preservations hold, and only the list's owner `i` and its listed partners
/// can gain a collision flag.
pub proof fn lemma_resolve_list_props(s: Seq<Entity>, i: int, cols: Seq<usize>, m: int)
    ensures
        resolve_list_upto(s, i, cols, m).len() == s.len(),
        forall|k: int|
            0 <= k < s.len() ==> {
                let r = #[trigger] resolve_list_upto(s, i, cols, m)[k];
                &&& r.body.radius == s[k].body.radius
                &&& r.follow_target == s[k].follow_target
                &&& r.transform == s[k].transform
                &&& r.body.force == s[k].body.force
                &&& (r.is_colliding ==> s[k].is_colliding || (m > 0 && k == i) || exists|m2: int|
                    0 <= m2 < m && k == #[trigger] cols[m2] as int)
                &&& (r.highlight_time_remaining == s[k].highlight_time_remaining
                    || r.highlight_time_remaining == FLASH_DURATION)
            },
        (forall|k: int|
            0 <= k < s.len() ==> abs_le(#[trigger] s[k].body.position, POS_LIMIT as int) && abs_le(
                s[k].body.velocity,
                VEL_LIMIT as int,
            )) ==> forall|k: int|
            0 <= k < s.len() ==> abs_le(
                #[trigger] resolve_list_upto(s, i, cols, m)[k].body.position,
                POS_LIMIT as int,
            ) && abs_le(resolve_list_upto(s, i, cols, m)[k].body.velocity, VEL_LIMIT as int),
    decreases m,
{
    if m > 0 {
        lemma_resolve_list_props(s, i, cols, m - 1);
        let prev = resolve_list_upto(s, i, cols, m - 1);
        lemma_resolve_pair_props(prev, i, cols[m - 1] as int);
        assert forall|k: int|
            0 <= k < s.len() && #[trigger] resolve_list_upto(s, i, cols, m)[k].is_colliding
                && !s[k].is_colliding && !(m > 0 && k == i) implies exists|m2: int|
            0 <= m2 < m && k == #[trigger] cols[m2] as int by {
            if prev[k].is_colliding {
                let m2 = choose|m2: int| 0 <= m2 < m - 1 && k == #[trigger] cols[m2] as int;
                assert(0 <= m2 < m && k == cols[m2] as int);
            } else {
                assert(k == cols[m - 1] as int);
            }
        }
    }
}

/// The list lemma folded over the lists of the first `t` bodies.
pub proof fn lemma_resolve_upto_props(s: Seq<Entity>, colls: Seq<Vec<usize>>, t: int)
    ensures
        resolve_upto(s, colls, t).len() == s.len(),
        forall|k: int|
            0 <= k < s.len() ==> {
                let r = #[trigger] resolve_upto(s, colls, t)[k];
                &&& r.body.radius == s[k].body.radius
                &&& r.follow_target == s[k].follow_target
                &&& r.transform == s[k].transform
                &&& r.body.force == s[k].body.force
                &&& (r.highlight_time_remaining == s[k].highlight_time_remaining
                    || r.highlight_time_remaining == FLASH_DURATION)
            },
        (forall|k: int|
            0 <= k < s.len() ==> abs_le(#[trigger] s[k].body.position, POS_LIMIT as int) && abs_le(
                s[k].body.velocity,
                VEL_LIMIT as int,
            )) ==> forall|k: int|
            0 <= k < s.len() ==> abs_le(
                #[trigger] resolve_upto(s, colls, t)[k].body.position,
                POS_LIMIT as int,
            ) && abs_le(resolve_upto(s, colls, t)[k].body.velocity, VEL_LIMIT as int),
    decreases t,
{
    if t > 0 {
        lemma_resolve_upto_props(s, colls, t - 1);
        lemma_resolve_list_props(resolve_upto(s, colls, t - 1), t - 1, colls[t - 1]@, colls[t - 1]@.len() as int);
    }
}

/// Momentum is conserved exactly by every pair visit: the impulse adds to
/// one body exactly what it removes from the other, and positional correction
/// leaves velocities alone, so the sum of the two velocities never changes
/// (and no other body's velocity is touched at all).
#[verifier::rlimit(100)]
pub proof fn lemma_resolve_pair_momentum(s: Seq<Entity>, i: int, j: int)
    requires
        0 <= i < s.len(),
        0 <= j < s.len(),
        i != j,
    ensures
        resolve_pair(s, i, j)[i].body.velocity.x + resolve_pair(s, i, j)[j].body.velocity.x == s[i].body.velocity.x
            + s[j].body.velocity.x,
        resolve_pair(s, i, j)[i].body.velocity.y + resolve_pair(s, i, j)[j].body.velocity.y == s[i].body.velocity.y
            + s[j].body.velocity.y,
        forall|k: int|
            0 <= k < s.len() && k != i && k != j ==> (#[trigger] resolve_pair(s, i, j)[k]).body.velocity
                == s[k].body.velocity,
{
    let e1 = s[i];
    let e2 = s[j];
    if geom_ok(e1, e2) {
        let dx: int = e2.body.position.x - e1.body.position.x;
        let dy: int = e2.body.position.y - e1.body.position.y;
        lemma_abs_square(dx);
        lemma_abs_square(dy);
        let n: int = dx * dx + dy * dy;
        lemma_sqrt_of(n);
        let dist: int = sqrt_of(n);
        lemma_sqrt_lower(n, dist, abs_i(dx));
        lemma_sqrt_lower(n, dist, abs_i(dy));
        let rsum: int = e1.body.radius + e2.body.radius;
        let pen: int = rsum - dist;
        if pen >= 0 {
            let ux: int = if dist == 0 { 1 } else { dx };
            let uy: int = if dist == 0 { 0 } else { dy };
            let den: int = if dist == 0 { 1 } else { dist };
            if vel_ok(e1, e2) {
                let vnn: int = (e2.body.velocity.x - e1.body.velocity.x) * ux + (
                e2.body.velocity.y - e1.body.velocity.y) * uy;
                if vnn < 0 {
                    lemma_mul_bound(e2.body.velocity.x - e1.body.velocity.x, ux, 2_000_000_000, den);
                    lemma_mul_bound(e2.body.velocity.y - e1.body.velocity.y, uy, 2_000_000_000, den);
                    lemma_tdiv_bounded(vnn, den, 4_000_000_000);
                    let vn: int = tdiv(vnn, den);
                    lemma_mul_bound(vn, ux, 4_000_000_000, den);
                    lemma_mul_bound(vn, uy, 4_000_000_000, den);
                    lemma_tdiv_bounded(vn * ux, den, 4_000_000_000);
                    lemma_tdiv_bounded(vn * uy, den, 4_000_000_000);
                }
            }
        }
    }
}

/// Every directional visit of a strictly overlapping pair within the
/// resolver's guards strictly increases the squared center distance: the
/// push is rounded up and kept at one unit or more along the dominant axis,
/// so positional correction always makes progress toward separation, and the
/// later visit from the other side recomputes fresh geometry, converging
/// rather than double-counting.
#[verifier::rlimit(100)]
pub proof fn lemma_visit_separates(s: Seq<Entity>, i: int, j: int)
    requires
        0 <= i < s.len(),
        0 <= j < s.len(),
        i != j,
        geom_ok(s[i], s[j]),
        0 < dist_sq(s[i].body.position, s[j].body.position),
        dist_sq(s[i].body.position, s[j].body.position) < (s[i].body.radius + s[j].body.radius)
            * (s[i].body.radius + s[j].body.radius),
    ensures
        dist_sq(resolve_pair(s, i, j)[i].body.position, resolve_pair(s, i, j)[j].body.position)
            > dist_sq(s[i].body.position, s[j].body.position),
{
    let e1 = s[i];
    let e2 = s[j];
    let dx: int = e2.body.position.x - e1.body.position.x;
    let dy: int = e2.body.position.y - e1.body.position.y;
    lemma_abs_square(dx);
    lemma_abs_square(dy);
    let n: int = dx * dx + dy * dy;
    lemma_sqrt_of(n);
    let dist: int = sqrt_of(n);
    lemma_sqrt_lower(n, dist, abs_i(dx));
    lemma_sqrt_lower(n, dist, abs_i(dy));
    lemma_sqrt_lower(n, dist, 1);
    let rsum: int = e1.body.radius + e2.body.radius;
    lemma_sqrt_upper(n, dist, rsum);
    let pen: int = rsum - dist;
    assert(dist >= 1 && pen >= 1);
    let rbig: int = if e1.body.radius < e2.body.radius {
        e2.body.radius as int
    } else {
        e1.body.radius as int
    };
    lemma_cdivp_bounds(pen, rbig, rsum);
    let push: int = cdivp(pen * rbig, rsum);
    assert(1 <= push <= pen);
    assert(e1.body.radius < e2.body.radius ==> push == cdivp(pen * e2.body.radius, rsum));
    assert(e1.body.radius >= e2.body.radius ==> push == cdivp(pen * e1.body.radius, rsum));
    lemma_push_vec_props(dx, dy, dist, push);
    let mv = push_vec(dx, dy, dist, push);
    assert(!(mv.0 == 0 && mv.1 == 0));
    // whichever body yields, the center difference grows by exactly `mv`
    let f = resolve_pair(s, i, j);
    assert(f[j].body.position.x - f[i].body.position.x == dx + mv.0);
    assert(f[j].body.position.y - f[i].body.position.y == dy + mv.1);
    // the displacement points away, so both squared components grow, one of
    // them strictly
    assert((dx + mv.0) * (dx + mv.0) + (dy + mv.1) * (dy + mv.1) > dx * dx + dy * dy)
        by (nonlinear_arith)
        requires
            dx * mv.0 >= 0,
            dy * mv.1 >= 0,
            !(mv.0 == 0 && mv.1 == 0),
    ;
}

/// Overlap is symmetric.
pub proof fn lemma_overlapping_sym(s: Seq<Entity>, i: int, j: int)
    requires
        overlapping(s, i, j),
    ensures
        overlapping(s, j, i),
{
    let p1 = s[i].body.position;
    let p2 = s[j].body.position;
    assert((p2.x - p1.x) * (p2.x - p1.x) == (p1.x - p2.x) * (p1.x - p2.x)) by (nonlinear_arith);
    assert((p2.y - p1.y) * (p2.y - p1.y) == (p1.y - p2.y) * (p1.y - p2.y)) by (nonlinear_arith);
}

/// Flags never lie: over correct candidate lists for the snapshot `s`, every
/// entity flagged by the resolver was overlapping some partner in `s`, the
/// state at the start of resolution.
pub proof fn lemma_resolve_list_flags(
    s: Seq<Entity>,
    sin: Seq<Entity>,
    i: int,
    cols: Seq<usize>,
    m: int,
)
    requires
        0 <= m <= cols.len(),
        sin.len() == s.len(),
        0 <= i < s.len(),
        candidate_list_ok(s, i, cols),
        m > 0 ==> cols.len() > 0,
        forall|k: int|
            0 <= k < s.len() && #[trigger] sin[k].is_colliding ==> s[k].is_colliding || exists|j: int| overlapping(s, k, j),
    ensures
        forall|k: int|
            0 <= k < s.len() && #[trigger] resolve_list_upto(sin, i, cols, m)[k].is_colliding
                ==> s[k].is_colliding || exists|j: int| overlapping(s, k, j),
    decreases m,
{
    if m > 0 {
        lemma_resolve_list_flags(s, sin, i, cols, m - 1);
        let prev = resolve_list_upto(sin, i, cols, m - 1);
        lemma_resolve_list_props(sin, i, cols, m - 1);
        let j2: int = cols[m - 1] as int;
        lemma_resolve_pair_props(prev, i, j2);
        assert(overlapping(s, i, j2));
        assert forall|k: int|
            0 <= k < s.len() && #[trigger] resolve_list_upto(sin, i, cols, m)[k].is_colliding
                && !s[k].is_colliding implies exists|j: int| overlapping(s, k, j) by {
            if prev[k].is_colliding {
                assert(s[k].is_colliding || exists|j: int| overlapping(s, k, j));
            } else if k == i {
                assert(overlapping(s, k, j2));
            } else {
                assert(k == j2);
                lemma_overlapping_sym(s, i, j2);
                assert(overlapping(s, k, i));
            }
        }
    }
}

/// `lemma_resolve_list_flags` over the lists of the first `t` bodies.
pub proof fn lemma_resolve_upto_flags(s: Seq<Entity>, colls: Seq<Vec<usize>>, t: int)
    requires
        0 <= t <= colls.len(),
        colls.len() == s.len(),
        forall|i: int| 0 <= i < colls.len() ==> candidate_list_ok(s, i, #[trigger] colls[i]@),
    ensures
        forall|k: int|
            0 <= k < s.len() && #[trigger] resolve_upto(s, colls, t)[k].is_colliding
                ==> s[k].is_colliding || exists|j: int| overlapping(s, k, j),
    decreases t,
{
    if t > 0 {
        lemma_resolve_upto_flags(s, colls, t - 1);
        lemma_resolve_upto_props(s, colls, t - 1);
        lemma_resolve_list_flags(
            s,
            resolve_upto(s, colls, t - 1),
            t - 1,
            colls[t - 1]@,
            colls[t - 1]@.len() as int,
        );
    }
}

} // verus!
