use vstd::prelude::*;

use crate::body::Entity;
use crate::math::{
    is_sqrt, sqrt_of, tdiv, Vec2i, ARENA_LIMIT, DELTA_LIMIT, FLASH_DURATION, RADIUS_LIMIT,
    VEL_GUARD,
};
use crate::stages::POS_WILD;
use crate::math::{cdivp, lemma_abs_square, lemma_cdivp_bounds, lemma_sqrt_of, lemma_sqrt_unique, lemma_tdiv_exact};
use crate::stages::{bounce_axis, contain_all, contain_entity, decay_entity};
use crate::narrow::{all_lists_ok, candidate_list_ok, circles_overlap, overlapping};
use crate::resolve::{
    lemma_overlapping_sym, resolve_all, resolve_list, resolve_list_upto, resolve_pair,
    resolve_upto,
};

verus! {

// ---------------------------------------------------------------------------
// Highlight decay
// ---------------------------------------------------------------------------

/// One entity after `k` decay passes with a constant `delta` and no
/// re-collision in between.
pub open spec fn decayed_k(e: Entity, delta: int, k: nat) -> Entity
    decreases k,
{
    if k == 0 {
        e
    } else {
        decayed_k(decay_entity(e, delta), delta, (k - 1) as nat)
    }
}

/// The highlight timer reaches zero or below within any `k` frames of
/// constant positive `delta` whose total covers it — in particular within
/// `ceil(highlight / delta)` frames — when no collision restarts it.
pub proof fn lemma_highlight_decays(e: Entity, delta: int, k: nat)
    requires
        1 <= delta <= DELTA_LIMIT,
        e.highlight_time_remaining <= k * delta,
    ensures
        decayed_k(e, delta, k).highlight_time_remaining <= 0,
    decreases k,
{
    if k == 0 {
        assert(k * delta == 0) by (nonlinear_arith)
            requires
                k == 0,
        ;
        assert(e.highlight_time_remaining <= 0);
    } else {
        let e2 = decay_entity(e, delta);
        assert((k - 1) * delta == k * delta - delta) by (nonlinear_arith);
        if e.highlight_time_remaining > 0 {
            assert(e2.highlight_time_remaining == e.highlight_time_remaining - delta);
        } else {
            assert(e2.highlight_time_remaining <= 0);
            assert((k - 1) * delta >= 0) by (nonlinear_arith)
                requires
                    k >= 1,
                    delta >= 1,
            ;
        }
        lemma_highlight_decays(e2, delta, (k - 1) as nat);
    }
}

/// The number of frames `ceil(FLASH_DURATION / delta)` always suffices for a
/// freshly restarted highlight.
pub proof fn lemma_flash_decays(e: Entity, delta: int)
    requires
        1 <= delta <= DELTA_LIMIT,
        e.highlight_time_remaining <= FLASH_DURATION,
    ensures
        decayed_k(
            e,
            delta,
            ((FLASH_DURATION + delta - 1) / delta) as nat,
        ).highlight_time_remaining <= 0,
{
    let k: int = (FLASH_DURATION + delta - 1) / delta;
    vstd::arithmetic::div_mod::lemma_fundamental_div_mod(FLASH_DURATION + delta - 1, delta);
    vstd::arithmetic::div_mod::lemma_mod_bound(FLASH_DURATION + delta - 1, delta);
    assert(k * delta == delta * k) by (nonlinear_arith);
    assert(k * delta >= FLASH_DURATION);
    assert(k >= 0) by (nonlinear_arith)
        requires
            delta * k + (FLASH_DURATION + delta - 1) % delta == FLASH_DURATION + delta - 1,
            0 <= (FLASH_DURATION + delta - 1) % delta < delta,
            1 <= delta <= DELTA_LIMIT,
    ;
    lemma_highlight_decays(e, delta, k as nat);
}

// ---------------------------------------------------------------------------
// Containment is a no-op on a strictly contained store
// ---------------------------------------------------------------------------

/// The body sits strictly inside the arena: neither edge touches a wall.
pub open spec fn strictly_inside(e: Entity, w: int, h: int) -> bool {
    &&& e.body.position.x - e.body.radius > 0
    &&& e.body.position.x + e.body.radius < w
    &&& e.body.position.y - e.body.radius > 0
    &&& e.body.position.y + e.body.radius < h
}

/// Containment changes nothing on a store whose bodies are all strictly
/// inside the arena.
pub proof fn lemma_contain_noop(s: Seq<Entity>, w: int, h: int)
    requires
        forall|k: int| 0 <= k < s.len() ==> strictly_inside(#[trigger] s[k], w, h),
    ensures
        contain_all(s, w, h) == s,
{
    assert forall|k: int| 0 <= k < s.len() implies contain_entity(#[trigger] s[k], w, h) == s[k] by {
        let e = s[k];
        assert(bounce_axis(e.body.position.x as int, e.body.velocity.x as int, e.body.radius as int, w)
            == (e.body.position.x as int, e.body.velocity.x as int));
        assert(bounce_axis(e.body.position.y as int, e.body.velocity.y as int, e.body.radius as int, h)
            == (e.body.position.y as int, e.body.velocity.y as int));
    }
    assert(contain_all(s, w, h) =~= s);
}

/// One containment axis settles in a single pass: a second pass returns the
/// same position and the same velocity (a body left exactly on a wall has
/// already been turned inward, so the inclusive edge test reflects nothing).
pub proof fn lemma_bounce_axis_idempotent(p: int, v: int, r: int, dim: int)
    ensures
        bounce_axis(
            bounce_axis(p, v, r, dim).0,
            bounce_axis(p, v, r, dim).1,
            r,
            dim,
        ) == bounce_axis(p, v, r, dim),
{
}

/// Running containment twice in a row changes nothing the second time, on
/// every store within the machine bounds containment itself works under:
/// containment is idempotent.
pub proof fn lemma_contain_idempotent(s: Seq<Entity>, w: int, h: int)
    requires
        0 < w <= ARENA_LIMIT,
        0 < h <= ARENA_LIMIT,
        forall|k: int| 0 <= k < s.len() ==> 1 <= (#[trigger] s[k]).body.radius <= RADIUS_LIMIT,
        forall|k: int|
            0 <= k < s.len() ==> crate::body::abs_le((#[trigger] s[k]).body.position, POS_WILD as int),
        forall|k: int|
            0 <= k < s.len() ==> crate::body::abs_le((#[trigger] s[k]).body.velocity, POS_WILD as int),
    ensures
        contain_all(contain_all(s, w, h), w, h) == contain_all(s, w, h),
{
    let once = contain_all(s, w, h);
    assert forall|k: int| 0 <= k < once.len() implies contain_entity(#[trigger] once[k], w, h)
        == once[k] by {
        let e = s[k];
        assert(1 <= e.body.radius <= RADIUS_LIMIT);
        assert(crate::body::abs_le(e.body.position, POS_WILD as int));
        assert(crate::body::abs_le(e.body.velocity, POS_WILD as int));
        let r: int = e.body.radius as int;
        lemma_bounce_axis_idempotent(e.body.position.x as int, e.body.velocity.x as int, r, w);
        lemma_bounce_axis_idempotent(e.body.position.y as int, e.body.velocity.y as int, r, h);
        let bx = bounce_axis(e.body.position.x as int, e.body.velocity.x as int, r, w);
        let by = bounce_axis(e.body.position.y as int, e.body.velocity.y as int, r, h);
        assert(once[k] == contain_entity(e, w, h));
        // every clamped-or-kept value stays in the i64 range, so the casts in
        // contain_entity change nothing between the two passes
        assert(i64::MIN <= bx.0 <= i64::MAX && i64::MIN <= bx.1 <= i64::MAX);
        assert(i64::MIN <= by.0 <= i64::MAX && i64::MIN <= by.1 <= i64::MAX);
        assert(once[k].body.position.x == bx.0 && once[k].body.velocity.x == bx.1);
        assert(once[k].body.position.y == by.0 && once[k].body.velocity.y == by.1);
    }
    assert(contain_all(once, w, h) =~= once);
}

// ---------------------------------------------------------------------------
// Symmetric head-on collision
// ---------------------------------------------------------------------------

/// A symmetric head-on pair: equal radii, same height, opposite equal speeds
/// along the axis through the centers, overlapping (the coincident case
/// `distance == 0` included, where the fixed fallback direction engages).
pub open spec fn head_on_pair(s: Seq<Entity>) -> bool {
    &&& s.len() == 2
    &&& s[0].body.radius == s[1].body.radius
    &&& 1 <= s[0].body.radius <= RADIUS_LIMIT
    &&& s[0].body.position.y == s[1].body.position.y
    &&& s[0].body.position.x <= s[1].body.position.x
    &&& s[1].body.position.x - s[0].body.position.x <= 2 * s[0].body.radius
    &&& crate::body::abs_le(s[0].body.position, ARENA_LIMIT as int)
    &&& crate::body::abs_le(s[1].body.position, ARENA_LIMIT as int)
    &&& 0 < s[0].body.velocity.x <= VEL_GUARD
    &&& s[0].body.velocity.y == 0
    &&& s[1].body.velocity.x == -s[0].body.velocity.x
    &&& s[1].body.velocity.y == 0
}

/// The candidate lists of the pair: each body names the other.
pub open spec fn pair_lists(colls: Seq<Vec<usize>>) -> bool {
    &&& colls.len() == 2
    &&& colls[0]@ =~= seq![1usize]
    &&& colls[1]@ =~= seq![0usize]
}

/// Over a two-body store whose circles overlap, any correct detection result
/// is exactly the lists `[1]` and `[0]`: membership is forced both ways, a
/// body never lists itself, and no index repeats.
pub proof fn lemma_pair_lists_exact(s: Seq<Entity>, colls: Seq<Vec<usize>>)
    requires
        all_lists_ok(s, colls),
        s.len() == 2,
        circles_overlap(s[0], s[1]),
    ensures
        pair_lists(colls),
{
    assert(overlapping(s, 0, 1));
    lemma_overlapping_sym(s, 0, 1);
    let c0 = colls[0]@;
    let c1 = colls[1]@;
    assert(candidate_list_ok(s, 0, c0));
    assert(candidate_list_ok(s, 1, c1));
    assert(c0.contains(1usize));
    assert(c1.contains(0usize));
    assert forall|m: int| 0 <= m < c0.len() implies c0[m] == 1usize by {
        assert(overlapping(s, 0, c0[m] as int));
    }
    assert forall|m: int| 0 <= m < c1.len() implies c1[m] == 0usize by {
        assert(overlapping(s, 1, c1[m] as int));
    }
    if c0.len() >= 2 {
        assert(c0[0] == 1usize && c0[1] == 1usize);
        assert(false);
    }
    if c1.len() >= 2 {
        assert(c1[0] == 0usize && c1[1] == 0usize);
        assert(false);
    }
    let w0 = choose|m: int| 0 <= m < c0.len() && c0[m] == 1usize;
    let w1 = choose|m: int| 0 <= m < c1.len() && c1[m] == 0usize;
    assert(c0 =~= seq![1usize]);
    assert(c1 =~= seq![0usize]);
}

/// For a symmetric head-on collision of equal mass and radius, resolution
/// exactly negates both velocities (so momentum and speed are preserved),
/// never moves the pair closer, keeps them on their common axis, and flags
/// both bodies — also from a coincident start, where the degenerate-direction
/// fallback engages instead of dividing by zero.
#[verifier::rlimit(100)]
pub proof fn lemma_head_on_reversal(s: Seq<Entity>, colls: Seq<Vec<usize>>)
    requires
        head_on_pair(s),
        pair_lists(colls),
    ensures
        ({
            let f = resolve_all(s, colls);
            &&& f.len() == 2
            &&& f[0].body.velocity == (Vec2i { x: (-s[0].body.velocity.x) as i64, y: 0 })
            &&& f[1].body.velocity == (Vec2i { x: (-s[1].body.velocity.x) as i64, y: 0 })
            &&& f[0].body.velocity.x + f[1].body.velocity.x == s[0].body.velocity.x
                + s[1].body.velocity.x
            &&& f[0].body.position.y == s[0].body.position.y
            &&& f[1].body.position.y == s[1].body.position.y
            &&& f[1].body.position.x - f[0].body.position.x >= s[1].body.position.x
                - s[0].body.position.x
            &&& f[0].is_colliding
            &&& f[1].is_colliding
        }),
{
    let a = s[0];
    let b = s[1];
    let r: int = a.body.radius as int;
    let u: int = a.body.velocity.x as int;
    let d: int = b.body.position.x - a.body.position.x;

    // the fold over the two singleton lists is two pair visits
    assert(resolve_upto(s, colls, 0) == s);
    assert(resolve_list_upto(s, 0, colls[0]@, 0) == s);
    assert(resolve_list_upto(s, 0, colls[0]@, 1) == resolve_pair(s, 0, 1));
    assert(resolve_upto(s, colls, 1) == resolve_list(s, 0, colls[0]@));
    let sb = resolve_pair(s, 0, 1);
    assert(resolve_upto(s, colls, 1) == sb);
    assert(resolve_list_upto(sb, 1, colls[1]@, 0) == sb);
    assert(resolve_list_upto(sb, 1, colls[1]@, 1) == resolve_pair(sb, 1, 0));
    assert(resolve_upto(s, colls, 2) == resolve_list(sb, 1, colls[1]@));
    let sc = resolve_pair(sb, 1, 0);
    assert(resolve_all(s, colls) == sc);

    // first visit: (0, 1)
    lemma_abs_square(d);
    assert(is_sqrt(d * d, d)) by (nonlinear_arith)
        requires
            d >= 0,
    ;
    lemma_sqrt_of(d * d);
    lemma_sqrt_unique(d * d, d, sqrt_of(d * d));
    assert(sqrt_of(d * d) == d);
    let pen: int = 2 * r - d;
    assert(pen >= 0);
    let ux: int = if d == 0 { 1 } else { d };
    let den: int = if d == 0 { 1 } else { d };
    lemma_cdivp_bounds(pen, r, 2 * r);
    let push: int = cdivp(pen * r, 2 * r);
    assert(0 <= push <= pen);
    assert(pen >= 1 ==> push >= 1);
    assert(ux * push == push * den) by (nonlinear_arith)
        requires
            ux == den,
    ;
    lemma_tdiv_exact(push, den);
    assert(tdiv(ux * push, den) == push);
    assert(0 * push == 0 * den) by (nonlinear_arith);
    lemma_tdiv_exact(0, den);
    assert(tdiv(0 * push, den) == 0);
    // the visit's displacement is exactly (push, 0): the direction divides
    // evenly, so no rounding is lost and the one-unit bump never engages
    assert(crate::resolve::push_vec(ux, 0, den, push) == (push, 0int));
    // impulse of the first visit
    let vnn: int = (b.body.velocity.x - a.body.velocity.x) * ux;
    assert(vnn == (-2 * u) * ux);
    assert(vnn < 0) by (nonlinear_arith)
        requires
            u > 0,
            ux > 0,
            vnn == (-2 * u) * ux,
    ;
    assert((-2 * u) * ux == (-2 * u) * den) by (nonlinear_arith)
        requires
            ux == den,
    ;
    lemma_tdiv_exact(-2 * u, den);
    assert(tdiv(vnn, den) == -2 * u);
    assert(tdiv((-2 * u) * ux, den) == -2 * u);
    assert(tdiv((-2 * u) * 0, den) == 0) by {
        assert((-2 * u) * 0 == 0 * den) by (nonlinear_arith);
        lemma_tdiv_exact(0, den);
    }
    // the uy component of the first visit is 0 in both direction cases
    assert(sb.len() == 2);
    assert(sb[0].body.velocity.x == a.body.velocity.x + (-2 * u));
    assert(sb[0].body.velocity.x == -u);
    assert(sb[0].body.velocity.y == 0);
    assert(sb[1].body.velocity.x == u);
    assert(sb[1].body.velocity.y == 0);
    assert(sb[0].body.position == a.body.position);
    assert(sb[1].body.position.x == b.body.position.x + push);
    assert(sb[1].body.position.y == b.body.position.y);
    assert(sb[0].is_colliding && sb[1].is_colliding);
    assert(sb[0].body.radius == r && sb[1].body.radius == r);

    // second visit: (1, 0); the pair is now separating, so no second impulse
    let cap: int = d + push;
    assert(cap > 0) by {
        if d == 0 {
            assert(pen == 2 * r);
            assert(push >= 1);
        }
    }
    let dx2: int = sb[0].body.position.x - sb[1].body.position.x;
    assert(dx2 == -cap);
    lemma_abs_square(dx2);
    assert(dx2 * dx2 == cap * cap) by (nonlinear_arith)
        requires
            dx2 == -cap,
    ;
    assert(is_sqrt(cap * cap, cap)) by (nonlinear_arith)
        requires
            cap >= 0,
    ;
    lemma_sqrt_of(dx2 * dx2);
    lemma_sqrt_unique(dx2 * dx2, cap, sqrt_of(dx2 * dx2));
    assert(sqrt_of(dx2 * dx2) == cap);
    let pen2: int = 2 * r - cap;
    if pen2 >= 0 {
        // positional only: body 0 yields away from body 1
        lemma_cdivp_bounds(pen2, r, 2 * r);
        let push2: int = cdivp(pen2 * r, 2 * r);
        assert(0 <= push2 <= pen2);
        assert(dx2 * push2 == (-push2) * cap) by (nonlinear_arith)
            requires
                dx2 == -cap,
        ;
        lemma_tdiv_exact(-push2, cap);
        assert(tdiv(dx2 * push2, cap) == -push2);
        assert(0 * push2 == 0 * cap) by (nonlinear_arith);
        lemma_tdiv_exact(0, cap);
        assert(tdiv(0 * push2, cap) == 0);
        // again an even division: the displacement is exactly (-push2, 0)
        assert(crate::resolve::push_vec(dx2, 0, cap, push2) == (-push2, 0int));
        // approaching test fails: relative normal velocity is positive
        let vnn2: int = (sb[0].body.velocity.x - sb[1].body.velocity.x) * dx2;
        assert(vnn2 == (-2 * u) * (-cap));
        assert(vnn2 > 0) by (nonlinear_arith)
            requires
                u > 0,
                cap > 0,
                vnn2 == (-2 * u) * (-cap),
        ;
        assert(sc[0].body.velocity.x == -u && sc[0].body.velocity.y == 0);
        assert(sc[1].body.velocity.x == u && sc[1].body.velocity.y == 0);
        assert(sc[0].body.position.x == sb[0].body.position.x - push2);
    } else {
        assert(sc[0].body.velocity.x == -u && sc[0].body.velocity.y == 0);
    }
}

} // verus!
