use particle_sim::body::{draw_in_range, init_entities, new_entity, Entity};
use particle_sim::math::{isqrt_u128, vec2, FLASH_DURATION};
use particle_sim::narrow::{check_collisions, is_colliding};
use particle_sim::resolve::resolve_collisions;
use particle_sim::stages::{apply_seek, contain, decay, integrate, project};
use particle_sim::world::World;

fn one_body(px: i64, py: i64, vx: i64, vy: i64, r: i64) -> Entity {
    new_entity(vec2(px, py), vec2(vx, vy), r, false)
}

#[test]
fn isqrt_exact_values() {
    assert_eq!(isqrt_u128(0), 0);
    assert_eq!(isqrt_u128(1), 1);
    assert_eq!(isqrt_u128(3), 1);
    assert_eq!(isqrt_u128(4), 2);
    assert_eq!(isqrt_u128(8), 2);
    assert_eq!(isqrt_u128(9), 3);
    assert_eq!(isqrt_u128(1_000_000_000_000), 1_000_000);
    assert_eq!(isqrt_u128(u64::MAX as u128), 4_294_967_295);
}

#[test]
fn circle_test_boundary_is_inclusive() {
    // distance 20 equals the radius sum: tangent circles overlap
    assert!(is_colliding(vec2(100, 100), 10, vec2(120, 100), 10));
    // distance 21 exceeds it
    assert!(!is_colliding(vec2(100, 100), 10, vec2(121, 100), 10));
    // diagonal: distance^2 = 450 > 400
    assert!(!is_colliding(vec2(0, 0), 10, vec2(15, 15), 10));
}

#[test]
fn integrate_moves_and_clears_force() {
    let mut es = vec![one_body(5, 300, -50, 0, 16)];
    es[0].body.force = vec2(10, 0);
    integrate(&mut es, 1);
    // velocity' = velocity + force, position' = position + velocity' * delta
    assert_eq!(es[0].body.velocity.x, -40);
    assert_eq!(es[0].body.position.x, -35);
    assert_eq!(es[0].body.force.x, 0);
    // delta == 0 is a no-op apart from clearing force
    let mut es2 = vec![one_body(7, 8, 3, 4, 2)];
    integrate(&mut es2, 0);
    assert_eq!(es2[0].body.position.x, 7);
    assert_eq!(es2[0].body.position.y, 8);
}

#[test]
fn wall_bounce_left_edge() {
    // arena 800x600, one body at (5, 300), radius 16, moving left at -50
    let mut es = vec![one_body(5, 300, -50, 0, 16)];
    integrate(&mut es, 1);
    assert_eq!(es[0].body.position.x, -45);
    contain(&mut es, 800, 600);
    assert_eq!(es[0].body.velocity.x, 50);
    assert_eq!(es[0].body.position.x, 16);
    assert_eq!(es[0].body.position.y, 300);
}

#[test]
fn contain_clamps_into_arena() {
    let mut es = vec![
        one_body(-45, 300, -50, 0, 16),
        one_body(900, 700, 3, 4, 10),
        one_body(400, 300, 1, 1, 16),
    ];
    contain(&mut es, 800, 600);
    for e in es.iter() {
        let r = e.body.radius;
        assert!(r <= e.body.position.x && e.body.position.x <= 800 - r);
        assert!(r <= e.body.position.y && e.body.position.y <= 600 - r);
    }
}

#[test]
fn contain_is_noop_strictly_inside() {
    let mut es = vec![one_body(100, 100, -3, 4, 16), one_body(700, 500, 9, -2, 10)];
    contain(&mut es, 800, 600);
    let once = es.clone();
    contain(&mut es, 800, 600);
    assert_eq!(es, once);
}

#[test]
fn contain_is_idempotent_on_the_wall() {
    // the first pass leaves this body exactly on the left wall, velocity
    // turned inward; a second pass changes nothing, velocity included
    let mut es = vec![one_body(-45, 300, -50, 0, 16), one_body(784, 300, 7, 0, 16)];
    contain(&mut es, 800, 600);
    let once = es.clone();
    assert_eq!(es[0].body.position.x, 16);
    assert_eq!(es[0].body.velocity.x, 50);
    assert_eq!(es[1].body.position.x, 784);
    assert_eq!(es[1].body.velocity.x, -7);
    contain(&mut es, 800, 600);
    assert_eq!(es, once);
}

#[test]
fn pair_candidates_and_x_axis_separation() {
    // two bodies radius 10 at (100,100) and (115,100): distance 15 < 20
    let mut es = vec![one_body(100, 100, 0, 0, 10), one_body(115, 100, 0, 0, 10)];
    let colls = check_collisions(&es);
    assert_eq!(colls.len(), 2);
    assert_eq!(colls[0], vec![1]);
    assert_eq!(colls[1], vec![0]);
    let before_gap = es[1].body.position.x - es[0].body.position.x;
    resolve_collisions(&mut es, &colls);
    assert!(es[0].is_colliding && es[1].is_colliding);
    assert_eq!(es[0].highlight_time_remaining, FLASH_DURATION);
    assert_eq!(es[1].highlight_time_remaining, FLASH_DURATION);
    // moved apart along the x axis only
    assert_eq!(es[0].body.position.y, 100);
    assert_eq!(es[1].body.position.y, 100);
    assert!(es[1].body.position.x - es[0].body.position.x > before_gap);
}

#[test]
fn head_on_reverses_velocities() {
    let mut es = vec![one_body(100, 100, 30, 0, 10), one_body(115, 100, -30, 0, 10)];
    let colls = check_collisions(&es);
    resolve_collisions(&mut es, &colls);
    assert_eq!(es[0].body.velocity, vec2(-30, 0));
    assert_eq!(es[1].body.velocity, vec2(30, 0));
    // no residual overlap by the next frame: the reversed velocities carry
    // the pair apart faster than the leftover penetration
    integrate(&mut es, 1);
    let next = check_collisions(&es);
    assert!(next[0].is_empty() && next[1].is_empty());
}

#[test]
fn coincident_centers_use_fallback_direction() {
    // both at the same point: the degenerate fallback engages, nothing panics
    let mut es = vec![one_body(100, 100, 30, 0, 10), one_body(100, 100, -30, 0, 10)];
    let colls = check_collisions(&es);
    assert_eq!(colls[0], vec![1]);
    resolve_collisions(&mut es, &colls);
    assert_eq!(es[0].body.velocity, vec2(-30, 0));
    assert_eq!(es[1].body.velocity, vec2(30, 0));
    // the pair was pushed apart along the fallback axis
    assert!(es[1].body.position.x > es[0].body.position.x);
    assert_eq!(es[0].body.position.y, 100);
    assert_eq!(es[1].body.position.y, 100);
}

#[test]
fn sub_unit_corrections_still_separate() {
    // radius-1 bodies at distance 1: the exact ratio is one half, which must
    // round up to a whole unit, not away to nothing
    let mut es = vec![one_body(100, 100, 0, 0, 1), one_body(101, 100, 0, 0, 1)];
    let colls = check_collisions(&es);
    resolve_collisions(&mut es, &colls);
    assert!(es[1].body.position.x - es[0].body.position.x >= 2);
    // radius-2 bodies at distance 3 (penetration 1): likewise
    let mut es2 = vec![one_body(100, 100, 0, 0, 2), one_body(103, 100, 0, 0, 2)];
    let colls2 = check_collisions(&es2);
    resolve_collisions(&mut es2, &colls2);
    assert!(es2[1].body.position.x - es2[0].body.position.x >= 4);
    // a diagonal sub-unit overlap moves along the dominant axis instead of
    // rounding both components away
    let mut es3 = vec![one_body(100, 100, 0, 0, 2), one_body(103, 102, 0, 0, 2)];
    let d0 = {
        let dx = es3[1].body.position.x - es3[0].body.position.x;
        let dy = es3[1].body.position.y - es3[0].body.position.y;
        dx * dx + dy * dy
    };
    let colls3 = check_collisions(&es3);
    assert_eq!(colls3[0], vec![1]);
    resolve_collisions(&mut es3, &colls3);
    let d1 = {
        let dx = es3[1].body.position.x - es3[0].body.position.x;
        let dy = es3[1].body.position.y - es3[0].body.position.y;
        dx * dx + dy * dy
    };
    assert!(d1 > d0);
}

#[test]
fn highlight_decays_within_ceil_of_flash_over_delta() {
    let mut es = vec![one_body(100, 100, 0, 0, 10)];
    es[0].is_colliding = true;
    es[0].highlight_time_remaining = FLASH_DURATION;
    // ceil(100 / 30) = 4 frames of constant delta 30
    for _ in 0..4 {
        decay(&mut es, 30);
    }
    assert!(es[0].highlight_time_remaining <= 0);
    assert!(!es[0].is_colliding);
    // a small negative remainder stays put instead of decaying further
    let after = es[0].highlight_time_remaining;
    decay(&mut es, 30);
    assert_eq!(es[0].highlight_time_remaining, after);
}

#[test]
fn broad_phase_never_underreports() {
    // differential test against the naive quadratic scan
    let mut es: Vec<Entity> = Vec::new();
    let mut seed: u64 = 42;
    for _ in 0..60 {
        seed = seed.wrapping_mul(6364136223846793005).wrapping_add(1442695040888963407);
        let x = (seed >> 33) % 300;
        seed = seed.wrapping_mul(6364136223846793005).wrapping_add(1442695040888963407);
        let y = (seed >> 33) % 300;
        es.push(one_body(x as i64, y as i64, 0, 0, 12));
    }
    let colls = check_collisions(&es);
    assert_eq!(colls.len(), es.len());
    for i in 0..es.len() {
        for j in 0..es.len() {
            let overlap = i != j
                && is_colliding(
                    es[i].body.position,
                    es[i].body.radius,
                    es[j].body.position,
                    es[j].body.radius,
                );
            assert_eq!(colls[i].contains(&j), overlap);
        }
    }
}

#[test]
fn ten_thousand_bodies_query_quickly() {
    // 10,000 bodies of radius 2 scattered over a 1280x940 arena; the indexed
    // broad phase answers every per-body query far below the test timeout,
    // where a full quadratic scan would labour
    let mut positions = Vec::new();
    let mut velocities = Vec::new();
    let mut seed: u64 = 7;
    for _ in 0..10_000 {
        seed = seed.wrapping_mul(6364136223846793005).wrapping_add(1442695040888963407);
        let x = 2 + (seed >> 33) % 1276;
        seed = seed.wrapping_mul(6364136223846793005).wrapping_add(1442695040888963407);
        let y = 2 + (seed >> 33) % 936;
        positions.push(vec2(x as i64, y as i64));
        velocities.push(vec2((seed % 81) as i64 - 40, (seed % 61) as i64 - 30));
    }
    let es = init_entities(&positions, &velocities, 2);
    let colls = check_collisions(&es);
    assert_eq!(colls.len(), 10_000);
    for (i, cols) in colls.iter().enumerate() {
        for &j in cols.iter() {
            assert!(j != i && j < es.len());
        }
    }
}

#[test]
fn seek_force_points_at_target() {
    let mut es = vec![new_entity(vec2(100, 100), vec2(0, 0), 5, true)];
    apply_seek(&mut es, vec2(200, 100), 90);
    assert_eq!(es[0].body.force, vec2(90, 0));
    // the strength is a parameter of the hook
    let mut es1 = vec![new_entity(vec2(100, 100), vec2(0, 0), 5, true)];
    apply_seek(&mut es1, vec2(100, 40), 45);
    assert_eq!(es1[0].body.force, vec2(0, -45));
    // exactly at the target: no contribution, no division by zero
    let mut es2 = vec![new_entity(vec2(200, 100), vec2(0, 0), 5, true)];
    apply_seek(&mut es2, vec2(200, 100), 90);
    assert_eq!(es2[0].body.force, vec2(0, 0));
    // a body that does not follow is untouched
    let mut es3 = vec![new_entity(vec2(100, 100), vec2(0, 0), 5, false)];
    apply_seek(&mut es3, vec2(200, 100), 90);
    assert_eq!(es3[0].body.force, vec2(0, 0));
}

#[test]
fn draw_in_range_stays_in_range() {
    // the range [50, 1230] has width 1181
    assert_eq!(draw_in_range(0, 50, 1230), 50);
    assert_eq!(draw_in_range(1180, 50, 1230), 1230);
    assert_eq!(draw_in_range(1181, 50, 1230), 50);
    assert_eq!(draw_in_range(1182, 50, 1230), 51);
    let mut seed: u64 = 3;
    for _ in 0..200 {
        seed = seed.wrapping_mul(6364136223846793005).wrapping_add(1442695040888963407);
        let v = draw_in_range(seed, -20, 40);
        assert!(-20 <= v && v <= 40);
    }
}

#[test]
fn project_copies_position_into_transform() {
    let mut es = vec![one_body(5, 300, -50, 0, 16)];
    integrate(&mut es, 1);
    assert_eq!(es[0].transform.position.x, 5);
    project(&mut es);
    assert_eq!(es[0].transform.position.x, -45);
    assert_eq!(es[0].transform.size, vec2(32, 32));
}

#[test]
fn init_entities_populates_fresh_bodies() {
    let positions = vec![vec2(1, 2), vec2(3, 4)];
    let velocities = vec![vec2(5, 6), vec2(7, 8)];
    let es = init_entities(&positions, &velocities, 2);
    assert_eq!(es.len(), 2);
    assert_eq!(es[1].body.position, vec2(3, 4));
    assert_eq!(es[1].body.velocity, vec2(7, 8));
    assert_eq!(es[1].body.radius, 2);
    assert_eq!(es[1].body.force, vec2(0, 0));
    assert!(!es[1].is_colliding && !es[1].follow_target);
    assert_eq!(es[1].highlight_time_remaining, 0);
    assert_eq!(es[1].transform.size, vec2(4, 4));
}

#[test]
fn world_frame_pause_and_spawn() {
    let mut w = World::new(1280, 940);
    let positions = vec![vec2(100, 100), vec2(115, 100)];
    let velocities = vec![vec2(3, 0), vec2(-3, 0)];
    w.entities = init_entities(&positions, &velocities, 10);

    // a paused frame consumes the toggle and does no physics
    w.frame(1, vec2(0, 0), true, None);
    assert!(w.paused);
    assert_eq!(w.entities[0].body.position, vec2(100, 100));

    // unpause; the overlapping pair collides, flags and separates
    w.frame(1, vec2(0, 0), true, None);
    assert!(!w.paused);
    assert!(w.entities[0].is_colliding && w.entities[1].is_colliding);
    assert_eq!(w.entities[0].body.velocity, vec2(-3, 0));

    // a spawn request appends one follower with no velocity
    let before = w.entities.len();
    w.frame(1, vec2(640, 470), false, Some((vec2(640, 470), 32)));
    assert_eq!(w.entities.len(), before + 1);
    let spawned = &w.entities[before];
    assert!(spawned.follow_target);
    assert_eq!(spawned.body.radius, 32);
}

#[test]
fn spawn_follower_appends_a_fresh_follower() {
    let mut w = World::new(800, 600);
    w.spawn_follower(vec2(400, 300), 32);
    assert_eq!(w.entities.len(), 1);
    let e = &w.entities[0];
    assert!(e.follow_target);
    assert_eq!(e.body.position, vec2(400, 300));
    assert_eq!(e.body.velocity, vec2(0, 0));
    assert_eq!(e.body.radius, 32);
    assert_eq!(e.transform.size, vec2(64, 64));
}

#[test]
fn render_states_mirror_the_store() {
    let mut w = World::new(800, 600);
    let positions = vec![vec2(100, 100), vec2(115, 100)];
    let velocities = vec![vec2(3, 0), vec2(-3, 0)];
    w.entities = init_entities(&positions, &velocities, 10);
    w.frame(1, vec2(0, 0), false, None);
    let states = w.render_states();
    assert_eq!(states.len(), w.entities.len());
    for (st, e) in states.iter().zip(w.entities.iter()) {
        assert_eq!(st.0, e.transform.position);
        assert_eq!(st.1, e.transform.size);
        assert_eq!(st.2, e.is_colliding);
        assert_eq!(st.3, e.highlight_time_remaining);
    }
    assert!(states[0].2 && states[1].2);
}

#[test]
fn world_frame_contains_all_bodies() {
    let mut w = World::new(800, 600);
    let positions = vec![vec2(5, 300), vec2(790, 10)];
    let velocities = vec![vec2(-50, 0), vec2(40, -40)];
    w.entities = init_entities(&positions, &velocities, 16);
    w.frame(1, vec2(0, 0), false, None);
    for e in w.entities.iter() {
        let r = e.body.radius;
        assert!(r <= e.body.position.x && e.body.position.x <= 800 - r);
        assert!(r <= e.body.position.y && e.body.position.y <= 600 - r);
        // the transform was projected after all physics steps
        assert_eq!(e.transform.position, e.body.position);
    }
}
