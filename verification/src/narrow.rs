use vstd::prelude::*;

use rayon::iter::{IntoParallelIterator, ParallelIterator};

use crate::body::{abs_le, Entity};
use crate::broad::{
    box_valid, boxes_overlap, build_index, entity_box, entity_boxes, index_boxes, query_index,
    BroadIndex,
};
use crate::math::{Vec2i, POS_GUARD, POS_LIMIT, RADIUS_LIMIT};
use crate::math::{lemma_abs_le_of_sq, lemma_abs_square, lemma_mul_bound};

verus! {

/// Squared distance between two points.
pub open spec fn dist_sq(p: Vec2i, q: Vec2i) -> int {
    (q.x - p.x) * (q.x - p.x) + (q.y - p.y) * (q.y - p.y)
}

/// The exact circle overlap test: the centers are no farther apart than the
/// sum of the radii (compared through squares, so no square root is taken).
pub open spec fn circle_test(p1: Vec2i, r1: int, p2: Vec2i, r2: int) -> bool {
    dist_sq(p1, p2) <= (r1 + r2) * (r1 + r2)
}

/// The exact circle overlap test between two entities.
pub open spec fn circles_overlap(a: Entity, b: Entity) -> bool {
    circle_test(a.body.position, a.body.radius as int, b.body.position, b.body.radius as int)
}

/// `j` is a true overlap partner of `i` in the store.
pub open spec fn overlapping(s: Seq<Entity>, i: int, j: int) -> bool {
    0 <= i < s.len() && 0 <= j < s.len() && i != j && circles_overlap(s[i], s[j])
}

/// `cols` is a correct narrow-phase result for body `i`: everything in it is
/// a true overlap partner of `i`, every true overlap partner is in it, and
/// each partner appears exactly once.
pub open spec fn candidate_list_ok(s: Seq<Entity>, i: int, cols: Seq<usize>) -> bool {
    &&& forall|m: int| 0 <= m < cols.len() ==> overlapping(s, i, #[trigger] cols[m] as int)
    &&& forall|j: int| #[trigger] overlapping(s, i, j) ==> cols.contains(j as usize)
    &&& forall|m1: int, m2: int| 0 <= m1 < m2 < cols.len() ==> cols[m1] != cols[m2]
}

/// Every body's candidate list is correct for the store `s`.
pub open spec fn all_lists_ok(s: Seq<Entity>, colls: Seq<Vec<usize>>) -> bool {
    &&& colls.len() == s.len()
    &&& forall|i: int| 0 <= i < colls.len() ==> candidate_list_ok(s, i, #[trigger] colls[i]@)
}

/// Exact circle-circle overlap: distance between the centers at most the sum
/// of the radii (inclusive, so tangent circles count as overlapping).
pub fn is_colliding(p1: Vec2i, r1: i64, p2: Vec2i, r2: i64) -> (r: bool)
    requires
        abs_le(p1, POS_LIMIT as int),
        abs_le(p2, POS_LIMIT as int),
        0 <= r1 <= RADIUS_LIMIT,
        0 <= r2 <= RADIUS_LIMIT,
    ensures
        r == circle_test(p1, r1 as int, p2, r2 as int),
{
    let dx: i64 = p2.x - p1.x;
    let dy: i64 = p2.y - p1.y;
    let rr: i64 = r1 + r2;
    proof {
        lemma_abs_square(dx as int);
        lemma_abs_square(dy as int);
        lemma_mul_bound(dx as int, dx as int, 3_000_000_000, 3_000_000_000);
        lemma_mul_bound(dy as int, dy as int, 3_000_000_000, 3_000_000_000);
        lemma_mul_bound(rr as int, rr as int, 2_000_000, 2_000_000);
    }
    let d2: i128 = (dx as i128) * (dx as i128) + (dy as i128) * (dy as i128);
    d2 <= (rr as i128) * (rr as i128)
}

/// Overlapping circles have overlapping bounding boxes, so a broad phase over
/// the boxes can never miss a true overlap.
pub proof fn lemma_overlap_boxes(a: Entity, b: Entity)
    requires
        circles_overlap(a, b),
        a.body.radius >= 0,
        b.body.radius >= 0,
    ensures
        boxes_overlap(entity_box(a), entity_box(b)),
{
    let dx = b.body.position.x - a.body.position.x;
    let dy = b.body.position.y - a.body.position.y;
    let rr = a.body.radius + b.body.radius;
    lemma_abs_square(dx as int);
    lemma_abs_square(dy as int);
    lemma_abs_le_of_sq(dx as int, rr as int);
    lemma_abs_le_of_sq(dy as int, rr as int);
}

/// The narrow phase for one body: filters the broad-phase candidates for
/// `i`'s bounding box down to the true circle overlaps (excluding `i`
/// itself). Runs read-only over the store, so bodies can be handled in
/// parallel.
pub fn candidates_for(entities: &Vec<Entity>, ix: &BroadIndex, i: usize) -> (r: Vec<usize>)
    requires
        index_boxes(*ix) == entity_boxes(entities@),
        i < entities@.len(),
        forall|k: int|
            0 <= k < entities@.len() ==> 1 <= (#[trigger] entities@[k]).body.radius <= RADIUS_LIMIT,
        forall|k: int|
            0 <= k < entities@.len() ==> abs_le(
                (#[trigger] entities@[k]).body.position,
                POS_GUARD as int,
            ),
    ensures
        candidate_list_ok(entities@, i as int, r@),
{
    let ghost s0 = entities@;
    let n: usize = entities.len();
    let e = entities[i];
    let r1: i64 = e.body.radius;
    proof {
        assert(n == s0.len());
        assert(e == s0[i as int]);
        assert(abs_le(s0[i as int].body.position, POS_GUARD as int));
        assert forall|k: int|
            0 <= k < index_boxes(*ix).len() implies box_valid(#[trigger] index_boxes(*ix)[k]) by {
            assert(index_boxes(*ix)[k] == entity_box(s0[k]));
            assert(1 <= s0[k].body.radius);
        }
    }
    let q = query_index(
        ix,
        e.body.position.x - r1,
        e.body.position.y - r1,
        e.body.position.x + r1,
        e.body.position.y + r1,
    );
    let ghost qbox = (
        e.body.position.x - r1 as int,
        e.body.position.y - r1 as int,
        e.body.position.x + r1 as int,
        e.body.position.y + r1 as int,
    );
    let mut out: Vec<usize> = Vec::new();
    let mut k: usize = 0;
    while k < q.len()
        invariant
            index_boxes(*ix) == entity_boxes(s0),
            entities@ == s0,
            i < s0.len(),
            n == s0.len(),
            e == s0[i as int],
            r1 == e.body.radius,
            qbox == entity_box(s0[i as int]),
            forall|k2: int|
                0 <= k2 < s0.len() ==> 1 <= (#[trigger] s0[k2]).body.radius <= RADIUS_LIMIT,
            forall|k2: int|
                0 <= k2 < s0.len() ==> abs_le((#[trigger] s0[k2]).body.position, POS_GUARD as int),
            forall|m: int| 0 <= m < q@.len() ==> (#[trigger] q@[m]) < s0.len(),
            forall|b: int|
                0 <= b < s0.len() ==> (q@.contains(b as usize) <==> boxes_overlap(
                    #[trigger] entity_boxes(s0)[b],
                    qbox,
                )),
            forall|k1: int, k2: int| 0 <= k1 < k2 < q@.len() ==> q@[k1] != q@[k2],
            k <= q@.len(),
            forall|m: int| 0 <= m < out@.len() ==> overlapping(s0, i as int, #[trigger] out@[m] as int),
            forall|m: int| 0 <= m < out@.len() ==> q@.take(k as int).contains(#[trigger] out@[m]),
            forall|m1: int, m2: int| 0 <= m1 < m2 < out@.len() ==> out@[m1] != out@[m2],
            forall|j: int|
                #[trigger] overlapping(s0, i as int, j) && q@.take(k as int).contains(j as usize)
                    ==> out@.contains(j as usize),
        decreases q@.len() - k,
    {
        let j: usize = q[k];
        let ghost out_before = out@;
        proof {
            assert(q@[k as int] < s0.len());
        }
        let mut hit: bool = false;
        if j != i {
            let ej = entities[j];
            proof {
                assert(abs_le(s0[j as int].body.position, POS_GUARD as int));
                assert(1 <= s0[j as int].body.radius <= RADIUS_LIMIT);
            }
            hit = is_colliding(e.body.position, r1, ej.body.position, ej.body.radius);
            proof {
                assert(hit == circles_overlap(s0[i as int], s0[j as int]));
            }
            if hit {
                proof {
                    // the freshly pushed index is new to the result: the query
                    // returns each position once, and everything gathered so
                    // far came from the prefix before position k
                    assert forall|m: int| 0 <= m < out@.len() implies out@[m] != j by {
                        if out@[m] == j {
                            assert(q@.take(k as int).contains(j));
                            let m2 = choose|m2: int|
                                0 <= m2 < q@.take(k as int).len() && #[trigger] q@.take(
                                    k as int,
                                )[m2] == j;
                            assert(q@[m2] == j);
                            assert(q@[k as int] == j);
                            assert(false);
                        }
                    }
                }
                out.push(j);
            }
        }
        proof {
            assert(q@.take(k as int + 1) =~= q@.take(k as int).push(q@[k as int]));
            assert forall|m: int| 0 <= m < out@.len() implies q@.take(k as int + 1).contains(
                #[trigger] out@[m],
            ) by {
                if m < out_before.len() {
                    assert(q@.take(k as int).contains(out_before[m]));
                    let m2 = choose|m2: int|
                        0 <= m2 < q@.take(k as int).len() && #[trigger] q@.take(k as int)[m2]
                            == out_before[m];
                    assert(q@.take(k as int + 1)[m2] == out@[m]);
                } else {
                    assert(out@[m] == j);
                    assert(q@.take(k as int + 1)[k as int] == j);
                }
            }
            assert forall|j2: int|
                #[trigger] overlapping(s0, i as int, j2) && q@.take(k as int + 1).contains(
                    j2 as usize,
                ) implies out@.contains(j2 as usize) by {
                if q@.take(k as int).contains(j2 as usize) {
                    assert(out_before.contains(j2 as usize));
                    let m = choose|m: int|
                        0 <= m < out_before.len() && #[trigger] out_before[m] == j2 as usize;
                    assert(out@[m] == j2 as usize);
                } else {
                    // the one new element of the longer prefix is exactly q[k]
                    let m = choose|m: int|
                        0 <= m < q@.take(k as int + 1).len() && #[trigger] q@.take(
                            k as int + 1,
                        )[m] == j2 as usize;
                    if m < k as int {
                        assert(q@.take(k as int)[m] == j2 as usize);
                        assert(q@.take(k as int).contains(j2 as usize));
                        assert(false);
                    }
                    assert(q@[k as int] == j2 as usize);
                    assert(j as int == j2);
                    assert(circles_overlap(s0[i as int], s0[j as int]));
                    assert(hit);
                    assert(out@ == out_before.push(j));
                    assert(out@[out@.len() - 1] == j2 as usize);
                }
            }
        }
        k = k + 1;
    }
    proof {
        assert(q@.take(q@.len() as int) =~= q@);
        assert forall|j: int| #[trigger] overlapping(s0, i as int, j) implies out@.contains(
            j as usize,
        ) by {
            lemma_overlap_boxes(s0[i as int], s0[j]);
            assert(entity_boxes(s0)[j] == entity_box(s0[j]));
            assert(q@.contains(j as usize));
        }
    }
    out
}

/// Relies on rayon's `into_par_iter`, `map` and `collect` over an index
/// range: an order-preserving parallel map, so element `i` of the result is
/// exactly what one call `candidates_for(entities, ix, i)` returned, and each
/// element therefore satisfies that function's verified postcondition. The
/// store and the index are only read.
#[verifier::external_body]
fn par_candidates(entities: &Vec<Entity>, ix: &BroadIndex) -> (r: Vec<Vec<usize>>)
    requires
        index_boxes(*ix) == entity_boxes(entities@),
        forall|k: int|
            0 <= k < entities@.len() ==> 1 <= (#[trigger] entities@[k]).body.radius <= RADIUS_LIMIT,
        forall|k: int|
            0 <= k < entities@.len() ==> abs_le(
                (#[trigger] entities@[k]).body.position,
                POS_GUARD as int,
            ),
    ensures
        all_lists_ok(entities@, r@),
{
    (0..entities.len()).into_par_iter().map(|i| candidates_for(entities, ix, i)).collect()
}

/// The whole collision-detection phase of a frame: builds the broad-phase
/// index over every body's box, then finds each body's true overlap partners
/// (in parallel). Element `i` of the result lists the partners of body `i`.
pub fn check_collisions(entities: &Vec<Entity>) -> (r: Vec<Vec<usize>>)
    requires
        forall|k: int|
            0 <= k < entities@.len() ==> 1 <= (#[trigger] entities@[k]).body.radius <= RADIUS_LIMIT,
        forall|k: int|
            0 <= k < entities@.len() ==> abs_le(
                (#[trigger] entities@[k]).body.position,
                POS_GUARD as int,
            ),
    ensures
        all_lists_ok(entities@, r@),
{
    let ix = build_index(entities);
    par_candidates(entities, &ix)
}

} // verus!
