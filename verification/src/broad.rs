use vstd::prelude::*;

use static_aabb2d_index::{StaticAABB2DIndex, StaticAABB2DIndexBuildError, StaticAABB2DIndexBuilder};

use crate::body::{abs_le, Entity};
use crate::math::{POS_GUARD, POS_LIMIT, RADIUS_LIMIT};

verus! {

/// Owns the outside crate's index builder; opaque to the verifier, spoken of
/// only through `builder_boxes` and `builder_capacity`.
#[verifier::external_body]
pub struct BroadIndexBuilder {
    inner: StaticAABB2DIndexBuilder<i64>,
}

/// Owns the outside crate's built index; opaque to the verifier, spoken of
/// only through `index_boxes`.
#[verifier::external_body]
pub struct BroadIndex {
    inner: StaticAABB2DIndex<i64>,
}

#[verifier::external_type_specification]
#[verifier::external_body]
pub struct ExBuildError(StaticAABB2DIndexBuildError);

/// The axis-aligned boxes added to a builder so far, in insertion order, as
/// `(min_x, min_y, max_x, max_y)`.
pub uninterp spec fn builder_boxes(b: BroadIndexBuilder) -> Seq<(int, int, int, int)>;

/// The item count the builder was created for; `build` succeeds only when
/// exactly this many boxes were added.
pub uninterp spec fn builder_capacity(b: BroadIndexBuilder) -> int;

/// The boxes a built index holds, in the order they were added.
pub uninterp spec fn index_boxes(ix: BroadIndex) -> Seq<(int, int, int, int)>;

/// The box's extents are ordered.
pub open spec fn box_valid(b: (int, int, int, int)) -> bool {
    b.0 <= b.2 && b.1 <= b.3
}

/// Inclusive overlap of two axis-aligned boxes, exactly as the index tests it.
pub open spec fn boxes_overlap(a: (int, int, int, int), b: (int, int, int, int)) -> bool {
    !(a.2 < b.0 || a.3 < b.1 || a.0 > b.2 || a.1 > b.3)
}

/// The bounding box of one body: `position +- radius` on each axis.
pub open spec fn entity_box(e: Entity) -> (int, int, int, int) {
    (
        e.body.position.x - e.body.radius,
        e.body.position.y - e.body.radius,
        e.body.position.x + e.body.radius,
        e.body.position.y + e.body.radius,
    )
}

/// The bounding boxes of a whole store, in store order.
pub open spec fn entity_boxes(s: Seq<Entity>) -> Seq<(int, int, int, int)> {
    Seq::new(s.len(), |i: int| entity_box(s[i]))
}

/// Relies on `StaticAABB2DIndexBuilder::new`: a builder expecting exactly
/// `count` boxes, with none added yet.
#[verifier::external_body]
pub(crate) fn builder_new(count: usize) -> (b: BroadIndexBuilder)
    ensures
        builder_boxes(b) == Seq::<(int, int, int, int)>::empty(),
        builder_capacity(b) == count as int,
{
    BroadIndexBuilder { inner: StaticAABB2DIndexBuilder::new(count) }
}

/// Relies on `StaticAABB2DIndexBuilder::add`: appends one box (its extents
/// must be ordered; below capacity the box is recorded as given). The
/// coordinate bound keeps the total-extent subtractions that `build` later
/// performs far inside the `i64` range, so they cannot overflow.
#[verifier::external_body]
pub(crate) fn builder_add(
    b: &mut BroadIndexBuilder,
    min_x: i64,
    min_y: i64,
    max_x: i64,
    max_y: i64,
)
    requires
        builder_boxes(*old(b)).len() < builder_capacity(*old(b)),
        min_x <= max_x,
        min_y <= max_y,
        -POS_LIMIT <= min_x,
        max_x <= POS_LIMIT,
        -POS_LIMIT <= min_y,
        max_y <= POS_LIMIT,
    ensures
        builder_boxes(*final(b)) == builder_boxes(*old(b)).push(
            (min_x as int, min_y as int, max_x as int, max_y as int),
        ),
        builder_capacity(*final(b)) == builder_capacity(*old(b)),
{
    b.inner.add(min_x, min_y, max_x, max_y);
}

/// Relies on `StaticAABB2DIndexBuilder::build`: it returns the index holding
/// exactly the added boxes iff the added count matches the capacity, and an
/// `ItemCountError` otherwise (with `i64` coordinates the only other error,
/// the cast to `f64`, cannot occur).
#[verifier::external_body]
pub(crate) fn builder_build(b: BroadIndexBuilder) -> (r: Result<
    BroadIndex,
    StaticAABB2DIndexBuildError,
>)
    ensures
        match r {
            Ok(ix) => builder_boxes(b).len() == builder_capacity(b) && index_boxes(ix)
                == builder_boxes(b),
            Err(_) => builder_boxes(b).len() != builder_capacity(b),
        },
{
    match b.inner.build() {
        Ok(ix) => Ok(BroadIndex { inner: ix }),
        Err(e) => Err(e),
    }
}

/// Relies on `StaticAABB2DIndex::query`: over ordered boxes it returns
/// exactly the positions (in insertion order of `add`) of the held boxes that
/// overlap the query box, extents inclusive; each position at most once and
/// in an unspecified order.
#[verifier::external_body]
pub(crate) fn query_index(
    ix: &BroadIndex,
    min_x: i64,
    min_y: i64,
    max_x: i64,
    max_y: i64,
) -> (r: Vec<usize>)
    requires
        min_x <= max_x,
        min_y <= max_y,
        forall|k: int| 0 <= k < index_boxes(*ix).len() ==> box_valid(#[trigger] index_boxes(*ix)[k]),
    ensures
        forall|k: int| 0 <= k < r@.len() ==> (#[trigger] r@[k]) < index_boxes(*ix).len(),
        forall|b: int|
            0 <= b < index_boxes(*ix).len() ==> (r@.contains(b as usize) <==> boxes_overlap(
                #[trigger] index_boxes(*ix)[b],
                (min_x as int, min_y as int, max_x as int, max_y as int),
            )),
        forall|k1: int, k2: int| 0 <= k1 < k2 < r@.len() ==> r@[k1] != r@[k2],
{
    ix.inner.query(min_x, min_y, max_x, max_y)
}

/// Builds the broad-phase index over every body's bounding box; rebuilt fresh
/// each frame since every body may move each frame.
pub fn build_index(entities: &Vec<Entity>) -> (ix: BroadIndex)
    requires
        forall|k: int|
            0 <= k < entities@.len() ==> 1 <= (#[trigger] entities@[k]).body.radius <= RADIUS_LIMIT,
        forall|k: int|
            0 <= k < entities@.len() ==> abs_le(
                (#[trigger] entities@[k]).body.position,
                POS_GUARD as int,
            ),
    ensures
        index_boxes(ix) == entity_boxes(entities@),
{
    let ghost s0 = entities@;
    let mut b = builder_new(entities.len());
    let mut i: usize = 0;
    while i < entities.len()
        invariant
            forall|k: int| 0 <= k < s0.len() ==> 1 <= (#[trigger] s0[k]).body.radius <= RADIUS_LIMIT,
            forall|k: int| 0 <= k < s0.len() ==> abs_le((#[trigger] s0[k]).body.position, POS_GUARD as int),
            entities@ == s0,
            i <= s0.len(),
            builder_capacity(b) == s0.len(),
            builder_boxes(b) =~= entity_boxes(s0).take(i as int),
        decreases s0.len() - i,
    {
        let e = entities[i];
        let r: i64 = e.body.radius;
        builder_add(
            &mut b,
            e.body.position.x - r,
            e.body.position.y - r,
            e.body.position.x + r,
            e.body.position.y + r,
        );
        proof {
            assert(builder_boxes(b) =~= entity_boxes(s0).take(i + 1 as int));
        }
        i = i + 1;
    }
    proof {
        assert(entity_boxes(s0).take(s0.len() as int) =~= entity_boxes(s0));
    }
    match builder_build(b) {
        Ok(ix) => ix,
        Err(_) => vstd::pervasive::unreached(),
    }
}

} // verus!
