//! Rays and the ingestion of raw collision records.
use vstd::prelude::*;

verus! {

/// Which way a collision direction points along the optical axis.
///
/// `Toward` is a direction whose normalised `z` component is negative, that is
/// one travelling toward the detector; `Away` is any other direction of
/// nonzero finite length; `Degenerate` is a direction that cannot be
/// normalised (zero, or not finite, length).
#[derive(Clone, Copy, Debug, PartialEq, Eq, Structural)]
pub enum Heading {
    Toward,
    Away,
    Degenerate,
}

/// Why a collision record could not become a ray.
#[derive(Clone, Copy, Debug, PartialEq, Eq, Structural)]
pub enum RayError {
    DegenerateDirection,
}

impl RayError {
    /// A short description of the failure.
    pub fn describe(&self) -> (r: String)
        ensures
            r@ == ray_error_text(*self),
    {
        match self {
            RayError::DegenerateDirection => "zero-length or non-finite direction".to_owned(),
        }
    }
}

/// The text of each ray construction failure.
pub open spec fn ray_error_text(e: RayError) -> Seq<char> {
    match e {
        RayError::DegenerateDirection => "zero-length or non-finite direction"@,
    }
}

/// A ray that collided with the scene, as the detector reads it.
///
/// `distance` is the travel distance to the collision in the caller's unit,
/// `collision` the collision count, `toward_detector` whether the normalised
/// direction has a negative `z` component, `(camera_x, camera_y)` the pixel
/// that a scanning sensor assigned to the ray, and `line_index` the position
/// of its record in the source batch.
#[derive(Clone, Copy, Debug, PartialEq, Eq, Structural)]
pub struct Ray {
    pub distance: i64,
    pub collision: i32,
    pub toward_detector: bool,
    pub camera_x: i32,
    pub camera_y: i32,
    pub line_index: usize,
}

impl Ray {
    /// Builds a ray; fails when its direction cannot be normalised.
    pub fn new(
        heading: Heading,
        collision: i32,
        distance: i64,
        camera_x: i32,
        camera_y: i32,
        line_index: usize,
    ) -> (r: Result<Ray, RayError>)
        ensures
            r is Ok <==> heading != Heading::Degenerate,
            heading == Heading::Degenerate <==> r == Err::<Ray, RayError>(
                RayError::DegenerateDirection,
            ),
            r is Ok ==> r->Ok_0 == (Ray {
                distance,
                collision,
                toward_detector: heading == Heading::Toward,
                camera_x,
                camera_y,
                line_index,
            }),
    {
        match heading {
            Heading::Degenerate => Err(RayError::DegenerateDirection),
            _ => Ok(
                Ray {
                    distance,
                    collision,
                    toward_detector: heading == Heading::Toward,
                    camera_x,
                    camera_y,
                    line_index,
                },
            ),
        }
    }
}

/// A raw collision record, with its direction already classified.
///
/// `collision_count == 0` marks a ray that never hit anything.
#[derive(Clone, Copy, Debug, PartialEq, Eq, Structural)]
pub struct CollisionRecord {
    pub collision_count: i32,
    pub distance: i64,
    pub heading: Heading,
    pub camera_x: i32,
    pub camera_y: i32,
}

/// A record that had a collision but could not become a ray.
#[derive(Debug)]
pub struct FailedRayRecord {
    pub index: usize,
    pub error: String,
}

/// The ray built from the record at position `i` of a batch.
pub open spec fn ray_of(rec: CollisionRecord, i: int) -> Ray {
    Ray {
        distance: rec.distance,
        collision: rec.collision_count,
        toward_detector: rec.heading == Heading::Toward,
        camera_x: rec.camera_x,
        camera_y: rec.camera_y,
        line_index: i as usize,
    }
}

/// The rays that a batch yields, in batch order: one per record that has a
/// collision and a direction that can be normalised.
pub open spec fn kept_rays(recs: Seq<CollisionRecord>) -> Seq<Ray>
    decreases recs.len(),
{
    if recs.len() == 0 {
        Seq::empty()
    } else {
        let prev = kept_rays(recs.drop_last());
        let rec = recs.last();
        if rec.collision_count != 0 && rec.heading != Heading::Degenerate {
            prev.push(ray_of(rec, recs.len() - 1))
        } else {
            prev
        }
    }
}

/// The batch positions of the records that have a collision but a direction
/// that cannot be normalised, in batch order.
pub open spec fn failed_indices(recs: Seq<CollisionRecord>) -> Seq<int>
    decreases recs.len(),
{
    if recs.len() == 0 {
        Seq::empty()
    } else {
        let prev = failed_indices(recs.drop_last());
        let rec = recs.last();
        if rec.collision_count != 0 && rec.heading == Heading::Degenerate {
            prev.push(recs.len() - 1)
        } else {
            prev
        }
    }
}

/// Every ray and every failure of a batch points at a position of the batch.
proof fn lemma_positions_in_batch(recs: Seq<CollisionRecord>)
    requires
        recs.len() <= usize::MAX,
    ensures
        forall|i: int|
            0 <= i < kept_rays(recs).len() ==> (#[trigger] kept_rays(recs)[i]).line_index
                < recs.len(),
        forall|i: int|
            0 <= i < failed_indices(recs).len() ==> #[trigger] failed_indices(recs)[i]
                < recs.len(),
    decreases recs.len(),
{
    if recs.len() > 0 {
        let prev = recs.drop_last();
        lemma_positions_in_batch(prev);
        let kept = kept_rays(recs);
        let failed = failed_indices(recs);
        assert forall|i: int| 0 <= i < kept.len() implies (#[trigger] kept[i]).line_index
            < recs.len() by {
            if i < kept_rays(prev).len() {
                assert(kept[i] == kept_rays(prev)[i]);
            }
        }
        assert forall|i: int| 0 <= i < failed.len() implies #[trigger] failed[i] < recs.len() by {
            if i < failed_indices(prev).len() {
                assert(failed[i] == failed_indices(prev)[i]);
            }
        }
    }
}

/// A record without a collision yields no ray and no failure: no ray of the
/// batch carries its position, and its position is not among the failures.
pub proof fn lemma_zero_collision_skipped(recs: Seq<CollisionRecord>, k: int)
    requires
        recs.len() <= usize::MAX,
        0 <= k < recs.len(),
        recs[k].collision_count == 0,
    ensures
        forall|i: int|
            0 <= i < kept_rays(recs).len() ==> (#[trigger] kept_rays(recs)[i]).line_index != k,
        !failed_indices(recs).contains(k),
    decreases recs.len(),
{
    let prev = recs.drop_last();
    lemma_positions_in_batch(prev);
    if k < recs.len() - 1 {
        assert(prev[k] == recs[k]);
        lemma_zero_collision_skipped(prev, k);
    }
    assert(kept_rays(recs) == kept_rays(prev) || kept_rays(recs) == kept_rays(prev).push(
        ray_of(recs.last(), recs.len() - 1),
    ));
    assert(failed_indices(recs) == failed_indices(prev) || failed_indices(recs)
        == failed_indices(prev).push(recs.len() - 1));
    if failed_indices(recs).contains(k) {
        let i = choose|i: int| 0 <= i < failed_indices(recs).len() && failed_indices(recs)[i] == k;
        if i < failed_indices(prev).len() {
            assert(failed_indices(prev)[i] == k);
        }
    }
}

/// Turns a batch of collision records into rays, isolating failures per
/// record: records without a collision are skipped, records whose direction
/// cannot be normalised are reported with their position, and the batch
/// always completes.
pub fn read_raw_data(records: &Vec<CollisionRecord>) -> (r: (Vec<Ray>, Vec<FailedRayRecord>))
    ensures
        r.0@ == kept_rays(records@),
        r.1@.len() == failed_indices(records@).len(),
        forall|k: int|
            0 <= k < r.1@.len() ==> {
                &&& (#[trigger] r.1@[k]).index == failed_indices(records@)[k]
                &&& r.1@[k].error@ == ray_error_text(RayError::DegenerateDirection)
            },
{
    let mut photons: Vec<Ray> = Vec::new();
    let mut failed_lines: Vec<FailedRayRecord> = Vec::new();
    let mut i: usize = 0;
    while i < records.len()
        invariant
            i <= records@.len(),
            photons@ == kept_rays(records@.subrange(0, i as int)),
            failed_lines@.len() == failed_indices(records@.subrange(0, i as int)).len(),
            forall|k: int|
                0 <= k < failed_lines@.len() ==> {
                    &&& (#[trigger] failed_lines@[k]).index == failed_indices(
                        records@.subrange(0, i as int),
                    )[k]
                    &&& failed_lines@[k].error@ == ray_error_text(RayError::DegenerateDirection)
                },
        decreases records@.len() - i,
    {
        let rec = records[i];
        let ghost before = records@.subrange(0, i as int);
        assert(records@.subrange(0, i + 1).drop_last() == before);
        if rec.collision_count != 0 {
            match Ray::new(
                rec.heading,
                rec.collision_count,
                rec.distance,
                rec.camera_x,
                rec.camera_y,
                i,
            ) {
                Ok(ray) => photons.push(ray),
                Err(e) => failed_lines.push(FailedRayRecord { index: i, error: e.describe() }),
            }
        }
        i = i + 1;
    }
    assert(records@.subrange(0, records@.len() as int) == records@);
    (photons, failed_lines)
}

} // verus!
