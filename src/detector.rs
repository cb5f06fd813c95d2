//! The detector: a pixel grid with per-pixel hit buffers, the ways of
//! addressing a ray to a pixel (through a lens, in two orientations, or by
//! the pixel a scanner assigned), the depth reduction and the output layout.
use vstd::prelude::*;
use vstd::arithmetic::div_mod::lemma_fundamental_div_mod_converse;
use crate::grid::{
    count_at, count_cells, in_table, set_count, set_sum, sum_at, sum_cells, table_set,
    zero_counts, zero_sums, zero_table, CountGrid, SumGrid,
};
use crate::ray::Ray;

verus! {

/// One accepted hit: its travel distance and its collision count.
#[derive(Clone, Copy, Debug, PartialEq, Eq, Structural)]
pub struct PhotonRecord {
    pub distance: i64,
    pub collision_count: i32,
}

/// Why a detector cannot be built with the given resolution.
#[derive(Clone, Copy, Debug, PartialEq, Eq, Structural)]
pub enum DetectorError {
    /// The width or the height is zero.
    ZeroResolution,
    /// The width or the height exceeds `u32::MAX`, or a buffer of 16-byte
    /// cells for every pixel would exceed `isize::MAX` bytes.
    ResolutionTooLarge,
}

/// The smallest distance seen before any hit: it stands for "+infinity".
pub const NO_HIT_MIN_DISTANCE: i64 = i64::MAX;

/// The accumulation buffers of a `resolution_width` by `resolution_height`
/// pixel grid, each indexed by `(x, y)`.
///
/// `pixel_array_count` counts the hits of each pixel, `pixel_array` sums
/// their distances, `pixel_output_array[x][y]` lists them in arrival order,
/// and `depth_image` holds the averaged distances once reduced.
/// `min_distance` and `max_distance` are the extrema over all hits, starting
/// from `NO_HIT_MIN_DISTANCE` and `0`.
pub struct Detector {
    pub resolution_width: usize,
    pub resolution_height: usize,
    pub pixel_array_count: CountGrid,
    pub pixel_array: SumGrid,
    pub depth_image: SumGrid,
    pub pixel_output_array: Vec<Vec<Vec<PhotonRecord>>>,
    pub min_distance: i64,
    pub max_distance: i64,
}

/// The sum of the distances of a list of hits.
pub open spec fn distance_sum(hits: Seq<PhotonRecord>) -> int
    decreases hits.len(),
{
    if hits.len() == 0 {
        0
    } else {
        distance_sum(hits.drop_last()) + hits.last().distance
    }
}

/// The depth of a pixel: the mean distance of its hits, rounded down, or `0`
/// for a pixel without hits.
pub open spec fn mean_depth(sum: int, count: int) -> int {
    if count > 0 {
        sum / count
    } else {
        0
    }
}

/// Whether a table has `w` rows of `h` cells.
pub open spec fn shaped<T>(t: Seq<Seq<T>>, w: int, h: int) -> bool {
    &&& t.len() == w
    &&& forall|x: int| 0 <= x < w ==> (#[trigger] t[x]).len() == h
}

/// The smaller of two distances.
pub open spec fn min_of(a: int, b: int) -> int {
    if a < b {
        a
    } else {
        b
    }
}

/// The larger of two distances.
pub open spec fn max_of(a: int, b: int) -> int {
    if a > b {
        a
    } else {
        b
    }
}

impl Detector {
    /// The number of pixel columns.
    pub open spec fn width(&self) -> int {
        self.resolution_width as int
    }

    /// The number of pixels in each column.
    pub open spec fn height(&self) -> int {
        self.resolution_height as int
    }

    /// The hit lists, row `x` holding the pixels `(x, y)`.
    pub open spec fn hits_table(&self) -> Seq<Seq<Seq<PhotonRecord>>> {
        self.pixel_output_array@.map_values(
            |row: Vec<Vec<PhotonRecord>>| row@.map_values(|cell: Vec<PhotonRecord>| cell@),
        )
    }

    /// The hit counter of pixel `(x, y)`.
    pub open spec fn count_of(&self, x: int, y: int) -> int {
        count_cells(self.pixel_array_count)[x][y]
    }

    /// The distance sum of pixel `(x, y)`.
    pub open spec fn sum_of(&self, x: int, y: int) -> int {
        sum_cells(self.pixel_array)[x][y]
    }

    /// The depth-image value of pixel `(x, y)`.
    pub open spec fn depth_of(&self, x: int, y: int) -> int {
        sum_cells(self.depth_image)[x][y]
    }

    /// The hit list of pixel `(x, y)`.
    pub open spec fn hits_of(&self, x: int, y: int) -> Seq<PhotonRecord> {
        self.pixel_output_array@[x]@[y]@
    }

    /// Whether `(x, y)` is a pixel of the grid.
    pub open spec fn in_grid(&self, x: int, y: int) -> bool {
        0 <= x < self.width() && 0 <= y < self.height()
    }

    /// The count and the distance sum of pixel `(x, y)` agree with its hit list.
    pub open spec fn pixel_consistent(&self, x: int, y: int) -> bool {
        &&& self.count_of(x, y) == self.hits_of(x, y).len()
        &&& self.sum_of(x, y) == distance_sum(self.hits_of(x, y))
    }

    /// Well-formedness: every buffer has the grid's shape, and every pixel's
    /// count and sum agree with its hit list.
    pub open spec fn wf(&self) -> bool {
        &&& 1 <= self.width() <= u32::MAX
        &&& 1 <= self.height() <= u32::MAX
        &&& self.width() * self.height() * 16 <= isize::MAX
        &&& shaped(count_cells(self.pixel_array_count), self.width(), self.height())
        &&& shaped(sum_cells(self.pixel_array), self.width(), self.height())
        &&& shaped(sum_cells(self.depth_image), self.width(), self.height())
        &&& shaped(self.hits_table(), self.width(), self.height())
        &&& forall|x: int, y: int| #[trigger]
            self.in_grid(x, y) ==> self.pixel_consistent(x, y)
        &&& forall|x: int, y: int| #[trigger]
            self.in_grid(x, y) ==> self.extrema_bound(x, y)
    }

    /// Every hit of pixel `(x, y)` lies between the extrema.
    pub open spec fn extrema_bound(&self, x: int, y: int) -> bool {
        forall|k: int|
            0 <= k < self.hits_of(x, y).len() ==> self.min_distance <= (#[trigger] self.hits_of(
                x,
                y,
            )[k]).distance <= self.max_distance
    }

    /// The hit that `photon` leaves when accepted.
    pub open spec fn hit_of(photon: Ray) -> PhotonRecord {
        PhotonRecord { distance: photon.distance, collision_count: photon.collision }
    }

    /// Whether `photon`, addressed to `(x, y)`, is accepted: it has a
    /// collision, it travels toward the detector, and `(x, y)` is on the grid.
    pub open spec fn accepts(&self, photon: Ray, x: int, y: int) -> bool {
        photon.collision != 0 && photon.toward_detector && self.in_grid(x, y)
    }

    /// `self` is `prev` with the hit `rec` recorded at pixel `(x, y)`: the
    /// count grows by one, the sum by the distance, the hit joins the end of
    /// the pixel's list, and the extrema take it in. Nothing else changes.
    pub open spec fn records_hit(&self, prev: Detector, x: int, y: int, rec: PhotonRecord) -> bool {
        &&& self.resolution_width == prev.resolution_width
        &&& self.resolution_height == prev.resolution_height
        &&& count_cells(self.pixel_array_count) == table_set(
            count_cells(prev.pixel_array_count),
            x,
            y,
            prev.count_of(x, y) + 1,
        )
        &&& sum_cells(self.pixel_array) == table_set(
            sum_cells(prev.pixel_array),
            x,
            y,
            prev.sum_of(x, y) + rec.distance,
        )
        &&& self.hits_table() == prev.hits_table().update(
            x,
            prev.hits_table()[x].update(y, prev.hits_table()[x][y].push(rec)),
        )
        &&& sum_cells(self.depth_image) == sum_cells(prev.depth_image)
        &&& self.min_distance == min_of(prev.min_distance as int, rec.distance as int)
        &&& self.max_distance == max_of(prev.max_distance as int, rec.distance as int)
    }
}

/// After any sequence of operations on a well-formed detector, each pixel's
/// count is the length of its hit list and its distance sum is the sum of
/// the distances in that list.
pub proof fn lemma_pixel_invariant(d: Detector, x: int, y: int)
    requires
        d.wf(),
        d.in_grid(x, y),
    ensures
        d.count_of(x, y) == d.hits_table()[x][y].len(),
        d.sum_of(x, y) == distance_sum(d.hits_table()[x][y]),
{
    assert(d.pixel_consistent(x, y));
    assert(d.hits_table()[x].len() == d.height());
}

/// After any sequence of operations on a well-formed detector, every
/// recorded distance lies between `min_distance` and `max_distance`.
pub proof fn lemma_extrema_bound(d: Detector, x: int, y: int, k: int)
    requires
        d.wf(),
        d.in_grid(x, y),
        0 <= k < d.hits_table()[x][y].len(),
    ensures
        d.min_distance <= d.hits_table()[x][y][k].distance <= d.max_distance,
{
    assert(d.extrema_bound(x, y));
    assert(d.hits_table()[x].len() == d.height());
    assert(d.hits_table()[x][y] == d.hits_of(x, y));
}

/// A list of `n` hits has a distance sum within `n` times the range of `i64`.
proof fn lemma_distance_sum_bound(hits: Seq<PhotonRecord>)
    ensures
        -(hits.len() * 0x8000_0000_0000_0000) <= distance_sum(hits) <= hits.len()
            * 0x8000_0000_0000_0000,
    decreases hits.len(),
{
    if hits.len() > 0 {
        lemma_distance_sum_bound(hits.drop_last());
    }
}

/// `s / c` rounded down, for a positive count `c`.
fn floor_div(s: i128, c: u64) -> (r: i128)
    requires
        c > 0,
        s > i128::MIN,
    ensures
        r == s as int / c as int,
{
    if s >= 0 {
        ((s as u128) / (c as u128)) as i128
    } else {
        let a: u128 = (-s) as u128;
        let q: u128 = a / (c as u128);
        let rem: u128 = a % (c as u128);
        proof {
            assert(a == q * c + rem && rem < c) by (nonlinear_arith)
                requires
                    q as int == (a as int) / (c as int),
                    rem as int == (a as int) % (c as int),
                    c > 0,
            ;
            assert(q <= a) by (nonlinear_arith)
                requires
                    q as int == (a as int) / (c as int),
                    c > 0,
                    a >= 0,
            ;
        }
        if rem == 0 {
            proof {
                assert(s as int == (-(q as int)) * (c as int) + 0) by (nonlinear_arith)
                    requires
                        s == -(a as int),
                        a == q * c,
                ;
                lemma_fundamental_div_mod_converse(s as int, c as int, -(q as int), 0);
            }
            -(q as i128)
        } else {
            proof {
                assert(s as int == (-(q as int) - 1) * (c as int) + (c - rem)) by (nonlinear_arith)
                    requires
                        s == -(a as int),
                        a == q * c + rem,
                ;
                lemma_fundamental_div_mod_converse(
                    s as int,
                    c as int,
                    -(q as int) - 1,
                    c - rem,
                );
            }
            -(q as i128) - 1
        }
    }
}

/// A copy of a hit list.
fn copy_hits(hits: &Vec<PhotonRecord>) -> (r: Vec<PhotonRecord>)
    ensures
        r@ == hits@,
{
    let mut out: Vec<PhotonRecord> = Vec::new();
    let mut i: usize = 0;
    while i < hits.len()
        invariant
            i <= hits@.len(),
            out@ == hits@.subrange(0, i as int),
        decreases hits@.len() - i,
    {
        out.push(hits[i]);
        i = i + 1;
    }
    assert(hits@.subrange(0, hits@.len() as int) == hits@);
    out
}

/// Whether a grid of `w` by `h` pixels can be built.
pub open spec fn valid_resolution(w: int, h: int) -> bool {
    1 <= w <= u32::MAX && 1 <= h <= u32::MAX && w * h * 16 <= isize::MAX
}

/// `w` rows of `h` empty hit lists.
pub open spec fn empty_hits(w: int, h: int) -> Seq<Seq<Seq<PhotonRecord>>> {
    Seq::new(w as nat, |i: int| Seq::new(h as nat, |j: int| Seq::<PhotonRecord>::empty()))
}

impl Detector {
    /// A detector of `width` by `height` pixels with empty buffers: zero
    /// counts, sums and depths, empty hit lists, `NO_HIT_MIN_DISTANCE` as the
    /// smallest distance and `0` as the largest. Fails on a zero width or
    /// height, and on a grid too large to hold.
    pub fn new(width: usize, height: usize) -> (r: Result<Detector, DetectorError>)
        ensures
            r is Ok <==> valid_resolution(width as int, height as int),
            (width == 0 || height == 0) <==> r == Err::<Detector, DetectorError>(
                DetectorError::ZeroResolution,
            ),
            (width != 0 && height != 0 && !valid_resolution(width as int, height as int))
                <==> r == Err::<Detector, DetectorError>(DetectorError::ResolutionTooLarge),
            r is Ok ==> {
                let d = r->Ok_0;
                &&& d.wf()
                &&& d.resolution_width == width
                &&& d.resolution_height == height
                &&& count_cells(d.pixel_array_count) == zero_table(width as int, height as int)
                &&& sum_cells(d.pixel_array) == zero_table(width as int, height as int)
                &&& sum_cells(d.depth_image) == zero_table(width as int, height as int)
                &&& d.hits_table() == empty_hits(width as int, height as int)
                &&& forall|x: int, y: int|
                    #[trigger] d.in_grid(x, y) ==> {
                        &&& d.count_of(x, y) == d.hits_table()[x][y].len() == 0
                        &&& d.sum_of(x, y) == distance_sum(d.hits_table()[x][y]) == 0
                    }
                &&& d.min_distance == NO_HIT_MIN_DISTANCE
                &&& d.max_distance == 0
            },
    {
        if width == 0 || height == 0 {
            return Err(DetectorError::ZeroResolution);
        }
        if width as u128 > 0xffff_ffffu128 || height as u128 > 0xffff_ffffu128 {
            return Err(DetectorError::ResolutionTooLarge);
        }
        proof {
            assert((width as int) * (height as int) * 16 <= 0xffff_ffffint * 0xffff_ffffint * 16)
                by (nonlinear_arith)
                requires
                    width <= 0xffff_ffffint,
                    height <= 0xffff_ffffint,
            ;
        }
        if (width as u128) * (height as u128) * 16 > isize::MAX as u128 {
            return Err(DetectorError::ResolutionTooLarge);
        }
        let mut rows: Vec<Vec<Vec<PhotonRecord>>> = Vec::new();
        let mut x: usize = 0;
        while x < width
            invariant
                x <= width,
                rows@.len() == x,
                forall|i: int| 0 <= i < x ==> (#[trigger] rows@[i])@.len() == height,
                forall|i: int, j: int|
                    0 <= i < x && 0 <= j < height ==> (#[trigger] rows@[i]@[j])@.len() == 0,
            decreases width - x,
        {
            let mut row: Vec<Vec<PhotonRecord>> = Vec::new();
            let mut y: usize = 0;
            while y < height
                invariant
                    y <= height,
                    row@.len() == y,
                    forall|j: int| 0 <= j < y ==> (#[trigger] row@[j])@.len() == 0,
                decreases height - y,
            {
                row.push(Vec::new());
                y = y + 1;
            }
            rows.push(row);
            x = x + 1;
        }
        let d = Detector {
            resolution_width: width,
            resolution_height: height,
            pixel_array_count: zero_counts(width, height),
            pixel_array: zero_sums(width, height),
            depth_image: zero_sums(width, height),
            pixel_output_array: rows,
            min_distance: NO_HIT_MIN_DISTANCE,
            max_distance: 0,
        };
        proof {
            assert(d.hits_table() =~~= empty_hits(width as int, height as int));
            assert forall|i: int, j: int| #[trigger] d.in_grid(i, j) implies d.pixel_consistent(
                i,
                j,
            ) by {
                assert(d.hits_of(i, j) == d.hits_table()[i][j]);
                assert(d.hits_of(i, j) =~= Seq::<PhotonRecord>::empty());
            }
            assert forall|i: int, j: int| #[trigger] d.in_grid(i, j) implies d.extrema_bound(i, j) by {
                assert(d.hits_of(i, j) == d.hits_table()[i][j]);
            }
        }
        Ok(d)
    }

    /// Records the hit `rec` at pixel `(x, y)`.
    fn record_hit(&mut self, x: usize, y: usize, rec: PhotonRecord)
        requires
            old(self).wf(),
            old(self).in_grid(x as int, y as int),
        ensures
            final(self).wf(),
            final(self).records_hit(*old(self), x as int, y as int, rec),
    {
        let ghost prev = *self;
        proof {
            assert(prev.pixel_consistent(x as int, y as int));
            assert(prev.hits_table()[x as int].len() == prev.height());
            lemma_distance_sum_bound(prev.hits_of(x as int, y as int));
        }
        self.pixel_output_array[x][y].push(rec);
        let n = self.pixel_output_array[x][y].len();
        let c = count_at(&self.pixel_array_count, x, y);
        let s = sum_at(&self.pixel_array, x, y);
        proof {
            assert(n as int == c + 1);
            assert(n <= usize::MAX);
            assert(n * 0x8000_0000_0000_0000 <= 0xffff_ffff_ffff_ffff * 0x8000_0000_0000_0000int)
                by (nonlinear_arith)
                requires
                    n <= 0xffff_ffff_ffff_ffffint,
            ;
            assert(c * 0x8000_0000_0000_0000 + 0x8000_0000_0000_0000 == n
                * 0x8000_0000_0000_0000int) by (nonlinear_arith)
                requires
                    n == c + 1,
            ;
        }
        set_count(&mut self.pixel_array_count, x, y, c + 1);
        set_sum(&mut self.pixel_array, x, y, s + rec.distance as i128);
        if rec.distance < self.min_distance {
            self.min_distance = rec.distance;
        }
        if rec.distance > self.max_distance {
            self.max_distance = rec.distance;
        }
        proof {
            let new_hits = prev.hits_table()[x as int][y as int].push(rec);
            assert(self.hits_table() =~~= prev.hits_table().update(
                x as int,
                prev.hits_table()[x as int].update(y as int, new_hits),
            ));
            assert(new_hits.drop_last() == prev.hits_of(x as int, y as int));
            assert forall|i: int, j: int| #[trigger] self.in_grid(i, j) implies self.pixel_consistent(
                i,
                j,
            ) by {
                assert(prev.in_grid(i, j));
                assert(prev.pixel_consistent(i, j));
                assert(self.hits_table()[i][j] == self.hits_of(i, j));
                assert(prev.hits_table()[i][j] == prev.hits_of(i, j));
            }
            assert forall|i: int, j: int| #[trigger] self.in_grid(i, j) implies self.extrema_bound(
                i,
                j,
            ) by {
                assert(prev.in_grid(i, j));
                assert(prev.extrema_bound(i, j));
                assert(self.hits_table()[i][j] == self.hits_of(i, j));
                assert(prev.hits_table()[i][j] == prev.hits_of(i, j));
                assert forall|k: int| 0 <= k < self.hits_of(i, j).len() implies self.min_distance
                    <= (#[trigger] self.hits_of(i, j)[k]).distance <= self.max_distance by {
                    if k < prev.hits_of(i, j).len() {
                        assert(self.hits_of(i, j)[k] == prev.hits_of(i, j)[k]);
                    }
                }
            }
        }
    }

    /// Reduces the buffers to the depth image: each pixel's depth becomes the
    /// mean distance of its hits, rounded down, or `0` when it has none.
    /// Only the depth image changes, and it depends on the counts and sums
    /// alone, so a second call with no hit in between changes nothing.
    pub fn generate_depth_image(&mut self)
        requires
            old(self).wf(),
        ensures
            final(self).wf(),
            final(self).resolution_width == old(self).resolution_width,
            final(self).resolution_height == old(self).resolution_height,
            final(self).pixel_array_count == old(self).pixel_array_count,
            final(self).pixel_array == old(self).pixel_array,
            final(self).pixel_output_array == old(self).pixel_output_array,
            final(self).min_distance == old(self).min_distance,
            final(self).max_distance == old(self).max_distance,
            forall|x: int, y: int|
                old(self).in_grid(x, y) ==> #[trigger] final(self).depth_of(x, y) == mean_depth(
                    old(self).sum_of(x, y),
                    old(self).count_of(x, y),
                ),
    {
        let ghost prev = *self;
        let w = self.resolution_width;
        let h = self.resolution_height;
        let mut x: usize = 0;
        while x < w
            invariant
                prev.wf(),
                w == prev.resolution_width,
                h == prev.resolution_height,
                x <= w,
                self.resolution_width == w,
                self.resolution_height == h,
                self.pixel_array_count == prev.pixel_array_count,
                self.pixel_array == prev.pixel_array,
                self.pixel_output_array == prev.pixel_output_array,
                self.min_distance == prev.min_distance,
                self.max_distance == prev.max_distance,
                shaped(sum_cells(self.depth_image), w as int, h as int),
                forall|i: int, j: int|
                    #[trigger] prev.in_grid(i, j) && i < x ==> self.depth_of(i, j) == mean_depth(
                        prev.sum_of(i, j),
                        prev.count_of(i, j),
                    ),
            decreases w - x,
        {
            let mut y: usize = 0;
            while y < h
                invariant
                    prev.wf(),
                    w == prev.resolution_width,
                    h == prev.resolution_height,
                    x < w,
                    y <= h,
                    self.resolution_width == w,
                    self.resolution_height == h,
                    self.pixel_array_count == prev.pixel_array_count,
                    self.pixel_array == prev.pixel_array,
                    self.pixel_output_array == prev.pixel_output_array,
                    self.min_distance == prev.min_distance,
                    self.max_distance == prev.max_distance,
                    shaped(sum_cells(self.depth_image), w as int, h as int),
                    forall|i: int, j: int|
                        #[trigger] prev.in_grid(i, j) && (i < x || (i == x && j < y))
                            ==> self.depth_of(i, j) == mean_depth(
                            prev.sum_of(i, j),
                            prev.count_of(i, j),
                        ),
                decreases h - y,
            {
                proof {
                    assert(prev.in_grid(x as int, y as int));
                    assert(prev.pixel_consistent(x as int, y as int));
                    assert(count_cells(prev.pixel_array_count)[x as int].len() == h);
                    assert(sum_cells(prev.pixel_array)[x as int].len() == h);
                    assert(sum_cells(self.depth_image)[x as int].len() == h);
                }
                let c = count_at(&self.pixel_array_count, x, y);
                let s = sum_at(&self.pixel_array, x, y);
                let depth: i128 = if c > 0 {
                    proof {
                        lemma_distance_sum_bound(prev.hits_of(x as int, y as int));
                        assert(c * 0x8000_0000_0000_0000 <= 0xffff_ffff_ffff_ffff
                            * 0x8000_0000_0000_0000int) by (nonlinear_arith)
                            requires
                                c <= 0xffff_ffff_ffff_ffffint,
                        ;
                    }
                    floor_div(s, c)
                } else {
                    0
                };
                let ghost before = sum_cells(self.depth_image);
                set_sum(&mut self.depth_image, x, y, depth);
                proof {
                    assert forall|i: int| 0 <= i < w implies (#[trigger] sum_cells(
                        self.depth_image,
                    )[i]).len() == h by {
                        assert(before[i].len() == h);
                    }
                }
                y = y + 1;
            }
            x = x + 1;
        }
        proof {
            assert forall|i: int, j: int| #[trigger] self.in_grid(i, j) implies self.pixel_consistent(
                i,
                j,
            ) by {
                assert(prev.in_grid(i, j));
            }
            assert forall|i: int, j: int| #[trigger] self.in_grid(i, j) implies self.extrema_bound(
                i,
                j,
            ) by {
                assert(prev.in_grid(i, j));
            }
        }
    }

    /// The hit lists laid out for storage: one list per pixel, `width *
    /// height` lists in all, pixel `(x, y)` at position `x * height + y`.
    /// Pixels without hits give empty lists.
    pub fn photon_records(&self) -> (r: Vec<Vec<PhotonRecord>>)
        requires
            self.wf(),
        ensures
            r@.len() == self.width() * self.height(),
            forall|x: int, y: int|
                #[trigger] self.in_grid(x, y) ==> r@[x * self.height() + y]@ == self.hits_table()[x][y],
    {
        let w = self.resolution_width;
        let h = self.resolution_height;
        let mut out: Vec<Vec<PhotonRecord>> = Vec::new();
        let mut x: usize = 0;
        while x < w
            invariant
                self.wf(),
                w == self.resolution_width,
                h == self.resolution_height,
                x <= w,
                out@.len() == x * h,
                forall|i: int, j: int|
                    #[trigger] self.in_grid(i, j) && i < x ==> out@[i * h + j]@ == self.hits_table()[i][j],
            decreases w - x,
        {
            let mut y: usize = 0;
            while y < h
                invariant
                    self.wf(),
                    w == self.resolution_width,
                    h == self.resolution_height,
                    x < w,
                    y <= h,
                    out@.len() == x * h + y,
                    forall|i: int, j: int|
                        #[trigger] self.in_grid(i, j) && (i < x || (i == x && j < y)) ==> out@[i * h
                            + j]@ == self.hits_table()[i][j],
                decreases h - y,
            {
                proof {
                    assert(self.hits_table()[x as int].len() == h);
                    assert((x + 1) * h <= w * h) by (nonlinear_arith)
                        requires
                            x < w,
                    ;
                    assert((x + 1) * h == x * h + h) by (nonlinear_arith);
                }
                let cell = copy_hits(&self.pixel_output_array[x][y]);
                let ghost before = out@;
                out.push(cell);
                proof {
                    assert forall|i: int, j: int|
                        #[trigger] self.in_grid(i, j) && (i < x || (i == x && j <= y)) implies out@[i
                            * h + j]@ == self.hits_table()[i][j] by {
                        if i < x {
                            assert(i * h + j < x * h) by (nonlinear_arith)
                                requires
                                    i < x,
                                    0 <= j < h,
                            ;
                            assert(out@[i * h + j] == before[i * h + j]);
                        } else if j < y {
                            assert(out@[i * h + j] == before[i * h + j]);
                        }
                    }
                }
                y = y + 1;
            }
            proof {
                assert((x + 1) * h == x * h + h) by (nonlinear_arith);
            }
            x = x + 1;
        }
        out
    }

    /// The width and the height, as stored beside the hit lists.
    pub fn output_shape(&self) -> (r: (u32, u32))
        requires
            self.wf(),
        ensures
            r.0 == self.resolution_width,
            r.1 == self.resolution_height,
    {
        (self.resolution_width as u32, self.resolution_height as u32)
    }

    /// The number of hits at pixel `(x, y)`.
    pub fn pixel_count(&self, x: usize, y: usize) -> (r: u64)
        requires
            self.wf(),
            self.in_grid(x as int, y as int),
        ensures
            r == self.count_of(x as int, y as int),
            r == self.hits_table()[x as int][y as int].len(),
    {
        proof {
            assert(self.pixel_consistent(x as int, y as int));
        }
        count_at(&self.pixel_array_count, x, y)
    }

    /// The sum of the hit distances at pixel `(x, y)`.
    pub fn pixel_distance_sum(&self, x: usize, y: usize) -> (r: i128)
        requires
            self.wf(),
            self.in_grid(x as int, y as int),
        ensures
            r == self.sum_of(x as int, y as int),
            r == distance_sum(self.hits_table()[x as int][y as int]),
    {
        proof {
            assert(self.pixel_consistent(x as int, y as int));
        }
        sum_at(&self.pixel_array, x, y)
    }

    /// The depth of pixel `(x, y)` in the depth image.
    pub fn depth_at(&self, x: usize, y: usize) -> (r: i128)
        requires
            self.wf(),
            self.in_grid(x as int, y as int),
        ensures
            r == self.depth_of(x as int, y as int),
    {
        sum_at(&self.depth_image, x, y)
    }

    /// A copy of the hit list of pixel `(x, y)`, in arrival order.
    pub fn pixel_hits(&self, x: usize, y: usize) -> (r: Vec<PhotonRecord>)
        requires
            self.wf(),
            self.in_grid(x as int, y as int),
        ensures
            r@ == self.hits_table()[x as int][y as int],
    {
        proof {
            assert(self.hits_table()[x as int].len() == self.height());
        }
        copy_hits(&self.pixel_output_array[x][y])
    }

    /// Accepts `photon` at pixel `(x, y)` when it has a collision, travels
    /// toward the detector, and `(x, y)` lies on the grid; otherwise drops it.
    fn accept_at(&mut self, photon: &Ray, x: i128, y: i128) -> (accepted: bool)
        requires
            old(self).wf(),
        ensures
            final(self).wf(),
            accepted == old(self).accepts(*photon, x as int, y as int),
            accepted ==> final(self).records_hit(
                *old(self),
                x as int,
                y as int,
                Self::hit_of(*photon),
            ),
            !accepted ==> *final(self) == *old(self),
    {
        if photon.collision == 0 || !photon.toward_detector {
            return false;
        }
        if 0 <= x && x < self.resolution_width as i128 && 0 <= y && y
            < self.resolution_height as i128 {
            self.record_hit(
                x as usize,
                y as usize,
                PhotonRecord { distance: photon.distance, collision_count: photon.collision },
            );
            true
        } else {
            false
        }
    }

    /// Flash (pinhole) mode: `(pixel_x, pixel_y)` is the pixel that the lens
    /// maps the ray's direction to, each index the floor of the plane
    /// coordinate over the pixel size, measured from the grid's corner. The
    /// hit is recorded at that pixel when it lies on the grid and the ray has
    /// a collision and travels toward the detector; otherwise nothing changes.
    #[allow(non_snake_case)]
    pub fn flashLidar_photon_to_detector(&mut self, photon: &Ray, pixel_x: i64, pixel_y: i64) -> (accepted: bool)
        requires
            old(self).wf(),
        ensures
            final(self).wf(),
            accepted == old(self).accepts(*photon, pixel_x as int, pixel_y as int),
            accepted ==> final(self).records_hit(
                *old(self),
                pixel_x as int,
                pixel_y as int,
                Self::hit_of(*photon),
            ),
            !accepted ==> *final(self) == *old(self),
    {
        self.accept_at(photon, pixel_x as i128, pixel_y as i128)
    }

    /// Flash mode with the transposed orientation: the lens pixel
    /// `(pixel_x, pixel_y)` lands at `(pixel_y, height - 1 - pixel_x)`, that is
    /// the axes swap and the vertical index runs from the top. Acceptance is
    /// otherwise as in `flashLidar_photon_to_detector`.
    pub fn photon_to_detector(&mut self, photon: &Ray, pixel_x: i64, pixel_y: i64) -> (accepted: bool)
        requires
            old(self).wf(),
        ensures
            final(self).wf(),
            accepted == old(self).accepts(
                *photon,
                pixel_y as int,
                old(self).height() - 1 - pixel_x,
            ),
            accepted ==> final(self).records_hit(
                *old(self),
                pixel_y as int,
                old(self).height() - 1 - pixel_x,
                Self::hit_of(*photon),
            ),
            !accepted ==> *final(self) == *old(self),
    {
        let flipped = self.resolution_height as i128 - 1 - pixel_x as i128;
        self.accept_at(photon, pixel_y as i128, flipped)
    }

    /// Scan mode: the ray carries its pixel `(camera_x, camera_y)`. The hit is
    /// recorded there when it lies on the grid and the ray has a collision and
    /// travels toward the detector; otherwise nothing changes.
    #[allow(non_snake_case)]
    pub fn scanLidar_photon_to_detector(&mut self, photon: &Ray) -> (accepted: bool)
        requires
            old(self).wf(),
        ensures
            final(self).wf(),
            accepted == old(self).accepts(*photon, photon.camera_x as int, photon.camera_y as int),
            accepted ==> final(self).records_hit(
                *old(self),
                photon.camera_x as int,
                photon.camera_y as int,
                Self::hit_of(*photon),
            ),
            !accepted ==> *final(self) == *old(self),
    {
        self.accept_at(photon, photon.camera_x as i128, photon.camera_y as i128)
    }
}

} // verus!
