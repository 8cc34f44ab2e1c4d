//! A whole frame: the points to evaluate, in sweep order, and the fills that
//! their iteration counts give.

use vstd::prelude::*;
use crate::plane::PlanePoint;
use crate::plane::PlaneRegion;
use crate::raster::Pixel;
use crate::raster::Raster;
use crate::shade::Shade;

verus! {

/// The request to fill the unit square at `pixel` with white of opacity
/// `shade`.
#[derive(Clone, Copy, Debug, PartialEq, Eq, Structural)]
pub struct Fill {
    pub pixel: Pixel,
    pub shade: Shade,
}

/// The points of the plane that a frame evaluates, in sweep order.
pub open spec fn grid_points(raster: Raster, region: PlaneRegion) -> Seq<PlanePoint> {
    Seq::new(raster.area(), |i: int| region.sample(raster, raster.sweep_pixel(i as nat)))
}

/// Whether `counts` holds one iteration count for each pixel of `raster`,
/// none above `cap`.
pub open spec fn counts_fit(raster: Raster, cap: nat, counts: Seq<u32>) -> bool {
    &&& counts.len() == raster.area()
    &&& forall|i: int| 0 <= i < counts.len() ==> counts[i] <= cap
}

/// The fills of a frame whose pixels, in sweep order, have the iteration
/// counts `counts`. Each fill depends on its own pixel's count alone.
pub open spec fn frame_fills(raster: Raster, cap: nat, counts: Seq<u32>) -> Seq<Fill> {
    Seq::new(
        counts.len(),
        |i: int|
            Fill { pixel: raster.sweep_pixel(i as nat), shade: Shade::of(counts[i] as nat, cap) },
    )
}

/// The points of the plane to evaluate for one frame, in sweep order.
pub fn sample_grid(raster: &Raster, region: &PlaneRegion) -> (points: Vec<PlanePoint>)
    ensures
        points@ == grid_points(*raster, *region),
        points@.len() == raster.area(),
        forall|i: int| 0 <= i < points@.len() ==> (#[trigger] points@[i]).wf(),
{
    let n: u64 = raster.pixel_count();
    let mut points: Vec<PlanePoint> = Vec::new();
    let mut i: u64 = 0;
    while i < n
        invariant
            n == raster.area(),
            i <= n,
            points@.len() == i,
            forall|j: int|
                0 <= j < i ==> #[trigger] points@[j] == region.sample(
                    *raster,
                    raster.sweep_pixel(j as nat),
                ) && points@[j].wf(),
        decreases n - i,
    {
        let pixel = raster.pixel_at(i).unwrap();
        let point = region.locate(raster, pixel).unwrap();
        points.push(point);
        i = i + 1;
    }
    assert(points@ =~= grid_points(*raster, *region));
    points
}

/// The fills of one frame, in sweep order, from the iteration counts of its
/// pixels in that order. `None` if the cap is zero, if `counts` does not hold
/// one count for each pixel, or if a count exceeds the cap.
pub fn shade_frame(raster: &Raster, cap: u32, counts: &Vec<u32>) -> (fills: Option<Vec<Fill>>)
    ensures
        fills.is_some() <==> cap > 0 && counts_fit(*raster, cap as nat, counts@),
        fills matches Some(f) ==> {
            &&& f@ == frame_fills(*raster, cap as nat, counts@)
            &&& forall|i: int|
                0 <= i < f@.len() ==> raster.contains((#[trigger] f@[i]).pixel) && f@[i].shade.wf()
        },
{
    let n: u64 = raster.pixel_count();
    if cap == 0 || counts.len() as u64 != n {
        return None;
    }
    let mut fills: Vec<Fill> = Vec::new();
    let mut i: usize = 0;
    while i < counts.len()
        invariant
            cap > 0,
            n == raster.area(),
            counts.len() == n,
            i <= counts.len(),
            fills@.len() == i,
            forall|j: int| 0 <= j < i ==> counts@[j] <= cap,
            forall|j: int|
                0 <= j < i ==> #[trigger] fills@[j] == (Fill {
                    pixel: raster.sweep_pixel(j as nat),
                    shade: Shade::of(counts@[j] as nat, cap as nat),
                }) && raster.contains(fills@[j].pixel) && fills@[j].shade.wf(),
        decreases counts.len() - i,
    {
        let pixel = raster.pixel_at(i as u64).unwrap();
        match Shade::from_count(counts[i], cap) {
            Some(shade) => {
                fills.push(Fill { pixel, shade });
            },
            None => {
                assert(counts@[i as int] > cap);
                return None;
            },
        }
        i = i + 1;
    }
    assert(fills@ =~= frame_fills(*raster, cap as nat, counts@));
    Some(fills)
}

} // verus!
