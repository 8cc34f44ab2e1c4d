//! The scene that the renderer shows: its raster, its region of the plane and
//! its iteration cap, and the picture that exact arithmetic would give of it.

use vstd::prelude::*;
use crate::frame::Fill;
use crate::orbit::lemma_minus_half_never_escapes;
use crate::orbit::minus_half;
use crate::orbit::orbit_escape_time;
use crate::orbit::Complex;
use crate::plane::PlanePoint;
use crate::plane::PlaneRegion;
use crate::raster::lemma_sides_positive;
use crate::raster::Pixel;
use crate::raster::Raster;
use crate::shade::lemma_shade_ends;
use crate::shade::Shade;

verus! {

/// Width of the raster, in pixels.
pub const WIDTH: u32 = 1200;

/// Height of the raster, in pixels.
pub const HEIGHT: u32 = 800;

/// Cap on the iteration count of a pixel.
pub const MAX_ITERATIONS: u32 = 80;

/// Lower bound of the real axis.
pub const RE_START: i32 = -2;

/// Upper bound of the real axis.
pub const RE_END: i32 = 1;

/// Lower bound of the imaginary axis.
pub const IM_START: i32 = -1;

/// Upper bound of the imaginary axis.
pub const IM_END: i32 = 1;

/// Whether `raster` is the scene's raster.
pub open spec fn is_scene_raster(raster: Raster) -> bool {
    &&& raster.wf()
    &&& raster.spec_width() == WIDTH
    &&& raster.spec_height() == HEIGHT
}

/// Whether `region` is the scene's region of the plane.
pub open spec fn is_scene_region(region: PlaneRegion) -> bool {
    &&& region.wf()
    &&& region.spec_re_start() == RE_START
    &&& region.spec_re_end() == RE_END
    &&& region.spec_im_start() == IM_START
    &&& region.spec_im_end() == IM_END
}

/// The scene's raster, `WIDTH` by `HEIGHT`.
pub fn scene_raster() -> (raster: Raster)
    ensures
        is_scene_raster(raster),
{
    Raster::new(WIDTH, HEIGHT).unwrap()
}

/// The scene's region of the plane.
pub fn scene_region() -> (region: PlaneRegion)
    ensures
        is_scene_region(region),
{
    PlaneRegion::new(RE_START, RE_END, IM_START, IM_END).unwrap()
}

/// The complex number that a sampled point stands for.
pub open spec fn number(point: PlanePoint) -> Complex {
    Complex { re: point.re.value(), im: point.im.value() }
}

/// The iteration count that exact arithmetic gives pixel `p`.
pub open spec fn exact_count(raster: Raster, region: PlaneRegion, cap: nat, p: Pixel) -> nat {
    orbit_escape_time(number(region.sample(raster, p)), cap)
}

/// The fill that exact arithmetic gives pixel `p`.
pub open spec fn exact_fill(raster: Raster, region: PlaneRegion, cap: nat, p: Pixel) -> Fill {
    Fill { pixel: p, shade: Shade::of(exact_count(raster, region, cap, p), cap) }
}

/// In the scene, the pixel in column 600 and row 400 stands for `-1/2`, whose
/// orbit never escapes: in exact arithmetic its iteration count is the cap
/// and its shade is 0.
pub proof fn lemma_centre_pixel(raster: Raster, region: PlaneRegion)
    requires
        is_scene_raster(raster),
        is_scene_region(region),
    ensures
        raster.contains(Pixel { x: 600, y: 400 }),
        number(region.sample(raster, Pixel { x: 600, y: 400 })) == minus_half(),
        exact_count(raster, region, MAX_ITERATIONS as nat, Pixel { x: 600, y: 400 })
            == MAX_ITERATIONS,
        exact_fill(raster, region, MAX_ITERATIONS as nat, Pixel { x: 600, y: 400 }).shade.value()
            == 0real,
{
    let p = Pixel { x: 600, y: 400 };
    let point = region.sample(raster, p);
    lemma_sides_positive(raster);
    assert(point.re.value() == -1real / 2real) by (nonlinear_arith)
        requires
            point.re.value() == (-2) as real + (600 as real / 1200 as real) * (3 as real),
    ;
    assert(point.im.value() == 0real) by (nonlinear_arith)
        requires
            point.im.value() == (-1) as real + (400 as real / 800 as real) * (2 as real),
    ;
    lemma_minus_half_never_escapes(MAX_ITERATIONS as nat);
    lemma_shade_ends(MAX_ITERATIONS as nat);
}

} // verus!
