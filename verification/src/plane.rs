//! The rectangle of the complex plane that a frame shows, and the linear map
//! from pixels onto it, in exact arithmetic.

use vstd::prelude::*;
use crate::raster::lemma_sides_positive;
use crate::raster::Pixel;
use crate::raster::Raster;

verus! {

/// One coordinate of a sampled point: the point `step / steps` of the way
/// from `start` to `start + span`.
///
/// The four integers are the operands of the sampling formula; `value` is the
/// number they stand for.
#[derive(Clone, Copy, Debug, PartialEq, Eq, Structural)]
pub struct Coordinate {
    /// Lower bound of the axis.
    pub start: i32,
    /// Length of the axis.
    pub span: u32,
    /// Index of the sample along the axis.
    pub step: u32,
    /// Number of samples along the axis.
    pub steps: u32,
}

impl Coordinate {
    /// The axis has positive length and ends within `i32`, and the sample is
    /// one of its `steps` samples.
    pub open spec fn wf(self) -> bool {
        &&& self.span > 0
        &&& self.start + self.span <= i32::MAX
        &&& self.step < self.steps
    }

    /// The number this coordinate stands for:
    /// `start + (step / steps) * span`.
    pub open spec fn value(self) -> real {
        self.start as real + (self.step as real / self.steps as real) * self.span as real
    }

    /// `value` times `steps`, which is an integer.
    pub open spec fn scaled(self) -> int {
        self.start * self.steps + self.span * self.step
    }

    /// Upper bound of the axis, which no sample reaches.
    pub open spec fn end(self) -> int {
        self.start + self.span
    }

    /// Numerator of `value` over the denominator `steps`.
    pub fn numerator(&self) -> (n: i64)
        requires
            self.wf(),
        ensures
            n == self.scaled(),
    {
        proof {
            lemma_scaled_bounds(*self);
        }
        let start: i64 = self.start as i64;
        let rest: i64 = (self.steps - self.step) as i64;
        let end: i64 = start + self.span as i64;
        let step: i64 = self.step as i64;
        assert(start * rest + end * step == self.scaled()) by (nonlinear_arith)
            requires
                rest == self.steps - self.step,
                end == start + self.span,
                step == self.step,
                start == self.start,
        ;
        assert(-0x8000_0000 * 0xffff_ffff <= start * rest <= 0x7fff_ffff * 0xffff_ffff)
            by (nonlinear_arith)
            requires
                -0x8000_0000 <= start <= 0x7fff_ffff,
                0 <= rest <= 0xffff_ffff,
        ;
        assert(-0x8000_0000 * 0xffff_ffff <= end * step <= 0x7fff_ffff * 0xffff_ffff)
            by (nonlinear_arith)
            requires
                -0x8000_0000 <= end <= 0x7fff_ffff,
                0 <= step <= 0xffff_ffff,
        ;
        start * rest + end * step
    }

    /// Denominator of `value`: the number of samples along the axis.
    pub fn denominator(&self) -> (d: i64)
        requires
            self.wf(),
        ensures
            d == self.steps,
            d > 0,
    {
        self.steps as i64
    }
}

/// `scaled` lies between the two ends of the axis, each times `steps`, and
/// so fits in 64 bits.
pub proof fn lemma_scaled_bounds(c: Coordinate)
    requires
        c.wf(),
    ensures
        c.start * c.steps <= c.scaled() < c.end() * c.steps,
        i64::MIN < c.scaled() < i64::MAX,
{
    let start = c.start as int;
    let span = c.span as int;
    let step = c.step as int;
    let steps = c.steps as int;
    assert(start * steps <= start * steps + span * step < (start + span) * steps) by (nonlinear_arith)
        requires
            0 < span,
            0 <= step < steps,
    ;
    assert(-0x8000_0000 * 0xffff_ffff <= start * steps) by (nonlinear_arith)
        requires
            -0x8000_0000 <= start,
            0 < steps <= 0xffff_ffff,
    ;
    assert((start + span) * steps <= 0x7fff_ffff * 0xffff_ffff) by (nonlinear_arith)
        requires
            start + span <= 0x7fff_ffff,
            0 < steps <= 0xffff_ffff,
    ;
}

/// A sampled point of the complex plane.
#[derive(Clone, Copy, Debug, PartialEq, Eq, Structural)]
pub struct PlanePoint {
    /// Real part.
    pub re: Coordinate,
    /// Imaginary part.
    pub im: Coordinate,
}

impl PlanePoint {
    /// Both coordinates are well formed.
    pub open spec fn wf(self) -> bool {
        self.re.wf() && self.im.wf()
    }
}

/// A rectangle of the complex plane with integer corners:
/// `re_start <= re < re_end` and `im_start <= im < im_end`.
#[derive(Clone, Copy, Debug)]
pub struct PlaneRegion {
    re_start: i32,
    re_end: i32,
    im_start: i32,
    im_end: i32,
}

impl PlaneRegion {
    /// The rectangle is not empty along either axis.
    #[verifier::type_invariant]
    pub closed spec fn wf(self) -> bool {
        self.re_start < self.re_end && self.im_start < self.im_end
    }

    /// Lower bound of the real axis.
    pub closed spec fn spec_re_start(self) -> int {
        self.re_start as int
    }

    /// Upper bound of the real axis.
    pub closed spec fn spec_re_end(self) -> int {
        self.re_end as int
    }

    /// Lower bound of the imaginary axis.
    pub closed spec fn spec_im_start(self) -> int {
        self.im_start as int
    }

    /// Upper bound of the imaginary axis.
    pub closed spec fn spec_im_end(self) -> int {
        self.im_end as int
    }

    /// The point of the plane that pixel `p` of `raster` stands for: column
    /// `x` of `width` along the real axis, row `y` of `height` along the
    /// imaginary axis.
    pub open spec fn sample(self, raster: Raster, p: Pixel) -> PlanePoint {
        PlanePoint {
            re: Coordinate {
                start: self.spec_re_start() as i32,
                span: (self.spec_re_end() - self.spec_re_start()) as u32,
                step: p.x,
                steps: raster.spec_width() as u32,
            },
            im: Coordinate {
                start: self.spec_im_start() as i32,
                span: (self.spec_im_end() - self.spec_im_start()) as u32,
                step: p.y,
                steps: raster.spec_height() as u32,
            },
        }
    }

    /// The rectangle with the given bounds, or `None` if a lower bound is not
    /// below its upper bound.
    pub fn new(re_start: i32, re_end: i32, im_start: i32, im_end: i32) -> (r: Option<PlaneRegion>)
        ensures
            r.is_some() <==> re_start < re_end && im_start < im_end,
            r matches Some(g) ==> {
                &&& g.wf()
                &&& g.spec_re_start() == re_start
                &&& g.spec_re_end() == re_end
                &&& g.spec_im_start() == im_start
                &&& g.spec_im_end() == im_end
            },
    {
        if re_start < re_end && im_start < im_end {
            Some(PlaneRegion { re_start, re_end, im_start, im_end })
        } else {
            None
        }
    }

    /// Lower bound of the real axis.
    pub fn re_start(&self) -> (v: i32)
        ensures
            v == self.spec_re_start(),
    {
        self.re_start
    }

    /// Upper bound of the real axis.
    pub fn re_end(&self) -> (v: i32)
        ensures
            v == self.spec_re_end(),
    {
        self.re_end
    }

    /// Lower bound of the imaginary axis.
    pub fn im_start(&self) -> (v: i32)
        ensures
            v == self.spec_im_start(),
    {
        self.im_start
    }

    /// Upper bound of the imaginary axis.
    pub fn im_end(&self) -> (v: i32)
        ensures
            v == self.spec_im_end(),
    {
        self.im_end
    }

    /// The point of the plane that pixel `p` of `raster` stands for, or
    /// `None` if `p` is not on the raster.
    pub fn locate(&self, raster: &Raster, p: Pixel) -> (point: Option<PlanePoint>)
        ensures
            point.is_some() <==> raster.contains(p),
            point matches Some(q) ==> q == self.sample(*raster, p) && q.wf(),
    {
        if !raster.has_pixel(p) {
            return None;
        }
        proof {
            use_type_invariant(self);
        }
        let re_span: i64 = self.re_end as i64 - self.re_start as i64;
        let im_span: i64 = self.im_end as i64 - self.im_start as i64;
        Some(
            PlanePoint {
                re: Coordinate {
                    start: self.re_start,
                    span: re_span as u32,
                    step: p.x,
                    steps: raster.width(),
                },
                im: Coordinate {
                    start: self.im_start,
                    span: im_span as u32,
                    step: p.y,
                    steps: raster.height(),
                },
            },
        )
    }
}

/// A coordinate's value is its integer numerator over its number of steps.
pub proof fn lemma_value_times_steps(c: Coordinate)
    requires
        c.wf(),
    ensures
        c.value() * (c.steps as real) == c.scaled() as real,
{
    let start = c.start as real;
    let span = c.span as real;
    let step = c.step as real;
    let steps = c.steps as real;
    assert((start + (step / steps) * span) * steps == start * steps + span * step)
        by (nonlinear_arith)
        requires
            steps > 0real,
    ;
    assert(c.scaled() as real == start * steps + span * step) by (nonlinear_arith)
        requires
            start == c.start as real,
            span == c.span as real,
            step == c.step as real,
            steps == c.steps as real,
            c.scaled() == c.start * c.steps + c.span * c.step,
    ;
}

/// Every sample lies on its axis: at or above the lower bound, and strictly
/// below the upper bound.
pub proof fn lemma_value_on_axis(c: Coordinate)
    requires
        c.wf(),
    ensures
        c.start as real <= c.value() < c.end() as real,
{
    let start = c.start as real;
    let span = c.span as real;
    let step = c.step as real;
    let steps = c.steps as real;
    assert(start <= start + (step / steps) * span < start + span) by (nonlinear_arith)
        requires
            0real <= step < steps,
            0real < span,
    ;
}

/// The first sample of an axis is its lower bound.
pub proof fn lemma_first_value_is_start(c: Coordinate)
    requires
        c.wf(),
        c.step == 0,
    ensures
        c.value() == c.start as real,
{
    let span = c.span as real;
    let steps = c.steps as real;
    assert((0real / steps) * span == 0real) by (nonlinear_arith)
        requires
            steps > 0real,
    ;
}

/// Neighbouring samples of an axis are `span / steps` apart.
pub proof fn lemma_values_evenly_spaced(a: Coordinate, b: Coordinate)
    requires
        a.wf(),
        b.wf(),
        a.start == b.start,
        a.span == b.span,
        a.steps == b.steps,
        b.step == a.step + 1,
    ensures
        b.value() - a.value() == a.span as real / a.steps as real,
{
    let span = a.span as real;
    let steps = a.steps as real;
    let s = a.step as real;
    assert(((s + 1real) / steps) * span - (s / steps) * span == span / steps) by (nonlinear_arith)
        requires
            steps > 0real,
    ;
}

/// Two samples of one axis that have the same value are the same sample.
pub proof fn lemma_values_distinct(a: Coordinate, b: Coordinate)
    requires
        a.wf(),
        b.wf(),
        a.start == b.start,
        a.span == b.span,
        a.steps == b.steps,
        a.value() == b.value(),
    ensures
        a.step == b.step,
{
    lemma_value_times_steps(a);
    lemma_value_times_steps(b);
    assert(a.scaled() == b.scaled());
    let span = a.span as int;
    let x = a.step as int;
    let y = b.step as int;
    assert(x == y) by (nonlinear_arith)
        requires
            span > 0,
            span * x == span * y,
    ;
}

/// Every pixel of the raster maps to a well-formed point inside the region:
/// at or above each lower bound and strictly below each upper bound.
pub proof fn lemma_sample_in_region(region: PlaneRegion, raster: Raster, p: Pixel)
    requires
        region.wf(),
        raster.wf(),
        raster.contains(p),
    ensures
        region.sample(raster, p).wf(),
        region.spec_re_start() as real <= region.sample(raster, p).re.value(),
        region.sample(raster, p).re.value() < region.spec_re_end() as real,
        region.spec_im_start() as real <= region.sample(raster, p).im.value(),
        region.sample(raster, p).im.value() < region.spec_im_end() as real,
{
    lemma_sides_positive(raster);
    let point = region.sample(raster, p);
    lemma_value_on_axis(point.re);
    lemma_value_on_axis(point.im);
}

/// The first pixel of the raster maps to the lower corner of the region.
pub proof fn lemma_first_pixel_is_corner(region: PlaneRegion, raster: Raster)
    requires
        region.wf(),
        raster.wf(),
    ensures
        region.sample(raster, Pixel { x: 0, y: 0 }).re.value() == region.spec_re_start() as real,
        region.sample(raster, Pixel { x: 0, y: 0 }).im.value() == region.spec_im_start() as real,
{
    lemma_sides_positive(raster);
    let point = region.sample(raster, Pixel { x: 0, y: 0 });
    lemma_first_value_is_start(point.re);
    lemma_first_value_is_start(point.im);
}

/// The map from pixels to points is one to one: two pixels of the raster
/// that map to the same complex number are the same pixel.
pub proof fn lemma_sample_one_to_one(region: PlaneRegion, raster: Raster, p: Pixel, q: Pixel)
    requires
        region.wf(),
        raster.wf(),
        raster.contains(p),
        raster.contains(q),
        region.sample(raster, p).re.value() == region.sample(raster, q).re.value(),
        region.sample(raster, p).im.value() == region.sample(raster, q).im.value(),
    ensures
        p == q,
{
    lemma_sides_positive(raster);
    let a = region.sample(raster, p);
    let b = region.sample(raster, q);
    lemma_values_distinct(a.re, b.re);
    lemma_values_distinct(a.im, b.im);
}

/// The samples are spread evenly: stepping one column to the right moves the
/// real part by the region's width over the raster's, and leaves the
/// imaginary part alone; stepping one row down does the same along the other
/// axis.
pub proof fn lemma_sample_uniform(region: PlaneRegion, raster: Raster, p: Pixel)
    requires
        region.wf(),
        raster.wf(),
        raster.contains(p),
    ensures
        raster.contains(Pixel { x: (p.x + 1) as u32, y: p.y }) ==> {
            let right = region.sample(raster, Pixel { x: (p.x + 1) as u32, y: p.y });
            &&& right.re.value() - region.sample(raster, p).re.value() == (region.spec_re_end()
                - region.spec_re_start()) as real / raster.spec_width() as real
            &&& right.im == region.sample(raster, p).im
        },
        raster.contains(Pixel { x: p.x, y: (p.y + 1) as u32 }) ==> {
            let below = region.sample(raster, Pixel { x: p.x, y: (p.y + 1) as u32 });
            &&& below.im.value() - region.sample(raster, p).im.value() == (region.spec_im_end()
                - region.spec_im_start()) as real / raster.spec_height() as real
            &&& below.re == region.sample(raster, p).re
        },
{
    lemma_sides_positive(raster);
    let here = region.sample(raster, p);
    let right_pixel = Pixel { x: (p.x + 1) as u32, y: p.y };
    if raster.contains(right_pixel) {
        lemma_values_evenly_spaced(here.re, region.sample(raster, right_pixel).re);
    }
    let below_pixel = Pixel { x: p.x, y: (p.y + 1) as u32 };
    if raster.contains(below_pixel) {
        lemma_values_evenly_spaced(here.im, region.sample(raster, below_pixel).im);
    }
}

} // verus!
