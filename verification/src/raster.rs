//! The pixel grid and the order in which a frame sweeps it.

use vstd::prelude::*;

verus! {

/// A pixel position: column `x`, row `y`.
#[derive(Clone, Copy, Debug, PartialEq, Eq, Structural)]
pub struct Pixel {
    pub x: u32,
    pub y: u32,
}

/// A grid of `width` by `height` pixels. Both sides are positive.
#[derive(Clone, Copy, Debug)]
pub struct Raster {
    width: u32,
    height: u32,
}

impl Raster {
    /// Both sides are positive.
    #[verifier::type_invariant]
    pub closed spec fn wf(self) -> bool {
        self.width > 0 && self.height > 0
    }

    /// Number of columns.
    pub closed spec fn spec_width(self) -> nat {
        self.width as nat
    }

    /// Number of rows.
    pub closed spec fn spec_height(self) -> nat {
        self.height as nat
    }

    /// Number of pixels in the grid.
    pub open spec fn area(self) -> nat {
        self.spec_width() * self.spec_height()
    }

    /// Whether `p` lies on the grid.
    pub open spec fn contains(self, p: Pixel) -> bool {
        p.x < self.spec_width() && p.y < self.spec_height()
    }

    /// Position of `p` in the sweep: columns from left to right, and each
    /// column from its first row to its last.
    pub open spec fn sweep_index(self, p: Pixel) -> nat {
        p.x as nat * self.spec_height() + p.y as nat
    }

    /// The pixel that the sweep reaches at position `index`.
    pub open spec fn sweep_pixel(self, index: nat) -> Pixel {
        Pixel {
            x: (index / self.spec_height()) as u32,
            y: (index % self.spec_height()) as u32,
        }
    }

    /// A raster of the given size, or `None` if a side is zero.
    pub fn new(width: u32, height: u32) -> (r: Option<Raster>)
        ensures
            r.is_some() <==> width > 0 && height > 0,
            r matches Some(g) ==> g.wf() && g.spec_width() == width && g.spec_height() == height,
    {
        if width == 0 || height == 0 {
            None
        } else {
            Some(Raster { width, height })
        }
    }

    /// Number of columns.
    pub fn width(&self) -> (w: u32)
        ensures
            w == self.spec_width(),
            w > 0,
    {
        proof {
            use_type_invariant(self);
        }
        self.width
    }

    /// Number of rows.
    pub fn height(&self) -> (h: u32)
        ensures
            h == self.spec_height(),
            h > 0,
    {
        proof {
            use_type_invariant(self);
        }
        self.height
    }

    /// Number of pixels in the grid.
    pub fn pixel_count(&self) -> (n: u64)
        ensures
            n == self.area(),
            n > 0,
    {
        proof {
            use_type_invariant(self);
            lemma_area_bounds(self.width as nat, self.height as nat);
        }
        let w: u64 = self.width as u64;
        let h: u64 = self.height as u64;
        w * h
    }

    /// Whether `p` lies on the grid.
    pub fn has_pixel(&self, p: Pixel) -> (b: bool)
        ensures
            b == self.contains(p),
    {
        p.x < self.width && p.y < self.height
    }

    /// The pixel at position `index` of the sweep, if the sweep is that long.
    pub fn pixel_at(&self, index: u64) -> (p: Option<Pixel>)
        ensures
            p.is_some() <==> index < self.area(),
            p matches Some(q) ==> q == self.sweep_pixel(index as nat) && self.contains(q)
                && self.sweep_index(q) == index,
    {
        let n: u64 = self.pixel_count();
        if index >= n {
            return None;
        }
        proof {
            use_type_invariant(self);
            lemma_sweep_pixel_on_grid(*self, index as nat);
        }
        let h: u64 = self.height as u64;
        let x: u64 = index / h;
        let y: u64 = index % h;
        Some(Pixel { x: x as u32, y: y as u32 })
    }

    /// The position at which the sweep reaches `p`, if `p` lies on the grid.
    pub fn index_of(&self, p: Pixel) -> (i: Option<u64>)
        ensures
            i.is_some() <==> self.contains(p),
            i matches Some(k) ==> k == self.sweep_index(p) && k < self.area()
                && self.sweep_pixel(k as nat) == p,
    {
        if !self.has_pixel(p) {
            return None;
        }
        proof {
            use_type_invariant(self);
            lemma_sweep_index_in_range(*self, p);
            lemma_area_bounds(self.width as nat, self.height as nat);
        }
        let h: u64 = self.height as u64;
        let x: u64 = p.x as u64;
        let y: u64 = p.y as u64;
        Some(x * h + y)
    }
}

/// Both sides of a well-formed raster are positive and fit in 32 bits.
pub proof fn lemma_sides_positive(r: Raster)
    requires
        r.wf(),
    ensures
        0 < r.spec_width() <= u32::MAX,
        0 < r.spec_height() <= u32::MAX,
{
}

/// The product of two 32-bit sides fits in 64 bits and is positive when both
/// sides are.
pub proof fn lemma_area_bounds(w: nat, h: nat)
    requires
        0 < w <= u32::MAX,
        0 < h <= u32::MAX,
    ensures
        0 < w * h <= u64::MAX,
{
    assert(0 < w * h <= 0xffff_ffff * 0xffff_ffff) by (nonlinear_arith)
        requires
            0 < w <= 0xffff_ffff,
            0 < h <= 0xffff_ffff,
    ;
}

/// Every position of the sweep names a pixel of the grid, and that pixel is
/// reached at exactly that position.
pub proof fn lemma_sweep_pixel_on_grid(r: Raster, index: nat)
    requires
        r.wf(),
        index < r.area(),
    ensures
        r.contains(r.sweep_pixel(index)),
        r.sweep_pixel(index).x == index / r.spec_height(),
        r.sweep_pixel(index).y == index % r.spec_height(),
        r.sweep_index(r.sweep_pixel(index)) == index,
{
    let w = r.spec_width() as int;
    let h = r.spec_height() as int;
    let i = index as int;
    assert(0 <= i / h < w && 0 <= i % h < h && (i / h) * h + i % h == i) by (nonlinear_arith)
        requires
            0 <= i < w * h,
            0 < h,
            0 < w,
    ;
}

/// Every pixel of the grid is reached by the sweep, at a position that leads
/// back to the pixel.
pub proof fn lemma_sweep_index_in_range(r: Raster, p: Pixel)
    requires
        r.wf(),
        r.contains(p),
    ensures
        r.sweep_index(p) < r.area(),
        r.sweep_pixel(r.sweep_index(p)) == p,
{
    let w = r.spec_width() as int;
    let h = r.spec_height() as int;
    let x = p.x as int;
    let y = p.y as int;
    assert(x * h + y < w * h && (x * h + y) / h == x && (x * h + y) % h == y) by (nonlinear_arith)
        requires
            0 <= x < w,
            0 <= y < h,
    ;
}

/// The sweep visits each pixel once: two positions that reach the same pixel
/// are the same position.
pub proof fn lemma_sweep_visits_once(r: Raster, i: nat, j: nat)
    requires
        r.wf(),
        i < r.area(),
        j < r.area(),
        r.sweep_pixel(i) == r.sweep_pixel(j),
    ensures
        i == j,
{
    lemma_sweep_pixel_on_grid(r, i);
    lemma_sweep_pixel_on_grid(r, j);
}

} // verus!
