use vstd::prelude::*;
use vstd::arithmetic::div_mod::{lemma_fundamental_div_mod, lemma_div_pos_is_pos, lemma_mod_bound, lemma_fundamental_div_mod_converse};
use vstd::arithmetic::mul::{lemma_mul_inequality, lemma_mul_is_commutative};

verus! {

/// Resolution of the image that a render fills, in pixels.
#[derive(Clone, Copy, Debug, PartialEq, Eq, Structural)]
pub struct Raster {
    pub img_w: u32,
    pub img_h: u32,
}

/// Why a raster cannot be rendered.
#[derive(Clone, Copy, Debug, PartialEq, Eq, Structural)]
pub enum RegionError {
    /// The image has no columns.
    ZeroWidth,
    /// The image has no rows.
    ZeroHeight,
    /// The number of pixels does not fit the index space of a render.
    TooManyPixels,
}

/// Which end of the imaginary axis image row 0 shows.
#[derive(Clone, Copy, Debug, PartialEq, Eq, Structural)]
pub enum Orientation {
    /// Row 0 is the top of the plane window (the largest imaginary part),
    /// as image formats with a top-left origin expect.
    TopDown,
    /// Row 0 is the bottom of the plane window, as in mathematical axes.
    BottomUp,
}

/// Number of pixels of a `w` by `h` image.
pub open spec fn pixel_count(w: u32, h: u32) -> int {
    w as int * h as int
}

/// Row-major index of the pixel in column `x` and row `y`.
pub open spec fn index_of(w: u32, x: u32, y: u32) -> int {
    y as int * w as int + x as int
}

impl Raster {
    /// A raster can be rendered: both sides are positive and every pixel
    /// has a `u32` index.
    pub open spec fn is_valid(self) -> bool {
        &&& self.img_w >= 1
        &&& self.img_h >= 1
        &&& pixel_count(self.img_w, self.img_h) <= u32::MAX
    }

    /// The error that validation reports for this raster, if any.
    pub open spec fn error_of(self) -> Option<RegionError> {
        if self.img_w == 0 {
            Some(RegionError::ZeroWidth)
        } else if self.img_h == 0 {
            Some(RegionError::ZeroHeight)
        } else if pixel_count(self.img_w, self.img_h) > u32::MAX {
            Some(RegionError::TooManyPixels)
        } else {
            None
        }
    }

    /// A square raster of `resolution * supersample` pixels a side, or
    /// `None` where that side does not fit a `u32`.
    pub fn square(resolution: u32, supersample: u32) -> (r: Option<Raster>)
        ensures
            resolution as int * supersample as int <= u32::MAX <==> r is Some,
            r matches Some(g) ==> g.img_w as int == resolution as int * supersample as int
                && g.img_h == g.img_w,
    {
        match resolution.checked_mul(supersample) {
            Some(side) => Some(Raster { img_w: side, img_h: side }),
            None => None,
        }
    }

    /// Offsets, in pixel steps from the low end of each axis of the plane
    /// window, of the point that pixel `(x, y)` samples. The point is
    /// `min + offset / side * (max - min)` on each axis, with `img_w` as the
    /// side of the real axis and `img_h` that of the imaginary one.
    pub open spec fn offsets_of(self, x: u32, y: u32, orientation: Orientation) -> (u32, u32) {
        match orientation {
            Orientation::TopDown => (x, (self.img_h - y) as u32),
            Orientation::BottomUp => (x, y),
        }
    }

    /// Offsets of the plane point that pixel `(x, y)` samples (see `offsets_of`).
    pub fn plane_offsets(&self, x: u32, y: u32, orientation: Orientation) -> (r: (u32, u32))
        requires
            x < self.img_w,
            y < self.img_h,
        ensures
            r == self.offsets_of(x, y, orientation),
            r.0 < self.img_w,
            r.1 <= self.img_h,
            orientation is TopDown ==> r.1 >= 1,
    {
        match orientation {
            Orientation::TopDown => (x, self.img_h - y),
            Orientation::BottomUp => (x, y),
        }
    }

    /// Row-major index of pixel `(x, y)`.
    pub fn pixel_index(&self, x: u32, y: u32) -> (r: u32)
        requires
            self.is_valid(),
            x < self.img_w,
            y < self.img_h,
        ensures
            r as int == index_of(self.img_w, x, y),
            r < pixel_count(self.img_w, self.img_h),
    {
        proof {
            lemma_index_in_range(self.img_w, self.img_h, x, y);
        }
        y * self.img_w + x
    }

    /// Column and row of the pixel at row-major index `i`.
    pub fn pixel_coords(&self, i: u32) -> (r: (u32, u32))
        requires
            self.img_w >= 1,
        ensures
            r.0 as int == i as int % self.img_w as int,
            r.1 as int == i as int / self.img_w as int,
            r.0 < self.img_w,
            i < pixel_count(self.img_w, self.img_h) ==> r.1 < self.img_h,
            index_of(self.img_w, r.0, r.1) == i,
    {
        proof {
            lemma_coords_of_index(self.img_w, self.img_h, i);
        }
        (i % self.img_w, i / self.img_w)
    }

    /// Checks the raster before a render and returns its number of pixels.
    pub fn validate(&self) -> (r: Result<u32, RegionError>)
        ensures
            self.error_of() is None <==> self.is_valid(),
            r is Ok <==> self.is_valid(),
            r matches Ok(n) ==> n as int == pixel_count(self.img_w, self.img_h),
            r matches Err(e) ==> self.error_of() == Some(e),
    {
        if self.img_w == 0 {
            Err(RegionError::ZeroWidth)
        } else if self.img_h == 0 {
            Err(RegionError::ZeroHeight)
        } else {
            match self.img_w.checked_mul(self.img_h) {
                Some(n) => Ok(n),
                None => Err(RegionError::TooManyPixels),
            }
        }
    }
}

/// Every pixel of a `w` by `h` image has an index below `w * h`.
pub proof fn lemma_index_in_range(w: u32, h: u32, x: u32, y: u32)
    requires
        x < w,
        y < h,
    ensures
        0 <= index_of(w, x, y) < pixel_count(w, h),
{
    lemma_mul_inequality(y as int + 1, h as int, w as int);
    assert((y as int + 1) * w as int == y as int * w as int + w as int) by (nonlinear_arith);
    lemma_mul_is_commutative(h as int, w as int);
    assert(y as int * w as int >= 0) by (nonlinear_arith);
}

/// The column `i % w` and row `i / w` of index `i` lie in the image and map
/// back to `i`.
pub proof fn lemma_coords_of_index(w: u32, h: u32, i: u32)
    requires
        w >= 1,
    ensures
        (i as int % w as int) < w,
        index_of(w, (i as int % w as int) as u32, (i as int / w as int) as u32) == i,
        i < pixel_count(w, h) ==> (i as int / w as int) < h,
{
    lemma_fundamental_div_mod(i as int, w as int);
    lemma_mod_bound(i as int, w as int);
    lemma_div_pos_is_pos(i as int, w as int);
    let q = i as int / w as int;
    assert(q <= i) by (nonlinear_arith)
        requires
            w >= 1,
            q >= 0,
            w as int * q + i as int % w as int == i,
            i as int % w as int >= 0,
    {}
    lemma_mul_is_commutative(w as int, q);
    if i < pixel_count(w, h) && q >= h {
        assert(q * w as int >= h as int * w as int) by (nonlinear_arith)
            requires
                q >= h,
                w >= 1,
        {}
        lemma_mul_is_commutative(h as int, w as int);
    }
}

/// A pixel's index and its coordinates determine each other.
pub proof fn lemma_index_round_trip(w: u32, h: u32, x: u32, y: u32)
    requires
        x < w,
        y < h,
    ensures
        index_of(w, x, y) % w as int == x,
        index_of(w, x, y) / w as int == y,
{
    lemma_fundamental_div_mod_converse(index_of(w, x, y), w as int, y as int, x as int);
    lemma_mul_is_commutative(w as int, y as int);
}

} // verus!
