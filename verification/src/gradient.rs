//! The gradient field: two same-sized grids of directional responses,
//! and the squared-magnitude arithmetic the detector runs on.
//!
//! A gradient sample is a pair of byte responses `(gx, gy)`.  The detector
//! compares gradient magnitudes `sqrt(gx^2 + gy^2)`; since the square root
//! is strictly increasing, every such comparison is carried out exactly on
//! the integer squares, and only the stored edge strength takes an actual
//! (integer) square root.

use vstd::prelude::*;
use crate::grid::{grid_wf, rows_view};

verus! {

/// Squared gradient magnitude.
pub open spec fn mag_sq(gx: int, gy: int) -> int {
    gx * gx + gy * gy
}

/// The magnitude is non-negative, and zero exactly when both components are.
pub proof fn lemma_mag_sq_zero(gx: int, gy: int)
    ensures
        mag_sq(gx, gy) >= 0,
        mag_sq(gx, gy) == 0 <==> (gx == 0 && gy == 0),
{
    assert(gx * gx >= 0 && gy * gy >= 0) by (nonlinear_arith);
    assert(gx != 0 ==> gx * gx > 0) by (nonlinear_arith);
    assert(gy != 0 ==> gy * gy > 0) by (nonlinear_arith);
}

/// The greatest `r` with `r * r <= s`, as a mathematical function.
pub open spec fn sqrt_floor(s: int) -> int
    decreases s,
{
    if s <= 0 {
        0
    } else {
        let r = sqrt_floor(s - 1);
        if (r + 1) * (r + 1) <= s {
            r + 1
        } else {
            r
        }
    }
}

pub proof fn lemma_sqrt_floor_bounds(s: int)
    requires
        s >= 0,
    ensures
        0 <= sqrt_floor(s),
        sqrt_floor(s) * sqrt_floor(s) <= s,
        (sqrt_floor(s) + 1) * (sqrt_floor(s) + 1) > s,
    decreases s,
{
    if s > 0 {
        lemma_sqrt_floor_bounds(s - 1);
        let r = sqrt_floor(s - 1);
        if (r + 1) * (r + 1) <= s {
            assert(sqrt_floor(s) == r + 1);
            assert((r + 2) * (r + 2) > (r + 1) * (r + 1)) by (nonlinear_arith)
                requires
                    r >= 0,
            ;
        } else {
            assert(sqrt_floor(s) == r);
        }
    }
}

pub proof fn lemma_sqrt_floor_unique(s: int, r: int)
    requires
        0 <= r,
        r * r <= s,
        (r + 1) * (r + 1) > s,
    ensures
        r == sqrt_floor(s),
{
    lemma_sqrt_floor_bounds(s);
    let q = sqrt_floor(s);
    assert(r < q ==> (r + 1) * (r + 1) <= q * q) by (nonlinear_arith)
        requires
            0 <= r && 0 <= q,
    ;
    assert(q < r ==> (q + 1) * (q + 1) <= r * r) by (nonlinear_arith)
        requires
            0 <= r && 0 <= q,
    ;
}

/// `sqrt_floor` stays within `[0, 255]` wherever its argument does not
/// exceed the largest two-byte square; for negative arguments it is zero.
pub proof fn lemma_sqrt_floor_bounds_nonneg(s: int)
    ensures
        0 <= sqrt_floor(s),
        s >= 0 ==> sqrt_floor(s) * sqrt_floor(s) <= s,
        s >= 0 ==> (sqrt_floor(s) + 1) * (sqrt_floor(s) + 1) > s,
{
    if s >= 0 {
        lemma_sqrt_floor_bounds(s);
    }
}

/// Integer square root: the greatest `r` with `r * r <= s`.
pub fn isqrt(s: u32) -> (r: u32)
    ensures
        r == sqrt_floor(s as int),
        r * r <= s,
        (r + 1) * (r + 1) > s,
{
    let mut lo: u32 = 0;
    let mut hi: u32 = 65536;
    while lo + 1 < hi
        invariant
            lo < hi <= 65536,
            lo * lo <= s,
            (hi * hi) as int > s,
        decreases hi - lo,
    {
        let mid: u32 = lo + (hi - lo) / 2;
        assert(mid < hi && mid * mid <= 0xffff_0001u32) by (nonlinear_arith)
            requires
                lo < mid < hi <= 65536,
        ;
        if mid * mid <= s {
            lo = mid;
        } else {
            hi = mid;
        }
    }
    proof {
        lemma_sqrt_floor_unique(s as int, lo as int);
    }
    lo
}

/// The byte stored for a magnitude whose square is `s`: the integer square
/// root, saturating at the largest byte value.
pub open spec fn magnitude_byte(s: int) -> int {
    if sqrt_floor(s) > 255 {
        255
    } else {
        sqrt_floor(s)
    }
}

/// A stored magnitude byte is zero exactly for a zero gradient.
pub proof fn lemma_magnitude_byte_zero(gx: int, gy: int)
    requires
        0 <= gx,
        0 <= gy,
    ensures
        0 <= magnitude_byte(mag_sq(gx, gy)) <= 255,
        magnitude_byte(mag_sq(gx, gy)) == 0 <==> (gx == 0 && gy == 0),
{
    lemma_mag_sq_zero(gx, gy);
    let s = mag_sq(gx, gy);
    lemma_sqrt_floor_bounds(s);
    if gx == 0 && gy == 0 {
        assert(s == 0);
        assert(sqrt_floor(0) == 0);
        assert(magnitude_byte(s) == 0);
    } else {
        assert(s >= 1);
        if sqrt_floor(s) == 0 {
            assert((sqrt_floor(s) + 1) * (sqrt_floor(s) + 1) == 1) by (nonlinear_arith)
                requires
                    sqrt_floor(s) == 0,
            ;
            assert(false);
        }
        assert(magnitude_byte(s) != 0);
    }
}

/// Two directional-response grids of identical dimensions.
pub struct GradientField {
    pub gx: Vec<Vec<u8>>,
    pub gy: Vec<Vec<u8>>,
    pub width: usize,
}

impl GradientField {
    pub open spec fn gxs(&self) -> Seq<Seq<u8>> {
        rows_view(self.gx)
    }

    pub open spec fn gys(&self) -> Seq<Seq<u8>> {
        rows_view(self.gy)
    }

    pub open spec fn spec_height(&self) -> int {
        self.gxs().len() as int
    }

    /// Both grids are `width` wide and equally tall.
    pub open spec fn wf(&self) -> bool {
        &&& grid_wf(self.gxs(), self.width as int, self.spec_height())
        &&& grid_wf(self.gys(), self.width as int, self.spec_height())
    }

    pub open spec fn gx_at(&self, x: int, y: int) -> u8 {
        self.gxs()[y][x]
    }

    pub open spec fn gy_at(&self, x: int, y: int) -> u8 {
        self.gys()[y][x]
    }

    /// Squared gradient magnitude at a cell.
    pub open spec fn sq_at(&self, x: int, y: int) -> int {
        mag_sq(self.gx_at(x, y) as int, self.gy_at(x, y) as int)
    }

    /// Pairs two response grids into a field, or returns `None` when their
    /// dimensions disagree.
    pub fn new(gx: Vec<Vec<u8>>, gy: Vec<Vec<u8>>, width: usize) -> (r: Option<GradientField>)
        ensures
            match r {
                Some(f) => {
                    &&& f.wf()
                    &&& f.gx == gx
                    &&& f.gy == gy
                    &&& f.width == width
                },
                None => !{
                    &&& grid_wf(rows_view(gx), width as int, gx@.len() as int)
                    &&& grid_wf(rows_view(gy), width as int, gx@.len() as int)
                },
            },
    {
        if gx.len() != gy.len() {
            return None;
        }
        let height = gx.len();
        let mut y: usize = 0;
        while y < height
            invariant
                y <= height,
                height == gx@.len() == gy@.len(),
                forall|r: int| 0 <= r < y ==> (#[trigger] gx@[r])@.len() == width,
                forall|r: int| 0 <= r < y ==> (#[trigger] gy@[r])@.len() == width,
            decreases height - y,
        {
            if gx[y].len() != width || gy[y].len() != width {
                proof {
                    assert(rows_view(gx)[y as int] == gx@[y as int]@);
                    assert(rows_view(gy)[y as int] == gy@[y as int]@);
                }
                return None;
            }
            y = y + 1;
        }
        Some(GradientField { gx, gy, width })
    }

    pub fn height(&self) -> (h: usize)
        ensures
            h == self.spec_height(),
    {
        self.gx.len()
    }

    /// Squared gradient magnitude at `(x, y)`.
    pub fn mag_sq_at(&self, x: usize, y: usize) -> (s: u32)
        requires
            self.wf(),
            x < self.width,
            y < self.spec_height(),
        ensures
            s == self.sq_at(x as int, y as int),
            s <= 130050,
    {
        proof {
            assert(self.gxs()[y as int] == self.gx@[y as int]@);
            assert(self.gxs()[y as int].len() == self.width);
            assert(self.gys()[y as int] == self.gy@[y as int]@);
            assert(self.gys()[y as int].len() == self.width);
        }
        let a = self.gx[y][x] as u32;
        let b = self.gy[y][x] as u32;
        assert(a * a + b * b <= 130050) by (nonlinear_arith)
            requires
                a <= 255 && b <= 255,
        ;
        a * a + b * b
    }
}

} // verus!
