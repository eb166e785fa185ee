//! Non-maximum suppression: thins the gradient field to an edge-strength
//! buffer keeping only pixels that are strict local maxima along their
//! gradient direction, and rejecting weak responses.
//!
//! The probe cells are found two pixel units along the gradient direction.
//! With non-negative components `(gx, gy)` the unit direction is
//! `(gx, gy) / sqrt(s)` for `s = gx^2 + gy^2` (taken as `(1, 0)` for a zero
//! gradient), so the forward probe sits at `(x, y)` plus the real offsets
//! `(2 gx / sqrt(s), 2 gy / sqrt(s))` and the backward probe at `(x, y)`
//! minus them.  The probe's cell floors each coordinate, so the forward
//! offset is floored and the backward one raised to the next integer.
//! Both roundings are exact integer comparisons:
//! `2 gx / sqrt(s) >= 1  <==>  4 gx^2 >= s`, and
//! `2 gx / sqrt(s) >= 2  <==>  gy == 0`
//! (`4 gx^2 = s` only at `gy^2 = 3 gx^2`, which no byte pair other than
//! `(0, 0)` satisfies, so strict and non-strict comparison agree there).

use vstd::prelude::*;
use crate::gradient::{mag_sq, magnitude_byte, isqrt, GradientField};
use crate::grid::{grid_wf, rows_view};

verus! {

/// Floor of the forward probe's x offset `2 gx / sqrt(s)`.
pub open spec fn fwd_dx(gx: int, gy: int) -> int {
    if gy == 0 {
        2
    } else if 4 * gx * gx >= mag_sq(gx, gy) {
        1
    } else {
        0
    }
}

/// Floor of the forward probe's y offset `2 gy / sqrt(s)`.
pub open spec fn fwd_dy(gx: int, gy: int) -> int {
    if gx == 0 && gy == 0 {
        0
    } else if gx == 0 {
        2
    } else if 4 * gy * gy >= mag_sq(gx, gy) {
        1
    } else {
        0
    }
}

/// Ceiling of the backward probe's x offset `2 gx / sqrt(s)`.
pub open spec fn bwd_dx(gx: int, gy: int) -> int {
    if gy == 0 {
        2
    } else if gx == 0 {
        0
    } else if 4 * gx * gx > mag_sq(gx, gy) {
        2
    } else {
        1
    }
}

/// Ceiling of the backward probe's y offset `2 gy / sqrt(s)`.
pub open spec fn bwd_dy(gx: int, gy: int) -> int {
    if gx == 0 {
        if gy == 0 {
            0
        } else {
            2
        }
    } else if gy == 0 {
        0
    } else if 4 * gy * gy > mag_sq(gx, gy) {
        2
    } else {
        1
    }
}

/// The forward probe of cell `(x, y)` lies inside the field.
pub open spec fn fwd_in_bounds(f: GradientField, x: int, y: int) -> bool {
    let gx = f.gx_at(x, y) as int;
    let gy = f.gy_at(x, y) as int;
    &&& x + fwd_dx(gx, gy) < f.width
    &&& y + fwd_dy(gx, gy) < f.spec_height()
}

/// The backward probe of cell `(x, y)` lies inside the field.
pub open spec fn bwd_in_bounds(f: GradientField, x: int, y: int) -> bool {
    let gx = f.gx_at(x, y) as int;
    let gy = f.gy_at(x, y) as int;
    &&& bwd_dx(gx, gy) <= x
    &&& bwd_dy(gx, gy) <= y
}

/// An in-bounds forward probe at least as strong as the cell suppresses it.
pub open spec fn fwd_suppresses(f: GradientField, x: int, y: int) -> bool {
    let gx = f.gx_at(x, y) as int;
    let gy = f.gy_at(x, y) as int;
    &&& fwd_in_bounds(f, x, y)
    &&& f.sq_at(x + fwd_dx(gx, gy), y + fwd_dy(gx, gy)) >= f.sq_at(x, y)
}

/// An in-bounds backward probe at least as strong as the cell suppresses it.
pub open spec fn bwd_suppresses(f: GradientField, x: int, y: int) -> bool {
    let gx = f.gx_at(x, y) as int;
    let gy = f.gy_at(x, y) as int;
    &&& bwd_in_bounds(f, x, y)
    &&& f.sq_at(x - bwd_dx(gx, gy), y - bwd_dy(gx, gy)) >= f.sq_at(x, y)
}

/// A cell survives only as a strict local maximum along its direction;
/// an out-of-bounds probe never suppresses.
pub open spec fn is_suppressed(f: GradientField, x: int, y: int) -> bool {
    fwd_suppresses(f, x, y) || bwd_suppresses(f, x, y)
}

/// The edge strength stored for cell `(x, y)`: zero for suppressed cells
/// and for magnitudes at or below the low threshold (given as its squared
/// value `low_sq`), otherwise the magnitude byte.
pub open spec fn strength_at(f: GradientField, x: int, y: int, low_sq: int) -> int {
    if is_suppressed(f, x, y) {
        0
    } else if f.sq_at(x, y) <= low_sq {
        0
    } else {
        magnitude_byte(f.sq_at(x, y))
    }
}

/// Every strength fits in a byte.
pub proof fn lemma_strength_at_range(f: GradientField, x: int, y: int, low_sq: int)
    ensures
        0 <= strength_at(f, x, y, low_sq) <= 255,
{
    crate::gradient::lemma_sqrt_floor_bounds_nonneg(f.sq_at(x, y));
}

/// The whole edge-strength grid, cell by cell.
pub open spec fn strength_grid(f: GradientField, low_sq: int) -> Seq<Seq<u8>> {
    Seq::new(f.spec_height() as nat, |y: int| Seq::new(f.width as nat, |x: int|
        strength_at(f, x, y, low_sq) as u8))
}

/// A magnitude at or below the low threshold is always rejected: its
/// strength cell is zero.
pub proof fn lemma_weak_magnitude_rejected(f: GradientField, x: int, y: int, low_sq: int)
    requires
        f.sq_at(x, y) <= low_sq,
    ensures
        strength_at(f, x, y, low_sq) == 0,
{
}

/// Ties break toward rejection: a forward probe exactly as strong as the
/// cell suppresses it.
pub proof fn lemma_tie_suppresses(f: GradientField, x: int, y: int, low_sq: int)
    requires
        fwd_in_bounds(f, x, y),
        f.sq_at(
            x + fwd_dx(f.gx_at(x, y) as int, f.gy_at(x, y) as int),
            y + fwd_dy(f.gx_at(x, y) as int, f.gy_at(x, y) as int),
        ) == f.sq_at(x, y),
    ensures
        is_suppressed(f, x, y),
        strength_at(f, x, y, low_sq) == 0,
{
}

/// Border cells are never suppressed from outside: when both probes fall
/// out of bounds the cell keeps its full strength (subject only to the low
/// threshold).
pub proof fn lemma_out_of_bounds_probes_cannot_suppress(
    f: GradientField,
    x: int,
    y: int,
    low_sq: int,
)
    requires
        !fwd_in_bounds(f, x, y),
        !bwd_in_bounds(f, x, y),
    ensures
        !is_suppressed(f, x, y),
        f.sq_at(x, y) > low_sq ==> strength_at(f, x, y, low_sq) == magnitude_byte(f.sq_at(x, y)),
{
}

/// Grid of non-negative edge strengths left by suppression; zero means
/// "not an edge candidate".
pub struct EdgeStrengthBuffer {
    pub data: Vec<Vec<u8>>,
    pub width: usize,
}

impl EdgeStrengthBuffer {
    pub open spec fn cells(&self) -> Seq<Seq<u8>> {
        rows_view(self.data)
    }

    pub open spec fn spec_height(&self) -> int {
        self.cells().len() as int
    }

    pub open spec fn wf(&self) -> bool {
        grid_wf(self.cells(), self.width as int, self.spec_height())
    }

    pub open spec fn at(&self, x: int, y: int) -> u8 {
        self.cells()[y][x]
    }

    pub fn height(&self) -> (h: usize)
        ensures
            h == self.spec_height(),
    {
        self.data.len()
    }

    /// The stored strength at `(x, y)`.
    pub fn get(&self, x: usize, y: usize) -> (v: u8)
        requires
            self.wf(),
            x < self.width,
            y < self.spec_height(),
        ensures
            v == self.at(x as int, y as int),
    {
        proof {
            assert(self.cells()[y as int] == self.data@[y as int]@);
            assert(self.cells()[y as int].len() == self.width);
        }
        self.data[y][x]
    }
}

/// Exact integer forms of the four probe offsets.
fn fwd_dx_e(gx: u32, gy: u32) -> (d: u32)
    requires
        gx <= 255,
        gy <= 255,
    ensures
        d == fwd_dx(gx as int, gy as int),
{
    proof {
        assert(4 * (gx * gx) == 4 * gx * gx && gx * gx + gy * gy == mag_sq(gx as int, gy as int)
            && gx * gx <= 65025 && gy * gy <= 65025) by (nonlinear_arith)
            requires
                gx <= 255 && gy <= 255,
        ;
    }
    if gy == 0 {
        2
    } else if 4 * (gx * gx) >= gx * gx + gy * gy {
        1
    } else {
        0
    }
}

fn fwd_dy_e(gx: u32, gy: u32) -> (d: u32)
    requires
        gx <= 255,
        gy <= 255,
    ensures
        d == fwd_dy(gx as int, gy as int),
{
    proof {
        assert(4 * (gy * gy) == 4 * gy * gy && gx * gx + gy * gy == mag_sq(gx as int, gy as int)
            && gx * gx <= 65025 && gy * gy <= 65025) by (nonlinear_arith)
            requires
                gx <= 255 && gy <= 255,
        ;
    }
    if gx == 0 && gy == 0 {
        0
    } else if gx == 0 {
        2
    } else if 4 * (gy * gy) >= gx * gx + gy * gy {
        1
    } else {
        0
    }
}

fn bwd_dx_e(gx: u32, gy: u32) -> (d: u32)
    requires
        gx <= 255,
        gy <= 255,
    ensures
        d == bwd_dx(gx as int, gy as int),
{
    proof {
        assert(4 * (gx * gx) == 4 * gx * gx && gx * gx + gy * gy == mag_sq(gx as int, gy as int)
            && gx * gx <= 65025 && gy * gy <= 65025) by (nonlinear_arith)
            requires
                gx <= 255 && gy <= 255,
        ;
    }
    if gy == 0 {
        2
    } else if gx == 0 {
        0
    } else if 4 * (gx * gx) > gx * gx + gy * gy {
        2
    } else {
        1
    }
}

fn bwd_dy_e(gx: u32, gy: u32) -> (d: u32)
    requires
        gx <= 255,
        gy <= 255,
    ensures
        d == bwd_dy(gx as int, gy as int),
{
    proof {
        assert(4 * (gy * gy) == 4 * gy * gy && gx * gx + gy * gy == mag_sq(gx as int, gy as int)
            && gx * gx <= 65025 && gy * gy <= 65025) by (nonlinear_arith)
            requires
                gx <= 255 && gy <= 255,
        ;
    }
    if gx == 0 {
        if gy == 0 {
            0
        } else {
            2
        }
    } else if gy == 0 {
        0
    } else if 4 * (gy * gy) > gx * gx + gy * gy {
        2
    } else {
        1
    }
}

/// The strength value of one cell.
fn strength_of_cell(field: &GradientField, x: usize, y: usize, low_sq: u32) -> (v: u8)
    requires
        field.wf(),
        x < field.width,
        y < field.spec_height(),
    ensures
        v == strength_at(*field, x as int, y as int, low_sq as int),
{
    proof {
        assert(field.gxs()[y as int] == field.gx@[y as int]@);
        assert(field.gxs()[y as int].len() == field.width);
        assert(field.gys()[y as int] == field.gy@[y as int]@);
        assert(field.gys()[y as int].len() == field.width);
    }
    let gx = field.gx[y][x] as u32;
    let gy = field.gy[y][x] as u32;
    let s = field.mag_sq_at(x, y);
    let height = field.height();

    let mut suppressed = false;

    let fdx = fwd_dx_e(gx, gy) as usize;
    let fdy = fwd_dy_e(gx, gy) as usize;
    if fdx <= field.width - 1 - x && fdy <= height - 1 - y {
        if field.mag_sq_at(x + fdx, y + fdy) >= s {
            suppressed = true;
        }
    }
    assert(suppressed == fwd_suppresses(*field, x as int, y as int));

    let bdx = bwd_dx_e(gx, gy) as usize;
    let bdy = bwd_dy_e(gx, gy) as usize;
    if bdx <= x && bdy <= y {
        if field.mag_sq_at(x - bdx, y - bdy) >= s {
            suppressed = true;
        }
    }
    assert(suppressed == is_suppressed(*field, x as int, y as int));

    if suppressed {
        0
    } else if s <= low_sq {
        0
    } else {
        let m = isqrt(s);
        proof {
            crate::gradient::lemma_sqrt_floor_bounds(s as int);
        }
        if m > 255 {
            255
        } else {
            m as u8
        }
    }
}

/// Thins the gradient field into an edge-strength buffer of the same
/// dimensions; every cell holds exactly `strength_at` of its coordinate.
pub fn non_max_suppression(field: &GradientField, low_sq: u32) -> (buf: EdgeStrengthBuffer)
    requires
        field.wf(),
    ensures
        buf.wf(),
        buf.width == field.width,
        buf.spec_height() == field.spec_height(),
        forall|x: int, y: int|
            0 <= x < field.width && 0 <= y < field.spec_height()
                ==> #[trigger] buf.at(x, y) == strength_at(*field, x, y, low_sq as int),
        buf.cells() == strength_grid(*field, low_sq as int),
{
    let width = field.width;
    let height = field.height();
    let mut data: Vec<Vec<u8>> = Vec::new();
    let mut y: usize = 0;
    while y < height
        invariant
            field.wf(),
            width == field.width,
            height == field.spec_height(),
            y <= height,
            data@.len() == y,
            forall|r: int| 0 <= r < y ==> (#[trigger] data@[r])@.len() == width,
            forall|c: int, r: int|
                0 <= c < width && 0 <= r < y
                    ==> #[trigger] data@[r]@[c] == strength_at(*field, c, r, low_sq as int),
        decreases height - y,
    {
        let mut row: Vec<u8> = Vec::new();
        let mut x: usize = 0;
        while x < width
            invariant
                field.wf(),
                width == field.width,
                height == field.spec_height(),
                y < height,
                x <= width,
                row@.len() == x,
                forall|c: int|
                    0 <= c < x
                        ==> #[trigger] row@[c] == strength_at(*field, c, y as int, low_sq as int),
            decreases width - x,
        {
            row.push(strength_of_cell(field, x, y, low_sq));
            x = x + 1;
        }
        data.push(row);
        y = y + 1;
    }
    let buf = EdgeStrengthBuffer { data, width };
    proof {
        assert forall|x: int, y: int|
            0 <= x < field.width && 0 <= y < field.spec_height()
                implies #[trigger] buf.at(x, y) == strength_at(*field, x, y, low_sq as int) by {
            assert(buf.cells()[y] == buf.data@[y]@);
        }
        assert forall|y: int| 0 <= y < field.spec_height()
            implies #[trigger] buf.cells()[y] =~= strength_grid(*field, low_sq as int)[y] by {
            assert forall|x: int| 0 <= x < field.width
                implies #[trigger] buf.cells()[y][x] == strength_grid(*field, low_sq as int)[y][x] by {
                lemma_strength_at_range(*field, x, y, low_sq as int);
                assert(buf.at(x, y) == strength_at(*field, x, y, low_sq as int));
            }
        }
        assert(buf.cells() =~~= strength_grid(*field, low_sq as int));
    }
    buf
}

} // verus!
