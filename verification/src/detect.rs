//! The edge-detection pipeline over a gradient field: non-maximum
//! suppression followed by hysteresis thresholding.
//!
//! Thresholds arrive in the integer form the pipeline actually compares
//! against: the low threshold as the largest squared magnitude still
//! rejected (`low_sq`), the strong threshold as the smallest strength byte
//! still accepted (`strong_t`, which may be 256 to accept nothing).

use vstd::prelude::*;
use crate::gradient::GradientField;
use crate::suppress::{
    non_max_suppression, strength_grid, strength_at, lemma_weak_magnitude_rejected,
};
use crate::hysteresis::{hysteresis_threshold, sure_edges, lemma_zero_cell_not_edge, EdgeMask};

verus! {

/// Runs the whole detector.  The mask has the field's dimensions and holds
/// exactly the raster pass's result over the suppressed strength grid.
pub fn detect_edges(field: &GradientField, low_sq: u32, strong_t: u16) -> (mask: EdgeMask)
    requires
        field.wf(),
    ensures
        mask.wf(),
        mask.width == field.width,
        mask.spec_height() == field.spec_height(),
        mask.cells() == sure_edges(
            strength_grid(*field, low_sq as int),
            strong_t as int,
            field.width as int,
            field.spec_height(),
        ),
{
    let buf = non_max_suppression(field, low_sq);
    hysteresis_threshold(&buf, strong_t)
}

/// A cell whose magnitude does not exceed the low threshold never appears
/// in the mask while the strong threshold is positive: rejection leaves its
/// strength at zero, and propagation reaches non-zero cells only.
pub proof fn lemma_weak_cell_not_edge(
    f: GradientField,
    x: int,
    y: int,
    low_sq: int,
    t: int,
)
    requires
        t >= 1,
        0 <= x < f.width,
        0 <= y < f.spec_height(),
        f.sq_at(x, y) <= low_sq,
    ensures
        !sure_edges(strength_grid(f, low_sq), t, f.width as int, f.spec_height())[y][x],
{
    lemma_weak_magnitude_rejected(f, x, y, low_sq);
    assert(strength_grid(f, low_sq)[y][x] == strength_at(f, x, y, low_sq) as u8);
    lemma_zero_cell_not_edge(
        strength_grid(f, low_sq),
        t,
        f.width as int,
        f.spec_height(),
        x,
        y,
    );
}

/// Detection is deterministic: two fields holding the same response grids
/// at the same width yield the same strength grid, and with it the same
/// edge mask, for the same thresholds.
pub proof fn lemma_detection_deterministic(
    f1: GradientField,
    f2: GradientField,
    low_sq: int,
    t: int,
)
    requires
        f1.gxs() == f2.gxs(),
        f1.gys() == f2.gys(),
        f1.width == f2.width,
    ensures
        strength_grid(f1, low_sq) == strength_grid(f2, low_sq),
        sure_edges(strength_grid(f1, low_sq), t, f1.width as int, f1.spec_height()) == sure_edges(
            strength_grid(f2, low_sq),
            t,
            f2.width as int,
            f2.spec_height(),
        ),
{
    assert(f1.spec_height() == f2.spec_height());
    assert(forall|x: int, y: int|
        f1.gx_at(x, y) == f2.gx_at(x, y) && f1.gy_at(x, y) == f2.gy_at(x, y));
    assert(forall|x: int, y: int| #[trigger] f1.sq_at(x, y) == f2.sq_at(x, y));
    assert forall|x: int, y: int|
        #[trigger] strength_at(f1, x, y, low_sq) == strength_at(f2, x, y, low_sq) by {
        assert(crate::suppress::fwd_suppresses(f1, x, y) == crate::suppress::fwd_suppresses(
            f2,
            x,
            y,
        ));
        assert(crate::suppress::bwd_suppresses(f1, x, y) == crate::suppress::bwd_suppresses(
            f2,
            x,
            y,
        ));
    }
    assert(strength_grid(f1, low_sq) =~~= strength_grid(f2, low_sq));
}

} // verus!
