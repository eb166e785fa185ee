//! Intensity histograms rendered onto a fixed 255 x 200 canvas.
//!
//! Occurrences of each of the intensities `0..255` are counted, scaled
//! against the most frequent one, and drawn as one marked cell per column:
//! column `k` gets its mark `bar_height` cells above the bottom row
//! (clamped to the canvas).

use vstd::prelude::*;
use crate::grid::{grid_wf, rows_view, Rgb};

verus! {

/// How often `k` occurs in `s`.
pub open spec fn count_val(s: Seq<u8>, k: u8) -> int
    decreases s.len(),
{
    if s.len() == 0 {
        0
    } else {
        count_val(s.drop_last(), k) + if s.last() == k {
            1int
        } else {
            0int
        }
    }
}

pub proof fn lemma_count_val_bounds(s: Seq<u8>, k: u8)
    ensures
        0 <= count_val(s, k) <= s.len(),
    decreases s.len(),
{
    if s.len() > 0 {
        lemma_count_val_bounds(s.drop_last(), k);
    }
}

/// A value that occurs in `s` is counted at least once.
pub proof fn lemma_count_val_present(s: Seq<u8>, i: int)
    requires
        0 <= i < s.len(),
    ensures
        count_val(s, s[i]) >= 1,
    decreases s.len(),
{
    lemma_count_val_bounds(s.drop_last(), s[i]);
    if i < s.len() - 1 {
        assert(s.drop_last()[i] == s[i]);
        lemma_count_val_present(s.drop_last(), i);
    }
}

/// The largest count among the intensities below `k`.
pub open spec fn max_count_below(s: Seq<u8>, k: nat) -> int
    decreases k,
{
    if k == 0 {
        0
    } else {
        let m = max_count_below(s, (k - 1) as nat);
        if count_val(s, (k - 1) as u8) > m {
            count_val(s, (k - 1) as u8)
        } else {
            m
        }
    }
}

pub proof fn lemma_max_count_below_ge(s: Seq<u8>, k: nat, bound: nat)
    requires
        k < bound,
        bound <= 255,
    ensures
        max_count_below(s, bound) >= count_val(s, k as u8),
    decreases bound,
{
    if k + 1 < bound {
        lemma_max_count_below_ge(s, k, (bound - 1) as nat);
    }
}

/// Counts how often each of the intensities `0..255` occurs.  Intensity
/// 255 has no bin: callers must reject it beforehand.
pub fn count_occurrences(values: &Vec<u8>) -> (occ: Vec<usize>)
    requires
        forall|i: int| 0 <= i < values@.len() ==> values@[i] < 255,
    ensures
        occ@.len() == 255,
        forall|k: int| 0 <= k < 255 ==> #[trigger] occ@[k] as int == count_val(values@, k as u8),
{
    let mut occ: Vec<usize> = Vec::new();
    let mut k: usize = 0;
    while k < 255
        invariant
            k <= 255,
            occ@.len() == k,
            forall|j: int| 0 <= j < k ==> #[trigger] occ@[j] == 0,
        decreases 255 - k,
    {
        occ.push(0);
        k = k + 1;
    }
    assert(forall|j: int| 0 <= j < 255 ==> #[trigger] occ@[j] as int == count_val(values@.take(0), j as u8));
    let mut i: usize = 0;
    while i < values.len()
        invariant
            i <= values@.len(),
            occ@.len() == 255,
            forall|j: int| 0 <= j < values@.len() ==> values@[j] < 255,
            forall|j: int|
                0 <= j < 255
                    ==> #[trigger] occ@[j] as int == count_val(values@.take(i as int), j as u8),
        decreases values@.len() - i,
    {
        let v = values[i];
        let idx = v as usize;
        proof {
            lemma_count_val_bounds(values@.take(i as int), v);
            assert(values@.take(i as int).len() == i);
            assert(values@.take(i + 1).drop_last() =~= values@.take(i as int));
            assert(values@.take(i + 1).last() == values@[i as int]);
        }
        let c = occ[idx];
        occ.set(idx, c + 1);
        proof {
            assert forall|j: int| 0 <= j < 255
                implies #[trigger] occ@[j] as int == count_val(values@.take(i + 1), j as u8) by {
                assert(count_val(values@.take(i + 1), j as u8) == count_val(
                    values@.take(i as int),
                    j as u8,
                ) + if values@[i as int] == j as u8 {
                    1int
                } else {
                    0int
                });
            }
        }
        i = i + 1;
    }
    proof {
        assert(values@.take(values@.len() as int) =~= values@);
    }
    occ
}

/// The canvas every histogram is drawn on: 255 columns, 200 rows.
pub struct HistogramCanvas {
    pub pixels: Vec<Vec<Rgb>>,
}

pub open spec fn white() -> Rgb {
    Rgb { r: 255, g: 255, b: 255 }
}

pub open spec fn black() -> Rgb {
    Rgb { r: 0, g: 0, b: 0 }
}

impl HistogramCanvas {
    pub open spec fn cells(&self) -> Seq<Seq<Rgb>> {
        rows_view(self.pixels)
    }

    pub open spec fn wf(&self) -> bool {
        grid_wf(self.cells(), 255, 200)
    }

    pub open spec fn at(&self, x: int, y: int) -> Rgb {
        self.cells()[y][x]
    }

    /// An all-white canvas.
    pub fn blank() -> (c: HistogramCanvas)
        ensures
            c.wf(),
            forall|x: int, y: int| 0 <= x < 255 && 0 <= y < 200 ==> #[trigger] c.at(x, y) == white(),
    {
        let mut pixels: Vec<Vec<Rgb>> = Vec::new();
        let mut y: usize = 0;
        while y < 200
            invariant
                y <= 200,
                pixels@.len() == y,
                forall|r: int| 0 <= r < y ==> (#[trigger] pixels@[r])@.len() == 255,
                forall|r: int, c: int|
                    0 <= r < y && 0 <= c < 255 ==> #[trigger] pixels@[r]@[c] == white(),
            decreases 200 - y,
        {
            let mut row: Vec<Rgb> = Vec::new();
            let mut x: usize = 0;
            while x < 255
                invariant
                    x <= 255,
                    row@.len() == x,
                    forall|c: int| 0 <= c < x ==> #[trigger] row@[c] == white(),
                decreases 255 - x,
            {
                row.push(Rgb { r: 255, g: 255, b: 255 });
                x = x + 1;
            }
            pixels.push(row);
            y = y + 1;
        }
        let canvas = HistogramCanvas { pixels };
        proof {
            assert forall|x: int, y: int| 0 <= x < 255 && 0 <= y < 200
                implies #[trigger] canvas.at(x, y) == white() by {
                assert(canvas.cells()[y] == canvas.pixels@[y]@);
            }
            assert forall|y: int| 0 <= y < 200
                implies (#[trigger] canvas.cells()[y]).len() == 255 by {
                assert(canvas.cells()[y] == canvas.pixels@[y]@);
            }
        }
        canvas
    }

    /// The value at `(x, y)`, for reading a finished drawing.
    pub fn get(&self, x: usize, y: usize) -> (v: Rgb)
        requires
            self.wf(),
            x < 255,
            y < 200,
        ensures
            v == self.at(x as int, y as int),
    {
        proof {
            assert(self.cells()[y as int] == self.pixels@[y as int]@);
            assert(self.cells()[y as int].len() == 255);
        }
        self.pixels[y][x]
    }
}

/// The bar height of a count `v` against the most frequent count `max`:
/// the count's share of the 200 canvas rows, rounded down.
pub open spec fn bar_height(v: int, max: int) -> int {
    v * 200 / max
}

/// The row that column's mark lands on: `bar_height` rows above the
/// bottom, clamped to the top row.
pub open spec fn bar_row(v: int, max: int) -> int {
    if bar_height(v, max) > 199 {
        0
    } else {
        199 - bar_height(v, max)
    }
}

/// Draws one series: column `k` gets `color` at `bar_row` of its count;
/// every other cell keeps its previous colour.
pub fn draw_series(canvas: &mut HistogramCanvas, values: &Vec<usize>, max: usize, color: Rgb)
    requires
        old(canvas).wf(),
        values@.len() >= 255,
        max > 0,
        forall|i: int| 0 <= i < 255 ==> #[trigger] values@[i] <= max,
    ensures
        final(canvas).wf(),
        forall|x: int, y: int|
            0 <= x < 255 && 0 <= y < 200 ==> #[trigger] final(canvas).at(x, y) == (if y == bar_row(
                values@[x] as int,
                max as int,
            ) {
                color
            } else {
                old(canvas).at(x, y)
            }),
{
    let mut i: usize = 0;
    while i < 255
        invariant
            canvas.wf(),
            values@.len() >= 255,
            max > 0,
            forall|j: int| 0 <= j < 255 ==> #[trigger] values@[j] <= max,
            i <= 255,
            forall|x: int, y: int|
                0 <= x < 255 && 0 <= y < 200 ==> #[trigger] canvas.at(x, y) == (if x < i
                    && y == bar_row(values@[x] as int, max as int) {
                    color
                } else {
                    old(canvas).at(x, y)
                }),
        decreases 255 - i,
    {
        let v = values[i];
        let h128: u128 = (v as u128) * 200 / (max as u128);
        proof {
            assert((v as int) * 200 / (max as int) <= 200 && (v as int) * 200 >= 0)
                by (nonlinear_arith)
                requires
                    0 < max as int && 0 <= v as int <= max as int,
            ;
            assert((v as u128) * 200 == (v as int) * 200);
        }
        let h: usize = h128 as usize;
        let row: usize = if h > 199 {
            0
        } else {
            199 - h
        };
        assert(row == bar_row(values@[i as int] as int, max as int));
        let ghost before = *canvas;
        proof {
            assert(canvas.cells()[row as int] == canvas.pixels@[row as int]@);
            assert(canvas.cells()[row as int].len() == 255);
        }
        canvas.pixels[row][i] = color;
        proof {
            assert forall|x: int, y: int| 0 <= x < 255 && 0 <= y < 200
                implies #[trigger] canvas.at(x, y) == (if x < i + 1 && y == bar_row(
                values@[x] as int,
                max as int,
            ) {
                color
            } else {
                old(canvas).at(x, y)
            }) by {
                assert(canvas.cells()[y] == canvas.pixels@[y]@);
                assert(before.cells()[y] == before.pixels@[y]@);
                assert(before.at(x, y) == before.cells()[y][x]);
            }
            assert forall|y: int| 0 <= y < 200
                implies (#[trigger] canvas.cells()[y]).len() == 255 by {
                assert(canvas.cells()[y] == canvas.pixels@[y]@);
                assert(before.cells()[y] == before.pixels@[y]@);
            }
        }
        i = i + 1;
    }
}

/// The largest count of any intensity bin, computed against `count_val`.
fn max_occurrence(occ: &Vec<usize>, ghost_values: Ghost<Seq<u8>>) -> (m: usize)
    requires
        occ@.len() == 255,
        forall|k: int| 0 <= k < 255 ==> #[trigger] occ@[k] as int == count_val(ghost_values@, k as u8),
    ensures
        m as int == max_count_below(ghost_values@, 255),
        forall|k: int| 0 <= k < 255 ==> #[trigger] occ@[k] <= m,
{
    let mut m: usize = 0;
    let mut k: usize = 0;
    while k < 255
        invariant
            k <= 255,
            occ@.len() == 255,
            forall|j: int|
                0 <= j < 255 ==> #[trigger] occ@[j] as int == count_val(ghost_values@, j as u8),
            m as int == max_count_below(ghost_values@, k as nat),
            forall|j: int| 0 <= j < k ==> #[trigger] occ@[j] <= m,
        decreases 255 - k,
    {
        if occ[k] > m {
            m = occ[k];
        }
        k = k + 1;
    }
    m
}

/// Histogram of grayscale intensities: each column's count of its
/// intensity, scaled by the most frequent intensity, drawn in black on a
/// white canvas.
pub fn grayscale(intensities: &Vec<u8>) -> (canvas: HistogramCanvas)
    requires
        intensities@.len() > 0,
        forall|i: int| 0 <= i < intensities@.len() ==> intensities@[i] < 255,
    ensures
        canvas.wf(),
        forall|x: int, y: int|
            0 <= x < 255 && 0 <= y < 200 ==> #[trigger] canvas.at(x, y) == (if y == bar_row(
                count_val(intensities@, x as u8),
                max_count_below(intensities@, 255),
            ) {
                black()
            } else {
                white()
            }),
{
    let occ = count_occurrences(intensities);
    let m = max_occurrence(&occ, Ghost(intensities@));
    proof {
        lemma_count_val_present(intensities@, 0);
        lemma_max_count_below_ge(intensities@, intensities@[0] as nat, 255);
    }
    let mut canvas = HistogramCanvas::blank();
    draw_series(&mut canvas, &occ, m, Rgb { r: 0, g: 0, b: 0 });
    canvas
}

/// Histogram of the three colour channels, drawn red, green, blue in that
/// order (later channels paint over earlier ones) on a white canvas.
pub fn rgb(reds: &Vec<u8>, greens: &Vec<u8>, blues: &Vec<u8>) -> (canvas: HistogramCanvas)
    requires
        reds@.len() > 0,
        greens@.len() > 0,
        blues@.len() > 0,
        forall|i: int| 0 <= i < reds@.len() ==> reds@[i] < 255,
        forall|i: int| 0 <= i < greens@.len() ==> greens@[i] < 255,
        forall|i: int| 0 <= i < blues@.len() ==> blues@[i] < 255,
    ensures
        canvas.wf(),
        forall|x: int, y: int|
            0 <= x < 255 && 0 <= y < 200 ==> #[trigger] canvas.at(x, y) == (if y == bar_row(
                count_val(blues@, x as u8),
                max_count_below(blues@, 255),
            ) {
                Rgb { r: 0, g: 0, b: 255 }
            } else if y == bar_row(count_val(greens@, x as u8), max_count_below(greens@, 255)) {
                Rgb { r: 0, g: 255, b: 0 }
            } else if y == bar_row(count_val(reds@, x as u8), max_count_below(reds@, 255)) {
                Rgb { r: 255, g: 0, b: 0 }
            } else {
                white()
            }),
{
    let occ_r = count_occurrences(reds);
    let m_r = max_occurrence(&occ_r, Ghost(reds@));
    let occ_g = count_occurrences(greens);
    let m_g = max_occurrence(&occ_g, Ghost(greens@));
    let occ_b = count_occurrences(blues);
    let m_b = max_occurrence(&occ_b, Ghost(blues@));
    proof {
        lemma_count_val_present(reds@, 0);
        lemma_max_count_below_ge(reds@, reds@[0] as nat, 255);
        lemma_count_val_present(greens@, 0);
        lemma_max_count_below_ge(greens@, greens@[0] as nat, 255);
        lemma_count_val_present(blues@, 0);
        lemma_max_count_below_ge(blues@, blues@[0] as nat, 255);
    }
    let mut canvas = HistogramCanvas::blank();
    draw_series(&mut canvas, &occ_r, m_r, Rgb { r: 255, g: 0, b: 0 });
    draw_series(&mut canvas, &occ_g, m_g, Rgb { r: 0, g: 255, b: 0 });
    draw_series(&mut canvas, &occ_b, m_b, Rgb { r: 0, g: 0, b: 255 });
    canvas
}

} // verus!
