//! Hysteresis thresholding: turns the edge-strength buffer into the final
//! binary edge mask.
//!
//! One forward raster pass visits every cell in row-major order.  A visited
//! cell whose strength reaches the strong threshold, or which is already
//! accepted, is accepted, and its eight in-bounds neighbours with non-zero
//! strength are accepted with it.  The accepted set only ever grows; the
//! mask is exactly the set left after the single pass (a weak chain lying
//! before a strong cell in scan order is recovered only as far as the pass
//! still reaches it).

use vstd::prelude::*;
use crate::grid::{grid_wf, rows_view, false_grid};
use crate::suppress::EdgeStrengthBuffer;

verus! {

/// The empty accepted set.
pub open spec fn no_edges(width: int, height: int) -> Seq<Seq<bool>> {
    Seq::new(height as nat, |y: int| Seq::new(width as nat, |x: int| false))
}

/// The accepted set after accepting `(x, y)` together with its non-zero
/// neighbours (the cells at Chebyshev distance one).
pub open spec fn marked(
    s: Seq<Seq<bool>>,
    buf: Seq<Seq<u8>>,
    x: int,
    y: int,
    width: int,
    height: int,
) -> Seq<Seq<bool>> {
    Seq::new(height as nat, |ny: int| Seq::new(width as nat, |nx: int|
        s[ny][nx]
        || (nx == x && ny == y)
        || (x - 1 <= nx <= x + 1 && y - 1 <= ny <= y + 1 && buf[ny][nx] > 0)
    ))
}

/// One visit of the raster pass at cell `(x, y)`.
pub open spec fn visit(
    s: Seq<Seq<bool>>,
    buf: Seq<Seq<u8>>,
    x: int,
    y: int,
    t: int,
    width: int,
    height: int,
) -> Seq<Seq<bool>> {
    if buf[y][x] as int >= t || s[y][x] {
        marked(s, buf, x, y, width, height)
    } else {
        s
    }
}

/// The accepted set after visiting the first `n` cells of row `y`.
pub open spec fn visit_row(
    s: Seq<Seq<bool>>,
    buf: Seq<Seq<u8>>,
    y: int,
    n: nat,
    t: int,
    width: int,
    height: int,
) -> Seq<Seq<bool>>
    decreases n,
{
    if n == 0 {
        s
    } else {
        visit(visit_row(s, buf, y, (n - 1) as nat, t, width, height), buf, n - 1, y, t, width, height)
    }
}

/// The accepted set after visiting the first `n` full rows.
pub open spec fn visit_rows(
    buf: Seq<Seq<u8>>,
    n: nat,
    t: int,
    width: int,
    height: int,
) -> Seq<Seq<bool>>
    decreases n,
{
    if n == 0 {
        no_edges(width, height)
    } else {
        visit_row(
            visit_rows(buf, (n - 1) as nat, t, width, height),
            buf,
            n - 1,
            width as nat,
            t,
            width,
            height,
        )
    }
}

/// The accepted set left by the whole raster pass over a
/// `width x height` strength grid with strong threshold `t`.
pub open spec fn sure_edges(buf: Seq<Seq<u8>>, t: int, width: int, height: int) -> Seq<Seq<bool>> {
    visit_rows(buf, height as nat, t, width, height)
}

proof fn lemma_visit_row_wf(
    s: Seq<Seq<bool>>,
    buf: Seq<Seq<u8>>,
    y: int,
    n: nat,
    t: int,
    width: int,
    height: int,
)
    requires
        grid_wf(s, width, height),
    ensures
        grid_wf(visit_row(s, buf, y, n, t, width, height), width, height),
    decreases n,
{
    if n > 0 {
        lemma_visit_row_wf(s, buf, y, (n - 1) as nat, t, width, height);
    }
}

proof fn lemma_visit_rows_wf(buf: Seq<Seq<u8>>, n: nat, t: int, width: int, height: int)
    requires
        width >= 0,
        height >= 0,
    ensures
        grid_wf(visit_rows(buf, n, t, width, height), width, height),
    decreases n,
{
    if n > 0 {
        lemma_visit_rows_wf(buf, (n - 1) as nat, t, width, height);
        lemma_visit_row_wf(
            visit_rows(buf, (n - 1) as nat, t, width, height),
            buf,
            n - 1,
            width as nat,
            t,
            width,
            height,
        );
    }
}

/// A visit never removes an accepted cell.
proof fn lemma_visit_mono(
    s: Seq<Seq<bool>>,
    buf: Seq<Seq<u8>>,
    x: int,
    y: int,
    t: int,
    width: int,
    height: int,
    c: int,
    r: int,
)
    requires
        grid_wf(s, width, height),
        0 <= c < width,
        0 <= r < height,
        s[r][c],
    ensures
        visit(s, buf, x, y, t, width, height)[r][c],
{
}

proof fn lemma_visit_row_mono(
    s: Seq<Seq<bool>>,
    buf: Seq<Seq<u8>>,
    y: int,
    n: nat,
    t: int,
    width: int,
    height: int,
    c: int,
    r: int,
)
    requires
        grid_wf(s, width, height),
        0 <= c < width,
        0 <= r < height,
        s[r][c],
    ensures
        visit_row(s, buf, y, n, t, width, height)[r][c],
    decreases n,
{
    if n > 0 {
        lemma_visit_row_mono(s, buf, y, (n - 1) as nat, t, width, height, c, r);
        lemma_visit_row_wf(s, buf, y, (n - 1) as nat, t, width, height);
        lemma_visit_mono(
            visit_row(s, buf, y, (n - 1) as nat, t, width, height),
            buf,
            n - 1,
            y,
            t,
            width,
            height,
            c,
            r,
        );
    }
}

/// After its own cell is visited, a strong cell is accepted for good.
proof fn lemma_visit_row_strong(
    s: Seq<Seq<bool>>,
    buf: Seq<Seq<u8>>,
    y: int,
    n: nat,
    t: int,
    width: int,
    height: int,
    x: int,
)
    requires
        grid_wf(s, width, height),
        0 <= y < height,
        0 <= x < n <= width,
        buf[y][x] as int >= t,
    ensures
        visit_row(s, buf, y, n, t, width, height)[y][x],
    decreases n,
{
    lemma_visit_row_wf(s, buf, y, (n - 1) as nat, t, width, height);
    if n - 1 == x {
        assert(visit(visit_row(s, buf, y, (n - 1) as nat, t, width, height), buf, x, y, t, width,
            height)[y][x]);
    } else {
        lemma_visit_row_strong(s, buf, y, (n - 1) as nat, t, width, height, x);
        lemma_visit_mono(
            visit_row(s, buf, y, (n - 1) as nat, t, width, height),
            buf,
            n - 1,
            y,
            t,
            width,
            height,
            x,
            y,
        );
    }
}

proof fn lemma_visit_rows_strong(
    buf: Seq<Seq<u8>>,
    n: nat,
    t: int,
    width: int,
    height: int,
    x: int,
    y: int,
)
    requires
        0 <= x < width,
        0 <= y < n <= height,
        buf[y][x] as int >= t,
    ensures
        visit_rows(buf, n, t, width, height)[y][x],
    decreases n,
{
    lemma_visit_rows_wf(buf, (n - 1) as nat, t, width, height);
    if n - 1 == y {
        lemma_visit_row_strong(
            visit_rows(buf, (n - 1) as nat, t, width, height),
            buf,
            y,
            width as nat,
            t,
            width,
            height,
            x,
        );
    } else {
        lemma_visit_rows_strong(buf, (n - 1) as nat, t, width, height, x, y);
        lemma_visit_row_mono(
            visit_rows(buf, (n - 1) as nat, t, width, height),
            buf,
            n - 1,
            width as nat,
            t,
            width,
            height,
            x,
            y,
        );
    }
}

/// Every strong cell ends up in the edge mask: a strength at or above the
/// strong threshold is always accepted by the pass.
pub proof fn lemma_strong_cell_is_edge(
    buf: Seq<Seq<u8>>,
    t: int,
    width: int,
    height: int,
    x: int,
    y: int,
)
    requires
        0 <= x < width,
        0 <= y < height,
        buf[y][x] as int >= t,
    ensures
        sure_edges(buf, t, width, height)[y][x],
{
    lemma_visit_rows_strong(buf, height as nat, t, width, height, x, y);
}

/// An accepted cell is strong itself or has non-zero strength.
spec fn accepted_are_candidates(
    s: Seq<Seq<bool>>,
    buf: Seq<Seq<u8>>,
    t: int,
    width: int,
    height: int,
) -> bool {
    forall|c: int, r: int|
        0 <= c < width && 0 <= r < height && #[trigger] s[r][c]
            ==> (buf[r][c] as int >= t || buf[r][c] > 0)
}

proof fn lemma_visit_candidates(
    s: Seq<Seq<bool>>,
    buf: Seq<Seq<u8>>,
    x: int,
    y: int,
    t: int,
    width: int,
    height: int,
)
    requires
        grid_wf(s, width, height),
        0 <= x < width,
        0 <= y < height,
        accepted_are_candidates(s, buf, t, width, height),
    ensures
        accepted_are_candidates(visit(s, buf, x, y, t, width, height), buf, t, width, height),
{
}

proof fn lemma_visit_row_candidates(
    s: Seq<Seq<bool>>,
    buf: Seq<Seq<u8>>,
    y: int,
    n: nat,
    t: int,
    width: int,
    height: int,
)
    requires
        grid_wf(s, width, height),
        0 <= y < height,
        n <= width,
        accepted_are_candidates(s, buf, t, width, height),
    ensures
        accepted_are_candidates(visit_row(s, buf, y, n, t, width, height), buf, t, width, height),
    decreases n,
{
    if n > 0 {
        lemma_visit_row_candidates(s, buf, y, (n - 1) as nat, t, width, height);
        lemma_visit_row_wf(s, buf, y, (n - 1) as nat, t, width, height);
        lemma_visit_candidates(
            visit_row(s, buf, y, (n - 1) as nat, t, width, height),
            buf,
            n - 1,
            y,
            t,
            width,
            height,
        );
    }
}

proof fn lemma_visit_rows_candidates(buf: Seq<Seq<u8>>, n: nat, t: int, width: int, height: int)
    requires
        width >= 0,
        n <= height,
    ensures
        accepted_are_candidates(visit_rows(buf, n, t, width, height), buf, t, width, height),
    decreases n,
{
    if n > 0 {
        lemma_visit_rows_candidates(buf, (n - 1) as nat, t, width, height);
        lemma_visit_rows_wf(buf, (n - 1) as nat, t, width, height);
        lemma_visit_row_candidates(
            visit_rows(buf, (n - 1) as nat, t, width, height),
            buf,
            n - 1,
            width as nat,
            t,
            width,
            height,
        );
    }
}

/// A cell with zero strength is never in the edge mask while the strong
/// threshold is positive: propagation only ever reaches non-zero cells.
pub proof fn lemma_zero_cell_not_edge(
    buf: Seq<Seq<u8>>,
    t: int,
    width: int,
    height: int,
    x: int,
    y: int,
)
    requires
        t >= 1,
        0 <= x < width,
        0 <= y < height,
        buf[y][x] == 0,
    ensures
        !sure_edges(buf, t, width, height)[y][x],
{
    lemma_visit_rows_candidates(buf, height as nat, t, width, height);
}

proof fn lemma_visit_row_empty(
    s: Seq<Seq<bool>>,
    buf: Seq<Seq<u8>>,
    y: int,
    n: nat,
    t: int,
    width: int,
    height: int,
)
    requires
        grid_wf(s, width, height),
        t > 255,
        n <= width,
        0 <= y < height,
        forall|c: int, r: int| 0 <= c < width && 0 <= r < height ==> !(#[trigger] s[r][c]),
    ensures
        visit_row(s, buf, y, n, t, width, height) == s,
    decreases n,
{
    if n > 0 {
        lemma_visit_row_empty(s, buf, y, (n - 1) as nat, t, width, height);
        assert(buf[y][n - 1] < 256);
    }
}

/// A strong threshold beyond the largest storable strength accepts nothing:
/// the edge mask is empty.
pub proof fn lemma_high_threshold_no_edges(
    buf: Seq<Seq<u8>>,
    t: int,
    width: int,
    height: int,
)
    requires
        t > 255,
    ensures
        forall|c: int, r: int|
            0 <= c < width && 0 <= r < height
                ==> !(#[trigger] sure_edges(buf, t, width, height)[r][c]),
{
    if width >= 0 && height >= 0 {
        lemma_visit_rows_all_empty(buf, height as nat, t, width, height);
    }
}

proof fn lemma_visit_rows_all_empty(buf: Seq<Seq<u8>>, n: nat, t: int, width: int, height: int)
    requires
        t > 255,
        width >= 0,
        n <= height,
    ensures
        forall|c: int, r: int|
            0 <= c < width && 0 <= r < height
                ==> !(#[trigger] visit_rows(buf, n, t, width, height)[r][c]),
    decreases n,
{
    if n > 0 {
        lemma_visit_rows_all_empty(buf, (n - 1) as nat, t, width, height);
        lemma_visit_rows_wf(buf, (n - 1) as nat, t, width, height);
        lemma_visit_row_empty(
            visit_rows(buf, (n - 1) as nat, t, width, height),
            buf,
            n - 1,
            width as nat,
            t,
            width,
            height,
        );
    }
}

/// The final binary mask: `true` marks an edge pixel.
pub struct EdgeMask {
    pub data: Vec<Vec<bool>>,
    pub width: usize,
}

impl EdgeMask {
    pub open spec fn cells(&self) -> Seq<Seq<bool>> {
        rows_view(self.data)
    }

    pub open spec fn spec_height(&self) -> int {
        self.cells().len() as int
    }

    pub open spec fn wf(&self) -> bool {
        grid_wf(self.cells(), self.width as int, self.spec_height())
    }

    pub open spec fn at(&self, x: int, y: int) -> bool {
        self.cells()[y][x]
    }

    pub fn height(&self) -> (h: usize)
        ensures
            h == self.spec_height(),
    {
        self.data.len()
    }

    /// Whether `(x, y)` is an edge pixel.
    pub fn is_edge(&self, x: usize, y: usize) -> (v: bool)
        requires
            self.wf(),
            x < self.width,
            y < self.spec_height(),
        ensures
            v == self.at(x as int, y as int),
    {
        proof {
            assert(self.cells()[y as int] == self.data@[y as int]@);
            assert(self.cells()[y as int].len() == self.width);
        }
        self.data[y][x]
    }
}

/// Accepts `(x, y)` and its in-bounds neighbours of non-zero strength.
#[verifier::rlimit(100)]
#[verifier::spinoff_prover]
fn mark_cell(s: &mut Vec<Vec<bool>>, buf: &EdgeStrengthBuffer, x: usize, y: usize)
    requires
        buf.wf(),
        old(s)@.len() == buf.spec_height(),
        forall|r: int| 0 <= r < old(s)@.len() ==> (#[trigger] old(s)@[r])@.len() == buf.width,
        x < buf.width,
        y < buf.spec_height(),
    ensures
        final(s)@.len() == old(s)@.len(),
        forall|r: int| 0 <= r < final(s)@.len() ==> (#[trigger] final(s)@[r])@.len() == buf.width,
        rows_view(*final(s)) == marked(
            rows_view(*old(s)),
            buf.cells(),
            x as int,
            y as int,
            buf.width as int,
            buf.spec_height(),
        ),
{
    let w = buf.width;
    let h = buf.height();
    s[y][x] = true;
    if x + 1 < w {
        if buf.get(x + 1, y) > 0 {
            s[y][x + 1] = true;
        }
    }
    if x + 1 < w && y + 1 < h {
        if buf.get(x + 1, y + 1) > 0 {
            s[y + 1][x + 1] = true;
        }
    }
    if y + 1 < h {
        if buf.get(x, y + 1) > 0 {
            s[y + 1][x] = true;
        }
    }
    if x >= 1 && y + 1 < h {
        if buf.get(x - 1, y + 1) > 0 {
            s[y + 1][x - 1] = true;
        }
    }
    if x >= 1 {
        if buf.get(x - 1, y) > 0 {
            s[y][x - 1] = true;
        }
    }
    if x >= 1 && y >= 1 {
        if buf.get(x - 1, y - 1) > 0 {
            s[y - 1][x - 1] = true;
        }
    }
    if y >= 1 {
        if buf.get(x, y - 1) > 0 {
            s[y - 1][x] = true;
        }
    }
    if x + 1 < w && y >= 1 {
        if buf.get(x + 1, y - 1) > 0 {
            s[y - 1][x + 1] = true;
        }
    }
    proof {
        let res = marked(
            rows_view(*old(s)),
            buf.cells(),
            x as int,
            y as int,
            buf.width as int,
            buf.spec_height(),
        );
        assert forall|r: int, c: int|
            0 <= r < s@.len() && 0 <= c < buf.width implies #[trigger] s@[r]@[c] == res[r][c] by {
            assert(buf.cells()[r] == buf.data@[r]@);
        }
        assert forall|r: int| 0 <= r < s@.len() implies rows_view(*s)[r] =~= res[r] by {
        }
        assert(rows_view(*s) =~~= res);
    }
}

/// Runs the raster pass: the resulting mask holds exactly `sure_edges` of
/// the strength grid and the strong threshold, at unchanged dimensions.
pub fn hysteresis_threshold(buf: &EdgeStrengthBuffer, strong_t: u16) -> (mask: EdgeMask)
    requires
        buf.wf(),
    ensures
        mask.wf(),
        mask.width == buf.width,
        mask.spec_height() == buf.spec_height(),
        mask.cells() == sure_edges(
            buf.cells(),
            strong_t as int,
            buf.width as int,
            buf.spec_height(),
        ),
{
    let w = buf.width;
    let h = buf.height();
    let t = strong_t;
    let ghost bufc = buf.cells();
    let mut sure = false_grid(w, h);
    proof {
        assert forall|r: int| 0 <= r < h implies (#[trigger] sure@[r])@.len() == w by {
            assert(rows_view(sure)[r] == sure@[r]@);
            assert(rows_view(sure)[r].len() == w);
        }
        assert(rows_view(sure) =~~= no_edges(w as int, h as int));
    }
    let mut y: usize = 0;
    while y < h
        invariant
            buf.wf(),
            w == buf.width,
            h == buf.spec_height(),
            t == strong_t,
            bufc == buf.cells(),
            y <= h,
            sure@.len() == h,
            forall|r: int| 0 <= r < h ==> (#[trigger] sure@[r])@.len() == w,
            rows_view(sure) == visit_rows(bufc, y as nat, t as int, w as int, h as int),
        decreases h - y,
    {
        let ghost row_base = visit_rows(bufc, y as nat, t as int, w as int, h as int);
        let mut x: usize = 0;
        while x < w
            invariant
                buf.wf(),
                w == buf.width,
                h == buf.spec_height(),
                t == strong_t,
                bufc == buf.cells(),
                y < h,
                x <= w,
                sure@.len() == h,
                forall|r: int| 0 <= r < h ==> (#[trigger] sure@[r])@.len() == w,
                row_base == visit_rows(bufc, y as nat, t as int, w as int, h as int),
                rows_view(sure) == visit_row(
                    row_base,
                    bufc,
                    y as int,
                    x as nat,
                    t as int,
                    w as int,
                    h as int,
                ),
            decreases w - x,
        {
            let ghost before = rows_view(sure);
            let v = buf.get(x, y);
            proof {
                assert(rows_view(sure)[y as int] == sure@[y as int]@);
            }
            let already = sure[y][x];
            if v as u16 >= t || already {
                mark_cell(&mut sure, buf, x, y);
            }
            proof {
                assert(rows_view(sure) =~~= visit(
                    before,
                    bufc,
                    x as int,
                    y as int,
                    t as int,
                    w as int,
                    h as int,
                ));
            }
            x = x + 1;
        }
        y = y + 1;
    }
    let mask = EdgeMask { data: sure, width: w };
    proof {
        assert(mask.cells() =~~= sure_edges(bufc, t as int, w as int, h as int));
    }
    mask
}

} // verus!
