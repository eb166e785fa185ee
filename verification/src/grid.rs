//! Two-dimensional grids of samples, stored as a vector of rows.
//!
//! Every buffer of the pipeline (gradient components, edge strengths, the
//! final mask) is a `width x height` grid; `grid_wf` is the shared
//! well-formedness condition and `rows_view` the mathematical view of the
//! row storage.

use vstd::prelude::*;

verus! {

/// The mathematical view of row storage: a sequence of rows.
pub open spec fn rows_view<T>(rows: Vec<Vec<T>>) -> Seq<Seq<T>> {
    rows@.map_values(|row: Vec<T>| row@)
}

/// A well-formed grid has exactly `height` rows of `width` cells each.
pub open spec fn grid_wf<T>(g: Seq<Seq<T>>, width: int, height: int) -> bool {
    &&& g.len() == height
    &&& forall|y: int| 0 <= y < height ==> (#[trigger] g[y]).len() == width
}

/// An RGB colour sample.
#[derive(Clone, Copy, Debug, PartialEq, Eq, Structural)]
pub struct Rgb {
    pub r: u8,
    pub g: u8,
    pub b: u8,
}

/// Builds a `width x height` grid of booleans, all false.
pub fn false_grid(width: usize, height: usize) -> (g: Vec<Vec<bool>>)
    ensures
        grid_wf(rows_view(g), width as int, height as int),
        forall|y: int, x: int|
            0 <= y < height && 0 <= x < width ==> !(#[trigger] rows_view(g)[y][x]),
{
    let mut g: Vec<Vec<bool>> = Vec::new();
    let mut y: usize = 0;
    while y < height
        invariant
            y <= height,
            g@.len() == y,
            forall|r: int| 0 <= r < y ==> (#[trigger] g@[r])@.len() == width,
            forall|r: int, c: int| 0 <= r < y && 0 <= c < width ==> !(#[trigger] g@[r]@[c]),
        decreases height - y,
    {
        let mut row: Vec<bool> = Vec::new();
        let mut x: usize = 0;
        while x < width
            invariant
                x <= width,
                row@.len() == x,
                forall|c: int| 0 <= c < x ==> !(#[trigger] row@[c]),
            decreases width - x,
        {
            row.push(false);
            x = x + 1;
        }
        g.push(row);
        y = y + 1;
    }
    g
}

} // verus!
