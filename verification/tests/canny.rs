use ipcli::gradient::{GradientField, isqrt};
use ipcli::suppress::non_max_suppression;
use ipcli::hysteresis::hysteresis_threshold;
use ipcli::suppress::EdgeStrengthBuffer;
use ipcli::detect::detect_edges;

/// A `width x height` grid filled with one value.
fn uniform(width: usize, height: usize, v: u8) -> Vec<Vec<u8>> {
    let mut g = Vec::new();
    for _ in 0..height {
        g.push(vec![v; width]);
    }
    g
}

fn field(gx: Vec<Vec<u8>>, gy: Vec<Vec<u8>>, width: usize) -> GradientField {
    GradientField::new(gx, gy, width).expect("consistent dimensions")
}

#[test]
fn isqrt_exact_values() {
    assert_eq!(isqrt(0), 0);
    assert_eq!(isqrt(1), 1);
    assert_eq!(isqrt(3), 1);
    assert_eq!(isqrt(4), 2);
    assert_eq!(isqrt(100), 10);
    assert_eq!(isqrt(65535), 255);
    assert_eq!(isqrt(65536), 256);
    assert_eq!(isqrt(130050), 360);
    assert_eq!(isqrt(u32::MAX), 65535);
}

#[test]
fn mismatched_dimensions_are_rejected() {
    assert!(GradientField::new(uniform(3, 2, 0), uniform(3, 3, 0), 3).is_none());
    assert!(GradientField::new(uniform(3, 2, 0), uniform(2, 2, 0), 3).is_none());
    assert!(GradientField::new(uniform(3, 2, 0), uniform(3, 2, 0), 3).is_some());
}

#[test]
fn buffers_share_dimensions() {
    let f = field(uniform(7, 4, 9), uniform(7, 4, 3), 7);
    let buf = non_max_suppression(&f, 100);
    assert_eq!(buf.width, 7);
    assert_eq!(buf.height(), 4);
    let mask = hysteresis_threshold(&buf, 50);
    assert_eq!(mask.width, 7);
    assert_eq!(mask.height(), 4);
}

#[test]
fn flat_image_yields_empty_mask() {
    // No gradient anywhere: every strength is zero and nothing is an edge.
    let f = field(uniform(8, 6, 0), uniform(8, 6, 0), 8);
    let buf = non_max_suppression(&f, 100);
    for y in 0..6 {
        for x in 0..8 {
            assert_eq!(buf.get(x, y), 0);
        }
    }
    let mask = hysteresis_threshold(&buf, 50);
    for y in 0..6 {
        for x in 0..8 {
            assert!(!mask.is_edge(x, y));
        }
    }
}

#[test]
fn vertical_step_yields_thin_line() {
    // The gradient response of a sharp vertical step: the two columns at
    // the step saturate, everything else is flat.  Low threshold 10
    // (squared: 100), strong threshold 50.
    let width = 8;
    let height = 5;
    let mut gx = uniform(width, height, 0);
    for y in 0..height {
        gx[y][3] = 255;
        gx[y][4] = 255;
    }
    let f = field(gx, uniform(width, height, 0), width);
    let mask = detect_edges(&f, 100, 50);
    for y in 0..height {
        for x in 0..width {
            assert_eq!(mask.is_edge(x, y), x == 3 || x == 4, "at ({}, {})", x, y);
        }
    }
}

#[test]
fn single_column_step_yields_single_line() {
    let width = 8;
    let height = 5;
    let mut gx = uniform(width, height, 0);
    for y in 0..height {
        gx[y][3] = 255;
    }
    let f = field(gx, uniform(width, height, 0), width);
    let mask = detect_edges(&f, 100, 50);
    for y in 0..height {
        for x in 0..width {
            assert_eq!(mask.is_edge(x, y), x == 3, "at ({}, {})", x, y);
        }
    }
}

#[test]
fn equal_probe_magnitude_suppresses() {
    // The forward probe of the cell at x = 2 (and the backward probe of
    // the one at x = 4) has exactly the same magnitude: ties reject both.
    let gx = vec![vec![0, 0, 100, 0, 100]];
    let gy = vec![vec![0, 0, 0, 0, 0]];
    let f = field(gx, gy, 5);
    let buf = non_max_suppression(&f, 0);
    for x in 0..5 {
        assert_eq!(buf.get(x, 0), 0);
    }
}

#[test]
fn weaker_probe_does_not_suppress() {
    let gx = vec![vec![0, 0, 100, 0, 50]];
    let gy = vec![vec![0, 0, 0, 0, 0]];
    let f = field(gx, gy, 5);
    let buf = non_max_suppression(&f, 100);
    assert_eq!(buf.get(2, 0), 100);
    // x = 4 is itself suppressed by its backward probe at x = 2.
    assert_eq!(buf.get(4, 0), 0);
}

#[test]
fn border_pixel_keeps_strength() {
    // Both probes of a 1x1 image fall outside: the pixel keeps its full
    // magnitude and becomes an edge.
    let f = field(vec![vec![200]], vec![vec![0]], 1);
    let buf = non_max_suppression(&f, 100);
    assert_eq!(buf.get(0, 0), 200);
    let mask = hysteresis_threshold(&buf, 50);
    assert!(mask.is_edge(0, 0));
}

#[test]
fn magnitude_zero_only_for_zero_gradient() {
    let f = field(vec![vec![0]], vec![vec![5]], 1);
    let buf = non_max_suppression(&f, 0);
    assert_eq!(buf.get(0, 0), 5);
    let zero = field(vec![vec![0]], vec![vec![0]], 1);
    let zbuf = non_max_suppression(&zero, 0);
    assert_eq!(zbuf.get(0, 0), 0);
}

#[test]
fn low_threshold_boundary_rejects() {
    // A magnitude exactly at the low threshold is rejected; one above it
    // survives.
    let at = field(vec![vec![10]], vec![vec![0]], 1);
    assert_eq!(non_max_suppression(&at, 100).get(0, 0), 0);
    let above = field(vec![vec![11]], vec![vec![0]], 1);
    assert_eq!(non_max_suppression(&above, 100).get(0, 0), 11);
}

fn strength(data: Vec<Vec<u8>>, width: usize) -> EdgeStrengthBuffer {
    EdgeStrengthBuffer { data, width }
}

#[test]
fn strong_cells_are_always_edges() {
    let buf = strength(vec![vec![0, 60, 0, 0], vec![0, 0, 0, 70]], 4);
    let mask = hysteresis_threshold(&buf, 50);
    assert!(mask.is_edge(1, 0));
    assert!(mask.is_edge(3, 1));
}

#[test]
fn weak_neighbours_of_strong_cells_propagate() {
    let buf = strength(vec![vec![10, 60, 10, 10, 0, 10]], 6);
    let mask = hysteresis_threshold(&buf, 50);
    // The chain right of the strong cell is picked up cell by cell...
    assert!(mask.is_edge(0, 0));
    assert!(mask.is_edge(1, 0));
    assert!(mask.is_edge(2, 0));
    assert!(mask.is_edge(3, 0));
    // ...but a zero cell breaks it, and a weak cell beyond stays out.
    assert!(!mask.is_edge(4, 0));
    assert!(!mask.is_edge(5, 0));
}

#[test]
fn propagation_follows_scan_order() {
    // A weak chain lying before the strong cell in scan order is only
    // recovered one cell back: the single pass does not re-expand cells
    // it has already visited.
    let buf = strength(vec![vec![10, 10, 60]], 3);
    let mask = hysteresis_threshold(&buf, 50);
    assert!(!mask.is_edge(0, 0));
    assert!(mask.is_edge(1, 0));
    assert!(mask.is_edge(2, 0));
}

#[test]
fn zero_cells_never_become_edges() {
    let buf = strength(vec![vec![0, 255, 0], vec![0, 0, 0]], 3);
    let mask = hysteresis_threshold(&buf, 50);
    assert!(mask.is_edge(1, 0));
    assert!(!mask.is_edge(0, 0));
    assert!(!mask.is_edge(2, 0));
    assert!(!mask.is_edge(0, 1));
    assert!(!mask.is_edge(1, 1));
    assert!(!mask.is_edge(2, 1));
}

#[test]
fn unreachable_strong_threshold_yields_empty_mask() {
    // 256 is above every storable strength: nothing seeds the mask even
    // though the field saturates.
    let width = 6;
    let height = 4;
    let mut gx = uniform(width, height, 0);
    for y in 0..height {
        gx[y][2] = 255;
    }
    let f = field(gx, uniform(width, height, 0), width);
    let mask = detect_edges(&f, 100, 256);
    for y in 0..height {
        for x in 0..width {
            assert!(!mask.is_edge(x, y));
        }
    }
}

#[test]
fn detection_is_deterministic() {
    let mut gx = uniform(9, 7, 0);
    let mut gy = uniform(9, 7, 0);
    for y in 0..7 {
        gx[y][4] = 200;
        gy[y][6] = 120;
    }
    let f1 = field(gx.clone(), gy.clone(), 9);
    let f2 = field(gx, gy, 9);
    let m1 = detect_edges(&f1, 100, 50);
    let m2 = detect_edges(&f2, 100, 50);
    assert_eq!(m1.width, m2.width);
    assert_eq!(m1.height(), m2.height());
    for y in 0..7 {
        for x in 0..9 {
            assert_eq!(m1.is_edge(x, y), m2.is_edge(x, y));
        }
    }
}

#[test]
fn empty_field_yields_empty_mask() {
    let f = GradientField::new(Vec::new(), Vec::new(), 0).expect("empty field");
    let mask = detect_edges(&f, 100, 50);
    assert_eq!(mask.width, 0);
    assert_eq!(mask.height(), 0);
}

#[test]
fn diagonal_gradient_probes_diagonally() {
    // Equal components: both offsets floor to one, so the forward probe is
    // the diagonal neighbour two cells on from neither axis.
    let mut gx = uniform(5, 5, 0);
    let mut gy = uniform(5, 5, 0);
    gx[2][2] = 100;
    gy[2][2] = 100;
    // Its forward probe lands at (3, 3); plant an equal magnitude there.
    gx[3][3] = 100;
    gy[3][3] = 100;
    let f = field(gx, gy, 5);
    let buf = non_max_suppression(&f, 0);
    // (2,2) is tied with its forward probe at (3,3), so it is suppressed.
    assert_eq!(buf.get(2, 2), 0);
    // The backward offset is ceiled, so (3,3) probes (1,1) -- not the
    // ridge at (2,2) -- and survives with its own magnitude byte,
    // isqrt(100^2 + 100^2) = 141.
    assert_eq!(buf.get(3, 3), 141);
}
