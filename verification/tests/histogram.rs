use ipcli::grid::Rgb;
use ipcli::histogram::{count_occurrences, grayscale, rgb};
use ipcli::pixel_ops::{average_color, binary_threshold};

fn shade(r: u8, g: u8, b: u8) -> Rgb {
    Rgb { r, g, b }
}

#[test]
fn occurrences_are_counted_per_bin() {
    let occ = count_occurrences(&vec![0, 3, 3, 254, 3]);
    assert_eq!(occ.len(), 255);
    assert_eq!(occ[0], 1);
    assert_eq!(occ[3], 3);
    assert_eq!(occ[254], 1);
    assert_eq!(occ[1], 0);
}

#[test]
fn occurrences_of_empty_input_are_zero() {
    let occ = count_occurrences(&Vec::new());
    assert_eq!(occ.len(), 255);
    assert!(occ.iter().all(|&c| c == 0));
}

#[test]
fn grayscale_histogram_marks_scaled_bars() {
    // Counts: intensity 0 twice (the maximum), intensity 1 once.
    let canvas = grayscale(&vec![0, 0, 1]);
    // A full bar is clamped to the top row.
    assert_eq!(canvas.get(0, 0), shade(0, 0, 0));
    // Half of 200 rows: the mark sits at row 199 - 100.
    assert_eq!(canvas.get(1, 99), shade(0, 0, 0));
    assert_eq!(canvas.get(1, 0), shade(255, 255, 255));
    // An empty bin's mark sits on the bottom row.
    assert_eq!(canvas.get(2, 199), shade(0, 0, 0));
    assert_eq!(canvas.get(7, 199), shade(0, 0, 0));
    // Everything else stays white.
    assert_eq!(canvas.get(0, 100), shade(255, 255, 255));
    assert_eq!(canvas.get(1, 100), shade(255, 255, 255));
}

#[test]
fn rgb_histogram_draws_blue_over_green_over_red() {
    let canvas = rgb(&vec![0], &vec![1], &vec![2]);
    // Each channel's full bar tops its own column.
    assert_eq!(canvas.get(0, 0), shade(255, 0, 0));
    assert_eq!(canvas.get(1, 0), shade(0, 255, 0));
    assert_eq!(canvas.get(2, 0), shade(0, 0, 255));
    // On the shared bottom row, blue paints last...
    assert_eq!(canvas.get(5, 199), shade(0, 0, 255));
    assert_eq!(canvas.get(0, 199), shade(0, 0, 255));
    // ...except under its own bar, where green's mark was painted over red's.
    assert_eq!(canvas.get(2, 199), shade(0, 255, 0));
    // Green's own column keeps blue's bottom mark.
    assert_eq!(canvas.get(1, 199), shade(0, 0, 255));
}

#[test]
fn binary_threshold_is_strict() {
    let out = binary_threshold(&vec![5, 100, 101, 200, 0], 100);
    assert_eq!(out, vec![0, 0, 255, 255, 0]);
}

#[test]
fn binary_threshold_of_empty_input_is_empty() {
    let out = binary_threshold(&Vec::new(), 10);
    assert!(out.is_empty());
}

#[test]
fn average_color_halves_at_each_pixel() {
    let pixels = vec![
        Rgb { r: 255, g: 0, b: 10 },
        Rgb { r: 255, g: 0, b: 20 },
    ];
    let (r, g, b) = average_color(&pixels);
    // r: (0 + 255) / 2 = 127, then (127 + 255) / 2 = 191.
    assert_eq!(r, 191);
    assert_eq!(g, 0);
    // b: (0 + 10) / 2 = 5, then (5 + 20) / 2 = 12.
    assert_eq!(b, 12);
}

#[test]
fn average_color_of_no_pixels_is_zero() {
    assert_eq!(average_color(&Vec::new()), (0, 0, 0));
}
