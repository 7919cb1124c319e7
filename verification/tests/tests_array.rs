// Tests with a grid of bits.

use contour_tracing::array::{bits_to_paths, trace_bits, SignedGrid};
use contour_tracing::error::TraceError;
use contour_tracing::raster::Raster;

fn rings() -> Vec<Vec<i8>> {
    vec![
        vec![0, 1, 1, 1, 0, 0, 1, 1, 1, 1, 1],
        vec![1, 0, 0, 0, 1, 0, 1, 0, 0, 0, 1],
        vec![1, 0, 0, 0, 1, 0, 1, 0, 1, 0, 1],
        vec![1, 0, 0, 0, 1, 0, 1, 0, 0, 0, 1],
        vec![0, 1, 1, 1, 0, 0, 1, 1, 1, 1, 1],
    ]
}

fn drawn(rows: &[&str]) -> Vec<Vec<i8>> {
    rows.iter()
        .map(|row| row.chars().map(|c| if c == '#' { 1 } else { 0 }).collect())
        .collect()
}

fn filled(width: usize, height: usize, value: i8) -> Vec<Vec<i8>> {
    vec![vec![value; width]; height]
}

#[test]
fn bits_to_paths_rings_open() {
    assert_eq!(
        bits_to_paths(rings(), false).unwrap(),
        "M1 0H4V1H1M6 0H11V5H6M0 1H1V4H0M4 1H5V4H4M7 1V4H10V1M8 2H9V3H8M1 4H4V5H1"
    );
}

#[test]
fn bits_to_paths_rings_closed() {
    assert_eq!(
        bits_to_paths(rings(), true).unwrap(),
        "M1 0H4V1H1ZM6 0H11V5H6ZM0 1H1V4H0ZM4 1H5V4H4ZM7 1V4H10V1ZM8 2H9V3H8ZM1 4H4V5H1Z"
    );
}

#[test]
fn bits_to_paths_diagonal_pixels() {
    let bits = vec![vec![1, 0, 0], vec![0, 1, 0], vec![0, 0, 1]];
    assert_eq!(
        bits_to_paths(bits.to_vec(), true).unwrap(),
        "M0 0H1V1H0ZM1 1H2V2H1ZM2 2H3V3H2Z"
    );
    assert_eq!(bits, vec![vec![1, 0, 0], vec![0, 1, 0], vec![0, 0, 1]]);
}

#[test]
fn bits_to_paths_all_background_is_empty() {
    assert_eq!(bits_to_paths(filled(4, 3, 0), true).unwrap(), "");
    assert_eq!(bits_to_paths(filled(1, 1, 0), false).unwrap(), "");
}

#[test]
fn bits_to_paths_all_foreground_is_one_rectangle() {
    assert_eq!(bits_to_paths(filled(1, 1, 1), true).unwrap(), "M0 0H1V1H0Z");
    assert_eq!(bits_to_paths(filled(4, 3, 1), true).unwrap(), "M0 0H4V3H0Z");
    assert_eq!(bits_to_paths(filled(7, 2, 1), false).unwrap(), "M0 0H7V2H0");
}

#[test]
fn bits_to_paths_writes_numbers_of_several_digits() {
    assert_eq!(bits_to_paths(filled(12, 1, 1), true).unwrap(), "M0 0H12V1H0Z");
    assert_eq!(bits_to_paths(filled(1, 100, 1), true).unwrap(), "M0 0H1V100H0Z");
    let mut bits = filled(1205, 11, 0);
    bits[10][1204] = 1;
    assert_eq!(bits_to_paths(bits, false).unwrap(), "M1204 10H1205V11H1204");
}

#[test]
fn bits_to_paths_only_the_value_one_is_foreground() {
    let bits = vec![vec![2, 1, -1], vec![0, 1, 7], vec![-128, 127, 1]];
    assert_eq!(bits_to_paths(bits, true).unwrap(), "M1 0H2V2H1ZM2 2H3V3H2Z");
}

#[test]
fn bits_to_paths_separates_regions_that_touch_at_a_corner() {
    let bits = vec![vec![1, 1, 1], vec![1, 0, 1], vec![1, 1, 0]];
    assert_eq!(bits_to_paths(bits, true).unwrap(), "M0 0H3V2H2V1H1V2H2V3H0Z");
}

#[test]
fn bits_to_paths_hole_with_an_island() {
    let bits = vec![
        vec![1, 1, 1, 1, 1],
        vec![1, 0, 0, 0, 1],
        vec![1, 0, 1, 0, 1],
        vec![1, 0, 0, 0, 1],
        vec![1, 1, 1, 1, 1],
    ];
    assert_eq!(
        bits_to_paths(bits, true).unwrap(),
        "M0 0H5V5H0ZM1 1V4H4V1ZM2 2H3V3H2Z"
    );
}

#[test]
fn bits_to_paths_refuses_a_grid_without_rows() {
    assert_eq!(bits_to_paths(Vec::new(), true), Err(TraceError::InvalidInput));
}

#[test]
fn bits_to_paths_refuses_a_grid_without_columns() {
    assert_eq!(bits_to_paths(vec![Vec::new()], true), Err(TraceError::InvalidInput));
    assert_eq!(
        bits_to_paths(vec![Vec::new(), Vec::new()], false),
        Err(TraceError::InvalidInput)
    );
}

#[test]
fn bits_to_paths_refuses_rows_of_different_lengths() {
    assert_eq!(
        bits_to_paths(vec![vec![1, 0], vec![1]], true),
        Err(TraceError::InvalidInput)
    );
    assert_eq!(
        bits_to_paths(vec![vec![1], vec![1, 0]], true),
        Err(TraceError::InvalidInput)
    );
    assert_eq!(
        bits_to_paths(vec![vec![1, 1], vec![0, 0], vec![]], true),
        Err(TraceError::InvalidInput)
    );
}

#[test]
fn signed_grid_holds_the_counters_of_the_bits() {
    let grid = SignedGrid::from_bits(&vec![vec![1, 0, 5], vec![0, 1, 1]]).unwrap();
    assert_eq!(grid.width(), 3);
    assert_eq!(grid.height(), 2);
    assert_eq!(grid.signed_value(0, 0), 1);
    assert_eq!(grid.signed_value(1, 0), -1);
    assert_eq!(grid.signed_value(2, 0), -1);
    assert_eq!(grid.signed_value(0, 1), -1);
    assert_eq!(grid.signed_value(1, 1), 1);
    assert_eq!(grid.signed_value(2, 1), 1);
    assert!(SignedGrid::from_bits(&vec![vec![1], vec![]]).is_err());
}

#[test]
fn trace_bits_appends_one_outline() {
    let mut grid = SignedGrid::from_bits(&vec![vec![0, 1, 1], vec![0, 0, 1]]).unwrap();
    let mut paths = String::from("M9 9");
    assert_eq!(trace_bits(true, 1, 0, &mut grid, &mut paths, true), Ok(()));
    assert_eq!(paths, "M9 9M1 0H3V2H2V1H1Z");
    assert_eq!(grid.signed_value(1, 0), 1 + 2 + 8 + 1);
    assert_eq!(grid.signed_value(2, 0), 1 + 2 + 4);
    assert_eq!(grid.signed_value(2, 1), 1 + 4 + 8 + 1);
    assert_eq!(grid.signed_value(0, 0), -1);
}

#[test]
fn trace_bits_appends_one_hole() {
    let mut grid =
        SignedGrid::from_bits(&vec![vec![1, 1, 1], vec![1, 0, 1], vec![1, 1, 1]]).unwrap();
    let mut paths = String::new();
    assert_eq!(trace_bits(false, 1, 1, &mut grid, &mut paths, false), Ok(()));
    assert_eq!(paths, "M1 1V2H2V1");
    assert_eq!(grid.signed_value(1, 1), -16);
    assert_eq!(grid.signed_value(0, 0), 1);
}

#[test]
fn trace_bits_fails_on_a_boundary_traced_before() {
    let mut grid = SignedGrid::from_bits(&vec![vec![1, 1], vec![1, 0]]).unwrap();
    let mut paths = String::new();
    assert_eq!(trace_bits(true, 0, 0, &mut grid, &mut paths, true), Ok(()));
    assert_eq!(paths, "M0 0H2V1H1V2H0Z");
    assert_eq!(
        trace_bits(true, 0, 0, &mut grid, &mut paths, true),
        Err(TraceError::Inconsistent)
    );
    assert_eq!(paths, "M0 0H2V1H1V2H0Z");
}

#[test]
fn bits_to_paths_speckled_picture() {
    let bits = drawn(&[
        "#.#.#.##.##.",
        ".#.#..#.#..#",
        "######..####",
        "##.####..#..",
        "##..#.###.##",
        "#..##..##.#.",
        "##.##.#####.",
        "####.#######",
    ]);
    assert_eq!(
        bits_to_paths(bits, true).unwrap(),
        "M0 0H1V1H0ZM2 0H3V1H2ZM4 0H5V1H4ZM6 0H8V1H7V2H6ZM9 0H11V1H9Z\
         M1 1H2V2H3V1H4V2H6V3H7V4H9V6H10V4H12V5H11V7H12V8H5V7H6V6H7V5H6V4H5V7H4V8H0V2H1Z\
         M8 1H9V2H11V1H12V3H10V4H9V3H8ZM2 3V5H1V6H2V7H3V5H4V4H3V3Z"
    );
}

#[test]
fn bits_to_paths_picture_with_many_holes() {
    let bits = drawn(&[
        "##.#.#.###",
        "##..######",
        "###.#.####",
        "##########",
        "####..####",
        "#.##.####.",
        ".#.###.###",
        "..###...#.",
        "#.#.######",
        "#########.",
    ]);
    assert_eq!(
        bits_to_paths(bits, false).unwrap(),
        "M0 0H2V2H3V3H4V1H5V0H6V1H7V0H10V5H9V6H10V7H9V8H10V9H9V10H0V8H1V9H2V7H3V6H2V5H1V6H0\
         M3 0H4V1H3M5 2V3H6V2M4 4V6H5V5H6V4M1 6H2V7H1M6 6V7H5V8H8V7H7V6M3 8V9H4V8"
    );
}

#[test]
fn bits_to_paths_many_small_pictures() {
    let pictures: [(&[&str], &str); 24] = [
        (
            &["#.##.", ".#...", "#.#..", ".###.", ".####"],
            "M0 0H1V1H0ZM2 0H4V1H2ZM1 1H2V2H1ZM0 2H1V3H0ZM2 2H3V3H4V4H5V5H1V3H2Z",
        ),
        (
            &["#..###.", "....#..", ".......", ".#..#.#", ".#....#", "......#"],
            "M0 0H1V1H0ZM3 0H6V1H5V2H4V1H3ZM1 3H2V5H1ZM4 3H5V4H4ZM6 3H7V6H6Z",
        ),
        (
            &[".....#.", "..###.#", "...##.#"],
            "M5 0H6V1H5ZM2 1H5V3H3V2H2ZM6 1H7V3H6Z",
        ),
        (
            &["#...", "....", "....", "..#."],
            "M0 0H1V1H0ZM2 3H3V4H2Z",
        ),
        (
            &["#.#", ".##", "#.#", ".#.", "...", "..."],
            "M0 0H1V1H0ZM2 0H3V3H2V2H1V1H2ZM0 2H1V3H0ZM1 3H2V4H1Z",
        ),
        (
            &["####.", "....#", "#.#.."],
            "M0 0H4V1H0ZM4 1H5V2H4ZM0 2H1V3H0ZM2 2H3V3H2Z",
        ),
        (
            &[".##.#", ".##.#", "#.##."],
            "M1 0H3V2H4V3H2V2H1ZM4 0H5V2H4ZM0 2H1V3H0Z",
        ),
        (
            &["###.#", ".###.", "#.##.", ".###."],
            "M0 0H3V1H4V4H1V3H2V2H1V1H0ZM4 0H5V1H4ZM0 2H1V3H0Z",
        ),
        (
            &["#.#", ".##", ".#.", "###", ".##"],
            "M0 0H1V1H0ZM2 0H3V2H2V3H3V5H1V4H0V3H1V1H2Z",
        ),
        (
            &[".###", "####", ".###", "####", "####", "#.##"],
            "M1 0H4V6H2V5H1V6H0V3H1V2H0V1H1Z",
        ),
        (
            &[".#.##", "...#.", "##.##", ".####", "#..#.", "##.#."],
            "M1 0H2V1H1ZM3 0H5V1H4V2H5V4H4V6H3V4H1V3H0V2H2V3H3ZM0 4H1V5H2V6H0Z",
        ),
        (
            &["#.##.##", "#.#####", ".######"],
            "M0 0H1V2H0ZM2 0H4V1H5V0H7V3H1V2H2Z",
        ),
        (
            &["#.#.#.#", "##.##..", "....#..", ".#..#.#", ".##..##", ".######"],
            "M0 0H1V1H2V2H0ZM2 0H3V1H2ZM4 0H5V4H4V2H3V1H4ZM6 0H7V1H6ZM1 3H2V4H3V5H5V4H6V3H7V6H1Z",
        ),
        (
            &[".###.#", "#.##.#", "..#...", ".##.##"],
            "M1 0H4V2H3V4H1V3H2V1H1ZM5 0H6V2H5ZM0 1H1V2H0ZM4 3H6V4H4Z",
        ),
        (
            &["##.", "###", ".##", "#.#", "###"],
            "M0 0H2V1H3V5H0V3H1V4H2V3H1V2H0Z",
        ),
        (
            &["#.#.###", "##..#.#", "#######"],
            "M0 0H1V1H2V2H4V0H7V3H0ZM2 0H3V1H2ZM5 1V2H6V1Z",
        ),
        (
            &[".#....", "#....#", "....#.", "#.####"],
            "M1 0H2V1H1ZM0 1H1V2H0ZM5 1H6V2H5ZM4 2H5V3H6V4H2V3H4ZM0 3H1V4H0Z",
        ),
        (
            &["....", "..##", "###.", "####"],
            "M2 1H4V2H3V3H4V4H0V2H2Z",
        ),
        (
            &["##...##", "..##..#", "#.##..#", ".##.###", "##.#.##"],
            "M0 0H2V1H0ZM5 0H7V5H5V4H4V3H6V1H5ZM2 1H4V3H3V4H2V5H0V4H1V3H2ZM0 2H1V3H0ZM3 4H4V5H3Z",
        ),
        (
            &["#....", ".#.#.", "...#.", "..#..", "..#.."],
            "M0 0H1V1H0ZM1 1H2V2H1ZM3 1H4V3H3ZM2 3H3V5H2Z",
        ),
        (
            &["####.#", "#####.", "#.#.##", "..###.", "##.###", "#.####"],
            "M0 0H4V1H5V2H6V3H5V4H6V6H2V5H3V4H2V2H1V3H0ZM5 0H6V1H5ZM3 2V3H4V2ZM0 4H2V5H1V6H0Z",
        ),
        (
            &["###", "###", "#.#", "###"],
            "M0 0H3V4H0ZM1 2V3H2V2Z",
        ),
        (
            &[".#...#.", "#....##", ".######", ".#.####"],
            "M1 0H2V1H1ZM5 0H6V1H7V4H3V3H2V4H1V2H5ZM0 1H1V2H0Z",
        ),
        (
            &["##.", "###", "##.", "..."],
            "M0 0H2V1H3V2H2V3H0Z",
        ),
    ];
    for (rows, expected) in pictures {
        assert_eq!(bits_to_paths(drawn(rows), true).unwrap(), expected);
        assert_eq!(bits_to_paths(drawn(rows), false).unwrap(), expected.replace('Z', ""));
    }
}
