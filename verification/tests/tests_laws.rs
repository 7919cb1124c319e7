// What holds of every trace, tried on many small pictures.

use contour_tracing::array::{bits_to_paths, SignedGrid};
use contour_tracing::luma_image::{single_l8_to_paths, LumaBuffer};
use contour_tracing::path::{render, Path, PathOp};
use contour_tracing::heading::{BoundaryKind, Heading};
use contour_tracing::scanner::trace_all;
use contour_tracing::tracer::walk;
use image::Luma;

struct Dice(u64);

impl Dice {
    fn roll(&mut self, sides: u64) -> u64 {
        self.0 = self.0.wrapping_mul(6364136223846793005).wrapping_add(1442695040888963407);
        (self.0 >> 33) % sides
    }
}

fn picture(dice: &mut Dice) -> Vec<Vec<i8>> {
    let width = 1 + dice.roll(9) as usize;
    let height = 1 + dice.roll(9) as usize;
    let density = 1 + dice.roll(9);
    let mut bits = Vec::new();
    for _ in 0..height {
        let mut row = Vec::new();
        for _ in 0..width {
            row.push(if dice.roll(10) < density { 1 } else { 0 });
        }
        bits.push(row);
    }
    bits
}

fn trace(bits: &Vec<Vec<i8>>, close: bool) -> Vec<Path> {
    let mut grid = SignedGrid::from_bits(bits).unwrap();
    trace_all(&mut grid, close).unwrap()
}

// Foreground regions joined along cell sides, and background regions joined
// along cell sides that do not reach the edge of the picture.
fn regions(bits: &Vec<Vec<i8>>) -> (usize, usize) {
    let height = bits.len();
    let width = bits[0].len();
    let mut seen = vec![vec![false; width]; height];
    let mut foreground = 0;
    let mut enclosed = 0;
    for y in 0..height {
        for x in 0..width {
            if seen[y][x] {
                continue;
            }
            let want = bits[y][x] == 1;
            let mut touches_edge = false;
            let mut stack = vec![(x, y)];
            seen[y][x] = true;
            while let Some((cx, cy)) = stack.pop() {
                if cx == 0 || cy == 0 || cx == width - 1 || cy == height - 1 {
                    touches_edge = true;
                }
                let mut near = Vec::new();
                if cx > 0 {
                    near.push((cx - 1, cy));
                }
                if cy > 0 {
                    near.push((cx, cy - 1));
                }
                if cx + 1 < width {
                    near.push((cx + 1, cy));
                }
                if cy + 1 < height {
                    near.push((cx, cy + 1));
                }
                for (nx, ny) in near {
                    if !seen[ny][nx] && (bits[ny][nx] == 1) == want {
                        seen[ny][nx] = true;
                        stack.push((nx, ny));
                    }
                }
            }
            if want {
                foreground += 1;
            } else if !touches_edge {
                enclosed += 1;
            }
        }
    }
    (foreground, enclosed)
}

// Twice the signed area of a path: positive for a clockwise path on a
// screen whose y axis points down.
fn doubled_area(path: &Path) -> i64 {
    let mut corners: Vec<(i64, i64)> = Vec::new();
    for op in &path.ops {
        match *op {
            PathOp::MoveTo { x, y } => corners.push((x as i64, y as i64)),
            PathOp::Horizontal { x } => {
                let y = corners[corners.len() - 1].1;
                corners.push((x as i64, y));
            }
            PathOp::Vertical { y } => {
                let x = corners[corners.len() - 1].0;
                corners.push((x, y as i64));
            }
            PathOp::Close => {}
        }
    }
    let mut sum = 0;
    for i in 0..corners.len() {
        let (x0, y0) = corners[i];
        let (x1, y1) = corners[(i + 1) % corners.len()];
        sum += x0 * y1 - x1 * y0;
    }
    sum
}

#[test]
fn every_boundary_group_has_one_move_in_front() {
    let mut dice = Dice(1);
    for round in 0..400 {
        let bits = picture(&mut dice);
        let close = round % 2 == 0;
        let paths = trace(&bits, close);
        for path in &paths {
            assert!(matches!(path.ops[0], PathOp::MoveTo { .. }));
            let lines_end = if close { path.ops.len() - 1 } else { path.ops.len() };
            for op in &path.ops[1..lines_end] {
                assert!(matches!(op, PathOp::Horizontal { .. } | PathOp::Vertical { .. }));
            }
            assert_eq!(close, matches!(path.ops[path.ops.len() - 1], PathOp::Close));
        }
        let text = bits_to_paths(bits, close).unwrap();
        assert_eq!(text.matches('M').count(), paths.len());
        assert_eq!(text.matches('Z').count(), if close { paths.len() } else { 0 });
    }
}

#[test]
fn moves_count_regions_and_enclosed_holes() {
    assert_eq!(regions(&vec![vec![1, 0, 1], vec![0, 0, 0], vec![1, 0, 1]]), (4, 0));
    assert_eq!(regions(&vec![vec![1, 1, 1], vec![1, 0, 1], vec![1, 1, 1]]), (1, 1));
    let mut dice = Dice(2);
    for _ in 0..400 {
        let bits = picture(&mut dice);
        let (foreground, enclosed) = regions(&bits);
        let text = bits_to_paths(bits.clone(), true).unwrap();
        let moves = text.matches('M').count();
        assert!(moves >= foreground);
        assert!(moves <= foreground + enclosed);
    }
    let ring = vec![
        vec![1, 1, 1, 1, 1],
        vec![1, 0, 0, 0, 1],
        vec![1, 0, 1, 0, 1],
        vec![1, 0, 0, 0, 1],
        vec![1, 1, 1, 1, 1],
    ];
    assert_eq!(regions(&ring), (2, 1));
    assert_eq!(bits_to_paths(ring, false).unwrap().matches('M').count(), 3);
}

#[test]
fn outlines_run_clockwise_and_holes_counterclockwise() {
    let ring = vec![vec![1, 1, 1], vec![1, 0, 1], vec![1, 1, 1]];
    let paths = trace(&ring, true);
    assert_eq!(paths.len(), 2);
    assert_eq!(doubled_area(&paths[0]), 18);
    assert_eq!(doubled_area(&paths[1]), -2);
    let mut dice = Dice(3);
    for _ in 0..400 {
        let bits = picture(&mut dice);
        for path in trace(&bits, false) {
            let first = path.ops[1];
            let area = doubled_area(&path);
            assert!(area != 0);
            assert_eq!(area > 0, matches!(first, PathOp::Horizontal { .. }));
        }
    }
}

#[test]
fn every_coordinate_lies_on_the_grid() {
    let mut dice = Dice(4);
    for _ in 0..400 {
        let bits = picture(&mut dice);
        let height = bits.len();
        let width = bits[0].len();
        for path in trace(&bits, true) {
            for op in path.ops {
                match op {
                    PathOp::MoveTo { x, y } => assert!(x <= width && y <= height),
                    PathOp::Horizontal { x } => assert!(x <= width),
                    PathOp::Vertical { y } => assert!(y <= height),
                    PathOp::Close => {}
                }
            }
        }
    }
    let corner = vec![vec![0, 0], vec![0, 1]];
    assert_eq!(
        trace(&corner, false)[0].ops,
        vec![
            PathOp::MoveTo { x: 1, y: 1 },
            PathOp::Horizontal { x: 2 },
            PathOp::Vertical { y: 2 },
            PathOp::Horizontal { x: 1 },
        ]
    );
}

#[test]
fn a_second_trace_of_a_fresh_copy_gives_the_same_text() {
    let mut dice = Dice(5);
    for round in 0..400 {
        let bits = picture(&mut dice);
        let close = round % 2 == 0;
        let first = bits_to_paths(bits.clone(), close).unwrap();
        let second = bits_to_paths(bits.clone(), close).unwrap();
        assert_eq!(first, second);
        assert_eq!(render(&trace(&bits, close)), first);
    }
}

#[test]
fn the_text_depends_on_the_picture_only() {
    let mut dice = Dice(6);
    for _ in 0..200 {
        let bits = picture(&mut dice);
        let height = bits.len() as u32;
        let width = bits[0].len() as u32;
        let mut other = bits.clone();
        let mut data = Vec::new();
        for row in other.iter_mut() {
            for bit in row.iter_mut() {
                data.push(if *bit == 1 { 77 } else { dice.roll(77) as u8 });
                if *bit != 1 {
                    *bit = 2 + dice.roll(100) as i8;
                }
            }
        }
        let expected = bits_to_paths(bits, true).unwrap();
        assert_eq!(bits_to_paths(other, true).unwrap(), expected);
        let mut buffer = LumaBuffer::from_raw(width, height, data).unwrap();
        assert_eq!(single_l8_to_paths(&mut buffer, Luma([77]), true).unwrap(), expected);
    }
}

#[test]
fn neighbouring_lines_never_share_an_axis() {
    let mut dice = Dice(7);
    for round in 0..400 {
        let bits = picture(&mut dice);
        for path in trace(&bits, round % 2 == 0) {
            for pair in path.ops.windows(2) {
                let both_horizontal = matches!(pair[0], PathOp::Horizontal { .. })
                    && matches!(pair[1], PathOp::Horizontal { .. });
                let both_vertical = matches!(pair[0], PathOp::Vertical { .. })
                    && matches!(pair[1], PathOp::Vertical { .. });
                assert!(!both_horizontal && !both_vertical);
            }
        }
    }
    let step = vec![vec![1, 0], vec![1, 1]];
    assert_eq!(bits_to_paths(step, false).unwrap(), "M0 0H1V1H2V2H0");
}

#[test]
fn a_hole_is_walked_as_an_outline_in_the_mirror() {
    let mut dice = Dice(8);
    let mut holes = 0;
    for _ in 0..400 {
        let bits = picture(&mut dice);
        let height = bits.len();
        let width = bits[0].len();
        let mut mirrored = vec![vec![0; height]; width];
        for y in 0..height {
            for x in 0..width {
                mirrored[x][y] = 1 - bits[y][x];
            }
        }
        for y in 0..height {
            for x in 0..width {
                if bits[y][x] == 1 {
                    continue;
                }
                let mut grid = SignedGrid::from_bits(&bits).unwrap();
                let mut glass = SignedGrid::from_bits(&mirrored).unwrap();
                let hole = walk(&mut grid, BoundaryKind::Hole, x, y, Heading::South, true);
                let outline = walk(&mut glass, BoundaryKind::Outline, y, x, Heading::East, true);
                let (hole, outline) = match (hole, outline) {
                    (Ok(hole), Ok(outline)) => (hole, outline),
                    (hole, outline) => {
                        assert!(hole.is_err() && outline.is_err());
                        continue;
                    }
                };
                let reflected: Vec<PathOp> = hole
                    .ops
                    .iter()
                    .map(|op| match *op {
                        PathOp::MoveTo { x, y } => PathOp::MoveTo { x: y, y: x },
                        PathOp::Horizontal { x } => PathOp::Vertical { y: x },
                        PathOp::Vertical { y } => PathOp::Horizontal { x: y },
                        PathOp::Close => PathOp::Close,
                    })
                    .collect();
                assert_eq!(reflected, outline.ops);
                assert_eq!(doubled_area(&hole), -doubled_area(&outline));
                holes += 1;
            }
        }
    }
    assert!(holes > 1000);
}

#[test]
fn every_boundary_group_squares_off() {
    let mut dice = Dice(9);
    for round in 0..400 {
        let bits = picture(&mut dice);
        let close = round % 2 == 0;
        for path in trace(&bits, close) {
            let last = path.ops[path.ops.len() - if close { 2 } else { 1 }];
            match (path.ops[0], path.ops[1]) {
                (PathOp::MoveTo { x, .. }, PathOp::Horizontal { .. }) => {
                    assert_eq!(last, PathOp::Horizontal { x })
                }
                (PathOp::MoveTo { y, .. }, PathOp::Vertical { .. }) => {
                    assert_eq!(last, PathOp::Vertical { y })
                }
                _ => panic!("a boundary group begins with a move and a line"),
            }
        }
    }
}

#[test]
fn plain_pictures_of_every_size() {
    for height in 1..7 {
        for width in 1..7 {
            let blank = vec![vec![0; width]; height];
            assert_eq!(bits_to_paths(blank.clone(), true).unwrap(), "");
            assert!(trace(&blank, false).is_empty());
            let full = vec![vec![1; width]; height];
            assert_eq!(
                bits_to_paths(full.clone(), true).unwrap(),
                format!("M0 0H{}V{}H0Z", width, height)
            );
            let mut grid = SignedGrid::from_bits(&full).unwrap();
            assert_eq!(trace_all(&mut grid, false).unwrap().len(), 1);
            for y in 0..height {
                for x in 0..width {
                    let mut marks = 1;
                    if y == 0 {
                        marks += 2;
                    }
                    if x == width - 1 {
                        marks += 4;
                    }
                    if y == height - 1 {
                        marks += 8;
                    }
                    if x == 0 {
                        marks += 1;
                    }
                    assert_eq!(contour_tracing::raster::Raster::signed_value(&grid, x, y), marks);
                }
            }
        }
    }
}

#[test]
fn a_second_trace_of_a_fresh_image_gives_the_same_text() {
    let mut dice = Dice(10);
    for _ in 0..200 {
        let bits = picture(&mut dice);
        let height = bits.len() as u32;
        let width = bits[0].len() as u32;
        let data: Vec<u8> =
            bits.iter().flatten().map(|bit| if *bit == 1 { 255 } else { 0 }).collect();
        let mut first = LumaBuffer::from_raw(width, height, data.clone()).unwrap();
        let mut second = LumaBuffer::from_raw(width, height, data).unwrap();
        let text = single_l8_to_paths(&mut first, Luma([255]), false).unwrap();
        assert_eq!(single_l8_to_paths(&mut second, Luma([255]), false).unwrap(), text);
        assert_eq!(bits_to_paths(bits, false).unwrap(), text);
        // The traced buffer holds counters, no picture: nothing in it is white.
        assert_eq!(single_l8_to_paths(&mut first, Luma([255]), false).unwrap(), "");
    }
}

// The cross product of the line that leads back to the first corner of a
// path and the line that leaves it.
fn first_turn(path: &Path) -> i64 {
    let (x0, y0) = match path.ops[0] {
        PathOp::MoveTo { x, y } => (x as i64, y as i64),
        _ => panic!("a boundary group begins with a move"),
    };
    let mut pen = (x0, y0);
    let mut out = (x0, y0);
    for (i, op) in path.ops.iter().enumerate() {
        match *op {
            PathOp::Horizontal { x } => pen.0 = x as i64,
            PathOp::Vertical { y } => pen.1 = y as i64,
            _ => {}
        }
        if i == 1 {
            out = pen;
        }
    }
    (x0 - pen.0) * (out.1 - y0) - (out.0 - x0) * (y0 - pen.1)
}

#[test]
fn the_first_corner_turns_clockwise_for_outlines_and_against_for_holes() {
    let ring = vec![vec![1, 1, 1], vec![1, 0, 1], vec![1, 1, 1]];
    let turns: Vec<i64> = trace(&ring, false).iter().map(first_turn).collect();
    assert_eq!(turns, vec![9, -1]);
    let mut dice = Dice(11);
    for round in 0..400 {
        let bits = picture(&mut dice);
        for path in trace(&bits, round % 2 == 0) {
            match path.ops[1] {
                PathOp::Horizontal { .. } => assert!(first_turn(&path) > 0),
                _ => assert!(first_turn(&path) < 0),
            }
        }
    }
}
