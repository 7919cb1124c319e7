//! Pictures of one colour, traced for every size: a picture without
//! foreground has no boundaries, and a picture without background has one,
//! the rectangle round it.

use vstd::prelude::*;
use crate::heading::{BoundaryKind, Heading};
use crate::array::{counters, lemma_counters_well_formed, usable};
use crate::path::{decimal, ops_text, paths_text, PathOp};
use crate::raster::{cell_at, columns, side_marked, well_formed, with_added};
use crate::tracer::{
    advance, boundary, circuit, decide, departure, settle, stamp, vertex, walker_ok, Turn, Walker,
};
use crate::scanner::{cross, discover, sweep_row, sweep_rows, traced, Sweep};

verus! {

/// A grid in which every counter has the value `v`.
pub open spec fn uniform(cells: Seq<Seq<int>>, v: int) -> bool {
    forall|x: int, y: int|
        0 <= y < cells.len() && 0 <= x < columns(cells) ==> (#[trigger] cells[y][x]) == v
}

proof fn lemma_blank_row(s: Sweep, x: int, y: int, width: int, close: bool)
    requires
        well_formed(s.cells),
        uniform(s.cells, -1),
        columns(s.cells) == width,
        0 <= y < s.cells.len(),
        0 <= x,
        s.outlines == 0,
        s.holes == 0,
    ensures
        sweep_row(s, x, y, width, close) == Some(s),
    decreases width - x,
{
    if x < width {
        assert(s.cells[y][x] == -1);
        assert(discover(s, x, y, close) == Some(s));
        assert(cross(s, x, y) == Some(s));
        lemma_blank_row(s, x + 1, y, width, close);
    }
}

proof fn lemma_blank_rows(s: Sweep, y: int, width: int, height: int, close: bool)
    requires
        well_formed(s.cells),
        uniform(s.cells, -1),
        columns(s.cells) == width,
        s.cells.len() == height,
        0 <= y,
        s.outlines == 0,
        s.holes == 0,
    ensures
        sweep_rows(s, y, width, height, close) == Some(s),
    decreases height - y,
{
    if y < height {
        lemma_blank_row(s, 0, y, width, close);
        lemma_blank_rows(s, y + 1, width, height, close);
    }
}

/// A picture that is all background has no boundaries: its trace succeeds,
/// finds no path and leaves every counter untouched.
pub proof fn lemma_background_has_no_boundaries(cells: Seq<Seq<int>>, close: bool)
    requires
        well_formed(cells),
        uniform(cells, -1),
    ensures
        traced(cells, close) matches Some(end) && end.paths.len() == 0 && end.cells == cells,
{
    let start = Sweep { cells, outlines: 0, holes: 0, paths: Seq::empty() };
    lemma_blank_rows(start, 0, columns(cells), cells.len() as int, close);
}

/// The counter of the cell `(x, y)` of a `width` by `height` picture that
/// is all foreground, once the first `t` sides of its frame are marked. The
/// sides of the frame are counted clockwise from the north side of the top
/// left cell.
pub open spec fn framed_value(width: int, height: int, t: int, x: int, y: int) -> int {
    let north: int = if y == 0 && x < t {
        2
    } else {
        0
    };
    let east: int = if x == width - 1 && width + y < t {
        4
    } else {
        0
    };
    let south: int = if y == height - 1 && width + height + (width - 1 - x) < t {
        8
    } else {
        0
    };
    let west: int = if x == 0 && 2 * width + height + (height - 1 - y) < t {
        1
    } else {
        0
    };
    1 + north + east + south + west
}

/// The grid of a picture that is all foreground, once the first `t` sides
/// of its frame are marked.
pub open spec fn framed(width: int, height: int, t: int) -> Seq<Seq<int>> {
    Seq::new(
        height as nat,
        |y: int| Seq::new(width as nat, |x: int| framed_value(width, height, t, x, y)),
    )
}

/// The commands of the frame that are emitted before its side `t` is
/// marked: the move, and a line for every corner turned.
pub open spec fn frame_ops(width: int, height: int, t: int) -> Seq<PathOp> {
    let start = seq![PathOp::MoveTo { x: 0, y: 0 }];
    if t < width {
        start
    } else if t < width + height {
        start.push(PathOp::Horizontal { x: width as usize })
    } else if t < 2 * width + height {
        start.push(PathOp::Horizontal { x: width as usize }).push(
            PathOp::Vertical { y: height as usize },
        )
    } else {
        start.push(PathOp::Horizontal { x: width as usize }).push(
            PathOp::Vertical { y: height as usize },
        ).push(PathOp::Horizontal { x: 0 })
    }
}

/// The walker on its way round the frame, about to mark side `t`.
pub open spec fn lap(width: int, height: int, t: int) -> Walker {
    Walker {
        cells: framed(width, height, t),
        x: if t < width {
            t
        } else if t < width + height {
            width - 1
        } else if t < 2 * width + height {
            2 * width + height - 1 - t
        } else {
            0
        },
        y: if t < width {
            0
        } else if t < width + height {
            t - width
        } else if t < 2 * width + height {
            height - 1
        } else {
            2 * width + 2 * height - 1 - t
        },
        heading: if t < width {
            Heading::East
        } else if t < width + height {
            Heading::South
        } else if t < 2 * width + height {
            Heading::West
        } else {
            Heading::North
        },
        ops: frame_ops(width, height, t),
    }
}

proof fn lemma_framed(width: int, height: int, t: int)
    requires
        1 <= width,
        1 <= height,
    ensures
        well_formed(framed(width, height, t)),
        framed(width, height, t).len() == height,
        columns(framed(width, height, t)) == width,
        forall|x: int, y: int|
            #[trigger] cell_at(framed(width, height, t), x, y) == if 0 <= x < width && 0 <= y
                < height {
                framed_value(width, height, t, x, y)
            } else {
                0
            },
{
}

/// Marking side `t` of the frame gives the frame with `t + 1` sides marked.
proof fn lemma_frame_stamp(width: int, height: int, t: int)
    requires
        1 <= width,
        1 <= height,
        0 <= t < 2 * width + 2 * height,
    ensures
        stamp(
            BoundaryKind::Outline,
            framed(width, height, t),
            lap(width, height, t).x,
            lap(width, height, t).y,
            lap(width, height, t).heading,
        ) == Some(framed(width, height, t + 1)),
{
    lemma_framed(width, height, t);
    lemma_framed(width, height, t + 1);
    let w = lap(width, height, t);
    let before = framed(width, height, t);
    let after = framed(width, height, t + 1);
    let bit = BoundaryKind::Outline.side_bit(w.heading);
    assert(before[w.y][w.x] == framed_value(width, height, t, w.x, w.y));
    assert(!side_marked(before[w.y][w.x], bit));
    let marked = with_added(before, w.x, w.y, bit);
    assert(marked.len() == after.len());
    assert forall|y: int| 0 <= y < height implies (#[trigger] marked[y]) == after[y] by {
        assert forall|x: int| 0 <= x < width implies (#[trigger] marked[y][x]) == after[y][x] by {
            assert(before[y][x] == framed_value(width, height, t, x, y));
        }
        assert(marked[y] =~= after[y]);
    }
    assert(marked =~= after);
}


/// The walker on the frame is a valid walker.
proof fn lemma_lap_ok(width: int, height: int, t: int)
    requires
        1 <= width <= usize::MAX,
        1 <= height <= usize::MAX,
        0 <= t < 2 * width + 2 * height,
    ensures
        walker_ok(BoundaryKind::Outline, lap(width, height, t)),
{
    lemma_framed(width, height, t);
    let w = lap(width, height, t);
    assert(cell_at(w.cells, w.x, w.y) == framed_value(width, height, t, w.x, w.y));
}

/// On the frame the walker goes straight along a side of the picture and
/// turns outward at its end.
proof fn lemma_lap_decide(width: int, height: int, t: int)
    requires
        1 <= width <= usize::MAX,
        1 <= height <= usize::MAX,
        0 <= t < 2 * width + 2 * height,
    ensures
        decide(
            BoundaryKind::Outline,
            framed(width, height, t),
            lap(width, height, t).x,
            lap(width, height, t).y,
            lap(width, height, t).heading,
        ) == if t == width - 1 || t == width + height - 1 || t == 2 * width + height - 1 || t == 2
            * width + 2 * height - 1 {
            Turn::Outward
        } else {
            Turn::Straight
        },
{
    lemma_framed(width, height, t);
    let w = lap(width, height, t);
    let h = w.heading;
    let i = BoundaryKind::Outline.inward(h);
    let o = BoundaryKind::Outline.outward(h);
    let cells = framed(width, height, t);
    assert(cell_at(cells, w.x + h.dx(), w.y + h.dy()) == if 0 <= w.x + h.dx() < width && 0 <= w.y
        + h.dy() < height {
        framed_value(width, height, t, w.x + h.dx(), w.y + h.dy())
    } else {
        0
    });
    assert(cell_at(cells, w.x + h.dx() + i.dx(), w.y + h.dy() + i.dy()) == 0);
    assert(cell_at(cells, w.x + h.dx() + o.dx(), w.y + h.dy() + o.dy()) == if 0 <= w.x + h.dx()
        + o.dx() < width && 0 <= w.y + h.dy() + o.dy() < height {
        framed_value(width, height, t, w.x + h.dx() + o.dx(), w.y + h.dy() + o.dy())
    } else {
        0
    });
}

/// A step on the frame leads from one side to the next.
proof fn lemma_lap_step(width: int, height: int, t: int)
    requires
        1 <= width <= usize::MAX,
        1 <= height <= usize::MAX,
        0 <= t < 2 * width + 2 * height - 1,
    ensures
        advance(BoundaryKind::Outline, lap(width, height, t)) == Some(lap(width, height, t + 1)),
{
    lemma_frame_stamp(width, height, t);
    lemma_lap_decide(width, height, t);
    let w = lap(width, height, t);
    let next = lap(width, height, t + 1);
    let got = advance(BoundaryKind::Outline, w)->0;
    assert(got.ops =~= next.ops);
}


/// The side of the frame at which the walker is back on the top left cell
/// with more than two commands emitted: the south side of that cell in a
/// picture of one row, its west side in every other picture.
pub open spec fn home(width: int, height: int) -> int {
    if height == 1 {
        2 * width
    } else {
        2 * width + 2 * height - 1
    }
}

/// From every side before it, the circuit round the frame ends at `home`.
proof fn lemma_lap_circuit(width: int, height: int, t: int)
    requires
        1 <= width <= usize::MAX,
        1 <= height <= usize::MAX,
        0 <= t < home(width, height),
    ensures
        circuit(BoundaryKind::Outline, 0, 0, lap(width, height, t)) == Some(
            lap(width, height, home(width, height)),
        ),
    decreases home(width, height) - t,
{
    lemma_lap_ok(width, height, t);
    lemma_lap_step(width, height, t);
    let next = lap(width, height, t + 1);
    if t + 1 < home(width, height) {
        assert(!(next.x == 0 && next.y == 0 && next.ops.len() > 2));
        lemma_lap_circuit(width, height, t + 1);
    } else {
        assert(next.x == 0 && next.y == 0 && next.ops.len() > 2);
    }
}

/// The walker at the end of the walk round the frame: every side marked,
/// back on the top left cell, facing north, the rectangle emitted.
pub open spec fn lap_done(width: int, height: int) -> Walker {
    Walker {
        cells: framed(width, height, 2 * width + 2 * height),
        x: 0,
        y: 0,
        heading: Heading::North,
        ops: frame_ops(width, height, 2 * width + 2 * height),
    }
}

/// The closing phase marks what is left of the frame.
proof fn lemma_lap_settle(width: int, height: int)
    requires
        1 <= width <= usize::MAX,
        1 <= height <= usize::MAX,
    ensures
        settle(BoundaryKind::Outline, lap(width, height, home(width, height))) == Some(
            lap_done(width, height),
        ),
{
    let last = 2 * width + 2 * height - 1;
    lemma_frame_stamp(width, height, last);
    assert(settle(BoundaryKind::Outline, lap(width, height, last)) == Some(
        lap_done(width, height),
    ));
    if height == 1 {
        let t = 2 * width;
        lemma_frame_stamp(width, height, t);
        let w = lap(width, height, t);
        let turned = Walker {
            cells: framed(width, height, t + 1),
            x: w.x,
            y: w.y,
            heading: Heading::North,
            ops: w.ops.push(vertex(BoundaryKind::Outline, Heading::North, w.x, w.y)),
        };
        assert(turned.ops =~= lap(width, height, last).ops);
        assert(turned == lap(width, height, last));
    }
}

/// The commands of the rectangle round a `width` by `height` picture.
pub open spec fn rectangle(width: int, height: int, close: bool) -> Seq<PathOp> {
    let open_path = seq![
        PathOp::MoveTo { x: 0, y: 0 },
        PathOp::Horizontal { x: width as usize },
        PathOp::Vertical { y: height as usize },
        PathOp::Horizontal { x: 0 },
    ];
    if close {
        open_path.push(PathOp::Close)
    } else {
        open_path
    }
}

/// The outline walk from the top left cell of a picture that is all
/// foreground finds the rectangle round the picture and marks its frame.
proof fn lemma_frame_boundary(width: int, height: int, close: bool)
    requires
        1 <= width <= usize::MAX,
        1 <= height <= usize::MAX,
    ensures
        boundary(
            BoundaryKind::Outline,
            framed(width, height, 0),
            0,
            0,
            Heading::East,
            close,
        ) matches Some(done) && done.cells == framed(width, height, 2 * width + 2 * height)
            && done.ops == rectangle(width, height, close),
{
    let first = departure(BoundaryKind::Outline, framed(width, height, 0), 0, 0, Heading::East);
    assert(first.ops =~= lap(width, height, 0).ops);
    assert(first == lap(width, height, 0));
    lemma_lap_circuit(width, height, 0);
    lemma_lap_settle(width, height);
    let done = boundary(
        BoundaryKind::Outline,
        framed(width, height, 0),
        0,
        0,
        Heading::East,
        close,
    )->0;
    assert(done.ops =~= rectangle(width, height, close));
}


/// The scan of a row of the marked frame from column `x` on: the outline
/// level is one between the first and the last column, no walk starts, and
/// the row ends with both levels at zero.
proof fn lemma_frame_row(s: Sweep, x: int, y: int, width: int, height: int, close: bool)
    requires
        1 <= width,
        1 <= height,
        s.cells == framed(width, height, 2 * width + 2 * height),
        0 <= x,
        0 <= y < height,
        s.holes == 0,
        s.outlines == if 0 < x < width {
            1int
        } else {
            0int
        },
    ensures
        sweep_row(s, x, y, width, close) == Some(
            Sweep { cells: s.cells, outlines: 0, holes: 0, paths: s.paths },
        ),
    decreases width - x,
{
    if x < width {
        let v = s.cells[y][x];
        assert(v == framed_value(width, height, 2 * width + 2 * height, x, y));
        assert(discover(s, x, y, close) == Some(s));
        let next = cross(s, x, y)->0;
        assert(cross(s, x, y) is Some);
        lemma_frame_row(next, x + 1, y, width, height, close);
    }
}

/// The scan of the rows of the marked frame from row `y` on changes
/// nothing.
proof fn lemma_frame_rows(s: Sweep, y: int, width: int, height: int, close: bool)
    requires
        1 <= width,
        1 <= height,
        s.cells == framed(width, height, 2 * width + 2 * height),
        0 <= y,
        s.holes == 0,
        s.outlines == 0,
    ensures
        sweep_rows(s, y, width, height, close) == Some(s),
    decreases height - y,
{
    if y < height {
        lemma_frame_row(s, 0, y, width, height, close);
        lemma_frame_rows(s, y + 1, width, height, close);
    }
}

/// A picture that is all foreground has one boundary, whatever its size:
/// the rectangle round it, with four corners. Its trace succeeds and marks
/// the frame of the picture and nothing else.
pub proof fn lemma_foreground_has_one_rectangle(cells: Seq<Seq<int>>, close: bool)
    requires
        well_formed(cells),
        uniform(cells, 1),
        cells.len() <= usize::MAX,
        columns(cells) <= usize::MAX,
    ensures
        traced(cells, close) matches Some(end) && end.paths == seq![
            rectangle(columns(cells), cells.len() as int, close),
        ] && end.cells == framed(
            columns(cells),
            cells.len() as int,
            2 * columns(cells) + 2 * cells.len(),
        ),
{
    let width = columns(cells);
    let height = cells.len() as int;
    let fresh = framed(width, height, 0);
    assert forall|y: int| 0 <= y < height implies (#[trigger] cells[y]) == fresh[y] by {
        assert(cells[y].len() == width);
        assert forall|x: int| 0 <= x < width implies (#[trigger] cells[y][x]) == fresh[y][x] by {}
        assert(cells[y] =~= fresh[y]);
    }
    assert(cells =~= fresh);
    lemma_frame_boundary(width, height, close);
    let marked = framed(width, height, 2 * width + 2 * height);
    let start = Sweep { cells, outlines: 0, holes: 0, paths: Seq::empty() };
    let found = Sweep {
        cells: marked,
        outlines: 0,
        holes: 0,
        paths: Seq::<Seq<PathOp>>::empty().push(rectangle(width, height, close)),
    };
    assert(found.paths =~= seq![rectangle(width, height, close)]);
    assert(discover(start, 0, 0, close) == Some(found));
    assert(marked[0][0] == framed_value(width, height, 2 * width + 2 * height, 0, 0));
    let crossed = cross(found, 0, 0)->0;
    assert(cross(found, 0, 0) is Some);
    lemma_frame_row(crossed, 1, 0, width, height, close);
    assert(sweep_row(start, 0, 0, width, close) == Some(found));
    lemma_frame_rows(found, 1, width, height, close);
}


/// The text of the rectangle round a `width` by `height` picture:
/// `M0 0`, `H` and the width, `V` and the height, `H0`, and `Z` if closed.
pub open spec fn rectangle_text(width: nat, height: nat, close: bool) -> Seq<char> {
    let open_text = seq!['M', '0', ' ', '0', 'H'] + decimal(width) + seq!['V'] + decimal(height)
        + seq!['H', '0'];
    if close {
        open_text.push('Z')
    } else {
        open_text
    }
}

proof fn lemma_rectangle_text(width: int, height: int, close: bool)
    requires
        1 <= width <= usize::MAX,
        1 <= height <= usize::MAX,
    ensures
        paths_text(seq![rectangle(width, height, close)]) == rectangle_text(
            width as nat,
            height as nat,
            close,
        ),
{
    let r = rectangle(width, height, close);
    let paths = seq![r];
    assert(paths.drop_last() =~= Seq::<Seq<PathOp>>::empty());
    assert(paths_text(paths.drop_last()) =~= Seq::<char>::empty());
    assert(paths_text(paths) =~= ops_text(r));
    let four = rectangle(width, height, false);
    let three = four.drop_last();
    let two = three.drop_last();
    let one = two.drop_last();
    assert(one.drop_last() =~= Seq::<PathOp>::empty());
    assert(ops_text(one.drop_last()) =~= Seq::<char>::empty());
    assert(decimal(0) =~= seq!['0']);
    assert(ops_text(one) =~= seq!['M', '0', ' ', '0']);
    assert(ops_text(two) =~= seq!['M', '0', ' ', '0', 'H'] + decimal(width as nat));
    assert(ops_text(three) =~= seq!['M', '0', ' ', '0', 'H'] + decimal(width as nat) + seq!['V']
        + decimal(height as nat));
    assert(ops_text(four) =~= rectangle_text(width as nat, height as nat, false));
    if close {
        assert(r.drop_last() =~= four);
        assert(ops_text(r) =~= rectangle_text(width as nat, height as nat, true));
    } else {
        assert(r =~= four);
    }
}

/// A grid of bits without a 1 gives the empty text.
pub proof fn lemma_bits_without_foreground(rows: Seq<Seq<i8>>, close: bool)
    requires
        usable(rows),
        forall|r: int, c: int|
            0 <= r < rows.len() && 0 <= c < rows[r].len() ==> (#[trigger] rows[r][c]) != 1,
    ensures
        traced(counters(rows), close) matches Some(end) && paths_text(end.paths)
            == Seq::<char>::empty(),
{
    lemma_counters_well_formed(rows);
    assert forall|x: int, y: int|
        0 <= y < counters(rows).len() && 0 <= x < columns(counters(rows)) implies (
    #[trigger] counters(rows)[y][x]) == -1 by {
        assert(rows[y].len() == rows[0].len());
        assert(rows[y][x] != 1);
    }
    lemma_background_has_no_boundaries(counters(rows), close);
    let end = traced(counters(rows), close)->0;
    assert(end.paths =~= Seq::<Seq<PathOp>>::empty());
}

/// A grid of bits that holds nothing but 1 gives the text of the
/// rectangle round it, whatever its size.
pub proof fn lemma_bits_without_background(rows: Seq<Seq<i8>>, close: bool)
    requires
        usable(rows),
        forall|r: int, c: int|
            0 <= r < rows.len() && 0 <= c < rows[r].len() ==> (#[trigger] rows[r][c]) == 1,
    ensures
        traced(counters(rows), close) matches Some(end) && paths_text(end.paths) == rectangle_text(
            rows[0].len(),
            rows.len(),
            close,
        ),
{
    lemma_counters_well_formed(rows);
    assert forall|x: int, y: int|
        0 <= y < counters(rows).len() && 0 <= x < columns(counters(rows)) implies (
    #[trigger] counters(rows)[y][x]) == 1 by {
        assert(rows[y].len() == rows[0].len());
        assert(rows[y][x] == 1);
    }
    lemma_foreground_has_one_rectangle(counters(rows), close);
    lemma_rectangle_text(rows[0].len() as int, rows.len() as int, close);
}


} // verus!
