//! What holds of every trace: the shape of the paths, the bounds of their
//! coordinates, and what the result depends on.

use vstd::prelude::*;
use crate::array::{counters, usable};
use crate::heading::{BoundaryKind, Heading};
use crate::path::{
    all_within, alternating, decimal, digit, is_line, last_line, op_text, ops_text, path_shaped,
    paths_text, squared_off, within, PathOp,
};
use crate::luma_image::classified;
use crate::raster::{
    cell_at, cell_ok, class_of, columns, magnitude, room, same_shape, side_marked, well_formed,
};
use crate::scanner::{discover, signature, sweep_row, sweep_rows, traced, visit, Sweep};
use crate::winding::{first_turn, lemma_boundary_turn};
use crate::tracer::{
    advance, boundary, circuit, departure, lemma_advance, lemma_stamp, origin, settle, stamp,
    vertex, walker_ok, Walker,
};

verus! {

/// The commands of a walk in progress that set out with heading `first`:
/// a move in front and lines after it, no two neighbours on one axis, every
/// coordinate on the grid. The first line runs along `first`, and the last
/// command is the one for the corner that the walker is bound for.
pub open spec fn trail_ok(kind: BoundaryKind, first: Heading, w: Walker) -> bool {
    &&& w.ops.len() >= 1
    &&& w.ops[0] is MoveTo
    &&& forall|i: int| 1 <= i < w.ops.len() ==> is_line(#[trigger] w.ops[i])
    &&& alternating(w.ops)
    &&& all_within(w.ops, columns(w.cells), w.cells.len() as int)
    &&& w.ops.len() == 1 ==> w.heading == first
    &&& w.ops.len() >= 2 ==> (w.ops[1] is Vertical <==> first.vertical())
    &&& w.ops.len() >= 2 ==> w.ops.last() == vertex(kind, w.heading, w.x, w.y)
}

/// A corner command of a valid walker lies on the grid and is horizontal
/// exactly when the heading is vertical.
proof fn lemma_vertex(kind: BoundaryKind, h: Heading, x: int, y: int, width: int, height: int)
    requires
        0 <= x < width <= usize::MAX,
        0 <= y < height <= usize::MAX,
    ensures
        within(vertex(kind, h, x, y), width, height),
        is_line(vertex(kind, h, x, y)),
        vertex(kind, h, x, y) is Horizontal <==> h.vertical(),
{
}

/// A step keeps the commands of a walk in order and only adds to them.
#[verifier::rlimit(30)]
pub proof fn lemma_advance_trail(kind: BoundaryKind, first: Heading, w: Walker)
    requires
        walker_ok(kind, w),
        trail_ok(kind, first, w),
    ensures
        advance(kind, w) matches Some(next) ==> {
            &&& trail_ok(kind, first, next)
            &&& w.ops.len() <= next.ops.len()
            &&& next.ops[0] == w.ops[0]
        },
{
    lemma_advance(kind, w);
    if let Some(next) = advance(kind, w) {
        let width = columns(w.cells);
        let height = w.cells.len() as int;
        let h = w.heading;
        let i = kind.inward(h);
        let o = kind.outward(h);
        lemma_vertex(kind, i, next.x, next.y, width, height);
        lemma_vertex(kind, h, next.x, next.y, width, height);
        lemma_vertex(kind, o, w.x, w.y, width, height);
        assert(same_shape(next.cells, w.cells));
        assert forall|k: int| 0 <= k < next.ops.len() implies within(
            #[trigger] next.ops[k],
            width,
            height,
        ) by {
            if k < w.ops.len() {
                assert(within(w.ops[k], width, height));
            }
        }
        assert forall|k: int| 1 <= k < next.ops.len() implies is_line(#[trigger] next.ops[k]) by {
            if k < w.ops.len() {
                assert(is_line(w.ops[k]));
            }
        }
        assert forall|k: int| 0 <= k < next.ops.len() - 1 implies !((#[trigger] next.ops[k])
            is Horizontal && next.ops[k + 1] is Horizontal) && !(next.ops[k] is Vertical
            && next.ops[k + 1] is Vertical) by {
            if k + 1 < w.ops.len() {
                assert(!(w.ops[k] is Horizontal && w.ops[k + 1] is Horizontal) && !(w.ops[k]
                    is Vertical && w.ops[k + 1] is Vertical));
            } else if k >= 1 {
                assert(is_line(next.ops[k]));
            }
        }
    }
}

/// The circuit keeps the walker valid, the grid's shape and the commands in
/// order, and ends on the start cell.
pub proof fn lemma_circuit_trail(kind: BoundaryKind, first: Heading, sx: int, sy: int, w: Walker)
    requires
        walker_ok(kind, w),
        trail_ok(kind, first, w),
    ensures
        circuit(kind, sx, sy, w) matches Some(round) ==> {
            &&& walker_ok(kind, round)
            &&& trail_ok(kind, first, round)
            &&& same_shape(round.cells, w.cells)
            &&& round.ops[0] == w.ops[0]
            &&& round.x == sx
            &&& round.y == sy
            &&& round.ops.len() > 2
        },
    decreases room(w.cells),
{
    lemma_advance(kind, w);
    lemma_advance_trail(kind, first, w);
    if let Some(next) = advance(kind, w) {
        if !(next.x == sx && next.y == sy && next.ops.len() > 2) {
            lemma_circuit_trail(kind, first, sx, sy, next);
        }
    }
}

/// The closing phase keeps the walker valid, the grid's shape and the
/// commands in order.
pub proof fn lemma_settle_trail(kind: BoundaryKind, first: Heading, w: Walker)
    requires
        walker_ok(kind, w),
        trail_ok(kind, first, w),
        w.ops.len() >= 2,
    ensures
        settle(kind, w) matches Some(done) ==> {
            &&& walker_ok(kind, done)
            &&& trail_ok(kind, first, done)
            &&& same_shape(done.cells, w.cells)
            &&& done.ops.len() >= w.ops.len()
            &&& done.ops[0] == w.ops[0]
            &&& done.x == w.x
            &&& done.y == w.y
            &&& done.heading == kind.terminal()
        },
    decreases kind.turns_left(w.heading),
{
    lemma_stamp(kind, w.cells, w.x, w.y, w.heading);
    if let Some(cells) = stamp(kind, w.cells, w.x, w.y, w.heading) {
        assert(class_of(cell_at(cells, w.x, w.y)) == class_of(cell_at(w.cells, w.x, w.y)));
        if w.heading != kind.terminal() {
            let o = kind.outward(w.heading);
            let width = columns(w.cells);
            let height = w.cells.len() as int;
            let turned = Walker {
                cells,
                x: w.x,
                y: w.y,
                heading: o,
                ops: w.ops.push(vertex(kind, o, w.x, w.y)),
            };
            lemma_vertex(kind, o, w.x, w.y, width, height);
            assert forall|k: int| 0 <= k < turned.ops.len() implies within(
                #[trigger] turned.ops[k],
                width,
                height,
            ) by {
                if k < w.ops.len() {
                    assert(within(w.ops[k], width, height));
                }
            }
            assert forall|k: int| 1 <= k < turned.ops.len() implies is_line(
                #[trigger] turned.ops[k],
            ) by {
                if k < w.ops.len() {
                    assert(is_line(w.ops[k]));
                }
            }
            assert forall|k: int| 0 <= k < turned.ops.len() - 1 implies !((#[trigger] turned.ops[k])
                is Horizontal && turned.ops[k + 1] is Horizontal) && !(turned.ops[k] is Vertical
                && turned.ops[k + 1] is Vertical) by {
                if k + 1 < w.ops.len() {
                    assert(!(w.ops[k] is Horizontal && w.ops[k + 1] is Horizontal) && !(w.ops[k]
                        is Vertical && w.ops[k + 1] is Vertical));
                }
            }
            lemma_settle_trail(kind, first, turned);
        } else {
            let done = Walker { cells, x: w.x, y: w.y, heading: w.heading, ops: w.ops };
            assert(trail_ok(kind, first, done));
        }
    }
}

/// The path of a whole boundary: a move, then lines that alternate between
/// the axes, then a `Z` if it is closed, all on the grid. The grid keeps its
/// shape and stays well formed. The move is to the corner that the walk set
/// out from, the first line runs along the heading it set out with, and the
/// last line ends on the side of the start cell that was marked last.
pub proof fn lemma_boundary_path(
    kind: BoundaryKind,
    cells: Seq<Seq<int>>,
    x: int,
    y: int,
    h: Heading,
    close: bool,
)
    requires
        well_formed(cells),
        cells.len() <= usize::MAX,
        columns(cells) <= usize::MAX,
        0 <= y < cells.len(),
        0 <= x < columns(cells),
        kind.inside(cells[y][x]),
    ensures
        boundary(kind, cells, x, y, h, close) matches Some(done) ==> {
            &&& well_formed(done.cells)
            &&& same_shape(done.cells, cells)
            &&& path_shaped(done.ops, close)
            &&& alternating(done.ops)
            &&& all_within(done.ops, columns(cells), cells.len() as int)
            &&& done.ops[0] == origin(kind, h, x, y)
            &&& last_line(done.ops, close) >= 2
            &&& (done.ops[1] is Vertical <==> h.vertical())
            &&& done.ops[last_line(done.ops, close)] == vertex(kind, kind.terminal(), x, y)
        },
{
    let first = departure(kind, cells, x, y, h);
    assert(trail_ok(kind, h, first));
    lemma_circuit_trail(kind, h, x, y, first);
    if let Some(round) = circuit(kind, x, y, first) {
        lemma_settle_trail(kind, h, round);
        if let Some(rest) = settle(kind, round) {
            let done = boundary(kind, cells, x, y, h, close)->0;
            if close {
                assert forall|k: int| 0 <= k < done.ops.len() implies within(
                    #[trigger] done.ops[k],
                    columns(cells),
                    cells.len() as int,
                ) by {
                    if k < rest.ops.len() {
                        assert(within(rest.ops[k], columns(cells), cells.len() as int));
                    }
                }
                assert forall|k: int| 1 <= k < done.ops.len() - 1 implies is_line(
                    #[trigger] done.ops[k],
                ) by {
                    assert(is_line(rest.ops[k]));
                }
                assert forall|k: int| 0 <= k < done.ops.len() - 1 implies !((#[trigger] done.ops[k])
                    is Horizontal && done.ops[k + 1] is Horizontal) && !(done.ops[k] is Vertical
                    && done.ops[k + 1] is Vertical) by {
                    if k + 1 < rest.ops.len() {
                        assert(!(rest.ops[k] is Horizontal && rest.ops[k + 1] is Horizontal) && !(
                        rest.ops[k] is Vertical && rest.ops[k + 1] is Vertical));
                    }
                }
            }
        }
    }
}

/// Every path has the shape of a boundary, alternates between the axes and
/// lies on a grid of the given size.
pub open spec fn paths_ok(paths: Seq<Seq<PathOp>>, close: bool, width: int, height: int) -> bool {
    forall|p: int|
        0 <= p < paths.len() ==> path_shaped(#[trigger] paths[p], close) && alternating(paths[p])
            && all_within(paths[p], width, height) && squared_off(paths[p], close)
            && turned(paths[p])
}

/// The path turns at its first corner as its kind demands: clockwise where
/// its first line is horizontal, as that of an outline is, counterclockwise
/// where its first line is vertical, as that of a hole is.
pub open spec fn turned(ops: Seq<PathOp>) -> bool {
    &&& ops[1] is Horizontal ==> first_turn(ops) > 0
    &&& ops[1] is Vertical ==> first_turn(ops) < 0
}

/// A scan state on a well-formed grid of the given size whose paths so far
/// are all in order.
pub open spec fn sweep_fit(s: Sweep, close: bool, width: int, height: int) -> bool {
    &&& well_formed(s.cells)
    &&& s.cells.len() == height
    &&& columns(s.cells) == width
    &&& height <= usize::MAX
    &&& width <= usize::MAX
    &&& paths_ok(s.paths, close, width, height)
}

/// The scan of one cell keeps the scan state in order.
pub proof fn lemma_visit_fit(s: Sweep, x: int, y: int, close: bool, width: int, height: int)
    requires
        sweep_fit(s, close, width, height),
        0 <= x < width,
        0 <= y < height,
    ensures
        visit(s, x, y, close) matches Some(next) ==> sweep_fit(next, close, width, height),
{
    let v = s.cells[y][x];
    if s.outlines == s.holes && v == 1 {
        lemma_boundary_turn(BoundaryKind::Outline, s.cells, x, y, close);
        lemma_boundary_path(
            BoundaryKind::Outline,
            s.cells,
            x,
            y,
            BoundaryKind::Outline.start(),
            close,
        );
    } else if s.outlines > s.holes && v == -1 {
        lemma_boundary_turn(BoundaryKind::Hole, s.cells, x, y, close);
        lemma_boundary_path(BoundaryKind::Hole, s.cells, x, y, BoundaryKind::Hole.start(), close);
    }
    if let Some(found) = discover(s, x, y, close) {
        assert forall|p: int| 0 <= p < found.paths.len() implies path_shaped(
            #[trigger] found.paths[p],
            close,
        ) && alternating(found.paths[p]) && all_within(found.paths[p], width, height)
            && squared_off(found.paths[p], close) && turned(found.paths[p]) by {
            if p < s.paths.len() {
                assert(path_shaped(s.paths[p], close));
            } else {
                assert(is_line(found.paths[p][1]));
            }
        }
        assert(sweep_fit(found, close, width, height));
    }
}

/// The scan of a row keeps the scan state in order.
pub proof fn lemma_sweep_row_fit(s: Sweep, x: int, y: int, close: bool, width: int, height: int)
    requires
        sweep_fit(s, close, width, height),
        0 <= x,
        0 <= y < height,
    ensures
        sweep_row(s, x, y, width, close) matches Some(next) ==> sweep_fit(
            next,
            close,
            width,
            height,
        ),
    decreases width - x,
{
    if x < width {
        lemma_visit_fit(s, x, y, close, width, height);
        if let Some(next) = visit(s, x, y, close) {
            lemma_sweep_row_fit(next, x + 1, y, close, width, height);
        }
    }
}

/// The scan of the remaining rows keeps the scan state in order.
pub proof fn lemma_sweep_rows_fit(s: Sweep, y: int, close: bool, width: int, height: int)
    requires
        sweep_fit(s, close, width, height),
        0 <= y,
    ensures
        sweep_rows(s, y, width, height, close) matches Some(end) ==> sweep_fit(
            end,
            close,
            width,
            height,
        ),
    decreases height - y,
{
    if y < height {
        let reset = Sweep { cells: s.cells, outlines: 0, holes: 0, paths: s.paths };
        lemma_sweep_row_fit(reset, 0, y, close, width, height);
        if let Some(next) = sweep_row(reset, 0, y, width, close) {
            lemma_sweep_rows_fit(next, y + 1, close, width, height);
        }
    }
}

/// A grid that is well formed and that the machine can address.
pub open spec fn traceable(cells: Seq<Seq<int>>) -> bool {
    well_formed(cells) && cells.len() <= usize::MAX && columns(cells) <= usize::MAX
}

/// Every path of a trace is one boundary group: it begins with its one
/// move command, goes on with line commands only, and ends with a `Z`
/// exactly when paths are closed. So a trace holds as many `M` commands as
/// the scan started boundaries.
pub proof fn lemma_paths_are_boundary_groups(cells: Seq<Seq<int>>, close: bool)
    requires
        traceable(cells),
    ensures
        traced(cells, close) matches Some(end) ==> forall|p: int|
            0 <= p < end.paths.len() ==> path_shaped(#[trigger] end.paths[p], close),
{
    let start = Sweep { cells, outlines: 0, holes: 0, paths: Seq::empty() };
    lemma_sweep_rows_fit(start, 0, close, columns(cells), cells.len() as int);
}

/// Every coordinate that a trace emits lies within the grid's bounds, the
/// right and bottom edges included.
pub proof fn lemma_coordinates_within_bounds(cells: Seq<Seq<int>>, close: bool)
    requires
        traceable(cells),
    ensures
        traced(cells, close) matches Some(end) ==> forall|p: int, i: int|
            0 <= p < end.paths.len() && 0 <= i < end.paths[p].len() ==> within(
                #[trigger] end.paths[p][i],
                columns(cells),
                cells.len() as int,
            ),
{
    let start = Sweep { cells, outlines: 0, holes: 0, paths: Seq::empty() };
    lemma_sweep_rows_fit(start, 0, close, columns(cells), cells.len() as int);
    if let Some(end) = traced(cells, close) {
        assert forall|p: int, i: int|
            0 <= p < end.paths.len() && 0 <= i < end.paths[p].len() implies within(
            #[trigger] end.paths[p][i],
            columns(cells),
            cells.len() as int,
        ) by {
            assert(all_within(end.paths[p], columns(cells), cells.len() as int));
        }
    }
}

/// No two consecutive commands of one boundary group lie on the same axis:
/// a horizontal line is never followed by a horizontal line, nor a vertical
/// line by a vertical one.
pub proof fn lemma_axes_alternate(cells: Seq<Seq<int>>, close: bool)
    requires
        traceable(cells),
    ensures
        traced(cells, close) matches Some(end) ==> forall|p: int|
            0 <= p < end.paths.len() ==> alternating(#[trigger] end.paths[p]),
{
    let start = Sweep { cells, outlines: 0, holes: 0, paths: Seq::empty() };
    lemma_sweep_rows_fit(start, 0, close, columns(cells), cells.len() as int);
}

/// Every boundary group squares off: the line that closes it is at right
/// angles to its first and to its last line.
pub proof fn lemma_paths_square_off(cells: Seq<Seq<int>>, close: bool)
    requires
        traceable(cells),
    ensures
        traced(cells, close) matches Some(end) ==> forall|p: int|
            0 <= p < end.paths.len() ==> squared_off(#[trigger] end.paths[p], close),
{
    let start = Sweep { cells, outlines: 0, holes: 0, paths: Seq::empty() };
    lemma_sweep_rows_fit(start, 0, close, columns(cells), cells.len() as int);
}

/// Outlines and holes turn against each other: at its first corner every
/// path with a horizontal first line, as an outline has it, turns clockwise,
/// and every path with a vertical first line, as a hole has it, turns
/// counterclockwise.
pub proof fn lemma_first_corners_turn(cells: Seq<Seq<int>>, close: bool)
    requires
        traceable(cells),
    ensures
        traced(cells, close) matches Some(end) ==> forall|p: int|
            0 <= p < end.paths.len() ==> turned(#[trigger] end.paths[p]),
{
    let start = Sweep { cells, outlines: 0, holes: 0, paths: Seq::empty() };
    lemma_sweep_rows_fit(start, 0, close, columns(cells), cells.len() as int);
}

/// A trace leaves the grid well formed and of the same shape.
pub proof fn lemma_trace_keeps_shape(cells: Seq<Seq<int>>, close: bool)
    requires
        traceable(cells),
    ensures
        traced(cells, close) matches Some(end) ==> well_formed(end.cells) && same_shape(
            end.cells,
            cells,
        ),
{
    let start = Sweep { cells, outlines: 0, holes: 0, paths: Seq::empty() };
    lemma_sweep_rows_fit(start, 0, close, columns(cells), cells.len() as int);
}


/// How often a character occurs in a text.
pub open spec fn occurrences(text: Seq<char>, c: char) -> nat
    decreases text.len(),
{
    if text.len() == 0 {
        0
    } else {
        occurrences(text.drop_last(), c) + if text.last() == c {
            1nat
        } else {
            0nat
        }
    }
}

/// How many of the commands are moves.
pub open spec fn moves(ops: Seq<PathOp>) -> nat
    decreases ops.len(),
{
    if ops.len() == 0 {
        0
    } else {
        moves(ops.drop_last()) + if ops.last() is MoveTo {
            1nat
        } else {
            0nat
        }
    }
}

proof fn lemma_occurrences_concat(a: Seq<char>, b: Seq<char>, c: char)
    ensures
        occurrences(a + b, c) == occurrences(a, c) + occurrences(b, c),
    decreases b.len(),
{
    if b.len() == 0 {
        assert(a + b =~= a);
    } else {
        assert((a + b).drop_last() =~= a + b.drop_last());
        lemma_occurrences_concat(a, b.drop_last(), c);
    }
}

proof fn lemma_decimal_has_no_letter(n: nat)
    ensures
        occurrences(decimal(n), 'M') == 0,
    decreases n,
{
    if n < 10 {
        lemma_single_char(digit(n as int), 'M');
    } else {
        lemma_decimal_has_no_letter(n / 10);
        assert(decimal(n).drop_last() =~= decimal(n / 10));
        assert(decimal(n).last() == digit((n % 10) as int));
    }
}

proof fn lemma_single_char(c: char, d: char)
    ensures
        occurrences(seq![c], d) == if c == d {
            1nat
        } else {
            0nat
        },
{
    assert(seq![c].drop_last() =~= Seq::<char>::empty());
    assert(occurrences(Seq::<char>::empty(), d) == 0);
    assert(seq![c].last() == c);
}

proof fn lemma_op_text_moves(op: PathOp)
    ensures
        occurrences(op_text(op), 'M') == if op is MoveTo {
            1nat
        } else {
            0nat
        },
{
    match op {
        PathOp::MoveTo { x, y } => {
            lemma_single_char('M', 'M');
            lemma_single_char(' ', 'M');
            lemma_decimal_has_no_letter(x as nat);
            lemma_decimal_has_no_letter(y as nat);
            lemma_occurrences_concat(seq!['M'], decimal(x as nat), 'M');
            lemma_occurrences_concat(seq!['M'] + decimal(x as nat), seq![' '], 'M');
            lemma_occurrences_concat(
                seq!['M'] + decimal(x as nat) + seq![' '],
                decimal(y as nat),
                'M',
            );
        },
        PathOp::Horizontal { x } => {
            lemma_single_char('H', 'M');
            lemma_decimal_has_no_letter(x as nat);
            lemma_occurrences_concat(seq!['H'], decimal(x as nat), 'M');
        },
        PathOp::Vertical { y } => {
            lemma_single_char('V', 'M');
            lemma_decimal_has_no_letter(y as nat);
            lemma_occurrences_concat(seq!['V'], decimal(y as nat), 'M');
        },
        PathOp::Close => {
            lemma_single_char('Z', 'M');
        },
    }
}

/// The text of a command sequence holds one `M` for each move command.
pub proof fn lemma_ops_text_moves(ops: Seq<PathOp>)
    ensures
        occurrences(ops_text(ops), 'M') == moves(ops),
    decreases ops.len(),
{
    if ops.len() > 0 {
        lemma_ops_text_moves(ops.drop_last());
        lemma_op_text_moves(ops.last());
        lemma_occurrences_concat(ops_text(ops.drop_last()), op_text(ops.last()), 'M');
    }
}

proof fn lemma_no_moves(ops: Seq<PathOp>)
    requires
        forall|i: int| 0 <= i < ops.len() ==> !((#[trigger] ops[i]) is MoveTo),
    ensures
        moves(ops) == 0,
    decreases ops.len(),
{
    if ops.len() > 0 {
        assert(!(ops[ops.len() - 1] is MoveTo));
        lemma_no_moves(ops.drop_last());
    }
}

proof fn lemma_moves_concat(a: Seq<PathOp>, b: Seq<PathOp>)
    ensures
        moves(a + b) == moves(a) + moves(b),
    decreases b.len(),
{
    if b.len() == 0 {
        assert(a + b =~= a);
    } else {
        assert((a + b).drop_last() =~= a + b.drop_last());
        lemma_moves_concat(a, b.drop_last());
    }
}

/// A boundary group holds exactly one move command.
pub proof fn lemma_group_has_one_move(ops: Seq<PathOp>, closed: bool)
    requires
        path_shaped(ops, closed),
    ensures
        moves(ops) == 1,
{
    let head = ops.take(1);
    let tail = ops.skip(1);
    assert(ops =~= head + tail);
    lemma_moves_concat(head, tail);
    assert(head.drop_last() =~= Seq::<PathOp>::empty());
    assert(moves(Seq::<PathOp>::empty()) == 0);
    assert(head.last() == ops[0]);
    assert forall|i: int| 0 <= i < tail.len() implies !((#[trigger] tail[i]) is MoveTo) by {
        assert(tail[i] == ops[i + 1]);
        if i + 1 < ops.len() - 1 || !closed {
            assert(is_line(ops[i + 1]));
        }
    }
    lemma_no_moves(tail);
}

proof fn lemma_paths_text_moves(paths: Seq<Seq<PathOp>>, closed: bool)
    requires
        forall|p: int| 0 <= p < paths.len() ==> path_shaped(#[trigger] paths[p], closed),
    ensures
        occurrences(paths_text(paths), 'M') == paths.len(),
    decreases paths.len(),
{
    if paths.len() > 0 {
        let front = paths.drop_last();
        assert forall|p: int| 0 <= p < front.len() implies path_shaped(
            #[trigger] front[p],
            closed,
        ) by {
            assert(front[p] == paths[p]);
        }
        lemma_paths_text_moves(front, closed);
        assert(path_shaped(paths[paths.len() - 1], closed));
        lemma_group_has_one_move(paths.last(), closed);
        lemma_ops_text_moves(paths.last());
        lemma_occurrences_concat(paths_text(front), ops_text(paths.last()), 'M');
    }
}

/// The text of a trace holds exactly one `M` for every boundary that the
/// scan discovered, outlines and holes together.
pub proof fn lemma_one_move_per_boundary(cells: Seq<Seq<int>>, close: bool)
    requires
        traceable(cells),
    ensures
        traced(cells, close) matches Some(end) ==> occurrences(paths_text(end.paths), 'M')
            == end.paths.len(),
{
    lemma_paths_are_boundary_groups(cells, close);
    if let Some(end) = traced(cells, close) {
        lemma_paths_text_moves(end.paths, close);
    }
}


/// Two grids of bits that show the same picture: the same size, and a 1 in
/// the one wherever there is a 1 in the other.
pub open spec fn same_picture(a: Seq<Seq<i8>>, b: Seq<Seq<i8>>) -> bool {
    &&& a.len() == b.len()
    &&& forall|r: int| 0 <= r < a.len() ==> (#[trigger] a[r]).len() == b[r].len()
    &&& forall|r: int, c: int|
        0 <= r < a.len() && 0 <= c < a[r].len() ==> ((#[trigger] a[r][c]) == 1) == (b[r][c] == 1)
}

/// A grid of bits and the pixels of an image that show the same picture:
/// the same size, and a 1 in the grid wherever the pixel equals `luma`.
pub open spec fn same_picture_as_image(bits: Seq<Seq<i8>>, pixels: Seq<Seq<u8>>, luma: u8) -> bool {
    &&& bits.len() == pixels.len()
    &&& forall|r: int| 0 <= r < bits.len() ==> (#[trigger] bits[r]).len() == pixels[r].len()
    &&& forall|r: int, c: int|
        0 <= r < bits.len() && 0 <= c < bits[r].len() ==> ((#[trigger] bits[r][c]) == 1) == (
        pixels[r][c] == luma)
}

/// A trace depends on nothing but the picture: grids of bits that show the
/// same picture are refused alike and give the same paths and the same
/// final counters. In particular a second trace of a fresh copy of a grid
/// gives what the first gave.
pub proof fn lemma_same_picture_same_trace(a: Seq<Seq<i8>>, b: Seq<Seq<i8>>, close: bool)
    requires
        same_picture(a, b),
    ensures
        usable(a) == usable(b),
        counters(a) == counters(b),
        traced(counters(a), close) == traced(counters(b), close),
{
    assert forall|r: int| 0 <= r < a.len() implies (#[trigger] counters(a)[r])
        == counters(b)[r] by {
        assert(a[r].len() == b[r].len());
        assert forall|c: int| 0 <= c < a[r].len() implies (#[trigger] counters(a)[r][c])
            == counters(b)[r][c] by {
            assert((a[r][c] == 1) == (b[r][c] == 1));
        }
        assert(counters(a)[r] =~= counters(b)[r]);
    }
    assert(counters(a) =~= counters(b));
    if a.len() > 0 {
        assert(a[0].len() == b[0].len());
    }
    if usable(a) {
        assert forall|r: int| 0 <= r < b.len() implies (#[trigger] b[r]).len() == b[0].len() by {
            assert(a[r].len() == b[r].len());
        }
    }
    if usable(b) {
        assert forall|r: int| 0 <= r < a.len() implies (#[trigger] a[r]).len() == a[0].len() by {
            assert(a[r].len() == b[r].len());
        }
    }
}

/// Two images that show the same picture, each with its own foreground
/// value: the same size, and a foreground pixel in the one wherever there is
/// one in the other.
pub open spec fn same_image_picture(a: Seq<Seq<u8>>, la: u8, b: Seq<Seq<u8>>, lb: u8) -> bool {
    &&& a.len() == b.len()
    &&& forall|r: int| 0 <= r < a.len() ==> (#[trigger] a[r]).len() == b[r].len()
    &&& forall|r: int, c: int|
        0 <= r < a.len() && 0 <= c < a[r].len() ==> ((#[trigger] a[r][c]) == la) == (b[r][c]
            == lb)
}

/// Images that show the same picture give the same paths and the same
/// final counters. In particular a second trace of a fresh copy of an image
/// gives what the first gave.
pub proof fn lemma_same_image_same_trace(
    a: Seq<Seq<u8>>,
    la: u8,
    b: Seq<Seq<u8>>,
    lb: u8,
    close: bool,
)
    requires
        same_image_picture(a, la, b, lb),
    ensures
        classified(a, la) == classified(b, lb),
        traced(classified(a, la), close) == traced(classified(b, lb), close),
{
    assert forall|r: int| 0 <= r < a.len() implies (#[trigger] classified(a, la)[r])
        == classified(b, lb)[r] by {
        assert(a[r].len() == b[r].len());
        assert forall|c: int| 0 <= c < a[r].len() implies (#[trigger] classified(a, la)[r][c])
            == classified(b, lb)[r][c] by {
            assert((a[r][c] == la) == (b[r][c] == lb));
        }
        assert(classified(a, la)[r] =~= classified(b, lb)[r]);
    }
    assert(classified(a, la) =~= classified(b, lb));
}

/// A grid of bits and an image that show the same picture give the same
/// paths and the same final counters.
pub proof fn lemma_bits_and_image_agree(
    bits: Seq<Seq<i8>>,
    pixels: Seq<Seq<u8>>,
    luma: u8,
    close: bool,
)
    requires
        same_picture_as_image(bits, pixels, luma),
    ensures
        counters(bits) == classified(pixels, luma),
        traced(counters(bits), close) == traced(classified(pixels, luma), close),
{
    assert forall|r: int| 0 <= r < bits.len() implies (#[trigger] counters(bits)[r]) == classified(
        pixels,
        luma,
    )[r] by {
        assert(bits[r].len() == pixels[r].len());
        assert forall|c: int| 0 <= c < bits[r].len() implies (#[trigger] counters(bits)[r][c])
            == classified(pixels, luma)[r][c] by {
            assert((bits[r][c] == 1) == (pixels[r][c] == luma));
        }
        assert(counters(bits)[r] =~= classified(pixels, luma)[r]);
    }
    assert(counters(bits) =~= classified(pixels, luma));
}

/// The counters at which the scan raises a level are those of a cell whose
/// west side is marked and whose east side is not; those at which it lowers
/// a level are those with the east side marked and the west side not.
pub proof fn lemma_level_signatures(v: int)
    requires
        cell_ok(v),
    ensures
        signature(v) is Enter <==> side_marked(v, 1) && !side_marked(v, 4),
        signature(v) is Leave <==> side_marked(v, 4) && !side_marked(v, 1),
{
}


} // verus!
