//! The hole walker is the outline walker seen in a mirror: reflect the
//! raster in its main diagonal and swap foreground and background, and a
//! walk round a hole becomes a walk round an outline, step for step. A
//! reflection reverses the sense of rotation, so the two kinds of boundary
//! wind in opposite directions.

use vstd::prelude::*;
use crate::heading::{BoundaryKind, Heading};
use crate::path::PathOp;
use crate::winding::{cross, first_corner, pen, swept, winding};
use crate::raster::{
    cell_at, cell_ok, class_of, columns, magnitude, room, same_shape, side_marked, well_formed,
    with_added,
};
use crate::tracer::{
    advance, boundary, circuit, decide, departure, lemma_advance, lemma_stamp, origin, settle,
    stamp, vertex, walker_ok, Walker,
};

verus! {

/// The heading's reflection in the main diagonal, which swaps the two axes.
pub open spec fn mirrored_heading(h: Heading) -> Heading {
    match h {
        Heading::North => Heading::West,
        Heading::East => Heading::South,
        Heading::South => Heading::East,
        Heading::West => Heading::North,
    }
}

/// The command's reflection: the coordinates change places, and with them
/// horizontal and vertical lines.
pub open spec fn mirrored_op(op: PathOp) -> PathOp {
    match op {
        PathOp::MoveTo { x, y } => PathOp::MoveTo { x: y, y: x },
        PathOp::Horizontal { x } => PathOp::Vertical { y: x },
        PathOp::Vertical { y } => PathOp::Horizontal { x: y },
        PathOp::Close => PathOp::Close,
    }
}

/// The reflections of the commands, in the same order.
pub open spec fn mirrored_ops(ops: Seq<PathOp>) -> Seq<PathOp> {
    Seq::new(ops.len(), |i: int| mirrored_op(ops[i]))
}

/// The counter's reflection: the other sign, and the marks of the west and
/// north sides and of the east and south sides exchanged.
pub open spec fn mirrored_value(v: int) -> int {
    let m = magnitude(v) - 1;
    let west: int = if m % 2 == 1 {
        2
    } else {
        0
    };
    let north: int = if (m / 2) % 2 == 1 {
        1
    } else {
        0
    };
    let east: int = if (m / 4) % 2 == 1 {
        8
    } else {
        0
    };
    let south: int = if (m / 8) % 2 == 1 {
        4
    } else {
        0
    };
    if v > 0 {
        -(1 + west + north + east + south)
    } else if v < 0 {
        1 + west + north + east + south
    } else {
        0
    }
}

/// The grid's reflection: rows become columns, and every counter is
/// reflected.
pub open spec fn mirrored_cells(cells: Seq<Seq<int>>) -> Seq<Seq<int>> {
    Seq::new(
        columns(cells) as nat,
        |x: int| Seq::new(cells.len(), |y: int| mirrored_value(cells[y][x])),
    )
}

/// The walker's reflection.
pub open spec fn mirrored_walker(w: Walker) -> Walker {
    Walker {
        cells: mirrored_cells(w.cells),
        x: w.y,
        y: w.x,
        heading: mirrored_heading(w.heading),
        ops: mirrored_ops(w.ops),
    }
}

/// The reflection of what a walk may give.
pub open spec fn mirrored_outcome(r: Option<Walker>) -> Option<Walker> {
    match r {
        Some(w) => Some(mirrored_walker(w)),
        None => None,
    }
}

/// The reflection of a well-formed grid is well formed, with width and
/// height exchanged, and holds the reflected counters.
pub proof fn lemma_mirrored_cells(cells: Seq<Seq<int>>)
    requires
        well_formed(cells),
    ensures
        well_formed(mirrored_cells(cells)),
        mirrored_cells(cells).len() == columns(cells),
        columns(mirrored_cells(cells)) == cells.len(),
        forall|x: int, y: int|
            #[trigger] cell_at(mirrored_cells(cells), y, x) == mirrored_value(cell_at(cells, x, y)),
{
    let m = mirrored_cells(cells);
    assert forall|x: int, y: int| 0 <= x < m.len() && 0 <= y < m[0].len() implies cell_ok(
        #[trigger] m[x][y],
    ) by {
        assert(cell_ok(cells[y][x]));
    }
    assert forall|x: int, y: int|
        #[trigger] cell_at(m, y, x) == mirrored_value(cell_at(cells, x, y)) by {
        if 0 <= y < cells.len() {
            assert(cells[y].len() == cells[0].len());
        }
    }
}

/// Marking a side in the mirror is the reflection of marking the side.
pub proof fn lemma_mirrored_stamp(cells: Seq<Seq<int>>, x: int, y: int, h: Heading)
    requires
        well_formed(cells),
        0 <= y < cells.len(),
        0 <= x < columns(cells),
        cells[y][x] < 0,
    ensures
        stamp(BoundaryKind::Outline, mirrored_cells(cells), y, x, mirrored_heading(h))
            == match stamp(BoundaryKind::Hole, cells, x, y, h) {
            Some(marked) => Some(mirrored_cells(marked)),
            None => None,
        },
{
    lemma_mirrored_cells(cells);
    let v = cells[y][x];
    assert(cell_ok(v));
    assert(cells[y].len() == cells[0].len());
    let bit = BoundaryKind::Hole.side_bit(h);
    let seen = BoundaryKind::Outline.side_bit(mirrored_heading(h));
    assert(mirrored_cells(cells)[x][y] == mirrored_value(v));
    assert(side_marked(mirrored_value(v), seen) == side_marked(v, bit));
    if let Some(marked) = stamp(BoundaryKind::Hole, cells, x, y, h) {
        lemma_stamp(BoundaryKind::Hole, cells, x, y, h);
        assert(mirrored_value(v - bit) == mirrored_value(v) + seen);
        let left = mirrored_cells(marked);
        let right = with_added(mirrored_cells(cells), y, x, seen);
        assert(left.len() == right.len());
        assert forall|i: int| 0 <= i < left.len() implies (#[trigger] left[i]) == right[i] by {
            assert forall|j: int| 0 <= j < left[i].len() implies (#[trigger] left[i][j])
                == right[i][j] by {
                assert(cells[j].len() == cells[0].len());
                assert(marked[j].len() == marked[0].len());
            }
            assert(left[i] =~= right[i]);
        }
        assert(left =~= right);
    }
}

/// The walker decides in the mirror as it decides in front of it.
pub proof fn lemma_mirrored_decide(cells: Seq<Seq<int>>, x: int, y: int, h: Heading)
    requires
        well_formed(cells),
    ensures
        decide(BoundaryKind::Outline, mirrored_cells(cells), y, x, mirrored_heading(h)) == decide(
            BoundaryKind::Hole,
            cells,
            x,
            y,
            h,
        ),
{
    lemma_mirrored_cells(cells);
    let m = mirrored_cells(cells);
    let i = BoundaryKind::Hole.inward(h);
    let o = BoundaryKind::Hole.outward(h);
    assert(cell_at(m, y + h.dy(), x + h.dx()) == mirrored_value(
        cell_at(cells, x + h.dx(), y + h.dy()),
    ));
    assert(cell_at(m, y + h.dy() + i.dy(), x + h.dx() + i.dx()) == mirrored_value(
        cell_at(cells, x + h.dx() + i.dx(), y + h.dy() + i.dy()),
    ));
    assert(cell_at(m, y + h.dy() + o.dy(), x + h.dx() + o.dx()) == mirrored_value(
        cell_at(cells, x + h.dx() + o.dx(), y + h.dy() + o.dy()),
    ));
    assert(cell_at(m, y + o.dy(), x + o.dx()) == mirrored_value(
        cell_at(cells, x + o.dx(), y + o.dy()),
    ));
}

/// The reflection of a corner command of a hole is the corner command of
/// an outline in the mirror.
pub proof fn lemma_mirrored_vertex(h: Heading, x: int, y: int)
    ensures
        mirrored_op(vertex(BoundaryKind::Hole, h, x, y)) == vertex(
            BoundaryKind::Outline,
            mirrored_heading(h),
            y,
            x,
        ),
        mirrored_op(origin(BoundaryKind::Hole, h, x, y)) == origin(
            BoundaryKind::Outline,
            mirrored_heading(h),
            y,
            x,
        ),
{
}

proof fn lemma_mirrored_push(ops: Seq<PathOp>, op: PathOp)
    ensures
        mirrored_ops(ops.push(op)) == mirrored_ops(ops).push(mirrored_op(op)),
{
    assert(mirrored_ops(ops.push(op)) =~= mirrored_ops(ops).push(mirrored_op(op)));
}

/// A step of an outline walk in the mirror is the reflection of the step
/// of the hole walk.
pub proof fn lemma_mirrored_advance(w: Walker)
    requires
        walker_ok(BoundaryKind::Hole, w),
    ensures
        walker_ok(BoundaryKind::Outline, mirrored_walker(w)),
        advance(BoundaryKind::Outline, mirrored_walker(w)) == mirrored_outcome(
            advance(BoundaryKind::Hole, w),
        ),
{
    let hole = BoundaryKind::Hole;
    let h = w.heading;
    let i = hole.inward(h);
    let o = hole.outward(h);
    lemma_mirrored_cells(w.cells);
    assert(cell_at(mirrored_cells(w.cells), w.y, w.x) == mirrored_value(
        cell_at(w.cells, w.x, w.y),
    ));
    lemma_mirrored_stamp(w.cells, w.x, w.y, h);
    lemma_mirrored_decide(w.cells, w.x, w.y, h);
    lemma_stamp(hole, w.cells, w.x, w.y, h);
    if let Some(cells) = stamp(hole, w.cells, w.x, w.y, h) {
        assert(cell_at(cells, w.x, w.y) < 0) by {
            assert(class_of(cell_at(cells, w.x, w.y)) == class_of(cell_at(w.cells, w.x, w.y)));
        }
        lemma_mirrored_stamp(cells, w.x, w.y, o);
        lemma_mirrored_vertex(i, w.x + h.dx() + i.dx(), w.y + h.dy() + i.dy());
        lemma_mirrored_vertex(h, w.x + h.dx() + o.dx(), w.y + h.dy() + o.dy());
        lemma_mirrored_vertex(o, w.x, w.y);
        lemma_mirrored_push(w.ops, vertex(hole, i, w.x + h.dx() + i.dx(), w.y + h.dy() + i.dy()));
        lemma_mirrored_push(w.ops, vertex(hole, o, w.x, w.y));
        lemma_mirrored_push(
            w.ops.push(vertex(hole, o, w.x, w.y)),
            vertex(hole, h, w.x + h.dx() + o.dx(), w.y + h.dy() + o.dy()),
        );
    }
}

/// The circuit of an outline walk in the mirror is the reflection of the
/// circuit of the hole walk.
pub proof fn lemma_mirrored_circuit(sx: int, sy: int, w: Walker)
    requires
        walker_ok(BoundaryKind::Hole, w),
    ensures
        circuit(BoundaryKind::Outline, sy, sx, mirrored_walker(w)) == mirrored_outcome(
            circuit(BoundaryKind::Hole, sx, sy, w),
        ),
    decreases room(w.cells),
{
    lemma_mirrored_advance(w);
    lemma_advance(BoundaryKind::Hole, w);
    if let Some(next) = advance(BoundaryKind::Hole, w) {
        if !(next.x == sx && next.y == sy && next.ops.len() > 2) {
            lemma_mirrored_circuit(sx, sy, next);
        }
    }
}

/// The closing phase of an outline walk in the mirror is the reflection of
/// the closing phase of the hole walk.
pub proof fn lemma_mirrored_settle(w: Walker)
    requires
        walker_ok(BoundaryKind::Hole, w),
    ensures
        settle(BoundaryKind::Outline, mirrored_walker(w)) == mirrored_outcome(
            settle(BoundaryKind::Hole, w),
        ),
    decreases BoundaryKind::Hole.turns_left(w.heading),
{
    let hole = BoundaryKind::Hole;
    lemma_mirrored_cells(w.cells);
    lemma_mirrored_stamp(w.cells, w.x, w.y, w.heading);
    lemma_stamp(hole, w.cells, w.x, w.y, w.heading);
    if let Some(cells) = stamp(hole, w.cells, w.x, w.y, w.heading) {
        assert(class_of(cell_at(cells, w.x, w.y)) == class_of(cell_at(w.cells, w.x, w.y)));
        if w.heading != hole.terminal() {
            let o = hole.outward(w.heading);
            let turned = Walker {
                cells,
                x: w.x,
                y: w.y,
                heading: o,
                ops: w.ops.push(vertex(hole, o, w.x, w.y)),
            };
            lemma_mirrored_vertex(o, w.x, w.y);
            lemma_mirrored_push(w.ops, vertex(hole, o, w.x, w.y));
            lemma_mirrored_settle(turned);
        }
    }
}

/// A hole is walked as an outline is walked in the mirror: the boundary
/// that an outline walk finds on the reflected grid, setting out from the
/// reflected cell with the reflected heading, is the reflection of the
/// boundary that the hole walk finds, command for command and counter for
/// counter; and the one fails where the other fails.
pub proof fn lemma_hole_mirrors_outline(
    cells: Seq<Seq<int>>,
    x: int,
    y: int,
    h: Heading,
    close: bool,
)
    requires
        well_formed(cells),
        cells.len() <= usize::MAX,
        columns(cells) <= usize::MAX,
        0 <= y < cells.len(),
        0 <= x < columns(cells),
        cells[y][x] < 0,
    ensures
        boundary(BoundaryKind::Outline, mirrored_cells(cells), y, x, mirrored_heading(h), close)
            == mirrored_outcome(boundary(BoundaryKind::Hole, cells, x, y, h, close)),
{
    let hole = BoundaryKind::Hole;
    let first = departure(hole, cells, x, y, h);
    lemma_mirrored_vertex(h, x, y);
    assert(mirrored_ops(first.ops) =~= seq![mirrored_op(origin(hole, h, x, y))]);
    assert(mirrored_walker(first) == departure(
        BoundaryKind::Outline,
        mirrored_cells(cells),
        y,
        x,
        mirrored_heading(h),
    ));
    lemma_mirrored_circuit(x, y, first);
    if let Some(round) = circuit(hole, x, y, first) {
        lemma_circuit_ok(hole, x, y, first);
        lemma_mirrored_settle(round);
        if let Some(done) = settle(hole, round) {
            lemma_mirrored_push(done.ops, PathOp::Close);
        }
    }
}

/// The circuit ends with a valid walker.
pub proof fn lemma_circuit_ok(kind: BoundaryKind, sx: int, sy: int, w: Walker)
    requires
        walker_ok(kind, w),
    ensures
        circuit(kind, sx, sy, w) matches Some(round) ==> walker_ok(kind, round) && same_shape(
            round.cells,
            w.cells,
        ),
    decreases room(w.cells),
{
    lemma_advance(kind, w);
    if let Some(next) = advance(kind, w) {
        if !(next.x == sx && next.y == sy && next.ops.len() > 2) {
            lemma_circuit_ok(kind, sx, sy, next);
        }
    }
}


proof fn lemma_cross_mirrored(p: (int, int), q: (int, int))
    ensures
        cross((p.1, p.0), (q.1, q.0)) == -cross(p, q),
{
    assert(p.1 * q.0 - q.1 * p.0 == -(p.0 * q.1 - q.0 * p.1)) by (nonlinear_arith);
}

proof fn lemma_mirrored_pen(ops: Seq<PathOp>)
    ensures
        pen(mirrored_ops(ops)) == (pen(ops).1, pen(ops).0),
        swept(mirrored_ops(ops)) == -swept(ops),
    decreases ops.len(),
{
    if ops.len() > 0 {
        let m = mirrored_ops(ops);
        assert(m.drop_last() =~= mirrored_ops(ops.drop_last()));
        assert(m.last() == mirrored_op(ops.last()));
        lemma_mirrored_pen(ops.drop_last());
        lemma_cross_mirrored(pen(ops.drop_last()), pen(ops));
    }
}

/// A reflection reverses the sense in which a path winds: the reflected
/// commands enclose the same area with the opposite sign.
pub proof fn lemma_mirror_reverses_winding(ops: Seq<PathOp>)
    ensures
        winding(mirrored_ops(ops)) == -winding(ops),
{
    lemma_mirrored_pen(ops);
    lemma_cross_mirrored(pen(ops), first_corner(ops));
}

/// A hole winds against the outline that is its mirror image: the path of
/// the hole walk and the path of the outline walk on the reflected grid
/// enclose areas of opposite sign.
pub proof fn lemma_hole_winds_against_outline(
    cells: Seq<Seq<int>>,
    x: int,
    y: int,
    h: Heading,
    close: bool,
)
    requires
        well_formed(cells),
        cells.len() <= usize::MAX,
        columns(cells) <= usize::MAX,
        0 <= y < cells.len(),
        0 <= x < columns(cells),
        cells[y][x] < 0,
    ensures
        boundary(BoundaryKind::Hole, cells, x, y, h, close) matches Some(hole) ==> boundary(
            BoundaryKind::Outline,
            mirrored_cells(cells),
            y,
            x,
            mirrored_heading(h),
            close,
        ) matches Some(outline) && winding(hole.ops) == -winding(outline.ops),
{
    lemma_hole_mirrors_outline(cells, x, y, h, close);
    if let Some(hole) = boundary(BoundaryKind::Hole, cells, x, y, h, close) {
        lemma_mirror_reverses_winding(hole.ops);
    }
}


} // verus!
