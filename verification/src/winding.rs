//! The sense in which a path winds: the area that it encloses, with its
//! sign, and the turn that it takes at its first corner.

use vstd::prelude::*;
use crate::heading::{BoundaryKind, Heading};
use crate::path::PathOp;
use crate::raster::{cell_at, class_of, columns, room, well_formed};
use crate::tracer::{
    advance, boundary, circuit, decide, departure, lemma_advance, lemma_stamp, settle, stamp,
    vertex, walker_ok, Turn, Walker,
};

verus! {

/// The cross product of two corners: twice the signed area of the triangle
/// that they span with the origin.
pub open spec fn cross(p: (int, int), q: (int, int)) -> int {
    p.0 * q.1 - q.0 * p.1
}

/// The corner that the pen rests on after the commands.
pub open spec fn pen(ops: Seq<PathOp>) -> (int, int)
    decreases ops.len(),
{
    if ops.len() == 0 {
        (0, 0)
    } else {
        let before = pen(ops.drop_last());
        match ops.last() {
            PathOp::MoveTo { x, y } => (x as int, y as int),
            PathOp::Horizontal { x } => (x as int, before.1),
            PathOp::Vertical { y } => (before.0, y as int),
            PathOp::Close => before,
        }
    }
}

/// The sum of the cross products along the lines drawn so far.
pub open spec fn swept(ops: Seq<PathOp>) -> int
    decreases ops.len(),
{
    if ops.len() == 0 {
        0
    } else {
        swept(ops.drop_last()) + if ops.last() is Horizontal || ops.last() is Vertical {
            cross(pen(ops.drop_last()), pen(ops))
        } else {
            0
        }
    }
}

/// Twice the signed area that a boundary's commands enclose, the line back
/// to the first corner included: positive for a path that runs clockwise on
/// a screen whose `y` axis points down, negative for one that runs
/// counterclockwise.
pub open spec fn winding(ops: Seq<PathOp>) -> int {
    swept(ops) + cross(pen(ops), first_corner(ops))
}

/// The corner that a boundary's commands begin at.
pub open spec fn first_corner(ops: Seq<PathOp>) -> (int, int) {
    if ops.len() > 0 {
        match ops[0] {
            PathOp::MoveTo { x, y } => (x as int, y as int),
            _ => (0, 0),
        }
    } else {
        (0, 0)
    }
}

/// The turn at the first corner of a boundary: the cross product of the
/// line that leads back to the first corner and the line that leaves it.
/// It is positive where the path turns clockwise there, on a screen whose
/// `y` axis points down, and negative where it turns counterclockwise.
pub open spec fn first_turn(ops: Seq<PathOp>) -> int {
    let start = first_corner(ops);
    let back = pen(ops);
    let out = pen(ops.take(2));
    cross((start.0 - back.0, start.1 - back.1), (out.0 - start.0, out.1 - start.1))
}

/// Corner `q` lies straight ahead of corner `p` along heading `h`, at
/// least `least` cells away.
pub open spec fn ahead(h: Heading, p: (int, int), q: (int, int), least: int) -> bool {
    match h {
        Heading::East => q.1 == p.1 && q.0 - p.0 >= least,
        Heading::West => q.1 == p.1 && p.0 - q.0 >= least,
        Heading::South => q.0 == p.0 && q.1 - p.1 >= least,
        Heading::North => q.0 == p.0 && p.1 - q.1 >= least,
    }
}

/// The corner that the walker is bound for: the one at which the side that
/// it follows begins.
pub open spec fn bound_for(kind: BoundaryKind, w: Walker) -> (int, int) {
    (w.x + kind.corner_dx(w.heading), w.y + kind.corner_dy(w.heading))
}

/// The pen of a walk in progress that set out with heading `first`: the
/// corner that the walker is bound for lies straight ahead of it, and the
/// first line, once drawn, left the first corner along `first`.
pub open spec fn pen_ok(kind: BoundaryKind, first: Heading, w: Walker) -> bool {
    &&& w.ops.len() >= 1
    &&& w.ops[0] is MoveTo
    &&& ahead(w.heading, pen(w.ops), bound_for(kind, w), 0)
    &&& w.ops.len() == 1 ==> w.heading == first
    &&& w.ops.len() >= 2 ==> ahead(first, first_corner(w.ops), pen(w.ops.take(2)), 1)
}

/// The pen after one more command.
proof fn lemma_pen_push(ops: Seq<PathOp>, op: PathOp)
    ensures
        pen(ops.push(op)) == match op {
            PathOp::MoveTo { x, y } => (x as int, y as int),
            PathOp::Horizontal { x } => (x as int, pen(ops).1),
            PathOp::Vertical { y } => (pen(ops).0, y as int),
            PathOp::Close => pen(ops),
        },
        ops.len() >= 2 ==> ops.push(op).take(2) == ops.take(2),
        ops.len() == 1 ==> ops.push(op).take(2) == ops.push(op),
        ops.len() >= 1 ==> first_corner(ops.push(op)) == first_corner(ops),
{
    assert(ops.push(op).drop_last() =~= ops);
    if ops.len() >= 2 {
        assert(ops.push(op).take(2) =~= ops.take(2));
    }
    if ops.len() == 1 {
        assert(ops.push(op).take(2) =~= ops.push(op));
    }
}

/// The pen of a walk that has drawn no line yet rests on the first corner.
proof fn lemma_pen_start(ops: Seq<PathOp>)
    requires
        ops.len() == 1,
        ops[0] is MoveTo,
    ensures
        pen(ops) == first_corner(ops),
{
    assert(ops.drop_last() =~= Seq::<PathOp>::empty());
}

/// The pen after the command for the corner at which the side followed
/// with heading `h` from the cell `(x, y)` begins: it has moved along the
/// axis of the line drawn, to that corner's coordinate.
proof fn lemma_pen_vertex(kind: BoundaryKind, ops: Seq<PathOp>, h: Heading, x: int, y: int)
    requires
        0 <= x < usize::MAX,
        0 <= y < usize::MAX,
    ensures
        pen(ops.push(vertex(kind, h, x, y))) == if h.vertical() {
            (x + kind.corner_dx(h), pen(ops).1)
        } else {
            (pen(ops).0, y + kind.corner_dy(h))
        },
{
    lemma_pen_push(ops, vertex(kind, h, x, y));
}

/// After a turn on the cell `(x, y)` to heading `turned`, the pen rests on
/// the corner that the walker is then bound for, if the corner that it was
/// bound for before the turn, with heading `h`, lay ahead of it.
proof fn lemma_pen_turn(
    kind: BoundaryKind,
    ops: Seq<PathOp>,
    h: Heading,
    x: int,
    y: int,
    turned: Heading,
    tx: int,
    ty: int,
)
    requires
        0 <= tx < usize::MAX,
        0 <= ty < usize::MAX,
        ahead(h, pen(ops), (x + kind.corner_dx(h), y + kind.corner_dy(h)), 0),
        (turned == kind.outward(h) && tx == x && ty == y) || (turned == kind.inward(h) && tx == x
            + h.dx() + turned.dx() && ty == y + h.dy() + turned.dy()) || (h == kind.outward(turned)
            && tx == x + turned.dx() + h.dx() && ty == y + turned.dy() + h.dy()),
    ensures
        pen(ops.push(vertex(kind, turned, tx, ty))) == (
            tx + kind.corner_dx(turned),
            ty + kind.corner_dy(turned),
        ),
{
    lemma_pen_vertex(kind, ops, turned, tx, ty);
}

/// A step keeps the pen in order.
pub proof fn lemma_advance_pen(kind: BoundaryKind, first: Heading, w: Walker)
    requires
        walker_ok(kind, w),
        pen_ok(kind, first, w),
    ensures
        advance(kind, w) matches Some(next) ==> pen_ok(kind, first, next) && next.ops[0]
            == w.ops[0],
{
    lemma_advance(kind, w);
    if let Some(next) = advance(kind, w) {
        let h = w.heading;
        let i = kind.inward(h);
        let o = kind.outward(h);
        let start = first_corner(w.ops);
        if w.ops.len() == 1 {
            lemma_pen_start(w.ops);
        }
        match decide(kind, w.cells, w.x, w.y, h) {
            Turn::Inward => {
                let op = vertex(kind, i, next.x, next.y);
                lemma_pen_push(w.ops, op);
                lemma_pen_turn(kind, w.ops, h, w.x, w.y, i, next.x, next.y);
                assert(pen(next.ops) == bound_for(kind, next));
                if w.ops.len() == 1 {
                    assert(ahead(first, start, pen(next.ops), 1));
                }
            },
            Turn::Straight => {
                assert(ahead(h, pen(next.ops), bound_for(kind, next), 0));
            },
            Turn::Corner => {
                let op = vertex(kind, o, w.x, w.y);
                let on = vertex(kind, h, next.x, next.y);
                lemma_pen_push(w.ops, op);
                lemma_pen_turn(kind, w.ops, h, w.x, w.y, o, w.x, w.y);
                lemma_pen_push(w.ops.push(op), on);
                lemma_pen_turn(kind, w.ops.push(op), o, w.x, w.y, h, next.x, next.y);
                assert(pen(next.ops) == bound_for(kind, next));
                if w.ops.len() == 1 {
                    assert(ahead(first, start, pen(w.ops.push(op)), 1));
                }
            },
            Turn::Outward => {
                let op = vertex(kind, o, w.x, w.y);
                lemma_pen_push(w.ops, op);
                lemma_pen_turn(kind, w.ops, h, w.x, w.y, o, w.x, w.y);
                assert(pen(next.ops) == bound_for(kind, next));
                if w.ops.len() == 1 {
                    assert(ahead(first, start, pen(next.ops), 1));
                }
            },
        }
    }
}

/// The circuit keeps the pen in order.
pub proof fn lemma_circuit_pen(kind: BoundaryKind, first: Heading, sx: int, sy: int, w: Walker)
    requires
        walker_ok(kind, w),
        pen_ok(kind, first, w),
    ensures
        circuit(kind, sx, sy, w) matches Some(round) ==> {
            &&& walker_ok(kind, round)
            &&& pen_ok(kind, first, round)
            &&& round.ops[0] == w.ops[0]
            &&& round.ops.len() > 2
            &&& round.x == sx
            &&& round.y == sy
        },
    decreases room(w.cells),
{
    lemma_advance(kind, w);
    lemma_advance_pen(kind, first, w);
    if let Some(next) = advance(kind, w) {
        if !(next.x == sx && next.y == sy && next.ops.len() > 2) {
            lemma_circuit_pen(kind, first, sx, sy, next);
        }
    }
}

/// The closing phase keeps the pen in order, and ends with the terminal
/// heading on the cell on which it began.
pub proof fn lemma_settle_pen(kind: BoundaryKind, first: Heading, w: Walker)
    requires
        walker_ok(kind, w),
        pen_ok(kind, first, w),
        w.ops.len() >= 2,
    ensures
        settle(kind, w) matches Some(done) ==> {
            &&& pen_ok(kind, first, done)
            &&& done.ops[0] == w.ops[0]
            &&& done.ops.len() >= 2
            &&& done.x == w.x
            &&& done.y == w.y
            &&& done.heading == kind.terminal()
        },
    decreases kind.turns_left(w.heading),
{
    lemma_stamp(kind, w.cells, w.x, w.y, w.heading);
    if let Some(cells) = stamp(kind, w.cells, w.x, w.y, w.heading) {
        assert(class_of(cell_at(cells, w.x, w.y)) == class_of(cell_at(w.cells, w.x, w.y)));
        if w.heading != kind.terminal() {
            let o = kind.outward(w.heading);
            let op = vertex(kind, o, w.x, w.y);
            let turned = Walker { cells, x: w.x, y: w.y, heading: o, ops: w.ops.push(op) };
            lemma_pen_push(w.ops, op);
            lemma_settle_pen(kind, first, turned);
        }
    }
}

/// At its first corner an outline turns clockwise and a hole
/// counterclockwise: an outline leaves the corner eastward and comes back to
/// it northward, a hole leaves it southward and comes back to it westward.
pub proof fn lemma_boundary_turn(
    kind: BoundaryKind,
    cells: Seq<Seq<int>>,
    x: int,
    y: int,
    close: bool,
)
    requires
        well_formed(cells),
        cells.len() <= usize::MAX,
        columns(cells) <= usize::MAX,
        0 <= y < cells.len(),
        0 <= x < columns(cells),
        kind.inside(cells[y][x]),
    ensures
        boundary(kind, cells, x, y, kind.start(), close) matches Some(done) ==> match kind {
            BoundaryKind::Outline => first_turn(done.ops) > 0,
            BoundaryKind::Hole => first_turn(done.ops) < 0,
        },
{
    let h = kind.start();
    let first = departure(kind, cells, x, y, h);
    lemma_pen_start(first.ops);
    lemma_circuit_pen(kind, h, x, y, first);
    if let Some(round) = circuit(kind, x, y, first) {
        lemma_settle_pen(kind, h, round);
        if let Some(rest) = settle(kind, round) {
            let done = boundary(kind, cells, x, y, h, close)->0;
            lemma_pen_push(rest.ops, PathOp::Close);
            let start = first_corner(done.ops);
            let back = pen(done.ops);
            let out = pen(done.ops.take(2));
            assert(start == (x, y));
            match kind {
                BoundaryKind::Outline => {
                    let j = back.1 - start.1;
                    let k = out.0 - start.0;
                    assert(j >= 1 && k >= 1);
                    assert(k * j > 0) by (nonlinear_arith)
                        requires
                            j >= 1,
                            k >= 1,
                    ;
                    assert(first_turn(done.ops) == k * j) by (nonlinear_arith)
                        requires
                            first_turn(done.ops) == cross((0, -j), (k, 0)),
                            cross((0, -j), (k, 0)) == 0 * 0 - k * (-j),
                    ;
                },
                BoundaryKind::Hole => {
                    let j = back.0 - start.0;
                    let k = out.1 - start.1;
                    assert(j >= 1 && k >= 1);
                    assert(j * k > 0) by (nonlinear_arith)
                        requires
                            j >= 1,
                            k >= 1,
                    ;
                    assert(first_turn(done.ops) == -(j * k)) by (nonlinear_arith)
                        requires
                            first_turn(done.ops) == cross((-j, 0), (0, k)),
                            cross((-j, 0), (0, k)) == (-j) * k - 0 * 0,
                    ;
                },
            }
        }
    }
}


} // verus!
