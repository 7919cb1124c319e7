//! The boundary walker: a state machine that follows one boundary cell by
//! cell, marks each cell side it follows, and emits one path command per
//! corner.

use vstd::prelude::*;
use crate::error::TraceError;
use crate::heading::{BoundaryKind, Heading};
use crate::path::{ops_text, Path, PathOp};
use crate::raster::{
    cell_at, cell_ok, class_of, columns, grown, kept, lemma_grown_twice, lemma_with_added,
    magnitude, room, same_shape, side_marked, well_formed, with_added, CellClass, Raster,
};

verus! {

/// The state of a walk: the grid as marked so far, the cell the walker
/// stands on, the way it faces and the commands emitted so far.
pub struct Walker {
    pub cells: Seq<Seq<int>>,
    pub x: int,
    pub y: int,
    pub heading: Heading,
    pub ops: Seq<PathOp>,
}

/// The four things the walker can do next.
#[derive(Clone, Copy, Debug, PartialEq, Eq, Structural)]
pub enum Turn {
    /// The cells ahead and ahead on the inward side both belong to the
    /// region: step diagonally and turn inward.
    Inward,
    /// Only the cell ahead belongs to the region: step ahead.
    Straight,
    /// The cell ahead does not belong to the region, the cells on the outward
    /// side and ahead on the outward side do: round the corner between them.
    Corner,
    /// None of these: turn outward on the spot.
    Outward,
}

/// Where the exec walker stands and faces.
#[derive(Clone, Copy, Debug)]
pub struct Cursor {
    pub x: usize,
    pub y: usize,
    pub heading: Heading,
}

/// The line command for the corner at which the side followed with heading
/// `h` from the cell `(x, y)` begins: horizontal when the line that ends
/// there ran east or west, that is when `h` is vertical.
pub open spec fn vertex(kind: BoundaryKind, h: Heading, x: int, y: int) -> PathOp {
    if h.vertical() {
        PathOp::Horizontal { x: (x + kind.corner_dx(h)) as usize }
    } else {
        PathOp::Vertical { y: (y + kind.corner_dy(h)) as usize }
    }
}

/// The move command for the corner at which a walk from the cell `(x, y)`
/// with heading `h` begins.
pub open spec fn origin(kind: BoundaryKind, h: Heading, x: int, y: int) -> PathOp {
    PathOp::MoveTo { x: (x + kind.corner_dx(h)) as usize, y: (y + kind.corner_dy(h)) as usize }
}

/// What the walker does next, from the classes of at most four neighbours.
pub open spec fn decide(kind: BoundaryKind, cells: Seq<Seq<int>>, x: int, y: int, h: Heading)
    -> Turn {
    let i = kind.inward(h);
    let o = kind.outward(h);
    let front = kind.inside(cell_at(cells, x + h.dx(), y + h.dy()));
    if front && kind.inside(cell_at(cells, x + h.dx() + i.dx(), y + h.dy() + i.dy())) {
        Turn::Inward
    } else if front {
        Turn::Straight
    } else if kind.inside(cell_at(cells, x + h.dx() + o.dx(), y + h.dy() + o.dy()))
        && kind.inside(cell_at(cells, x + o.dx(), y + o.dy())) {
        Turn::Corner
    } else {
        Turn::Outward
    }
}

/// The grid after marking the side of `(x, y)` that heading `h` follows, or
/// `None` where that side is marked already.
pub open spec fn stamp(kind: BoundaryKind, cells: Seq<Seq<int>>, x: int, y: int, h: Heading)
    -> Option<Seq<Seq<int>>> {
    if side_marked(cells[y][x], kind.side_bit(h)) {
        None
    } else {
        Some(with_added(cells, x, y, kind.sign() * kind.side_bit(h)))
    }
}

/// A walker on a well-formed grid that the machine can address, standing on
/// a cell of the region that its kind walks on.
pub open spec fn walker_ok(kind: BoundaryKind, w: Walker) -> bool {
    &&& well_formed(w.cells)
    &&& w.cells.len() <= usize::MAX
    &&& columns(w.cells) <= usize::MAX
    &&& 0 <= w.y < w.cells.len()
    &&& 0 <= w.x < columns(w.cells)
    &&& kind.inside(w.cells[w.y][w.x])
}

/// One step of the walk, or `None` where it would mark a side twice.
pub open spec fn advance(kind: BoundaryKind, w: Walker) -> Option<Walker> {
    let h = w.heading;
    let i = kind.inward(h);
    let o = kind.outward(h);
    match stamp(kind, w.cells, w.x, w.y, h) {
        None => None,
        Some(cells) => match decide(kind, w.cells, w.x, w.y, h) {
            Turn::Inward => {
                let x = w.x + h.dx() + i.dx();
                let y = w.y + h.dy() + i.dy();
                Some(Walker { cells, x, y, heading: i, ops: w.ops.push(vertex(kind, i, x, y)) })
            },
            Turn::Straight => Some(
                Walker { cells, x: w.x + h.dx(), y: w.y + h.dy(), heading: h, ops: w.ops },
            ),
            Turn::Corner => match stamp(kind, cells, w.x, w.y, o) {
                None => None,
                Some(twice) => {
                    let x = w.x + h.dx() + o.dx();
                    let y = w.y + h.dy() + o.dy();
                    Some(
                        Walker {
                            cells: twice,
                            x,
                            y,
                            heading: h,
                            ops: w.ops.push(vertex(kind, o, w.x, w.y)).push(vertex(kind, h, x, y)),
                        },
                    )
                },
            },
            Turn::Outward => Some(
                Walker {
                    cells,
                    x: w.x,
                    y: w.y,
                    heading: o,
                    ops: w.ops.push(vertex(kind, o, w.x, w.y)),
                },
            ),
        },
    }
}

/// Marking a side keeps the grid well formed and its shape and classes
/// unchanged, and uses up room.
pub proof fn lemma_stamp(kind: BoundaryKind, cells: Seq<Seq<int>>, x: int, y: int, h: Heading)
    requires
        well_formed(cells),
        0 <= y < cells.len(),
        0 <= x < columns(cells),
        kind.inside(cells[y][x]),
    ensures
        stamp(kind, cells, x, y, h) matches Some(next) ==> {
            &&& well_formed(next)
            &&& same_shape(next, cells)
            &&& 0 <= room(next) < room(cells)
            &&& cell_ok(cells[y][x] + kind.sign() * kind.side_bit(h))
            &&& forall|i: int, j: int|
                class_of(cell_at(next, i, j)) == class_of(#[trigger] cell_at(cells, i, j))
            &&& forall|i: int, j: int|
                !(i == x && j == y) ==> cell_at(next, i, j) == #[trigger] cell_at(cells, i, j)
            &&& grown(cells, next)
        },
{
    let v = cells[y][x];
    let bit = kind.side_bit(h);
    assert(cell_ok(v));
    if !side_marked(v, bit) {
        let delta = kind.sign() * bit;
        assert(bit == 1 || bit == 2 || bit == 4 || bit == 8);
        assert(magnitude(v + delta) == magnitude(v) + bit);
        assert(cell_ok(v + delta));
        lemma_with_added(cells, x, y, delta);
        let next = with_added(cells, x, y, delta);
        assert forall|i: int, j: int|
            class_of(cell_at(next, i, j)) == class_of(#[trigger] cell_at(cells, i, j)) by {
            assert(cell_at(next, i, j) == if i == x && j == y {
                v + delta
            } else {
                cell_at(cells, i, j)
            });
        }
        assert(kept(v, v + delta));
        assert forall|i: int, j: int|
            0 <= j < cells.len() && 0 <= i < columns(cells) implies #[trigger] kept(
            cell_at(cells, i, j),
            cell_at(next, i, j),
        ) by {
            assert(cell_at(next, i, j) == if i == x && j == y {
                v + delta
            } else {
                cell_at(cells, i, j)
            });
        }
    }
}

/// A step keeps the walker valid and the grid's shape, and uses up room.
pub proof fn lemma_advance(kind: BoundaryKind, w: Walker)
    requires
        walker_ok(kind, w),
    ensures
        advance(kind, w) matches Some(next) ==> {
            &&& walker_ok(kind, next)
            &&& same_shape(next.cells, w.cells)
            &&& 0 <= room(next.cells) < room(w.cells)
            &&& grown(w.cells, next.cells)
        },
{
    let h = w.heading;
    let o = kind.outward(h);
    lemma_stamp(kind, w.cells, w.x, w.y, h);
    if let Some(cells) = stamp(kind, w.cells, w.x, w.y, h) {
        assert(class_of(cell_at(cells, w.x, w.y)) == class_of(cell_at(w.cells, w.x, w.y)));
        lemma_stamp(kind, cells, w.x, w.y, o);
        if let Some(twice) = stamp(kind, cells, w.x, w.y, o) {
            lemma_grown_twice(w.cells, cells, twice);
        }
        if let Some(next) = advance(kind, w) {
            assert(class_of(cell_at(next.cells, next.x, next.y)) == class_of(
                cell_at(w.cells, next.x, next.y),
            )) by {
                assert(class_of(cell_at(cells, next.x, next.y)) == class_of(
                    cell_at(w.cells, next.x, next.y),
                ));
                if let Some(twice) = stamp(kind, cells, w.x, w.y, o) {
                    assert(class_of(cell_at(twice, next.x, next.y)) == class_of(
                        cell_at(cells, next.x, next.y),
                    ));
                }
            }
            assert(kind.inside(cell_at(w.cells, next.x, next.y)));
        }
    }
}

/// The walk up to its return to the start cell `(sx, sy)` with more than
/// two commands emitted, or `None` where it would mark a side twice.
pub open spec fn circuit(kind: BoundaryKind, sx: int, sy: int, w: Walker) -> Option<Walker>
    decreases room(w.cells),
{
    if !walker_ok(kind, w) {
        None
    } else {
        match advance(kind, w) {
            None => None,
            Some(next) => if next.x == sx && next.y == sy && next.ops.len() > 2 {
                Some(next)
            } else {
                proof {
                    lemma_advance(kind, w);
                }
                circuit(kind, sx, sy, next)
            },
        }
    }
}

/// The closing phase: on the start cell, mark the side ahead and turn
/// outward, emitting a command at each turn, until the side of the terminal
/// heading is marked.
pub open spec fn settle(kind: BoundaryKind, w: Walker) -> Option<Walker>
    decreases kind.turns_left(w.heading),
{
    match stamp(kind, w.cells, w.x, w.y, w.heading) {
        None => None,
        Some(cells) => if w.heading == kind.terminal() {
            Some(Walker { cells, x: w.x, y: w.y, heading: w.heading, ops: w.ops })
        } else {
            let o = kind.outward(w.heading);
            settle(
                kind,
                Walker {
                    cells,
                    x: w.x,
                    y: w.y,
                    heading: o,
                    ops: w.ops.push(vertex(kind, o, w.x, w.y)),
                },
            )
        },
    }
}

/// The walker that sets out from `(x, y)` with heading `h`.
pub open spec fn departure(kind: BoundaryKind, cells: Seq<Seq<int>>, x: int, y: int, h: Heading)
    -> Walker {
    Walker { cells, x, y, heading: h, ops: seq![origin(kind, h, x, y)] }
}

/// One whole boundary: the circuit, the closing phase, and a `Z` if the
/// path is to be closed. `None` where a side would be marked twice.
pub open spec fn boundary(
    kind: BoundaryKind,
    cells: Seq<Seq<int>>,
    x: int,
    y: int,
    h: Heading,
    close: bool,
) -> Option<Walker> {
    match circuit(kind, x, y, departure(kind, cells, x, y, h)) {
        None => None,
        Some(round) => match settle(kind, round) {
            None => None,
            Some(done) => Some(
                Walker {
                    cells: done.cells,
                    x: done.x,
                    y: done.y,
                    heading: done.heading,
                    ops: if close {
                        done.ops.push(PathOp::Close)
                    } else {
                        done.ops
                    },
                },
            ),
        },
    }
}

/// The walker that an exec state stands for.
pub open spec fn walker_of(cells: Seq<Seq<int>>, cursor: Cursor, ops: Seq<PathOp>) -> Walker {
    Walker { cells, x: cursor.x as int, y: cursor.y as int, heading: cursor.heading, ops }
}

/// The coordinate one step of `d` away from `p`.
fn shift(p: usize, d: i8) -> (q: usize)
    requires
        -1 <= d <= 1,
        0 <= p + d <= usize::MAX,
    ensures
        q == p + d,
{
    if d < 0 {
        p - 1
    } else if d > 0 {
        p + 1
    } else {
        p
    }
}

/// Whether the position one step of `(dx, dy)` away from `(x, y)` belongs to
/// the region that the kind walks on.
fn look<R: Raster>(raster: &R, kind: BoundaryKind, x: usize, y: usize, dx: i8, dy: i8) -> (b: bool)
    requires
        raster.wf(),
        well_formed(raster.cells()),
        y < raster.cells().len(),
        x < columns(raster.cells()),
        -1 <= dx <= 1,
        -1 <= dy <= 1,
    ensures
        b == kind.inside(cell_at(raster.cells(), x + dx, y + dy)),
{
    let class = raster.classify(x, y, dx, dy);
    match kind {
        BoundaryKind::Outline => class == CellClass::Foreground,
        BoundaryKind::Hole => class == CellClass::Background,
    }
}

/// What the walker does next at `cursor`.
pub fn decide_turn<R: Raster>(raster: &R, kind: BoundaryKind, cursor: Cursor) -> (t: Turn)
    requires
        raster.wf(),
        well_formed(raster.cells()),
        cursor.y < raster.cells().len(),
        cursor.x < columns(raster.cells()),
    ensures
        t == decide(kind, raster.cells(), cursor.x as int, cursor.y as int, cursor.heading),
{
    let h = cursor.heading;
    let i = kind.turn_inward(h);
    let o = kind.turn_outward(h);
    let front = look(raster, kind, cursor.x, cursor.y, h.step_x(), h.step_y());
    if front && look(
        raster,
        kind,
        cursor.x,
        cursor.y,
        h.step_x() + i.step_x(),
        h.step_y() + i.step_y(),
    ) {
        Turn::Inward
    } else if front {
        Turn::Straight
    } else if look(
        raster,
        kind,
        cursor.x,
        cursor.y,
        h.step_x() + o.step_x(),
        h.step_y() + o.step_y(),
    ) && look(raster, kind, cursor.x, cursor.y, o.step_x(), o.step_y()) {
        Turn::Corner
    } else {
        Turn::Outward
    }
}

/// Whether the side with mark `bit` is recorded in counter `v`.
fn has_mark(v: i8, bit: i8) -> (b: bool)
    requires
        cell_ok(v as int),
        bit == 1 || bit == 2 || bit == 4 || bit == 8,
    ensures
        b == side_marked(v as int, bit as int),
{
    let m: i8 = if v < 0 {
        -v
    } else {
        v
    };
    let mask: i8 = m - 1;
    if bit == 1 {
        mask % 2 == 1
    } else if bit == 2 {
        (mask / 2) % 2 == 1
    } else if bit == 4 {
        (mask / 4) % 2 == 1
    } else {
        (mask / 8) % 2 == 1
    }
}

/// Marks the side of `(x, y)` that heading `h` follows, unless it is marked
/// already; says whether it did.
pub fn mark_side<R: Raster>(raster: &mut R, kind: BoundaryKind, x: usize, y: usize, h: Heading)
    -> (done: bool)
    requires
        old(raster).wf(),
        well_formed(old(raster).cells()),
        y < old(raster).cells().len(),
        x < columns(old(raster).cells()),
        kind.inside(old(raster).cells()[y as int][x as int]),
    ensures
        final(raster).wf(),
        match stamp(kind, old(raster).cells(), x as int, y as int, h) {
            Some(next) => done && final(raster).cells() == next,
            None => !done && final(raster).cells() == old(raster).cells(),
        },
{
    let v = raster.signed_value(x, y);
    let bit = kind.side_mark(h);
    assert(cell_ok(raster.cells()[y as int][x as int]));
    if has_mark(v, bit) {
        return false;
    }
    proof {
        lemma_stamp(kind, raster.cells(), x as int, y as int, h);
    }
    let delta: i8 = match kind {
        BoundaryKind::Outline => bit,
        BoundaryKind::Hole => -bit,
    };
    raster.add(x, y, delta);
    true
}

/// Takes one step of the walk; says whether it could, that is whether no
/// side was about to be marked twice.
#[verifier::rlimit(30)]
pub fn step<R: Raster>(raster: &mut R, kind: BoundaryKind, cursor: &mut Cursor, path: &mut Path)
    -> (done: bool)
    requires
        old(raster).wf(),
        walker_ok(kind, walker_of(old(raster).cells(), *old(cursor), old(path)@)),
    ensures
        final(raster).wf(),
        well_formed(final(raster).cells()),
        grown(old(raster).cells(), final(raster).cells()),
        match advance(kind, walker_of(old(raster).cells(), *old(cursor), old(path)@)) {
            Some(next) => done && walker_of(final(raster).cells(), *final(cursor), final(path)@)
                == next,
            None => !done && *final(cursor) == *old(cursor) && final(path)@ == old(path)@,
        },
{
    let ghost before = walker_of(raster.cells(), *cursor, path@);
    let h = cursor.heading;
    let turn = decide_turn(raster, kind, *cursor);
    proof {
        lemma_advance(kind, before);
        lemma_stamp(kind, before.cells, before.x, before.y, h);
    }
    if !mark_side(raster, kind, cursor.x, cursor.y, h) {
        assert(grown(before.cells, before.cells));
        return false;
    }
    let ghost once = raster.cells();
    match turn {
        Turn::Inward => {
            let i = kind.turn_inward(h);
            let x = shift(cursor.x, h.step_x() + i.step_x());
            let y = shift(cursor.y, h.step_y() + i.step_y());
            path.append(
                if i.is_vertical() {
                    PathOp::Horizontal { x: x + kind.corner_x(i) }
                } else {
                    PathOp::Vertical { y: y + kind.corner_y(i) }
                },
            );
            cursor.x = x;
            cursor.y = y;
            cursor.heading = i;
        },
        Turn::Straight => {
            cursor.x = shift(cursor.x, h.step_x());
            cursor.y = shift(cursor.y, h.step_y());
        },
        Turn::Corner => {
            let o = kind.turn_outward(h);
            proof {
                assert(class_of(cell_at(once, before.x, before.y)) == class_of(
                    cell_at(before.cells, before.x, before.y),
                ));
                lemma_stamp(kind, once, before.x, before.y, o);
            }
            if !mark_side(raster, kind, cursor.x, cursor.y, o) {
                return false;
            }
            proof {
                lemma_grown_twice(before.cells, once, raster.cells());
            }
            path.append(
                if o.is_vertical() {
                    PathOp::Horizontal { x: cursor.x + kind.corner_x(o) }
                } else {
                    PathOp::Vertical { y: cursor.y + kind.corner_y(o) }
                },
            );
            let x = shift(cursor.x, h.step_x() + o.step_x());
            let y = shift(cursor.y, h.step_y() + o.step_y());
            path.append(
                if h.is_vertical() {
                    PathOp::Horizontal { x: x + kind.corner_x(h) }
                } else {
                    PathOp::Vertical { y: y + kind.corner_y(h) }
                },
            );
            cursor.x = x;
            cursor.y = y;
        },
        Turn::Outward => {
            let o = kind.turn_outward(h);
            path.append(
                if o.is_vertical() {
                    PathOp::Horizontal { x: cursor.x + kind.corner_x(o) }
                } else {
                    PathOp::Vertical { y: cursor.y + kind.corner_y(o) }
                },
            );
            cursor.heading = o;
        },
    }
    true
}

/// Walks one whole boundary of the given kind from the cell
/// `(start_x, start_y)`, setting out with `heading`, and returns its path.
/// Every side followed is marked on the raster. Fails, with the raster left
/// partly marked, exactly where a side would be marked a second time.
pub fn walk<R: Raster>(
    raster: &mut R,
    kind: BoundaryKind,
    start_x: usize,
    start_y: usize,
    heading: Heading,
    close: bool,
) -> (r: Result<Path, TraceError>)
    requires
        old(raster).wf(),
        well_formed(old(raster).cells()),
        start_y < old(raster).cells().len(),
        start_x < columns(old(raster).cells()),
        kind.inside(old(raster).cells()[start_y as int][start_x as int]),
    ensures
        final(raster).wf(),
        well_formed(final(raster).cells()),
        grown(old(raster).cells(), final(raster).cells()),
        match boundary(kind, old(raster).cells(), start_x as int, start_y as int, heading, close) {
            Some(done) => r matches Ok(path) && path@ == done.ops && final(raster).cells()
                == done.cells,
            None => r == Err::<Path, TraceError>(TraceError::Inconsistent),
        },
{
    let height = raster.height();
    let width = raster.width();
    let mut cursor = Cursor { x: start_x, y: start_y, heading };
    let mut path = Path::begin(start_x + kind.corner_x(heading), start_y + kind.corner_y(heading));
    let ghost first = departure(kind, raster.cells(), start_x as int, start_y as int, heading);
    assert(walker_of(raster.cells(), cursor, path@) == first);
    assert(grown(raster.cells(), raster.cells()));
    loop
        invariant_except_break
            circuit(kind, start_x as int, start_y as int, walker_of(raster.cells(), cursor, path@))
                == circuit(kind, start_x as int, start_y as int, first),
        invariant
            raster.wf(),
            walker_ok(kind, walker_of(raster.cells(), cursor, path@)),
            grown(old(raster).cells(), raster.cells()),
            first == departure(kind, old(raster).cells(), start_x as int, start_y as int, heading),
        ensures
            circuit(kind, start_x as int, start_y as int, first) == Some(
                walker_of(raster.cells(), cursor, path@),
            ),
        decreases room(raster.cells()),
    {
        proof {
            lemma_advance(kind, walker_of(raster.cells(), cursor, path@));
        }
        let ghost before = raster.cells();
        let done = step(raster, kind, &mut cursor, &mut path);
        proof {
            lemma_grown_twice(old(raster).cells(), before, raster.cells());
        }
        if !done {
            return Err(TraceError::Inconsistent);
        }
        if cursor.x == start_x && cursor.y == start_y && path.len() > 2 {
            break ;
        }
    }
    let ghost round = walker_of(raster.cells(), cursor, path@);
    loop
        invariant_except_break
            settle(kind, walker_of(raster.cells(), cursor, path@)) == settle(kind, round),
        invariant
            raster.wf(),
            walker_ok(kind, walker_of(raster.cells(), cursor, path@)),
            grown(old(raster).cells(), raster.cells()),
            first == departure(kind, old(raster).cells(), start_x as int, start_y as int, heading),
            circuit(kind, start_x as int, start_y as int, first) == Some(round),
        ensures
            settle(kind, round) == Some(walker_of(raster.cells(), cursor, path@)),
        decreases kind.turns_left(cursor.heading),
    {
        proof {
            lemma_stamp(kind, raster.cells(), cursor.x as int, cursor.y as int, cursor.heading);
        }
        let ghost before = raster.cells();
        if !mark_side(raster, kind, cursor.x, cursor.y, cursor.heading) {
            return Err(TraceError::Inconsistent);
        }
        proof {
            assert(class_of(cell_at(raster.cells(), cursor.x as int, cursor.y as int)) == class_of(
                cell_at(before, cursor.x as int, cursor.y as int),
            ));
            lemma_grown_twice(old(raster).cells(), before, raster.cells());
        }
        if cursor.heading == kind.terminal_heading() {
            break ;
        }
        let o = kind.turn_outward(cursor.heading);
        path.append(
            if o.is_vertical() {
                PathOp::Horizontal { x: cursor.x + kind.corner_x(o) }
            } else {
                PathOp::Vertical { y: cursor.y + kind.corner_y(o) }
            },
        );
        cursor.heading = o;
    }
    path.finish(close);
    Ok(path)
}


/// Walks one boundary from the cell `(x, y)`, an outline or a hole, setting
/// out with the heading of its kind, and appends the text of its path.
/// On failure the text is left as it was.
pub fn trace_into<R: Raster>(
    raster: &mut R,
    kind: BoundaryKind,
    x: usize,
    y: usize,
    text: &mut String,
    close: bool,
) -> (r: Result<(), TraceError>)
    requires
        old(raster).wf(),
        well_formed(old(raster).cells()),
        y < old(raster).cells().len(),
        x < columns(old(raster).cells()),
        kind.inside(old(raster).cells()[y as int][x as int]),
    ensures
        final(raster).wf(),
        well_formed(final(raster).cells()),
        grown(old(raster).cells(), final(raster).cells()),
        match boundary(kind, old(raster).cells(), x as int, y as int, kind.start(), close) {
            Some(done) => r is Ok && final(text)@ == old(text)@ + ops_text(done.ops)
                && final(raster).cells() == done.cells,
            None => r == Err::<(), TraceError>(TraceError::Inconsistent) && final(text)@ == old(
                text,
            )@,
        },
{
    match walk(raster, kind, x, y, kind.start_heading(), close) {
        Ok(path) => {
            path.write_to(text);
            Ok(())
        },
        Err(e) => Err(e),
    }
}


} // verus!
