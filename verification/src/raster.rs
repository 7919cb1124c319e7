//! The counter grid that scanning and walking annotate, as a mathematical
//! model and as the capability set a storage backend has to offer.

use vstd::prelude::*;

verus! {

/// Absolute value of a counter.
pub open spec fn magnitude(v: int) -> int {
    if v < 0 {
        -v
    } else {
        v
    }
}

/// A live counter: `+1` or `-1` when untouched, and at most the four side
/// marks (1, 2, 4, 8) added on top of that, away from zero.
pub open spec fn cell_ok(v: int) -> bool {
    1 <= magnitude(v) <= 16
}

/// A non-empty rectangular grid of live counters, as rows of cells.
pub open spec fn well_formed(cells: Seq<Seq<int>>) -> bool {
    &&& cells.len() > 0
    &&& cells[0].len() > 0
    &&& forall|y: int| 0 <= y < cells.len() ==> (#[trigger] cells[y]).len() == cells[0].len()
    &&& forall|x: int, y: int|
        0 <= y < cells.len() && 0 <= x < cells[0].len() ==> cell_ok(#[trigger] cells[y][x])
}

/// Number of columns of a grid.
pub open spec fn columns(cells: Seq<Seq<int>>) -> int {
    if cells.len() == 0 {
        0
    } else {
        cells[0].len() as int
    }
}

/// Two grids with the same number of rows and columns.
pub open spec fn same_shape(a: Seq<Seq<int>>, b: Seq<Seq<int>>) -> bool {
    a.len() == b.len() && columns(a) == columns(b)
}

/// The counter at `(x, y)`, and zero for every position off the grid.
pub open spec fn cell_at(cells: Seq<Seq<int>>, x: int, y: int) -> int {
    if 0 <= y < cells.len() && 0 <= x < cells[y].len() {
        cells[y][x]
    } else {
        0
    }
}

/// Whether the side with mark `bit` (1, 2, 4 or 8) is recorded in counter `v`.
pub open spec fn side_marked(v: int, bit: int) -> bool {
    if bit == 1 {
        (magnitude(v) - 1) % 2 == 1
    } else if bit == 2 {
        ((magnitude(v) - 1) / 2) % 2 == 1
    } else if bit == 4 {
        ((magnitude(v) - 1) / 4) % 2 == 1
    } else {
        ((magnitude(v) - 1) / 8) % 2 == 1
    }
}

/// The grid with `delta` added to the counter at `(x, y)`.
pub open spec fn with_added(cells: Seq<Seq<int>>, x: int, y: int, delta: int) -> Seq<Seq<int>> {
    cells.update(y, cells[y].update(x, cells[y][x] + delta))
}

/// How much the counters of a row can still grow in magnitude.
pub open spec fn row_room(row: Seq<int>) -> int
    decreases row.len(),
{
    if row.len() == 0 {
        0
    } else {
        row_room(row.drop_last()) + (16 - magnitude(row.last()))
    }
}

/// How much the counters of a grid can still grow in magnitude: the number
/// of side marks that can still be placed, weighted by their values.
pub open spec fn room(cells: Seq<Seq<int>>) -> int
    decreases cells.len(),
{
    if cells.len() == 0 {
        0
    } else {
        room(cells.drop_last()) + row_room(cells.last())
    }
}

/// Changing one counter of a row changes the row's room by the change in
/// magnitude.
proof fn lemma_row_room_update(row: Seq<int>, x: int, v: int)
    requires
        0 <= x < row.len(),
    ensures
        row_room(row.update(x, v)) == row_room(row) + magnitude(row[x]) - magnitude(v),
    decreases row.len(),
{
    let updated = row.update(x, v);
    if x == row.len() - 1 {
        assert(updated.drop_last() =~= row.drop_last());
    } else {
        assert(updated.drop_last() =~= row.drop_last().update(x, v));
        lemma_row_room_update(row.drop_last(), x, v);
    }
}

/// Replacing one row of a grid changes the grid's room by the change in the
/// row's room.
proof fn lemma_room_update(cells: Seq<Seq<int>>, y: int, row: Seq<int>)
    requires
        0 <= y < cells.len(),
    ensures
        room(cells.update(y, row)) == room(cells) - row_room(cells[y]) + row_room(row),
    decreases cells.len(),
{
    let updated = cells.update(y, row);
    if y == cells.len() - 1 {
        assert(updated.drop_last() =~= cells.drop_last());
    } else {
        assert(updated.drop_last() =~= cells.drop_last().update(y, row));
        lemma_room_update(cells.drop_last(), y, row);
    }
}

/// A row of live counters has room left or none, never less.
proof fn lemma_row_room_nonnegative(row: Seq<int>)
    requires
        forall|x: int| 0 <= x < row.len() ==> cell_ok(#[trigger] row[x]),
    ensures
        row_room(row) >= 0,
    decreases row.len(),
{
    if row.len() > 0 {
        assert(cell_ok(row[row.len() - 1]));
        lemma_row_room_nonnegative(row.drop_last());
    }
}

/// A grid of live counters has room left or none, never less.
proof fn lemma_room_nonnegative(cells: Seq<Seq<int>>)
    requires
        forall|x: int, y: int|
            0 <= y < cells.len() && 0 <= x < cells[y].len() ==> cell_ok(#[trigger] cells[y][x]),
    ensures
        room(cells) >= 0,
    decreases cells.len(),
{
    if cells.len() > 0 {
        let last = cells.last();
        assert forall|x: int| 0 <= x < last.len() implies cell_ok(#[trigger] last[x]) by {
            assert(cell_ok(cells[cells.len() - 1][x]));
        }
        lemma_row_room_nonnegative(last);
        let front = cells.drop_last();
        assert forall|x: int, y: int|
            0 <= y < front.len() && 0 <= x < front[y].len() implies cell_ok(
            #[trigger] front[y][x],
        ) by {
            assert(cell_ok(cells[y][x]));
        }
        lemma_room_nonnegative(front);
    }
}

/// Adding `delta` to one counter of a well-formed grid, where the sum is a
/// live counter again, keeps the grid well formed and changes its room by
/// the change in magnitude.
pub proof fn lemma_with_added(cells: Seq<Seq<int>>, x: int, y: int, delta: int)
    requires
        well_formed(cells),
        0 <= y < cells.len(),
        0 <= x < columns(cells),
        cell_ok(cells[y][x] + delta),
    ensures
        well_formed(with_added(cells, x, y, delta)),
        same_shape(with_added(cells, x, y, delta), cells),
        room(with_added(cells, x, y, delta)) == room(cells) + magnitude(cells[y][x]) - magnitude(
            cells[y][x] + delta,
        ),
        room(cells) >= 0,
        room(with_added(cells, x, y, delta)) >= 0,
        forall|i: int, j: int|
            cell_at(with_added(cells, x, y, delta), i, j) == if i == x && j == y {
                cells[y][x] + delta
            } else {
                cell_at(cells, i, j)
            },
{
    let next = with_added(cells, x, y, delta);
    assert(cells[y].len() == cells[0].len());
    assert forall|j: int| 0 <= j < next.len() implies (#[trigger] next[j]).len()
        == next[0].len() by {
        assert(cells[j].len() == cells[0].len());
    }
    assert forall|i: int, j: int|
        0 <= j < next.len() && 0 <= i < next[0].len() implies cell_ok(#[trigger] next[j][i]) by {
        assert(cell_ok(cells[j][i]));
    }
    lemma_row_room_update(cells[y], x, cells[y][x] + delta);
    lemma_room_update(cells, y, cells[y].update(x, cells[y][x] + delta));
    assert forall|i: int, j: int|
        0 <= j < cells.len() && 0 <= i < cells[j].len() implies cell_ok(#[trigger] cells[j][i]) by {
        assert(cells[j].len() == cells[0].len());
    }
    lemma_room_nonnegative(cells);
    assert forall|i: int, j: int|
        0 <= j < next.len() && 0 <= i < next[j].len() implies cell_ok(#[trigger] next[j][i]) by {
        assert(next[j].len() == next[0].len());
    }
    lemma_room_nonnegative(next);
    assert forall|i: int, j: int|
        cell_at(next, i, j) == if i == x && j == y {
            cells[y][x] + delta
        } else {
            cell_at(cells, i, j)
        } by {
        if 0 <= j < cells.len() {
            assert(cells[j].len() == cells[0].len());
            assert(next[j].len() == next[0].len());
        }
    }
}

/// Counter `after` is counter `before` with marks added: the same sign, and
/// every side that was marked still marked.
pub open spec fn kept(before: int, after: int) -> bool {
    &&& (before > 0) == (after > 0)
    &&& (before < 0) == (after < 0)
    &&& side_marked(before, 1) ==> side_marked(after, 1)
    &&& side_marked(before, 2) ==> side_marked(after, 2)
    &&& side_marked(before, 4) ==> side_marked(after, 4)
    &&& side_marked(before, 8) ==> side_marked(after, 8)
}

/// Grid `after` is grid `before` with marks added: the same shape, and in
/// every cell the same sign and the marks that were there.
pub open spec fn grown(before: Seq<Seq<int>>, after: Seq<Seq<int>>) -> bool {
    &&& same_shape(before, after)
    &&& forall|x: int, y: int|
        0 <= y < before.len() && 0 <= x < columns(before) ==> #[trigger] kept(
            cell_at(before, x, y),
            cell_at(after, x, y),
        )
}

/// A grid that grew from a grid that grew from a third grew from the third.
pub proof fn lemma_grown_twice(a: Seq<Seq<int>>, b: Seq<Seq<int>>, c: Seq<Seq<int>>)
    requires
        grown(a, b),
        grown(b, c),
    ensures
        grown(a, c),
{
    assert forall|x: int, y: int| 0 <= y < a.len() && 0 <= x < columns(a) implies #[trigger] kept(
        cell_at(a, x, y),
        cell_at(c, x, y),
    ) by {
        assert(kept(cell_at(a, x, y), cell_at(b, x, y)));
        assert(kept(cell_at(b, x, y), cell_at(c, x, y)));
    }
}

/// The three classes a position can have for the walker.
#[derive(Clone, Copy, Debug, PartialEq, Eq, Structural)]
pub enum CellClass {
    /// A cell with a positive counter.
    Foreground,
    /// A cell with a negative counter.
    Background,
    /// A position off the grid.
    Outside,
}

/// The class of a counter value.
pub open spec fn class_of(v: int) -> CellClass {
    if v > 0 {
        CellClass::Foreground
    } else if v < 0 {
        CellClass::Background
    } else {
        CellClass::Outside
    }
}

/// What scanning and walking need from a grid of counters, whatever its
/// storage. `cells` is the grid a value stands for; `wf` is the backend's
/// own representation invariant.
pub trait Raster {
    spec fn wf(&self) -> bool;

    spec fn cells(&self) -> Seq<Seq<int>>;

    /// Number of rows.
    fn height(&self) -> (h: usize)
        requires
            self.wf(),
            well_formed(self.cells()),
        ensures
            h == self.cells().len(),
    ;

    /// Number of columns.
    fn width(&self) -> (w: usize)
        requires
            self.wf(),
            well_formed(self.cells()),
        ensures
            w == columns(self.cells()),
    ;

    /// The counter of the cell at `(x, y)`.
    fn signed_value(&self, x: usize, y: usize) -> (v: i8)
        requires
            self.wf(),
            well_formed(self.cells()),
            y < self.cells().len(),
            x < columns(self.cells()),
        ensures
            v == self.cells()[y as int][x as int],
    ;

    /// The class of the position one step of `(dx, dy)` away from the cell at
    /// `(x, y)`; every position off the grid is `Outside`.
    fn classify(&self, x: usize, y: usize, dx: i8, dy: i8) -> (c: CellClass)
        requires
            self.wf(),
            well_formed(self.cells()),
            y < self.cells().len(),
            x < columns(self.cells()),
            -1 <= dx <= 1,
            -1 <= dy <= 1,
        ensures
            c == class_of(cell_at(self.cells(), x + dx, y + dy)),
    ;

    /// Adds `delta` to the counter of the cell at `(x, y)`.
    fn add(&mut self, x: usize, y: usize, delta: i8)
        requires
            old(self).wf(),
            well_formed(old(self).cells()),
            y < old(self).cells().len(),
            x < columns(old(self).cells()),
            cell_ok(old(self).cells()[y as int][x as int] + delta),
        ensures
            final(self).wf(),
            final(self).cells() == with_added(old(self).cells(), x as int, y as int, delta as int),
    ;
}

} // verus!
