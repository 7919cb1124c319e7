//! Tracing a grid of bits, held as a signed counter grid with a border of
//! one cell of zeros on every side.

use vstd::prelude::*;
use crate::error::TraceError;
use crate::heading::{kind_of, BoundaryKind};
use crate::path::{ops_text, paths_text, render};
use crate::raster::{columns, grown, well_formed, with_added, CellClass, Raster};
use crate::scanner::{trace_all, traced};
use crate::tracer::{boundary, trace_into};

verus! {

/// The rows of a grid of bits as sequences.
pub open spec fn bit_rows(bits: Seq<Vec<i8>>) -> Seq<Seq<i8>> {
    Seq::new(bits.len(), |r: int| bits[r]@)
}

/// A grid of bits that can be traced: at least one row and one column, all
/// rows of one length, and room in `usize` for a border around it.
pub open spec fn usable(rows: Seq<Seq<i8>>) -> bool {
    &&& rows.len() > 0
    &&& rows[0].len() > 0
    &&& forall|r: int| 0 <= r < rows.len() ==> (#[trigger] rows[r]).len() == rows[0].len()
    &&& rows.len() + 2 <= usize::MAX
    &&& rows[0].len() + 2 <= usize::MAX
}

/// The untouched counter grid of a grid of bits: `+1` where the bit is 1,
/// `-1` everywhere else.
pub open spec fn counters(rows: Seq<Seq<i8>>) -> Seq<Seq<int>> {
    Seq::new(
        rows.len(),
        |y: int|
            Seq::new(
                rows[y].len(),
                |x: int|
                    if rows[y][x] == 1 {
                        1int
                    } else {
                        -1int
                    },
            ),
    )
}

/// A counter grid stored with its border.
pub struct SignedGrid {
    cells: Vec<Vec<i8>>,
    rows: usize,
    cols: usize,
}

impl SignedGrid {
    /// The counter grid of the bits, or `InvalidInput` where the bits are
    /// not usable.
    pub fn from_bits(bits: &Vec<Vec<i8>>) -> (r: Result<SignedGrid, TraceError>)
        ensures
            match r {
                Ok(grid) => usable(bit_rows(bits@)) && grid.wf() && grid.cells() == counters(
                    bit_rows(bits@),
                ),
                Err(e) => e == TraceError::InvalidInput && !usable(bit_rows(bits@)),
            },
    {
        let rows = bits.len();
        if rows == 0 || rows > usize::MAX - 2 {
            return Err(TraceError::InvalidInput);
        }
        let cols = bits[0].len();
        assert(bit_rows(bits@)[0] == bits@[0]@);
        if cols == 0 || cols > usize::MAX - 2 {
            return Err(TraceError::InvalidInput);
        }
        let mut cells: Vec<Vec<i8>> = Vec::new();
        cells.push(zero_row(cols + 2));
        let mut r: usize = 0;
        while r < rows
            invariant
                r <= rows,
                rows == bits@.len(),
                rows + 2 <= usize::MAX,
                cols == bits@[0]@.len(),
                0 < cols,
                cols + 2 <= usize::MAX,
                cells@.len() == r + 1,
                forall|y: int| 0 <= y < r ==> (#[trigger] bits@[y])@.len() == cols,
                forall|y: int| 0 <= y <= r ==> (#[trigger] cells@[y])@.len() == cols + 2,
                forall|x: int| 0 <= x < cols + 2 ==> (#[trigger] cells@[0]@[x]) == 0,
                forall|y: int|
                    1 <= y <= r ==> (#[trigger] cells@[y])@[0] == 0 && cells@[y]@[cols + 1] == 0,
                forall|x: int, y: int|
                    0 <= y < r && 0 <= x < cols ==> (#[trigger] cells@[y + 1]@[x + 1])
                        == if bits@[y]@[x] == 1 {
                        1i8
                    } else {
                        -1i8
                    },
            decreases rows - r,
        {
            let line = &bits[r];
            if line.len() != cols {
                assert(bit_rows(bits@)[r as int] == bits@[r as int]@);
                assert(bit_rows(bits@)[0] == bits@[0]@);
                return Err(TraceError::InvalidInput);
            }
            let mut row: Vec<i8> = Vec::new();
            row.push(0);
            let mut c: usize = 0;
            while c < cols
                invariant
                    c <= cols,
                    cols == line@.len(),
                    row@.len() == c + 1,
                    row@[0] == 0,
                    forall|x: int|
                        0 <= x < c ==> (#[trigger] row@[x + 1]) == if line@[x] == 1 {
                            1i8
                        } else {
                            -1i8
                        },
                decreases cols - c,
            {
                row.push(
                    if line[c] == 1 {
                        1
                    } else {
                        -1
                    },
                );
                c += 1;
            }
            row.push(0);
            cells.push(row);
            r += 1;
        }
        cells.push(zero_row(cols + 2));
        let grid = SignedGrid { cells, rows, cols };
        proof {
            let shown = bit_rows(bits@);
            assert forall|y: int| 0 <= y < shown.len() implies (#[trigger] shown[y]).len()
                == shown[0].len() by {
                assert(bits@[y]@.len() == cols);
            }
            assert(usable(shown));
            assert forall|x: int, y: int|
                0 <= y < rows + 2 && 0 <= x < cols + 2 && (y == 0 || y == rows + 1 || x == 0 || x
                    == cols + 1) implies (#[trigger] grid.cells@[y]@[x]) == 0 by {
                if y == 0 {
                } else if y == rows + 1 {
                } else {
                    assert(grid.cells@[y]@[0] == 0);
                }
            }
            assert(grid.wf());
            assert forall|y: int| 0 <= y < rows implies (#[trigger] grid.cells()[y]) == counters(
                shown,
            )[y] by {
                assert(bits@[y]@.len() == cols);
                assert forall|x: int| 0 <= x < cols implies (#[trigger] grid.cells()[y][x])
                    == counters(shown)[y][x] by {
                    assert(grid.cells@[y + 1]@[x + 1] == if bits@[y]@[x] == 1 {
                        1i8
                    } else {
                        -1i8
                    });
                }
                assert(grid.cells()[y] =~= counters(shown)[y]);
            }
            assert(grid.cells() =~= counters(shown));
        }
        Ok(grid)
    }
}

/// A row of `n` zeros.
fn zero_row(n: usize) -> (row: Vec<i8>)
    ensures
        row@.len() == n,
        forall|x: int| 0 <= x < n ==> (#[trigger] row@[x]) == 0,
{
    let mut row: Vec<i8> = Vec::new();
    let mut c: usize = 0;
    while c < n
        invariant
            c <= n,
            row@.len() == c,
            forall|x: int| 0 <= x < c ==> (#[trigger] row@[x]) == 0,
        decreases n - c,
    {
        row.push(0);
        c += 1;
    }
    row
}

impl Raster for SignedGrid {
    /// The stored grid is two cells larger than the grid it stands for in
    /// each direction, and its border holds zeros.
    closed spec fn wf(&self) -> bool {
        &&& self.rows + 2 <= usize::MAX
        &&& self.cols + 2 <= usize::MAX
        &&& self.cells@.len() == self.rows + 2
        &&& forall|y: int|
            0 <= y < self.rows + 2 ==> (#[trigger] self.cells@[y])@.len() == self.cols + 2
        &&& forall|x: int, y: int|
            0 <= y < self.rows + 2 && 0 <= x < self.cols + 2 && (y == 0 || y == self.rows + 1 || x
                == 0 || x == self.cols + 1) ==> (#[trigger] self.cells@[y]@[x]) == 0
    }

    /// The stored grid without its border.
    closed spec fn cells(&self) -> Seq<Seq<int>> {
        Seq::new(
            self.rows as nat,
            |y: int| Seq::new(self.cols as nat, |x: int| self.cells@[y + 1]@[x + 1] as int),
        )
    }

    fn height(&self) -> (h: usize) {
        self.rows
    }

    fn width(&self) -> (w: usize) {
        self.cols
    }

    fn signed_value(&self, x: usize, y: usize) -> (v: i8) {
        self.cells[y + 1][x + 1]
    }

    fn classify(&self, x: usize, y: usize, dx: i8, dy: i8) -> (c: CellClass) {
        let px: usize = if dx < 0 {
            x
        } else if dx == 0 {
            x + 1
        } else {
            x + 2
        };
        let py: usize = if dy < 0 {
            y
        } else if dy == 0 {
            y + 1
        } else {
            y + 2
        };
        let v = self.cells[py][px];
        proof {
            let tx = x + dx;
            let ty = y + dy;
            if 0 <= ty < self.rows && 0 <= tx < self.cols {
                assert(self.cells()[ty][tx] == v);
            } else {
                assert(self.cells@[py as int]@[px as int] == 0);
            }
        }
        if v > 0 {
            CellClass::Foreground
        } else if v < 0 {
            CellClass::Background
        } else {
            CellClass::Outside
        }
    }

    fn add(&mut self, x: usize, y: usize, delta: i8) {
        let v = self.cells[y + 1][x + 1];
        let ghost before = self.cells();
        self.cells[y + 1][x + 1] = v + delta;
        proof {
            let after = self.cells();
            let expected = with_added(before, x as int, y as int, delta as int);
            assert forall|j: int| 0 <= j < self.rows implies (#[trigger] after[j])
                == expected[j] by {
                assert(after[j] =~= expected[j]);
            }
            assert(after =~= expected);
        }
    }
}

/// Traces a grid of bits. A cell is foreground where its value is 1 and
/// background otherwise. The result is the text of the paths of all
/// boundaries in the order a row-by-row scan meets them, each closed with
/// `Z` if `closepaths` is set.
pub fn bits_to_paths(bits: Vec<Vec<i8>>, closepaths: bool) -> (r: Result<String, TraceError>)
    ensures
        match r {
            Ok(text) => {
                &&& usable(bit_rows(bits@))
                &&& traced(counters(bit_rows(bits@)), closepaths) matches Some(end)
                &&& text@ == paths_text(end.paths)
            },
            Err(TraceError::InvalidInput) => !usable(bit_rows(bits@)),
            Err(TraceError::Inconsistent) => usable(bit_rows(bits@)) && traced(
                counters(bit_rows(bits@)),
                closepaths,
            ) is None,
        },
{
    let mut grid = match SignedGrid::from_bits(&bits) {
        Ok(grid) => grid,
        Err(e) => {
            return Err(e);
        },
    };
    proof {
        lemma_counters_well_formed(bit_rows(bits@));
    }
    match trace_all(&mut grid, closepaths) {
        Ok(paths) => Ok(render(&paths)),
        Err(e) => Err(e),
    }
}

/// The untouched counter grid of usable bits is well formed.
pub proof fn lemma_counters_well_formed(rows: Seq<Seq<i8>>)
    requires
        usable(rows),
    ensures
        well_formed(counters(rows)),
        counters(rows).len() == rows.len(),
        columns(counters(rows)) == rows[0].len(),
{
    let grid = counters(rows);
    assert forall|y: int| 0 <= y < grid.len() implies (#[trigger] grid[y]).len()
        == grid[0].len() by {
        assert(rows[y].len() == rows[0].len());
    }
}

/// Walks one boundary of a counter grid from the cell `(cursor_x, cursor_y)`
/// (counted from zero, border not included), an outline if `outline` is set
/// and a hole otherwise, and appends the text of its path to `paths`.
pub fn trace_bits(
    outline: bool,
    cursor_x: usize,
    cursor_y: usize,
    contours: &mut SignedGrid,
    paths: &mut String,
    closepaths: bool,
) -> (r: Result<(), TraceError>)
    requires
        old(contours).wf(),
        well_formed(old(contours).cells()),
        cursor_y < old(contours).cells().len(),
        cursor_x < columns(old(contours).cells()),
        kind_of(outline).inside(old(contours).cells()[cursor_y as int][cursor_x as int]),
    ensures
        final(contours).wf(),
        well_formed(final(contours).cells()),
        grown(old(contours).cells(), final(contours).cells()),
        match boundary(
            kind_of(outline),
            old(contours).cells(),
            cursor_x as int,
            cursor_y as int,
            kind_of(outline).start(),
            closepaths,
        ) {
            Some(done) => r is Ok && final(paths)@ == old(paths)@ + ops_text(done.ops)
                && final(contours).cells() == done.cells,
            None => r == Err::<(), TraceError>(TraceError::Inconsistent) && final(paths)@
                == old(paths)@,
        },
{
    trace_into(contours, BoundaryKind::from_flag(outline), cursor_x, cursor_y, paths, closepaths)
}

} // verus!
