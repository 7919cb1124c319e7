//! The raster scan: visits every cell once, row by row, starts a walk at
//! the first cell of each boundary, and keeps the two nesting levels that
//! tell it where a new boundary can start.

use vstd::prelude::*;
use crate::error::TraceError;
use crate::heading::BoundaryKind;
use crate::path::{path_views, Path, PathOp};
use crate::raster::{columns, grown, lemma_grown_twice, magnitude, well_formed, Raster};
use crate::tracer::{boundary, walk};

verus! {

/// The state of a scan: the grid as marked so far, the outline and hole
/// levels at the current position of the current row, and the paths found
/// so far in the order of their discovery.
pub struct Sweep {
    pub cells: Seq<Seq<int>>,
    pub outlines: int,
    pub holes: int,
    pub paths: Seq<Seq<PathOp>>,
}

/// The counter magnitudes of a cell whose west side is marked and whose
/// east side is not: the scan line enters a region there.
pub open spec fn ascends(m: int) -> bool {
    m == 2 || m == 4 || m == 10 || m == 12
}

/// The counter magnitudes of a cell whose east side is marked and whose
/// west side is not: the scan line leaves a region there.
pub open spec fn descends(m: int) -> bool {
    m == 5 || m == 7 || m == 13 || m == 15
}

/// What the counter of a cell tells the scan line that passes it.
#[derive(Clone, Copy, Debug, PartialEq, Eq, Structural)]
pub enum Crossing {
    /// The line enters a region: one level rises.
    Enter,
    /// The line leaves a region: one level falls.
    Leave,
    /// The line stays where it is.
    Stay,
}

/// The signature of a counter: a fixed lookup on its magnitude.
pub open spec fn signature(v: int) -> Crossing {
    if ascends(magnitude(v)) {
        Crossing::Enter
    } else if descends(magnitude(v)) {
        Crossing::Leave
    } else {
        Crossing::Stay
    }
}

/// The signature of a counter.
pub fn read_signature(v: i8) -> (c: Crossing)
    ensures
        c == signature(v as int),
{
    match v {
        2 | 4 | 10 | 12 | -2 | -4 | -10 | -12 => Crossing::Enter,
        5 | 7 | 13 | 15 | -5 | -7 | -13 | -15 => Crossing::Leave,
        _ => Crossing::Stay,
    }
}

/// Starts a walk at `(x, y)` where one is due: an outline on an untouched
/// foreground cell met with equal levels, a hole on an untouched background
/// cell met with more outlines than holes.
pub open spec fn discover(s: Sweep, x: int, y: int, close: bool) -> Option<Sweep> {
    let v = s.cells[y][x];
    if s.outlines == s.holes && v == 1 {
        match boundary(BoundaryKind::Outline, s.cells, x, y, BoundaryKind::Outline.start(), close) {
            None => None,
            Some(done) => Some(
                Sweep {
                    cells: done.cells,
                    outlines: s.outlines,
                    holes: s.holes,
                    paths: s.paths.push(done.ops),
                },
            ),
        }
    } else if s.outlines > s.holes && v == -1 {
        match boundary(BoundaryKind::Hole, s.cells, x, y, BoundaryKind::Hole.start(), close) {
            None => None,
            Some(done) => Some(
                Sweep {
                    cells: done.cells,
                    outlines: s.outlines,
                    holes: s.holes,
                    paths: s.paths.push(done.ops),
                },
            ),
        }
    } else {
        Some(s)
    }
}

/// Moves the levels across the cell `(x, y)` by its counter's signature;
/// `None` where a level would drop below zero.
pub open spec fn cross(s: Sweep, x: int, y: int) -> Option<Sweep> {
    let v = s.cells[y][x];
    match signature(v) {
        Crossing::Enter => if v > 0 {
            Some(Sweep { cells: s.cells, outlines: s.outlines + 1, holes: s.holes, paths: s.paths })
        } else {
            Some(Sweep { cells: s.cells, outlines: s.outlines, holes: s.holes + 1, paths: s.paths })
        },
        Crossing::Leave => if v > 0 {
            if s.outlines == 0 {
                None
            } else {
                Some(
                    Sweep {
                        cells: s.cells,
                        outlines: s.outlines - 1,
                        holes: s.holes,
                        paths: s.paths,
                    },
                )
            }
        } else {
            if s.holes == 0 {
                None
            } else {
                Some(
                    Sweep {
                        cells: s.cells,
                        outlines: s.outlines,
                        holes: s.holes - 1,
                        paths: s.paths,
                    },
                )
            }
        },
        Crossing::Stay => Some(s),
    }
}

/// The scan of one cell: a walk where one is due, then the levels.
pub open spec fn visit(s: Sweep, x: int, y: int, close: bool) -> Option<Sweep> {
    match discover(s, x, y, close) {
        None => None,
        Some(found) => cross(found, x, y),
    }
}

/// The scan of row `y` from column `x` on.
pub open spec fn sweep_row(s: Sweep, x: int, y: int, width: int, close: bool) -> Option<Sweep>
    decreases width - x,
{
    if x >= width {
        Some(s)
    } else {
        match visit(s, x, y, close) {
            None => None,
            Some(next) => sweep_row(next, x + 1, y, width, close),
        }
    }
}

/// The scan of the rows from `y` on, each begun with both levels at zero.
pub open spec fn sweep_rows(s: Sweep, y: int, width: int, height: int, close: bool) -> Option<
    Sweep,
>
    decreases height - y,
{
    if y >= height {
        Some(s)
    } else {
        match sweep_row(
            Sweep { cells: s.cells, outlines: 0, holes: 0, paths: s.paths },
            0,
            y,
            width,
            close,
        ) {
            None => None,
            Some(next) => sweep_rows(next, y + 1, width, height, close),
        }
    }
}

/// The whole scan of a grid: the grid as marked at the end and the paths of
/// all boundaries in the order of their discovery, or `None` where the scan
/// or a walk contradicted itself.
pub open spec fn traced(cells: Seq<Seq<int>>, close: bool) -> Option<Sweep> {
    sweep_rows(
        Sweep { cells, outlines: 0, holes: 0, paths: Seq::empty() },
        0,
        columns(cells),
        cells.len() as int,
        close,
    )
}

/// The scan state that an exec state stands for.
pub open spec fn sweep_of(cells: Seq<Seq<int>>, outlines: usize, holes: usize, paths: Seq<Path>)
    -> Sweep {
    Sweep { cells, outlines: outlines as int, holes: holes as int, paths: path_views(paths) }
}

/// A scan state on a well-formed grid of the given size, at column `x` of
/// row `y`, with levels that count at most the cells passed in that row.
pub open spec fn sweep_ok(s: Sweep, x: int, y: int, width: int, height: int) -> bool {
    &&& well_formed(s.cells)
    &&& s.cells.len() == height
    &&& columns(s.cells) == width
    &&& 0 <= y < height
    &&& 0 <= x <= width
    &&& 0 <= s.outlines <= x
    &&& 0 <= s.holes <= x
}

/// Traces every boundary of the raster: outlines of foreground regions and
/// the holes in them, in the order in which a row-by-row scan meets them.
/// The raster is marked in place. Fails exactly where the scan or a walk
/// contradicts itself.
pub fn trace_all<R: Raster>(raster: &mut R, close: bool) -> (r: Result<Vec<Path>, TraceError>)
    requires
        old(raster).wf(),
        well_formed(old(raster).cells()),
    ensures
        final(raster).wf(),
        well_formed(final(raster).cells()),
        grown(old(raster).cells(), final(raster).cells()),
        match traced(old(raster).cells(), close) {
            Some(end) => r matches Ok(paths) && path_views(paths@) == end.paths
                && final(raster).cells() == end.cells,
            None => r == Err::<Vec<Path>, TraceError>(TraceError::Inconsistent),
        },
{
    let height = raster.height();
    let width = raster.width();
    let mut paths: Vec<Path> = Vec::new();
    let mut outlines: usize = 0;
    let mut holes: usize = 0;
    let mut y: usize = 0;
    assert(path_views(paths@) =~= Seq::<Seq<PathOp>>::empty());
    assert(grown(raster.cells(), raster.cells()));
    while y < height
        invariant
            raster.wf(),
            well_formed(raster.cells()),
            grown(old(raster).cells(), raster.cells()),
            height == raster.cells().len(),
            width == columns(raster.cells()),
            y <= height,
            sweep_rows(
                sweep_of(raster.cells(), outlines, holes, paths@),
                y as int,
                width as int,
                height as int,
                close,
            ) == traced(old(raster).cells(), close),
        decreases height - y,
    {
        outlines = 0;
        holes = 0;
        let mut x: usize = 0;
        let ghost row_start = sweep_of(raster.cells(), 0, 0, paths@);
        while x < width
            invariant
                raster.wf(),
                grown(old(raster).cells(), raster.cells()),
                sweep_ok(
                    sweep_of(raster.cells(), outlines, holes, paths@),
                    x as int,
                    y as int,
                    width as int,
                    height as int,
                ),
                sweep_row(
                    sweep_of(raster.cells(), outlines, holes, paths@),
                    x as int,
                    y as int,
                    width as int,
                    close,
                ) == sweep_row(row_start, 0, y as int, width as int, close),
                sweep_rows(row_start, y as int, width as int, height as int, close) == traced(
                    old(raster).cells(),
                    close,
                ),
                row_start.outlines == 0,
                row_start.holes == 0,
            decreases width - x,
        {
            let ghost here = sweep_of(raster.cells(), outlines, holes, paths@);
            let v = raster.signed_value(x, y);
            if outlines == holes && v == 1 {
                let walked = walk(
                    raster,
                    BoundaryKind::Outline,
                    x,
                    y,
                    BoundaryKind::Outline.start_heading(),
                    close,
                );
                proof {
                    lemma_grown_twice(old(raster).cells(), here.cells, raster.cells());
                }
                match walked {
                    Ok(path) => {
                        proof {
                            assert(path_views(paths@.push(path)) =~= path_views(paths@).push(
                                path@,
                            ));
                        }
                        paths.push(path);
                    },
                    Err(_) => {
                        return Err(TraceError::Inconsistent);
                    },
                }
            } else if outlines > holes && v == -1 {
                let walked = walk(
                    raster,
                    BoundaryKind::Hole,
                    x,
                    y,
                    BoundaryKind::Hole.start_heading(),
                    close,
                );
                proof {
                    lemma_grown_twice(old(raster).cells(), here.cells, raster.cells());
                }
                match walked {
                    Ok(path) => {
                        proof {
                            assert(path_views(paths@.push(path)) =~= path_views(paths@).push(
                                path@,
                            ));
                        }
                        paths.push(path);
                    },
                    Err(_) => {
                        return Err(TraceError::Inconsistent);
                    },
                }
            }
            assert(discover(here, x as int, y as int, close) == Some(
                sweep_of(raster.cells(), outlines, holes, paths@),
            ));
            let after = raster.signed_value(x, y);
            match read_signature(after) {
                Crossing::Enter => {
                    if after > 0 {
                        outlines += 1;
                    } else {
                        holes += 1;
                    }
                },
                Crossing::Leave => {
                    if after > 0 {
                        if outlines == 0 {
                            return Err(TraceError::Inconsistent);
                        }
                        outlines -= 1;
                    } else {
                        if holes == 0 {
                            return Err(TraceError::Inconsistent);
                        }
                        holes -= 1;
                    }
                },
                Crossing::Stay => {},
            }
            x += 1;
        }
        y += 1;
    }
    Ok(paths)
}

} // verus!
