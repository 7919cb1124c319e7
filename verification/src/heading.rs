//! Compass headings of the boundary walker and the two kinds of boundary.

use vstd::prelude::*;

verus! {

/// One of the four axis directions the walker can face. The raster's
/// `y` axis points down, so `North` is towards smaller `y`.
#[derive(Clone, Copy, Debug, PartialEq, Eq, Structural)]
pub enum Heading {
    North,
    East,
    South,
    West,
}

/// Which side of the foreground/background divide a boundary is walked on.
#[derive(Clone, Copy, Debug, PartialEq, Eq, Structural)]
pub enum BoundaryKind {
    /// The outer boundary of a foreground region, walked on its foreground cells.
    Outline,
    /// The boundary of an enclosed background region, walked on its background cells.
    Hole,
}

/// The kind of boundary that a flag selects: an outline where it is set, a
/// hole where it is not.
pub open spec fn kind_of(outline: bool) -> BoundaryKind {
    if outline {
        BoundaryKind::Outline
    } else {
        BoundaryKind::Hole
    }
}

impl Heading {
    /// The heading after a quarter turn clockwise (as seen on screen).
    pub open spec fn clockwise(self) -> Heading {
        match self {
            Heading::North => Heading::East,
            Heading::East => Heading::South,
            Heading::South => Heading::West,
            Heading::West => Heading::North,
        }
    }

    /// The heading after a quarter turn counterclockwise.
    pub open spec fn counterclockwise(self) -> Heading {
        match self {
            Heading::North => Heading::West,
            Heading::East => Heading::North,
            Heading::South => Heading::East,
            Heading::West => Heading::South,
        }
    }

    /// Change of `x` when advancing one cell along this heading.
    pub open spec fn dx(self) -> int {
        match self {
            Heading::East => 1,
            Heading::West => -1,
            _ => 0,
        }
    }

    /// Change of `y` when advancing one cell along this heading.
    pub open spec fn dy(self) -> int {
        match self {
            Heading::South => 1,
            Heading::North => -1,
            _ => 0,
        }
    }

    /// True for `North` and `South`.
    pub open spec fn vertical(self) -> bool {
        self == Heading::North || self == Heading::South
    }

    /// The heading after a quarter turn clockwise.
    pub fn turn_clockwise(self) -> (r: Heading)
        ensures
            r == self.clockwise(),
    {
        match self {
            Heading::North => Heading::East,
            Heading::East => Heading::South,
            Heading::South => Heading::West,
            Heading::West => Heading::North,
        }
    }

    /// The heading after a quarter turn counterclockwise.
    pub fn turn_counterclockwise(self) -> (r: Heading)
        ensures
            r == self.counterclockwise(),
    {
        match self {
            Heading::North => Heading::West,
            Heading::East => Heading::North,
            Heading::South => Heading::East,
            Heading::West => Heading::South,
        }
    }

    /// Change of `x` when advancing one cell along this heading.
    pub fn step_x(self) -> (d: i8)
        ensures
            d == self.dx(),
    {
        match self {
            Heading::East => 1,
            Heading::West => -1,
            _ => 0,
        }
    }

    /// Change of `y` when advancing one cell along this heading.
    pub fn step_y(self) -> (d: i8)
        ensures
            d == self.dy(),
    {
        match self {
            Heading::South => 1,
            Heading::North => -1,
            _ => 0,
        }
    }

    /// True for `North` and `South`.
    pub fn is_vertical(self) -> (b: bool)
        ensures
            b == self.vertical(),
    {
        match self {
            Heading::North | Heading::South => true,
            _ => false,
        }
    }
}

impl BoundaryKind {
    /// The quarter turn towards the region being walked: counterclockwise
    /// for outlines, clockwise for holes.
    pub open spec fn inward(self, h: Heading) -> Heading {
        match self {
            BoundaryKind::Outline => h.counterclockwise(),
            BoundaryKind::Hole => h.clockwise(),
        }
    }

    /// The quarter turn away from the region being walked.
    pub open spec fn outward(self, h: Heading) -> Heading {
        match self {
            BoundaryKind::Outline => h.clockwise(),
            BoundaryKind::Hole => h.counterclockwise(),
        }
    }

    /// The heading a walk of this kind sets out with.
    pub open spec fn start(self) -> Heading {
        match self {
            BoundaryKind::Outline => Heading::East,
            BoundaryKind::Hole => Heading::South,
        }
    }

    /// The heading at which the closing phase of a walk stops.
    pub open spec fn terminal(self) -> Heading {
        match self {
            BoundaryKind::Outline => Heading::North,
            BoundaryKind::Hole => Heading::West,
        }
    }

    /// Sign of the counters of the cells this kind walks on.
    pub open spec fn sign(self) -> int {
        match self {
            BoundaryKind::Outline => 1,
            BoundaryKind::Hole => -1,
        }
    }

    /// Whether a counter value belongs to the region this kind walks on.
    pub open spec fn inside(self, v: int) -> bool {
        match self {
            BoundaryKind::Outline => v > 0,
            BoundaryKind::Hole => v < 0,
        }
    }

    /// The mark left on a cell when its boundary side is followed with
    /// heading `h`: 1 for the west side, 2 north, 4 east, 8 south. An outline
    /// follows the side on its left hand, a hole the side on its right hand.
    pub open spec fn side_bit(self, h: Heading) -> int {
        match self {
            BoundaryKind::Outline => match h {
                Heading::North => 1,
                Heading::East => 2,
                Heading::South => 4,
                Heading::West => 8,
            },
            BoundaryKind::Hole => match h {
                Heading::North => 4,
                Heading::East => 8,
                Heading::South => 1,
                Heading::West => 2,
            },
        }
    }

    /// Horizontal offset, from a cell's left edge, of the corner at which the
    /// side followed with heading `h` begins.
    pub open spec fn corner_dx(self, h: Heading) -> int {
        match self {
            BoundaryKind::Outline => match h {
                Heading::North | Heading::East => 0,
                Heading::South | Heading::West => 1,
            },
            BoundaryKind::Hole => match h {
                Heading::East | Heading::South => 0,
                Heading::North | Heading::West => 1,
            },
        }
    }

    /// Vertical offset, from a cell's top edge, of the corner at which the
    /// side followed with heading `h` begins.
    pub open spec fn corner_dy(self, h: Heading) -> int {
        match self {
            BoundaryKind::Outline => match h {
                Heading::East | Heading::South => 0,
                Heading::North | Heading::West => 1,
            },
            BoundaryKind::Hole => match h {
                Heading::South | Heading::West => 0,
                Heading::North | Heading::East => 1,
            },
        }
    }

    /// Number of outward quarter turns from `h` to the terminal heading.
    pub open spec fn turns_left(self, h: Heading) -> nat {
        match self {
            BoundaryKind::Outline => match h {
                Heading::North => 0,
                Heading::West => 1,
                Heading::South => 2,
                Heading::East => 3,
            },
            BoundaryKind::Hole => match h {
                Heading::West => 0,
                Heading::North => 1,
                Heading::East => 2,
                Heading::South => 3,
            },
        }
    }

    /// The kind of boundary that a flag selects.
    pub fn from_flag(outline: bool) -> (kind: BoundaryKind)
        ensures
            kind == kind_of(outline),
    {
        if outline {
            BoundaryKind::Outline
        } else {
            BoundaryKind::Hole
        }
    }

    /// The quarter turn towards the region being walked.
    pub fn turn_inward(self, h: Heading) -> (r: Heading)
        ensures
            r == self.inward(h),
    {
        match self {
            BoundaryKind::Outline => h.turn_counterclockwise(),
            BoundaryKind::Hole => h.turn_clockwise(),
        }
    }

    /// The quarter turn away from the region being walked.
    pub fn turn_outward(self, h: Heading) -> (r: Heading)
        ensures
            r == self.outward(h),
    {
        match self {
            BoundaryKind::Outline => h.turn_clockwise(),
            BoundaryKind::Hole => h.turn_counterclockwise(),
        }
    }

    /// The heading a walk of this kind sets out with.
    pub fn start_heading(self) -> (r: Heading)
        ensures
            r == self.start(),
    {
        match self {
            BoundaryKind::Outline => Heading::East,
            BoundaryKind::Hole => Heading::South,
        }
    }

    /// The heading at which the closing phase of a walk stops.
    pub fn terminal_heading(self) -> (r: Heading)
        ensures
            r == self.terminal(),
    {
        match self {
            BoundaryKind::Outline => Heading::North,
            BoundaryKind::Hole => Heading::West,
        }
    }

    /// The mark of the side that heading `h` follows.
    pub fn side_mark(self, h: Heading) -> (bit: i8)
        ensures
            bit == self.side_bit(h),
    {
        match self {
            BoundaryKind::Outline => match h {
                Heading::North => 1,
                Heading::East => 2,
                Heading::South => 4,
                Heading::West => 8,
            },
            BoundaryKind::Hole => match h {
                Heading::North => 4,
                Heading::East => 8,
                Heading::South => 1,
                Heading::West => 2,
            },
        }
    }

    /// Horizontal offset of the corner at which the side followed with
    /// heading `h` begins.
    pub fn corner_x(self, h: Heading) -> (d: usize)
        ensures
            d == self.corner_dx(h),
    {
        match self {
            BoundaryKind::Outline => match h {
                Heading::North | Heading::East => 0,
                Heading::South | Heading::West => 1,
            },
            BoundaryKind::Hole => match h {
                Heading::East | Heading::South => 0,
                Heading::North | Heading::West => 1,
            },
        }
    }

    /// Vertical offset of the corner at which the side followed with heading
    /// `h` begins.
    pub fn corner_y(self, h: Heading) -> (d: usize)
        ensures
            d == self.corner_dy(h),
    {
        match self {
            BoundaryKind::Outline => match h {
                Heading::East | Heading::South => 0,
                Heading::North | Heading::West => 1,
            },
            BoundaryKind::Hole => match h {
                Heading::South | Heading::West => 0,
                Heading::North | Heading::East => 1,
            },
        }
    }
}

} // verus!
