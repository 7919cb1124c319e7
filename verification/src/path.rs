//! Path commands, the paths they form and their text.

use vstd::prelude::*;

verus! {

/// One command of a path.
#[derive(Clone, Copy, Debug, PartialEq, Eq, Structural)]
pub enum PathOp {
    /// `M x y`: start a boundary at the corner `(x, y)`.
    MoveTo { x: usize, y: usize },
    /// `H x`: a horizontal line to the corner with this `x`.
    Horizontal { x: usize },
    /// `V y`: a vertical line to the corner with this `y`.
    Vertical { y: usize },
    /// `Z`: close the boundary.
    Close,
}

/// The commands of one boundary, in the order they were emitted.
#[derive(Debug, PartialEq, Eq)]
pub struct Path {
    pub ops: Vec<PathOp>,
}

impl View for Path {
    type V = Seq<PathOp>;

    open spec fn view(&self) -> Seq<PathOp> {
        self.ops@
    }
}

/// The command sequences of a list of paths.
pub open spec fn path_views(paths: Seq<Path>) -> Seq<Seq<PathOp>> {
    Seq::new(paths.len(), |i: int| paths[i]@)
}

/// True for `H` and `V` commands.
pub open spec fn is_line(op: PathOp) -> bool {
    op is Horizontal || op is Vertical
}

/// The index of the last line command of a boundary's commands, which end
/// with a `Z` exactly when the boundary is closed.
pub open spec fn last_line(ops: Seq<PathOp>, closed: bool) -> int {
    if closed {
        ops.len() - 2
    } else {
        ops.len() - 1
    }
}

/// The shape of one boundary's commands: a single `M` in front, then lines
/// only, then a `Z` exactly when the boundary is closed.
pub open spec fn path_shaped(ops: Seq<PathOp>, closed: bool) -> bool {
    &&& last_line(ops, closed) >= 0
    &&& ops[0] is MoveTo
    &&& forall|i: int| 1 <= i <= last_line(ops, closed) ==> is_line(#[trigger] ops[i])
    &&& closed ==> ops[last_line(ops, closed) + 1] is Close
}

/// The line back to the first corner, which a `Z` draws, is at right angles
/// to the first and to the last line of the boundary: either both are
/// horizontal and the last ends straight below or above the first corner,
/// or both are vertical and the last ends straight beside it.
pub open spec fn squared_off(ops: Seq<PathOp>, closed: bool) -> bool {
    let last = ops[last_line(ops, closed)];
    &&& last_line(ops, closed) >= 2
    &&& ops[0] matches PathOp::MoveTo { x, y }
    &&& (ops[1] is Horizontal && last == PathOp::Horizontal { x }) || (ops[1] is Vertical && last
        == PathOp::Vertical { y })
}

/// No two neighbouring commands are both horizontal or both vertical.
pub open spec fn alternating(ops: Seq<PathOp>) -> bool {
    forall|i: int|
        0 <= i < ops.len() - 1 ==> !((#[trigger] ops[i]) is Horizontal && ops[i + 1] is Horizontal)
            && !(ops[i] is Vertical && ops[i + 1] is Vertical)
}

/// Every coordinate of the command lies on a grid of the given size, its
/// right and bottom edges included.
pub open spec fn within(op: PathOp, width: int, height: int) -> bool {
    match op {
        PathOp::MoveTo { x, y } => x <= width && y <= height,
        PathOp::Horizontal { x } => x <= width,
        PathOp::Vertical { y } => y <= height,
        PathOp::Close => true,
    }
}

/// Every coordinate of every command lies on a grid of the given size.
pub open spec fn all_within(ops: Seq<PathOp>, width: int, height: int) -> bool {
    forall|i: int| 0 <= i < ops.len() ==> within(#[trigger] ops[i], width, height)
}

/// The character of a decimal digit.
pub open spec fn digit(d: int) -> char {
    if d == 0 {
        '0'
    } else if d == 1 {
        '1'
    } else if d == 2 {
        '2'
    } else if d == 3 {
        '3'
    } else if d == 4 {
        '4'
    } else if d == 5 {
        '5'
    } else if d == 6 {
        '6'
    } else if d == 7 {
        '7'
    } else if d == 8 {
        '8'
    } else {
        '9'
    }
}

/// A number in decimal, without sign or leading zeros.
pub open spec fn decimal(n: nat) -> Seq<char>
    decreases n,
{
    if n < 10 {
        seq![digit(n as int)]
    } else {
        decimal(n / 10).push(digit((n % 10) as int))
    }
}

/// The text of one command.
pub open spec fn op_text(op: PathOp) -> Seq<char> {
    match op {
        PathOp::MoveTo { x, y } => seq!['M'] + decimal(x as nat) + seq![' '] + decimal(y as nat),
        PathOp::Horizontal { x } => seq!['H'] + decimal(x as nat),
        PathOp::Vertical { y } => seq!['V'] + decimal(y as nat),
        PathOp::Close => seq!['Z'],
    }
}

/// The texts of the commands, one after the other with nothing in between.
pub open spec fn ops_text(ops: Seq<PathOp>) -> Seq<char>
    decreases ops.len(),
{
    if ops.len() == 0 {
        Seq::empty()
    } else {
        ops_text(ops.drop_last()) + op_text(ops.last())
    }
}

/// The texts of the paths, one after the other with nothing in between.
pub open spec fn paths_text(paths: Seq<Seq<PathOp>>) -> Seq<char>
    decreases paths.len(),
{
    if paths.len() == 0 {
        Seq::empty()
    } else {
        paths_text(paths.drop_last()) + ops_text(paths.last())
    }
}

/// `String::push` of std: the string afterwards is the string before with
/// the one character appended.
#[verifier::external_body]
fn push_char(text: &mut String, c: char)
    ensures
        final(text)@ == old(text)@.push(c),
{
    text.push(c);
}

/// The character of a decimal digit.
fn digit_char(d: usize) -> (c: char)
    requires
        d < 10,
    ensures
        c == digit(d as int),
{
    if d == 0 {
        '0'
    } else if d == 1 {
        '1'
    } else if d == 2 {
        '2'
    } else if d == 3 {
        '3'
    } else if d == 4 {
        '4'
    } else if d == 5 {
        '5'
    } else if d == 6 {
        '6'
    } else if d == 7 {
        '7'
    } else if d == 8 {
        '8'
    } else {
        '9'
    }
}

/// Appends `n` in decimal.
pub fn write_decimal(text: &mut String, n: usize)
    ensures
        final(text)@ == old(text)@ + decimal(n as nat),
    decreases n,
{
    if n >= 10 {
        write_decimal(text, n / 10);
    }
    push_char(text, digit_char(n % 10));
}

/// Appends the text of one command.
pub fn write_op(text: &mut String, op: PathOp)
    ensures
        final(text)@ == old(text)@ + op_text(op),
{
    match op {
        PathOp::MoveTo { x, y } => {
            push_char(text, 'M');
            write_decimal(text, x);
            push_char(text, ' ');
            write_decimal(text, y);
        },
        PathOp::Horizontal { x } => {
            push_char(text, 'H');
            write_decimal(text, x);
        },
        PathOp::Vertical { y } => {
            push_char(text, 'V');
            write_decimal(text, y);
        },
        PathOp::Close => {
            push_char(text, 'Z');
        },
    }
}

impl Path {
    /// A path that starts at the corner `(x, y)`.
    pub fn begin(x: usize, y: usize) -> (path: Path)
        ensures
            path@ == seq![PathOp::MoveTo { x, y }],
    {
        let mut ops: Vec<PathOp> = Vec::new();
        ops.push(PathOp::MoveTo { x, y });
        Path { ops }
    }

    /// Appends one command.
    pub fn append(&mut self, op: PathOp)
        ensures
            final(self)@ == old(self)@.push(op),
    {
        self.ops.push(op);
    }

    /// Ends the path, with a `Z` if it is to be closed.
    pub fn finish(&mut self, close: bool)
        ensures
            final(self)@ == if close {
                old(self)@.push(PathOp::Close)
            } else {
                old(self)@
            },
    {
        if close {
            self.ops.push(PathOp::Close);
        }
    }

    /// Ends the path, with a `Z` if it is to be closed, and gives its text.
    pub fn finalize(self, close: bool) -> (text: String)
        ensures
            text@ == ops_text(
                if close {
                    self@.push(PathOp::Close)
                } else {
                    self@
                },
            ),
    {
        let mut path = self;
        path.finish(close);
        let mut text = String::new();
        path.write_to(&mut text);
        assert(Seq::<char>::empty() + ops_text(path@) =~= ops_text(path@));
        text
    }

    /// Number of commands so far.
    pub fn len(&self) -> (n: usize)
        ensures
            n == self@.len(),
    {
        self.ops.len()
    }

    /// Appends the text of the path's commands.
    pub fn write_to(&self, text: &mut String)
        ensures
            final(text)@ == old(text)@ + ops_text(self@),
    {
        let mut i: usize = 0;
        while i < self.ops.len()
            invariant
                i <= self.ops.len(),
                text@ == old(text)@ + ops_text(self@.take(i as int)),
            decreases self.ops.len() - i,
        {
            proof {
                assert(self@.take(i + 1).drop_last() =~= self@.take(i as int));
            }
            write_op(text, self.ops[i]);
            i += 1;
        }
        proof {
            assert(self@.take(i as int) =~= self@);
        }
    }
}

/// The text of a list of paths.
pub fn render(paths: &Vec<Path>) -> (text: String)
    ensures
        text@ == paths_text(path_views(paths@)),
{
    let mut text = String::new();
    let mut i: usize = 0;
    while i < paths.len()
        invariant
            i <= paths.len(),
            text@ == paths_text(path_views(paths@).take(i as int)),
        decreases paths.len() - i,
    {
        proof {
            assert(path_views(paths@).take(i + 1).drop_last() =~= path_views(paths@).take(
                i as int,
            ));
        }
        paths[i].write_to(&mut text);
        i += 1;
    }
    proof {
        assert(path_views(paths@).take(i as int) =~= path_views(paths@));
    }
    text
}

} // verus!
