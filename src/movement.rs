//! Board coordinates: squares, moves between them, and the squares that lie
//! strictly between the two ends of a straight or diagonal move.
use vstd::prelude::*;

verus! {

/// The letter that names a file in coordinate notation: `a` for file 0 up to `h` for file 7.
pub open spec fn file_letter(f: int) -> char {
    if f == 0 {
        'a'
    } else if f == 1 {
        'b'
    } else if f == 2 {
        'c'
    } else if f == 3 {
        'd'
    } else if f == 4 {
        'e'
    } else if f == 5 {
        'f'
    } else if f == 6 {
        'g'
    } else {
        'h'
    }
}

/// The digit that names a rank in coordinate notation: `1` for rank 0 up to `8` for rank 7.
pub open spec fn rank_digit(r: int) -> char {
    if r == 0 {
        '1'
    } else if r == 1 {
        '2'
    } else if r == 2 {
        '3'
    } else if r == 3 {
        '4'
    } else if r == 4 {
        '5'
    } else if r == 5 {
        '6'
    } else if r == 6 {
        '7'
    } else {
        '8'
    }
}

/// The pair `(smaller, larger)` of two coordinates.
pub open spec fn ordered(a: int, b: int) -> (int, int) {
    if a < b {
        (a, b)
    } else {
        (b, a)
    }
}

/// Distance between two coordinates on one axis.
pub open spec fn distance(a: int, b: int) -> int {
    if a < b {
        b - a
    } else {
        a - b
    }
}

/// One step from coordinate `a` toward coordinate `b`, or `a` itself once it is there.
pub open spec fn step_toward(a: int, b: int) -> int {
    if a < b {
        a + 1
    } else if a > b {
        a - 1
    } else {
        a
    }
}

/// Squares `a` and `b` share a file, a rank or a diagonal.
pub open spec fn on_line(a: Square, b: Square) -> bool {
    let dx = distance(a.file(), b.file());
    let dy = distance(a.rank(), b.rank());
    dx == 0 || dy == 0 || dx == dy
}

/// The coordinate `k` steps from `a` toward `b` (not clamped at `b`).
pub open spec fn offset_toward(a: int, b: int, k: int) -> int {
    if a < b {
        a + k
    } else if a > b {
        a - k
    } else {
        a
    }
}

/// A square of the board, by zero-based file (`x`) and rank (`y`), both below 8.
#[derive(PartialEq, Eq, Structural, Copy, Clone, Debug)]
pub struct Square {
    x: u8,
    y: u8,
}

impl Square {
    /// Zero-based file of the square (column `a` is 0).
    pub closed spec fn file(self) -> int {
        self.x as int
    }

    /// Zero-based rank of the square (row `1` is 0).
    pub closed spec fn rank(self) -> int {
        self.y as int
    }

    /// The square with linear index `i` (`file + 8 * rank`).
    pub closed spec fn at_index(i: int) -> Square {
        Square { x: (i % 8) as u8, y: (i / 8) as u8 }
    }

    /// Both coordinates lie on the board.
    #[verifier::type_invariant]
    pub open spec fn wf(self) -> bool {
        0 <= self.file() < 8 && 0 <= self.rank() < 8
    }

    /// Linear index of the square, `file + 8 * rank`.
    pub open spec fn index(self) -> int {
        self.file() + 8 * self.rank()
    }

    /// Coordinate notation of the square, such as `e2`.
    pub open spec fn uci(self) -> Seq<char> {
        seq![file_letter(self.file()), rank_digit(self.rank())]
    }

    /// Two squares are equal exactly when their files and ranks are.
    pub proof fn lemma_eq_coords(self, other: Square)
        ensures
            (self == other) == (self.file() == other.file() && self.rank() == other.rank()),
    {
    }

    /// The square at index `i` has file `i % 8` and rank `i / 8`.
    pub proof fn lemma_at_index(i: int)
        requires
            0 <= i < 64,
        ensures
            Square::at_index(i).wf(),
            Square::at_index(i).file() == i % 8,
            Square::at_index(i).rank() == i / 8,
            Square::at_index(i).index() == i,
    {
    }

    /// Turning a square into its index and back gives the same square.
    pub proof fn lemma_index_round_trip(s: Square)
        requires
            s.wf(),
        ensures
            0 <= s.index() < 64,
            s.index() % 8 == s.file(),
            s.index() / 8 == s.rank(),
            Square::at_index(s.index()) == s,
    {
    }

    /// Valid squares with the same index are the same square.
    pub proof fn lemma_index_injective(a: Square, b: Square)
        requires
            a.wf(),
            b.wf(),
            a.index() == b.index(),
        ensures
            a == b,
    {
    }

    /// Builds the square at file `x` and rank `y`.
    pub fn new(x: u8, y: u8) -> (r: Square)
        requires
            x < 8,
            y < 8,
        ensures
            r.file() == x,
            r.rank() == y,
    {
        Square { x, y }
    }

    /// Builds the square whose linear index is `i`.
    pub fn from_index(i: usize) -> (r: Square)
        requires
            i < 64,
        ensures
            r == Square::at_index(i as int),
            r.file() == i % 8,
            r.rank() == i / 8,
            r.index() == i,
    {
        Square { x: (i % 8) as u8, y: (i / 8) as u8 }
    }

    /// Coordinate notation of the square, such as `e2`.
    pub fn to_uci(&self) -> (r: String)
        ensures
            r@ == self.uci(),
    {
        proof {
            use_type_invariant(self);
        }
        let mut r = String::from_str(file_str(self.x));
        r.append(rank_str(self.y));
        r
    }

    /// Linear index of the square, `file + 8 * rank`.
    pub fn to_index(&self) -> (r: usize)
        ensures
            r == self.index(),
            r < 64,
    {
        proof {
            use_type_invariant(self);
        }
        (self.x + 8 * self.y) as usize
    }

    /// The pair `(file, rank)`.
    pub fn to_coords(&self) -> (r: (u8, u8))
        ensures
            r.0 == self.file(),
            r.1 == self.rank(),
            r.0 < 8,
            r.1 < 8,
    {
        proof {
            use_type_invariant(self);
        }
        (self.x, self.y)
    }
}

/// The one-letter text of file `f`.
fn file_str(f: u8) -> (r: &'static str)
    requires
        f < 8,
    ensures
        r@ == seq![file_letter(f as int)],
{
    proof {
        reveal_strlit("a");
        reveal_strlit("b");
        reveal_strlit("c");
        reveal_strlit("d");
        reveal_strlit("e");
        reveal_strlit("f");
        reveal_strlit("g");
        reveal_strlit("h");
    }
    match f {
        0 => "a",
        1 => "b",
        2 => "c",
        3 => "d",
        4 => "e",
        5 => "f",
        6 => "g",
        _ => "h",
    }
}

/// The one-digit text of rank `r`.
fn rank_str(r: u8) -> (s: &'static str)
    requires
        r < 8,
    ensures
        s@ == seq![rank_digit(r as int)],
{
    proof {
        reveal_strlit("1");
        reveal_strlit("2");
        reveal_strlit("3");
        reveal_strlit("4");
        reveal_strlit("5");
        reveal_strlit("6");
        reveal_strlit("7");
        reveal_strlit("8");
    }
    match r {
        0 => "1",
        1 => "2",
        2 => "3",
        3 => "4",
        4 => "5",
        5 => "6",
        6 => "7",
        _ => "8",
    }
}

/// The pair `(smaller, larger)` of two bytes.
fn min_max(a: u8, b: u8) -> (r: (u8, u8))
    ensures
        (r.0 as int, r.1 as int) == ordered(a as int, b as int),
{
    if a < b {
        (a, b)
    } else {
        (b, a)
    }
}

/// A proposed relocation from one square to a different one.
#[derive(PartialEq, Eq, Structural, Copy, Clone, Debug)]
pub struct Move {
    start: Square,
    end: Square,
}

impl Move {
    /// The square the move starts on.
    pub closed spec fn source(self) -> Square {
        self.start
    }

    /// The square the move ends on.
    pub closed spec fn target(self) -> Square {
        self.end
    }

    /// Both ends lie on the board and differ.
    #[verifier::type_invariant]
    pub open spec fn wf(self) -> bool {
        self.source().wf() && self.target().wf() && self.source() != self.target()
    }

    /// Distance covered along the files.
    pub open spec fn dx(self) -> int {
        distance(self.source().file(), self.target().file())
    }

    /// Distance covered along the ranks.
    pub open spec fn dy(self) -> int {
        distance(self.source().rank(), self.target().rank())
    }

    /// Coordinate notation of the move, such as `e2e4`.
    pub open spec fn uci(self) -> Seq<char> {
        self.source().uci() + self.target().uci()
    }

    /// Two moves are equal exactly when their ends are.
    pub proof fn lemma_eq_ends(self, other: Move)
        ensures
            (self == other) == (self.source() == other.source() && self.target() == other.target()),
    {
    }

    /// Builds the move from `start` to `end`.
    pub fn new(start: Square, end: Square) -> (r: Move)
        requires
            start != end,
        ensures
            r.source() == start,
            r.target() == end,
    {
        proof {
            use_type_invariant(&start);
            use_type_invariant(&end);
        }
        Move { start, end }
    }

    /// Coordinate notation of the move, such as `e2e4`.
    pub fn to_uci(&self) -> (r: String)
        ensures
            r@ == self.uci(),
    {
        let mut result = self.start.to_uci();
        let end = self.end.to_uci();
        result.append(end.as_str());
        result
    }

    /// Smaller and larger file of the two ends.
    pub fn min_max_x(&self) -> (r: (u8, u8))
        ensures
            (r.0 as int, r.1 as int) == ordered(self.source().file(), self.target().file()),
    {
        min_max(self.start.x, self.end.x)
    }

    /// Smaller and larger rank of the two ends.
    pub fn min_max_y(&self) -> (r: (u8, u8))
        ensures
            (r.0 as int, r.1 as int) == ordered(self.source().rank(), self.target().rank()),
    {
        min_max(self.start.y, self.end.y)
    }

    /// Smaller and larger file, then smaller and larger rank, of the two ends.
    pub fn min_max_x_y(&self) -> (r: ((u8, u8), (u8, u8)))
        ensures
            (r.0.0 as int, r.0.1 as int) == ordered(self.source().file(), self.target().file()),
            (r.1.0 as int, r.1.1 as int) == ordered(self.source().rank(), self.target().rank()),
    {
        (self.min_max_x(), self.min_max_y())
    }

    /// Distances covered along the files and along the ranks.
    pub fn to_deltas(&self) -> (r: (u8, u8))
        ensures
            r.0 == self.dx(),
            r.1 == self.dy(),
    {
        let (min_x, max_x) = self.min_max_x();
        let (min_y, max_y) = self.min_max_y();
        (max_x - min_x, max_y - min_y)
    }

    /// The two ends, start first.
    pub fn to_squares(&self) -> (r: (Square, Square))
        ensures
            r.0 == self.source(),
            r.1 == self.target(),
    {
        (self.start, self.end)
    }

    /// Coordinates of the two ends, start first.
    pub fn to_coords(&self) -> (r: ((u8, u8), (u8, u8)))
        ensures
            r.0.0 == self.source().file(),
            r.0.1 == self.source().rank(),
            r.1.0 == self.target().file(),
            r.1.1 == self.target().rank(),
            r.0.0 < 8 && r.0.1 < 8 && r.1.0 < 8 && r.1.1 < 8,
    {
        (self.start.to_coords(), self.end.to_coords())
    }

    /// The square the move starts on.
    pub fn start(&self) -> (r: Square)
        ensures
            r == self.source(),
    {
        self.start
    }

    /// The square the move ends on.
    pub fn end(&self) -> (r: Square)
        ensures
            r == self.target(),
    {
        self.end
    }
}

/// Walks from one square toward another along their shared file, rank or
/// diagonal, producing the squares passed over; where the two squares share
/// none of these, the walk produces nothing.
pub struct LineMovement {
    current: Square,
    end: Square,
    include_end: bool,
}

impl LineMovement {
    /// The square reached so far.
    pub closed spec fn position(self) -> Square {
        self.current
    }

    /// The square the walk heads for.
    pub closed spec fn goal(self) -> Square {
        self.end
    }

    /// Whether the goal itself is produced when reached.
    pub closed spec fn inclusive(self) -> bool {
        self.include_end
    }

    /// A walk from `start` toward `end`.
    pub fn new(start: Square, end: Square, include_end: bool) -> (r: LineMovement)
        ensures
            r.position() == start,
            r.goal() == end,
            r.inclusive() == include_end,
    {
        LineMovement { end, current: start, include_end }
    }

    /// The walk over the squares strictly between the ends of `m`, where they
    /// share a file, rank or diagonal (and over nothing otherwise).
    pub fn from(m: Move) -> (r: LineMovement)
        ensures
            r.position() == m.source(),
            r.goal() == m.target(),
            !r.inclusive(),
    {
        LineMovement::new(m.start(), m.end(), false)
    }

    /// Takes one step along the line and returns the square reached; `None`
    /// once the goal is reached (or on reaching it, where the goal is not
    /// included), and `None` without moving where the position and the goal
    /// are not on one file, rank or diagonal.
    pub fn next(&mut self) -> (r: Option<Square>)
        ensures
            final(self).goal() == old(self).goal(),
            final(self).inclusive() == old(self).inclusive(),
            old(self).position() == old(self).goal() ==> r is None && final(self).position()
                == old(self).position(),
            !on_line(old(self).position(), old(self).goal()) ==> r is None && final(self).position()
                == old(self).position(),
            old(self).position() != old(self).goal() && on_line(
                old(self).position(),
                old(self).goal(),
            ) ==> {
                &&& final(self).position().file() == step_toward(
                    old(self).position().file(),
                    old(self).goal().file(),
                )
                &&& final(self).position().rank() == step_toward(
                    old(self).position().rank(),
                    old(self).goal().rank(),
                )
                &&& r == if final(self).position() == old(self).goal() && !old(self).inclusive() {
                    None::<Square>
                } else {
                    Some(final(self).position())
                }
            },
    {
        proof {
            use_type_invariant(&self.current);
            use_type_invariant(&self.end);
        }
        if self.current == self.end {
            return None;
        }
        let (min_x, max_x) = min_max(self.current.x, self.end.x);
        let (min_y, max_y) = min_max(self.current.y, self.end.y);
        let (dx, dy) = (max_x - min_x, max_y - min_y);
        if !(dx == 0 || dy == 0 || dx == dy) {
            return None;
        }
        let mut x = self.current.x;
        let mut y = self.current.y;
        if x < self.end.x {
            x = x + 1;
        } else if x > self.end.x {
            x = x - 1;
        }
        if y < self.end.y {
            y = y + 1;
        } else if y > self.end.y {
            y = y - 1;
        }
        self.current = Square { x, y };
        if self.current == self.end && !self.include_end {
            None
        } else {
            Some(self.current)
        }
    }
}

} // verus!
