//! Pieces and the shape of the moves each kind of piece can make.
use vstd::prelude::*;

use crate::movement::{distance, Move};

verus! {

/// The two sides of a game.
#[allow(non_camel_case_types)]
#[derive(PartialEq, Eq, Structural, Copy, Clone, Debug)]
pub enum PieceColor {
    WHITE,
    BLACK,
}

impl PieceColor {
    /// The other side.
    pub open spec fn other(self) -> PieceColor {
        match self {
            PieceColor::WHITE => PieceColor::BLACK,
            PieceColor::BLACK => PieceColor::WHITE,
        }
    }

    /// The other side.
    pub fn opposite(self) -> (r: PieceColor)
        ensures
            r == self.other(),
    {
        match self {
            PieceColor::WHITE => PieceColor::BLACK,
            PieceColor::BLACK => PieceColor::WHITE,
        }
    }
}

impl core::ops::Not for PieceColor {
    type Output = PieceColor;

    /// The other side.
    fn not(self) -> (r: PieceColor) {
        self.opposite()
    }
}

impl vstd::std_specs::ops::NotSpecImpl for PieceColor {
    open spec fn obeys_not_spec() -> bool {
        true
    }

    open spec fn not_req(self) -> bool {
        true
    }

    open spec fn not_spec(self) -> PieceColor {
        self.other()
    }
}

/// The six kinds of chess pieces.
#[derive(PartialEq, Eq, Structural, Copy, Clone, Debug)]
pub enum PieceType {
    Pawn,
    Rook,
    Knight,
    Bishop,
    Queen,
    King,
}

/// Whether a pawn of `color` may go from `(sx, sy)` to `(ex, ey)`, and whether
/// the squares in between must be empty; `dest_occupied` tells whether an
/// opposing piece stands on the destination.
pub open spec fn pawn_shape(
    color: PieceColor,
    moved: bool,
    sx: int,
    sy: int,
    ex: int,
    ey: int,
    dest_occupied: bool,
) -> (bool, bool) {
    let forward = match color {
        PieceColor::WHITE => ey - sy,
        PieceColor::BLACK => sy - ey,
    };
    if forward <= 0 {
        (false, false)
    } else if sx == ex && !dest_occupied {
        if forward == 1 {
            (true, false)
        } else if forward == 2 {
            (!moved, true)
        } else {
            (false, false)
        }
    } else if dest_occupied && forward == 1 {
        (distance(sx, ex) == 1, false)
    } else {
        (false, false)
    }
}

/// Whether a piece of the given kind, side and history may go from
/// `(sx, sy)` to `(ex, ey)` by its shape alone, and whether the squares in
/// between must be empty for the move to be made.
pub open spec fn move_shape(
    kind: PieceType,
    color: PieceColor,
    moved: bool,
    sx: int,
    sy: int,
    ex: int,
    ey: int,
    dest_occupied: bool,
) -> (bool, bool) {
    let dx = distance(sx, ex);
    let dy = distance(sy, ey);
    match kind {
        PieceType::Knight => ((dx == 2 && dy == 1) || (dx == 1 && dy == 2), false),
        PieceType::Queen => (dx == 0 || dy == 0 || dx == dy, true),
        PieceType::King => (dx <= 1 && dy <= 1, false),
        PieceType::Rook => (dx == 0 || dy == 0, true),
        PieceType::Bishop => (dx == dy, true),
        PieceType::Pawn => pawn_shape(color, moved, sx, sy, ex, ey, dest_occupied),
    }
}

/// A piece: its kind, its side, and whether it has been moved yet.
#[derive(Copy, Clone, Debug)]
pub struct Piece {
    piece_type: PieceType,
    piece_color: PieceColor,
    moved: bool,
}

impl Piece {
    /// Kind of the piece.
    pub closed spec fn kind(self) -> PieceType {
        self.piece_type
    }

    /// Side the piece belongs to.
    pub closed spec fn side(self) -> PieceColor {
        self.piece_color
    }

    /// Whether the piece has been moved.
    pub closed spec fn has_moved(self) -> bool {
        self.moved
    }

    /// The same piece once it has been moved.
    pub closed spec fn after_move(self) -> Piece {
        Piece { moved: true, ..self }
    }

    /// A moved piece keeps its kind and side.
    pub proof fn lemma_after_move(self)
        ensures
            self.after_move().kind() == self.kind(),
            self.after_move().side() == self.side(),
            self.after_move().has_moved(),
    {
    }

    /// What `move_shape` says of this piece making move `m`.
    pub open spec fn shape(self, m: Move, dest_occupied: bool) -> (bool, bool) {
        move_shape(
            self.kind(),
            self.side(),
            self.has_moved(),
            m.source().file(),
            m.source().rank(),
            m.target().file(),
            m.target().rank(),
            dest_occupied,
        )
    }

    /// A piece of the given kind and side that has not been moved.
    pub fn new(piece_type: PieceType, piece_color: PieceColor) -> (r: Piece)
        ensures
            r.kind() == piece_type,
            r.side() == piece_color,
            !r.has_moved(),
    {
        Piece { piece_type, piece_color, moved: false }
    }

    /// Whether the piece may make move `m` by its shape alone, and whether the
    /// squares in between must then be empty; `dest_occupied` tells whether an
    /// opposing piece stands on the destination.
    pub fn can_move_to(&self, m: Move, dest_occupied: bool) -> (r: (bool, bool))
        ensures
            r == self.shape(m, dest_occupied),
    {
        let (dx, dy) = m.to_deltas();
        match self.piece_type {
            PieceType::Knight => ((dx == 2 && dy == 1) || (dx == 1 && dy == 2), false),
            PieceType::Queen => (dx == 0 || dy == 0 || dx == dy, true),
            PieceType::King => (dx <= 1 && dy <= 1, false),
            PieceType::Rook => (dx == 0 || dy == 0, true),
            PieceType::Bishop => (dx == dy, true),
            PieceType::Pawn => {
                let ((sx, sy), (ex, ey)) = m.to_coords();
                let distance: u8 = match self.piece_color {
                    PieceColor::WHITE => {
                        if ey > sy {
                            ey - sy
                        } else {
                            return (false, false);
                        }
                    },
                    PieceColor::BLACK => {
                        if ey < sy {
                            sy - ey
                        } else {
                            return (false, false);
                        }
                    },
                };
                if sx == ex && !dest_occupied {
                    if distance == 1 {
                        (true, false)
                    } else if distance == 2 {
                        (!self.moved, true)
                    } else {
                        (false, false)
                    }
                } else if dest_occupied && distance == 1 {
                    if sx > ex {
                        (sx - ex == 1, false)
                    } else if sx < ex {
                        (ex - sx == 1, false)
                    } else {
                        (false, false)
                    }
                } else {
                    (false, false)
                }
            },
        }
    }

    /// Side the piece belongs to.
    pub fn color(&self) -> (r: PieceColor)
        ensures
            r == self.side(),
    {
        self.piece_color
    }

    /// Kind of the piece.
    pub fn piece_type(&self) -> (r: PieceType)
        ensures
            r == self.kind(),
    {
        self.piece_type
    }

    /// Marks the piece as moved.
    pub fn move_piece(&mut self)
        ensures
            *final(self) == old(self).after_move(),
    {
        self.moved = true;
    }
}

} // verus!
