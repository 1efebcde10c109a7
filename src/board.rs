//! The board: 64 squares, each holding at most one piece, with move legality,
//! attack detection, move application and legal-move enumeration.
//!
//! A legality question about a position that would arise after some other move
//! is answered without touching the board: every lookup goes through an
//! overlay that treats that move's start as empty and its end as holding what
//! stood on its start.
use vstd::prelude::*;

use crate::movement::{distance, offset_toward, LineMovement, Move, Square};
use crate::piece::{move_shape, Piece, PieceColor, PieceType};

verus! {

/// Why a move cannot be made.
#[derive(Debug, PartialEq, Eq, Structural, Copy, Clone)]
pub enum MoveFailReason {
    /// The start square is empty.
    NoSourcePiece,
    /// The destination holds a piece of the mover's own side.
    FriendlyFire,
    /// The piece cannot move that way, or its path is blocked.
    IllegalMove,
    /// The move would leave the mover's own king attacked.
    KingAttacked,
}

/// The position of the side to move next, after a successful move.
#[derive(Debug, PartialEq, Eq, Structural, Copy, Clone)]
pub enum PostMoveState {
    /// King not attacked, some legal move left.
    Normal,
    /// King attacked, some legal move left.
    Check,
    /// King attacked, no legal move left.
    Checkmate,
    /// King not attacked, no legal move left.
    Stalemate,
}

/// File of the square with linear index `i`.
pub open spec fn file_of(i: int) -> int {
    i % 8
}

/// Rank of the square with linear index `i`.
pub open spec fn rank_of(i: int) -> int {
    i / 8
}

/// Index of the square `k` steps from square `from` toward square `to`.
pub open spec fn line_point(from: int, to: int, k: int) -> int {
    offset_toward(file_of(from), file_of(to), k) + 8 * offset_toward(rank_of(from), rank_of(to), k)
}

/// Number of single steps from square `from` to square `to` on a line.
pub open spec fn line_length(from: int, to: int) -> int {
    let dx = distance(file_of(from), file_of(to));
    let dy = distance(rank_of(from), rank_of(to));
    if dx < dy {
        dy
    } else {
        dx
    }
}

/// Squares `from` and `to` share a file, a rank or a diagonal.
pub open spec fn aligned(from: int, to: int) -> bool {
    let dx = distance(file_of(from), file_of(to));
    let dy = distance(rank_of(from), rank_of(to));
    dx == 0 || dy == 0 || dx == dy
}

/// Indices of the start and end squares of a move.
pub open spec fn ends(m: Move) -> (int, int) {
    (m.source().index(), m.target().index())
}

/// Order of moves by start square, then by end square.
pub open spec fn move_key(m: Move) -> int {
    64 * m.source().index() + m.target().index()
}

/// The hypothetical move of an overlay, by the indices of its ends.
pub open spec fn overlay(sm: Option<Move>) -> Option<(int, int)> {
    match sm {
        Some(m) => Some(ends(m)),
        None => None,
    }
}

/// A borrowed lookup result that shows the piece value `c`.
pub open spec fn shows(r: Option<&Piece>, c: Option<Piece>) -> bool {
    match r {
        Some(p) => c == Some(*p),
        None => c is None,
    }
}

/// Kind of the piece that starts on file `f` of either back rank.
pub open spec fn back_rank_kind(f: int) -> PieceType {
    if f == 0 || f == 7 {
        PieceType::Rook
    } else if f == 1 || f == 6 {
        PieceType::Knight
    } else if f == 2 || f == 5 {
        PieceType::Bishop
    } else if f == 3 {
        PieceType::Queen
    } else {
        PieceType::King
    }
}

/// Kind and side of the piece on square `i` in the standard starting
/// position; `None` where the square starts empty.
pub open spec fn standard_setup(i: int) -> Option<(PieceType, PieceColor)> {
    let rank = rank_of(i);
    if rank == 0 {
        Some((back_rank_kind(file_of(i)), PieceColor::WHITE))
    } else if rank == 1 {
        Some((PieceType::Pawn, PieceColor::WHITE))
    } else if rank == 6 {
        Some((PieceType::Pawn, PieceColor::BLACK))
    } else if rank == 7 {
        Some((back_rank_kind(file_of(i)), PieceColor::BLACK))
    } else {
        None
    }
}

/// Square contents `c` are what `want` asks for: an unmoved piece of that
/// kind and side, or nothing.
pub open spec fn holds_fresh(c: Option<Piece>, want: Option<(PieceType, PieceColor)>) -> bool {
    match want {
        Some(w) => c is Some && c.unwrap().kind() == w.0 && c.unwrap().side() == w.1
            && !c.unwrap().has_moved(),
        None => c is None,
    }
}

/// Kind of the piece that starts on file `x` of either back rank.
fn back_rank_piece(x: u8) -> (r: PieceType)
    ensures
        r == back_rank_kind(x as int),
{
    if x == 0 || x == 7 {
        PieceType::Rook
    } else if x == 1 || x == 6 {
        PieceType::Knight
    } else if x == 2 || x == 5 {
        PieceType::Bishop
    } else if x == 3 {
        PieceType::Queen
    } else {
        PieceType::King
    }
}

/// The 64 squares of a chess board, indexed by `file + 8 * rank`.
pub struct Board {
    pieces: [Option<Piece>; 64],
}

impl Board {
    /// What stands on square `i`, for `0 <= i < 64`.
    pub closed spec fn cell(self, i: int) -> Option<Piece> {
        self.pieces@[i]
    }

    /// Contents of the 64 squares, by index.
    pub open spec fn cells(self) -> Seq<Option<Piece>> {
        Seq::new(64, |i: int| self.cell(i))
    }

    /// What stands on square `i` when the move `sm` (by end indices), if any,
    /// is imagined made: its start is empty and its end holds what stood on its start.
    pub open spec fn occupant(self, i: int, sm: Option<(int, int)>) -> Option<Piece> {
        match sm {
            Some(h) => if i == h.0 {
                None
            } else if i == h.1 {
                self.cells()[h.0]
            } else {
                self.cells()[i]
            },
            None => self.cells()[i],
        }
    }

    /// Every square strictly between `from` and `to` on their line is empty under `sm`.
    pub open spec fn path_clear(self, from: int, to: int, sm: Option<(int, int)>) -> bool {
        forall|k: int|
            0 < k < line_length(from, to) ==> (#[trigger] self.occupant(
                line_point(from, to, k),
                sm,
            )) is None
    }

    /// Whether the piece on `from` can reach `to` under `sm` by the rules of
    /// movement alone, leaving aside the safety of its own king.
    pub open spec fn reach(self, from: int, to: int, sm: Option<(int, int)>) -> Result<
        (),
        MoveFailReason,
    > {
        match self.occupant(from, sm) {
            None => Err(MoveFailReason::NoSourcePiece),
            Some(p) => {
                let dest = self.occupant(to, sm);
                if dest is Some && dest.unwrap().side() == p.side() {
                    Err(MoveFailReason::FriendlyFire)
                } else {
                    let shape = move_shape(
                        p.kind(),
                        p.side(),
                        p.has_moved(),
                        file_of(from),
                        rank_of(from),
                        file_of(to),
                        rank_of(to),
                        dest is Some,
                    );
                    if shape.0 && (!shape.1 || self.path_clear(from, to, sm)) {
                        Ok(())
                    } else {
                        Err(MoveFailReason::IllegalMove)
                    }
                }
            },
        }
    }

    /// The piece on `i` belongs to side `c` and can reach square `sq` under
    /// `sm` by the rules of movement alone.
    pub open spec fn attacks_from(self, i: int, sq: int, c: PieceColor, sm: Option<(int, int)>) -> bool {
        &&& 0 <= i < 64
        &&& i != sq
        &&& self.occupant(i, sm) is Some
        &&& self.occupant(i, sm).unwrap().side() == c
        &&& self.reach(i, sq, sm) is Ok
    }

    /// Square `sq` is attacked by side `c` under `sm`: some piece of `c` on
    /// another square can reach it, whatever that would do to its own king.
    pub open spec fn attacked(self, sq: int, c: PieceColor, sm: Option<(int, int)>) -> bool {
        exists|i: int| #[trigger] self.attacks_from(i, sq, c, sm)
    }

    /// Square `i` holds the king of side `c` under `sm`.
    pub open spec fn is_king_of(self, i: int, c: PieceColor, sm: Option<(int, int)>) -> bool {
        &&& self.occupant(i, sm) is Some
        &&& self.occupant(i, sm).unwrap().kind() == PieceType::King
        &&& self.occupant(i, sm).unwrap().side() == c
    }

    /// Square `k` holds the king of side `c` under `sm`, and no square with a
    /// lower index does.
    pub open spec fn first_king(self, k: int, c: PieceColor, sm: Option<(int, int)>) -> bool {
        &&& 0 <= k < 64
        &&& self.is_king_of(k, c, sm)
        &&& forall|j: int| 0 <= j < k ==> !#[trigger] self.is_king_of(j, c, sm)
    }

    /// The king of side `c` (the first by index, should there be several) is
    /// attacked by the other side under `sm`; a side without a king is never
    /// in check.
    pub open spec fn king_attacked(self, c: PieceColor, sm: Option<(int, int)>) -> bool {
        exists|k: int| #[trigger] self.first_king(k, c, sm) && self.attacked(k, c.other(), sm)
    }

    /// Outcome of checking the move from square `from` to square `to`: the
    /// rules of movement, then the safety of the mover's own king once the
    /// move is made.
    pub open spec fn legality(self, from: int, to: int) -> Result<(), MoveFailReason> {
        match self.reach(from, to, None) {
            Err(e) => Err(e),
            Ok(_) => if self.king_attacked(self.cells()[from].unwrap().side(), Some((from, to))) {
                Err(MoveFailReason::KingAttacked)
            } else {
                Ok(())
            },
        }
    }

    /// The move from square `from` to square `to` can be made.
    pub open spec fn is_legal(self, from: int, to: int) -> bool {
        &&& 0 <= from < 64
        &&& 0 <= to < 64
        &&& from != to
        &&& self.legality(from, to) is Ok
    }

    /// Square `from` holds a piece of side `color`, or any piece where no side is given.
    pub open spec fn holds_side(self, from: int, color: Option<PieceColor>) -> bool {
        &&& self.cells()[from] is Some
        &&& match color {
            Some(c) => self.cells()[from].unwrap().side() == c,
            None => true,
        }
    }

    /// `r` lists, without repeats and in no promised order, exactly the
    /// moves that can be made from square `from`.
    pub open spec fn lists_moves_from(self, from: int, r: Seq<Move>) -> bool {
        &&& forall|k: int|
            0 <= k < r.len() ==> (#[trigger] r[k]).wf() && ends(r[k]).0 == from && self.is_legal(
                from,
                ends(r[k]).1,
            )
        &&& forall|to: int|
            #[trigger] self.is_legal(from, to) ==> exists|k: int|
                0 <= k < r.len() && #[trigger] ends(r[k]) == (from, to)
        &&& r.no_duplicates()
    }

    /// `r` lists, without repeats and in no promised order, exactly the moves
    /// that can be made by pieces of side `color` (of either side where none
    /// is given).
    pub open spec fn lists_all_moves(self, color: Option<PieceColor>, r: Seq<Move>) -> bool {
        &&& forall|k: int|
            0 <= k < r.len() ==> (#[trigger] r[k]).wf() && self.is_legal(ends(r[k]).0, ends(r[k]).1)
                && self.holds_side(ends(r[k]).0, color)
        &&& forall|from: int, to: int|
            #[trigger] self.is_legal(from, to) && self.holds_side(from, color) ==> exists|k: int|
                0 <= k < r.len() && #[trigger] ends(r[k]) == (from, to)
        &&& r.no_duplicates()
    }

    /// Side `c` has some move that can be made.
    pub open spec fn has_legal_move(self, c: PieceColor) -> bool {
        exists|from: int, to: int| #[trigger] self.is_legal(from, to) && self.holds_side(from, Some(c))
    }

    /// The position as it stands for side `c`, about to move.
    pub open spec fn outcome(self, c: PieceColor) -> PostMoveState {
        let attacked = self.king_attacked(c, None);
        let moves = self.has_legal_move(c);
        if attacked && moves {
            PostMoveState::Check
        } else if attacked {
            PostMoveState::Checkmate
        } else if moves {
            PostMoveState::Normal
        } else {
            PostMoveState::Stalemate
        }
    }

    /// Contents of the squares once the piece on `from` has moved to `to`.
    pub open spec fn moved(self, from: int, to: int) -> Seq<Option<Piece>> {
        self.cells().update(from, None).update(to, Some(self.cells()[from].unwrap().after_move()))
    }

    /// A move onto a square held by a piece of the mover's own side fails with
    /// `FriendlyFire`, whatever the pieces and the shape of the move.
    pub proof fn lemma_friendly_fire(self, from: int, to: int)
        requires
            self.cells()[from] is Some,
            self.cells()[to] is Some,
            self.cells()[from].unwrap().side() == self.cells()[to].unwrap().side(),
        ensures
            self.legality(from, to) == Err::<(), MoveFailReason>(MoveFailReason::FriendlyFire),
    {
    }

    /// A move from an empty square fails with `NoSourcePiece`.
    pub proof fn lemma_no_source_piece(self, from: int, to: int)
        requires
            self.cells()[from] is None,
        ensures
            self.legality(from, to) == Err::<(), MoveFailReason>(MoveFailReason::NoSourcePiece),
    {
    }

    /// Every move of one complete listing of the moves of `color` is in any other.
    proof fn lemma_listed_in(self, color: Option<PieceColor>, a: Seq<Move>, b: Seq<Move>, k: int)
        requires
            self.lists_all_moves(color, a),
            self.lists_all_moves(color, b),
            0 <= k < a.len(),
        ensures
            b.contains(a[k]),
    {
        let m = a[k];
        assert(self.is_legal(ends(m).0, ends(m).1));
        let j = choose|j: int| 0 <= j < b.len() && #[trigger] ends(b[j]) == ends(m);
        assert(b[j].wf());
        Square::lemma_index_injective(b[j].source(), m.source());
        Square::lemma_index_injective(b[j].target(), m.target());
        m.lemma_eq_ends(b[j]);
    }

    /// Listing the moves of `color` twice, with no change to the board in
    /// between, gives the same set of moves.
    pub proof fn lemma_moves_repeatable(
        self,
        color: Option<PieceColor>,
        first: Seq<Move>,
        second: Seq<Move>,
    )
        requires
            self.lists_all_moves(color, first),
            self.lists_all_moves(color, second),
        ensures
            first.to_set() == second.to_set(),
    {
        assert forall|m: Move| first.contains(m) implies second.contains(m) by {
            let k = choose|k: int| 0 <= k < first.len() && first[k] == m;
            self.lemma_listed_in(color, first, second, k);
        }
        assert forall|m: Move| second.contains(m) implies first.contains(m) by {
            let k = choose|k: int| 0 <= k < second.len() && second[k] == m;
            self.lemma_listed_in(color, second, first, k);
        }
        assert(first.to_set() =~= second.to_set());
    }

    /// A pinned piece: where the only king of side `c` stands on `ki`, an
    /// opposing rook or queen on `qi` shares its rank or file (or, for a
    /// queen, its diagonal), and the piece of side `c` on `bi` is the only
    /// piece between them, a move of that piece to any square `ei` off that
    /// line segment (other than `qi` itself) that its rules of movement allow
    /// fails with `KingAttacked`.
    pub proof fn lemma_pinned_piece(self, c: PieceColor, ki: int, bi: int, qi: int, ei: int)
        requires
            0 <= ki < 64,
            0 <= bi < 64,
            0 <= qi < 64,
            0 <= ei < 64,
            self.cells()[ki] is Some,
            self.cells()[ki].unwrap().kind() == PieceType::King,
            self.cells()[ki].unwrap().side() == c,
            forall|j: int|
                0 <= j < 64 && j != ki && (#[trigger] self.cells()[j]) is Some ==> !(
                self.cells()[j].unwrap().kind() == PieceType::King && self.cells()[j].unwrap().side()
                    == c),
            self.cells()[bi] is Some,
            self.cells()[bi].unwrap().side() == c,
            self.cells()[qi] is Some,
            self.cells()[qi].unwrap().side() == c.other(),
            ({
                let kind = self.cells()[qi].unwrap().kind();
                let dx = distance(file_of(qi), file_of(ki));
                let dy = distance(rank_of(qi), rank_of(ki));
                (kind == PieceType::Rook || kind == PieceType::Queen) && (dx == 0 || dy == 0 || (
                kind == PieceType::Queen && dx == dy))
            }),
            exists|t: int| 0 < t < line_length(qi, ki) && #[trigger] line_point(qi, ki, t) == bi,
            forall|t: int|
                0 < t < line_length(qi, ki) && #[trigger] line_point(qi, ki, t) != bi ==> self.cells()[line_point(qi, ki, t)] is None,
            forall|t: int| 0 < t < line_length(qi, ki) ==> #[trigger] line_point(qi, ki, t) != ei,
            ei != qi,
            self.reach(bi, ei, None) is Ok,
        ensures
            self.legality(bi, ei) == Err::<(), MoveFailReason>(MoveFailReason::KingAttacked),
    {
        let ov = Some((bi, ei));
        let t0 = choose|t: int| 0 < t < line_length(qi, ki) && #[trigger] line_point(qi, ki, t) == bi;
        assert(bi != ki);
        assert(ei != ki);
        assert forall|j: int| 0 <= j < ki implies !#[trigger] self.is_king_of(j, c, ov) by {}
        assert(self.first_king(ki, c, ov));
        assert(self.path_clear(qi, ki, ov));
        assert(self.attacks_from(qi, ki, c.other(), ov));
        assert(self.king_attacked(c, ov));
    }

    /// An empty board.
    pub fn new_clear() -> (r: Board)
        ensures
            forall|i: int| 0 <= i < 64 ==> r.cells()[i] is None,
    {
        Board { pieces: [None; 64] }
    }

    /// A board in the standard starting position.
    pub fn new() -> (r: Board)
        ensures
            forall|i: int| 0 <= i < 64 ==> holds_fresh(#[trigger] r.cells()[i], standard_setup(i)),
    {
        let mut board = Board::new_clear();
        let mut x: u8 = 0;
        while x < 8
            invariant
                x <= 8,
                forall|i: int|
                    0 <= i < 64 ==> if file_of(i) < x {
                        holds_fresh(#[trigger] board.cells()[i], standard_setup(i))
                    } else {
                        board.cells()[i] is None
                    },
            decreases 8 - x,
        {
            let kind = back_rank_piece(x);
            let ghost before = board.cells();
            board.pieces[Square::new(x, 0).to_index()] = Some(Piece::new(kind, PieceColor::WHITE));
            board.pieces[Square::new(x, 1).to_index()] = Some(
                Piece::new(PieceType::Pawn, PieceColor::WHITE),
            );
            board.pieces[Square::new(x, 6).to_index()] = Some(
                Piece::new(PieceType::Pawn, PieceColor::BLACK),
            );
            board.pieces[Square::new(x, 7).to_index()] = Some(Piece::new(kind, PieceColor::BLACK));
            proof {
                assert forall|i: int| 0 <= i < 64 implies if file_of(i) < x + 1 {
                    holds_fresh(#[trigger] board.cells()[i], standard_setup(i))
                } else {
                    board.cells()[i] is None
                } by {
                    assert(i == file_of(i) + 8 * rank_of(i));
                    assert(0 <= rank_of(i) < 8);
                    if i != x && i != x + 8 && i != x + 48 && i != x + 56 {
                        assert(board.cells()[i] == before[i]);
                        if file_of(i) == x {
                            assert(2 <= rank_of(i) <= 5);
                        }
                    }
                }
            }
            x = x + 1;
        }
        board
    }

    /// The piece on square `index`.
    fn get_piece_at_index(&self, index: usize) -> (r: Option<&Piece>)
        requires
            index < 64,
        ensures
            shows(r, self.cells()[index as int]),
    {
        match &self.pieces[index] {
            Some(p) => Some(p),
            None => None,
        }
    }

    /// The piece on `square`, if any.
    pub fn get_piece(&self, square: Square) -> (r: Option<&Piece>)
        ensures
            shows(r, self.cells()[square.index()]),
    {
        self.get_piece_at_index(square.to_index())
    }

    /// The piece on square `index` when `sm`, if any, is imagined made.
    fn get_piece_at_index_after_move(&self, index: usize, sm: Option<Move>) -> (r: Option<Piece>)
        requires
            index < 64,
        ensures
            r == self.occupant(index as int, overlay(sm)),
    {
        match sm {
            Some(sm) => {
                if index == sm.start().to_index() {
                    None
                } else if index == sm.end().to_index() {
                    self.pieces[sm.start().to_index()]
                } else {
                    self.pieces[index]
                }
            },
            None => self.pieces[index],
        }
    }

    /// The piece on `square` when `sm`, if any, is imagined made.
    fn get_piece_after_move(&self, square: Square, sm: Option<Move>) -> (r: Option<Piece>)
        ensures
            r == self.occupant(square.index(), overlay(sm)),
    {
        self.get_piece_at_index_after_move(square.to_index(), sm)
    }

    /// Whether every square strictly between the ends of `m` is empty when
    /// `sm`, if any, is imagined made.
    fn path_clear_after_move(&self, m: Move, sm: Option<Move>) -> (r: bool)
        requires
            aligned(ends(m).0, ends(m).1),
        ensures
            r == self.path_clear(ends(m).0, ends(m).1, overlay(sm)),
    {
        proof {
            use_type_invariant(&m);
            Square::lemma_index_round_trip(m.source());
            Square::lemma_index_round_trip(m.target());
        }
        let ghost from = ends(m).0;
        let ghost to = ends(m).1;
        let ghost n = line_length(from, to);
        proof {
            Square::lemma_eq_coords(m.source(), m.target());
        }
        let mut line = LineMovement::from(m);
        let ghost mut k: int = 0;
        loop
            invariant
                line.goal() == m.target(),
                !line.inclusive(),
                m.source().wf(),
                m.target().wf(),
                from == m.source().index(),
                to == m.target().index(),
                file_of(from) == m.source().file(),
                rank_of(from) == m.source().rank(),
                file_of(to) == m.target().file(),
                rank_of(to) == m.target().rank(),
                aligned(from, to),
                n == line_length(from, to),
                0 <= k < n,
                line.position().file() == offset_toward(file_of(from), file_of(to), k),
                line.position().rank() == offset_toward(rank_of(from), rank_of(to), k),
                forall|j: int|
                    0 < j <= k ==> (#[trigger] self.occupant(line_point(from, to, j), overlay(sm)))
                        is None,
            decreases n - k,
        {
            proof {
                Square::lemma_eq_coords(line.position(), line.goal());
            }
            let next = line.next();
            proof {
                Square::lemma_eq_coords(line.position(), line.goal());
            }
            match next {
                None => {
                    return true;
                },
                Some(pos) => {
                    proof {
                        k = k + 1;
                    }
                    if self.get_piece_after_move(pos, sm).is_some() {
                        proof {
                            assert(pos.index() == line_point(from, to, k));
                            assert(k < n);
                            assert(self.occupant(line_point(from, to, k), overlay(sm)) is Some);
                        }
                        return false;
                    }
                },
            }
        }
    }

    /// Whether the piece on the start of `m` can reach its end when `sm`, if
    /// any, is imagined made, by the rules of movement alone.
    fn check_reach_after_move(&self, m: Move, sm: Option<Move>) -> (r: Result<(), MoveFailReason>)
        ensures
            r == self.reach(ends(m).0, ends(m).1, overlay(sm)),
    {
        proof {
            use_type_invariant(&m);
            Square::lemma_index_round_trip(m.source());
            Square::lemma_index_round_trip(m.target());
        }
        let (src, dst) = m.to_squares();
        let source_piece = self.get_piece_after_move(src, sm);
        let destination_piece = self.get_piece_after_move(dst, sm);
        match source_piece {
            None => Err(MoveFailReason::NoSourcePiece),
            Some(source_piece) => {
                let dest_occupied = match destination_piece {
                    Some(destination_piece) => {
                        if source_piece.color() == destination_piece.color() {
                            return Err(MoveFailReason::FriendlyFire);
                        }
                        true
                    },
                    None => false,
                };
                let (can_move, validate_block) = source_piece.can_move_to(m, dest_occupied);
                let move_possible = if validate_block && can_move {
                    self.path_clear_after_move(m, sm)
                } else {
                    can_move
                };
                if move_possible {
                    Ok(())
                } else {
                    Err(MoveFailReason::IllegalMove)
                }
            },
        }
    }

    /// Whether `square` is attacked by side `color` when `sm`, if any, is imagined made.
    fn is_square_attacked_after_move(&self, square: Square, color: PieceColor, sm: Option<Move>) -> (r: bool)
        ensures
            r == self.attacked(square.index(), color, overlay(sm)),
    {
        let target = square.to_index();
        let mut i: usize = 0;
        while i < 64
            invariant
                i <= 64,
                target == square.index(),
                forall|j: int|
                    0 <= j < i ==> !#[trigger] self.attacks_from(j, target as int, color, overlay(sm)),
            decreases 64 - i,
        {
            if i != target {
                match self.get_piece_at_index_after_move(i, sm) {
                    Some(piece) => {
                        if piece.color() == color {
                            let start = Square::from_index(i);
                            let m = Move::new(start, square);
                            if self.check_reach_after_move(m, sm).is_ok() {
                                proof {
                                    assert(self.attacks_from(i as int, target as int, color, overlay(sm)));
                                }
                                return true;
                            }
                        }
                    },
                    None => {},
                }
            }
            i = i + 1;
        }
        false
    }

    /// Whether `square` is attacked by side `color`: some piece of that side on
    /// another square can reach it by the rules of movement.
    pub fn is_square_attacked(&self, square: Square, color: PieceColor) -> (r: bool)
        ensures
            r == self.attacked(square.index(), color, None),
    {
        self.is_square_attacked_after_move(square, color, None)
    }

    /// Whether the king of side `color` is attacked when `sm`, if any, is imagined made.
    fn is_king_attacked_after_move(&self, color: PieceColor, sm: Option<Move>) -> (r: bool)
        ensures
            r == self.king_attacked(color, overlay(sm)),
    {
        let mut i: usize = 0;
        while i < 64
            invariant
                i <= 64,
                forall|j: int| 0 <= j < i ==> !#[trigger] self.is_king_of(j, color, overlay(sm)),
            decreases 64 - i,
        {
            match self.get_piece_at_index_after_move(i, sm) {
                Some(piece) => {
                    if piece.piece_type() == PieceType::King && piece.color() == color {
                        let square = Square::from_index(i);
                        let r = self.is_square_attacked_after_move(square, color.opposite(), sm);
                        proof {
                            assert(self.first_king(i as int, color, overlay(sm)));
                            assert forall|k: int| #[trigger]
                                self.first_king(k, color, overlay(sm)) implies k == i by {
                                if k > i {
                                    assert(self.is_king_of(i as int, color, overlay(sm)));
                                }
                            }
                        }
                        return r;
                    }
                },
                None => {},
            }
            i = i + 1;
        }
        false
    }

    /// Whether the king of side `color` is attacked.
    pub fn is_king_attacked(&self, color: PieceColor) -> (r: bool)
        ensures
            r == self.king_attacked(color, None),
    {
        self.is_king_attacked_after_move(color, None)
    }

    /// Checks move `m`: `Ok` when it can be made, else the reason it cannot.
    pub fn check_move_possibility(&self, m: Move) -> (r: Result<(), MoveFailReason>)
        ensures
            r == self.legality(ends(m).0, ends(m).1),
    {
        match self.check_reach_after_move(m, None) {
            Err(e) => Err(e),
            Ok(()) => {
                match self.get_piece_after_move(m.start(), None) {
                    Some(piece) => {
                        if self.is_king_attacked_after_move(piece.color(), Some(m)) {
                            Err(MoveFailReason::KingAttacked)
                        } else {
                            Ok(())
                        }
                    },
                    // not reached: a move that passed the check starts on a piece
                    None => Err(MoveFailReason::NoSourcePiece),
                }
            },
        }
    }

    /// Every move that can be made from `start`.
    pub fn all_possible_moves_from_square(&self, start: Square) -> (r: Vec<Move>)
        ensures
            forall|k: int| 0 <= k < r.len() ==> (#[trigger] r[k]).source() == start,
            self.lists_moves_from(start.index(), r@),
    {
        let from = start.to_index();
        let mut result: Vec<Move> = Vec::new();
        let mut i: usize = 0;
        while i < 64
            invariant
                i <= 64,
                from == start.index(),
                forall|k: int|
                    0 <= k < result.len() ==> (#[trigger] result[k]).wf() && result[k].source()
                        == start && ends(result[k]).0 == from && self.is_legal(
                        from as int,
                        ends(result[k]).1,
                    ) && ends(result[k]).1 < i,
                forall|to: int|
                    0 <= to < i && #[trigger] self.is_legal(from as int, to) ==> exists|k: int|
                        0 <= k < result.len() && #[trigger] ends(result[k]) == (from as int, to),
                forall|a: int, b: int|
                    0 <= a < b < result.len() ==> move_key(result[a]) < move_key(result[b]),
            decreases 64 - i,
        {
            if i != from {
                let end = Square::from_index(i);
                let m = Move::new(start, end);
                if self.check_move_possibility(m).is_ok() {
                    proof {
                        use_type_invariant(&m);
                    }
                    let ghost before = result@;
                    result.push(m);
                    proof {
                        assert(result@[before.len() as int] == m);
                        assert(ends(m) == (from as int, i as int));
                        assert forall|k: int| 0 <= k < result.len() implies (#[trigger] result[k]).wf()
                            && result[k].source() == start && ends(result[k]).0 == from
                            && self.is_legal(from as int, ends(result[k]).1) && ends(result[k]).1 < i
                            + 1 by {
                            if k < before.len() {
                                assert(result[k] == before[k]);
                            }
                        }
                        assert forall|a: int, b: int|
                            0 <= a < b < result.len() implies move_key(result[a]) < move_key(
                            result[b],
                        ) by {
                            assert(result[a] == before[a]);
                            if b < before.len() {
                                assert(result[b] == before[b]);
                            }
                        }
                        assert forall|to: int|
                            0 <= to < i + 1 && #[trigger] self.is_legal(from as int, to) implies exists|k: int|
                            0 <= k < result.len() && #[trigger] ends(result[k]) == (from as int, to) by {
                            if to == i {
                                assert(ends(result[before.len() as int]) == (from as int, to));
                            } else {
                                let k = choose|k: int|
                                    0 <= k < before.len() && #[trigger] ends(before[k]) == (from as int, to);
                                assert(ends(result[k]) == (from as int, to));
                            }
                        }
                    }
                }
            }
            i = i + 1;
        }
        proof {
            assert forall|a: int, b: int|
                0 <= a < result.len() && 0 <= b < result.len() && a != b implies result[a]
                != result[b] by {
                if a < b {
                    assert(move_key(result[a]) < move_key(result[b]));
                } else {
                    assert(move_key(result[b]) < move_key(result[a]));
                }
            }
        }
        result
    }

    /// Every move that can be made by a piece of side `color`, or by any piece
    /// where no side is given.
    pub fn all_possible_moves(&self, color: Option<PieceColor>) -> (r: Vec<Move>)
        ensures
            self.lists_all_moves(color, r@),
    {
        let mut result: Vec<Move> = Vec::new();
        let mut i: usize = 0;
        while i < 64
            invariant
                i <= 64,
                forall|k: int|
                    0 <= k < result.len() ==> (#[trigger] result[k]).wf() && self.is_legal(
                        ends(result[k]).0,
                        ends(result[k]).1,
                    ) && self.holds_side(ends(result[k]).0, color) && ends(result[k]).0 < i,
                forall|from: int, to: int|
                    0 <= from < i && #[trigger] self.is_legal(from, to) && self.holds_side(from, color)
                        ==> exists|k: int|
                        0 <= k < result.len() && #[trigger] ends(result[k]) == (from, to),
                result@.no_duplicates(),
            decreases 64 - i,
        {
            let matches = match self.pieces[i] {
                Some(piece) => match color {
                    Some(c) => piece.color() == c,
                    None => true,
                },
                None => false,
            };
            if matches {
                let start = Square::from_index(i);
                let mut moves = self.all_possible_moves_from_square(start);
                let ghost before = result@;
                let ghost added = moves@;
                result.append(&mut moves);
                proof {
                    assert(result@ == before + added);
                    assert forall|k: int| 0 <= k < result.len() implies (#[trigger] result[k]).wf()
                        && self.is_legal(ends(result[k]).0, ends(result[k]).1) && self.holds_side(
                        ends(result[k]).0,
                        color,
                    ) && ends(result[k]).0 < i + 1 by {
                        if k >= before.len() {
                            assert(added[k - before.len()] == result[k]);
                        }
                    }
                    assert forall|from: int, to: int|
                        0 <= from < i + 1 && #[trigger] self.is_legal(from, to) && self.holds_side(
                            from,
                            color,
                        ) implies exists|k: int|
                        0 <= k < result.len() && #[trigger] ends(result[k]) == (from, to) by {
                        if from == i {
                            let j = choose|j: int|
                                0 <= j < added.len() && #[trigger] ends(added[j]) == (from, to);
                            assert(ends(result[before.len() + j]) == (from, to));
                        } else {
                            let j = choose|j: int|
                                0 <= j < before.len() && #[trigger] ends(before[j]) == (from, to);
                            assert(ends(result[j]) == (from, to));
                        }
                    }
                    assert forall|a: int, b: int|
                        0 <= a < result.len() && 0 <= b < result.len() && a != b implies result[a]
                        != result[b] by {
                        if a >= before.len() {
                            assert(added[a - before.len()] == result[a]);
                        }
                        if b >= before.len() {
                            assert(added[b - before.len()] == result[b]);
                        }
                    }
                }
            }
            i = i + 1;
        }
        result
    }

    /// Makes move `m` if it can be made, and classifies the position for the
    /// other side; otherwise leaves the board as it was and gives the reason.
    pub fn perform_move(&mut self, m: Move) -> (r: Result<PostMoveState, MoveFailReason>)
        ensures
            match old(self).legality(ends(m).0, ends(m).1) {
                Err(e) => r == Err::<PostMoveState, MoveFailReason>(e) && final(self).cells() == old(
                    self,
                ).cells(),
                Ok(_) => final(self).cells() == old(self).moved(ends(m).0, ends(m).1) && r == Ok::<
                    PostMoveState,
                    MoveFailReason,
                >(final(self).outcome(old(self).cells()[ends(m).0].unwrap().side().other())),
            },
    {
        match self.check_move_possibility(m) {
            Ok(_) => {
                let src = m.start().to_index();
                let dst = m.end().to_index();
                proof {
                    use_type_invariant(&m);
                    if m.source().index() == m.target().index() {
                        Square::lemma_index_injective(m.source(), m.target());
                    }
                }
                match self.pieces[src] {
                    Some(piece) => {
                        let mut piece = piece;
                        proof {
                            piece.lemma_after_move();
                        }
                        piece.move_piece();
                        self.pieces[src] = None;
                        self.pieces[dst] = Some(piece);
                        let next_color = piece.color().opposite();
                        proof {
                            assert(self.cells() =~= old(self).moved(src as int, dst as int));
                        }
                        let king_attacked = self.is_king_attacked(next_color);
                        let moves = self.all_possible_moves(Some(next_color));
                        let has_moves = moves.len() > 0;
                        proof {
                            if has_moves {
                                assert(self.is_legal(ends(moves[0]).0, ends(moves[0]).1));
                            }
                            if self.has_legal_move(next_color) {
                                let (from, to) = choose|from: int, to: int|
                                    #[trigger] self.is_legal(from, to) && self.holds_side(
                                        from,
                                        Some(next_color),
                                    );
                                assert(exists|k: int|
                                    0 <= k < moves.len() && #[trigger] ends(moves[k]) == (from, to));
                            }
                            assert(has_moves == self.has_legal_move(next_color));
                        }
                        if king_attacked && has_moves {
                            Ok(PostMoveState::Check)
                        } else if king_attacked {
                            Ok(PostMoveState::Checkmate)
                        } else if has_moves {
                            Ok(PostMoveState::Normal)
                        } else {
                            Ok(PostMoveState::Stalemate)
                        }
                    },
                    // not reached: a move that passed the check starts on a piece
                    None => Err(MoveFailReason::NoSourcePiece),
                }
            },
            Err(e) => Err(e),
        }
    }

    /// Every square with what stands on it, by index.
    pub fn squares(&self) -> (r: Vec<(Square, Option<Piece>)>)
        ensures
            r.len() == 64,
            forall|i: int|
                0 <= i < 64 ==> (#[trigger] r[i]).0 == Square::at_index(i) && r[i].1 == self.cells()[i],
    {
        let mut result: Vec<(Square, Option<Piece>)> = Vec::new();
        let mut i: usize = 0;
        while i < 64
            invariant
                i <= 64,
                result.len() == i,
                forall|j: int|
                    0 <= j < i ==> (#[trigger] result[j]).0 == Square::at_index(j) && result[j].1
                        == self.cells()[j],
            decreases 64 - i,
        {
            result.push((Square::from_index(i), self.pieces[i]));
            i = i + 1;
        }
        result
    }

    /// Every piece of side `color` (of either side where none is given) with
    /// its square, by index.
    pub fn pieces(&self, color: Option<PieceColor>) -> (r: Vec<(Square, Piece)>)
        ensures
            forall|k: int|
                0 <= k < r.len() ==> (#[trigger] r[k]).0.wf() && self.holds_side(r[k].0.index(), color)
                    && self.cells()[r[k].0.index()] == Some(r[k].1),
            forall|i: int|
                0 <= i < 64 && #[trigger] self.holds_side(i, color) ==> exists|k: int|
                    0 <= k < r.len() && (#[trigger] r[k]).0.index() == i,
            forall|a: int, b: int| 0 <= a < b < r.len() ==> r[a].0.index() < r[b].0.index(),
    {
        let mut result: Vec<(Square, Piece)> = Vec::new();
        let mut i: usize = 0;
        while i < 64
            invariant
                i <= 64,
                forall|k: int|
                    0 <= k < result.len() ==> (#[trigger] result[k]).0.wf() && self.holds_side(
                        result[k].0.index(),
                        color,
                    ) && self.cells()[result[k].0.index()] == Some(result[k].1) && result[k].0.index()
                        < i,
                forall|j: int|
                    0 <= j < i && #[trigger] self.holds_side(j, color) ==> exists|k: int|
                        0 <= k < result.len() && (#[trigger] result[k]).0.index() == j,
                forall|a: int, b: int|
                    0 <= a < b < result.len() ==> result[a].0.index() < result[b].0.index(),
            decreases 64 - i,
        {
            match self.pieces[i] {
                Some(piece) => {
                    let matches = match color {
                        Some(c) => piece.color() == c,
                        None => true,
                    };
                    if matches {
                        let square = Square::from_index(i);
                        let ghost before = result@;
                        result.push((square, piece));
                        proof {
                            assert(result[before.len() as int].0.index() == i);
                            assert forall|k: int| 0 <= k < result.len() implies (#[trigger] result[k]).0.wf()
                                && self.holds_side(result[k].0.index(), color) && self.cells()[result[k].0.index()]
                                == Some(result[k].1) && result[k].0.index() < i + 1 by {
                                if k < before.len() {
                                    assert(result[k] == before[k]);
                                }
                            }
                            assert forall|j: int|
                                0 <= j < i + 1 && #[trigger] self.holds_side(j, color) implies exists|k: int|
                                0 <= k < result.len() && (#[trigger] result[k]).0.index() == j by {
                                if j < i {
                                    let k = choose|k: int|
                                        0 <= k < before.len() && (#[trigger] before[k]).0.index() == j;
                                    assert(result[k] == before[k]);
                                }
                            }
                            assert forall|a: int, b: int|
                                0 <= a < b < result.len() implies result[a].0.index() < result[b].0.index() by {
                                assert(result[a] == before[a]);
                                if b < before.len() {
                                    assert(result[b] == before[b]);
                                }
                            }
                        }
                    }
                },
                None => {},
            }
            i = i + 1;
        }
        result
    }

    /// Places `piece` on `square`, or empties it; meant for setting up a position.
    pub fn set(&mut self, square: Square, piece: Option<Piece>)
        ensures
            final(self).cells() == old(self).cells().update(square.index(), piece),
    {
        self.pieces[square.to_index()] = piece;
        proof {
            assert(final(self).cells() =~= old(self).cells().update(square.index(), piece));
        }
    }
}

} // verus!
