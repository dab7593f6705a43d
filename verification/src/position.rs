//! The mathematical model of a chess position and of applying a move to it.
//!
//! A [`Position`] maps each occupied square to the color and kind of the piece
//! on it. Every contract of [`crate::game::Game`] that speaks of more than one
//! square is stated over this model.
use crate::attacks::{
    bishop_reaches, forward, king_step, knight_step, pawn_attack_step, queen_reaches,
    rook_reaches,
};
use crate::{Color, Move, Piece, Square};
use vstd::prelude::*;

verus! {

/// Why a move cannot be applied to a position.
#[derive(Debug, Copy, Clone, Eq, PartialEq, Structural)]
pub enum IllegalMove {
    /// No piece stands on the start square.
    NoPiece,
    /// A piece of the mover's own color stands on the end square.
    OwnPieceOnTarget,
    /// The king makes a castling move, but its rook is not on the corner or
    /// the square the rook has to land on is occupied.
    NoRookToCastle,
}

/// Why a position cannot be queried for king-relative facts.
#[derive(Debug, Copy, Clone, Eq, PartialEq, Structural)]
pub enum InvalidPosition {
    /// The side has no king on the board.
    NoKing,
}

/// A chess position: what stands where, who is to move, which castling
/// rights are left, the en-passant target and the two clocks.
pub struct Position {
    pub board: Board,
    pub to_move: Color,
    pub castling_rights: u8,
    pub en_passant_square: Option<Square>,
    pub halfmove_clock: nat,
    pub fullmove_clock: nat,
}

/// The castling flags that are lost when the piece `(color, piece)` leaves
/// its square `s` or is captured there: both flags of a side for its king on
/// its home square, one flag for a rook on its home corner, none otherwise.
pub open spec fn home_rights(s: Square, color: Color, piece: Piece) -> u8 {
    if color == Color::WHITE && piece == Piece::KING && s == Square::E1 {
        3
    } else if color == Color::WHITE && piece == Piece::ROOK && s == Square::H1 {
        1
    } else if color == Color::WHITE && piece == Piece::ROOK && s == Square::A1 {
        2
    } else if color == Color::BLACK && piece == Piece::KING && s == Square::E8 {
        12
    } else if color == Color::BLACK && piece == Piece::ROOK && s == Square::A8 {
        4
    } else if color == Color::BLACK && piece == Piece::ROOK && s == Square::H8 {
        8
    } else {
        0
    }
}

/// The rights `rights` without the flags `lost`.
pub open spec fn without_rights(rights: u8, lost: u8) -> u8 {
    if lost == 0 {
        rights
    } else {
        rights & !lost
    }
}

/// Whether `m` is one of the four castling moves of a king: e1 to c1 or g1
/// for white, e8 to c8 or g8 for black.
pub open spec fn is_castle_move(m: Move, piece: Piece, color: Color) -> bool {
    piece == Piece::KING && match color {
        Color::WHITE => m.start == Square::E1 && (m.end == Square::C1 || m.end == Square::G1),
        Color::BLACK => m.start == Square::E8 && (m.end == Square::C8 || m.end == Square::G8),
    }
}

/// The move that the rook makes when the king castles to `king_end`.
pub open spec fn castle_rook_move(king_end: Square) -> Move {
    if king_end == Square::C1 {
        Move { start: Square::A1, end: Square::D1 }
    } else if king_end == Square::G1 {
        Move { start: Square::H1, end: Square::F1 }
    } else if king_end == Square::C8 {
        Move { start: Square::A8, end: Square::D8 }
    } else {
        Move { start: Square::H8, end: Square::F8 }
    }
}

/// The rank on which the pawns of a color start.
pub open spec fn pawn_home_rank(color: Color) -> int {
    match color {
        Color::WHITE => 1,
        Color::BLACK => 6,
    }
}

/// The square one rank behind `s` as seen by `color`: toward that side's own
/// back rank. `None` when `s` is on that back rank.
pub open spec fn square_behind(s: Square, color: Color) -> Option<Square> {
    let rank = s.rank() - forward(color);
    if 0 <= rank < 8 {
        Some(Square::at(8 * rank + s.file()))
    } else {
        None
    }
}

/// Whether a piece of the given kind and color on `from` attacks `to` when
/// the squares in `occ` are occupied.
pub open spec fn piece_attacks(
    piece: Piece,
    color: Color,
    occ: Set<Square>,
    from: Square,
    to: Square,
) -> bool {
    match piece {
        Piece::PAWN => pawn_attack_step(color, from, to),
        Piece::KNIGHT => knight_step(from, to),
        Piece::BISHOP => bishop_reaches(occ, from, to),
        Piece::ROOK => rook_reaches(occ, from, to),
        Piece::QUEEN => queen_reaches(occ, from, to),
        Piece::KING => king_step(from, to),
    }
}

/// A board: the occupied squares with the color and kind of their pieces.
pub type Board = Map<Square, (Color, Piece)>;

/// Whether a piece of `color` stands on `from` and attacks `target`.
pub open spec fn attacks_from(board: Board, color: Color, from: Square, target: Square) -> bool {
    board.dom().contains(from) && board[from].0 == color && piece_attacks(
        board[from].1,
        color,
        board.dom(),
        from,
        target,
    )
}

/// Whether some piece of `color` attacks `target`.
pub open spec fn attacked(board: Board, color: Color, target: Square) -> bool {
    exists|from: Square| attacks_from(board, color, from, target)
}

/// Whether a king of `color` stands on `s`.
pub open spec fn king_on(board: Board, color: Color, s: Square) -> bool {
    board.dom().contains(s) && board[s] == (color, Piece::KING)
}

/// Whether `color` has a king on the board.
pub open spec fn has_king(board: Board, color: Color) -> bool {
    exists|s: Square| king_on(board, color, s)
}

/// Whether `s` is the king square of `color`: the lowest square that holds
/// a king of that color.
pub open spec fn is_king_square(board: Board, color: Color, s: Square) -> bool {
    king_on(board, color, s) && forall|t: Square|
        king_on(board, color, t) ==> s.index() <= t.index()
}

/// Whether the king of `color` is attacked by the other side.
pub open spec fn in_check(board: Board, color: Color) -> bool {
    exists|s: Square| is_king_square(board, color, s) && attacked(board, color.other(), s)
}

impl Position {
    /// Whether a piece stands on `s`.
    pub open spec fn occupied(self, s: Square) -> bool {
        self.board.dom().contains(s)
    }

    /// Whether the piece `(color, piece)` stands on `s`.
    pub open spec fn holds(self, s: Square, color: Color, piece: Piece) -> bool {
        self.board.dom().contains(s) && self.board[s] == (color, piece)
    }

    /// The color of the piece on `s`, if there is one.
    pub open spec fn color_on(self, s: Square) -> Option<Color> {
        if self.occupied(s) {
            Some(self.board[s].0)
        } else {
            None
        }
    }

    /// The kind of the piece on `s`, if there is one.
    pub open spec fn piece_on(self, s: Square) -> Option<Piece> {
        if self.occupied(s) {
            Some(self.board[s].1)
        } else {
            None
        }
    }

    /// Whether `m` lands on a piece of the other color than the one it moves.
    pub open spec fn is_capture(self, m: Move) -> bool {
        self.occupied(m.start) && self.occupied(m.end) && self.board[m.start].0
            != self.board[m.end].0
    }

    /// The square of the pawn that `m` takes en passant, if it does: a pawn
    /// moves onto the empty en-passant target and a pawn of the other color
    /// stands one rank behind that target.
    pub open spec fn en_passant_victim(self, m: Move) -> Option<Square> {
        if self.occupied(m.start) && self.board[m.start].1 == Piece::PAWN && !self.occupied(m.end)
            && self.en_passant_square == Some(m.end) {
            let color = self.board[m.start].0;
            match square_behind(m.end, color) {
                Some(v) => if self.holds(v, color.other(), Piece::PAWN) {
                    Some(v)
                } else {
                    None
                },
                None => None,
            }
        } else {
            None
        }
    }

    /// The square whose piece `m` removes from the board, if any: the end
    /// square for a capture, the square behind it for a capture en passant.
    pub open spec fn captured_square(self, m: Move) -> Option<Square> {
        if self.is_capture(m) {
            Some(m.end)
        } else {
            self.en_passant_victim(m)
        }
    }

    /// Whether `m` is a pawn's double step: from its home rank two ranks
    /// forward on its file onto an empty square.
    pub open spec fn is_double_step(self, m: Move) -> bool {
        &&& self.occupied(m.start)
        &&& self.board[m.start].1 == Piece::PAWN
        &&& !self.occupied(m.end)
        &&& m.start.file() == m.end.file()
        &&& m.start.rank() == pawn_home_rank(self.board[m.start].0)
        &&& m.end.rank() == m.start.rank() + 2 * forward(self.board[m.start].0)
    }

    /// Whether `m` can be applied, and if not, why not. A move needs a piece
    /// on its start square and no piece of the same color on its end square;
    /// a castling move also needs the rook on its corner and the rook's
    /// landing square empty.
    pub open spec fn check_move(self, m: Move) -> Result<(), IllegalMove> {
        if !self.occupied(m.start) {
            Err(IllegalMove::NoPiece)
        } else {
            let (color, piece) = self.board[m.start];
            let rook = castle_rook_move(m.end);
            if self.occupied(m.end) && self.board[m.end].0 == color {
                Err(IllegalMove::OwnPieceOnTarget)
            } else if is_castle_move(m, piece, color) && !(self.holds(
                rook.start,
                color,
                Piece::ROOK,
            ) && !self.occupied(rook.end)) {
                Err(IllegalMove::NoRookToCastle)
            } else {
                Ok(())
            }
        }
    }

    /// The board after `m`: a castling king takes its rook along, a captured
    /// piece leaves the board, and the moving piece goes from the start to
    /// the end square.
    pub open spec fn board_after(self, m: Move) -> Map<Square, (Color, Piece)> {
        let (color, piece) = self.board[m.start];
        let rook = castle_rook_move(m.end);
        let castled = if is_castle_move(m, piece, color) {
            self.board.remove(rook.start).insert(rook.end, (color, Piece::ROOK))
        } else {
            self.board
        };
        let taken = match self.captured_square(m) {
            Some(v) => castled.remove(v),
            None => castled,
        };
        taken.remove(m.start).insert(m.end, (color, piece))
    }

    /// The castling rights after `m`: what a captured piece and the moving
    /// piece held for their home squares is lost.
    pub open spec fn rights_after(self, m: Move) -> u8 {
        let (color, piece) = self.board[m.start];
        let kept = match self.captured_square(m) {
            Some(v) => without_rights(
                self.castling_rights,
                home_rights(v, self.board[v].0, self.board[v].1),
            ),
            None => self.castling_rights,
        };
        without_rights(kept, home_rights(m.start, color, piece))
    }

    /// The en-passant target after `m`: the square a pawn passed over in a
    /// double step, and none after any other move.
    pub open spec fn en_passant_after(self, m: Move) -> Option<Square> {
        if self.is_double_step(m) {
            square_behind(m.end, self.board[m.start].0)
        } else {
            None
        }
    }

    /// The position after `m`, for a move that [`Position::check_move`]
    /// accepts.
    pub open spec fn after(self, m: Move) -> Position {
        Position {
            board: self.board_after(m),
            to_move: self.to_move.other(),
            castling_rights: self.rights_after(m),
            en_passant_square: self.en_passant_after(m),
            halfmove_clock: if self.board[m.start].1 == Piece::PAWN || self.is_capture(m) {
                0
            } else {
                self.halfmove_clock + 1
            },
            fullmove_clock: if self.to_move == Color::BLACK {
                self.fullmove_clock + 1
            } else {
                self.fullmove_clock
            },
        }
    }

    /// Whether some piece of `color` attacks `target`.
    pub open spec fn attacked_by(self, color: Color, target: Square) -> bool {
        attacked(self.board, color, target)
    }

    /// Whether a piece of `color` stands on `from` and attacks `target`.
    pub open spec fn attacks_from(self, color: Color, from: Square, target: Square) -> bool {
        attacks_from(self.board, color, from, target)
    }

    /// Whether `color` has a king on the board.
    pub open spec fn has_king(self, color: Color) -> bool {
        has_king(self.board, color)
    }

    /// Whether `s` is the king square of `color`: the lowest square that
    /// holds a king of that color.
    pub open spec fn is_king_square(self, color: Color, s: Square) -> bool {
        is_king_square(self.board, color, s)
    }

    /// Whether the king of `color` is attacked by the other side.
    pub open spec fn in_check(self, color: Color) -> bool {
        in_check(self.board, color)
    }

    /// Whether a piece of `color` stands on `s`.
    pub open spec fn own(self, color: Color, s: Square) -> bool {
        self.occupied(s) && self.board[s].0 == color
    }

    /// Whether a knight of `color` on `from` may go to `to`: a knight's step
    /// onto a square that holds no piece of its color.
    pub open spec fn knight_target(self, color: Color, from: Square, to: Square) -> bool {
        knight_step(from, to) && !self.own(color, to)
    }

    /// Whether a slider of the given kind and color on `from` may go to `to`:
    /// it attacks the square and no piece of its color stands there.
    pub open spec fn slider_target(
        self,
        piece: Piece,
        color: Color,
        from: Square,
        to: Square,
    ) -> bool {
        piece.is_slider() && piece_attacks(piece, color, self.board.dom(), from, to) && !self.own(
            color,
            to,
        )
    }

    /// Whether a pawn of `color` on `from` may go to `to`: one step forward
    /// onto an empty square, two steps from its home rank over an empty
    /// square onto an empty square, or one step diagonally forward onto an
    /// occupied square or the en-passant target; never onto a piece of its
    /// own color.
    pub open spec fn pawn_target(self, color: Color, from: Square, to: Square) -> bool {
        let dr = forward(color);
        let pushes = to.file() == from.file() && to.rank() == from.rank() + dr && !self.occupied(
            to,
        );
        let doubles = to.file() == from.file() && from.rank() == pawn_home_rank(color)
            && to.rank() == from.rank() + 2 * dr && !self.occupied(to) && !self.occupied(
            Square::at(8 * (from.rank() + dr) + from.file()),
        );
        let takes = pawn_attack_step(color, from, to) && (self.occupied(to)
            || self.en_passant_square == Some(to));
        (pushes || doubles || takes) && !self.own(color, to)
    }

    /// Whether `color` may castle to the given side: the right is left, king
    /// and rook stand on their home squares, the squares between them are
    /// empty, and the other side attacks neither the king's square nor the
    /// square it passes nor the square it lands on.
    pub open spec fn can_castle(self, color: Color, kingside: bool) -> bool {
        let king = castle_king_home(color);
        let rook = castle_rook_home(color, kingside);
        let pass = castle_pass(color, kingside);
        let land = castle_land(color, kingside);
        &&& has_right(self.castling_rights, castle_flag(color, kingside))
        &&& self.holds(king, color, Piece::KING)
        &&& self.holds(rook, color, Piece::ROOK)
        &&& !self.occupied(pass)
        &&& !self.occupied(land)
        &&& kingside || !self.occupied(castle_knight_home(color))
        &&& !self.attacked_by(color.other(), king)
        &&& !self.attacked_by(color.other(), pass)
        &&& !self.attacked_by(color.other(), land)
    }

    /// Whether a king of `color` on `from` may go to `to`: a king's step, or
    /// a castling move that [`Position::can_castle`] allows; never onto a
    /// piece of its own color.
    pub open spec fn king_target(self, color: Color, from: Square, to: Square) -> bool {
        (king_step(from, to) || (from == castle_king_home(color) && ((to == castle_land(
            color,
            true,
        ) && self.can_castle(color, true)) || (to == castle_land(color, false) && self.can_castle(
            color,
            false,
        ))))) && !self.own(color, to)
    }

    /// Whether `m` follows the way its piece moves: the piece belongs to the
    /// side to move and the end square is one of its targets. Whether the
    /// move leaves the own king attacked is not looked at.
    pub open spec fn pseudo_legal(self, m: Move) -> bool {
        self.own(self.to_move, m.start) && match self.board[m.start].1 {
            Piece::PAWN => self.pawn_target(self.to_move, m.start, m.end),
            Piece::KNIGHT => self.knight_target(self.to_move, m.start, m.end),
            Piece::KING => self.king_target(self.to_move, m.start, m.end),
            piece => self.slider_target(piece, self.to_move, m.start, m.end),
        }
    }

    /// Whether `m` is legal: it follows the way its piece moves, and after it
    /// the king of the side that moved is not attacked.
    pub open spec fn legal(self, m: Move) -> bool {
        self.pseudo_legal(m) && !self.after(m).in_check(self.to_move)
    }
}

/// Whether the castling rights hold the flag.
pub open spec fn has_right(rights: u8, flag: u8) -> bool {
    rights & flag != 0
}

/// The flag of the right of `color` to castle to a side.
pub open spec fn castle_flag(color: Color, kingside: bool) -> u8 {
    match (color, kingside) {
        (Color::WHITE, true) => 1,
        (Color::WHITE, false) => 2,
        (Color::BLACK, false) => 4,
        (Color::BLACK, true) => 8,
    }
}

/// The square from which the king of `color` castles.
pub open spec fn castle_king_home(color: Color) -> Square {
    match color {
        Color::WHITE => Square::E1,
        Color::BLACK => Square::E8,
    }
}

/// The corner on which the rook stands that castles with the king.
pub open spec fn castle_rook_home(color: Color, kingside: bool) -> Square {
    match (color, kingside) {
        (Color::WHITE, true) => Square::H1,
        (Color::WHITE, false) => Square::A1,
        (Color::BLACK, true) => Square::H8,
        (Color::BLACK, false) => Square::A8,
    }
}

/// The square that the castling king passes over.
pub open spec fn castle_pass(color: Color, kingside: bool) -> Square {
    match (color, kingside) {
        (Color::WHITE, true) => Square::F1,
        (Color::WHITE, false) => Square::D1,
        (Color::BLACK, true) => Square::F8,
        (Color::BLACK, false) => Square::D8,
    }
}

/// The square on which the castling king lands.
pub open spec fn castle_land(color: Color, kingside: bool) -> Square {
    match (color, kingside) {
        (Color::WHITE, true) => Square::G1,
        (Color::WHITE, false) => Square::C1,
        (Color::BLACK, true) => Square::G8,
        (Color::BLACK, false) => Square::C8,
    }
}

/// The square next to the queenside rook, which must be empty for the rook
/// to pass when castling queenside.
pub open spec fn castle_knight_home(color: Color) -> Square {
    match color {
        Color::WHITE => Square::B1,
        Color::BLACK => Square::B8,
    }
}

} // verus!
