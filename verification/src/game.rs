//! The position as bitboards, and the one operation that changes it.
use crate::attacks::{
    king_step, knight_step, lemma_bishop_symmetric, lemma_rook_symmetric, pawn_attack_step,
};
use crate::bitboard::Bitboard;
use crate::bits::{lemma_bit_or, lemma_bit_zero};
use crate::magics::MagicTables;
use crate::movegen::{pawn_attacks, pseudolegal_king_moves, pseudolegal_knight_moves};
use crate::position::{
    castle_rook_move, home_rights, is_castle_move, king_on, piece_attacks, square_behind,
    without_rights, IllegalMove, InvalidPosition, Position,
};
use crate::{try_square_offset, CastlingRights, Color, Move, Piece, Square};
use vstd::prelude::*;

verus! {

/// A chess position held as one bitboard per color and one per piece kind.
#[derive(Debug, Clone, Copy, PartialEq, Eq)]
pub struct Game {
    pub color_bitboards: [Bitboard; 2],
    pub piece_bitboards: [Bitboard; 6],
    pub to_move: Color,
    pub castling_rights: u8,
    pub en_passant_square: Option<Square>,
    pub halfmove_clock: usize,
    pub fullmove_clock: usize,
}

/// The piece kind that stands on a file of the back rank when a game starts.
pub open spec fn back_rank_piece(file: int) -> Piece {
    if file == 0 || file == 7 {
        Piece::ROOK
    } else if file == 1 || file == 6 {
        Piece::KNIGHT
    } else if file == 2 || file == 5 {
        Piece::BISHOP
    } else if file == 3 {
        Piece::QUEEN
    } else {
        Piece::KING
    }
}

/// What stands on a square when a game starts.
pub open spec fn start_occupant(s: Square) -> (Color, Piece) {
    if s.rank() == 0 {
        (Color::WHITE, back_rank_piece(s.file()))
    } else if s.rank() == 1 {
        (Color::WHITE, Piece::PAWN)
    } else if s.rank() == 6 {
        (Color::BLACK, Piece::PAWN)
    } else {
        (Color::BLACK, back_rank_piece(s.file()))
    }
}

/// The position from which a game starts.
pub open spec fn start_position() -> Position {
    Position {
        board: Map::new(|s: Square| s.rank() <= 1 || s.rank() >= 6, |s: Square| start_occupant(s)),
        to_move: Color::WHITE,
        castling_rights: 15,
        en_passant_square: None,
        halfmove_clock: 0,
        fullmove_clock: 1,
    }
}

proof fn lemma_start_bits(i: u64)
    by (bit_vector)
    requires
        i < 64,
    ensures
        ((0x0000_0000_0000_ffffu64 >> i) & 1 == 1) == (i < 16),
        ((0xffff_0000_0000_0000u64 >> i) & 1 == 1) == (i >= 48),
        ((0x00ff_0000_0000_ff00u64 >> i) & 1 == 1) == ((8 <= i && i < 16) || (48 <= i && i < 56)),
        ((0x4200_0000_0000_0042u64 >> i) & 1 == 1) == (i == 1 || i == 6 || i == 57 || i == 62),
        ((0x2400_0000_0000_0024u64 >> i) & 1 == 1) == (i == 2 || i == 5 || i == 58 || i == 61),
        ((0x8100_0000_0000_0081u64 >> i) & 1 == 1) == (i == 0 || i == 7 || i == 56 || i == 63),
        ((0x0800_0000_0000_0008u64 >> i) & 1 == 1) == (i == 3 || i == 59),
        ((0x1000_0000_0000_0010u64 >> i) & 1 == 1) == (i == 4 || i == 60),
{
}

/// The color of the piece on `s`, read from the color bitboards.
pub open spec fn color_in(colors: Seq<Bitboard>, s: Square) -> Option<Color> {
    if colors[0].has(s) {
        Some(Color::WHITE)
    } else if colors[1].has(s) {
        Some(Color::BLACK)
    } else {
        None
    }
}

/// The kind of the piece on `s`, read from the piece bitboards.
pub open spec fn piece_in(pieces: Seq<Bitboard>, s: Square) -> Option<Piece> {
    if pieces[0].has(s) {
        Some(Piece::PAWN)
    } else if pieces[1].has(s) {
        Some(Piece::KNIGHT)
    } else if pieces[2].has(s) {
        Some(Piece::BISHOP)
    } else if pieces[3].has(s) {
        Some(Piece::ROOK)
    } else if pieces[4].has(s) {
        Some(Piece::QUEEN)
    } else if pieces[5].has(s) {
        Some(Piece::KING)
    } else {
        None
    }
}

/// 1 when the bitboard holds the square, else 0.
pub open spec fn count_at(b: Bitboard, s: Square) -> int {
    if b.has(s) {
        1
    } else {
        0
    }
}

/// The bitboards agree on `s`: it is in at most one color bitboard, in at
/// most one piece bitboard, and in a color bitboard exactly when it is in a
/// piece bitboard.
pub open spec fn square_agrees(colors: Seq<Bitboard>, pieces: Seq<Bitboard>, s: Square) -> bool {
    &&& count_at(colors[0], s) + count_at(colors[1], s) <= 1
    &&& count_at(pieces[0], s) + count_at(pieces[1], s) + count_at(pieces[2], s) + count_at(
        pieces[3],
        s,
    ) + count_at(pieces[4], s) + count_at(pieces[5], s) <= 1
    &&& color_in(colors, s) is Some <==> piece_in(pieces, s) is Some
}

/// The bitboards agree on every square.
pub open spec fn boards_agree(colors: Seq<Bitboard>, pieces: Seq<Bitboard>) -> bool {
    forall|s: Square| #[trigger] square_agrees(colors, pieces, s)
}

/// What the bitboards say stands on `s`.
pub open spec fn content(colors: Seq<Bitboard>, pieces: Seq<Bitboard>, s: Square) -> Option<
    (Color, Piece),
> {
    match (color_in(colors, s), piece_in(pieces, s)) {
        (Some(c), Some(p)) => Some((c, p)),
        _ => None,
    }
}

/// The board that the bitboards describe.
pub open spec fn board_of(colors: Seq<Bitboard>, pieces: Seq<Bitboard>) -> Map<
    Square,
    (Color, Piece),
> {
    Map::new(
        |s: Square| content(colors, pieces, s) is Some,
        |s: Square| content(colors, pieces, s)->0,
    )
}

/// Whether `occ` is a piece of the color with index `i`.
pub open spec fn color_bit(occ: Option<(Color, Piece)>, i: int) -> bool {
    match occ {
        Some((c, _)) => c.index() == i,
        None => false,
    }
}

/// Whether `occ` is a piece of the kind with index `j`.
pub open spec fn piece_bit(occ: Option<(Color, Piece)>, j: int) -> bool {
    match occ {
        Some((_, p)) => p.index() == j,
        None => false,
    }
}

/// Whether the bitboards `colors2` and `pieces2` are `colors` and `pieces`
/// with the content of the one square `s` replaced by `occ`.
pub open spec fn rewritten(
    colors: Seq<Bitboard>,
    pieces: Seq<Bitboard>,
    colors2: Seq<Bitboard>,
    pieces2: Seq<Bitboard>,
    s: Square,
    occ: Option<(Color, Piece)>,
) -> bool {
    &&& forall|t: Square, i: int|
        0 <= i < 2 ==> #[trigger] colors2[i].has(t) == if t == s {
            color_bit(occ, i)
        } else {
            colors[i].has(t)
        }
    &&& forall|t: Square, j: int|
        0 <= j < 6 ==> #[trigger] pieces2[j].has(t) == if t == s {
            piece_bit(occ, j)
        } else {
            pieces[j].has(t)
        }
}

/// Replacing the content of one square keeps the bitboards in agreement and
/// changes the board at that square alone.
pub proof fn lemma_rewritten(
    colors: Seq<Bitboard>,
    pieces: Seq<Bitboard>,
    colors2: Seq<Bitboard>,
    pieces2: Seq<Bitboard>,
    s: Square,
    occ: Option<(Color, Piece)>,
)
    requires
        boards_agree(colors, pieces),
        rewritten(colors, pieces, colors2, pieces2, s, occ),
    ensures
        boards_agree(colors2, pieces2),
        board_of(colors2, pieces2) == match occ {
            Some(x) => board_of(colors, pieces).insert(s, x),
            None => board_of(colors, pieces).remove(s),
        },
{
    assert forall|t: Square|
        {
            &&& #[trigger] square_agrees(colors2, pieces2, t)
            &&& content(colors2, pieces2, t) == if t == s {
                occ
            } else {
                content(colors, pieces, t)
            }
        } by {
        assert(square_agrees(colors, pieces, t));
    }
}

impl View for Game {
    type V = Position;

    open spec fn view(&self) -> Position {
        Position {
            board: board_of(self.color_bitboards@, self.piece_bitboards@),
            to_move: self.to_move,
            castling_rights: self.castling_rights,
            en_passant_square: self.en_passant_square,
            halfmove_clock: self.halfmove_clock as nat,
            fullmove_clock: self.fullmove_clock as nat,
        }
    }
}

impl std::default::Default for Game {
    /// The position from which a game starts.
    fn default() -> (g: Game)
        ensures
            g.wf(),
            g@ == start_position(),
    {
        let g = Game {
            color_bitboards: [Bitboard(0x0000_0000_0000_ffff), Bitboard(0xffff_0000_0000_0000)],
            piece_bitboards: [
                Bitboard(0x00ff_0000_0000_ff00),
                Bitboard(0x4200_0000_0000_0042),
                Bitboard(0x2400_0000_0000_0024),
                Bitboard(0x8100_0000_0000_0081),
                Bitboard(0x0800_0000_0000_0008),
                Bitboard(0x1000_0000_0000_0010),
            ],
            to_move: Color::WHITE,
            castling_rights: CastlingRights::ALL_LEGAL,
            en_passant_square: None,
            halfmove_clock: 0,
            fullmove_clock: 1,
        };
        proof {
            let start = start_position().board;
            assert forall|s: Square|
                {
                    &&& #[trigger] square_agrees(g.color_bitboards@, g.piece_bitboards@, s)
                    &&& g@.board.dom().contains(s) == start.dom().contains(s)
                    &&& g@.board.dom().contains(s) ==> g@.board[s] == start[s]
                } by {
                lemma_start_bits(s.index() as u64);
            }
            assert forall|s: Square| #[trigger]
                g@.board.dom().contains(s) == start.dom().contains(s) by {
                assert(square_agrees(g.color_bitboards@, g.piece_bitboards@, s));
            }
            assert forall|s: Square| #[trigger] g@.board.dom().contains(s) implies g@.board[s]
                == start[s] by {
                assert(square_agrees(g.color_bitboards@, g.piece_bitboards@, s));
            }
            assert(g@.board =~= start);
        }
        g
    }
}

impl Game {
    /// The bitboard of a color.
    pub open spec fn colors(self, c: Color) -> Bitboard {
        self.color_bitboards[c.index()]
    }

    /// The bitboard of a piece kind.
    pub open spec fn pieces(self, p: Piece) -> Bitboard {
        self.piece_bitboards[p.index()]
    }

    /// The color of the piece on `s`, read from the color bitboards.
    pub open spec fn color_on(self, s: Square) -> Option<Color> {
        color_in(self.color_bitboards@, s)
    }

    /// The kind of the piece on `s`, read from the piece bitboards.
    pub open spec fn piece_on(self, s: Square) -> Option<Piece> {
        piece_in(self.piece_bitboards@, s)
    }

    /// The bitboards agree on every square: no square is in two piece
    /// bitboards or in both color bitboards, and the color bitboards hold
    /// the same squares as the piece bitboards.
    pub open spec fn wf(self) -> bool {
        boards_agree(self.color_bitboards@, self.piece_bitboards@)
    }

    /// A well-formed game has `(c, p)` on `s` in its model exactly when `s` is
    /// in the bitboards of `c` and of `p`.
    pub proof fn lemma_holds(self, s: Square, c: Color, p: Piece)
        requires
            self.wf(),
        ensures
            self@.holds(s, c, p) == (self.colors(c).has(s) && self.pieces(p).has(s)),
            self@.occupied(s) == (self.color_on(s) is Some),
            self@.occupied(s) == (self.piece_on(s) is Some),
            self.colors(c).has(s) == (self.color_on(s) == Some(c)),
            self.pieces(p).has(s) == (self.piece_on(s) == Some(p)),
    {
        assert(square_agrees(self.color_bitboards@, self.piece_bitboards@, s));
    }

    /// Two well-formed games with the same board have the same bitboards.
    pub proof fn lemma_board_decides_bitboards(a: Game, b: Game)
        requires
            a.wf(),
            b.wf(),
            a@.board == b@.board,
        ensures
            a.color_bitboards == b.color_bitboards,
            a.piece_bitboards == b.piece_bitboards,
    {
        assert forall|i: int| 0 <= i < 2 implies a.color_bitboards[i] == b.color_bitboards[i] by {
            let c = if i == 0 {
                Color::WHITE
            } else {
                Color::BLACK
            };
            assert forall|s: Square| a.colors(c).has(s) == b.colors(c).has(s) by {
                a.lemma_holds(s, c, Piece::PAWN);
                b.lemma_holds(s, c, Piece::PAWN);
            }
            Bitboard::lemma_same_members(a.colors(c), b.colors(c));
        }
        assert forall|i: int| 0 <= i < 6 implies a.piece_bitboards[i] == b.piece_bitboards[i] by {
            let p = if i == 0 {
                Piece::PAWN
            } else if i == 1 {
                Piece::KNIGHT
            } else if i == 2 {
                Piece::BISHOP
            } else if i == 3 {
                Piece::ROOK
            } else if i == 4 {
                Piece::QUEEN
            } else {
                Piece::KING
            };
            assert forall|s: Square| a.pieces(p).has(s) == b.pieces(p).has(s) by {
                a.lemma_holds(s, Color::WHITE, p);
                b.lemma_holds(s, Color::WHITE, p);
            }
            Bitboard::lemma_same_members(a.pieces(p), b.pieces(p));
        }
    }

    /// Whether the bitboards agree on every square. Every function that
    /// asks for a well-formed game can be called when this returns `true`.
    pub fn is_well_formed(&self) -> (r: bool)
        ensures
            r == self.wf(),
    {
        let white = self.color_bitboards[0];
        let black = self.color_bitboards[1];
        let pawns = self.piece_bitboards[0];
        let knights = self.piece_bitboards[1];
        let bishops = self.piece_bitboards[2];
        let rooks = self.piece_bitboards[3];
        let queens = self.piece_bitboards[4];
        let kings = self.piece_bitboards[5];
        let up_to_knights = Bitboard(pawns.0 | knights.0);
        let up_to_bishops = Bitboard(up_to_knights.0 | bishops.0);
        let up_to_rooks = Bitboard(up_to_bishops.0 | rooks.0);
        let up_to_queens = Bitboard(up_to_rooks.0 | queens.0);
        let all_kinds = Bitboard(up_to_queens.0 | kings.0);
        let both = Bitboard(white.0 & black.0);
        let either = Bitboard(white.0 | black.0);
        let twice_knights = Bitboard(pawns.0 & knights.0);
        let twice_bishops = Bitboard(up_to_knights.0 & bishops.0);
        let twice_rooks = Bitboard(up_to_bishops.0 & rooks.0);
        let twice_queens = Bitboard(up_to_rooks.0 & queens.0);
        let twice_kings = Bitboard(up_to_queens.0 & kings.0);
        proof {
            let colors = self.color_bitboards@;
            let pieces = self.piece_bitboards@;
            Bitboard::lemma_or(pawns, knights);
            Bitboard::lemma_or(up_to_knights, bishops);
            Bitboard::lemma_or(up_to_bishops, rooks);
            Bitboard::lemma_or(up_to_rooks, queens);
            Bitboard::lemma_or(up_to_queens, kings);
            Bitboard::lemma_and(white, black);
            Bitboard::lemma_or(white, black);
            Bitboard::lemma_and(pawns, knights);
            Bitboard::lemma_and(up_to_knights, bishops);
            Bitboard::lemma_and(up_to_bishops, rooks);
            Bitboard::lemma_and(up_to_rooks, queens);
            Bitboard::lemma_and(up_to_queens, kings);
            lemma_bit_zero();
            let none = Bitboard(0);
            if self.wf() {
                assert forall|t: Square|
                    {
                        &&& both.has(t) == none.has(t)
                        &&& twice_knights.has(t) == none.has(t)
                        &&& twice_bishops.has(t) == none.has(t)
                        &&& twice_rooks.has(t) == none.has(t)
                        &&& twice_queens.has(t) == none.has(t)
                        &&& twice_kings.has(t) == none.has(t)
                        &&& either.has(t) == all_kinds.has(t)
                    } by {
                    assert(square_agrees(colors, pieces, t));
                }
                Bitboard::lemma_same_members(both, none);
                Bitboard::lemma_same_members(twice_knights, none);
                Bitboard::lemma_same_members(twice_bishops, none);
                Bitboard::lemma_same_members(twice_rooks, none);
                Bitboard::lemma_same_members(twice_queens, none);
                Bitboard::lemma_same_members(twice_kings, none);
                Bitboard::lemma_same_members(either, all_kinds);
            }
            if both.0 == 0 && twice_knights.0 == 0 && twice_bishops.0 == 0 && twice_rooks.0 == 0
                && twice_queens.0 == 0 && twice_kings.0 == 0 && either.0 == all_kinds.0 {
                assert forall|t: Square| #[trigger] square_agrees(colors, pieces, t) by {
                    assert(!both.has(t) && !twice_knights.has(t) && !twice_bishops.has(t));
                    assert(!twice_rooks.has(t) && !twice_queens.has(t) && !twice_kings.has(t));
                    assert(either.has(t) == all_kinds.has(t));
                }
            }
        }
        both.0 == 0 && twice_knights.0 == 0 && twice_bishops.0 == 0 && twice_rooks.0 == 0
            && twice_queens.0 == 0 && twice_kings.0 == 0 && either.0 == all_kinds.0
    }

    /// A board with no pieces, white to move and all castling rights.
    pub fn empty() -> (g: Self)
        ensures
            g.wf(),
            g@.board == Map::<Square, (Color, Piece)>::empty(),
            g@.to_move == Color::WHITE,
            g@.castling_rights == 15,
            g@.en_passant_square is None,
            g@.halfmove_clock == 0,
            g@.fullmove_clock == 1,
    {
        let g = Game {
            color_bitboards: [Bitboard::empty(); 2],
            piece_bitboards: [Bitboard::empty(); 6],
            to_move: Color::WHITE,
            castling_rights: CastlingRights::ALL_LEGAL,
            en_passant_square: None,
            halfmove_clock: 0,
            fullmove_clock: 1,
        };
        proof {
            lemma_bit_zero();
        }
        g
    }

    /// The kind of the piece on `s`, or `None` when no piece bitboard holds
    /// the square.
    pub fn type_at(&self, s: Square) -> (r: Option<Piece>)
        ensures
            r == self.piece_on(s),
            self.wf() ==> r == self@.piece_on(s),
    {
        let mut i: u8 = 0;
        while i < 6
            invariant
                i <= 6,
                self.wf() ==> square_agrees(self.color_bitboards@, self.piece_bitboards@, s),
                forall|j: int| 0 <= j < i ==> !(#[trigger] self.piece_bitboards@[j]).has(s),
            decreases 6 - i,
        {
            if self.piece_bitboards[i as usize].contains(s) {
                let piece = Piece::from_u8(i);
                return Some(piece);
            }
            i += 1;
        }
        None
    }

    /// The color of the piece on `s`, or `None` when neither color bitboard
    /// holds the square.
    pub fn color_at(&self, s: Square) -> (r: Option<Color>)
        ensures
            r == self.color_on(s),
            self.wf() ==> r == self@.color_on(s),
    {
        proof {
            if self.wf() {
                assert(square_agrees(self.color_bitboards@, self.piece_bitboards@, s));
            }
        }
        if self.color_bitboards[0].contains(s) {
            Some(Color::WHITE)
        } else if self.color_bitboards[1].contains(s) {
            Some(Color::BLACK)
        } else {
            None
        }
    }

    /// The union of the two color bitboards.
    pub open spec fn all_pieces_spec(self) -> Bitboard {
        Bitboard(self.colors(Color::WHITE).0 | self.colors(Color::BLACK).0)
    }

    /// In a well-formed game the union of the color bitboards holds exactly
    /// the occupied squares of the board.
    pub proof fn lemma_all_pieces(self)
        requires
            self.wf(),
        ensures
            self.all_pieces_spec()@ == self@.board.dom(),
    {
        lemma_bit_or(self.colors(Color::WHITE).0, self.colors(Color::BLACK).0);
        assert forall|s: Square|
            self.all_pieces_spec()@.contains(s) == self@.board.dom().contains(s) by {
            assert(square_agrees(self.color_bitboards@, self.piece_bitboards@, s));
        }
    }

    /// All occupied squares: the union of the two color bitboards.
    pub fn all_pieces(&self) -> (r: Bitboard)
        ensures
            r == self.all_pieces_spec(),
            forall|s: Square| #[trigger] r.has(s) == (self.color_on(s) is Some),
            self.wf() ==> r@ == self@.board.dom(),
    {
        proof {
            lemma_bit_or(self.color_bitboards[0].0, self.color_bitboards[1].0);
        }
        let r = Bitboard(self.color_bitboards[0].0 | self.color_bitboards[1].0);
        proof {
            if self.wf() {
                assert forall|s: Square| r@.contains(s) == self@.board.dom().contains(s) by {
                    assert(square_agrees(self.color_bitboards@, self.piece_bitboards@, s));
                }
            }
        }
        r
    }

    /// Whether no piece of either color stands on `s`.
    pub fn is_square_empty(&self, s: Square) -> (r: bool)
        ensures
            r == (self.color_on(s) is None),
            self.wf() ==> r == !self@.occupied(s),
    {
        !self.all_pieces().contains(s)
    }

    /// Whether `m` lands on a piece of the other color than the piece it
    /// moves. A move from an empty square captures nothing.
    pub fn is_capture(&self, m: Move) -> (r: bool)
        ensures
            r == (self.color_on(m.start) is Some && self.color_on(m.end) is Some && self.color_on(
                m.start,
            ) != self.color_on(m.end)),
            self.wf() ==> r == self@.is_capture(m),
    {
        match (self.color_at(m.start), self.color_at(m.end)) {
            (Some(mover), Some(target)) => mover != target,
            _ => false,
        }
    }

    /// Whether `m` is one of the four castling moves of a king of `color`.
    pub fn is_castle(&self, m: Move, piece: Piece, color: Color) -> (r: bool)
        ensures
            r == is_castle_move(m, piece, color),
    {
        piece == Piece::KING && match color {
            Color::WHITE => m.start == Square::E1 && (m.end == Square::C1 || m.end == Square::G1),
            Color::BLACK => m.start == Square::E8 && (m.end == Square::C8 || m.end == Square::G8),
        }
    }

    /// Whether `m` lands on the en-passant target while the piece it takes
    /// is a pawn.
    pub fn is_en_passant(&self, m: Move, captured_piece: Piece) -> (r: bool)
        ensures
            r == (self.en_passant_square == Some(m.end) && captured_piece == Piece::PAWN),
    {
        match self.en_passant_square {
            Some(target) => target == m.end && captured_piece == Piece::PAWN,
            None => false,
        }
    }

    /// The square of the pawn that `m` takes en passant, if it does.
    fn en_passant_victim(&self, m: Move, piece: Piece, color: Color) -> (r: Option<Square>)
        requires
            self.wf(),
            self@.holds(m.start, color, piece),
        ensures
            r == self@.en_passant_victim(m),
    {
        if piece != Piece::PAWN || !self.is_square_empty(m.end) {
            return None;
        }
        let back: i8 = match color {
            Color::WHITE => -1,
            Color::BLACK => 1,
        };
        match try_square_offset(m.end, 0, back) {
            Some(v) => {
                proof {
                    self.lemma_holds(v, color.other(), Piece::PAWN);
                }
                let victim_is_pawn = self.piece_bitboards[0].contains(v);
                let victim_is_enemy = self.color_bitboards[color.opposite() as usize].contains(v);
                if victim_is_enemy && victim_is_pawn && self.is_en_passant(m, Piece::PAWN) {
                    Some(v)
                } else {
                    None
                }
            },
            None => None,
        }
    }

    /// Takes the piece of kind `piece` off the square `s`. What the piece
    /// held of castling rights for its home square is lost.
    fn remove_piece(&mut self, s: Square, piece: Piece)
        requires
            old(self).wf(),
            old(self)@.occupied(s),
            old(self)@.board[s].1 == piece,
        ensures
            final(self).wf(),
            final(self)@.board == old(self)@.board.remove(s),
            final(self).castling_rights == without_rights(
                old(self).castling_rights,
                home_rights(s, old(self)@.board[s].0, piece),
            ),
            final(self).to_move == old(self).to_move,
            final(self).en_passant_square == old(self).en_passant_square,
            final(self).halfmove_clock == old(self).halfmove_clock,
            final(self).fullmove_clock == old(self).fullmove_clock,
    {
        let color = if self.color_bitboards[0].contains(s) {
            Color::WHITE
        } else {
            Color::BLACK
        };
        let lost = lost_rights(s, color, piece);
        if lost != 0 {
            self.castling_rights = self.castling_rights & !lost;
        }
        let mask = s.to_u64();
        let c = color as usize;
        let p = piece as usize;
        self.color_bitboards[c] = Bitboard(self.color_bitboards[c].0 ^ mask);
        self.piece_bitboards[p] = Bitboard(self.piece_bitboards[p].0 ^ mask);
        proof {
            let colors = old(self).color_bitboards@;
            let pieces = old(self).piece_bitboards@;
            assert(square_agrees(colors, pieces, s));
            Bitboard::lemma_toggle(colors[c as int], s);
            Bitboard::lemma_toggle(pieces[p as int], s);
            lemma_rewritten(
                colors,
                pieces,
                self.color_bitboards@,
                self.piece_bitboards@,
                s,
                None,
            );
        }
    }

    /// Moves the piece `p` of color `c` from `m.start` to the empty square
    /// `m.end`.
    fn move_piece(&mut self, m: Move, p: Piece, c: Color)
        requires
            old(self).wf(),
            old(self)@.holds(m.start, c, p),
            !old(self)@.occupied(m.end),
        ensures
            final(self).wf(),
            final(self)@.board == old(self)@.board.remove(m.start).insert(m.end, (c, p)),
            final(self).castling_rights == old(self).castling_rights,
            final(self).to_move == old(self).to_move,
            final(self).en_passant_square == old(self).en_passant_square,
            final(self).halfmove_clock == old(self).halfmove_clock,
            final(self).fullmove_clock == old(self).fullmove_clock,
    {
        let from_mask = m.start.to_u64();
        let to_mask = m.end.to_u64();
        let ci = c as usize;
        let pi = p as usize;
        self.color_bitboards[ci] = Bitboard((self.color_bitboards[ci].0 ^ from_mask) | to_mask);
        self.piece_bitboards[pi] = Bitboard((self.piece_bitboards[pi].0 ^ from_mask) | to_mask);
        proof {
            let colors = old(self).color_bitboards@;
            let pieces = old(self).piece_bitboards@;
            let lifted_c = Bitboard(colors[ci as int].0 ^ from_mask);
            let lifted_p = Bitboard(pieces[pi as int].0 ^ from_mask);
            let colors1 = colors.update(ci as int, lifted_c);
            let pieces1 = pieces.update(pi as int, lifted_p);
            assert(square_agrees(colors, pieces, m.start));
            Bitboard::lemma_toggle(colors[ci as int], m.start);
            Bitboard::lemma_toggle(pieces[pi as int], m.start);
            Bitboard::lemma_insert(lifted_c, m.end);
            Bitboard::lemma_insert(lifted_p, m.end);
            lemma_rewritten(colors, pieces, colors1, pieces1, m.start, None);
            assert(square_agrees(colors1, pieces1, m.end));
            lemma_rewritten(
                colors1,
                pieces1,
                self.color_bitboards@,
                self.piece_bitboards@,
                m.end,
                Some((c, p)),
            );
        }
    }

    /// Takes the piece that `m` captures off the board: the piece on the end
    /// square, or, when the end square is empty, the pawn that is taken en
    /// passant one rank behind it.
    fn handle_capture(&mut self, m: Move, p: Piece, c: Color)
        requires
            old(self).wf(),
            old(self)@.holds(m.start, c, p),
            old(self)@.captured_square(m) is Some,
        ensures
            final(self).wf(),
            ({
                let v = old(self)@.captured_square(m)->0;
                &&& final(self)@.board == old(self)@.board.remove(v)
                &&& final(self).castling_rights == without_rights(
                    old(self).castling_rights,
                    home_rights(v, old(self)@.board[v].0, old(self)@.board[v].1),
                )
            }),
            final(self).to_move == old(self).to_move,
            final(self).en_passant_square == old(self).en_passant_square,
            final(self).halfmove_clock == old(self).halfmove_clock,
            final(self).fullmove_clock == old(self).fullmove_clock,
    {
        match self.type_at(m.end) {
            Some(captured_piece) => {
                self.remove_piece(m.end, captured_piece);
            },
            None => {
                let victim = self.en_passant_victim(m, p, c);
                match victim {
                    Some(target_square) => {
                        self.remove_piece(target_square, Piece::PAWN);
                    },
                    None => {},
                }
            },
        }
    }

    /// Applies `m` to the position, or leaves the position as it is and says
    /// why the move cannot be applied.
    ///
    /// The move is not held to the rules by which pieces move: any piece may
    /// go to any square that holds no piece of its color. A king that makes a
    /// castling move takes its rook along, a pawn that moves onto the
    /// en-passant target takes the pawn behind it, and a piece on the end
    /// square is captured.
    pub fn make_move(&mut self, m: Move) -> (r: Result<(), IllegalMove>)
        requires
            old(self).wf(),
            old(self).halfmove_clock < usize::MAX,
            old(self).fullmove_clock < usize::MAX,
        ensures
            r == old(self)@.check_move(m),
            r is Ok ==> final(self).wf() && final(self)@ == old(self)@.after(m),
            r is Err ==> *final(self) == *old(self),
    {
        let piece = match self.type_at(m.start) {
            Some(piece) => piece,
            None => {
                return Err(IllegalMove::NoPiece);
            },
        };
        let color = match self.color_at(m.start) {
            Some(color) => color,
            None => {
                return Err(IllegalMove::NoPiece);
            },
        };
        match self.color_at(m.end) {
            Some(target) => {
                if target == color {
                    return Err(IllegalMove::OwnPieceOnTarget);
                }
            },
            None => {},
        }
        let is_capture = self.is_capture(m);
        let is_castle = self.is_castle(m, piece, color);
        let double_step = self.double_step_target(m, piece, color);
        let ghost start = self@;
        if is_castle {
            let rook = rook_move_for(m.end);
            proof {
                self.lemma_holds(rook.start, color, Piece::ROOK);
            }
            let rook_at_home = self.piece_bitboards[3].contains(rook.start)
                && self.color_bitboards[color as usize].contains(rook.start);
            if !rook_at_home || !self.is_square_empty(rook.end) {
                return Err(IllegalMove::NoRookToCastle);
            }
            self.move_piece(rook, Piece::ROOK, color);
        }
        let takes = is_capture || self.en_passant_victim(m, piece, color).is_some();
        if takes {
            self.handle_capture(m, piece, color);
        }
        let lost = lost_rights(m.start, color, piece);
        if lost != 0 {
            self.castling_rights = self.castling_rights & !lost;
        }
        self.move_piece(m, piece, color);
        self.en_passant_square = double_step;
        if piece == Piece::PAWN || is_capture {
            self.halfmove_clock = 0;
        } else {
            self.halfmove_clock += 1;
        }
        if self.to_move == Color::BLACK {
            self.fullmove_clock += 1;
        }
        self.to_move = self.to_move ^ 1;
        Ok(())
    }

    /// Whether a pawn of `color` attacks `square`.
    fn is_attacked_by_pawn(&self, color: Color, square: Square) -> (r: bool)
        requires
            self.wf(),
        ensures
            r == exists|a: Square|
                self@.holds(a, color, Piece::PAWN) && pawn_attack_step(color, a, square),
    {
        let origins = pawn_attacks(square, color.opposite());
        let own = self.color_bitboards[color as usize];
        let pawns = self.piece_bitboards[0];
        let attackers = Bitboard(origins.0 & own.0 & pawns.0);
        proof {
            Bitboard::lemma_and(origins, own);
            Bitboard::lemma_and(Bitboard(origins.0 & own.0), pawns);
            assert forall|a: Square|
                #![trigger attackers.has(a)]
                #![trigger self@.holds(a, color, Piece::PAWN)]
                attackers.has(a) == (self@.holds(a, color, Piece::PAWN) && pawn_attack_step(
                    color,
                    a,
                    square,
                )) by {
                self.lemma_holds(a, color, Piece::PAWN);
                assert(Bitboard(origins.0 & own.0).has(a) == (origins.has(a) && own.has(a)));
            }
        }
        attackers.any()
    }

    /// Whether a knight of `color` attacks `square`.
    fn is_attacked_by_knight(&self, color: Color, square: Square) -> (r: bool)
        requires
            self.wf(),
        ensures
            r == exists|a: Square|
                self@.holds(a, color, Piece::KNIGHT) && knight_step(a, square),
    {
        let origins = pseudolegal_knight_moves(square);
        let own = self.color_bitboards[color as usize];
        let knights = self.piece_bitboards[1];
        let attackers = Bitboard(origins.0 & own.0 & knights.0);
        proof {
            Bitboard::lemma_and(origins, own);
            Bitboard::lemma_and(Bitboard(origins.0 & own.0), knights);
            assert forall|a: Square|
                #![trigger attackers.has(a)]
                #![trigger self@.holds(a, color, Piece::KNIGHT)]
                attackers.has(a) == (self@.holds(a, color, Piece::KNIGHT) && knight_step(
                    a,
                    square,
                )) by {
                self.lemma_holds(a, color, Piece::KNIGHT);
                assert(Bitboard(origins.0 & own.0).has(a) == (origins.has(a) && own.has(a)));
            }
        }
        attackers.any()
    }

    /// Whether a king of `color` attacks `square`.
    fn is_attacked_by_king(&self, color: Color, square: Square) -> (r: bool)
        requires
            self.wf(),
        ensures
            r == exists|a: Square| self@.holds(a, color, Piece::KING) && king_step(a, square),
    {
        let origins = pseudolegal_king_moves(square);
        let own = self.color_bitboards[color as usize];
        let kings = self.piece_bitboards[5];
        let attackers = Bitboard(origins.0 & own.0 & kings.0);
        proof {
            Bitboard::lemma_and(origins, own);
            Bitboard::lemma_and(Bitboard(origins.0 & own.0), kings);
            assert forall|a: Square|
                #![trigger attackers.has(a)]
                #![trigger self@.holds(a, color, Piece::KING)]
                attackers.has(a) == (self@.holds(a, color, Piece::KING) && king_step(a, square)) by {
                self.lemma_holds(a, color, Piece::KING);
                assert(Bitboard(origins.0 & own.0).has(a) == (origins.has(a) && own.has(a)));
            }
        }
        attackers.any()
    }

    /// Whether a bishop, rook or queen of `color` attacks `square`. The
    /// attacks of a rook and of a bishop standing on `square` are looked up;
    /// a rook or queen of `color` in the first set, or a bishop or queen in
    /// the second, attacks back along the same line.
    fn is_attacked_by_slider(&self, tables: &MagicTables, color: Color, square: Square) -> (r:
        bool)
        requires
            self.wf(),
        ensures
            r == exists|a: Square|
                self@.own(color, a) && self@.board[a].1.is_slider() && #[trigger] piece_attacks(
                    self@.board[a].1,
                    color,
                    self@.board.dom(),
                    a,
                    square,
                ),
    {
        let occ = self.all_pieces();
        let own = self.color_bitboards[color as usize];
        let bishops = self.piece_bitboards[2];
        let rooks = self.piece_bitboards[3];
        let queens = self.piece_bitboards[4];
        let straight = tables.rook_attacks(square, occ);
        let diagonal = tables.bishop_attacks(square, occ);
        let on_lines = Bitboard(straight.0 & own.0 & (rooks.0 | queens.0));
        let on_diagonals = Bitboard(diagonal.0 & own.0 & (bishops.0 | queens.0));
        proof {
            let dom = self@.board.dom();
            Bitboard::lemma_and(straight, own);
            Bitboard::lemma_or(rooks, queens);
            Bitboard::lemma_and(Bitboard(straight.0 & own.0), Bitboard(rooks.0 | queens.0));
            Bitboard::lemma_and(diagonal, own);
            Bitboard::lemma_or(bishops, queens);
            Bitboard::lemma_and(Bitboard(diagonal.0 & own.0), Bitboard(bishops.0 | queens.0));
            assert forall|a: Square|
                #![trigger on_lines.has(a)]
                #![trigger on_diagonals.has(a)]
                #![trigger piece_attacks(self@.board[a].1, color, dom, a, square)]
                (on_lines.has(a) || on_diagonals.has(a)) == (self@.own(color, a)
                    && self@.board[a].1.is_slider() && piece_attacks(
                    self@.board[a].1,
                    color,
                    dom,
                    a,
                    square,
                )) by {
                self.lemma_holds(a, color, Piece::BISHOP);
                self.lemma_holds(a, color, Piece::ROOK);
                self.lemma_holds(a, color, Piece::QUEEN);
                lemma_rook_symmetric(dom, square, a);
                lemma_bishop_symmetric(dom, square, a);
                let straight_own = Bitboard(straight.0 & own.0);
                let diagonal_own = Bitboard(diagonal.0 & own.0);
                let rq = Bitboard(rooks.0 | queens.0);
                let bq = Bitboard(bishops.0 | queens.0);
                assert(straight_own.has(a) == (straight.has(a) && own.has(a)));
                assert(diagonal_own.has(a) == (diagonal.has(a) && own.has(a)));
                assert(rq.has(a) == (rooks.has(a) || queens.has(a)));
                assert(bq.has(a) == (bishops.has(a) || queens.has(a)));
            }
        }
        on_lines.any() || on_diagonals.any()
    }

    /// Whether some piece of `color` attacks `square`.
    pub fn is_attacked_by(&self, tables: &MagicTables, color: Color, square: Square) -> (r: bool)
        requires
            self.wf(),
        ensures
            r == self@.attacked_by(color, square),
    {
        let by_pawn = self.is_attacked_by_pawn(color, square);
        let by_knight = self.is_attacked_by_knight(color, square);
        let by_king = self.is_attacked_by_king(color, square);
        let by_slider = self.is_attacked_by_slider(tables, color, square);
        let r = by_pawn || by_knight || by_king || by_slider;
        proof {
            let pos = self@;
            if r {
                if by_pawn {
                    let a = choose|a: Square|
                        pos.holds(a, color, Piece::PAWN) && pawn_attack_step(color, a, square);
                    assert(pos.attacks_from(color, a, square));
                } else if by_knight {
                    let a = choose|a: Square|
                        pos.holds(a, color, Piece::KNIGHT) && knight_step(a, square);
                    assert(pos.attacks_from(color, a, square));
                } else if by_king {
                    let a = choose|a: Square|
                        pos.holds(a, color, Piece::KING) && king_step(a, square);
                    assert(pos.attacks_from(color, a, square));
                } else {
                    let a = choose|a: Square|
                        pos.own(color, a) && pos.board[a].1.is_slider() && #[trigger] piece_attacks(
                            pos.board[a].1,
                            color,
                            pos.board.dom(),
                            a,
                            square,
                        );
                    assert(pos.attacks_from(color, a, square));
                }
            }
            if pos.attacked_by(color, square) {
                let a = choose|a: Square| pos.attacks_from(color, a, square);
                match pos.board[a].1 {
                    Piece::PAWN => {
                        assert(pos.holds(a, color, Piece::PAWN) && pawn_attack_step(
                            color,
                            a,
                            square,
                        ));
                    },
                    Piece::KNIGHT => {
                        assert(pos.holds(a, color, Piece::KNIGHT) && knight_step(a, square));
                    },
                    Piece::KING => {
                        assert(pos.holds(a, color, Piece::KING) && king_step(a, square));
                    },
                    _ => {
                        assert(pos.own(color, a) && pos.board[a].1.is_slider() && piece_attacks(
                            pos.board[a].1,
                            color,
                            pos.board.dom(),
                            a,
                            square,
                        ));
                    },
                }
            }
        }
        r
    }

    /// The king square of `color`: the lowest square that holds a king of
    /// that color, or `None` when there is none.
    pub fn king_square(&self, color: Color) -> (r: Option<Square>)
        requires
            self.wf(),
        ensures
            match r {
                Some(s) => self@.is_king_square(color, s),
                None => !self@.has_king(color),
            },
    {
        let own = self.color_bitboards[color as usize];
        let all_kings = self.piece_bitboards[5];
        let kings = Bitboard(own.0 & all_kings.0);
        proof {
            Bitboard::lemma_and(own, all_kings);
            assert forall|a: Square|
                #![trigger kings.has(a)]
                #![trigger king_on(self@.board, color, a)]
                kings.has(a) == king_on(self@.board, color, a) by {
                self.lemma_holds(a, color, Piece::KING);
            }
        }
        if kings.any() {
            Some(kings.first_square())
        } else {
            None
        }
    }

    /// Whether the king of `color` is attacked by the other side. Fails when
    /// `color` has no king.
    pub fn in_check(&self, tables: &MagicTables, color: Color) -> (r: Result<
        bool,
        InvalidPosition,
    >)
        requires
            self.wf(),
        ensures
            match r {
                Ok(attacked) => self@.has_king(color) && attacked == self@.in_check(color),
                Err(InvalidPosition::NoKing) => !self@.has_king(color),
            },
    {
        match self.king_square(color) {
            Some(king) => {
                let attacked = self.is_attacked_by(tables, color.opposite(), king);
                Ok(attacked)
            },
            None => Err(InvalidPosition::NoKing),
        }
    }

    /// The en-passant target that `m` leaves behind: the square passed over
    /// when `m` is a pawn's double step onto an empty square, else none.
    fn double_step_target(&self, m: Move, piece: Piece, color: Color) -> (r: Option<Square>)
        requires
            self.wf(),
            self@.holds(m.start, color, piece),
        ensures
            r == if self@.is_double_step(m) {
                square_behind(m.end, color)
            } else {
                None
            },
    {
        if piece != Piece::PAWN || !self.is_square_empty(m.end) {
            return None;
        }
        let from: u8 = m.start.to_u8();
        let to: u8 = m.end.to_u8();
        let steps_two = match color {
            Color::WHITE => from / 8 == 1 && to == from + 16,
            Color::BLACK => from / 8 == 6 && to + 16 == from,
        };
        if !steps_two {
            return None;
        }
        let middle: u8 = match color {
            Color::WHITE => from + 8,
            Color::BLACK => from - 8,
        };
        let r = Square::from_u8(middle);
        Some(r)
    }
}

/// The castling flags that are lost when the piece `(color, piece)` leaves `s`
/// or is captured there.
fn lost_rights(s: Square, color: Color, piece: Piece) -> (r: u8)
    ensures
        r == home_rights(s, color, piece),
{
    match (color, piece, s) {
        (Color::WHITE, Piece::KING, Square::E1) => CastlingRights::WHITE_CASTLING,
        (Color::WHITE, Piece::ROOK, Square::H1) => CastlingRights::WHITE_KINGSIDE,
        (Color::WHITE, Piece::ROOK, Square::A1) => CastlingRights::WHITE_QUEENSIDE,
        (Color::BLACK, Piece::KING, Square::E8) => CastlingRights::BLACK_CASTLING,
        (Color::BLACK, Piece::ROOK, Square::A8) => CastlingRights::BLACK_QUEENSIDE,
        (Color::BLACK, Piece::ROOK, Square::H8) => CastlingRights::BLACK_KINGSIDE,
        _ => CastlingRights::NO_LEGAL,
    }
}

/// The move that the rook makes when the king castles to `king_end`.
fn rook_move_for(king_end: Square) -> (r: Move)
    ensures
        r == castle_rook_move(king_end),
{
    match king_end {
        Square::C1 => Move { start: Square::A1, end: Square::D1 },
        Square::G1 => Move { start: Square::H1, end: Square::F1 },
        Square::C8 => Move { start: Square::A8, end: Square::D8 },
        _ => Move { start: Square::H8, end: Square::F8 },
    }
}

} // verus!
