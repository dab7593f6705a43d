//! Squares and boards as text.
use crate::game::Game;
use crate::position::Board;
use crate::{Color, Piece, Square};
use vstd::prelude::*;
use vstd::string::{StrSliceExecFns, StringExecFns};

verus! {

/// The letter that stands for a piece: upper case for white, lower case for
/// black.
pub open spec fn piece_char(color: Color, piece: Piece) -> char {
    match (color, piece) {
        (Color::WHITE, Piece::PAWN) => 'P',
        (Color::WHITE, Piece::KNIGHT) => 'N',
        (Color::WHITE, Piece::BISHOP) => 'B',
        (Color::WHITE, Piece::ROOK) => 'R',
        (Color::WHITE, Piece::QUEEN) => 'Q',
        (Color::WHITE, Piece::KING) => 'K',
        (Color::BLACK, Piece::PAWN) => 'p',
        (Color::BLACK, Piece::KNIGHT) => 'n',
        (Color::BLACK, Piece::BISHOP) => 'b',
        (Color::BLACK, Piece::ROOK) => 'r',
        (Color::BLACK, Piece::QUEEN) => 'q',
        (Color::BLACK, Piece::KING) => 'k',
    }
}

/// The two characters that show a square of the board: the letter of its
/// piece, or a dot when it is empty, and a space.
pub open spec fn square_text(board: Board, s: Square) -> Seq<char> {
    if board.dom().contains(s) {
        seq![piece_char(board[s].0, board[s].1), ' ']
    } else {
        seq!['.', ' ']
    }
}

/// The text of the first `files` squares of a rank, from the a-file on.
pub open spec fn rank_text(board: Board, rank: int, files: nat) -> Seq<char>
    decreases files,
{
    if files == 0 {
        Seq::empty()
    } else {
        rank_text(board, rank, (files - 1) as nat) + square_text(
            board,
            Square::at(8 * rank + files - 1),
        )
    }
}

/// The text of the top `ranks` ranks of the board, from the eighth rank
/// down, each rank on a line of its own, behind an empty first line.
pub open spec fn board_text(board: Board, ranks: nat) -> Seq<char>
    decreases ranks,
{
    if ranks == 0 {
        seq!['\n']
    } else {
        board_text(board, (ranks - 1) as nat) + rank_text(board, 8 - ranks, 8) + seq!['\n']
    }
}

/// The text that shows a piece on the board.
fn piece_text(color: Color, piece: Piece) -> (r: &'static str)
    ensures
        r@ == seq![piece_char(color, piece), ' '],
{
    proof {
        reveal_strlit("P ");
        reveal_strlit("N ");
        reveal_strlit("B ");
        reveal_strlit("R ");
        reveal_strlit("Q ");
        reveal_strlit("K ");
        reveal_strlit("p ");
        reveal_strlit("n ");
        reveal_strlit("b ");
        reveal_strlit("r ");
        reveal_strlit("q ");
        reveal_strlit("k ");
    }
    let r = match (color, piece) {
        (Color::WHITE, Piece::PAWN) => "P ",
        (Color::WHITE, Piece::KNIGHT) => "N ",
        (Color::WHITE, Piece::BISHOP) => "B ",
        (Color::WHITE, Piece::ROOK) => "R ",
        (Color::WHITE, Piece::QUEEN) => "Q ",
        (Color::WHITE, Piece::KING) => "K ",
        (Color::BLACK, Piece::PAWN) => "p ",
        (Color::BLACK, Piece::KNIGHT) => "n ",
        (Color::BLACK, Piece::BISHOP) => "b ",
        (Color::BLACK, Piece::ROOK) => "r ",
        (Color::BLACK, Piece::QUEEN) => "q ",
        (Color::BLACK, Piece::KING) => "k ",
    };
    r
}

impl Square {
    /// The name of the square: its file letter and its rank digit, as
    /// [`Square::from_parts`] reads them.
    pub fn to_string(&self) -> (r: String)
        ensures
            r@.len() == 2,
            Square::file_of_char(r@[0]) == Some(self.file()),
            Square::rank_of_char(r@[1]) == Some(self.rank()),
    {
        let files = "abcdefgh";
        let ranks = "12345678";
        proof {
            reveal_strlit("abcdefgh");
            reveal_strlit("12345678");
        }
        let index: u8 = self.to_u8();
        let file = (index % 8) as usize;
        let rank = (index / 8) as usize;
        let mut r = String::from_str(files.substring_char(file, file + 1));
        r.append(ranks.substring_char(rank, rank + 1));
        r
    }
}

impl Game {
    /// The board as text: an empty line, then the ranks from the eighth
    /// down, each square as the letter of its piece or a dot, followed by
    /// a space.
    pub fn to_string(&self) -> (r: String)
        requires
            self.wf(),
        ensures
            r@ == board_text(self@.board, 8),
    {
        let mut board = String::from_str("\n");
        proof {
            reveal_strlit("\n");
            reveal_strlit(". ");
        }
        let mut done: u8 = 0;
        while done < 8
            invariant
                done <= 8,
                self.wf(),
                "\n"@ == seq!['\n'],
                ". "@ == seq!['.', ' '],
                board@ == board_text(self@.board, done as nat),
            decreases 8 - done,
        {
            let rank: u8 = 7 - done;
            let ghost above = board@;
            let mut file: u8 = 0;
            while file < 8
                invariant
                    file <= 8,
                    rank < 8,
                    self.wf(),
                    ". "@ == seq!['.', ' '],
                    board@ == above + rank_text(self@.board, rank as int, file as nat),
                decreases 8 - file,
            {
                let square = Square::from_u8(rank * 8 + file);
                match (self.color_at(square), self.type_at(square)) {
                    (Some(color), Some(piece)) => {
                        board.append(piece_text(color, piece));
                    },
                    _ => {
                        board.append(". ");
                    },
                }
                file += 1;
            }
            board.append("\n");
            done += 1;
        }
        board
    }
}

} // verus!
