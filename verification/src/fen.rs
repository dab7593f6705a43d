//! Reading a position from Forsyth-Edwards notation.
//!
//! A record has six fields separated by single spaces: the piece placement
//! from the eighth rank down, the side to move, the castling rights, the
//! en-passant target and the two clocks. What follows a space after the
//! sixth field is not read.
use crate::bitboard::Bitboard;
use crate::game::{lemma_rewritten, square_agrees, Game};
use crate::position::{Board, Position};
use crate::{Color, Piece, Square};
use vstd::prelude::*;
use vstd::string::StrSliceExecFns;

verus! {

/// The field of a record that could not be read.
#[derive(Debug, Copy, Clone, Eq, PartialEq, Structural)]
pub enum FenError {
    /// The placement holds a character that is no piece, digit or slash, a
    /// rank that is not eight files long, or not eight ranks.
    Placement,
    /// The side to move is missing or neither `w` nor `b`.
    SideToMove,
    /// The castling rights are missing, or they are neither `-` nor made of
    /// the letters `K`, `Q`, `k` and `q`.
    Castling,
    /// The en-passant target is missing or neither `-` nor a square.
    EnPassant,
    /// The halfmove clock is missing, no number, or too large.
    HalfmoveClock,
    /// The fullmove clock is missing, no number, or too large.
    FullmoveClock,
}

/// The index of the first space at or after `from`, or the length of `s`
/// when there is none.
pub open spec fn field_end(s: Seq<char>, from: int) -> int
    decreases s.len() - from,
{
    if from >= s.len() {
        s.len() as int
    } else if s[from] == ' ' {
        from
    } else {
        field_end(s, from + 1)
    }
}

/// The index at which field `i` starts: field 0 starts the record, every
/// other field starts behind the space that ends the field before it.
pub open spec fn field_start(s: Seq<char>, i: nat) -> int
    decreases i,
{
    if i == 0 {
        0
    } else {
        field_end(s, field_start(s, (i - 1) as nat)) + 1
    }
}

/// Field `i` of the record, or `None` when the record ends before it.
pub open spec fn field(s: Seq<char>, i: nat) -> Option<Seq<char>> {
    let start = field_start(s, i);
    if 0 <= start <= s.len() {
        Some(s.subrange(start, field_end(s, start)))
    } else {
        None
    }
}

/// How far the placement has been read: the board so far and the square
/// that the next character describes.
pub struct Cursor {
    pub board: Board,
    pub file: int,
    pub rank: int,
}

/// The color that the case of a piece letter stands for.
pub open spec fn color_of_char(c: char) -> Color {
    if 'a' <= c <= 'z' {
        Color::BLACK
    } else {
        Color::WHITE
    }
}

/// Reads one character of the placement. A digit from 1 to 8 skips that many
/// files and must stay within the rank, a slash ends a full rank above the
/// first, and a piece letter puts the piece on the next file of the rank.
pub open spec fn placement_step(cur: Cursor, c: char) -> Option<Cursor> {
    if '1' <= c <= '8' {
        let files = c as int - '0' as int;
        if cur.file + files <= 8 {
            Some(Cursor { board: cur.board, file: cur.file + files, rank: cur.rank })
        } else {
            None
        }
    } else if c == '/' {
        if cur.file == 8 && cur.rank > 0 {
            Some(Cursor { board: cur.board, file: 0, rank: cur.rank - 1 })
        } else {
            None
        }
    } else if Piece::of_char(c) is Some {
        if cur.file < 8 {
            Some(
                Cursor {
                    board: cur.board.insert(
                        Square::at(8 * cur.rank + cur.file),
                        (color_of_char(c), Piece::of_char(c)->0),
                    ),
                    file: cur.file + 1,
                    rank: cur.rank,
                },
            )
        } else {
            None
        }
    } else {
        None
    }
}

/// The cursor after the first `n` characters of the placement, starting on
/// a8 with an empty board.
pub open spec fn placement_cursor(s: Seq<char>, n: nat) -> Option<Cursor>
    decreases n,
{
    if n == 0 {
        Some(Cursor { board: Map::empty(), file: 0, rank: 7 })
    } else {
        match placement_cursor(s, (n - 1) as nat) {
            Some(cur) => placement_step(cur, s[n - 1]),
            None => None,
        }
    }
}

/// The board that a placement describes: all characters are read and the
/// cursor ends behind the last file of the first rank.
pub open spec fn parse_placement(s: Seq<char>) -> Option<Board> {
    match placement_cursor(s, s.len()) {
        Some(cur) => if cur.file == 8 && cur.rank == 0 {
            Some(cur.board)
        } else {
            None
        },
        None => None,
    }
}

/// The side that the second field names.
pub open spec fn parse_side(s: Seq<char>) -> Option<Color> {
    if s.len() == 1 && s[0] == 'w' {
        Some(Color::WHITE)
    } else if s.len() == 1 && s[0] == 'b' {
        Some(Color::BLACK)
    } else {
        None
    }
}

/// The castling flag that a letter stands for.
pub open spec fn castling_flag(c: char) -> Option<u8> {
    if c == 'K' {
        Some(1u8)
    } else if c == 'Q' {
        Some(2u8)
    } else if c == 'q' {
        Some(4u8)
    } else if c == 'k' {
        Some(8u8)
    } else {
        None
    }
}

/// The flags that the first `n` letters of the castling field add up to.
pub open spec fn castling_flags(s: Seq<char>, n: nat) -> Option<u8>
    decreases n,
{
    if n == 0 {
        Some(0u8)
    } else {
        match (castling_flags(s, (n - 1) as nat), castling_flag(s[n - 1])) {
            (Some(rights), Some(flag)) => Some(rights | flag),
            _ => None,
        }
    }
}

/// The castling rights that the third field names: none for `-`, else the
/// flags of its letters.
pub open spec fn parse_castling(s: Seq<char>) -> Option<u8> {
    if s.len() == 1 && s[0] == '-' {
        Some(0u8)
    } else {
        castling_flags(s, s.len())
    }
}

/// The en-passant target that the fourth field names: none for `-`, else
/// the square of a file letter and a rank digit.
pub open spec fn parse_en_passant(s: Seq<char>) -> Option<Option<Square>> {
    if s.len() == 1 && s[0] == '-' {
        Some(None)
    } else if s.len() == 2 && Square::file_of_char(s[0]) is Some && Square::rank_of_char(s[1])
        is Some {
        Some(Some(Square::at(8 * Square::rank_of_char(s[1])->0 + Square::file_of_char(s[0])->0)))
    } else {
        None
    }
}

/// The number that the first `n` characters of `s` spell in decimal, or
/// `None` when one of them is no digit.
pub open spec fn decimal(s: Seq<char>, n: nat) -> Option<nat>
    decreases n,
{
    if n == 0 {
        Some(0nat)
    } else {
        match decimal(s, (n - 1) as nat) {
            Some(v) => if '0' <= s[n - 1] <= '9' {
                Some((10 * v + (s[n - 1] as int - '0' as int)) as nat)
            } else {
                None
            },
            None => None,
        }
    }
}

/// The value of a clock field: a decimal number of at least one digit that
/// fits the machine's word.
pub open spec fn parse_clock(s: Seq<char>) -> Option<nat> {
    if s.len() == 0 {
        None
    } else {
        match decimal(s, s.len()) {
            Some(v) => if v <= usize::MAX {
                Some(v)
            } else {
                None
            },
            None => None,
        }
    }
}

/// The position that a record describes, or the first field that cannot be
/// read.
pub open spec fn parse_fen(s: Seq<char>) -> Result<Position, FenError> {
    let placement = match field(s, 0) {
        Some(f) => parse_placement(f),
        None => None,
    };
    let side = match field(s, 1) {
        Some(f) => parse_side(f),
        None => None,
    };
    let castling = match field(s, 2) {
        Some(f) => parse_castling(f),
        None => None,
    };
    let en_passant = match field(s, 3) {
        Some(f) => parse_en_passant(f),
        None => None,
    };
    let halfmove = match field(s, 4) {
        Some(f) => parse_clock(f),
        None => None,
    };
    let fullmove = match field(s, 5) {
        Some(f) => parse_clock(f),
        None => None,
    };
    if placement is None {
        Err(FenError::Placement)
    } else if side is None {
        Err(FenError::SideToMove)
    } else if castling is None {
        Err(FenError::Castling)
    } else if en_passant is None {
        Err(FenError::EnPassant)
    } else if halfmove is None {
        Err(FenError::HalfmoveClock)
    } else if fullmove is None {
        Err(FenError::FullmoveClock)
    } else {
        Ok(
            Position {
                board: placement->0,
                to_move: side->0,
                castling_rights: castling->0,
                en_passant_square: en_passant->0,
                halfmove_clock: halfmove->0,
                fullmove_clock: fullmove->0,
            },
        )
    }
}

/// Once a prefix of the placement cannot be read, no longer prefix can.
proof fn lemma_placement_stuck(s: Seq<char>, n: nat, m: nat)
    requires
        n <= m,
        placement_cursor(s, n) is None,
    ensures
        placement_cursor(s, m) is None,
    decreases m,
{
    if n < m {
        lemma_placement_stuck(s, n, (m - 1) as nat);
    }
}

/// Once a prefix of the castling field cannot be read, no longer prefix can.
proof fn lemma_castling_stuck(s: Seq<char>, n: nat, m: nat)
    requires
        n <= m,
        castling_flags(s, n) is None,
    ensures
        castling_flags(s, m) is None,
    decreases m,
{
    if n < m {
        lemma_castling_stuck(s, n, (m - 1) as nat);
    }
}

/// Once a prefix is no number, no longer prefix is, and the value of a
/// prefix never exceeds the value of a longer one.
proof fn lemma_decimal_grows(s: Seq<char>, n: nat, m: nat)
    requires
        n <= m,
    ensures
        decimal(s, n) is None ==> decimal(s, m) is None,
        decimal(s, m) is Some ==> decimal(s, n) is Some && decimal(s, n)->0 <= decimal(s, m)->0,
    decreases m,
{
    if n < m {
        lemma_decimal_grows(s, n, (m - 1) as nat);
    }
}

/// The characters of `chars` from `start` up to `end`.
fn copy_range(chars: &Vec<char>, start: usize, end: usize) -> (r: Vec<char>)
    requires
        start <= end <= chars.len(),
    ensures
        r@ == chars@.subrange(start as int, end as int),
{
    let mut r: Vec<char> = Vec::new();
    let mut i = start;
    while i < end
        invariant
            start <= i <= end <= chars.len(),
            r@ == chars@.subrange(start as int, i as int),
        decreases end - i,
    {
        r.push(chars[i]);
        i += 1;
    }
    r
}

/// The index of the first space at or after `from`.
fn find_field_end(chars: &Vec<char>, from: usize) -> (end: usize)
    requires
        from <= chars.len(),
    ensures
        end == field_end(chars@, from as int),
        from <= end <= chars.len(),
{
    let mut i = from;
    while i < chars.len() && chars[i] != ' '
        invariant
            from <= i <= chars.len(),
            field_end(chars@, from as int) == field_end(chars@, i as int),
        decreases chars.len() - i,
    {
        i += 1;
    }
    i
}

/// Puts a piece on an empty square.
fn place(game: &mut Game, s: Square, color: Color, piece: Piece)
    requires
        old(game).wf(),
        !old(game)@.occupied(s),
    ensures
        final(game).wf(),
        final(game)@.board == old(game)@.board.insert(s, (color, piece)),
        final(game).to_move == old(game).to_move,
        final(game).castling_rights == old(game).castling_rights,
        final(game).en_passant_square == old(game).en_passant_square,
        final(game).halfmove_clock == old(game).halfmove_clock,
        final(game).fullmove_clock == old(game).fullmove_clock,
{
    let mask = s.to_u64();
    let c = color as usize;
    let p = piece as usize;
    game.color_bitboards[c] = Bitboard(game.color_bitboards[c].0 | mask);
    game.piece_bitboards[p] = Bitboard(game.piece_bitboards[p].0 | mask);
    proof {
        let colors = old(game).color_bitboards@;
        let pieces = old(game).piece_bitboards@;
        assert(square_agrees(colors, pieces, s));
        Bitboard::lemma_insert(colors[c as int], s);
        Bitboard::lemma_insert(pieces[p as int], s);
        lemma_rewritten(
            colors,
            pieces,
            game.color_bitboards@,
            game.piece_bitboards@,
            s,
            Some((color, piece)),
        );
    }
}

/// Reads the piece placement onto an empty board.
fn read_placement(field: &Vec<char>) -> (r: Option<Game>)
    ensures
        match r {
            Some(game) => {
                &&& game.wf()
                &&& parse_placement(field@) == Some(game@.board)
            },
            None => parse_placement(field@) is None,
        },
{
    let mut game = Game::empty();
    let mut file: u8 = 0;
    let mut rank: u8 = 7;
    let mut i: usize = 0;
    while i < field.len()
        invariant
            i <= field.len(),
            file <= 8,
            rank <= 7,
            game.wf(),
            placement_cursor(field@, i as nat) == Some(
                Cursor { board: game@.board, file: file as int, rank: rank as int },
            ),
            forall|s: Square|
                game@.occupied(s) ==> s.rank() > rank || (s.rank() == rank && s.file() < file),
        decreases field.len() - i,
    {
        let c = field[i];
        if c >= '1' && c <= '8' {
            let files: u8 = (c as u8) - ('0' as u8);
            if file + files > 8 {
                proof {
                    lemma_placement_stuck(field@, (i + 1) as nat, field@.len());
                }
                return None;
            }
            file = file + files;
        } else if c == '/' {
            if file != 8 || rank == 0 {
                proof {
                    lemma_placement_stuck(field@, (i + 1) as nat, field@.len());
                }
                return None;
            }
            file = 0;
            rank = rank - 1;
        } else if is_piece_char(c) {
            if file >= 8 {
                proof {
                    lemma_placement_stuck(field@, (i + 1) as nat, field@.len());
                }
                return None;
            }
            let square = Square::from_u8(rank * 8 + file);
            let color = if c >= 'a' && c <= 'z' {
                Color::BLACK
            } else {
                Color::WHITE
            };
            let piece = Piece::from_char(&c);
            proof {
                square.lemma_index();
            }
            place(&mut game, square, color, piece);
            file = file + 1;
        } else {
            proof {
                lemma_placement_stuck(field@, (i + 1) as nat, field@.len());
            }
            return None;
        }
        i += 1;
    }
    if file == 8 && rank == 0 {
        Some(game)
    } else {
        None
    }
}

/// Whether the character is a piece letter of either case.
fn is_piece_char(c: char) -> (r: bool)
    ensures
        r == Piece::of_char(c) is Some,
{
    c == 'p' || c == 'P' || c == 'n' || c == 'N' || c == 'b' || c == 'B' || c == 'r' || c == 'R'
        || c == 'q' || c == 'Q' || c == 'k' || c == 'K'
}

/// Reads the side to move.
fn read_side(field: &Vec<char>) -> (r: Option<Color>)
    ensures
        r == parse_side(field@),
{
    if field.len() != 1 {
        None
    } else if field[0] == 'w' {
        Some(Color::WHITE)
    } else if field[0] == 'b' {
        Some(Color::BLACK)
    } else {
        None
    }
}

/// Reads the castling rights.
fn read_castling(field: &Vec<char>) -> (r: Option<u8>)
    ensures
        r == parse_castling(field@),
{
    if field.len() == 1 && field[0] == '-' {
        return Some(0);
    }
    let mut rights: u8 = 0;
    let mut i: usize = 0;
    while i < field.len()
        invariant
            i <= field.len(),
            !(field.len() == 1 && field[0] == '-'),
            castling_flags(field@, i as nat) == Some(rights),
        decreases field.len() - i,
    {
        let flag: u8 = match field[i] {
            'K' => 1,
            'Q' => 2,
            'q' => 4,
            'k' => 8,
            _ => {
                proof {
                    lemma_castling_stuck(field@, (i + 1) as nat, field@.len());
                }
                return None;
            },
        };
        rights = rights | flag;
        i += 1;
    }
    Some(rights)
}

/// Reads the en-passant target.
fn read_en_passant(field: &Vec<char>) -> (r: Option<Option<Square>>)
    ensures
        r == parse_en_passant(field@),
{
    if field.len() == 1 && field[0] == '-' {
        Some(None)
    } else if field.len() == 2 {
        match Square::from_parts(&field[0], &field[1]) {
            Ok(square) => {
                Some(Some(square))
            },
            Err(_) => None,
        }
    } else {
        None
    }
}

/// Reads a clock.
fn read_clock(field: &Vec<char>) -> (r: Option<usize>)
    ensures
        match r {
            Some(v) => parse_clock(field@) == Some(v as nat),
            None => parse_clock(field@) is None,
        },
{
    if field.len() == 0 {
        return None;
    }
    let mut value: usize = 0;
    let mut i: usize = 0;
    while i < field.len()
        invariant
            i <= field.len(),
            decimal(field@, i as nat) == Some(value as nat),
        decreases field.len() - i,
    {
        let c = field[i];
        if !(c >= '0' && c <= '9') {
            proof {
                lemma_decimal_grows(field@, (i + 1) as nat, field@.len());
            }
            return None;
        }
        let digit: usize = ((c as u8) - ('0' as u8)) as usize;
        if value > (usize::MAX - digit) / 10 {
            proof {
                lemma_decimal_grows(field@, (i + 1) as nat, field@.len());
            }
            return None;
        }
        value = 10 * value + digit;
        i += 1;
    }
    Some(value)
}

/// The characters of the string.
fn to_chars(text: &str) -> (r: Vec<char>)
    ensures
        r@ == text@,
{
    let n = text.unicode_len();
    let mut r: Vec<char> = Vec::new();
    let mut i: usize = 0;
    while i < n
        invariant
            i <= n,
            n == text@.len(),
            r@ == text@.subrange(0, i as int),
        decreases n - i,
    {
        r.push(text.get_char(i));
        i += 1;
    }
    r
}

/// Cuts the next field out of the record. `start` is where it begins, or
/// `None` when the record has ended before it. The result holds the field
/// and the start of the field after it.
fn take_field(chars: &Vec<char>, start: Option<usize>, Ghost(i): Ghost<nat>) -> (r: Option<
    (Vec<char>, Option<usize>),
>)
    requires
        match start {
            Some(a) => a == field_start(chars@, i) && a <= chars.len(),
            None => field_start(chars@, i) > chars.len(),
        },
    ensures
        match r {
            Some((f, next)) => field(chars@, i) == Some(f@) && match next {
                Some(b) => b == field_start(chars@, i + 1) && b <= chars.len(),
                None => field_start(chars@, i + 1) > chars.len(),
            },
            None => field(chars@, i) is None && field_start(chars@, i + 1) > chars.len(),
        },
{
    match start {
        Some(start) => {
            let end = find_field_end(chars, start);
            let next = if end < chars.len() {
                Some(end + 1)
            } else {
                None
            };
            Some((copy_range(chars, start, end), next))
        },
        None => None,
    }
}

/// A field ends at or behind its start, and within the record when it
/// starts within.
proof fn lemma_field_end_bounds(s: Seq<char>, from: int)
    ensures
        from >= s.len() ==> field_end(s, from) == s.len(),
        0 <= from <= s.len() ==> from <= field_end(s, from) <= s.len(),
    decreases s.len() - from,
{
    if 0 <= from < s.len() && s[from] != ' ' {
        lemma_field_end_bounds(s, from + 1);
    }
}

impl Game {
    /// Reads a position from a record in Forsyth-Edwards notation, or names
    /// the first field that cannot be read.
    ///
    /// Every rank of the placement must be eight files long. The castling
    /// letters may come in any order, and an empty castling field means no
    /// rights, as `-` does.
    pub fn from_fen(fen: &str) -> (r: Result<Game, FenError>)
        ensures
            match r {
                Ok(game) => game.wf() && parse_fen(fen@) == Ok::<Position, FenError>(game@),
                Err(e) => parse_fen(fen@) == Err::<Position, FenError>(e),
            },
    {
        let chars = to_chars(fen);
        let (placement, next) = match take_field(&chars, Some(0), Ghost(0)) {
            Some((f, next)) => (read_placement(&f), next),
            None => (None, None),
        };
        let (side, next) = match take_field(&chars, next, Ghost(1)) {
            Some((f, next)) => (read_side(&f), next),
            None => (None, None),
        };
        let (castling, next) = match take_field(&chars, next, Ghost(2)) {
            Some((f, next)) => (read_castling(&f), next),
            None => (None, None),
        };
        let (en_passant, next) = match take_field(&chars, next, Ghost(3)) {
            Some((f, next)) => (read_en_passant(&f), next),
            None => (None, None),
        };
        let (halfmove, next) = match take_field(&chars, next, Ghost(4)) {
            Some((f, next)) => (read_clock(&f), next),
            None => (None, None),
        };
        let fullmove = match take_field(&chars, next, Ghost(5)) {
            Some((f, _)) => read_clock(&f),
            None => None,
        };
        let mut game = match placement {
            Some(game) => game,
            None => {
                return Err(FenError::Placement);
            },
        };
        game.to_move = match side {
            Some(side) => side,
            None => {
                return Err(FenError::SideToMove);
            },
        };
        game.castling_rights = match castling {
            Some(castling) => castling,
            None => {
                return Err(FenError::Castling);
            },
        };
        game.en_passant_square = match en_passant {
            Some(en_passant) => en_passant,
            None => {
                return Err(FenError::EnPassant);
            },
        };
        game.halfmove_clock = match halfmove {
            Some(halfmove) => halfmove,
            None => {
                return Err(FenError::HalfmoveClock);
            },
        };
        game.fullmove_clock = match fullmove {
            Some(fullmove) => fullmove,
            None => {
                return Err(FenError::FullmoveClock);
            },
        };
        Ok(game)
    }
}

} // verus!
