//! Position representation and move generation for chess on 64-bit bitboards.
//!
//! Squares are numbered file-major within rank: a1 is 0, h1 is 7, a8 is 56 and
//! h8 is 63. Every contract in the crate speaks of squares through
//! [`Square::index`], [`Square::file`] and [`Square::rank`].
//!
//! - [`bits`] and [`bitboard`]: single bits of a pattern and sets of squares.
//! - [`attacks`]: which squares a piece reaches, stated over files and ranks,
//!   and the ray walk that computes the attacks of rooks and bishops.
//! - [`magics`]: the sliding-attack tables. A table is built from one
//!   multiplier per square and answers every lookup as the ray walk does.
//! - [`position`]: the model of a position, of applying a move and of the
//!   moves a piece may make.
//! - [`game`]: the position as bitboards, with [`game::Game::make_move`] as
//!   the one operation that changes it.
//! - [`movegen`]: the destinations of each piece and the legal moves.
//! - [`fen`] and [`text`]: reading a position from a record and showing it.
//! - [`laws`]: what holds of every position and every move.
//!
//! The functions that read a [`game::Game`] ask for one whose bitboards
//! agree. [`game::Game::default`], [`game::Game::from_fen`] and
//! [`game::Game::make_move`] give such games, and
//! [`game::Game::is_well_formed`] tells whether a game built by hand is one.
use vstd::prelude::*;

pub mod attacks;
pub mod bitboard;
pub mod bits;
pub mod fen;
pub mod game;
pub mod laws;
pub mod magics;
pub mod movegen;
pub mod position;
pub mod text;

verus! {

/// The side a piece belongs to.
#[derive(Debug, Copy, Clone, Eq, PartialEq, Structural)]
pub enum Color {
    WHITE,
    BLACK,
}

impl Color {
    /// Position of the color in per-color arrays: 0 for white, 1 for black.
    pub open spec fn index(self) -> int {
        match self {
            Color::WHITE => 0,
            Color::BLACK => 1,
        }
    }

    /// The other side.
    pub open spec fn other(self) -> Color {
        match self {
            Color::WHITE => Color::BLACK,
            Color::BLACK => Color::WHITE,
        }
    }

    /// The color with the given index.
    pub fn from_u8(v: u8) -> (c: Self)
        requires
            v < 2,
        ensures
            c.index() == v,
    {
        if v == 0 {
            Color::WHITE
        } else {
            Color::BLACK
        }
    }

    /// The other side.
    #[verifier::when_used_as_spec(other)]
    pub fn opposite(self) -> (c: Color)
        ensures
            c == self.other(),
            c.index() == 1 - self.index(),
    {
        match self {
            Color::WHITE => Color::BLACK,
            Color::BLACK => Color::WHITE,
        }
    }
}

/// `color ^ 0` is the color itself and `color ^ 1` the other side.
impl std::ops::BitXor<u8> for Color {
    type Output = Color;

    fn bitxor(self, rhs: u8) -> (c: Color) {
        if rhs == 0 {
            self
        } else {
            self.opposite()
        }
    }
}

impl vstd::std_specs::ops::BitXorSpecImpl<u8> for Color {
    open spec fn obeys_bitxor_spec() -> bool {
        true
    }

    open spec fn bitxor_req(self, rhs: u8) -> bool {
        rhs <= 1
    }

    open spec fn bitxor_spec(self, rhs: u8) -> Color {
        if rhs == 0 {
            self
        } else {
            self.other()
        }
    }
}

/// One record of a sliding-attack table: the occupancy bits that matter for a
/// square, the multiplier that hashes them, the shift that cuts the product
/// down to an index and the place of the square's block in the flat table.
#[derive(Debug, Copy, Clone)]
pub struct MagicTableEntry {
    pub mask: u64,
    pub magic: u64,
    pub shift: u8,
    pub offset: u32,
}

/// The kind of a piece.
#[derive(Debug, Clone, Copy, Eq, PartialEq, Structural)]
pub enum Piece {
    PAWN,
    KNIGHT,
    BISHOP,
    ROOK,
    QUEEN,
    KING,
}

impl Piece {
    /// Position of the kind in per-piece arrays, from 0 for pawns to 5 for kings.
    pub open spec fn index(self) -> int {
        match self {
            Piece::PAWN => 0,
            Piece::KNIGHT => 1,
            Piece::BISHOP => 2,
            Piece::ROOK => 3,
            Piece::QUEEN => 4,
            Piece::KING => 5,
        }
    }

    /// The kind that a letter of either case stands for, if any.
    pub open spec fn of_char(c: char) -> Option<Piece> {
        if c == 'p' || c == 'P' {
            Some(Piece::PAWN)
        } else if c == 'n' || c == 'N' {
            Some(Piece::KNIGHT)
        } else if c == 'b' || c == 'B' {
            Some(Piece::BISHOP)
        } else if c == 'r' || c == 'R' {
            Some(Piece::ROOK)
        } else if c == 'q' || c == 'Q' {
            Some(Piece::QUEEN)
        } else if c == 'k' || c == 'K' {
            Some(Piece::KING)
        } else {
            None
        }
    }

    /// Whether the kind moves along rays: bishop, rook or queen.
    pub open spec fn is_slider(self) -> bool {
        self == Piece::BISHOP || self == Piece::ROOK || self == Piece::QUEEN
    }

    /// The kind that a piece letter of either case stands for.
    pub fn from_char(c: &char) -> (p: Self)
        requires
            Piece::of_char(*c) is Some,
        ensures
            Some(p) == Piece::of_char(*c),
    {
        let c = *c;
        if c == 'p' || c == 'P' {
            Piece::PAWN
        } else if c == 'n' || c == 'N' {
            Piece::KNIGHT
        } else if c == 'b' || c == 'B' {
            Piece::BISHOP
        } else if c == 'r' || c == 'R' {
            Piece::ROOK
        } else if c == 'q' || c == 'Q' {
            Piece::QUEEN
        } else {
            Piece::KING
        }
    }

    /// The kind with the given index.
    pub fn from_u8(i: u8) -> (p: Self)
        requires
            i < 6,
        ensures
            p.index() == i,
    {
        match i {
            0 => Piece::PAWN,
            1 => Piece::KNIGHT,
            2 => Piece::BISHOP,
            3 => Piece::ROOK,
            4 => Piece::QUEEN,
            _ => Piece::KING,
        }
    }
}

/// Names for the four castling flags and their unions, as bits of a `u8`.
#[derive(Debug)]
pub struct CastlingRights;

impl CastlingRights {
    /// No side may castle.
    pub const NO_LEGAL: u8 = 0;

    /// White may castle with the rook on h1.
    pub const WHITE_KINGSIDE: u8 = 1;

    /// White may castle with the rook on a1.
    pub const WHITE_QUEENSIDE: u8 = 2;

    /// Black may castle with the rook on a8.
    pub const BLACK_QUEENSIDE: u8 = 4;

    /// Black may castle with the rook on h8.
    pub const BLACK_KINGSIDE: u8 = 8;

    /// Both kingside flags.
    pub const BOTH_KINGSIDES: u8 = 9;

    /// Both queenside flags.
    pub const BOTH_QUEENSIDES: u8 = 6;

    /// Both flags of white.
    pub const WHITE_CASTLING: u8 = 3;

    /// Both flags of black.
    pub const BLACK_CASTLING: u8 = 12;

    /// All four flags.
    pub const ALL_LEGAL: u8 = 15;
}

/// A move names the square a piece leaves and the square it lands on. Whether
/// it captures, castles or takes en passant is read off the position it is
/// applied to.
#[derive(Debug, Copy, Clone, Eq, PartialEq, Structural)]
pub struct Move {
    pub start: Square,
    pub end: Square,
}

/// A rank of the board, from the first at white's side to the eighth.
#[derive(Debug, Copy, Clone, Eq, PartialEq, Structural)]
pub enum Rank {
    FIRST,
    SECOND,
    THIRD,
    FOURTH,
    FIFTH,
    SIXTH,
    SEVENTH,
    EIGHTH,
}

impl Rank {
    /// Number of the rank, from 0 for the first to 7 for the eighth.
    pub open spec fn index(self) -> int {
        match self {
            Rank::FIRST => 0,
            Rank::SECOND => 1,
            Rank::THIRD => 2,
            Rank::FOURTH => 3,
            Rank::FIFTH => 4,
            Rank::SIXTH => 5,
            Rank::SEVENTH => 6,
            Rank::EIGHTH => 7,
        }
    }

    /// The rank with the given number.
    pub fn from_u8(r: u8) -> (rank: Self)
        requires
            r < 8,
        ensures
            rank.index() == r,
    {
        match r {
            0 => Rank::FIRST,
            1 => Rank::SECOND,
            2 => Rank::THIRD,
            3 => Rank::FOURTH,
            4 => Rank::FIFTH,
            5 => Rank::SIXTH,
            6 => Rank::SEVENTH,
            _ => Rank::EIGHTH,
        }
    }
}

/// A file of the board, from the a-file to the h-file.
#[derive(Debug, Copy, Clone, Eq, PartialEq, Structural)]
pub enum File {
    A,
    B,
    C,
    D,
    E,
    F,
    G,
    H,
}

impl File {
    /// Number of the file, from 0 for the a-file to 7 for the h-file.
    pub open spec fn index(self) -> int {
        match self {
            File::A => 0,
            File::B => 1,
            File::C => 2,
            File::D => 3,
            File::E => 4,
            File::F => 5,
            File::G => 6,
            File::H => 7,
        }
    }

    /// The file with the given number.
    pub fn from_u8(f: u8) -> (file: Self)
        requires
            f < 8,
        ensures
            file.index() == f,
    {
        match f {
            0 => File::A,
            1 => File::B,
            2 => File::C,
            3 => File::D,
            4 => File::E,
            5 => File::F,
            6 => File::G,
            _ => File::H,
        }
    }
}

/// One of the 64 squares, rank by rank from a1 to h8.
#[derive(Debug, Copy, Clone, Eq, PartialEq, Structural)]
pub enum Square {
    A1,
    B1,
    C1,
    D1,
    E1,
    F1,
    G1,
    H1,
    A2,
    B2,
    C2,
    D2,
    E2,
    F2,
    G2,
    H2,
    A3,
    B3,
    C3,
    D3,
    E3,
    F3,
    G3,
    H3,
    A4,
    B4,
    C4,
    D4,
    E4,
    F4,
    G4,
    H4,
    A5,
    B5,
    C5,
    D5,
    E5,
    F5,
    G5,
    H5,
    A6,
    B6,
    C6,
    D6,
    E6,
    F6,
    G6,
    H6,
    A7,
    B7,
    C7,
    D7,
    E7,
    F7,
    G7,
    H7,
    A8,
    B8,
    C8,
    D8,
    E8,
    F8,
    G8,
    H8,
}

/// Why two characters do not name a square.
#[derive(Debug, Copy, Clone, Eq, PartialEq, Structural)]
pub enum SquareError {
    /// The first character is not a file letter from `a` to `h`.
    FileOutOfBounds,
    /// The second character is not a rank digit from `1` to `8`.
    RankOutOfBounds,
}

/// Whether a file and a rank, both counted from 0, lie on the board.
pub open spec fn on_board(file: int, rank: int) -> bool {
    0 <= file < 8 && 0 <= rank < 8
}

impl Square {
    /// Number of the square, from 0 for a1 to 63 for h8.
    pub open spec fn index(self) -> int {
        self as int
    }

    /// File of the square, from 0 for the a-file to 7 for the h-file.
    pub open spec fn file(self) -> int {
        self.index() % 8
    }

    /// Rank of the square, from 0 for the first rank to 7 for the eighth.
    pub open spec fn rank(self) -> int {
        self.index() / 8
    }

    /// The bitboard pattern with only this square's bit set.
    pub open spec fn mask(self) -> u64 {
        1u64 << (self.index() as u64)
    }

    /// The file that a lower-case letter names.
    pub open spec fn file_of_char(c: char) -> Option<int> {
        if 'a' <= c <= 'h' {
            Some(c as int - 'a' as int)
        } else {
            None
        }
    }

    /// The rank that a digit names.
    pub open spec fn rank_of_char(d: char) -> Option<int> {
        if '1' <= d <= '8' {
            Some(d as int - '1' as int)
        } else {
            None
        }
    }

    /// Every square has a number below 64, which is eight times its rank plus
    /// its file.
    pub proof fn lemma_index(self)
        ensures
            0 <= self.index() < 64,
            on_board(self.file(), self.rank()),
            self.index() == 8 * self.rank() + self.file(),
    {
    }

    /// The square with a given number below 64.
    pub open spec fn at(i: int) -> Square {
        if i == 0 {
            Square::A1
        } else if i == 1 {
            Square::B1
        } else if i == 2 {
            Square::C1
        } else if i == 3 {
            Square::D1
        } else if i == 4 {
            Square::E1
        } else if i == 5 {
            Square::F1
        } else if i == 6 {
            Square::G1
        } else if i == 7 {
            Square::H1
        } else if i == 8 {
            Square::A2
        } else if i == 9 {
            Square::B2
        } else if i == 10 {
            Square::C2
        } else if i == 11 {
            Square::D2
        } else if i == 12 {
            Square::E2
        } else if i == 13 {
            Square::F2
        } else if i == 14 {
            Square::G2
        } else if i == 15 {
            Square::H2
        } else if i == 16 {
            Square::A3
        } else if i == 17 {
            Square::B3
        } else if i == 18 {
            Square::C3
        } else if i == 19 {
            Square::D3
        } else if i == 20 {
            Square::E3
        } else if i == 21 {
            Square::F3
        } else if i == 22 {
            Square::G3
        } else if i == 23 {
            Square::H3
        } else if i == 24 {
            Square::A4
        } else if i == 25 {
            Square::B4
        } else if i == 26 {
            Square::C4
        } else if i == 27 {
            Square::D4
        } else if i == 28 {
            Square::E4
        } else if i == 29 {
            Square::F4
        } else if i == 30 {
            Square::G4
        } else if i == 31 {
            Square::H4
        } else if i == 32 {
            Square::A5
        } else if i == 33 {
            Square::B5
        } else if i == 34 {
            Square::C5
        } else if i == 35 {
            Square::D5
        } else if i == 36 {
            Square::E5
        } else if i == 37 {
            Square::F5
        } else if i == 38 {
            Square::G5
        } else if i == 39 {
            Square::H5
        } else if i == 40 {
            Square::A6
        } else if i == 41 {
            Square::B6
        } else if i == 42 {
            Square::C6
        } else if i == 43 {
            Square::D6
        } else if i == 44 {
            Square::E6
        } else if i == 45 {
            Square::F6
        } else if i == 46 {
            Square::G6
        } else if i == 47 {
            Square::H6
        } else if i == 48 {
            Square::A7
        } else if i == 49 {
            Square::B7
        } else if i == 50 {
            Square::C7
        } else if i == 51 {
            Square::D7
        } else if i == 52 {
            Square::E7
        } else if i == 53 {
            Square::F7
        } else if i == 54 {
            Square::G7
        } else if i == 55 {
            Square::H7
        } else if i == 56 {
            Square::A8
        } else if i == 57 {
            Square::B8
        } else if i == 58 {
            Square::C8
        } else if i == 59 {
            Square::D8
        } else if i == 60 {
            Square::E8
        } else if i == 61 {
            Square::F8
        } else if i == 62 {
            Square::G8
        } else {
            Square::H8
        }
    }

    /// Every number below 64 is the number of a square.
    pub proof fn lemma_every_index(i: int)
        requires
            0 <= i < 64,
        ensures
            Square::at(i).index() == i,
            exists|s: Square| s.index() == i,
    {
        assert(Square::at(i).index() == i);
    }

    /// Squares with the same number are the same square.
    pub proof fn lemma_index_injective(a: Square, b: Square)
        requires
            a.index() == b.index(),
        ensures
            a == b,
    {
    }

    /// Reads a square from a file letter and a rank digit. The file is looked
    /// at first: when neither character fits, the error names the file.
    pub fn from_parts(c: &char, d: &char) -> (r: Result<Self, SquareError>)
        ensures
            match r {
                Ok(s) => Square::file_of_char(*c) == Some(s.file()) && Square::rank_of_char(*d)
                    == Some(s.rank()),
                Err(SquareError::FileOutOfBounds) => Square::file_of_char(*c) is None,
                Err(SquareError::RankOutOfBounds) => Square::file_of_char(*c) is Some
                    && Square::rank_of_char(*d) is None,
            },
    {
        let file: u8 = match *c {
            'a' => 0,
            'b' => 1,
            'c' => 2,
            'd' => 3,
            'e' => 4,
            'f' => 5,
            'g' => 6,
            'h' => 7,
            _ => {
                return Err(SquareError::FileOutOfBounds);
            },
        };
        let rank: u8 = match *d {
            '1' => 0,
            '2' => 1,
            '3' => 2,
            '4' => 3,
            '5' => 4,
            '6' => 5,
            '7' => 6,
            '8' => 7,
            _ => {
                return Err(SquareError::RankOutOfBounds);
            },
        };
        Ok(Square::from_u8(file + rank * 8))
    }

    /// The square with the given number.
    pub fn from_u8(v: u8) -> (s: Self)
        requires
            v < 64,
        ensures
            s.index() == v,
    {
        match v {
            0 => Square::A1,
            1 => Square::B1,
            2 => Square::C1,
            3 => Square::D1,
            4 => Square::E1,
            5 => Square::F1,
            6 => Square::G1,
            7 => Square::H1,
            8 => Square::A2,
            9 => Square::B2,
            10 => Square::C2,
            11 => Square::D2,
            12 => Square::E2,
            13 => Square::F2,
            14 => Square::G2,
            15 => Square::H2,
            16 => Square::A3,
            17 => Square::B3,
            18 => Square::C3,
            19 => Square::D3,
            20 => Square::E3,
            21 => Square::F3,
            22 => Square::G3,
            23 => Square::H3,
            24 => Square::A4,
            25 => Square::B4,
            26 => Square::C4,
            27 => Square::D4,
            28 => Square::E4,
            29 => Square::F4,
            30 => Square::G4,
            31 => Square::H4,
            32 => Square::A5,
            33 => Square::B5,
            34 => Square::C5,
            35 => Square::D5,
            36 => Square::E5,
            37 => Square::F5,
            38 => Square::G5,
            39 => Square::H5,
            40 => Square::A6,
            41 => Square::B6,
            42 => Square::C6,
            43 => Square::D6,
            44 => Square::E6,
            45 => Square::F6,
            46 => Square::G6,
            47 => Square::H6,
            48 => Square::A7,
            49 => Square::B7,
            50 => Square::C7,
            51 => Square::D7,
            52 => Square::E7,
            53 => Square::F7,
            54 => Square::G7,
            55 => Square::H7,
            56 => Square::A8,
            57 => Square::B8,
            58 => Square::C8,
            59 => Square::D8,
            60 => Square::E8,
            61 => Square::F8,
            62 => Square::G8,
            _ => Square::H8,
        }
    }

    /// Number of the square as a machine integer.
    pub fn to_u8(self) -> (v: u8)
        ensures
            v == self.index(),
            v < 64,
    {
        self as u8
    }

    /// The bitboard pattern with only this square's bit set.
    pub fn to_u64(self) -> (v: u64)
        ensures
            v == self.mask(),
    {
        1u64 << (self as u8)
    }

    /// The rank of the square.
    pub fn get_rank(self) -> (r: Rank)
        ensures
            r.index() == self.rank(),
    {
        Rank::from_u8(self as u8 / 8)
    }

    /// The file of the square.
    pub fn get_file(self) -> (f: File)
        ensures
            f.index() == self.file(),
    {
        File::from_u8(self as u8 % 8)
    }
}

/// The square `dx` files and `dy` ranks away from `square`, or `None` when that
/// place is off the board.
pub fn try_square_offset(square: Square, dx: i8, dy: i8) -> (r: Option<Square>)
    ensures
        match r {
            Some(t) => t.file() == square.file() + dx && t.rank() == square.rank() + dy,
            None => !on_board(square.file() + dx, square.rank() + dy),
        },
{
    let index: u8 = square.to_u8();
    let new_file: i16 = (index % 8) as i16 + dx as i16;
    let new_rank: i16 = (index / 8) as i16 + dy as i16;
    if new_file >= 0 && new_file < 8 && new_rank >= 0 && new_rank < 8 {
        Some(Square::from_u8((new_rank * 8 + new_file) as u8))
    } else {
        None
    }
}

} // verus!
