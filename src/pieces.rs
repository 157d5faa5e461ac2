use vstd::prelude::*;

use crate::bits::{count_below, occ, squares_below, squares_of, lemma_squares_below};
use crate::fen::ChessError;

verus! {

#[derive(Debug, Clone, Copy, PartialEq, Eq, Hash, Structural)]
pub enum Color {
    White,
    Black,
}

impl Color {
    pub open spec fn opponent(self) -> Color {
        match self {
            Color::White => Color::Black,
            Color::Black => Color::White,
        }
    }

    pub fn other(&self) -> (r: Color)
        ensures
            r == self.opponent(),
    {
        match self {
            Color::White => Color::Black,
            Color::Black => Color::White,
        }
    }

    /// Reads a side to move: "w" or "b", in either case.
    pub fn turn_from_str(s: &str) -> (r: Result<Color, ChessError>)
        ensures
            r == match color_of_token(s@) {
                Some(c) => Ok(c),
                None => Err(ChessError::InvalidColor),
            },
    {
        match crate::fen::read_color(&crate::fen::chars_of(s)) {
            Some(c) => Ok(c),
            None => Err(ChessError::InvalidColor),
        }
    }
}

pub open spec fn color_of_token(s: Seq<char>) -> Option<Color> {
    if s.len() == 1 && (s[0] == 'w' || s[0] == 'W') {
        Some(Color::White)
    } else if s.len() == 1 && (s[0] == 'b' || s[0] == 'B') {
        Some(Color::Black)
    } else {
        None
    }
}

#[derive(Debug, Clone, Copy, PartialEq, Eq, Hash, Structural)]
pub enum PieceKind {
    Pawn,
    Knight,
    Bishop,
    Rook,
    Queen,
    King,
}

/// The material value of a king: a sentinel far above all other material.
pub const KING_VALUE: i64 = 1_000_000_000;

impl PieceKind {
    pub open spec fn value_spec(self) -> i64 {
        match self {
            PieceKind::Pawn => 1000,
            PieceKind::Knight => 3000,
            PieceKind::Bishop => 3100,
            PieceKind::Rook => 5000,
            PieceKind::Queen => 9000,
            PieceKind::King => KING_VALUE,
        }
    }

    pub open spec fn attacked_value_spec(self) -> i64 {
        match self {
            PieceKind::Pawn => 100,
            PieceKind::Knight => 300,
            PieceKind::Bishop => 310,
            PieceKind::Rook => 500,
            PieceKind::Queen => 900,
            PieceKind::King => 1000,
        }
    }

    /// Material value, used for the evaluation and for capture ordering.
    pub fn value(&self) -> (r: i64)
        ensures
            r == self.value_spec(),
    {
        match self {
            PieceKind::Pawn => 1000,
            PieceKind::Knight => 3000,
            PieceKind::Bishop => 3100,
            PieceKind::Rook => 5000,
            PieceKind::Queen => 9000,
            PieceKind::King => KING_VALUE,
        }
    }

    /// Value of attacking a piece of this kind.
    pub fn attacked_value(&self) -> (r: i64)
        ensures
            r == self.attacked_value_spec(),
    {
        match self {
            PieceKind::Pawn => 100,
            PieceKind::Knight => 300,
            PieceKind::Bishop => 310,
            PieceKind::Rook => 500,
            PieceKind::Queen => 900,
            PieceKind::King => 1000,
        }
    }
}

#[derive(Debug, Clone, Copy, PartialEq, Eq, Hash, Structural)]
pub struct Piece {
    pub color: Color,
    pub kind: PieceKind,
}

/// The piece that a placement letter stands for: upper case for White.
pub open spec fn piece_of_char(c: char) -> Option<Piece> {
    let color = if 'A' <= c <= 'Z' { Color::White } else { Color::Black };
    let kind = if c == 'p' || c == 'P' {
        Some(PieceKind::Pawn)
    } else if c == 'n' || c == 'N' {
        Some(PieceKind::Knight)
    } else if c == 'b' || c == 'B' {
        Some(PieceKind::Bishop)
    } else if c == 'r' || c == 'R' {
        Some(PieceKind::Rook)
    } else if c == 'q' || c == 'Q' {
        Some(PieceKind::Queen)
    } else if c == 'k' || c == 'K' {
        Some(PieceKind::King)
    } else {
        None
    };
    match kind {
        Some(k) => Some(Piece { color, kind: k }),
        None => None,
    }
}

/// The placement letter of a piece.
pub open spec fn char_of_piece(p: Piece) -> char {
    match (p.color, p.kind) {
        (Color::White, PieceKind::Pawn) => 'P',
        (Color::White, PieceKind::Knight) => 'N',
        (Color::White, PieceKind::Bishop) => 'B',
        (Color::White, PieceKind::Rook) => 'R',
        (Color::White, PieceKind::Queen) => 'Q',
        (Color::White, PieceKind::King) => 'K',
        (Color::Black, PieceKind::Pawn) => 'p',
        (Color::Black, PieceKind::Knight) => 'n',
        (Color::Black, PieceKind::Bishop) => 'b',
        (Color::Black, PieceKind::Rook) => 'r',
        (Color::Black, PieceKind::Queen) => 'q',
        (Color::Black, PieceKind::King) => 'k',
    }
}

pub proof fn lemma_char_of_piece(p: Piece)
    ensures
        piece_of_char(char_of_piece(p)) == Some(p),
        !('0' <= char_of_piece(p) <= '9'),
        char_of_piece(p) != '/',
{
}

impl Piece {
    pub fn new(color: Color, kind: PieceKind) -> (r: Piece)
        ensures
            r == (Piece { color, kind }),
    {
        Piece { color, kind }
    }

    /// Reads a placement letter (`p n b r q k`, upper case for White).
    pub fn from_char(c: char) -> (r: Result<Piece, ChessError>)
        ensures
            r == match piece_of_char(c) {
                Some(p) => Ok(p),
                None => Err(ChessError::InvalidPiece),
            },
    {
        let color = if 'A' <= c && c <= 'Z' { Color::White } else { Color::Black };
        let kind = if c == 'p' || c == 'P' {
            PieceKind::Pawn
        } else if c == 'n' || c == 'N' {
            PieceKind::Knight
        } else if c == 'b' || c == 'B' {
            PieceKind::Bishop
        } else if c == 'r' || c == 'R' {
            PieceKind::Rook
        } else if c == 'q' || c == 'Q' {
            PieceKind::Queen
        } else if c == 'k' || c == 'K' {
            PieceKind::King
        } else {
            return Err(ChessError::InvalidPiece);
        };
        Ok(Piece { color, kind })
    }

    /// The placement letter of this piece.
    pub fn to_char(&self) -> (r: char)
        ensures
            r == char_of_piece(*self),
    {
        match (self.color, self.kind) {
            (Color::White, PieceKind::Pawn) => 'P',
            (Color::White, PieceKind::Knight) => 'N',
            (Color::White, PieceKind::Bishop) => 'B',
            (Color::White, PieceKind::Rook) => 'R',
            (Color::White, PieceKind::Queen) => 'Q',
            (Color::White, PieceKind::King) => 'K',
            (Color::Black, PieceKind::Pawn) => 'p',
            (Color::Black, PieceKind::Knight) => 'n',
            (Color::Black, PieceKind::Bishop) => 'b',
            (Color::Black, PieceKind::Rook) => 'r',
            (Color::Black, PieceKind::Queen) => 'q',
            (Color::Black, PieceKind::King) => 'k',
        }
    }
}

/// The twelve pieces, White's first, each side from pawn to king.
pub open spec fn piece_order() -> Seq<Piece> {
    seq![
        Piece { color: Color::White, kind: PieceKind::Pawn },
        Piece { color: Color::White, kind: PieceKind::Knight },
        Piece { color: Color::White, kind: PieceKind::Bishop },
        Piece { color: Color::White, kind: PieceKind::Rook },
        Piece { color: Color::White, kind: PieceKind::Queen },
        Piece { color: Color::White, kind: PieceKind::King },
        Piece { color: Color::Black, kind: PieceKind::Pawn },
        Piece { color: Color::Black, kind: PieceKind::Knight },
        Piece { color: Color::Black, kind: PieceKind::Bishop },
        Piece { color: Color::Black, kind: PieceKind::Rook },
        Piece { color: Color::Black, kind: PieceKind::Queen },
        Piece { color: Color::Black, kind: PieceKind::King },
    ]
}

/// The twelve pieces in `piece_order`.
pub fn all_pieces() -> (r: Vec<Piece>)
    ensures
        r@ == piece_order(),
{
    let r = vec![
        Piece { color: Color::White, kind: PieceKind::Pawn },
        Piece { color: Color::White, kind: PieceKind::Knight },
        Piece { color: Color::White, kind: PieceKind::Bishop },
        Piece { color: Color::White, kind: PieceKind::Rook },
        Piece { color: Color::White, kind: PieceKind::Queen },
        Piece { color: Color::White, kind: PieceKind::King },
        Piece { color: Color::Black, kind: PieceKind::Pawn },
        Piece { color: Color::Black, kind: PieceKind::Knight },
        Piece { color: Color::Black, kind: PieceKind::Bishop },
        Piece { color: Color::Black, kind: PieceKind::Rook },
        Piece { color: Color::Black, kind: PieceKind::Queen },
        Piece { color: Color::Black, kind: PieceKind::King },
    ];
    assert(r@ =~= piece_order());
    r
}

#[derive(Debug, Clone, Copy, PartialEq, Eq, Hash, Structural)]
pub struct Bitboard {
    pub bits: u64,
}

impl Bitboard {
    pub fn new(bits: u64) -> (r: Bitboard)
        ensures
            r.bits == bits,
    {
        Bitboard { bits }
    }

    /// The squares set in this bitboard, in increasing order.
    pub fn single_squares(&self) -> (r: Vec<u8>)
        ensures
            r@ == squares_of(self.bits),
            forall|i: int| 0 <= i < r.len() ==> r[i] < 64 && occ(self.bits, r[i] as int),
            forall|s: int| 0 <= s < 64 && occ(self.bits, s) ==> r@.contains(s as u8),
    {
        let mut r: Vec<u8> = Vec::new();
        let mut sq: u8 = 0;
        while sq < 64
            invariant
                sq <= 64,
                r@ == squares_below(self.bits, sq as int),
            decreases 64 - sq,
        {
            if (self.bits >> (sq as u64)) & 1 == 1 {
                r.push(sq);
            }
            sq = sq + 1;
        }
        proof {
            lemma_squares_below(self.bits, 64);
        }
        r
    }

    /// Number of set squares.
    pub fn count_bits(&self) -> (r: u32)
        ensures
            r == count_below(self.bits, 64),
            r <= 64,
    {
        let mut count: u32 = 0;
        let mut sq: u8 = 0;
        while sq < 64
            invariant
                sq <= 64,
                count == count_below(self.bits, sq as int),
                count <= sq,
            decreases 64 - sq,
        {
            if (self.bits >> (sq as u64)) & 1 == 1 {
                count = count + 1;
            }
            sq = sq + 1;
        }
        count
    }
}

} // verus!
