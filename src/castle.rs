//! Castling rights, how moves take them away, and when castling is offered.
use vstd::prelude::*;

use crate::bits::occ;
use crate::board::Board;
use crate::fen::ChessError;
use crate::moves::{castle_move, CastleSide, Move, MoveKind};
use crate::pieces::{Color, Piece, PieceKind};
use crate::position::{castle_squares, BBPosition};

verus! {

/// The castling rights of one side.
#[derive(Debug, Clone, Copy, PartialEq, Eq, Hash, Structural)]
pub enum Castle {
    No,
    King,
    Queen,
    Both,
}

pub open spec fn has_side(c: Castle, side: CastleSide) -> bool {
    match side {
        CastleSide::King => c == Castle::King || c == Castle::Both,
        CastleSide::Queen => c == Castle::Queen || c == Castle::Both,
    }
}

pub open spec fn castle_of(king: bool, queen: bool) -> Castle {
    if king && queen {
        Castle::Both
    } else if king {
        Castle::King
    } else if queen {
        Castle::Queen
    } else {
        Castle::No
    }
}

/// Every side that `a` allows, `b` allows too.
pub open spec fn castle_subset(a: Castle, b: Castle) -> bool {
    (has_side(a, CastleSide::King) ==> has_side(b, CastleSide::King)) && (has_side(
        a,
        CastleSide::Queen,
    ) ==> has_side(b, CastleSide::Queen))
}

/// Where the rook of `color` stands before castling on `side`.
pub open spec fn rook_home(color: Color, side: CastleSide) -> int {
    castle_squares(color, side).2
}

/// Whether move `m` takes from `color` the right to castle on `side`: the
/// king moves, that rook leaves its square, or the other side lands there.
pub open spec fn loses_side(color: Color, side: CastleSide, m: Move) -> bool {
    ||| (m.piece.color == color && m.piece.kind == PieceKind::King)
    ||| (m.piece.color == color && m.piece.kind == PieceKind::Rook && m.origin() == Some(
        rook_home(color, side),
    ))
    ||| (m.piece.color != color && m.target() == Some(rook_home(color, side)))
}

/// The rights of `color` after move `m`.
pub open spec fn rights_after(c: Castle, color: Color, m: Move) -> Castle {
    castle_of(
        has_side(c, CastleSide::King) && !loses_side(color, CastleSide::King, m),
        has_side(c, CastleSide::Queen) && !loses_side(color, CastleSide::Queen, m),
    )
}

/// The castling field of a position description: "-" or a non-empty
/// subsequence of "KQkq".
pub open spec fn castling_of_token(s: Seq<char>) -> Option<(Castle, Castle)> {
    if s =~= seq!['-'] {
        Some((Castle::No, Castle::No))
    } else if 1 <= s.len() <= 4 && (forall|i: int| 0 <= i < s.len() ==> castling_letter_index(s[i])
        >= 0) && (forall|i: int, j: int|
        0 <= i < j < s.len() ==> castling_letter_index(s[i]) < castling_letter_index(s[j])) {
        Some(
            (
                castle_of(s.contains('K'), s.contains('Q')),
                castle_of(s.contains('k'), s.contains('q')),
            ),
        )
    } else {
        None
    }
}

/// Place of a letter in "KQkq", or -1.
pub open spec fn castling_letter_index(c: char) -> int {
    if c == 'K' {
        0
    } else if c == 'Q' {
        1
    } else if c == 'k' {
        2
    } else if c == 'q' {
        3
    } else {
        -1
    }
}

/// Squares between king and rook that must be empty to castle.
pub open spec fn castle_empty_mask(color: Color, side: CastleSide) -> u64 {
    match (color, side) {
        (Color::White, CastleSide::King) => 0x06u64,
        (Color::White, CastleSide::Queen) => 0x70u64,
        (Color::Black, CastleSide::King) => 0x0600_0000_0000_0000u64,
        (Color::Black, CastleSide::Queen) => 0x7000_0000_0000_0000u64,
    }
}

/// Squares the king stands on or crosses, which must not be attacked.
pub open spec fn castle_safe_mask(color: Color, side: CastleSide) -> u64 {
    match (color, side) {
        (Color::White, CastleSide::King) => 0x0eu64,
        (Color::White, CastleSide::Queen) => 0x38u64,
        (Color::Black, CastleSide::King) => 0x0e00_0000_0000_0000u64,
        (Color::Black, CastleSide::Queen) => 0x3800_0000_0000_0000u64,
    }
}

/// Whether the side to move may castle on `side` given its `rights`: the
/// right is kept, the squares between king and rook are empty, and the king's start, transit and landing squares are not
/// attacked (so castling is never offered while in check).
pub open spec fn can_castle(board: Board, rights: Castle, side: CastleSide) -> bool {
    let pos = board.position;
    let c = board.turn;
    &&& has_side(rights, side)
    &&& pos.occupied() & castle_empty_mask(c, side) == 0
    &&& pos.attacked_by(c.opponent()) & castle_safe_mask(c, side) == 0
}

impl Castle {
    /// Reads the castling field of a position description into White's
    /// and Black's rights.
    pub fn from_str(s: &str) -> (r: Result<(Castle, Castle), ChessError>)
        ensures
            r == match castling_of_token(s@) {
                Some(c) => Ok(c),
                None => Err(ChessError::InvalidCastling),
            },
    {
        match crate::fen::read_castling(&crate::fen::chars_of(s)) {
            Some(c) => Ok(c),
            None => Err(ChessError::InvalidCastling),
        }
    }
}

fn side_allowed(rights: Castle, side: CastleSide) -> (r: bool)
    ensures
        r == has_side(rights, side),
{
    match side {
        CastleSide::King => matches!(rights, Castle::King | Castle::Both),
        CastleSide::Queen => matches!(rights, Castle::Queen | Castle::Both),
    }
}

fn castle_if_possible(board: &Board, rights: Castle, side: CastleSide) -> (r: Option<Move>)
    ensures
        r == if can_castle(*board, rights, side) {
            Some(castle_move(board.turn, side))
        } else {
            None
        },
{
    let c = board.turn;
    let (empty_mask, safe_mask): (u64, u64) = match (c, side) {
        (Color::White, CastleSide::King) => (0x06u64, 0x0eu64),
        (Color::White, CastleSide::Queen) => (0x70u64, 0x38u64),
        (Color::Black, CastleSide::King) => (0x0600_0000_0000_0000u64, 0x0e00_0000_0000_0000u64),
        (Color::Black, CastleSide::Queen) => (0x7000_0000_0000_0000u64, 0x3800_0000_0000_0000u64),
    };
    if !side_allowed(rights, side) {
        return None;
    }
    if board.position.occupied_cells().bits & empty_mask != 0 {
        return None;
    }
    if board.position.attacked_squares(c.other()).bits & safe_mask != 0 {
        return None;
    }
    Some(Move { piece: Piece { color: c, kind: PieceKind::King }, action: MoveKind::Castle(side) })
}

/// The castling moves open to the side to move, given both sides' rights:
/// king side first, then queen side.
pub fn available_castling_moves(board: &Board, white_can_castle: Castle, black_can_castle: Castle) -> (r: (Option<Move>, Option<Move>))
    ensures
        ({
            let rights = match board.turn {
                Color::White => white_can_castle,
                Color::Black => black_can_castle,
            };
            &&& r.0 == if can_castle(*board, rights, CastleSide::King) {
                Some(castle_move(board.turn, CastleSide::King))
            } else {
                None
            }
            &&& r.1 == if can_castle(*board, rights, CastleSide::Queen) {
                Some(castle_move(board.turn, CastleSide::Queen))
            } else {
                None
            }
        }),
{
    let rights = match board.turn {
        Color::White => white_can_castle,
        Color::Black => black_can_castle,
    };
    (castle_if_possible(board, rights, CastleSide::King), castle_if_possible(board, rights, CastleSide::Queen))
}

/// The position after side `turn` castles on `side`.
pub fn bitboards_after_castling(current_bitboards: &BBPosition, turn: Color, side: CastleSide) -> (r: BBPosition)
    ensures
        r == current_bitboards.after_castling(turn, side),
        current_bitboards.wf() && current_bitboards.castle_ready(turn, side) ==> r.wf(),
{
    current_bitboards.position_after_castling(turn, side)
}

/// The castling moves open to the side to move on `board`.
pub fn castling_moves(board: &Board) -> (r: Vec<Move>)
    ensures
        forall|i: int|
            0 <= i < r.len() ==> match #[trigger] r[i].action {
                MoveKind::Castle(side) => r[i] == castle_move(board.turn, side) && can_castle(
                    *board,
                    board.rights_of_turn(),
                    side,
                ),
                _ => false,
            },
        forall|side: CastleSide|
            can_castle(*board, board.rights_of_turn(), side) ==> r@.contains(
                #[trigger] castle_move(board.turn, side),
            ),
        forall|i: int, j: int| 0 <= i < j < r.len() ==> r@[i] != r@[j],
{
    let (k, q) = available_castling_moves(board, board.white_can_castle, board.black_can_castle);
    let mut r: Vec<Move> = Vec::new();
    if let Some(m) = k {
        r.push(m);
    }
    if let Some(m) = q {
        r.push(m);
    }
    proof {
        if r.len() == 2 {
            assert(r@[0] == castle_move(board.turn, CastleSide::King));
            assert(r@[1] == castle_move(board.turn, CastleSide::Queen));
        }
        assert forall|side: CastleSide| can_castle(*board, board.rights_of_turn(), side) implies r@.contains(
            #[trigger] castle_move(board.turn, side),
        ) by {
            match side {
                CastleSide::King => {
                    assert(r@[0] == castle_move(board.turn, side));
                },
                CastleSide::Queen => {
                    assert(r@[r.len() - 1] == castle_move(board.turn, side));
                },
            }
        }
        assert forall|i: int| 0 <= i < r.len() implies match #[trigger] r[i].action {
            MoveKind::Castle(side) => r[i] == castle_move(board.turn, side) && can_castle(
                *board,
                board.rights_of_turn(),
                side,
            ),
            _ => false,
        } by {
            if k is Some && i == 0 {
                assert(r[i] == castle_move(board.turn, CastleSide::King));
            } else {
                assert(r[i] == castle_move(board.turn, CastleSide::Queen));
            }
        }
    }
    r
}

} // verus!
