//! The full game state and the transition that one move makes.
use vstd::prelude::*;

use crate::bits::occ;
use crate::castle::{castle_subset, rights_after, Castle};
use crate::moves::{Move, MoveKind};
use crate::pieces::{Bitboard, Color, PieceKind};
use crate::position::{lemma_after_move_wf, BBPosition};

verus! {

#[derive(Debug, Clone, Copy, PartialEq, Eq, Structural)]
pub struct Board {
    pub position: BBPosition,
    pub turn: Color,
    /// The square capturable en passant on this move, or no square.
    pub en_passant_target: Bitboard,
    pub white_can_castle: Castle,
    pub black_can_castle: Castle,
    /// Half-moves since the last pawn move or capture.
    pub reps_50: u8,
    pub moves_count: u32,
}

/// Whether a move resets the fifty-move counter: a pawn move or a capture.
pub open spec fn resets_fifty(pos: BBPosition, m: Move) -> bool {
    match m.action {
        MoveKind::Standard { to, .. } => m.piece.kind == PieceKind::Pawn || occ(
            pos.occupied(),
            to as int,
        ),
        MoveKind::Castle(_) => false,
        MoveKind::Promote { .. } => true,
    }
}

impl Board {
    pub open spec fn wf(self) -> bool {
        self.position.wf()
    }

    /// The castling rights of the side to move.
    pub open spec fn rights_of_turn(self) -> Castle {
        match self.turn {
            Color::White => self.white_can_castle,
            Color::Black => self.black_can_castle,
        }
    }

    /// The board after move `m`, legal or not. Counters stop at their
    /// largest value instead of wrapping.
    pub open spec fn next_spec(self, m: Move) -> Board {
        Board {
            position: self.position.after_move(m),
            turn: self.turn.opponent(),
            en_passant_target: Bitboard { bits: self.position.en_passant_spec(m) },
            white_can_castle: rights_after(self.white_can_castle, Color::White, m),
            black_can_castle: rights_after(self.black_can_castle, Color::Black, m),
            reps_50: if resets_fifty(self.position, m) {
                0
            } else if self.reps_50 == 255 {
                255
            } else {
                (self.reps_50 + 1) as u8
            },
            moves_count: if self.moves_count == 0xffff_ffff {
                self.moves_count
            } else {
                (self.moves_count + 1) as u32
            },
        }
    }

    /// Squares attacked by side `side`.
    pub fn attacked_squares(&self, side: Color) -> (r: Bitboard)
        ensures
            r.bits == self.position.attacked_by(side),
    {
        self.position.attacked_squares(side)
    }

    /// White's and Black's castling rights after `player_move`.
    pub fn calculate_castling_rights(&self, player_move: Move) -> (r: (Castle, Castle))
        requires
            player_move.well_formed(),
        ensures
            r.0 == rights_after(self.white_can_castle, Color::White, player_move),
            r.1 == rights_after(self.black_can_castle, Color::Black, player_move),
    {
        (
            side_rights_after(self.white_can_castle, Color::White, player_move),
            side_rights_after(self.black_can_castle, Color::Black, player_move),
        )
    }

    /// Whether `player_move` resets the fifty-move counter.
    pub fn reset_50_moves(&self, player_move: Move) -> (r: bool)
        requires
            player_move.well_formed(),
        ensures
            r == resets_fifty(self.position, player_move),
    {
        match player_move.action {
            MoveKind::Standard { from: _, to } => {
                let occupied = self.position.occupied_cells();
                matches!(player_move.piece.kind, PieceKind::Pawn) || (occupied.bits >> (to as u64))
                    & 1 == 1
            },
            MoveKind::Castle(_) => false,
            MoveKind::Promote { .. } => true,
        }
    }

    /// Makes a move: position, turn, en passant target, castling rights and
    /// counters. Legality is not checked.
    pub fn make_unchecked_move(&self, player_move: Move) -> (r: Board)
        requires
            player_move.well_formed(),
        ensures
            r == self.next_spec(player_move),
            self.wf() && self.position.move_ready(player_move) ==> r.wf(),
    {
        let position = self.position.inner_make_unchecked_move(&player_move);
        let turn = self.turn.other();
        let en_passant_target = self.position.calculate_en_passant_target(&player_move);
        let (white_can_castle, black_can_castle) = self.calculate_castling_rights(player_move);
        let reps_50 = if self.reset_50_moves(player_move) {
            0
        } else if self.reps_50 == 255 {
            255
        } else {
            self.reps_50 + 1
        };
        let moves_count = if self.moves_count == 0xffff_ffff {
            self.moves_count
        } else {
            self.moves_count + 1
        };
        Board {
            position,
            turn,
            en_passant_target,
            white_can_castle,
            black_can_castle,
            reps_50,
            moves_count,
        }
    }
}

/// The board after playing `moves` in order, legal or not.
pub open spec fn play(board: Board, moves: Seq<Move>) -> Board
    decreases moves.len(),
{
    if moves.len() == 0 {
        board
    } else {
        play(board, moves.drop_last()).next_spec(moves.last())
    }
}

/// Every board reached from a well-formed board has at most one piece on
/// each square, when each castling finds its landing squares empty (as every
/// generated castling does).
pub proof fn lemma_play_keeps_one_piece_per_square(board: Board, moves: Seq<Move>)
    requires
        board.wf(),
        forall|i: int| 0 <= i < moves.len() ==> (#[trigger] moves[i]).well_formed(),
        forall|i: int|
            0 <= i < moves.len() ==> play(board, moves.subrange(0, i)).position.move_ready(
                #[trigger] moves[i],
            ),
    ensures
        play(board, moves).wf(),
    decreases moves.len(),
{
    if moves.len() > 0 {
        let front = moves.drop_last();
        assert forall|i: int| 0 <= i < front.len() implies play(board, front.subrange(0, i)).position.move_ready(
            #[trigger] front[i],
        ) by {
            assert(front.subrange(0, i) =~= moves.subrange(0, i));
            assert(front[i] == moves[i]);
        }
        lemma_play_keeps_one_piece_per_square(board, front);
        assert(moves.subrange(0, moves.len() - 1) =~= front);
        assert(play(board, moves.subrange(0, moves.len() - 1)).position.move_ready(moves[moves.len() - 1]));
        lemma_after_move_wf(play(board, front).position, moves.last());
    }
}

/// Castling rights never grow along a sequence of moves: each side keeps at
/// most the rights it started with.
pub proof fn lemma_play_castling_rights_never_grow(board: Board, moves: Seq<Move>)
    ensures
        castle_subset(play(board, moves).white_can_castle, board.white_can_castle),
        castle_subset(play(board, moves).black_can_castle, board.black_can_castle),
    decreases moves.len(),
{
    if moves.len() > 0 {
        lemma_play_castling_rights_never_grow(board, moves.drop_last());
    }
}

fn loses(color: Color, king_side: bool, m: Move) -> (r: bool)
    requires
        m.well_formed(),
    ensures
        r == crate::castle::loses_side(
            color,
            if king_side {
                crate::moves::CastleSide::King
            } else {
                crate::moves::CastleSide::Queen
            },
            m,
        ),
{
    let base: u8 = match color {
        Color::White => 0,
        Color::Black => 56,
    };
    let home: u8 = if king_side {
        base
    } else {
        base + 7
    };
    let own = m.piece.color == color;
    if own && matches!(m.piece.kind, PieceKind::King) {
        return true;
    }
    match m.action {
        MoveKind::Standard { from, to } => (own && matches!(m.piece.kind, PieceKind::Rook) && from
            == home) || (!own && to == home),
        MoveKind::Promote { from, to, to_piece: _ } => (own && matches!(m.piece.kind, PieceKind::Rook)
            && from == home) || (!own && to == home),
        MoveKind::Castle(_) => false,
    }
}

fn side_rights_after(c: Castle, color: Color, m: Move) -> (r: Castle)
    requires
        m.well_formed(),
    ensures
        r == rights_after(c, color, m),
{
    let king = matches!(c, Castle::King | Castle::Both) && !loses(color, true, m);
    let queen = matches!(c, Castle::Queen | Castle::Both) && !loses(color, false, m);
    if king && queen {
        Castle::Both
    } else if king {
        Castle::King
    } else if queen {
        Castle::Queen
    } else {
        Castle::No
    }
}

} // verus!
