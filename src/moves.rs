use vstd::prelude::*;

use crate::bits::occ;
use crate::generators::{RANK_1, RANK_8};
use crate::pieces::{Piece, PieceKind};
use crate::position::BBPosition;

verus! {

#[derive(Debug, Clone, Copy, PartialEq, Eq, Hash, Structural)]
pub enum CastleSide {
    Queen,
    King,
}

#[derive(Debug, Clone, Copy, PartialEq, Eq, Hash, Structural)]
pub enum MoveKind {
    Standard { from: u8, to: u8 },
    Castle(CastleSide),
    Promote { from: u8, to: u8, to_piece: PieceKind },
}

/// A move, with the piece that makes it (the king, for castling).
#[derive(Debug, Clone, Copy, PartialEq, Eq, Hash, Structural)]
pub struct Move {
    pub piece: Piece,
    pub action: MoveKind,
}

impl Move {
    /// The squares of the move lie on the board.
    pub open spec fn well_formed(self) -> bool {
        match self.action {
            MoveKind::Standard { from, to } => from < 64 && to < 64,
            MoveKind::Castle(_) => true,
            MoveKind::Promote { from, to, .. } => from < 64 && to < 64,
        }
    }

    /// The destination square, for moves other than castling.
    pub open spec fn target(self) -> Option<int> {
        match self.action {
            MoveKind::Standard { to, .. } => Some(to as int),
            MoveKind::Castle(_) => None,
            MoveKind::Promote { to, .. } => Some(to as int),
        }
    }

    /// The origin square, for moves other than castling.
    pub open spec fn origin(self) -> Option<int> {
        match self.action {
            MoveKind::Standard { from, .. } => Some(from as int),
            MoveKind::Castle(_) => None,
            MoveKind::Promote { from, .. } => Some(from as int),
        }
    }

    pub open spec fn is_promotion_spec(self) -> bool {
        match self.action {
            MoveKind::Standard { to, .. } => self.piece.kind == PieceKind::Pawn && (to < 8 || to
                >= 56),
            MoveKind::Castle(_) => false,
            MoveKind::Promote { .. } => true,
        }
    }

    pub open spec fn is_capture_spec(self, position: BBPosition) -> bool {
        match self.target() {
            Some(to) => occ(position.by_color(self.piece.color.opponent()), to),
            None => false,
        }
    }

    /// A promotion, or a pawn move that lands on the first or last rank.
    pub fn is_promotion(&self) -> (r: bool)
        requires
            self.well_formed(),
        ensures
            r == self.is_promotion_spec(),
    {
        match self.action {
            MoveKind::Standard { from: _, to } => {
                let b = 1u64 << (to as u64);
                let on_edge = b & RANK_8 != 0 || b & RANK_1 != 0;
                proof {
                    let t = to as u64;
                    assert(((1u64 << t) & 0xff00_0000_0000_0000u64 != 0 || (1u64 << t)
                        & 0x0000_0000_0000_00ffu64 != 0) <==> (t < 8 || t >= 56)) by (bit_vector)
                        requires
                            t < 64,
                    ;
                }
                matches!(self.piece.kind, PieceKind::Pawn) && on_edge
            },
            MoveKind::Castle(_) => false,
            MoveKind::Promote { .. } => true,
        }
    }

    /// Whether the move lands on a piece of the other side.
    pub fn is_capture(&self, position: &BBPosition) -> (r: bool)
        requires
            self.well_formed(),
        ensures
            r == self.is_capture_spec(*position),
    {
        match self.action {
            MoveKind::Castle(_) => false,
            MoveKind::Standard { from: _, to } | MoveKind::Promote { from: _, to, to_piece: _ } => {
                let enemies = position.occupied_by(self.piece.color.other());
                (enemies.bits >> (to as u64)) & 1 == 1
            },
        }
    }
}

/// The castling move of a side.
pub open spec fn castle_move(color: crate::pieces::Color, side: CastleSide) -> Move {
    Move { piece: Piece { color, kind: PieceKind::King }, action: MoveKind::Castle(side) }
}

} // verus!
