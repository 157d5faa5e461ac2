//! The twelve piece bitboards of a position, and what can be read from them.
use vstd::prelude::*;

use crate::bits::{is_square, lemma_has_ops, lemma_has_sq_bit, occ, sq_bit};
use crate::generators::{
    bishop, black_pawn, black_pawn_attack, king, knight, queen, rook, white_pawn, white_pawn_attack,
    bishop_mask, black_pawn_attack_mask, black_push_mask, king_mask, knight_mask, queen_mask,
    rook_mask, white_pawn_attack_mask, white_push_mask,
};
use crate::moves::{CastleSide, Move, MoveKind};
use crate::pieces::{Bitboard, Color, Piece, PieceKind};

verus! {

#[derive(Debug, Clone, Copy, PartialEq, Eq, Structural)]
pub struct BBPosition {
    pub white_pawn: Bitboard,
    pub white_knight: Bitboard,
    pub white_bishop: Bitboard,
    pub white_rook: Bitboard,
    pub white_queen: Bitboard,
    pub white_king: Bitboard,
    pub black_pawn: Bitboard,
    pub black_knight: Bitboard,
    pub black_bishop: Bitboard,
    pub black_rook: Bitboard,
    pub black_queen: Bitboard,
    pub black_king: Bitboard,
}

/// Where the king and the rook go when castling, and where the rook starts:
/// (king's start, king's target, rook's start, rook's target).
pub open spec fn castle_squares(color: Color, side: CastleSide) -> (int, int, int, int) {
    let base: int = match color {
        Color::White => 0,
        Color::Black => 56,
    };
    match side {
        CastleSide::King => (base + 3, base + 1, base, base + 2),
        CastleSide::Queen => (base + 3, base + 5, base + 7, base + 4),
    }
}

/// The empty position, as a value.
pub open spec fn empty_position() -> BBPosition {
    let z = Bitboard { bits: 0 };
    BBPosition {
        white_pawn: z,
        white_knight: z,
        white_bishop: z,
        white_rook: z,
        white_queen: z,
        white_king: z,
        black_pawn: z,
        black_knight: z,
        black_bishop: z,
        black_rook: z,
        black_queen: z,
        black_king: z,
    }
}

impl BBPosition {
    /// The bitboard of one piece.
    pub open spec fn get_spec(self, p: Piece) -> u64 {
        match (p.color, p.kind) {
            (Color::White, PieceKind::Pawn) => self.white_pawn.bits,
            (Color::White, PieceKind::Knight) => self.white_knight.bits,
            (Color::White, PieceKind::Bishop) => self.white_bishop.bits,
            (Color::White, PieceKind::Rook) => self.white_rook.bits,
            (Color::White, PieceKind::Queen) => self.white_queen.bits,
            (Color::White, PieceKind::King) => self.white_king.bits,
            (Color::Black, PieceKind::Pawn) => self.black_pawn.bits,
            (Color::Black, PieceKind::Knight) => self.black_knight.bits,
            (Color::Black, PieceKind::Bishop) => self.black_bishop.bits,
            (Color::Black, PieceKind::Rook) => self.black_rook.bits,
            (Color::Black, PieceKind::Queen) => self.black_queen.bits,
            (Color::Black, PieceKind::King) => self.black_king.bits,
        }
    }

    /// This position with the bitboard of `p` replaced.
    pub open spec fn set_spec(self, p: Piece, b: u64) -> BBPosition {
        let bb = Bitboard { bits: b };
        match (p.color, p.kind) {
            (Color::White, PieceKind::Pawn) => BBPosition { white_pawn: bb, ..self },
            (Color::White, PieceKind::Knight) => BBPosition { white_knight: bb, ..self },
            (Color::White, PieceKind::Bishop) => BBPosition { white_bishop: bb, ..self },
            (Color::White, PieceKind::Rook) => BBPosition { white_rook: bb, ..self },
            (Color::White, PieceKind::Queen) => BBPosition { white_queen: bb, ..self },
            (Color::White, PieceKind::King) => BBPosition { white_king: bb, ..self },
            (Color::Black, PieceKind::Pawn) => BBPosition { black_pawn: bb, ..self },
            (Color::Black, PieceKind::Knight) => BBPosition { black_knight: bb, ..self },
            (Color::Black, PieceKind::Bishop) => BBPosition { black_bishop: bb, ..self },
            (Color::Black, PieceKind::Rook) => BBPosition { black_rook: bb, ..self },
            (Color::Black, PieceKind::Queen) => BBPosition { black_queen: bb, ..self },
            (Color::Black, PieceKind::King) => BBPosition { black_king: bb, ..self },
        }
    }

    /// The piece on square `s`: the first of the twelve bitboards, White's
    /// pawns first, that holds the square.
    pub open spec fn at(self, s: int) -> Option<Piece> {
        if occ(self.white_pawn.bits, s) {
            Some(Piece { color: Color::White, kind: PieceKind::Pawn })
        } else if occ(self.white_knight.bits, s) {
            Some(Piece { color: Color::White, kind: PieceKind::Knight })
        } else if occ(self.white_bishop.bits, s) {
            Some(Piece { color: Color::White, kind: PieceKind::Bishop })
        } else if occ(self.white_rook.bits, s) {
            Some(Piece { color: Color::White, kind: PieceKind::Rook })
        } else if occ(self.white_queen.bits, s) {
            Some(Piece { color: Color::White, kind: PieceKind::Queen })
        } else if occ(self.white_king.bits, s) {
            Some(Piece { color: Color::White, kind: PieceKind::King })
        } else if occ(self.black_pawn.bits, s) {
            Some(Piece { color: Color::Black, kind: PieceKind::Pawn })
        } else if occ(self.black_knight.bits, s) {
            Some(Piece { color: Color::Black, kind: PieceKind::Knight })
        } else if occ(self.black_bishop.bits, s) {
            Some(Piece { color: Color::Black, kind: PieceKind::Bishop })
        } else if occ(self.black_rook.bits, s) {
            Some(Piece { color: Color::Black, kind: PieceKind::Rook })
        } else if occ(self.black_queen.bits, s) {
            Some(Piece { color: Color::Black, kind: PieceKind::Queen })
        } else if occ(self.black_king.bits, s) {
            Some(Piece { color: Color::Black, kind: PieceKind::King })
        } else {
            None
        }
    }

    /// No two pieces share a square: a square held by the bitboard of `p`
    /// holds `p` and nothing else.
    pub open spec fn wf(self) -> bool {
        forall|p: Piece, s: int|
            #![trigger occ(self.get_spec(p), s)]
            is_square(s) && occ(self.get_spec(p), s) ==> self.at(s) == Some(p)
    }

    /// Squares held by the pieces of one side.
    pub open spec fn by_color(self, c: Color) -> u64 {
        match c {
            Color::White => self.white_pawn.bits | self.white_knight.bits | self.white_bishop.bits
                | self.white_rook.bits | self.white_queen.bits | self.white_king.bits,
            Color::Black => self.black_pawn.bits | self.black_knight.bits | self.black_bishop.bits
                | self.black_rook.bits | self.black_queen.bits | self.black_king.bits,
        }
    }

    /// Squares held by any piece.
    pub open spec fn occupied(self) -> u64 {
        self.by_color(Color::White) | self.by_color(Color::Black)
    }

    /// This position with square `sq` emptied.
    pub open spec fn without(self, sq: int) -> BBPosition {
        let m = !sq_bit(sq);
        BBPosition {
            white_pawn: Bitboard { bits: self.white_pawn.bits & m },
            white_knight: Bitboard { bits: self.white_knight.bits & m },
            white_bishop: Bitboard { bits: self.white_bishop.bits & m },
            white_rook: Bitboard { bits: self.white_rook.bits & m },
            white_queen: Bitboard { bits: self.white_queen.bits & m },
            white_king: Bitboard { bits: self.white_king.bits & m },
            black_pawn: Bitboard { bits: self.black_pawn.bits & m },
            black_knight: Bitboard { bits: self.black_knight.bits & m },
            black_bishop: Bitboard { bits: self.black_bishop.bits & m },
            black_rook: Bitboard { bits: self.black_rook.bits & m },
            black_queen: Bitboard { bits: self.black_queen.bits & m },
            black_king: Bitboard { bits: self.black_king.bits & m },
        }
    }

    /// This position with `p` alone on square `sq`.
    pub open spec fn with_piece(self, sq: int, p: Piece) -> BBPosition {
        let c = self.without(sq);
        c.set_spec(p, c.get_spec(p) | sq_bit(sq))
    }

    /// Squares attacked by `piece` standing on the squares of `o`: the
    /// squares it could move to, and for pawns both diagonals whatever stands
    /// there.
    pub open spec fn attacks_spec(self, piece: Piece, o: u64) -> u64 {
        let own = self.by_color(piece.color);
        let enemies = self.by_color(piece.color.opponent());
        match (piece.kind, piece.color) {
            (PieceKind::Pawn, Color::White) => white_pawn_attack_mask(o) & 0xffff_ffff_ffff_ffffu64,
            (PieceKind::Pawn, Color::Black) => black_pawn_attack_mask(o) & 0xffff_ffff_ffff_ffffu64,
            (PieceKind::Knight, _) => knight_mask(o) & !own,
            (PieceKind::Bishop, _) => bishop_mask(o, own, enemies),
            (PieceKind::Rook, _) => rook_mask(o, own, enemies),
            (PieceKind::Queen, _) => queen_mask(o, own, enemies),
            (PieceKind::King, _) => king_mask(o) & !own,
        }
    }

    /// Squares of the own side that `piece` on `o` protects.
    pub open spec fn defenses_spec(self, piece: Piece, o: u64) -> u64 {
        let own = self.by_color(piece.color);
        let all = self.occupied();
        let reach = match (piece.kind, piece.color) {
            (PieceKind::Pawn, Color::White) => white_pawn_attack_mask(o) & 0xffff_ffff_ffff_ffffu64,
            (PieceKind::Pawn, Color::Black) => black_pawn_attack_mask(o) & 0xffff_ffff_ffff_ffffu64,
            (PieceKind::Knight, _) => knight_mask(o) & !0u64,
            (PieceKind::Bishop, _) => bishop_mask(o, 0, all),
            (PieceKind::Rook, _) => rook_mask(o, 0, all),
            (PieceKind::Queen, _) => queen_mask(o, 0, all),
            (PieceKind::King, _) => king_mask(o) & !0u64,
        };
        reach & own
    }

    /// Pseudo-legal destinations of `piece` on `o`.
    pub open spec fn moves_spec(self, piece: Piece, o: u64) -> u64 {
        let own = self.by_color(piece.color);
        let enemies = self.by_color(piece.color.opponent());
        let all = self.occupied();
        match (piece.kind, piece.color) {
            (PieceKind::Pawn, Color::White) => (white_pawn_attack_mask(o) & enemies)
                | white_push_mask(o, all | enemies),
            (PieceKind::Pawn, Color::Black) => (black_pawn_attack_mask(o) & enemies)
                | black_push_mask(o, all | enemies),
            _ => self.attacks_spec(piece, o),
        }
    }

    /// Squares attacked by the pieces of side `c`.
    pub open spec fn attacked_by(self, c: Color) -> u64 {
        self.attacks_spec(Piece { color: c, kind: PieceKind::Pawn }, self.get_spec(Piece { color: c, kind: PieceKind::Pawn }))
            | self.attacks_spec(Piece { color: c, kind: PieceKind::Knight }, self.get_spec(Piece { color: c, kind: PieceKind::Knight }))
            | self.attacks_spec(Piece { color: c, kind: PieceKind::Bishop }, self.get_spec(Piece { color: c, kind: PieceKind::Bishop }))
            | self.attacks_spec(Piece { color: c, kind: PieceKind::Rook }, self.get_spec(Piece { color: c, kind: PieceKind::Rook }))
            | self.attacks_spec(Piece { color: c, kind: PieceKind::Queen }, self.get_spec(Piece { color: c, kind: PieceKind::Queen }))
            | self.attacks_spec(Piece { color: c, kind: PieceKind::King }, self.get_spec(Piece { color: c, kind: PieceKind::King }))
    }

    /// Squares of side `c` that its own pieces protect.
    pub open spec fn defended_by(self, c: Color) -> u64 {
        self.defenses_spec(Piece { color: c, kind: PieceKind::Pawn }, self.get_spec(Piece { color: c, kind: PieceKind::Pawn }))
            | self.defenses_spec(Piece { color: c, kind: PieceKind::Knight }, self.get_spec(Piece { color: c, kind: PieceKind::Knight }))
            | self.defenses_spec(Piece { color: c, kind: PieceKind::Bishop }, self.get_spec(Piece { color: c, kind: PieceKind::Bishop }))
            | self.defenses_spec(Piece { color: c, kind: PieceKind::Rook }, self.get_spec(Piece { color: c, kind: PieceKind::Rook }))
            | self.defenses_spec(Piece { color: c, kind: PieceKind::Queen }, self.get_spec(Piece { color: c, kind: PieceKind::Queen }))
            | self.defenses_spec(Piece { color: c, kind: PieceKind::King }, self.get_spec(Piece { color: c, kind: PieceKind::King }))
    }

    /// The king of side `c` stands on a square that the other side attacks.
    pub open spec fn in_check(self, c: Color) -> bool {
        self.get_spec(Piece { color: c, kind: PieceKind::King }) & self.attacked_by(c.opponent()) != 0
    }

    /// The position after castling: the king's bitboard holds its landing
    /// square alone, the rook moves from its corner to its landing square,
    /// and the other ten bitboards are left as they are.
    pub open spec fn after_castling(self, color: Color, side: CastleSide) -> BBPosition {
        let (_, king_to, rook_from, rook_to) = castle_squares(color, side);
        let king = Piece { color, kind: PieceKind::King };
        let rook = Piece { color, kind: PieceKind::Rook };
        self.set_spec(king, sq_bit(king_to)).set_spec(
            rook,
            (self.get_spec(rook) & !sq_bit(rook_from)) | sq_bit(rook_to),
        )
    }

    /// The king's and the rook's landing squares are empty, so castling puts
    /// no two pieces on one square.
    pub open spec fn castle_ready(self, color: Color, side: CastleSide) -> bool {
        let (_, king_to, _, rook_to) = castle_squares(color, side);
        self.at(king_to) is None && self.at(rook_to) is None
    }

    /// A castling move finds its landing squares empty; other moves always
    /// may be made.
    pub open spec fn move_ready(self, m: Move) -> bool {
        match m.action {
            MoveKind::Castle(side) => self.castle_ready(m.piece.color, side),
            _ => true,
        }
    }

    /// The position after a move: the origin is emptied and the moving (or
    /// promoted) piece replaces whatever stood on the target.
    pub open spec fn after_move(self, m: Move) -> BBPosition {
        match m.action {
            MoveKind::Standard { from, to } => self.without(from as int).with_piece(to as int, m.piece),
            MoveKind::Castle(side) => self.after_castling(m.piece.color, side),
            MoveKind::Promote { from, to, to_piece } => self.without(from as int).with_piece(
                to as int,
                Piece { color: m.piece.color, kind: to_piece },
            ),
        }
    }

    /// The square that a pawn's two-square advance makes capturable en
    /// passant: set only when an enemy pawn stands beside the landing square.
    pub open spec fn en_passant_spec(self, m: Move) -> u64 {
        match m.action {
            MoveKind::Standard { from, to } => {
                let white = m.piece.color == Color::White;
                let double = if white {
                    to == from + 16
                } else {
                    from == to + 16
                };
                let pawns = self.get_spec(Piece { color: m.piece.color.opponent(), kind: PieceKind::Pawn });
                let beside = (to % 8 < 7 && occ(pawns, to + 1)) || (to % 8 > 0 && occ(pawns, to - 1));
                if m.piece.kind == PieceKind::Pawn && double && beside {
                    sq_bit(
                        if white {
                            to - 8
                        } else {
                            to + 8
                        },
                    )
                } else {
                    0
                }
            },
            _ => 0,
        }
    }
}

impl BBPosition {
    /// The position without pieces.
    pub fn empty() -> (r: BBPosition)
        ensures
            r == empty_position(),
            forall|p: Piece| #[trigger] r.get_spec(p) == 0,
            r.wf(),
    {
        let z = Bitboard { bits: 0 };
        let r = BBPosition {
            white_pawn: z,
            white_knight: z,
            white_bishop: z,
            white_rook: z,
            white_queen: z,
            white_king: z,
            black_pawn: z,
            black_knight: z,
            black_bishop: z,
            black_rook: z,
            black_queen: z,
            black_king: z,
        };
        proof {
            assert forall|p: Piece, s: int| is_square(s) && occ(r.get_spec(p), s) implies r.at(s)
                == Some(p) by {
                lemma_has_ops(0, 0, s);
            }
        }
        r
    }

    /// The bitboard of one piece.
    pub fn get(&self, piece: Piece) -> (r: Bitboard)
        ensures
            r.bits == self.get_spec(piece),
    {
        match (piece.color, piece.kind) {
            (Color::White, PieceKind::Pawn) => self.white_pawn,
            (Color::White, PieceKind::Knight) => self.white_knight,
            (Color::White, PieceKind::Bishop) => self.white_bishop,
            (Color::White, PieceKind::Rook) => self.white_rook,
            (Color::White, PieceKind::Queen) => self.white_queen,
            (Color::White, PieceKind::King) => self.white_king,
            (Color::Black, PieceKind::Pawn) => self.black_pawn,
            (Color::Black, PieceKind::Knight) => self.black_knight,
            (Color::Black, PieceKind::Bishop) => self.black_bishop,
            (Color::Black, PieceKind::Rook) => self.black_rook,
            (Color::Black, PieceKind::Queen) => self.black_queen,
            (Color::Black, PieceKind::King) => self.black_king,
        }
    }

    /// Replaces the bitboard of one piece.
    pub fn set(&mut self, piece: Piece, b: Bitboard)
        ensures
            *final(self) == old(self).set_spec(piece, b.bits),
    {
        match (piece.color, piece.kind) {
            (Color::White, PieceKind::Pawn) => self.white_pawn = b,
            (Color::White, PieceKind::Knight) => self.white_knight = b,
            (Color::White, PieceKind::Bishop) => self.white_bishop = b,
            (Color::White, PieceKind::Rook) => self.white_rook = b,
            (Color::White, PieceKind::Queen) => self.white_queen = b,
            (Color::White, PieceKind::King) => self.white_king = b,
            (Color::Black, PieceKind::Pawn) => self.black_pawn = b,
            (Color::Black, PieceKind::Knight) => self.black_knight = b,
            (Color::Black, PieceKind::Bishop) => self.black_bishop = b,
            (Color::Black, PieceKind::Rook) => self.black_rook = b,
            (Color::Black, PieceKind::Queen) => self.black_queen = b,
            (Color::Black, PieceKind::King) => self.black_king = b,
        }
    }

    /// Empties one square.
    pub fn clear_square(&mut self, sq: u8)
        requires
            sq < 64,
        ensures
            *final(self) == old(self).without(sq as int),
            old(self).wf() ==> final(self).wf(),
            forall|s: int|
                is_square(s) ==> #[trigger] final(self).at(s) == if s == sq as int {
                    None
                } else {
                    old(self).at(s)
                },
    {
        proof {
            if self.wf() {
                lemma_without_wf(*self, sq as int);
            }
        }
        let m: u64 = !(1u64 << (sq as u64));
        self.white_pawn.bits = self.white_pawn.bits & m;
        self.white_knight.bits = self.white_knight.bits & m;
        self.white_bishop.bits = self.white_bishop.bits & m;
        self.white_rook.bits = self.white_rook.bits & m;
        self.white_queen.bits = self.white_queen.bits & m;
        self.white_king.bits = self.white_king.bits & m;
        self.black_pawn.bits = self.black_pawn.bits & m;
        self.black_knight.bits = self.black_knight.bits & m;
        self.black_bishop.bits = self.black_bishop.bits & m;
        self.black_rook.bits = self.black_rook.bits & m;
        self.black_queen.bits = self.black_queen.bits & m;
        self.black_king.bits = self.black_king.bits & m;
        proof {
            lemma_without_at(*old(self), sq as int);
        }
    }

    /// Puts `piece` on square `sq`, removing whatever stood there.
    pub fn put(&mut self, sq: u8, piece: Piece)
        requires
            sq < 64,
        ensures
            *final(self) == old(self).with_piece(sq as int, piece),
            old(self).wf() ==> final(self).wf(),
            forall|s: int|
                is_square(s) ==> #[trigger] final(self).at(s) == if s == sq as int {
                    Some(piece)
                } else {
                    old(self).at(s)
                },
    {
        proof {
            lemma_with_piece(*self, sq as int, piece);
        }
        self.clear_square(sq);
        let b = self.get(piece);
        self.set(piece, Bitboard { bits: b.bits | (1u64 << (sq as u64)) });
    }

    /// Squares held by any piece.
    pub fn occupied_cells(&self) -> (r: Bitboard)
        ensures
            r.bits == self.occupied(),
    {
        Bitboard { bits: self.occupied_by(Color::White).bits | self.occupied_by(Color::Black).bits }
    }

    /// Squares held by no piece.
    pub fn empty_cells(&self) -> (r: Bitboard)
        ensures
            r.bits == !self.occupied(),
    {
        Bitboard { bits: !self.occupied_cells().bits }
    }

    /// Squares held by the pieces of side `c`.
    pub fn occupied_by(&self, c: Color) -> (r: Bitboard)
        ensures
            r.bits == self.by_color(c),
    {
        match c {
            Color::White => Bitboard {
                bits: self.white_pawn.bits | self.white_knight.bits | self.white_bishop.bits
                    | self.white_rook.bits | self.white_queen.bits | self.white_king.bits,
            },
            Color::Black => Bitboard {
                bits: self.black_pawn.bits | self.black_knight.bits | self.black_bishop.bits
                    | self.black_rook.bits | self.black_queen.bits | self.black_king.bits,
            },
        }
    }

    /// The piece on a square, if any.
    pub fn piece_at(&self, square: u8) -> (r: Option<Piece>)
        requires
            square < 64,
        ensures
            r == self.at(square as int),
    {
        let s = square as u64;
        if (self.white_pawn.bits >> s) & 1 == 1 {
            Some(Piece { color: Color::White, kind: PieceKind::Pawn })
        } else if (self.white_knight.bits >> s) & 1 == 1 {
            Some(Piece { color: Color::White, kind: PieceKind::Knight })
        } else if (self.white_bishop.bits >> s) & 1 == 1 {
            Some(Piece { color: Color::White, kind: PieceKind::Bishop })
        } else if (self.white_rook.bits >> s) & 1 == 1 {
            Some(Piece { color: Color::White, kind: PieceKind::Rook })
        } else if (self.white_queen.bits >> s) & 1 == 1 {
            Some(Piece { color: Color::White, kind: PieceKind::Queen })
        } else if (self.white_king.bits >> s) & 1 == 1 {
            Some(Piece { color: Color::White, kind: PieceKind::King })
        } else if (self.black_pawn.bits >> s) & 1 == 1 {
            Some(Piece { color: Color::Black, kind: PieceKind::Pawn })
        } else if (self.black_knight.bits >> s) & 1 == 1 {
            Some(Piece { color: Color::Black, kind: PieceKind::Knight })
        } else if (self.black_bishop.bits >> s) & 1 == 1 {
            Some(Piece { color: Color::Black, kind: PieceKind::Bishop })
        } else if (self.black_rook.bits >> s) & 1 == 1 {
            Some(Piece { color: Color::Black, kind: PieceKind::Rook })
        } else if (self.black_queen.bits >> s) & 1 == 1 {
            Some(Piece { color: Color::Black, kind: PieceKind::Queen })
        } else if (self.black_king.bits >> s) & 1 == 1 {
            Some(Piece { color: Color::Black, kind: PieceKind::King })
        } else {
            None
        }
    }

    /// Squares attacked by `piece` standing on the squares of
    /// `piece_position` (one square or several).
    pub fn attacks(&self, piece: Piece, piece_position: Bitboard) -> (r: Bitboard)
        ensures
            r.bits == self.attacks_spec(piece, piece_position.bits),
    {
        let our_squares = self.occupied_by(piece.color);
        let enemies = self.occupied_by(piece.color.other());
        let all = Bitboard { bits: 0xffff_ffff_ffff_ffffu64 };
        match (piece.kind, piece.color) {
            (PieceKind::Pawn, Color::White) => white_pawn_attack(piece_position, Bitboard { bits: 0 }, all),
            (PieceKind::Pawn, Color::Black) => black_pawn_attack(piece_position, Bitboard { bits: 0 }, all),
            (PieceKind::Knight, _) => knight(piece_position, our_squares, enemies),
            (PieceKind::Bishop, _) => bishop(piece_position, our_squares, enemies),
            (PieceKind::Rook, _) => rook(piece_position, our_squares, enemies),
            (PieceKind::Queen, _) => queen(piece_position, our_squares, enemies),
            (PieceKind::King, _) => king(piece_position, our_squares, enemies),
        }
    }

    /// Enemy pieces that `piece` on `piece_position` can take.
    pub fn captures(&self, piece: Piece, piece_position: Bitboard) -> (r: Bitboard)
        ensures
            r.bits == self.attacks_spec(piece, piece_position.bits) & self.by_color(
                piece.color.opponent(),
            ),
    {
        let enemies = self.occupied_by(piece.color.other());
        Bitboard { bits: self.attacks(piece, piece_position).bits & enemies.bits }
    }

    /// Own pieces that `piece` on `piece_position` protects.
    pub fn defenses(&self, piece: Piece, piece_position: Bitboard) -> (r: Bitboard)
        ensures
            r.bits == self.defenses_spec(piece, piece_position.bits),
    {
        let our_squares = self.occupied_by(piece.color);
        let all = self.occupied_cells();
        let none = Bitboard { bits: 0 };
        let every = Bitboard { bits: 0xffff_ffff_ffff_ffffu64 };
        let reach = match (piece.kind, piece.color) {
            (PieceKind::Pawn, Color::White) => white_pawn_attack(piece_position, none, every),
            (PieceKind::Pawn, Color::Black) => black_pawn_attack(piece_position, none, every),
            (PieceKind::Knight, _) => knight(piece_position, none, all),
            (PieceKind::Bishop, _) => bishop(piece_position, none, all),
            (PieceKind::Rook, _) => rook(piece_position, none, all),
            (PieceKind::Queen, _) => queen(piece_position, none, all),
            (PieceKind::King, _) => king(piece_position, none, all),
        };
        Bitboard { bits: reach.bits & our_squares.bits }
    }

    /// Pseudo-legal destinations of `piece` from one square.
    pub fn available_moves(&self, piece: Piece, piece_position_left_shift: u8) -> (r: Bitboard)
        requires
            piece_position_left_shift < 64,
        ensures
            r.bits == self.moves_spec(piece, sq_bit(piece_position_left_shift as int)),
    {
        let occupied = self.occupied_cells();
        let enemies = self.occupied_by(piece.color.other());
        let piece_position = Bitboard { bits: 1u64 << (piece_position_left_shift as u64) };
        let blockers = Bitboard { bits: occupied.bits | enemies.bits };
        match (piece.kind, piece.color) {
            (PieceKind::Pawn, Color::White) => white_pawn(piece_position, blockers, enemies),
            (PieceKind::Pawn, Color::Black) => black_pawn(piece_position, blockers, enemies),
            _ => self.attacks(piece, piece_position),
        }
    }

    /// Squares attacked by the pieces of side `color`.
    pub fn attacked_squares(&self, color: Color) -> (r: Bitboard)
        ensures
            r.bits == self.attacked_by(color),
    {
        let pawn = Piece { color, kind: PieceKind::Pawn };
        let knight = Piece { color, kind: PieceKind::Knight };
        let bishop = Piece { color, kind: PieceKind::Bishop };
        let rook = Piece { color, kind: PieceKind::Rook };
        let queen = Piece { color, kind: PieceKind::Queen };
        let king = Piece { color, kind: PieceKind::King };
        Bitboard {
            bits: self.attacks(pawn, self.get(pawn)).bits | self.attacks(knight, self.get(knight)).bits
                | self.attacks(bishop, self.get(bishop)).bits | self.attacks(rook, self.get(rook)).bits
                | self.attacks(queen, self.get(queen)).bits | self.attacks(king, self.get(king)).bits,
        }
    }

    /// Own squares of side `color` that its pieces protect.
    pub fn defended_squares(&self, color: Color) -> (r: Bitboard)
        ensures
            r.bits == self.defended_by(color),
    {
        let pawn = Piece { color, kind: PieceKind::Pawn };
        let knight = Piece { color, kind: PieceKind::Knight };
        let bishop = Piece { color, kind: PieceKind::Bishop };
        let rook = Piece { color, kind: PieceKind::Rook };
        let queen = Piece { color, kind: PieceKind::Queen };
        let king = Piece { color, kind: PieceKind::King };
        Bitboard {
            bits: self.defenses(pawn, self.get(pawn)).bits | self.defenses(knight, self.get(knight)).bits
                | self.defenses(bishop, self.get(bishop)).bits | self.defenses(rook, self.get(rook)).bits
                | self.defenses(queen, self.get(queen)).bits | self.defenses(king, self.get(king)).bits,
        }
    }

    /// Whether side `color` protects square `square`.
    pub fn square_is_defended_by(&self, square: u8, color: Color) -> (r: bool)
        requires
            square < 64,
        ensures
            r == occ(self.defended_by(color), square as int),
    {
        (self.defended_squares(color).bits >> (square as u64)) & 1 == 1
    }

    /// Whether the king of `side` is attacked.
    pub fn is_in_check(&self, side: Color) -> (r: bool)
        ensures
            r == self.in_check(side),
    {
        let king = self.get(Piece { color: side, kind: PieceKind::King });
        king.bits & self.attacked_squares(side.other()).bits != 0
    }

    /// The position after castling on `side`.
    pub fn position_after_castling(&self, turn: Color, side: CastleSide) -> (r: BBPosition)
        ensures
            r == self.after_castling(turn, side),
            self.wf() && self.castle_ready(turn, side) ==> r.wf(),
    {
        let base: u8 = match turn {
            Color::White => 0,
            Color::Black => 56,
        };
        let (king_to, rook_from, rook_to) = match side {
            CastleSide::King => (base + 1, base, base + 2),
            CastleSide::Queen => (base + 5, base + 7, base + 4),
        };
        let king = Piece { color: turn, kind: PieceKind::King };
        let rook = Piece { color: turn, kind: PieceKind::Rook };
        let rook_bits = self.get(rook).bits;
        let mut r = *self;
        r.set(king, Bitboard { bits: 1u64 << (king_to as u64) });
        r.set(rook, Bitboard { bits: (rook_bits & !(1u64 << (rook_from as u64))) | (1u64 << (rook_to as u64)) });
        proof {
            if self.wf() && self.castle_ready(turn, side) {
                lemma_castle_wf(*self, turn, side);
            }
        }
        r
    }

    /// The position after a move; other pieces on the target are removed.
    /// Legality is not checked.
    pub fn inner_make_unchecked_move(&self, player_move: &Move) -> (r: BBPosition)
        requires
            player_move.well_formed(),
        ensures
            r == self.after_move(*player_move),
            self.wf() && self.move_ready(*player_move) ==> r.wf(),
    {
        match player_move.action {
            MoveKind::Standard { from, to } => {
                let mut r = *self;
                r.clear_square(from);
                r.put(to, player_move.piece);
                r
            },
            MoveKind::Castle(side) => self.position_after_castling(player_move.piece.color, side),
            MoveKind::Promote { from, to, to_piece } => {
                let mut r = *self;
                r.clear_square(from);
                r.put(to, Piece { color: player_move.piece.color, kind: to_piece });
                r
            },
        }
    }

    /// The en passant target that a move creates, or the empty bitboard.
    pub fn calculate_en_passant_target(&self, player_move: &Move) -> (r: Bitboard)
        requires
            player_move.well_formed(),
        ensures
            r.bits == self.en_passant_spec(*player_move),
    {
        match player_move.action {
            MoveKind::Standard { from, to } => {
                if !matches!(player_move.piece.kind, PieceKind::Pawn) {
                    return Bitboard { bits: 0 };
                }
                let white = matches!(player_move.piece.color, Color::White);
                let double = if white {
                    to as u16 == from as u16 + 16
                } else {
                    from as u16 == to as u16 + 16
                };
                if !double {
                    return Bitboard { bits: 0 };
                }
                let pawns = self.get(Piece { color: player_move.piece.color.other(), kind: PieceKind::Pawn }).bits;
                let beside = (to % 8 < 7 && (pawns >> ((to + 1) as u64)) & 1 == 1) || (to % 8 > 0
                    && (pawns >> ((to - 1) as u64)) & 1 == 1);
                if !beside {
                    return Bitboard { bits: 0 };
                }
                let target = if white {
                    to - 8
                } else {
                    to + 8
                };
                Bitboard { bits: 1u64 << (target as u64) }
            },
            _ => Bitboard { bits: 0 },
        }
    }
}

/// A move keeps a well-formed position well formed (no square ever holds
/// two pieces), a castling move when its landing squares are empty.
pub proof fn lemma_after_move_wf(pos: BBPosition, m: Move)
    requires
        pos.wf(),
        m.well_formed(),
        pos.move_ready(m),
    ensures
        pos.after_move(m).wf(),
{
    match m.action {
        MoveKind::Standard { from, to } => {
            lemma_without_wf(pos, from as int);
            lemma_with_piece(pos.without(from as int), to as int, m.piece);
        },
        MoveKind::Castle(side) => {
            lemma_castle_wf(pos, m.piece.color, side);
        },
        MoveKind::Promote { from, to, to_piece } => {
            lemma_without_wf(pos, from as int);
            lemma_with_piece(
                pos.without(from as int),
                to as int,
                Piece { color: m.piece.color, kind: to_piece },
            );
        },
    }
}

/// Castling onto empty landing squares keeps a position well formed.
#[verifier::spinoff_prover]
#[verifier::rlimit(60)]
pub proof fn lemma_castle_wf(pos: BBPosition, color: Color, side: CastleSide)
    requires
        pos.wf(),
        pos.castle_ready(color, side),
    ensures
        pos.after_castling(color, side).wf(),
{
    let (_, kt, rf, rt) = castle_squares(color, side);
    let king = Piece { color, kind: PieceKind::King };
    let rook = Piece { color, kind: PieceKind::Rook };
    let n = pos.after_castling(color, side);
    let rb = pos.get_spec(rook);
    assert forall|q: Piece, s: int|
        #![trigger occ(n.get_spec(q), s)]
        is_square(s) && occ(n.get_spec(q), s) implies n.at(s) == Some(q) by {
        lemma_has_sq_bit(kt, s);
        lemma_has_sq_bit(rt, s);
        lemma_has_sq_bit(rf, s);
        lemma_has_ops(rb, !sq_bit(rf), s);
        lemma_has_ops(rb & !sq_bit(rf), sq_bit(rt), s);
        lemma_has_ops(sq_bit(rf), 0, s);
        lemma_at_fields(n, s);
        lemma_at_fields(pos, s);
        lemma_at_fields(pos, kt);
        lemma_at_fields(pos, rt);
        assert(n.get_spec(king) == sq_bit(kt));
        assert(n.get_spec(rook) == (rb & !sq_bit(rf)) | sq_bit(rt));
        assert(forall|o: Piece| o != king && o != rook ==> #[trigger] n.get_spec(o) == pos.get_spec(o));
    }
}

/// A square that no bitboard holds has no piece on it.
pub proof fn lemma_unoccupied(pos: BBPosition, s: int)
    requires
        is_square(s),
        !occ(pos.occupied(), s),
    ensures
        pos.at(s) is None,
{
    let w = pos.by_color(Color::White);
    let b = pos.by_color(Color::Black);
    lemma_has_ops(w, b, s);
    lemma_has_ops(pos.white_pawn.bits | pos.white_knight.bits | pos.white_bishop.bits
        | pos.white_rook.bits | pos.white_queen.bits, pos.white_king.bits, s);
    lemma_has_ops(pos.white_pawn.bits | pos.white_knight.bits | pos.white_bishop.bits
        | pos.white_rook.bits, pos.white_queen.bits, s);
    lemma_has_ops(pos.white_pawn.bits | pos.white_knight.bits | pos.white_bishop.bits,
        pos.white_rook.bits, s);
    lemma_has_ops(pos.white_pawn.bits | pos.white_knight.bits, pos.white_bishop.bits, s);
    lemma_has_ops(pos.white_pawn.bits, pos.white_knight.bits, s);
    lemma_has_ops(pos.black_pawn.bits | pos.black_knight.bits | pos.black_bishop.bits
        | pos.black_rook.bits | pos.black_queen.bits, pos.black_king.bits, s);
    lemma_has_ops(pos.black_pawn.bits | pos.black_knight.bits | pos.black_bishop.bits
        | pos.black_rook.bits, pos.black_queen.bits, s);
    lemma_has_ops(pos.black_pawn.bits | pos.black_knight.bits | pos.black_bishop.bits,
        pos.black_rook.bits, s);
    lemma_has_ops(pos.black_pawn.bits | pos.black_knight.bits, pos.black_bishop.bits, s);
    lemma_has_ops(pos.black_pawn.bits, pos.black_knight.bits, s);
}

/// Emptying a square: what is found on each square afterwards.
pub proof fn lemma_without_at(pos: BBPosition, sq: int)
    requires
        is_square(sq),
    ensures
        forall|s: int| is_square(s) ==> #[trigger] pos.without(sq).at(s) == if s == sq {
            None
        } else {
            pos.at(s)
        },
{
    lemma_without(pos, sq);
    let w = pos.without(sq);
    assert forall|s: int| is_square(s) implies #[trigger] w.at(s) == if s == sq {
        None
    } else {
        pos.at(s)
    } by {
        lemma_at_fields(w, s);
        lemma_at_fields(pos, s);
    }
}

/// `at` read through `get_spec`, one piece at a time.
proof fn lemma_at_fields(pos: BBPosition, s: int)
    ensures
        occ(pos.get_spec(Piece { color: Color::White, kind: PieceKind::Pawn }), s) == occ(pos.white_pawn.bits, s),
        occ(pos.get_spec(Piece { color: Color::White, kind: PieceKind::Knight }), s) == occ(pos.white_knight.bits, s),
        occ(pos.get_spec(Piece { color: Color::White, kind: PieceKind::Bishop }), s) == occ(pos.white_bishop.bits, s),
        occ(pos.get_spec(Piece { color: Color::White, kind: PieceKind::Rook }), s) == occ(pos.white_rook.bits, s),
        occ(pos.get_spec(Piece { color: Color::White, kind: PieceKind::Queen }), s) == occ(pos.white_queen.bits, s),
        occ(pos.get_spec(Piece { color: Color::White, kind: PieceKind::King }), s) == occ(pos.white_king.bits, s),
        occ(pos.get_spec(Piece { color: Color::Black, kind: PieceKind::Pawn }), s) == occ(pos.black_pawn.bits, s),
        occ(pos.get_spec(Piece { color: Color::Black, kind: PieceKind::Knight }), s) == occ(pos.black_knight.bits, s),
        occ(pos.get_spec(Piece { color: Color::Black, kind: PieceKind::Bishop }), s) == occ(pos.black_bishop.bits, s),
        occ(pos.get_spec(Piece { color: Color::Black, kind: PieceKind::Rook }), s) == occ(pos.black_rook.bits, s),
        occ(pos.get_spec(Piece { color: Color::Black, kind: PieceKind::Queen }), s) == occ(pos.black_queen.bits, s),
        occ(pos.get_spec(Piece { color: Color::Black, kind: PieceKind::King }), s) == occ(pos.black_king.bits, s),
{
}

/// What emptying a square does, square by square.
pub proof fn lemma_without(pos: BBPosition, sq: int)
    requires
        is_square(sq),
    ensures
        forall|p: Piece, s: int|
            #![trigger occ(pos.without(sq).get_spec(p), s)]
            is_square(s) ==> (occ(pos.without(sq).get_spec(p), s) <==> (occ(pos.get_spec(p), s)
                && s != sq)),
{
    let w = pos.without(sq);
    assert forall|p: Piece, s: int| is_square(s) implies (occ(w.get_spec(p), s) <==> (occ(
        pos.get_spec(p),
        s,
    ) && s != sq)) by {
        lemma_has_ops(pos.get_spec(p), !sq_bit(sq), s);
        lemma_has_ops(sq_bit(sq), 0, s);
        lemma_has_sq_bit(sq, s);
        assert(w.get_spec(p) == pos.get_spec(p) & !sq_bit(sq));
    }
}

/// What placing a piece does, square by square.
pub proof fn lemma_with_piece(pos: BBPosition, sq: int, p: Piece)
    requires
        is_square(sq),
    ensures
        forall|q: Piece, s: int|
            #![trigger occ(pos.with_piece(sq, p).get_spec(q), s)]
            is_square(s) ==> (occ(pos.with_piece(sq, p).get_spec(q), s) <==> if s == sq {
                q == p
            } else {
                occ(pos.get_spec(q), s)
            }),
        forall|s: int|
            is_square(s) ==> #[trigger] pos.with_piece(sq, p).at(s) == if s == sq {
                Some(p)
            } else {
                pos.at(s)
            },
        pos.wf() ==> pos.with_piece(sq, p).wf(),
{
    lemma_without(pos, sq);
    let w = pos.without(sq);
    let n = pos.with_piece(sq, p);
    assert forall|q: Piece, s: int| is_square(s) implies (occ(n.get_spec(q), s) <==> if s == sq {
        q == p
    } else {
        occ(pos.get_spec(q), s)
    }) by {
        lemma_has_ops(w.get_spec(p), sq_bit(sq), s);
        lemma_has_sq_bit(sq, s);
        assert(occ(w.get_spec(q), s) <==> (occ(pos.get_spec(q), s) && s != sq));
        if q == p {
            assert(n.get_spec(q) == w.get_spec(p) | sq_bit(sq));
        } else {
            assert(n.get_spec(q) == w.get_spec(q));
        }
    }
    assert forall|s: int| is_square(s) implies #[trigger] n.at(s) == if s == sq {
        Some(p)
    } else {
        pos.at(s)
    } by {
        lemma_at_from_bits(pos, n, s, sq, p);
    }
}

/// The piece found on a square follows from which bitboards hold it.
proof fn lemma_at_from_bits(pos: BBPosition, n: BBPosition, s: int, sq: int, p: Piece)
    requires
        is_square(s),
        forall|q: Piece|
            #![trigger occ(n.get_spec(q), s)]
            (occ(n.get_spec(q), s) <==> if s == sq {
                q == p
            } else {
                occ(pos.get_spec(q), s)
            }),
    ensures
        n.at(s) == if s == sq {
            Some(p)
        } else {
            pos.at(s)
        },
{
    let wp = Piece { color: Color::White, kind: PieceKind::Pawn };
    let wn = Piece { color: Color::White, kind: PieceKind::Knight };
    let wb = Piece { color: Color::White, kind: PieceKind::Bishop };
    let wr = Piece { color: Color::White, kind: PieceKind::Rook };
    let wq = Piece { color: Color::White, kind: PieceKind::Queen };
    let wk = Piece { color: Color::White, kind: PieceKind::King };
    let bp = Piece { color: Color::Black, kind: PieceKind::Pawn };
    let bn = Piece { color: Color::Black, kind: PieceKind::Knight };
    let bb = Piece { color: Color::Black, kind: PieceKind::Bishop };
    let br = Piece { color: Color::Black, kind: PieceKind::Rook };
    let bq = Piece { color: Color::Black, kind: PieceKind::Queen };
    let bk = Piece { color: Color::Black, kind: PieceKind::King };
    assert(occ(n.get_spec(wp), s) == occ(n.white_pawn.bits, s));
    assert(occ(n.get_spec(wn), s) == occ(n.white_knight.bits, s));
    assert(occ(n.get_spec(wb), s) == occ(n.white_bishop.bits, s));
    assert(occ(n.get_spec(wr), s) == occ(n.white_rook.bits, s));
    assert(occ(n.get_spec(wq), s) == occ(n.white_queen.bits, s));
    assert(occ(n.get_spec(wk), s) == occ(n.white_king.bits, s));
    assert(occ(n.get_spec(bp), s) == occ(n.black_pawn.bits, s));
    assert(occ(n.get_spec(bn), s) == occ(n.black_knight.bits, s));
    assert(occ(n.get_spec(bb), s) == occ(n.black_bishop.bits, s));
    assert(occ(n.get_spec(br), s) == occ(n.black_rook.bits, s));
    assert(occ(n.get_spec(bq), s) == occ(n.black_queen.bits, s));
    assert(occ(n.get_spec(bk), s) == occ(n.black_king.bits, s));
}

/// Emptying a square keeps the position well formed.
pub proof fn lemma_without_wf(pos: BBPosition, sq: int)
    requires
        is_square(sq),
        pos.wf(),
    ensures
        pos.without(sq).wf(),
        forall|s: int| is_square(s) ==> #[trigger] pos.without(sq).at(s) == if s == sq {
            None
        } else {
            pos.at(s)
        },
{
    lemma_without(pos, sq);
    lemma_without_at(pos, sq);
}

} // verus!
