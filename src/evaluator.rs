//! Static evaluation of a board and the move-ordering scores.
use vstd::prelude::*;

use crate::bits::{count_below, occ};
use crate::board::Board;
use crate::moves::{Move, MoveKind};
use crate::pieces::{Bitboard, Color, Piece, PieceKind};
use crate::position::BBPosition;

verus! {

/// Score of attacking an empty square.
pub const ATTACKED_EMPTY_SQUARE_VALUE: i64 = 10;

/// Ordering score of a castling move.
pub const CASTLING_VALUE: i64 = 500;

/// Ordering score of a promotion, before its capture and material terms.
pub const PROMOTION_VALUE: i64 = 8000;

/// Score of attacking square `s` on `pos`: the attacked value of the piece
/// there, or a small constant for an empty square.
pub open spec fn attack_value_at(pos: BBPosition, s: int) -> i64 {
    match pos.at(s) {
        Some(p) => p.kind.attacked_value_spec(),
        None => ATTACKED_EMPTY_SQUARE_VALUE,
    }
}

/// Sum of `attack_value_at` over the squares of `bits` below `n`.
pub open spec fn attack_score_below(pos: BBPosition, bits: u64, n: int) -> int
    decreases n,
{
    if n <= 0 {
        0
    } else {
        attack_score_below(pos, bits, n - 1) + if occ(bits, n - 1) {
            attack_value_at(pos, n - 1) as int
        } else {
            0
        }
    }
}

/// Score of the squares that `piece` on `o` attacks.
pub open spec fn attack_score(pos: BBPosition, piece: Piece, o: u64) -> int {
    attack_score_below(pos, pos.attacks_spec(piece, o), 64)
}

/// Bonus for standing on a central square: the four middle squares score
/// most, the ring around them less, the rest nothing.
pub open spec fn square_bonus(s: int) -> i64 {
    let rank = s / 8;
    let col = s % 8;
    if 3 <= rank <= 4 && 3 <= col <= 4 {
        30
    } else if 2 <= rank <= 5 && 2 <= col <= 5 {
        10
    } else {
        0
    }
}

pub open spec fn central_below(bits: u64, n: int) -> int
    decreases n,
{
    if n <= 0 {
        0
    } else {
        central_below(bits, n - 1) + if occ(bits, n - 1) {
            square_bonus(n - 1) as int
        } else {
            0
        }
    }
}

/// What the pieces of one kind add to their side's tally: material, the
/// squares they attack, and the central squares they hold.
pub open spec fn piece_score(pos: BBPosition, p: Piece) -> int {
    let b = pos.get_spec(p);
    count_below(b, 64) * p.kind.value_spec() + attack_score(pos, p, b) + central_below(b, 64)
}

/// The tally of side `c`.
pub open spec fn side_score(pos: BBPosition, c: Color) -> int {
    piece_score(pos, Piece { color: c, kind: PieceKind::Pawn }) + piece_score(
        pos,
        Piece { color: c, kind: PieceKind::Knight },
    ) + piece_score(pos, Piece { color: c, kind: PieceKind::Bishop }) + piece_score(
        pos,
        Piece { color: c, kind: PieceKind::Rook },
    ) + piece_score(pos, Piece { color: c, kind: PieceKind::Queen }) + piece_score(
        pos,
        Piece { color: c, kind: PieceKind::King },
    )
}

/// Ordering score of a move that takes nothing: how much more the piece
/// attacks from its new square than from its old one.
pub open spec fn quiet_score(m: Move, pos: BBPosition) -> int {
    match m.action {
        MoveKind::Castle(_) => CASTLING_VALUE as int,
        MoveKind::Standard { from, to } => attack_score(pos, m.piece, 1u64 << (to as u64))
            - attack_score(pos, m.piece, 1u64 << (from as u64)),
        MoveKind::Promote { .. } => PROMOTION_VALUE as int,
    }
}

/// Most-valuable-victim / least-valuable-attacker score of a plain move.
/// A losing trade onto a defended piece counts half as bad again; onto an
/// undefended piece it counts as winning the victim.
pub open spec fn standard_score(m: Move, pos: BBPosition, from: int, to: int) -> int {
    match pos.at(to) {
        None => quiet_score(Move { piece: m.piece, action: MoveKind::Standard { from: from as u8, to: to as u8 } }, pos),
        Some(victim) => {
            let raw = victim.kind.value_spec() - m.piece.kind.value_spec();
            if occ(pos.defended_by(victim.color), to) {
                if raw < 0 {
                    raw * 3 / 2
                } else {
                    raw
                }
            } else if raw < 0 {
                victim.kind.value_spec() as int
            } else {
                raw
            }
        },
    }
}

/// The ordering score of any move.
pub open spec fn mvv_lva_spec(m: Move, pos: BBPosition) -> int {
    match m.action {
        MoveKind::Castle(_) => CASTLING_VALUE as int,
        MoveKind::Standard { from, to } => standard_score(m, pos, from as int, to as int),
        MoveKind::Promote { from, to, to_piece } => {
            let base = standard_score(m, pos, from as int, to as int);
            if !occ(pos.defended_by(m.piece.color.opponent()), to as int) {
                base + to_piece.value_spec() - PieceKind::Pawn.value_spec()
            } else {
                base
            }
        },
    }
}

/// Move scores stay within a few king values.
pub proof fn lemma_mvv_lva_bounds(m: Move, pos: BBPosition)
    requires
        m.well_formed(),
    ensures
        -2_000_000_000 <= mvv_lva_spec(m, pos) <= 3_000_000_000,
{
    lemma_attack_score_bounds(pos, m.piece);
}

proof fn lemma_attack_score_bounds(pos: BBPosition, piece: Piece)
    ensures
        forall|o: u64| 0 <= #[trigger] attack_score(pos, piece, o) <= 64000,
{
    assert forall|o: u64| 0 <= #[trigger] attack_score(pos, piece, o) <= 64000 by {
        lemma_attack_below_bounds(pos, pos.attacks_spec(piece, o), 64);
    }
}

proof fn lemma_attack_below_bounds(pos: BBPosition, bits: u64, n: int)
    requires
        0 <= n <= 64,
    ensures
        0 <= attack_score_below(pos, bits, n) <= 1000 * n,
    decreases n,
{
    if n > 0 {
        lemma_attack_below_bounds(pos, bits, n - 1);
    }
}

/// A side's tally is non-negative and far below the search's extreme scores.
pub proof fn lemma_side_score_bounds(pos: BBPosition, c: Color)
    ensures
        0 <= side_score(pos, c) <= 6 * 70_000_000_000,
{
    lemma_piece_score_bounds(pos, Piece { color: c, kind: PieceKind::Pawn });
    lemma_piece_score_bounds(pos, Piece { color: c, kind: PieceKind::Knight });
    lemma_piece_score_bounds(pos, Piece { color: c, kind: PieceKind::Bishop });
    lemma_piece_score_bounds(pos, Piece { color: c, kind: PieceKind::Rook });
    lemma_piece_score_bounds(pos, Piece { color: c, kind: PieceKind::Queen });
    lemma_piece_score_bounds(pos, Piece { color: c, kind: PieceKind::King });
}

proof fn lemma_piece_score_bounds(pos: BBPosition, p: Piece)
    ensures
        0 <= piece_score(pos, p) <= 70_000_000_000,
{
    let b = pos.get_spec(p);
    crate::bits::lemma_squares_below(b, 64);
    lemma_attack_score_bounds(pos, p);
    assert(attack_score(pos, p, b) <= 64000);
    lemma_central_below_bounds(b, 64);
    let n = count_below(b, 64);
    let v = p.kind.value_spec();
    assert(0 <= n * v <= 64 * 1_000_000_000) by (nonlinear_arith)
        requires
            n <= 64,
            0 < v <= 1_000_000_000,
    ;
}

proof fn lemma_central_below_bounds(bits: u64, n: int)
    requires
        0 <= n <= 64,
    ensures
        0 <= central_below(bits, n) <= 30 * n,
    decreases n,
{
    if n > 0 {
        lemma_central_below_bounds(bits, n - 1);
    }
}

/// Sum of the attack values of the squares that `piece` on `position`
/// attacks.
pub fn attacked_squares_score(board_position: &BBPosition, piece: Piece, position: Bitboard) -> (r: i64)
    ensures
        r == attack_score(*board_position, piece, position.bits),
        0 <= r <= 64000,
{
    let attacked = board_position.attacks(piece, position).bits;
    let mut total: i64 = 0;
    let mut s: u8 = 0;
    while s < 64
        invariant
            s <= 64,
            attacked == board_position.attacks_spec(piece, position.bits),
            total == attack_score_below(*board_position, attacked, s as int),
            0 <= total <= 1000 * s,
        decreases 64 - s,
    {
        if (attacked >> (s as u64)) & 1 == 1 {
            let v = match board_position.piece_at(s) {
                Some(p) => p.kind.attacked_value(),
                None => ATTACKED_EMPTY_SQUARE_VALUE,
            };
            total = total + v;
        }
        s = s + 1;
    }
    total
}

/// Ordering score of a move that takes nothing.
pub fn inner_move_score_no_captures(m: Move, board_position: &BBPosition) -> (r: i64)
    requires
        m.well_formed(),
    ensures
        r == quiet_score(m, *board_position),
        -64000 <= r <= 64000,
{
    match m.action {
        MoveKind::Castle(_) => CASTLING_VALUE,
        MoveKind::Standard { from, to } => {
            let before = attacked_squares_score(board_position, m.piece, Bitboard::new(1u64 << (from as u64)));
            let after = attacked_squares_score(board_position, m.piece, Bitboard::new(1u64 << (to as u64)));
            after - before
        },
        MoveKind::Promote { .. } => PROMOTION_VALUE,
    }
}

fn standard_move_score(m: Move, board_position: &BBPosition, from: u8, to: u8) -> (r: i64)
    requires
        from < 64,
        to < 64,
    ensures
        r == standard_score(m, *board_position, from as int, to as int),
        -2_000_000_000 <= r <= 2_000_000_000,
{
    match board_position.piece_at(to) {
        None => inner_move_score_no_captures(
            Move { piece: m.piece, action: MoveKind::Standard { from, to } },
            board_position,
        ),
        Some(victim) => {
            let raw = victim.kind.value() - m.piece.kind.value();
            if board_position.square_is_defended_by(to, victim.color) {
                if raw < 0 {
                    raw * 3 / 2
                } else {
                    raw
                }
            } else if raw < 0 {
                victim.kind.value()
            } else {
                raw
            }
        },
    }
}

/// Score that orders moves best-first: captures by most valuable victim and
/// least valuable attacker, promotions by the promoted material, other
/// moves by the attack pressure they gain.
pub fn move_score_with_mvv_lva(m: Move, board_position: &BBPosition) -> (r: i64)
    requires
        m.well_formed(),
    ensures
        r == mvv_lva_spec(m, *board_position),
        -2_000_000_000 <= r <= 3_000_000_000,
{
    match m.action {
        MoveKind::Castle(_) => CASTLING_VALUE,
        MoveKind::Standard { from, to } => standard_move_score(m, board_position, from, to),
        MoveKind::Promote { from, to, to_piece } => {
            let base = standard_move_score(m, board_position, from, to);
            if !board_position.square_is_defended_by(to, m.piece.color.other()) {
                base + to_piece.value() - PieceKind::Pawn.value()
            } else {
                base
            }
        },
    }
}

/// White's and Black's tallies; the position's value is their difference.
#[derive(Debug, Clone, Copy, PartialEq, Eq, Structural)]
pub struct StaticEval {
    pub white: i64,
    pub black: i64,
}

impl StaticEval {
    pub fn new() -> (r: StaticEval)
        ensures
            r.white == 0 && r.black == 0,
    {
        StaticEval { white: 0, black: 0 }
    }

    /// Adds `value` to the tally of `side`.
    pub fn add(&mut self, side: Color, value: i64)
        requires
            side == Color::White ==> i64::MIN <= old(self).white + value <= i64::MAX,
            side == Color::Black ==> i64::MIN <= old(self).black + value <= i64::MAX,
        ensures
            side == Color::White ==> final(self).white == old(self).white + value && final(self).black
                == old(self).black,
            side == Color::Black ==> final(self).black == old(self).black + value && final(self).white
                == old(self).white,
    {
        match side {
            Color::White => self.white = self.white + value,
            Color::Black => self.black = self.black + value,
        }
    }

    /// Scores a board: per side, material, attacked squares and central
    /// squares held.
    pub fn static_evaluate(board: &Board) -> (r: StaticEval)
        ensures
            r.white == side_score(board.position, Color::White),
            r.black == side_score(board.position, Color::Black),
    {
        let mut eval = StaticEval::new();
        let pieces = crate::pieces::all_pieces();
        let mut i: usize = 0;
        while i < 12
            invariant
                pieces@ == crate::pieces::piece_order(),
                i <= 12,
                eval.white == partial_side_score(board.position, Color::White, i as int),
                eval.black == partial_side_score(board.position, Color::Black, i as int),
                0 <= eval.white <= i * 70_000_000_000,
                0 <= eval.black <= i * 70_000_000_000,
            decreases 12 - i,
        {
            let piece = pieces[i];
            let score = piece_score_exec(&board.position, piece);
            eval.add(piece.color, score);
            i = i + 1;
        }
        proof {
            reveal_with_fuel(partial_side_score, 13);
        }
        eval
    }
}

/// `side_score` summed over the first `i` pieces of `piece_order`.
pub open spec fn partial_side_score(pos: BBPosition, c: Color, i: int) -> int
    decreases i,
{
    if i <= 0 {
        0
    } else {
        let p = crate::pieces::piece_order()[i - 1];
        partial_side_score(pos, c, i - 1) + if p.color == c {
            piece_score(pos, p)
        } else {
            0
        }
    }
}

fn piece_score_exec(pos: &BBPosition, piece: Piece) -> (r: i64)
    ensures
        r == piece_score(*pos, piece),
        0 <= r <= 70_000_000_000,
{
    let b = pos.get(piece);
    let count = b.count_bits();
    let v = piece.kind.value();
    proof {
        assert(0 <= count * v <= 64 * 1_000_000_000) by (nonlinear_arith)
            requires
                count <= 64,
                0 < v <= 1_000_000_000,
        ;
    }
    let material = (count as i64) * v;
    let attack = attacked_squares_score(pos, piece, b);
    let mut central: i64 = 0;
    let mut s: u8 = 0;
    while s < 64
        invariant
            s <= 64,
            central == central_below(b.bits, s as int),
            0 <= central <= 30 * s,
        decreases 64 - s,
    {
        if (b.bits >> (s as u64)) & 1 == 1 {
            let rank = s / 8;
            let col = s % 8;
            let bonus: i64 = if 3 <= rank && rank <= 4 && 3 <= col && col <= 4 {
                30
            } else if 2 <= rank && rank <= 5 && 2 <= col && col <= 5 {
                10
            } else {
                0
            };
            central = central + bonus;
        }
        s = s + 1;
    }
    material + attack + central
}

} // verus!
