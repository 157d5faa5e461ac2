//! Legal move generation and best-first ordering.
use vstd::prelude::*;

use crate::bits::{lemma_has_ops, occ, sq_bit};
use crate::board::Board;
use crate::castle::{available_castling_moves, can_castle};
use crate::evaluator::{move_score_with_mvv_lva, mvv_lva_spec};
use crate::moves::{Move, MoveKind};
use crate::pieces::{all_pieces, Piece, PieceKind};

verus! {

/// A move of the side to move that does not leave its own king attacked.
pub open spec fn legal_for(board: Board, m: Move) -> bool {
    &&& m.well_formed()
    &&& m.piece.color == board.turn
    &&& !board.position.after_move(m).in_check(board.turn)
}

/// A move that quiescence search keeps: one that answers a check, takes a
/// piece, or promotes.
pub open spec fn critical(board: Board, m: Move) -> bool {
    board.position.in_check(board.turn) || m.is_capture_spec(board.position) || m.is_promotion_spec()
}

/// A move rated for ordering.
#[derive(Debug, Clone, Copy, PartialEq, Eq, Structural)]
pub struct RatedMove {
    pub piece_move: Move,
    pub rating: i64,
}

impl RatedMove {
    pub fn new(piece_move: Move, rating: i64) -> (r: RatedMove)
        ensures
            r.piece_move == piece_move,
            r.rating == rating,
    {
        RatedMove { piece_move, rating }
    }
}

/// The rated moves of one position.
pub struct Moves {
    pub list: Vec<RatedMove>,
}

impl Moves {
    pub fn new() -> (r: Moves)
        ensures
            r.list@.len() == 0,
    {
        Moves { list: Vec::new() }
    }

    pub fn push(&mut self, current_move: Move, rating: i64)
        ensures
            final(self).list@ == old(self).list@.push(RatedMove { piece_move: current_move, rating }),
    {
        self.list.push(RatedMove::new(current_move, rating));
    }

    /// Swaps the best rated move from `index` on into place `index`.
    pub fn sort_one(&mut self, index: usize)
        requires
            index < old(self).list.len(),
        ensures
            exists|b: int|
                index <= b < old(self).list.len() && final(self).list@ == old(self).list@.update(
                    index as int,
                    old(self).list@[b],
                ).update(b, old(self).list@[index as int]) && (forall|j: int|
                    index <= j < old(self).list.len() ==> old(self).list@[j].rating <= old(
                        self,
                    ).list@[b].rating),
    {
        let mut best_idx = index;
        let mut best_rating = self.list[index].rating;
        let mut i = index + 1;
        while i < self.list.len()
            invariant
                index < i <= self.list.len(),
                index <= best_idx < self.list.len(),
                best_rating == self.list@[best_idx as int].rating,
                forall|j: int| index <= j < i ==> self.list@[j].rating <= best_rating,
            decreases self.list.len() - i,
        {
            if self.list[i].rating > best_rating {
                best_idx = i;
                best_rating = self.list[i].rating;
            }
            i = i + 1;
        }
        let a = self.list[index];
        let b = self.list[best_idx];
        self.list.set(index, b);
        self.list.set(best_idx, a);
    }

    /// Puts the best rated of the moves from `index` on at `index` and
    /// returns it.
    pub fn take(&mut self, index: usize) -> (r: Move)
        requires
            index < old(self).list.len(),
        ensures
            r == final(self).list@[index as int].piece_move,
            final(self).list.len() == old(self).list.len(),
            exists|b: int|
                index <= b < old(self).list.len() && final(self).list@ == old(self).list@.update(
                    index as int,
                    old(self).list@[b],
                ).update(b, old(self).list@[index as int]) && (forall|j: int|
                    index <= j < old(self).list.len() ==> old(self).list@[j].rating <= old(
                        self,
                    ).list@[b].rating),
    {
        self.sort_one(index);
        self.list[index].piece_move
    }

    pub fn is_empty(&self) -> (r: bool)
        ensures
            r == (self.list.len() == 0),
    {
        self.list.len() == 0
    }

    pub fn len(&self) -> (r: usize)
        ensures
            r == self.list.len(),
    {
        self.list.len()
    }
}

/// Every listed move is legal on `board`, kept by the `only_critical`
/// filter, and rated by its ordering score.
pub open spec fn sound_list(board: Board, only_critical: bool, list: Seq<RatedMove>) -> bool {
    forall|i: int|
        0 <= i < list.len() ==> {
            let m = #[trigger] list[i].piece_move;
            &&& candidate(board, only_critical, m)
            &&& legal_for(board, m)
            &&& (only_critical ==> critical(board, m))
            &&& list[i].rating == mvv_lva_spec(m, board.position)
        }
}

/// No move is listed twice.
pub open spec fn distinct_list(list: Seq<RatedMove>) -> bool {
    forall|i: int, j: int| 0 <= i < j < list.len() ==> list[i].piece_move != list[j].piece_move
}

fn is_listed(list: &Vec<RatedMove>, m: Move) -> (r: bool)
    ensures
        r == listed(list@, m),
{
    let mut k: usize = 0;
    while k < list.len()
        invariant
            k <= list.len(),
            forall|j: int| 0 <= j < k ==> list@[j].piece_move != m,
        decreases list.len() - k,
    {
        if list[k].piece_move == m {
            proof {
                assert(list@[k as int].piece_move == m);
            }
            return true;
        }
        k = k + 1;
    }
    false
}

impl Board {
    /// Adds `m` when it is legal and passes the `only_critical` filter.
    fn push_if_legal(&self, moves: &mut Moves, m: Move, only_critical: bool, in_check: bool)
        requires
            m.well_formed(),
            m.piece.color == self.turn,
            candidate(*self, only_critical, m),
            in_check == self.position.in_check(self.turn),
            sound_list(*self, only_critical, old(moves).list@),
            distinct_list(old(moves).list@),
        ensures
            sound_list(*self, only_critical, final(moves).list@),
            distinct_list(final(moves).list@),
            final(moves).list@ == old(moves).list@ || final(moves).list@ == old(moves).list@.push(
                RatedMove { piece_move: m, rating: mvv_lva_spec(m, self.position) as i64 },
            ),
            (legal_for(*self, m) && (!only_critical || critical(*self, m))) ==> listed(
                final(moves).list@,
                m,
            ),
    {
        let next = self.position.inner_make_unchecked_move(&m);
        if next.is_in_check(self.turn) {
            return;
        }
        if only_critical && !in_check && !m.is_capture(&self.position) && !m.is_promotion() {
            return;
        }
        if is_listed(&moves.list, m) {
            return;
        }
        let rating = move_score_with_mvv_lva(m, &self.position);
        let ghost before = moves.list@;
        moves.push(m, rating);
        proof {
            assert(moves.list@[before.len() as int].piece_move == m);
            assert forall|i: int, j: int|
                0 <= i < j < moves.list@.len() implies moves.list@[i].piece_move
                    != moves.list@[j].piece_move by {
                if j < before.len() {
                    assert(moves.list@[i] == before[i] && moves.list@[j] == before[j]);
                } else {
                    assert(moves.list@[i] == before[i]);
                }
            }
        }
        proof {
            assert forall|i: int| 0 <= i < moves.list@.len() implies {
                let mm = #[trigger] moves.list@[i].piece_move;
                &&& candidate(*self, only_critical, mm)
                &&& legal_for(*self, mm)
                &&& (only_critical ==> critical(*self, mm))
                &&& moves.list@[i].rating == mvv_lva_spec(mm, self.position)
            } by {
                if i < before.len() {
                    assert(moves.list@[i] == before[i]);
                }
            }
        }
    }

    /// Adds the legal moves of `piece` from square `from`.
    fn push_targets(&self, moves: &mut Moves, piece: Piece, from: u8, only_critical: bool, in_check: bool)
        requires
            from < 64,
            piece.color == self.turn,
            occ(self.position.get_spec(piece), from as int),
            in_check == self.position.in_check(self.turn),
            sound_list(*self, only_critical, old(moves).list@),
            distinct_list(old(moves).list@),
        ensures
            sound_list(*self, only_critical, final(moves).list@),
            distinct_list(final(moves).list@),
            grows(old(moves).list@, final(moves).list@),
            forall|m: Move|
                #![trigger candidate(*self, only_critical, m)]
                m.piece == piece && m.origin() == Some(from as int) && candidate(*self, only_critical, m)
                    && wanted(*self, only_critical, m) ==> listed(final(moves).list@, m),
    {
        let ghost start = moves.list@;
        let targets = self.position.available_moves(piece, from).single_squares();
        let mut k: usize = 0;
        while k < targets.len()
            invariant
                in_check == self.position.in_check(self.turn),
                sound_list(*self, only_critical, moves.list@),
                distinct_list(moves.list@),
                grows(start, moves.list@),
                piece.color == self.turn,
                from < 64,
                targets@ == crate::bits::squares_of(self.position.moves_spec(piece, sq_bit(from as int))),
                forall|x: int| 0 <= x < targets.len() ==> targets[x] < 64 && occ(
                    self.position.moves_spec(piece, sq_bit(from as int)),
                    targets[x] as int,
                ),
                occ(self.position.get_spec(piece), from as int),
                forall|s: int| 0 <= s < 64 && occ(self.position.moves_spec(piece, sq_bit(from as int)), s)
                    ==> targets@.contains(s as u8),
                k <= targets.len(),
                forall|m: Move|
                    #![trigger candidate(*self, only_critical, m)]
                    m.piece == piece && m.origin() == Some(from as int) && candidate(*self, only_critical, m)
                        && wanted(*self, only_critical, m) && m.target() is Some && targets@.subrange(0, k as int).contains(
                        m.target()->Some_0 as u8,
                    ) ==> listed(moves.list@, m),
            decreases targets.len() - k,
        {
            let to = targets[k];
            let ghost before = moves.list@;
            let m = Move { piece, action: MoveKind::Standard { from, to } };
            if m.is_promotion() {
                let kinds: [PieceKind; 4] = [
                    PieceKind::Queen,
                    PieceKind::Rook,
                    PieceKind::Bishop,
                    PieceKind::Knight,
                ];
                let mut q: usize = 0;
                while q < 4
                    invariant
                        in_check == self.position.in_check(self.turn),
                        sound_list(*self, only_critical, moves.list@),
                        distinct_list(moves.list@),
                        grows(before, moves.list@),
                        piece.color == self.turn,
                        from < 64,
                        to < 64,
                        occ(self.position.moves_spec(piece, sq_bit(from as int)), to as int),
                        occ(self.position.get_spec(piece), from as int),
                        (Move { piece, action: MoveKind::Standard { from, to } }).is_promotion_spec(),
                        q <= 4,
                        kinds@ == seq![PieceKind::Queen, PieceKind::Rook, PieceKind::Bishop, PieceKind::Knight],
                        forall|x: int|
                            #![trigger kinds@[x]]
                            0 <= x < q ==> ({
                                let pm = Move { piece, action: MoveKind::Promote { from, to, to_piece: kinds@[x] } };
                                wanted(*self, only_critical, pm) ==> listed(moves.list@, pm)
                            }),
                    decreases 4 - q,
                {
                    let ghost mid = moves.list@;
                    let promotion = Move { piece, action: MoveKind::Promote { from, to, to_piece: kinds[q] } };
                    self.push_if_legal(moves, promotion, only_critical, in_check);
                    proof {
                        lemma_grows_trans(before, mid, moves.list@);
                        assert forall|x: int|
                            #![trigger kinds@[x]]
                            0 <= x < q + 1 implies ({
                                let pm = Move { piece, action: MoveKind::Promote { from, to, to_piece: kinds@[x] } };
                                wanted(*self, only_critical, pm) ==> listed(moves.list@, pm)
                            }) by {
                            let pm = Move { piece, action: MoveKind::Promote { from, to, to_piece: kinds@[x] } };
                            if x < q {
                                if wanted(*self, only_critical, pm) {
                                    lemma_listed_grows(mid, moves.list@, pm);
                                }
                            }
                        }
                    }
                    q = q + 1;
                }
            } else {
                self.push_if_legal(moves, m, only_critical, in_check);
            }
            proof {
                lemma_grows_trans(start, before, moves.list@);
                let done = targets@.subrange(0, k as int + 1);
                assert(done =~= targets@.subrange(0, k as int).push(to));
                assert forall|mm: Move|
                    #![trigger candidate(*self, only_critical, mm)]
                    mm.piece == piece && mm.origin() == Some(from as int) && candidate(*self, only_critical, mm)
                        && wanted(*self, only_critical, mm) && mm.target() is Some && done.contains(
                        mm.target()->Some_0 as u8,
                    ) implies listed(moves.list@, mm) by {
                    let t = mm.target()->Some_0;
                    if targets@.subrange(0, k as int).contains(t as u8) {
                        lemma_listed_grows(before, moves.list@, mm);
                    } else {
                        let w = choose|w: int| 0 <= w < done.len() && done[w] == t as u8;
                        assert(w == k);
                        assert(t == to as int);
                        match mm.action {
                            MoveKind::Standard { from: f, to: tt } => {
                                assert(mm == m);
                            },
                            MoveKind::Promote { from: f, to: tt, to_piece } => {
                                let x: int = if to_piece == PieceKind::Queen {
                                    0
                                } else if to_piece == PieceKind::Rook {
                                    1
                                } else if to_piece == PieceKind::Bishop {
                                    2
                                } else {
                                    3
                                };
                                assert(mm == Move { piece, action: MoveKind::Promote { from, to, to_piece: seq![PieceKind::Queen, PieceKind::Rook, PieceKind::Bishop, PieceKind::Knight][x] } });
                            },
                            MoveKind::Castle(_) => {},
                        }
                    }
                }
            }
            k = k + 1;
        }
        proof {
            assert(targets@.subrange(0, targets.len() as int) =~= targets@);
            assert forall|m: Move|
                #![trigger candidate(*self, only_critical, m)]
                m.piece == piece && m.origin() == Some(from as int) && candidate(*self, only_critical, m)
                    && wanted(*self, only_critical, m) implies listed(moves.list@, m) by {
                let t = m.target()->Some_0;
                assert(occ(self.position.moves_spec(piece, sq_bit(from as int)), t));
            }
        }
    }

    /// Adds the legal moves of every `piece` of the side to move.
    fn push_piece(&self, moves: &mut Moves, piece: Piece, only_critical: bool, in_check: bool)
        requires
            piece.color == self.turn,
            in_check == self.position.in_check(self.turn),
            sound_list(*self, only_critical, old(moves).list@),
            distinct_list(old(moves).list@),
        ensures
            sound_list(*self, only_critical, final(moves).list@),
            distinct_list(final(moves).list@),
            grows(old(moves).list@, final(moves).list@),
            forall|m: Move|
                #![trigger candidate(*self, only_critical, m)]
                m.piece == piece && candidate(*self, only_critical, m) && wanted(*self, only_critical, m)
                    && m.origin() is Some ==> listed(final(moves).list@, m),
    {
        let ghost start = moves.list@;
        let froms = self.position.get(piece).single_squares();
        let mut j: usize = 0;
        while j < froms.len()
            invariant
                in_check == self.position.in_check(self.turn),
                sound_list(*self, only_critical, moves.list@),
                distinct_list(moves.list@),
                grows(start, moves.list@),
                piece.color == self.turn,
                forall|x: int| 0 <= x < froms.len() ==> froms[x] < 64 && occ(
                    self.position.get_spec(piece),
                    froms[x] as int,
                ),
                forall|s: int| 0 <= s < 64 && occ(self.position.get_spec(piece), s) ==> froms@.contains(s as u8),
                j <= froms.len(),
                forall|m: Move|
                    #![trigger candidate(*self, only_critical, m)]
                    m.piece == piece && candidate(*self, only_critical, m) && wanted(*self, only_critical, m)
                        && m.origin() is Some && froms@.subrange(0, j as int).contains(m.origin()->Some_0 as u8)
                        ==> listed(moves.list@, m),
            decreases froms.len() - j,
        {
            let from = froms[j];
            let ghost before = moves.list@;
            self.push_targets(moves, piece, from, only_critical, in_check);
            proof {
                lemma_grows_trans(start, before, moves.list@);
                let done = froms@.subrange(0, j as int + 1);
                assert(done =~= froms@.subrange(0, j as int).push(from));
                assert forall|m: Move|
                    #![trigger candidate(*self, only_critical, m)]
                    m.piece == piece && candidate(*self, only_critical, m) && wanted(*self, only_critical, m)
                        && m.origin() is Some && done.contains(m.origin()->Some_0 as u8) implies listed(
                        moves.list@,
                        m,
                    ) by {
                    let f = m.origin()->Some_0;
                    if froms@.subrange(0, j as int).contains(f as u8) {
                        lemma_listed_grows(before, moves.list@, m);
                    } else {
                        let w = choose|w: int| 0 <= w < done.len() && done[w] == f as u8;
                        assert(w == j);
                    }
                }
            }
            j = j + 1;
        }
        proof {
            assert(froms@.subrange(0, froms.len() as int) =~= froms@);
        }
    }

    /// The legal moves of the side to move, rated by `move_score_with_mvv_lva`:
    /// every move that a piece's pattern allows and that does not leave the
    /// own king attacked, each castling that `can_castle` allows, and for a
    /// pawn reaching the last rank one promotion per knight, bishop, rook and
    /// queen instead of the plain move. With `only_critical`, only moves that
    /// answer a check, take a piece or promote are kept, and castling is left
    /// out.
    pub fn generate_moves(&self, only_critical: bool) -> (r: Moves)
        ensures
            sound_list(*self, only_critical, r.list@),
            distinct_list(r.list@),
            forall|m: Move|
                #![trigger candidate(*self, only_critical, m)]
                candidate(*self, only_critical, m) && wanted(*self, only_critical, m) ==> listed(r.list@, m),
    {
        let in_check = self.position.is_in_check(self.turn);
        let pieces = all_pieces();
        let mut moves = Moves::new();
        let mut i: usize = 0;
        while i < 12
            invariant
                in_check == self.position.in_check(self.turn),
                sound_list(*self, only_critical, moves.list@),
                distinct_list(moves.list@),
                pieces@ == crate::pieces::piece_order(),
                i <= 12,
                forall|m: Move|
                    #![trigger candidate(*self, only_critical, m)]
                    candidate(*self, only_critical, m) && wanted(*self, only_critical, m) && m.origin() is Some
                        && piece_index(m.piece) < i ==> listed(moves.list@, m),
            decreases 12 - i,
        {
            let piece = pieces[i];
            let ghost before = moves.list@;
            proof {
                lemma_piece_index(i as int);
            }
            if piece.color == self.turn {
                self.push_piece(&mut moves, piece, only_critical, in_check);
            }
            proof {
                assert forall|m: Move|
                    #![trigger candidate(*self, only_critical, m)]
                    candidate(*self, only_critical, m) && wanted(*self, only_critical, m) && m.origin() is Some
                        && piece_index(m.piece) < i + 1 implies listed(moves.list@, m) by {
                    if piece_index(m.piece) < i {
                        lemma_listed_grows(before, moves.list@, m);
                    } else {
                        lemma_piece_index_unique(m.piece, piece);
                    }
                }
            }
            i = i + 1;
        }
        let ghost before = moves.list@;
        if !in_check && !only_critical {
            let (king_side, queen_side) = available_castling_moves(
                self,
                self.white_can_castle,
                self.black_can_castle,
            );
            if let Some(m) = king_side {
                self.push_if_legal(&mut moves, m, only_critical, in_check);
            }
            let ghost mid = moves.list@;
            if let Some(m) = queen_side {
                self.push_if_legal(&mut moves, m, only_critical, in_check);
            }
            proof {
                lemma_grows_trans(before, mid, moves.list@);
                let kc = crate::moves::castle_move(self.turn, crate::moves::CastleSide::King);
                let qc = crate::moves::castle_move(self.turn, crate::moves::CastleSide::Queen);
                if candidate(*self, only_critical, kc) && wanted(*self, only_critical, kc) {
                    lemma_listed_grows(mid, moves.list@, kc);
                }
            }
        }
        proof {
            assert forall|m: Move|
                #![trigger candidate(*self, only_critical, m)]
                candidate(*self, only_critical, m) && wanted(*self, only_critical, m) implies listed(
                    moves.list@,
                    m,
                ) by {
                if m.origin() is Some {
                    lemma_piece_index_range(m.piece);
                    lemma_listed_grows(before, moves.list@, m);
                } else {
                    match m.action {
                        MoveKind::Castle(side) => {
                            match side {
                                crate::moves::CastleSide::King => {},
                                crate::moves::CastleSide::Queen => {},
                            }
                        },
                        _ => {},
                    }
                }
            }
        }
        moves
    }
}

/// The ordering class of a move, best first: a move of the principal
/// variation hint, a reply to a check, a promotion, a check to the other
/// king, a capture, any other move.
pub open spec fn order_class(board: Board, only_critical: bool, pv: Seq<Move>, m: Move) -> int {
    if !only_critical && pv.contains(m) {
        0
    } else if board.position.in_check(board.turn) {
        1
    } else if m.is_promotion_spec() {
        2
    } else if board.position.after_move(m).in_check(board.turn.opponent()) {
        3
    } else if m.is_capture_spec(board.position) {
        4
    } else {
        5
    }
}

/// Width of an ordering class: larger than the spread of move scores.
pub const CLASS_WIDTH: i64 = 0x100_0000_0000;

/// Sort key of a move: its class first, then the higher score first.
pub open spec fn order_key(board: Board, only_critical: bool, pv: Seq<Move>, m: Move) -> int {
    order_class(board, only_critical, pv, m) * CLASS_WIDTH - mvv_lva_spec(m, board.position)
}

fn contains_move(pv: &Vec<Move>, m: Move) -> (r: bool)
    ensures
        r == pv@.contains(m),
{
    let mut i: usize = 0;
    while i < pv.len()
        invariant
            i <= pv.len(),
            forall|j: int| 0 <= j < i ==> pv@[j] != m,
        decreases pv.len() - i,
    {
        if pv[i] == m {
            return true;
        }
        i = i + 1;
    }
    false
}

/// The legal moves of `board`, as `Board::generate_moves` gives them, each
/// once, best first: sorted by `order_key`, with equal keys in generation
/// order.
#[verifier::spinoff_prover]
#[verifier::rlimit(100)]
pub fn generate_moves_ordered(board: &Board, only_critical: bool, current_pv: &Vec<Move>) -> (r: Vec<Move>)
    ensures
        forall|i: int, j: int| 0 <= i < j < r.len() ==> r@[i] != r@[j],
        forall|i: int|
            0 <= i < r.len() ==> candidate(*board, only_critical, #[trigger] r@[i]) && legal_for(
                *board,
                r@[i],
            ) && (only_critical ==> critical(*board, r@[i])),
        forall|m: Move|
            #![trigger candidate(*board, only_critical, m)]
            candidate(*board, only_critical, m) && wanted(*board, only_critical, m) ==> r@.contains(m),
        forall|i: int, j: int|
            0 <= i < j < r.len() ==> order_key(*board, only_critical, current_pv@, #[trigger] r@[i])
                <= order_key(*board, only_critical, current_pv@, #[trigger] r@[j]),
{
    let rated = board.generate_moves(only_critical);
    let in_check = board.position.is_in_check(board.turn);
    let other = board.turn.other();
    let mut keyed: Vec<(i64, Move)> = Vec::new();
    let mut i: usize = 0;
    while i < rated.list.len()
        invariant
            i <= rated.list.len(),
            sound_list(*board, only_critical, rated.list@),
            in_check == board.position.in_check(board.turn),
            other == board.turn.opponent(),
            forall|x: int|
                0 <= x < keyed.len() ==> {
                    let m = #[trigger] keyed@[x].1;
                    &&& candidate(*board, only_critical, m)
                    &&& legal_for(*board, m)
                    &&& (only_critical ==> critical(*board, m))
                    &&& keyed@[x].0 == order_key(*board, only_critical, current_pv@, m)
                },
            forall|x: int, y: int| 0 <= x < y < keyed.len() ==> keyed@[x].0 <= keyed@[y].0,
            forall|a: int|
                0 <= a < i ==> exists|x: int|
                    0 <= x < keyed.len() && keyed@[x].1 == #[trigger] rated.list@[a].piece_move,
            forall|x: int, y: int| 0 <= x < y < keyed.len() ==> keyed@[x].1 != keyed@[y].1,
        decreases rated.list.len() - i,
    {
        let rm = rated.list[i];
        let m = rm.piece_move;
        let class: i64 = if !only_critical && contains_move(current_pv, m) {
            0
        } else if in_check {
            1
        } else if m.is_promotion() {
            2
        } else if board.position.inner_make_unchecked_move(&m).is_in_check(other) {
            3
        } else if m.is_capture(&board.position) {
            4
        } else {
            5
        };
        proof {
            assert(rm.rating == mvv_lva_spec(m, board.position));
            crate::evaluator::lemma_mvv_lva_bounds(m, board.position);
        }
        let key = class * CLASS_WIDTH - rm.rating;
        let mut p: usize = 0;
        while p < keyed.len() && keyed[p].0 <= key
            invariant
                p <= keyed.len(),
                forall|x: int| 0 <= x < p ==> keyed@[x].0 <= key,
            decreases keyed.len() - p,
        {
            p = p + 1;
        }
        let mut seen = false;
        let mut q: usize = 0;
        while q < keyed.len()
            invariant
                q <= keyed.len(),
                !seen ==> forall|x: int| 0 <= x < q ==> keyed@[x].1 != m,
                seen ==> exists|x: int| 0 <= x < keyed.len() && keyed@[x].1 == m,
            decreases keyed.len() - q,
        {
            if keyed[q].1 == m {
                seen = true;
            }
            q = q + 1;
        }
        if seen {
            proof {
                assert(rated.list@[i as int].piece_move == m);
                assert forall|a: int|
                    0 <= a < i + 1 implies exists|x: int|
                        0 <= x < keyed.len() && keyed@[x].1 == #[trigger] rated.list@[a].piece_move by {
                    if a == i {
                        let x = choose|x: int| 0 <= x < keyed.len() && keyed@[x].1 == m;
                        assert(keyed@[x].1 == rated.list@[a].piece_move);
                    }
                }
            }
            i = i + 1;
            continue;
        }
        let ghost old_keyed = keyed@;
        keyed.insert(p, (key, m));
        proof {
            assert forall|x: int, y: int| 0 <= x < y < keyed.len() implies keyed@[x].1 != keyed@[y].1 by {
                if y < p {
                    assert(keyed@[x] == old_keyed[x] && keyed@[y] == old_keyed[y]);
                } else if y == p {
                    assert(keyed@[x] == old_keyed[x]);
                } else if x < p {
                    assert(keyed@[x] == old_keyed[x] && keyed@[y] == old_keyed[y - 1]);
                } else if x == p {
                    assert(keyed@[y] == old_keyed[y - 1]);
                } else {
                    assert(keyed@[x] == old_keyed[x - 1] && keyed@[y] == old_keyed[y - 1]);
                }
            }
        }
        proof {
            assert forall|x: int, y: int| 0 <= x < y < keyed.len() implies keyed@[x].0 <= keyed@[y].0 by {
                if y < p {
                    assert(keyed@[x] == old_keyed[x] && keyed@[y] == old_keyed[y]);
                } else if y == p {
                    assert(keyed@[x] == old_keyed[x]);
                } else if x < p {
                    assert(keyed@[x] == old_keyed[x] && keyed@[y] == old_keyed[y - 1]);
                    if p < old_keyed.len() {
                        assert(old_keyed[p as int].0 > key);
                    }
                } else if x == p {
                    assert(keyed@[y] == old_keyed[y - 1]);
                    assert(old_keyed[p as int].0 > key);
                    if y - 1 > p {
                        assert(old_keyed[p as int].0 <= old_keyed[y - 1].0);
                    }
                } else {
                    assert(keyed@[x] == old_keyed[x - 1] && keyed@[y] == old_keyed[y - 1]);
                }
            }
            assert forall|x: int|
                0 <= x < keyed.len() implies {
                    let mm = #[trigger] keyed@[x].1;
                    &&& candidate(*board, only_critical, mm)
                    &&& legal_for(*board, mm)
                    &&& (only_critical ==> critical(*board, mm))
                    &&& keyed@[x].0 == order_key(*board, only_critical, current_pv@, mm)
                } by {
                if x < p {
                    assert(keyed@[x] == old_keyed[x]);
                } else if x > p {
                    assert(keyed@[x] == old_keyed[x - 1]);
                } else {
                    assert(rated.list@[i as int].piece_move == m);
                }
            }
            assert forall|a: int|
                0 <= a < i + 1 implies exists|x: int|
                    0 <= x < keyed.len() && keyed@[x].1 == #[trigger] rated.list@[a].piece_move by {
                if a < i {
                    let x = choose|x: int| 0 <= x < old_keyed.len() && old_keyed[x].1 == rated.list@[a].piece_move;
                    if x < p {
                        assert(keyed@[x] == old_keyed[x]);
                    } else {
                        assert(keyed@[x + 1] == old_keyed[x]);
                    }
                } else {
                    assert(keyed@[p as int].1 == m);
                }
            }
        }
        i = i + 1;
    }
    let mut r: Vec<Move> = Vec::new();
    let mut k: usize = 0;
    while k < keyed.len()
        invariant
            k <= keyed.len(),
            r.len() == k,
            forall|x: int| 0 <= x < k ==> r@[x] == keyed@[x].1,
        decreases keyed.len() - k,
    {
        r.push(keyed[k].1);
        k = k + 1;
    }
    proof {
        assert forall|i: int, j: int| 0 <= i < j < r.len() implies r@[i] != r@[j] by {
            assert(keyed@[i].1 != keyed@[j].1);
        }
        assert forall|m: Move|
            #![trigger candidate(*board, only_critical, m)]
            candidate(*board, only_critical, m) && wanted(*board, only_critical, m) implies r@.contains(m) by {
            let a = choose|a: int| 0 <= a < rated.list@.len() && rated.list@[a].piece_move == m;
            let x = choose|x: int| 0 <= x < keyed.len() && keyed@[x].1 == #[trigger] rated.list@[a].piece_move;
            assert(r@[x] == m);
        }
        assert forall|i: int, j: int|
            0 <= i < j < r.len() implies order_key(*board, only_critical, current_pv@, #[trigger] r@[i])
                <= order_key(*board, only_critical, current_pv@, #[trigger] r@[j]) by {
            assert(keyed@[i].0 <= keyed@[j].0);
        }
    }
    r
}

impl Board {
    /// Whether a move entered by a player may be made: it is one of the
    /// legal moves of the side to move and the fifty-move limit is not
    /// reached.
    pub fn manual_move_is_valid(&self, player_move: &Move) -> (r: bool)
        ensures
            r == (candidate(*self, false, *player_move) && legal_for(*self, *player_move)
                && self.reps_50 <= 49),
    {
        if self.reps_50 > 49 {
            return false;
        }
        let moves = self.generate_moves(false);
        let mut i: usize = 0;
        while i < moves.list.len()
            invariant
                i <= moves.list.len(),
                self.reps_50 <= 49,
                sound_list(*self, false, moves.list@),
                forall|j: int| 0 <= j < i ==> moves.list@[j].piece_move != *player_move,
            decreases moves.list.len() - i,
        {
            let candidate_move = moves.list[i].piece_move;
            if candidate_move == *player_move {
                proof {
                    assert(moves.list@[i as int].piece_move == candidate_move);
                }
                return true;
            }
            i = i + 1;
        }
        proof {
            if candidate(*self, false, *player_move) && legal_for(*self, *player_move) {
                assert(listed(moves.list@, *player_move));
            }
        }
        false
    }

    /// Makes a move entered as a piece and two square names, such as a
    /// knight from "c6" to "d4". A pawn reaching the last rank becomes a
    /// queen. Refuses bad square names and moves that are not legal.
    pub fn make_checked_manual_move(&self, piece: Piece, from: &str, to: &str) -> (r: Result<Board, crate::fen::ChessError>)
        ensures
            match (crate::fen::square_of_name(from@), crate::fen::square_of_name(to@)) {
                (Some(f), Some(t)) => {
                    let plain = Move { piece, action: MoveKind::Standard { from: f as u8, to: t as u8 } };
                    let m = if plain.is_promotion_spec() {
                        Move { piece, action: MoveKind::Promote { from: f as u8, to: t as u8, to_piece: PieceKind::Queen } }
                    } else {
                        plain
                    };
                    if candidate(*self, false, m) && legal_for(*self, m) && self.reps_50 <= 49 {
                        r == Ok::<Board, crate::fen::ChessError>(self.next_spec(m))
                    } else {
                        r == Err::<Board, crate::fen::ChessError>(crate::fen::ChessError::IllegalMove)
                    }
                },
                _ => r == Err::<Board, crate::fen::ChessError>(crate::fen::ChessError::InvalidSquare),
            },
    {
        let f = match crate::pieces::Bitboard::from_square_name(from) {
            Ok(b) => b,
            Err(e) => return Err(e),
        };
        let t = match crate::pieces::Bitboard::from_square_name(to) {
            Ok(b) => b,
            Err(e) => return Err(e),
        };
        proof {
            let sf = crate::fen::square_of_name(from@)->Some_0;
            let st = crate::fen::square_of_name(to@)->Some_0;
            assert(0 <= sf < 64 && 0 <= st < 64);
        }
        let fs = square_index(f.bits);
        let ts = square_index(t.bits);
        proof {
            let sf = crate::fen::square_of_name(from@)->Some_0;
            let st = crate::fen::square_of_name(to@)->Some_0;
            lemma_sq_bit_injective(sf, fs as int);
            lemma_sq_bit_injective(st, ts as int);
        }
        let plain = Move { piece, action: MoveKind::Standard { from: fs, to: ts } };
        let m = if plain.is_promotion() {
            Move { piece, action: MoveKind::Promote { from: fs, to: ts, to_piece: PieceKind::Queen } }
        } else {
            plain
        };
        if self.manual_move_is_valid(&m) {
            Ok(self.make_unchecked_move(m))
        } else {
            Err(crate::fen::ChessError::IllegalMove)
        }
    }
}

proof fn lemma_sq_bit_injective(a: int, b: int)
    requires
        0 <= a < 64,
        0 <= b < 64,
        sq_bit(a) == sq_bit(b),
    ensures
        a == b,
{
    crate::bits::lemma_has_sq_bit(a, a);
    crate::bits::lemma_has_sq_bit(b, a);
}

/// The square of a one-square mask.
fn square_index(b: u64) -> (r: u8)
    requires
        exists|s: int| 0 <= s < 64 && b == sq_bit(s),
    ensures
        r < 64,
        b == sq_bit(r as int),
{
    let mut s: u8 = 0;
    while s < 64
        invariant
            s <= 64,
            exists|t: int| s <= t < 64 && b == sq_bit(t),
        decreases 64 - s,
    {
        if b == 1u64 << (s as u64) {
            return s;
        }
        s = s + 1;
    }
    s
}

/// The legal moves of the side to move, as a set.
pub open spec fn legal_moves(board: Board) -> Set<Move> {
    Set::new(|m: Move| candidate(board, false, m) && legal_for(board, m))
}

/// Number of move sequences of `depth` plies from `board` (leaf positions,
/// counted with repetition); the count stops at the largest `u64`. At
/// depth one it is the number of legal moves.
pub fn perft(board: &Board, depth: u32) -> (r: u64)
    ensures
        depth == 0 ==> r == 1,
        depth == 1 ==> r == legal_moves(*board).len(),
        depth > 0 && !(exists|m: Move| #[trigger] candidate(*board, false, m) && legal_for(*board, m))
            ==> r == 0,
    decreases depth,
{
    if depth == 0 {
        return 1;
    }
    let moves = board.generate_moves(false);
    let mut total: u64 = 0;
    let mut i: usize = 0;
    while i < moves.list.len()
        invariant
            i <= moves.list.len(),
            sound_list(*board, false, moves.list@),
            depth > 0,
            i == 0 ==> total == 0,
            depth == 1 ==> total == i,
            distinct_list(moves.list@),
            forall|m: Move|
                #![trigger candidate(*board, false, m)]
                candidate(*board, false, m) && wanted(*board, false, m) ==> listed(moves.list@, m),
        decreases moves.list.len() - i,
    {
        let next = board.make_unchecked_move(moves.list[i].piece_move);
        total = total.saturating_add(perft(&next, depth - 1));
        i = i + 1;
    }
    proof {
        if moves.list.len() > 0 {
            let m = moves.list@[0].piece_move;
            assert(candidate(*board, false, m) && legal_for(*board, m));
        }
        let ms = moves.list@.map_values(|rm: RatedMove| rm.piece_move);
        assert(ms.no_duplicates()) by {
            assert forall|a: int, b: int| 0 <= a < ms.len() && 0 <= b < ms.len() && a != b implies ms[a]
                != ms[b] by {
                if a < b {
                    assert(moves.list@[a].piece_move != moves.list@[b].piece_move);
                } else {
                    assert(moves.list@[b].piece_move != moves.list@[a].piece_move);
                }
            }
        }
        assert(ms.to_set() =~= legal_moves(*board)) by {
            assert forall|m: Move| ms.to_set().contains(m) implies legal_moves(*board).contains(m) by {
                let k = choose|k: int| 0 <= k < ms.len() && ms[k] == m;
                assert(moves.list@[k].piece_move == m);
            }
            assert forall|m: Move| legal_moves(*board).contains(m) implies ms.to_set().contains(m) by {
                assert(candidate(*board, false, m) && wanted(*board, false, m));
                let k = choose|k: int| 0 <= k < moves.list@.len() && moves.list@[k].piece_move == m;
                assert(ms[k] == m);
            }
        }
        ms.unique_seq_to_set();
    }
    total
}

/// Every move that generation considers can be made without two pieces
/// meeting on a square: a castling finds its landing squares empty.
pub proof fn lemma_candidate_ready(board: Board, only_critical: bool, m: Move)
    requires
        candidate(board, only_critical, m),
    ensures
        board.position.move_ready(m),
{
    if let MoveKind::Castle(side) = m.action {
        let pos = board.position;
        let c = m.piece.color;
        let x = pos.occupied();
        let mask = crate::castle::castle_empty_mask(c, side);
        let (_, kt, _, rt) = crate::position::castle_squares(c, side);
        lemma_has_ops(x, mask, kt);
        lemma_has_ops(x, mask, rt);
        lemma_has_ops(0, 0, kt);
        lemma_has_ops(0, 0, rt);
        assert((0x06u64 >> 1u64) & 1u64 == 1u64) by (bit_vector);
        assert((0x06u64 >> 2u64) & 1u64 == 1u64) by (bit_vector);
        assert((0x70u64 >> 5u64) & 1u64 == 1u64) by (bit_vector);
        assert((0x70u64 >> 4u64) & 1u64 == 1u64) by (bit_vector);
        assert((0x0600_0000_0000_0000u64 >> 57u64) & 1u64 == 1u64) by (bit_vector);
        assert((0x0600_0000_0000_0000u64 >> 58u64) & 1u64 == 1u64) by (bit_vector);
        assert((0x7000_0000_0000_0000u64 >> 61u64) & 1u64 == 1u64) by (bit_vector);
        assert((0x7000_0000_0000_0000u64 >> 60u64) & 1u64 == 1u64) by (bit_vector);
        assert(occ(mask, kt) && occ(mask, rt));
        crate::position::lemma_unoccupied(pos, kt);
        crate::position::lemma_unoccupied(pos, rt);
    }
}

/// `b` extends `a`.
pub open spec fn grows(a: Seq<RatedMove>, b: Seq<RatedMove>) -> bool {
    a.len() <= b.len() && forall|i: int| 0 <= i < a.len() ==> a[i] == b[i]
}

/// Move `m` stands in the list.
pub open spec fn listed(list: Seq<RatedMove>, m: Move) -> bool {
    exists|i: int| 0 <= i < list.len() && list[i].piece_move == m
}

/// A legal move that the `only_critical` filter keeps.
pub open spec fn wanted(board: Board, only_critical: bool, m: Move) -> bool {
    legal_for(board, m) && (only_critical ==> critical(board, m))
}

/// `piece` of the side to move stands on `from` and its pattern reaches `to`.
pub open spec fn reaches(board: Board, piece: Piece, from: int, to: int) -> bool {
    &&& piece.color == board.turn
    &&& 0 <= from < 64
    &&& occ(board.position.get_spec(piece), from)
    &&& occ(board.position.moves_spec(piece, sq_bit(from)), to)
}

/// The moves that generation considers: a piece's plain move (not onto the
/// last rank for a pawn), a pawn's promotion to knight, bishop, rook or
/// queen, and a castling that `can_castle` allows, when not in check and
/// not restricted to critical moves.
pub open spec fn candidate(board: Board, only_critical: bool, m: Move) -> bool {
    match m.action {
        MoveKind::Standard { from, to } => reaches(board, m.piece, from as int, to as int)
            && !m.is_promotion_spec(),
        MoveKind::Promote { from, to, to_piece } => reaches(board, m.piece, from as int, to as int)
            && (Move { piece: m.piece, action: MoveKind::Standard { from, to } }).is_promotion_spec()
            && (to_piece == PieceKind::Queen || to_piece == PieceKind::Rook || to_piece == PieceKind::Bishop
            || to_piece == PieceKind::Knight),
        MoveKind::Castle(side) => m == crate::moves::castle_move(board.turn, side) && can_castle(
            board,
            board.rights_of_turn(),
            side,
        ) && !only_critical && !board.position.in_check(board.turn),
    }
}

/// Place of a piece in `piece_order`.
pub open spec fn piece_index(p: Piece) -> int {
    let k = match p.kind {
        PieceKind::Pawn => 0,
        PieceKind::Knight => 1,
        PieceKind::Bishop => 2,
        PieceKind::Rook => 3,
        PieceKind::Queen => 4,
        PieceKind::King => 5,
    };
    match p.color {
        crate::pieces::Color::White => k,
        crate::pieces::Color::Black => 6 + k,
    }
}

proof fn lemma_piece_index(i: int)
    requires
        0 <= i < 12,
    ensures
        piece_index(crate::pieces::piece_order()[i]) == i,
{
}

proof fn lemma_piece_index_range(p: Piece)
    ensures
        0 <= piece_index(p) < 12,
{
}

proof fn lemma_piece_index_unique(p: Piece, q: Piece)
    requires
        piece_index(p) == piece_index(q),
    ensures
        p == q,
{
}

proof fn lemma_grows_trans(a: Seq<RatedMove>, b: Seq<RatedMove>, c: Seq<RatedMove>)
    requires
        grows(a, b),
        grows(b, c),
    ensures
        grows(a, c),
{
}

proof fn lemma_listed_grows(a: Seq<RatedMove>, b: Seq<RatedMove>, m: Move)
    requires
        grows(a, b),
        listed(a, m),
    ensures
        listed(b, m),
{
    let i = choose|i: int| 0 <= i < a.len() && a[i].piece_move == m;
    assert(b[i].piece_move == m);
}

} // verus!
