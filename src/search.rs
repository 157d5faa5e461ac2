//! Alpha-beta search with quiescence extension and principal variation.
use vstd::prelude::*;

use crate::board::Board;
use crate::evaluator::{side_score, StaticEval};
use crate::generate::{candidate, critical, generate_moves_ordered, legal_for, order_key, wanted};
use crate::moves::Move;
use crate::pieces::Color;

verus! {

/// A board seen by the search.
#[derive(Debug, Clone, Copy, PartialEq, Eq, Structural)]
pub struct Scenario {
    pub board: Board,
}

/// The side to move has a legal move.
pub open spec fn has_legal_move(board: Board) -> bool {
    exists|m: Move| #[trigger] candidate(board, false, m) && legal_for(board, m)
}

/// The score of a position without legal moves: the worst score for the
/// side to move when it is mated (lowest for White, highest for Black), and
/// zero for stalemate.
pub open spec fn terminal_value(board: Board) -> i64 {
    if board.position.in_check(board.turn) {
        match board.turn {
            Color::White => i64::MIN,
            Color::Black => i64::MAX,
        }
    } else {
        0
    }
}

/// The static value of a position: White's tally minus Black's.
pub open spec fn static_value(board: Board) -> int {
    side_score(board.position, Color::White) - side_score(board.position, Color::Black)
}

/// The side to move has a legal move that quiescence search follows.
pub open spec fn has_critical_move(board: Board) -> bool {
    exists|m: Move| #[trigger] candidate(board, true, m) && wanted(board, true, m)
}

/// Each move of `line` is legal in the position that the moves before it
/// reach.
pub open spec fn legal_line(board: Board, line: Seq<Move>) -> bool
    decreases line.len(),
{
    line.len() == 0 || (legal_for(board, line[0]) && legal_line(
        board.next_spec(line[0]),
        line.drop_first(),
    ))
}

/// Scores beyond any static value: tallies stay below this.
pub open spec fn score_bound() -> int {
    1_000_000_000_000
}

proof fn lemma_static_bounds(board: Board)
    ensures
        -score_bound() <= static_value(board) <= score_bound(),
{
    crate::evaluator::lemma_side_score_bounds(board.position, Color::White);
    crate::evaluator::lemma_side_score_bounds(board.position, Color::Black);
}

proof fn lemma_no_moves(board: Board, moves: Seq<Move>)
    requires
        moves.len() == 0,
        forall|m: Move|
            #![trigger candidate(board, false, m)]
            candidate(board, false, m) && wanted(board, false, m) ==> moves.contains(m),
    ensures
        !has_legal_move(board),
{
    assert forall|m: Move| !(#[trigger] candidate(board, false, m) && legal_for(board, m)) by {
        if candidate(board, false, m) && legal_for(board, m) {
            assert(moves.contains(m));
        }
    }
}

proof fn lemma_has_moves(board: Board, moves: Seq<Move>)
    requires
        moves.len() > 0,
        forall|i: int|
            0 <= i < moves.len() ==> candidate(board, false, #[trigger] moves[i]) && legal_for(
                board,
                moves[i],
            ),
    ensures
        has_legal_move(board),
{
    assert(candidate(board, false, moves[0]));
}

impl Scenario {
    pub fn new(board: Board) -> (r: Scenario)
        ensures
            r.board == board,
    {
        Scenario { board }
    }

    pub fn white_in_check(&self) -> (r: bool)
        ensures
            r == self.board.position.in_check(Color::White),
    {
        self.board.position.is_in_check(Color::White)
    }

    pub fn black_in_check(&self) -> (r: bool)
        ensures
            r == self.board.position.in_check(Color::Black),
    {
        self.board.position.is_in_check(Color::Black)
    }

    /// The legal moves, each once, best first.
    pub fn generate_moves(&self, only_critical: bool, current_pv: &Vec<Move>) -> (r: Vec<Move>)
        ensures
            forall|i: int, j: int| 0 <= i < j < r.len() ==> r@[i] != r@[j],
            forall|i: int|
                0 <= i < r.len() ==> candidate(self.board, only_critical, #[trigger] r@[i])
                    && legal_for(self.board, r@[i]) && (only_critical ==> critical(
                    self.board,
                    r@[i],
                )),
            forall|m: Move|
                #![trigger candidate(self.board, only_critical, m)]
                candidate(self.board, only_critical, m) && wanted(self.board, only_critical, m)
                    ==> r@.contains(m),
            forall|i: int, j: int|
                0 <= i < j < r.len() ==> order_key(self.board, only_critical, current_pv@, #[trigger] r@[i])
                    <= order_key(self.board, only_critical, current_pv@, #[trigger] r@[j]),
    {
        generate_moves_ordered(&self.board, only_critical, current_pv)
    }

    /// The scenario after a legal move.
    pub fn apply_move(&self, player_move: &Move) -> (r: Scenario)
        requires
            player_move.well_formed(),
        ensures
            r.board == self.board.next_spec(*player_move),
    {
        Scenario { board: self.board.make_unchecked_move(*player_move) }
    }

    /// White's tally minus Black's.
    pub fn static_value(&self) -> (r: i64)
        ensures
            r == static_value(self.board),
            -score_bound() <= r <= score_bound(),
    {
        let e = StaticEval::static_evaluate(&self.board);
        proof {
            lemma_static_bounds(self.board);
        }
        e.white - e.black
    }

    fn terminal_score(&self) -> (r: i64)
        ensures
            r == terminal_value(self.board),
    {
        if self.board.position.is_in_check(self.board.turn) {
            match self.board.turn {
                Color::White => i64::MIN,
                Color::Black => i64::MAX,
            }
        } else {
            0
        }
    }

    /// Quiescence search: from the horizon on, follow only critical moves
    /// (check replies, captures, promotions), with the static value as the
    /// score of standing still when not in check. At depth `max_depth`, and
    /// at a quiet node without critical moves, it returns the static value.
    pub fn quiescence_search(&self, alpha: i64, beta: i64, depth_counter: i32, max_depth: i32) -> (r: i64)
        ensures
            depth_counter >= max_depth ==> r == static_value(self.board),
            depth_counter < max_depth && !self.board.position.in_check(self.board.turn)
                && !has_critical_move(self.board) ==> r == static_value(self.board),
        decreases max_depth - depth_counter,
    {
        let mut alpha = alpha;
        let mut beta = beta;
        let current = self.static_value();
        // In check there is no standing still: only the replies count.
        let in_check = self.board.position.is_in_check(self.board.turn);
        if !in_check {
            match self.board.turn {
                Color::White => {
                    if current >= beta {
                        return current;
                    }
                },
                Color::Black => {
                    if current <= alpha {
                        return current;
                    }
                },
            }
        }
        if depth_counter >= max_depth {
            return current;
        }
        if !in_check {
            match self.board.turn {
                Color::White => {
                    if current > alpha {
                        alpha = current;
                    }
                },
                Color::Black => {
                    if current < beta {
                        beta = current;
                    }
                },
            }
        }
        let available_moves = generate_moves_ordered(&self.board, true, &Vec::new());
        proof {
            if available_moves.len() > 0 {
                let m = available_moves@[0];
                assert(candidate(self.board, true, m) && wanted(self.board, true, m));
            }
        }
        if available_moves.len() == 0 {
            if in_check {
                return self.terminal_score();
            }
            return current;
        }
        let mut i: usize = 0;
        while i < available_moves.len()
            invariant
                depth_counter < max_depth,
                has_critical_move(self.board),
                forall|k: int|
                    0 <= k < available_moves.len() ==> legal_for(self.board, #[trigger] available_moves@[k]),
            decreases available_moves.len() - i,
        {
            let player_move = available_moves[i];
            let next = self.apply_move(&player_move);
            let eval = next.quiescence_search(alpha, beta, depth_counter + 1, max_depth);
            match self.board.turn {
                Color::White => {
                    if eval >= beta {
                        return beta;
                    }
                    if eval > alpha {
                        alpha = eval;
                    }
                },
                Color::Black => {
                    if eval <= alpha {
                        return alpha;
                    }
                    if eval < beta {
                        beta = eval;
                    }
                },
            }
            i = i + 1;
        }
        match self.board.turn {
            Color::White => alpha,
            Color::Black => beta,
        }
    }

    /// Alpha-beta search to `depth` plies, then quiescence search up to
    /// `max_depth` plies from the root. White maximises, Black minimises.
    /// Returns the score and the principal variation: the line of moves
    /// that leads to it, each legal in turn. Moves in `pv_hint` are tried
    /// first. A position without legal moves scores `terminal_value`.
    pub fn minimax_alpha_beta(
        &self,
        depth: i32,
        max_depth: i32,
        alpha: i64,
        beta: i64,
        depth_counter: i32,
        pv_hint: &Vec<Move>,
    ) -> (r: (i64, Vec<Move>))
        requires
            0 <= depth_counter,
            depth_counter + depth <= i32::MAX,
        ensures
            !has_legal_move(self.board) ==> r.0 == terminal_value(self.board) && r.1.len() == 0,
            legal_line(self.board, r.1@),
            depth > 0 && has_legal_move(self.board) ==> r.1.len() > 0,
            r.1.len() <= if depth > 0 {
                depth as int
            } else {
                0
            },
        decreases depth,
    {
        let available_moves = generate_moves_ordered(&self.board, false, pv_hint);
        if available_moves.len() == 0 {
            proof {
                lemma_no_moves(self.board, available_moves@);
            }
            return (self.terminal_score(), Vec::new());
        }
        proof {
            lemma_has_moves(self.board, available_moves@);
        }
        if depth <= 0 {
            let q = self.quiescence_search(alpha, beta, depth_counter, max_depth);
            return (q, Vec::new());
        }
        let white = matches!(self.board.turn, Color::White);
        let mut alpha = alpha;
        let mut beta = beta;
        let mut best: i64 = if white {
            i64::MIN
        } else {
            i64::MAX
        };
        let mut best_line: Vec<Move> = Vec::new();
        let mut i: usize = 0;
        let empty: Vec<Move> = Vec::new();
        while i < available_moves.len()
            invariant
                depth > 0,
                0 <= depth_counter,
                depth_counter + depth <= i32::MAX,
                white == (self.board.turn == Color::White),
                forall|k: int|
                    0 <= k < available_moves.len() ==> legal_for(self.board, #[trigger] available_moves@[k]),
                legal_line(self.board, best_line@),
                i > 0 ==> best_line.len() > 0,
                best_line.len() <= depth,
                i <= available_moves.len(),
                available_moves.len() > 0,
            ensures
                i > 0,
                best_line.len() <= depth,
            decreases available_moves.len() - i,
        {
            let player_move = available_moves[i];
            let next = self.apply_move(&player_move);
            let (eval, line) = next.minimax_alpha_beta(depth - 1, max_depth, alpha, beta, depth_counter + 1, &empty);
            let better = if white {
                eval > best
            } else {
                eval < best
            };
            if i == 0 || better {
                best = eval;
                let mut new_line: Vec<Move> = Vec::new();
                new_line.push(player_move);
                let mut k: usize = 0;
                while k < line.len()
                    invariant
                        k <= line.len(),
                        new_line@ == seq![player_move] + line@.subrange(0, k as int),
                    decreases line.len() - k,
                {
                    new_line.push(line[k]);
                    k = k + 1;
                    proof {
                        assert(new_line@ =~= seq![player_move] + line@.subrange(0, k as int));
                    }
                }
                proof {
                    assert(line@.subrange(0, line.len() as int) =~= line@);
                    assert(new_line@.drop_first() =~= line@);
                }
                best_line = new_line;
            }
            if white {
                if eval > alpha {
                    alpha = eval;
                }
            } else {
                if eval < beta {
                    beta = eval;
                }
            }
            i = i + 1;
            if alpha >= beta {
                break;
            }
        }
        (best, best_line)
    }

    /// Plain minimax to `depth` plies without pruning, then quiescence
    /// without pruning up to `max_depth` plies from the root.
    pub fn minimax(&self, depth: i32, max_depth: i32, depth_counter: i32) -> (r: i64)
        requires
            0 <= depth_counter,
            depth_counter + depth <= i32::MAX,
        ensures
            !has_legal_move(self.board) ==> r == terminal_value(self.board),
        decreases depth,
    {
        let available_moves = generate_moves_ordered(&self.board, false, &Vec::new());
        if available_moves.len() == 0 {
            proof {
                lemma_no_moves(self.board, available_moves@);
            }
            return self.terminal_score();
        }
        proof {
            lemma_has_moves(self.board, available_moves@);
        }
        if depth <= 0 {
            return self.quiescence_minimax(depth_counter, max_depth);
        }
        let white = matches!(self.board.turn, Color::White);
        let mut best: i64 = if white {
            i64::MIN
        } else {
            i64::MAX
        };
        let mut i: usize = 0;
        while i < available_moves.len()
            invariant
                depth > 0,
                0 <= depth_counter,
                depth_counter + depth <= i32::MAX,
                white == (self.board.turn == Color::White),
                forall|k: int|
                    0 <= k < available_moves.len() ==> legal_for(self.board, #[trigger] available_moves@[k]),
            decreases available_moves.len() - i,
        {
            let next = self.apply_move(&available_moves[i]);
            let eval = next.minimax(depth - 1, max_depth, depth_counter + 1);
            if white && eval > best || !white && eval < best {
                best = eval;
            }
            i = i + 1;
        }
        best
    }

    /// Quiescence without pruning: the best of standing still (not allowed
    /// in check) and of every critical move, up to `max_depth` plies from
    /// the root.
    pub fn quiescence_minimax(&self, depth_counter: i32, max_depth: i32) -> (r: i64)
        ensures
            depth_counter >= max_depth ==> r == static_value(self.board),
        decreases max_depth - depth_counter,
    {
        let current = self.static_value();
        if depth_counter >= max_depth {
            return current;
        }
        let available_moves = generate_moves_ordered(&self.board, true, &Vec::new());
        let in_check = self.board.position.is_in_check(self.board.turn);
        if available_moves.len() == 0 {
            if in_check {
                return self.terminal_score();
            }
            return current;
        }
        let white = matches!(self.board.turn, Color::White);
        let mut best = if !in_check {
            current
        } else if white {
            i64::MIN
        } else {
            i64::MAX
        };
        let mut i: usize = 0;
        while i < available_moves.len()
            invariant
                depth_counter < max_depth,
                white == (self.board.turn == Color::White),
                forall|k: int|
                    0 <= k < available_moves.len() ==> legal_for(self.board, #[trigger] available_moves@[k]),
            decreases available_moves.len() - i,
        {
            let next = self.apply_move(&available_moves[i]);
            let eval = next.quiescence_minimax(depth_counter + 1, max_depth);
            if white && eval > best || !white && eval < best {
                best = eval;
            }
            i = i + 1;
        }
        best
    }

    /// The best line from this position: score and principal variation,
    /// searching `depth` plies and quiescence up to `max_depth`.
    pub fn search(&self, depth: i32, max_depth: i32) -> (r: (i64, Vec<Move>))
        ensures
            !has_legal_move(self.board) ==> r.0 == terminal_value(self.board) && r.1.len() == 0,
            legal_line(self.board, r.1@),
            depth > 0 && has_legal_move(self.board) ==> r.1.len() > 0,
            r.1.len() <= if depth > 0 {
                depth as int
            } else {
                0
            },
    {
        self.minimax_alpha_beta(depth, max_depth, i64::MIN, i64::MAX, 0, &Vec::new())
    }
}

impl Scenario {
    /// Scores one move of the root: the move is made and the reply searched
    /// to `depth - 1` plies within the window (`alpha`, `beta`). The line
    /// returned starts with the move.
    pub fn evaluate_root_move(
        &self,
        player_move: &Move,
        depth: i32,
        max_depth: i32,
        alpha: i64,
        beta: i64,
    ) -> (r: (i64, Vec<Move>))
        requires
            legal_for(self.board, *player_move),
            depth >= 1,
        ensures
            r.1.len() > 0,
            r.1@[0] == *player_move,
            legal_line(self.board, r.1@),
    {
        let next = self.apply_move(player_move);
        let (eval, line) = next.minimax_alpha_beta(depth - 1, max_depth, alpha, beta, 1, &Vec::new());
        let mut full: Vec<Move> = Vec::new();
        full.push(*player_move);
        let mut k: usize = 0;
        while k < line.len()
            invariant
                k <= line.len(),
                full@ == seq![*player_move] + line@.subrange(0, k as int),
            decreases line.len() - k,
        {
            full.push(line[k]);
            k = k + 1;
            proof {
                assert(full@ =~= seq![*player_move] + line@.subrange(0, k as int));
            }
        }
        proof {
            assert(line@.subrange(0, line.len() as int) =~= line@);
            assert(full@.drop_first() =~= line@);
        }
        (eval, full)
    }
}

/// Whether `eval` is strictly better than `best` for the side `turn`:
/// higher for White, lower for Black.
pub open spec fn better_for(turn: Color, eval: i64, best: i64) -> bool {
    match turn {
        Color::White => eval > best,
        Color::Black => eval < best,
    }
}

/// Collects root results that arrive in any order and keeps the best so far
/// for the side to move; the first result to arrive is kept until a better
/// one comes.
pub struct BestLine {
    pub turn: Color,
    pub best: Option<(Move, i64, Vec<Move>)>,
}

impl BestLine {
    pub fn new(turn: Color) -> (r: BestLine)
        ensures
            r.turn == turn,
            r.best is None,
    {
        BestLine { turn, best: None }
    }

    /// Offers a result; returns whether it became the best.
    pub fn offer(&mut self, player_move: Move, eval: i64, line: Vec<Move>) -> (r: bool)
        ensures
            final(self).turn == old(self).turn,
            r == match old(self).best {
                None => true,
                Some(b) => better_for(old(self).turn, eval, b.1),
            },
            r ==> final(self).best == Some((player_move, eval, line)),
            !r ==> final(self).best == old(self).best,
    {
        let take = match &self.best {
            None => true,
            Some(b) => match self.turn {
                Color::White => eval > b.1,
                Color::Black => eval < b.1,
            },
        };
        if take {
            self.best = Some((player_move, eval, line));
        }
        take
    }
}

/// The bounds that the workers of a parallel root search share.
#[derive(Debug, Clone, Copy, PartialEq, Eq, Structural)]
pub struct RootWindow {
    pub alpha: i64,
    pub beta: i64,
}

impl RootWindow {
    /// The window before any root move is scored.
    pub fn full() -> (r: RootWindow)
        ensures
            r.alpha == i64::MIN,
            r.beta == i64::MAX,
    {
        RootWindow { alpha: i64::MIN, beta: i64::MAX }
    }

    /// The window after a root move of side `turn` scored `eval`: White
    /// raises alpha, Black lowers beta, each only ever tightening. Also
    /// whether the window is now closed, so that the other workers stop.
    pub fn record(&self, turn: Color, eval: i64) -> (r: (RootWindow, bool))
        ensures
            turn == Color::White ==> r.0.alpha == (if eval > self.alpha {
                eval
            } else {
                self.alpha
            }) && r.0.beta == self.beta,
            turn == Color::Black ==> r.0.beta == (if eval < self.beta {
                eval
            } else {
                self.beta
            }) && r.0.alpha == self.alpha,
            r.1 == (r.0.alpha >= r.0.beta),
    {
        let mut w = *self;
        match turn {
            Color::White => {
                if eval > w.alpha {
                    w.alpha = eval;
                }
            },
            Color::Black => {
                if eval < w.beta {
                    w.beta = eval;
                }
            },
        }
        (w, w.alpha >= w.beta)
    }
}

} // verus!
