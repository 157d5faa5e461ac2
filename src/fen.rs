//! Reading a position description (Forsyth-Edwards notation) into a board,
//! and writing the piece placement back.
use vstd::prelude::*;

use crate::bits::{is_square, occ, sq_bit};
use crate::board::Board;
use crate::castle::{castling_of_token, Castle};
use crate::pieces::{
    char_of_piece, color_of_token, lemma_char_of_piece, piece_of_char, Bitboard, Color, Piece,
    PieceKind,
};
use crate::position::{empty_position, lemma_with_piece, BBPosition};

verus! {

/// Why a position description, a square name or a move was refused.
#[derive(Debug, Clone, Copy, PartialEq, Eq, Structural)]
pub enum ChessError {
    /// Not six space-separated fields.
    WrongFieldCount,
    /// A letter of the placement that names no piece.
    InvalidPiece,
    /// The placement is not eight ranks, separated by '/', of eight squares
    /// each, with runs of empty squares written 1 to 8.
    InvalidPlacement,
    /// The side to move is not "w" or "b".
    InvalidColor,
    /// The castling field is not "-" or a subsequence of "KQkq".
    InvalidCastling,
    /// A square name is not a file letter and a rank digit.
    InvalidSquare,
    /// A counter is not a number in range.
    InvalidCounter,
    /// The move is not legal on the board.
    IllegalMove,
}

pub open spec fn is_digit(c: char) -> bool {
    '0' <= c <= '9'
}

pub open spec fn digit_value(c: char) -> int {
    (c as int) - ('0' as int)
}

/// One letter of the placement read: ranks from 8 down to 1, files from a
/// to h, so the next square is counted down from 63. A digit skips that many
/// squares, '/' separates ranks, a letter puts a piece on the next square.
pub open spec fn place_step(st: Result<(BBPosition, int), ChessError>, c: char) -> Result<
    (BBPosition, int),
    ChessError,
> {
    match st {
        Err(e) => Err(e),
        Ok((pos, next)) => if c == '/' {
            Ok((pos, next))
        } else if is_digit(c) {
            Ok((pos, if next - digit_value(c) < -1 { -1 } else { next - digit_value(c) }))
        } else {
            match piece_of_char(c) {
                None => Err(ChessError::InvalidPiece),
                Some(p) => if next >= 0 {
                    Ok((pos.with_piece(next, p), next - 1))
                } else {
                    Err(ChessError::InvalidPlacement)
                },
            }
        },
    }
}

pub open spec fn place_all(st: Result<(BBPosition, int), ChessError>, s: Seq<char>) -> Result<
    (BBPosition, int),
    ChessError,
>
    decreases s.len(),
{
    if s.len() == 0 {
        st
    } else {
        place_all(place_step(st, s[0]), s.drop_first())
    }
}

/// One letter of the placement checked for shape. The state is the rank
/// being read (0 for the eighth) and how many of its squares are covered.
pub open spec fn shape_step(st: Option<(int, int)>, c: char) -> Option<(int, int)> {
    match st {
        None => None,
        Some((rank, width)) => if c == '/' {
            if width == 8 && rank < 7 {
                Some((rank + 1, 0))
            } else {
                None
            }
        } else if '1' <= c <= '8' {
            if width + digit_value(c) <= 8 {
                Some((rank, width + digit_value(c)))
            } else {
                None
            }
        } else if is_digit(c) {
            None
        } else if width < 8 {
            Some((rank, width + 1))
        } else {
            None
        },
    }
}

pub open spec fn shape_all(st: Option<(int, int)>, s: Seq<char>) -> Option<(int, int)>
    decreases s.len(),
{
    if s.len() == 0 {
        st
    } else {
        shape_all(shape_step(st, s[0]), s.drop_first())
    }
}

/// The placement is eight ranks separated by '/', each covering exactly
/// eight squares, with runs of empty squares written by a digit 1 to 8.
pub open spec fn well_shaped(s: Seq<char>) -> bool {
    shape_all(Some((0, 0)), s) == Some((7int, 8int))
}

/// The position that a placement field describes: an unknown letter is an
/// `InvalidPiece`, a placement that is not eight ranks of eight squares an
/// `InvalidPlacement`.
pub open spec fn placement_of(s: Seq<char>) -> Result<BBPosition, ChessError> {
    match place_all(Ok((empty_position(), 63)), s) {
        Ok((pos, _)) => if well_shaped(s) {
            Ok(pos)
        } else {
            Err(ChessError::InvalidPlacement)
        },
        Err(e) => Err(e),
    }
}

/// The fields of `s` separated by single spaces.
pub open spec fn split_fields(s: Seq<char>) -> Seq<Seq<char>>
    decreases s.len(),
{
    if s.len() == 0 {
        seq![Seq::empty()]
    } else {
        let f = split_fields(s.drop_last());
        if s.last() == ' ' {
            f.push(Seq::empty())
        } else {
            f.update(f.len() - 1, f.last().push(s.last()))
        }
    }
}

pub open spec fn decimal_value(s: Seq<char>) -> int
    decreases s.len(),
{
    if s.len() == 0 {
        0
    } else {
        10 * decimal_value(s.drop_last()) + digit_value(s.last())
    }
}

/// The number that `s` writes in decimal digits, when it is one and at most
/// `max`.
pub open spec fn number_of(s: Seq<char>, max: int) -> Option<int> {
    if s.len() > 0 && (forall|i: int| 0 <= i < s.len() ==> is_digit(s[i])) && decimal_value(s)
        <= max {
        Some(decimal_value(s))
    } else {
        None
    }
}

/// The square a name such as "e3" or "E3" stands for.
pub open spec fn square_of_name(s: Seq<char>) -> Option<int> {
    if s.len() == 2 && (('a' <= s[0] <= 'h') || ('A' <= s[0] <= 'H')) && '1' <= s[1] <= '8' {
        let file = if 'a' <= s[0] <= 'h' {
            (s[0] as int) - ('a' as int)
        } else {
            (s[0] as int) - ('A' as int)
        };
        Some(((s[1] as int) - ('1' as int)) * 8 + 7 - file)
    } else {
        None
    }
}

/// The en passant field: "-" or a square name.
pub open spec fn en_passant_of(s: Seq<char>) -> Option<u64> {
    if s =~= seq!['-'] {
        Some(0)
    } else {
        match square_of_name(s) {
            Some(sq) => Some(sq_bit(sq)),
            None => None,
        }
    }
}

/// The board that a position description gives, or the first field found
/// wrong, in the order placement, side, en passant, castling, counters.
pub open spec fn fen_spec(s: Seq<char>) -> Result<Board, ChessError> {
    let f = split_fields(s);
    if f.len() != 6 {
        Err(ChessError::WrongFieldCount)
    } else {
        match placement_of(f[0]) {
            Err(e) => Err(e),
            Ok(position) => match color_of_token(f[1]) {
                None => Err(ChessError::InvalidColor),
                Some(turn) => match en_passant_of(f[3]) {
                    None => Err(ChessError::InvalidSquare),
                    Some(ep) => match castling_of_token(f[2]) {
                        None => Err(ChessError::InvalidCastling),
                        Some((white_can_castle, black_can_castle)) => match number_of(f[4], 255) {
                            None => Err(ChessError::InvalidCounter),
                            Some(reps) => match number_of(f[5], 0xffff_ffff) {
                                None => Err(ChessError::InvalidCounter),
                                Some(count) => if count == 0 {
                                    Err(ChessError::InvalidCounter)
                                } else {
                                    Ok(
                                        Board {
                                            position,
                                            turn,
                                            en_passant_target: Bitboard { bits: ep },
                                            white_can_castle,
                                            black_can_castle,
                                            reps_50: reps as u8,
                                            moves_count: count as u32,
                                        },
                                    )
                                },
                            },
                        },
                    },
                },
            },
        }
    }
}

/// The digit for a run of `run` empty squares, or nothing for no run.
pub open spec fn run_digit(run: int) -> Seq<char> {
    if run <= 0 {
        Seq::empty()
    } else {
        seq![(('0' as int) + run) as char]
    }
}

/// The placement text of the squares below `n`, going down from square
/// `n - 1` (a8 is 63, h1 is 0), with `run` empty squares pending: pieces by
/// their letters, runs of empty squares by a digit, ranks ended by '/'.
pub open spec fn placement_text_from(pos: BBPosition, n: int, run: int) -> Seq<char>
    decreases n,
{
    if n <= 0 {
        run_digit(run)
    } else {
        let s = n - 1;
        let (prefix, pending) = match pos.at(s) {
            Some(p) => (run_digit(run).push(char_of_piece(p)), 0),
            None => (Seq::<char>::empty(), run + 1),
        };
        if s % 8 == 0 && s > 0 {
            prefix + run_digit(pending) + seq!['/'] + placement_text_from(pos, n - 1, 0)
        } else {
            prefix + placement_text_from(pos, n - 1, pending)
        }
    }
}

/// The placement field that describes `pos`.
pub open spec fn placement_text(pos: BBPosition) -> Seq<char> {
    placement_text_from(pos, 64, 0)
}

proof fn lemma_place_all_append(
    st: Result<(BBPosition, int), ChessError>,
    a: Seq<char>,
    b: Seq<char>,
)
    ensures
        place_all(st, a + b) == place_all(place_all(st, a), b),
    decreases a.len(),
{
    if a.len() == 0 {
        assert(a + b =~= b);
    } else {
        assert((a + b).drop_first() =~= a.drop_first() + b);
        assert((a + b)[0] == a[0]);
        lemma_place_all_append(place_step(st, a[0]), a.drop_first(), b);
    }
}

/// Reading the digit of a pending run moves the next square past the run.
proof fn lemma_read_run(acc: BBPosition, next: int, run: int)
    requires
        0 <= run <= 8,
        next - run >= -1,
    ensures
        place_all(Ok((acc, next)), run_digit(run)) == Ok::<(BBPosition, int), ChessError>(
            (acc, next - run),
        ),
{
    if run > 0 {
        let c = (('0' as int) + run) as char;
        assert(run_digit(run) =~= seq![c]);
        assert(is_digit(c));
        assert(digit_value(c) == run);
        lemma_read_one(Ok((acc, next)), c);
    }
}

proof fn lemma_read_one(st: Result<(BBPosition, int), ChessError>, c: char)
    ensures
        place_all(st, seq![c]) == place_step(st, c),
{
    assert(seq![c].drop_first() =~= Seq::<char>::empty());
    reveal_with_fuel(place_all, 2);
}

/// Reading back the text of the squares below `n` puts on each of them the
/// piece of `pos`, and leaves the squares above as they were.
#[verifier::spinoff_prover]
#[verifier::rlimit(50)]
proof fn lemma_placement_text_reads_back(pos: BBPosition, n: int, run: int, acc: BBPosition)
    requires
        0 <= n <= 64,
        0 <= run <= 8,
        n > 0 && n % 8 == 0 ==> run == 0,
        n % 8 != 0 ==> run + n % 8 <= 8,
        n == 0 ==> run <= 8,
        forall|s: int| 0 <= s < n + run ==> #[trigger] acc.at(s) == None::<Piece>,
    ensures
        place_all(Ok((acc, n + run - 1)), placement_text_from(pos, n, run)) is Ok,
        forall|s: int|
            is_square(s) ==> #[trigger] place_all(
                Ok((acc, n + run - 1)),
                placement_text_from(pos, n, run),
            )->Ok_0.0.at(s) == if s < n {
                pos.at(s)
            } else {
                acc.at(s)
            },
    decreases n,
{
    let st0 = Ok::<(BBPosition, int), ChessError>((acc, n + run - 1));
    if n == 0 {
        lemma_read_run(acc, run - 1, run);
    } else {
        let s = n - 1;
        let boundary = s % 8 == 0 && s > 0;
        match pos.at(s) {
            Some(p) => {
                let c = char_of_piece(p);
                lemma_char_of_piece(p);
                let acc1 = acc.with_piece(s, p);
                lemma_with_piece(acc, s, p);
                let rest = placement_text_from(pos, n - 1, 0);
                lemma_read_run(acc, n + run - 1, run);
                lemma_read_one(Ok((acc, s)), c);
                lemma_place_all_append(st0, run_digit(run), seq![c]);
                assert(run_digit(run).push(c) =~= run_digit(run) + seq![c]);
                let after_piece = Ok::<(BBPosition, int), ChessError>((acc1, s - 1));
                assert(place_all(st0, run_digit(run).push(c)) == after_piece);
                lemma_placement_text_reads_back(pos, n - 1, 0, acc1);
                if boundary {
                    assert(run_digit(0) =~= Seq::<char>::empty());
                    lemma_read_one(after_piece, '/');
                    assert(placement_text_from(pos, n, run) =~= run_digit(run).push(c) + (seq!['/']
                        + rest));
                    lemma_place_all_append(st0, run_digit(run).push(c), seq!['/'] + rest);
                    lemma_place_all_append(after_piece, seq!['/'], rest);
                } else {
                    assert(placement_text_from(pos, n, run) =~= run_digit(run).push(c) + rest);
                    lemma_place_all_append(st0, run_digit(run).push(c), rest);
                }
            },
            None => {
                if boundary {
                    let rest = placement_text_from(pos, n - 1, 0);
                    lemma_read_run(acc, n + run - 1, run + 1);
                    let after_run = Ok::<(BBPosition, int), ChessError>((acc, s - 1));
                    lemma_read_one(after_run, '/');
                    assert(placement_text_from(pos, n, run) =~= run_digit(run + 1) + (seq!['/']
                        + rest));
                    lemma_place_all_append(st0, run_digit(run + 1), seq!['/'] + rest);
                    lemma_place_all_append(after_run, seq!['/'], rest);
                    lemma_placement_text_reads_back(pos, n - 1, 0, acc);
                } else {
                    assert(placement_text_from(pos, n, run) =~= Seq::<char>::empty()
                        + placement_text_from(pos, n - 1, run + 1));
                    assert(Seq::<char>::empty() + placement_text_from(pos, n - 1, run + 1)
                        =~= placement_text_from(pos, n - 1, run + 1));
                    lemma_placement_text_reads_back(pos, n - 1, run + 1, acc);
                }
            },
        }
    }
}

proof fn lemma_shape_all_append(st: Option<(int, int)>, a: Seq<char>, b: Seq<char>)
    ensures
        shape_all(st, a + b) == shape_all(shape_all(st, a), b),
    decreases a.len(),
{
    if a.len() == 0 {
        assert(a + b =~= b);
    } else {
        assert((a + b).drop_first() =~= a.drop_first() + b);
        assert((a + b)[0] == a[0]);
        lemma_shape_all_append(shape_step(st, a[0]), a.drop_first(), b);
    }
}

proof fn lemma_shape_one(st: Option<(int, int)>, c: char)
    ensures
        shape_all(st, seq![c]) == shape_step(st, c),
{
    assert(seq![c].drop_first() =~= Seq::<char>::empty());
    reveal_with_fuel(shape_all, 2);
}

proof fn lemma_shape_run(rank: int, width: int, run: int)
    requires
        0 <= run <= 8,
        width + run <= 8,
    ensures
        shape_all(Some((rank, width)), run_digit(run)) == Some((rank, width + run)),
{
    if run > 0 {
        let c = (('0' as int) + run) as char;
        assert(run_digit(run) =~= seq![c]);
        lemma_shape_one(Some((rank, width)), c);
    }
}

/// The text of the squares below `n` completes the ranks it starts in.
#[verifier::spinoff_prover]
#[verifier::rlimit(50)]
proof fn lemma_placement_text_shape(pos: BBPosition, n: int, run: int, rank: int, width: int)
    requires
        0 <= n <= 64,
        0 <= run <= 8,
        n > 0 && n % 8 == 0 ==> run == 0,
        n % 8 != 0 ==> run + n % 8 <= 8,
        n > 0 ==> rank == 7 - (n - 1) / 8 && width == 8 * ((n - 1) / 8) + 8 - n - run,
        n == 0 ==> rank == 7 && width == 8 - run,
    ensures
        shape_all(Some((rank, width)), placement_text_from(pos, n, run)) == Some((7int, 8int)),
    decreases n,
{
    let st0 = Some((rank, width));
    if n == 0 {
        lemma_shape_run(rank, width, run);
    } else {
        let s = n - 1;
        let boundary = s % 8 == 0 && s > 0;
        let rest = placement_text_from(pos, n - 1, 0);
        match pos.at(s) {
            Some(p) => {
                let c = char_of_piece(p);
                lemma_char_of_piece(p);
                lemma_shape_run(rank, width, run);
                lemma_shape_one(Some((rank, width + run)), c);
                lemma_shape_all_append(st0, run_digit(run), seq![c]);
                assert(run_digit(run).push(c) =~= run_digit(run) + seq![c]);
                let after = Some((rank, width + run + 1));
                assert(shape_all(st0, run_digit(run).push(c)) == after);
                if boundary {
                    assert(run_digit(0) =~= Seq::<char>::empty());
                    lemma_shape_one(after, '/');
                    assert(placement_text_from(pos, n, run) =~= run_digit(run).push(c) + (seq!['/']
                        + rest));
                    lemma_shape_all_append(st0, run_digit(run).push(c), seq!['/'] + rest);
                    lemma_shape_all_append(after, seq!['/'], rest);
                    lemma_placement_text_shape(pos, n - 1, 0, rank + 1, 0);
                } else {
                    assert(placement_text_from(pos, n, run) =~= run_digit(run).push(c) + rest);
                    lemma_shape_all_append(st0, run_digit(run).push(c), rest);
                    lemma_placement_text_shape(pos, n - 1, 0, rank, width + run + 1);
                }
            },
            None => {
                if boundary {
                    lemma_shape_run(rank, width, run + 1);
                    let after = Some((rank, width + run + 1));
                    lemma_shape_one(after, '/');
                    assert(placement_text_from(pos, n, run) =~= run_digit(run + 1) + (seq!['/']
                        + rest));
                    lemma_shape_all_append(st0, run_digit(run + 1), seq!['/'] + rest);
                    lemma_shape_all_append(after, seq!['/'], rest);
                    lemma_placement_text_shape(pos, n - 1, 0, rank + 1, 0);
                } else {
                    assert(placement_text_from(pos, n, run) =~= Seq::<char>::empty()
                        + placement_text_from(pos, n - 1, run + 1));
                    assert(Seq::<char>::empty() + placement_text_from(pos, n - 1, run + 1)
                        =~= placement_text_from(pos, n - 1, run + 1));
                    lemma_placement_text_shape(pos, n - 1, run + 1, rank, width);
                }
            },
        }
    }
}

/// A letter that may stand in a placement: a piece letter, a digit or '/'.
pub open spec fn placement_char(c: char) -> bool {
    c == '/' || is_digit(c) || piece_of_char(c) is Some
}

proof fn lemma_shaped_places(
    pos: BBPosition,
    next: int,
    rank: int,
    width: int,
    s: Seq<char>,
)
    requires
        0 <= rank <= 7,
        0 <= width <= 8,
        next == 63 - 8 * rank - width,
        forall|i: int| 0 <= i < s.len() ==> placement_char(#[trigger] s[i]),
        shape_all(Some((rank, width)), s) == Some((7int, 8int)),
    ensures
        place_all(Ok((pos, next)), s) is Ok,
    decreases s.len(),
{
    if s.len() > 0 {
        let c = s[0];
        assert(placement_char(s[0]));
        let rest = s.drop_first();
        assert forall|i: int| 0 <= i < rest.len() implies placement_char(#[trigger] rest[i]) by {
            assert(rest[i] == s[i + 1]);
        }
        match shape_step(Some((rank, width)), c) {
            None => {
                lemma_shape_all_none(rest);
            },
            Some((r2, w2)) => {
                match place_step(Ok((pos, next)), c) {
                    Ok((p2, n2)) => {
                        lemma_shaped_places(p2, n2, r2, w2, rest);
                    },
                    Err(_) => {},
                }
            },
        }
    }
}

/// Every well-formed placement (eight ranks of eight squares, written with
/// piece letters and digits 1 to 8) is read without error.
pub proof fn lemma_valid_placement_parses(s: Seq<char>)
    requires
        well_shaped(s),
        forall|i: int| 0 <= i < s.len() ==> placement_char(#[trigger] s[i]),
    ensures
        placement_of(s) is Ok,
{
    lemma_shaped_places(empty_position(), 63, 0, 0, s);
}

/// Writing the placement of a parsed position and reading it back gives
/// the same piece on every square.
pub proof fn lemma_placement_round_trip(text: Seq<char>)
    requires
        placement_of(text) is Ok,
    ensures
        placement_of(placement_text(placement_of(text)->Ok_0)) is Ok,
        forall|s: int|
            is_square(s) ==> #[trigger] placement_of(placement_text(placement_of(text)->Ok_0))->Ok_0.at(
                s,
            ) == placement_of(text)->Ok_0.at(s),
{
    let pos = placement_of(text)->Ok_0;
    let e = empty_position();
    assert forall|s: int| 0 <= s < 64 implies #[trigger] e.at(s) == None::<Piece> by {
        crate::bits::lemma_has_ops(0, 0, s);
    }
    lemma_placement_text_reads_back(pos, 64, 0, e);
    lemma_placement_text_shape(pos, 64, 0, 0, 0);
}

/// The characters of a string.
pub fn chars_of(s: &str) -> (r: Vec<char>)
    ensures
        r@ == s@,
{
    let n = s.unicode_len();
    let mut r: Vec<char> = Vec::new();
    let mut i: usize = 0;
    while i < n
        invariant
            n == s@.len(),
            i <= n,
            r@ == s@.subrange(0, i as int),
        decreases n - i,
    {
        r.push(s.get_char(i));
        i = i + 1;
        proof {
            assert(r@ =~= s@.subrange(0, i as int));
        }
    }
    proof {
        assert(r@ =~= s@);
    }
    r
}

/// Reads a decimal number of at most `max`.
pub fn parse_number(s: &Vec<char>, max: u64) -> (r: Option<u64>)
    ensures
        match number_of(s@, max as int) {
            Some(v) => 0 <= v <= max && r == Some(v as u64),
            None => r is None,
        },
{
    if s.len() == 0 {
        return None;
    }
    let mut acc: u64 = 0;
    let mut i: usize = 0;
    while i < s.len()
        invariant
            i <= s.len(),
            s.len() > 0,
            acc == decimal_value(s@.subrange(0, i as int)),
            acc <= max,
            forall|j: int| 0 <= j < i ==> is_digit(s@[j]),
        decreases s.len() - i,
    {
        let c = s[i];
        proof {
            assert(s@.subrange(0, i as int + 1).drop_last() =~= s@.subrange(0, i as int));
        }
        if !('0' <= c && c <= '9') {
            return None;
        }
        let d = (c as u32 - '0' as u32) as u64;
        if d > max {
            proof {
                lemma_decimal_prefix(s@, i as int + 1);
                lemma_decimal_nonneg(s@.subrange(0, i as int));
            }
            return None;
        }
        if acc > (max - d) / 10 {
            proof {
                lemma_decimal_prefix(s@, i as int + 1);
                assert(decimal_value(s@.subrange(0, i as int + 1)) == 10 * acc + d);
                assert(10 * acc + d > max) by (nonlinear_arith)
                    requires
                        acc > (max - d) / 10,
                        d <= max,
                ;
            }
            return None;
        }
        proof {
            assert(10 * acc + d <= max) by (nonlinear_arith)
                requires
                    acc <= (max - d) / 10,
                    d <= max,
            ;
        }
        acc = acc * 10 + d;
        i = i + 1;
    }
    proof {
        assert(s@.subrange(0, s.len() as int) =~= s@);
        lemma_decimal_nonneg(s@);
    }
    Some(acc)
}

/// The value of a prefix of digits is at most the value of the whole.
proof fn lemma_decimal_prefix(s: Seq<char>, k: int)
    requires
        0 <= k <= s.len(),
        forall|j: int| 0 <= j < s.len() ==> is_digit(s[j]) || j >= k,
    ensures
        decimal_value(s.subrange(0, k)) <= decimal_value(s) || exists|j: int|
            k <= j < s.len() && !is_digit(s[j]),
    decreases s.len() - k,
{
    if k < s.len() {
        if is_digit(s[k]) {
            lemma_decimal_prefix(s, k + 1);
            assert(s.subrange(0, k + 1).drop_last() =~= s.subrange(0, k));
            lemma_decimal_nonneg(s.subrange(0, k));
        }
    } else {
        assert(s.subrange(0, k) =~= s);
    }
}

proof fn lemma_decimal_nonneg(s: Seq<char>)
    requires
        forall|j: int| 0 <= j < s.len() ==> is_digit(s[j]),
    ensures
        decimal_value(s) >= 0,
    decreases s.len(),
{
    if s.len() > 0 {
        lemma_decimal_nonneg(s.drop_last());
    }
}

pub open spec fn views(v: Seq<Vec<char>>) -> Seq<Seq<char>> {
    v.map_values(|x: Vec<char>| x@)
}

proof fn lemma_place_all_err(e: ChessError, s: Seq<char>)
    ensures
        place_all(Err(e), s) == Err::<(BBPosition, int), ChessError>(e),
    decreases s.len(),
{
    if s.len() > 0 {
        lemma_place_all_err(e, s.drop_first());
    }
}

/// Splits on single spaces.
fn split_on_spaces(s: &Vec<char>) -> (r: Vec<Vec<char>>)
    ensures
        views(r@) == split_fields(s@),
{
    let mut fields: Vec<Vec<char>> = Vec::new();
    let mut cur: Vec<char> = Vec::new();
    let mut i: usize = 0;
    proof {
        assert(s@.subrange(0, 0) =~= Seq::<char>::empty());
        assert(views(fields@).push(cur@) =~= seq![Seq::<char>::empty()]);
    }
    while i < s.len()
        invariant
            i <= s.len(),
            views(fields@).push(cur@) == split_fields(s@.subrange(0, i as int)),
        decreases s.len() - i,
    {
        let c = s[i];
        proof {
            assert(s@.subrange(0, i as int + 1).drop_last() =~= s@.subrange(0, i as int));
            assert(s@.subrange(0, i as int + 1).last() == c);
        }
        if c == ' ' {
            let done = cur;
            proof {
                assert(views(fields@.push(done)) =~= views(fields@).push(done@));
            }
            fields.push(done);
            cur = Vec::new();
            proof {
                assert(views(fields@).push(cur@) =~= split_fields(s@.subrange(0, i as int + 1)));
            }
        } else {
            let ghost before = cur@;
            cur.push(c);
            proof {
                let prev = split_fields(s@.subrange(0, i as int));
                assert(prev.last() == before);
                assert(views(fields@).push(cur@) =~= prev.update(prev.len() - 1, before.push(c)));
            }
        }
        i = i + 1;
    }
    proof {
        assert(s@.subrange(0, s.len() as int) =~= s@);
        assert(views(fields@.push(cur)) =~= views(fields@).push(cur@));
    }
    fields.push(cur);
    fields
}

proof fn lemma_shape_all_none(s: Seq<char>)
    ensures
        shape_all(None, s) == None::<(int, int)>,
    decreases s.len(),
{
    if s.len() > 0 {
        lemma_shape_all_none(s.drop_first());
    }
}

/// Whether a placement field is eight ranks of eight squares.
fn placement_is_well_shaped(s: &Vec<char>) -> (r: bool)
    ensures
        r == well_shaped(s@),
{
    let mut rank: u8 = 0;
    let mut width: u8 = 0;
    let mut i: usize = 0;
    proof {
        assert(s@.subrange(0, s@.len() as int) =~= s@);
    }
    while i < s.len()
        invariant
            i <= s.len(),
            rank <= 7,
            width <= 8,
            shape_all(Some((0, 0)), s@) == shape_all(
                Some((rank as int, width as int)),
                s@.subrange(i as int, s@.len() as int),
            ),
        decreases s.len() - i,
    {
        let c = s[i];
        let ghost rest = s@.subrange(i as int, s@.len() as int);
        proof {
            assert(rest.drop_first() =~= s@.subrange(i as int + 1, s@.len() as int));
            assert(rest[0] == c);
        }
        if c == '/' {
            if width == 8 && rank < 7 {
                rank = rank + 1;
                width = 0;
            } else {
                proof {
                    lemma_shape_all_none(rest.drop_first());
                }
                return false;
            }
        } else if '1' <= c && c <= '8' {
            let d = (c as u32 - '0' as u32) as u8;
            if width + d <= 8 {
                width = width + d;
            } else {
                proof {
                    lemma_shape_all_none(rest.drop_first());
                }
                return false;
            }
        } else if c == '0' || c == '9' {
            proof {
                lemma_shape_all_none(rest.drop_first());
            }
            return false;
        } else if width < 8 {
            width = width + 1;
        } else {
            proof {
                lemma_shape_all_none(rest.drop_first());
            }
            return false;
        }
        i = i + 1;
    }
    proof {
        assert(s@.subrange(i as int, s@.len() as int) =~= Seq::<char>::empty());
    }
    rank == 7 && width == 8
}

/// Reads a placement field.
fn read_placement(s: &Vec<char>) -> (r: Result<BBPosition, ChessError>)
    ensures
        r == placement_of(s@),
        r is Ok ==> r->Ok_0.wf(),
{
    let mut pos = BBPosition::empty();
    let mut next: i32 = 63;
    let mut i: usize = 0;
    proof {
        assert(pos == empty_position());
        assert(s@.subrange(0, s.len() as int) =~= s@);
        assert(s@.subrange(0, s@.len() as int) =~= s@);
    }
    while i < s.len()
        invariant
            i <= s.len(),
            -1 <= next <= 63,
            pos.wf(),
            place_all(Ok((empty_position(), 63)), s@) == place_all(
                Ok((pos, next as int)),
                s@.subrange(i as int, s@.len() as int),
            ),
        decreases s.len() - i,
    {
        let c = s[i];
        let ghost rest = s@.subrange(i as int, s@.len() as int);
        proof {
            assert(rest.drop_first() =~= s@.subrange(i as int + 1, s@.len() as int));
            assert(rest[0] == c);
        }
        if c == '/' {
        } else if '0' <= c && c <= '9' {
            let d = (c as u32 - '0' as u32) as i32;
            next = if next - d < -1 {
                -1
            } else {
                next - d
            };
        } else {
            match Piece::from_char(c) {
                Err(_) => {
                    proof {
                        lemma_place_all_err(ChessError::InvalidPiece, rest.drop_first());
                    }
                    return Err(ChessError::InvalidPiece);
                },
                Ok(p) => {
                    if next < 0 {
                        proof {
                            lemma_place_all_err(ChessError::InvalidPlacement, rest.drop_first());
                        }
                        return Err(ChessError::InvalidPlacement);
                    }
                    pos.put(next as u8, p);
                    next = next - 1;
                },
            }
        }
        i = i + 1;
    }
    proof {
        assert(s@.subrange(i as int, s@.len() as int) =~= Seq::<char>::empty());
    }
    if !placement_is_well_shaped(s) {
        return Err(ChessError::InvalidPlacement);
    }
    Ok(pos)
}

/// Reads a square name such as "e3".
fn read_square(s: &Vec<char>) -> (r: Option<u8>)
    ensures
        r == match square_of_name(s@) {
            Some(sq) => Some(sq as u8),
            None => None::<u8>,
        },
        r is Some ==> r->Some_0 < 64,
{
    if s.len() != 2 {
        return None;
    }
    let f = s[0];
    let k = s[1];
    let file: u32 = if 'a' <= f && f <= 'h' {
        f as u32 - 'a' as u32
    } else if 'A' <= f && f <= 'H' {
        f as u32 - 'A' as u32
    } else {
        return None;
    };
    if !('1' <= k && k <= '8') {
        return None;
    }
    let rank = k as u32 - '1' as u32;
    Some((rank * 8 + 7 - file) as u8)
}

fn read_en_passant(s: &Vec<char>) -> (r: Option<u64>)
    ensures
        r == en_passant_of(s@),
{
    if s.len() == 1 && s[0] == '-' {
        proof {
            assert(s@ =~= seq!['-']);
        }
        return Some(0);
    }
    proof {
        assert(!(s@ =~= seq!['-']));
    }
    match read_square(s) {
        Some(sq) => Some(1u64 << (sq as u64)),
        None => None,
    }
}

pub(crate) fn read_castling(s: &Vec<char>) -> (r: Option<(Castle, Castle)>)
    ensures
        r == castling_of_token(s@),
{
    let n = s.len();
    if n == 1 && s[0] == '-' {
        proof {
            assert(s@ =~= seq!['-']);
        }
        return Some((Castle::No, Castle::No));
    }
    if n == 0 || n > 4 {
        proof {
            assert(!(s@ =~= seq!['-']));
        }
        return None;
    }
    let mut last: i8 = -1;
    let mut wk = false;
    let mut wq = false;
    let mut bk = false;
    let mut bq = false;
    let mut i: usize = 0;
    while i < n
        invariant
            n == s@.len(),
            1 <= n <= 4,
            !(n == 1 && s@[0] == '-'),
            i <= n,
            -1 <= last <= 3,
            i > 0 ==> last == crate::castle::castling_letter_index(s@[i - 1]),
            i == 0 ==> last == -1,
            forall|j: int| 0 <= j < i ==> crate::castle::castling_letter_index(s@[j]) >= 0,
            forall|j: int, k: int|
                0 <= j < k < i ==> crate::castle::castling_letter_index(s@[j])
                    < crate::castle::castling_letter_index(s@[k]),
            wk == s@.subrange(0, i as int).contains('K'),
            wq == s@.subrange(0, i as int).contains('Q'),
            bk == s@.subrange(0, i as int).contains('k'),
            bq == s@.subrange(0, i as int).contains('q'),
        decreases n - i,
    {
        let c = s[i];
        let idx: i8 = if c == 'K' {
            0
        } else if c == 'Q' {
            1
        } else if c == 'k' {
            2
        } else if c == 'q' {
            3
        } else {
            -1
        };
        if idx <= last {
            proof {
                assert(!(s@ =~= seq!['-']));
                if idx >= 0 {
                    assert(i > 0);
                    assert(crate::castle::castling_letter_index(s@[i - 1])
                        >= crate::castle::castling_letter_index(s@[i as int]));
                }
            }
            return None;
        }
        proof {
            let prev = s@.subrange(0, i as int);
            let next = s@.subrange(0, i as int + 1);
            assert(next =~= prev.push(c));
            assert forall|ch: char| next.contains(ch) <==> (prev.contains(ch) || ch == c) by {
                if next.contains(ch) {
                    let k = choose|k: int| 0 <= k < next.len() && next[k] == ch;
                    if k < prev.len() {
                        assert(prev[k] == ch);
                    }
                }
                if prev.contains(ch) {
                    let k = choose|k: int| 0 <= k < prev.len() && prev[k] == ch;
                    assert(next[k] == ch);
                }
                if ch == c {
                    assert(next[i as int] == ch);
                }
            }
        }
        if idx == 0 {
            wk = true;
        } else if idx == 1 {
            wq = true;
        } else if idx == 2 {
            bk = true;
        } else {
            bq = true;
        }
        last = idx;
        i = i + 1;
    }
    proof {
        assert(s@.subrange(0, n as int) =~= s@);
        assert(!(s@ =~= seq!['-']));
    }
    Some((castle_of_flags(wk, wq), castle_of_flags(bk, bq)))
}

fn castle_of_flags(king: bool, queen: bool) -> (r: Castle)
    ensures
        r == crate::castle::castle_of(king, queen),
{
    if king && queen {
        Castle::Both
    } else if king {
        Castle::King
    } else if queen {
        Castle::Queen
    } else {
        Castle::No
    }
}

pub(crate) fn read_color(s: &Vec<char>) -> (r: Option<Color>)
    ensures
        r == color_of_token(s@),
{
    if s.len() != 1 {
        return None;
    }
    let c = s[0];
    if c == 'w' || c == 'W' {
        Some(Color::White)
    } else if c == 'b' || c == 'B' {
        Some(Color::Black)
    } else {
        None
    }
}

/// The piece kind on column `c` of each back rank, counted from the h-file.
pub open spec fn back_rank_kind(c: int) -> PieceKind {
    if c == 0 || c == 7 {
        PieceKind::Rook
    } else if c == 1 || c == 6 {
        PieceKind::Knight
    } else if c == 2 || c == 5 {
        PieceKind::Bishop
    } else if c == 3 {
        PieceKind::King
    } else {
        PieceKind::Queen
    }
}

/// The piece on square `s` in the starting position.
pub open spec fn start_piece(s: int) -> Option<Piece> {
    if s < 8 {
        Some(Piece { color: Color::White, kind: back_rank_kind(s) })
    } else if s < 16 {
        Some(Piece { color: Color::White, kind: PieceKind::Pawn })
    } else if s < 48 {
        None
    } else if s < 56 {
        Some(Piece { color: Color::Black, kind: PieceKind::Pawn })
    } else {
        Some(Piece { color: Color::Black, kind: back_rank_kind(s - 56) })
    }
}

fn push_run(out: &mut Vec<char>, run: u8)
    requires
        run <= 8,
    ensures
        final(out)@ == old(out)@ + run_digit(run as int),
{
    if run > 0 {
        out.push(('0' as u8 + run) as char);
    }
    proof {
        assert(final(out)@ =~= old(out)@ + run_digit(run as int));
    }
}

impl BBPosition {
    /// The placement field of a position description for this position.
    pub fn placement_notation(&self) -> (r: Vec<char>)
        ensures
            r@ == placement_text(*self),
    {
        let mut out: Vec<char> = Vec::new();
        let mut n: u8 = 64;
        let mut run: u8 = 0;
        while n > 0
            invariant
                n <= 64,
                run <= 8,
                n > 0 && n % 8 == 0 ==> run == 0,
                n % 8 != 0 ==> run + n % 8 <= 8,
                out@ + placement_text_from(*self, n as int, run as int) == placement_text(*self),
            decreases n,
        {
            let s = n - 1;
            let ghost before = out@;
            let ghost old_run = run;
            let pending: u8 = match self.piece_at(s) {
                Some(p) => {
                    push_run(&mut out, run);
                    out.push(p.to_char());
                    0
                },
                None => run + 1,
            };
            if s % 8 == 0 && s > 0 {
                push_run(&mut out, pending);
                out.push('/');
                run = 0;
            } else {
                run = pending;
            }
            proof {
                assert(out@ + placement_text_from(*self, s as int, run as int) =~= before
                    + placement_text_from(*self, n as int, old_run as int));
            }
            n = s;
        }
        proof {
            assert(out@ + run_digit(run as int) == placement_text(*self));
        }
        push_run(&mut out, run);
        out
    }
}

impl Bitboard {
    /// The bitboard of the square a name such as "C7" stands for.
    pub fn from_square_name(s: &str) -> (r: Result<Bitboard, ChessError>)
        ensures
            r == match square_of_name(s@) {
                Some(sq) => Ok(Bitboard { bits: sq_bit(sq) }),
                None => Err(ChessError::InvalidSquare),
            },
    {
        let cs = chars_of(s);
        match read_square(&cs) {
            Some(sq) => Ok(Bitboard { bits: 1u64 << (sq as u64) }),
            None => Err(ChessError::InvalidSquare),
        }
    }
}

impl BBPosition {
    /// Reads the placement field of a position description.
    pub fn from_fen_notation(s: &str) -> (r: Result<BBPosition, ChessError>)
        ensures
            r == placement_of(s@),
            r is Ok ==> r->Ok_0.wf(),
    {
        let cs = chars_of(s);
        read_placement(&cs)
    }
}

impl Board {
    /// Reads a position description: placement, side to move, castling
    /// rights, en passant square, half-move counter and move number.
    pub fn from_forsyth_edwards(s: &str) -> (r: Result<Board, ChessError>)
        ensures
            r == fen_spec(s@),
            r is Ok ==> r->Ok_0.wf(),
    {
        let cs = chars_of(s);
        let fields = split_on_spaces(&cs);
        proof {
            assert(views(fields@).len() == fields@.len());
        }
        if fields.len() != 6 {
            return Err(ChessError::WrongFieldCount);
        }
        proof {
            assert forall|i: int| 0 <= i < 6 implies fields@[i]@ == split_fields(s@)[i] by {
                assert(views(fields@)[i] == fields@[i]@);
            }
        }
        let position = match read_placement(&fields[0]) {
            Ok(p) => p,
            Err(e) => return Err(e),
        };
        let turn = match read_color(&fields[1]) {
            Some(t) => t,
            None => return Err(ChessError::InvalidColor),
        };
        let ep = match read_en_passant(&fields[3]) {
            Some(b) => b,
            None => return Err(ChessError::InvalidSquare),
        };
        let (white_can_castle, black_can_castle) = match read_castling(&fields[2]) {
            Some(c) => c,
            None => return Err(ChessError::InvalidCastling),
        };
        let reps_50 = match parse_number(&fields[4], 255) {
            Some(v) => v as u8,
            None => return Err(ChessError::InvalidCounter),
        };
        let moves_count = match parse_number(&fields[5], 0xffff_ffff) {
            Some(v) => v as u32,
            None => return Err(ChessError::InvalidCounter),
        };
        if moves_count == 0 {
            return Err(ChessError::InvalidCounter);
        }
        Ok(
            Board {
                position,
                turn,
                en_passant_target: Bitboard { bits: ep },
                white_can_castle,
                black_can_castle,
                reps_50,
                moves_count,
            },
        )
    }

    /// The standard starting position.
    pub fn new_game() -> (r: Board)
        ensures
            r.wf(),
            forall|s: int| is_square(s) ==> #[trigger] r.position.at(s) == start_piece(s),
            r.turn == Color::White,
            r.en_passant_target.bits == 0,
            r.white_can_castle == Castle::Both,
            r.black_can_castle == Castle::Both,
            r.reps_50 == 0,
            r.moves_count == 1,
    {
        let mut p = BBPosition::empty();
        let back: [PieceKind; 8] = [
            PieceKind::Rook,
            PieceKind::Knight,
            PieceKind::Bishop,
            PieceKind::King,
            PieceKind::Queen,
            PieceKind::Bishop,
            PieceKind::Knight,
            PieceKind::Rook,
        ];
        proof {
            assert forall|s: int| is_square(s) implies #[trigger] p.at(s) == None::<Piece> by {
                crate::bits::lemma_has_ops(0, 0, s);
            }
        }
        let mut col: u8 = 0;
        while col < 8
            invariant
                p.wf(),
                col <= 8,
                forall|c: int| 0 <= c < 8 ==> #[trigger] back@[c] == back_rank_kind(c),
                forall|s: int|
                    is_square(s) ==> #[trigger] p.at(s) == if (s % 8) < col && (s < 16 || s >= 48) {
                        start_piece(s)
                    } else {
                        None
                    },
            decreases 8 - col,
        {
            let kind = back[col as usize];
            p.put(col, Piece { color: Color::White, kind });
            p.put(8 + col, Piece { color: Color::White, kind: PieceKind::Pawn });
            p.put(48 + col, Piece { color: Color::Black, kind: PieceKind::Pawn });
            p.put(56 + col, Piece { color: Color::Black, kind });
            col = col + 1;
        }
        Board {
            position: p,
            turn: Color::White,
            en_passant_target: Bitboard { bits: 0 },
            white_can_castle: Castle::Both,
            black_can_castle: Castle::Both,
            reps_50: 0,
            moves_count: 1,
        }
    }
}

} // verus!
