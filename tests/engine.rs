use chess_engine::board::Board;
use chess_engine::castle::{available_castling_moves, bitboards_after_castling, castling_moves, Castle};
use chess_engine::evaluator::{move_score_with_mvv_lva, StaticEval};
use chess_engine::fen::ChessError;
use chess_engine::generate::{generate_moves_ordered, perft};
use chess_engine::generators::{bishop, black_pawn, king, knight, queen, rook, white_pawn};
use chess_engine::moves::{CastleSide, Move, MoveKind};
use chess_engine::pieces::{Bitboard, Color, Piece, PieceKind};
use chess_engine::position::BBPosition;
use chess_engine::search::{BestLine, RootWindow, Scenario};

const ITALIAN: &str = "r1b1kbnr/pppp1ppp/2n2q2/4p3/2BPP3/5N2/PPP2PPP/RNBQK2R b KQkq - 2 4";
const START: &str = "rnbqkbnr/pppppppp/8/8/8/8/PPPPPPPP/RNBQKBNR w KQkq - 0 1";

fn board(fen: &str) -> Board {
    Board::from_forsyth_edwards(fen).unwrap()
}

fn square(name: &str) -> u8 {
    Bitboard::from_square_name(name).unwrap().bits.trailing_zeros() as u8
}

fn standard(color: Color, kind: PieceKind, from: &str, to: &str) -> Move {
    Move {
        piece: Piece::new(color, kind),
        action: MoveKind::Standard { from: square(from), to: square(to) },
    }
}

fn text(chars: &[char]) -> String {
    chars.iter().collect()
}

#[test]
fn generation() {
    let board = Board::from_forsyth_edwards(ITALIAN).unwrap();
    generate_moves_ordered(&board, false, &Vec::new());
}

#[test]
fn cell_to_square() {
    let cell = "C7";
    let square = Bitboard::from_square_name(cell).unwrap();
    assert_eq!(
        square.bits,
        0b00000000_00100000_00000000_00000000_00000000_00000000_00000000_00000000
    );

    let cell = "H6";
    let square = Bitboard::from_square_name(cell).unwrap();
    assert_eq!(
        square.bits,
        0b00000000_00000000_00000001_00000000_00000000_00000000_00000000_00000000
    );
}

#[test]
fn legal_move() {
    let board = Board::from_forsyth_edwards(ITALIAN).unwrap();

    let board_after = board.make_checked_manual_move(
        Piece {
            kind: PieceKind::Knight,
            color: Color::Black,
        },
        "c6",
        "d4",
    );
    assert!(board_after.is_ok());

    let board_after = board.make_checked_manual_move(
        Piece {
            kind: PieceKind::Pawn,
            color: Color::Black,
        },
        "a7",
        "a5",
    );
    assert!(board_after.is_ok());
}

#[test]
fn illegal_manual_moves_are_refused() {
    let board = board(ITALIAN);
    let wrong_side = board.make_checked_manual_move(Piece::new(Color::White, PieceKind::Pawn), "e4", "e5");
    assert_eq!(wrong_side, Err(ChessError::IllegalMove));
    let not_a_knight_move =
        board.make_checked_manual_move(Piece::new(Color::Black, PieceKind::Knight), "c6", "c4");
    assert_eq!(not_a_knight_move, Err(ChessError::IllegalMove));
    let bad_square = board.make_checked_manual_move(Piece::new(Color::Black, PieceKind::Knight), "c6", "z9");
    assert_eq!(bad_square, Err(ChessError::InvalidSquare));
}

#[test]
fn perft_from_the_start() {
    let start = board(START);
    assert_eq!(perft(&start, 0), 1);
    assert_eq!(perft(&start, 1), 20);
    assert_eq!(perft(&start, 2), 400);
    assert_eq!(perft(&start, 3), 8902);
}

#[test]
fn new_game_matches_the_start_description() {
    assert_eq!(Board::new_game(), board(START));
}

#[test]
fn parse_errors() {
    assert_eq!(Board::from_forsyth_edwards("8/8/8/8/8/8/8/8 w - - 0"), Err(ChessError::WrongFieldCount));
    assert_eq!(
        Board::from_forsyth_edwards("rnbqkbnr/ppppxppp/8/8/8/8/PPPPPPPP/RNBQKBNR w KQkq - 0 1"),
        Err(ChessError::InvalidPiece)
    );
    assert_eq!(
        Board::from_forsyth_edwards("8/8/8/8/8/8/8/8/8/8/pppppppp w - - 0 1"),
        Err(ChessError::InvalidPlacement)
    );
    for short in ["8 w - - 0 1", "8/8/8/8/8/8/8 w - - 0 1", "8/8/8/8/8/8/8/7 w - - 0 1"] {
        assert_eq!(Board::from_forsyth_edwards(short), Err(ChessError::InvalidPlacement));
    }
    for bad in ["9/8/8/8/8/8/8/7 w - - 0 1", "08/8/8/8/8/8/8/8 w - - 0 1", "8/8/8/8//8/8/8/8 w - - 0 1",
        "44/8/8/8/8/8/8/8/ w - - 0 1", "ppppppppp/8/8/8/8/8/8/7 w - - 0 1"] {
        assert_eq!(Board::from_forsyth_edwards(bad), Err(ChessError::InvalidPlacement));
    }
    assert_eq!(BBPosition::from_fen_notation("8/8/8"), Err(ChessError::InvalidPlacement));
    assert!(BBPosition::from_fen_notation("44/8/8/8/8/8/8/8").is_ok());
    assert_eq!(Board::from_forsyth_edwards("8/8/8/8/8/8/8/8 x - - 0 1"), Err(ChessError::InvalidColor));
    assert_eq!(Board::from_forsyth_edwards("8/8/8/8/8/8/8/8 w KX - 0 1"), Err(ChessError::InvalidCastling));
    assert_eq!(Board::from_forsyth_edwards("8/8/8/8/8/8/8/8 w qk - 0 1"), Err(ChessError::InvalidCastling));
    assert_eq!(Board::from_forsyth_edwards("8/8/8/8/8/8/8/8 w - j9 0 1"), Err(ChessError::InvalidSquare));
    assert_eq!(Board::from_forsyth_edwards("8/8/8/8/8/8/8/8 w - - x 1"), Err(ChessError::InvalidCounter));
    assert_eq!(Board::from_forsyth_edwards("8/8/8/8/8/8/8/8 w - - 256 1"), Err(ChessError::InvalidCounter));
    assert_eq!(Board::from_forsyth_edwards("8/8/8/8/8/8/8/8 w - - 0 0"), Err(ChessError::InvalidCounter));
}

#[test]
fn parse_fields() {
    let b = board("4k3/8/8/8/8/8/8/4K3 b Kq e3 7 42");
    assert_eq!(b.turn, Color::Black);
    assert_eq!(b.white_can_castle, Castle::King);
    assert_eq!(b.black_can_castle, Castle::Queen);
    assert_eq!(b.en_passant_target.bits, 1u64 << 19);
    assert_eq!(b.reps_50, 7);
    assert_eq!(b.moves_count, 42);
    assert_eq!(b.position.piece_at(square("e8")), Some(Piece::new(Color::Black, PieceKind::King)));
    assert_eq!(b.position.piece_at(square("e1")), Some(Piece::new(Color::White, PieceKind::King)));
    assert_eq!(b.position.piece_at(square("e4")), None);
}

#[test]
fn castling_field() {
    assert_eq!(Castle::from_str("KQkq"), Ok((Castle::Both, Castle::Both)));
    assert_eq!(Castle::from_str("Qk"), Ok((Castle::Queen, Castle::King)));
    assert_eq!(Castle::from_str("-"), Ok((Castle::No, Castle::No)));
    assert_eq!(Castle::from_str("KK"), Err(ChessError::InvalidCastling));
    assert_eq!(Castle::from_str(""), Err(ChessError::InvalidCastling));
}

#[test]
fn side_and_piece_letters() {
    assert_eq!(Color::turn_from_str("w"), Ok(Color::White));
    assert_eq!(Color::turn_from_str("B"), Ok(Color::Black));
    assert_eq!(Color::turn_from_str("white"), Err(ChessError::InvalidColor));
    assert_eq!(Piece::from_char('q'), Ok(Piece::new(Color::Black, PieceKind::Queen)));
    assert_eq!(Piece::from_char('N'), Ok(Piece::new(Color::White, PieceKind::Knight)));
    assert_eq!(Piece::from_char('x'), Err(ChessError::InvalidPiece));
    assert_eq!(Piece::new(Color::White, PieceKind::Rook).to_char(), 'R');
    assert_eq!(Color::White.other(), Color::Black);
}

#[test]
fn placement_round_trip() {
    for fen in [START, ITALIAN, "3k4/8/7p/2p1p1pP/1pPpPpP1/1P1P1P2/N7/2K5 w - - 0 1"] {
        let b = board(fen);
        let placement = text(&b.position.placement_notation());
        assert_eq!(placement, fen.split(' ').next().unwrap());
        let again = BBPosition::from_fen_notation(&placement).unwrap();
        assert_eq!(again, b.position);
    }
}

#[test]
fn one_piece_per_square_after_moves() {
    let mut b = board(ITALIAN);
    for _ in 0..6 {
        let moves = generate_moves_ordered(&b, false, &Vec::new());
        b = b.make_unchecked_move(moves[0]);
        for sq in 0..64u8 {
            let owners = [
                b.position.white_pawn, b.position.white_knight, b.position.white_bishop,
                b.position.white_rook, b.position.white_queen, b.position.white_king,
                b.position.black_pawn, b.position.black_knight, b.position.black_bishop,
                b.position.black_rook, b.position.black_queen, b.position.black_king,
            ]
            .iter()
            .filter(|bb| bb.bits >> sq & 1 == 1)
            .count();
            assert!(owners <= 1);
        }
    }
}

#[test]
fn castling_rights_shrink() {
    let b = board("r3k2r/8/8/8/8/8/8/R3K2R w KQkq - 0 1");
    let king_moves = b.make_unchecked_move(standard(Color::White, PieceKind::King, "e1", "e2"));
    assert_eq!(king_moves.white_can_castle, Castle::No);
    assert_eq!(king_moves.black_can_castle, Castle::Both);
    let rook_moves = b.make_unchecked_move(standard(Color::White, PieceKind::Rook, "h1", "h5"));
    assert_eq!(rook_moves.white_can_castle, Castle::Queen);
    let takes_rook = b.make_unchecked_move(standard(Color::White, PieceKind::Rook, "a1", "a8"));
    assert_eq!(takes_rook.white_can_castle, Castle::King);
    assert_eq!(takes_rook.black_can_castle, Castle::King);
    let later = takes_rook.make_unchecked_move(standard(Color::Black, PieceKind::Rook, "h8", "h1"));
    assert_eq!(later.white_can_castle, Castle::No);
    assert_eq!(later.black_can_castle, Castle::No);
}

#[test]
fn castling_offered_when_allowed() {
    let b = board("r3k2r/8/8/8/8/8/8/R3K2R w KQkq - 0 1");
    let moves = castling_moves(&b);
    assert_eq!(moves.len(), 2);
    let after = b.make_unchecked_move(moves[0]);
    assert_eq!(after.position.piece_at(square("g1")), Some(Piece::new(Color::White, PieceKind::King)));
    assert_eq!(after.position.piece_at(square("f1")), Some(Piece::new(Color::White, PieceKind::Rook)));
    assert_eq!(after.position.piece_at(square("h1")), None);
    assert_eq!(after.position.piece_at(square("e1")), None);
}

#[test]
fn castling_refused_without_right() {
    let b = board("r3k2r/8/8/8/8/8/8/R3K2R w kq - 0 1");
    assert_eq!(available_castling_moves(&b, b.white_can_castle, b.black_can_castle), (None, None));
}

#[test]
fn castling_refused_through_occupied_square() {
    let b = board("r3k2r/8/8/8/8/8/8/RN2K1NR w KQkq - 0 1");
    assert_eq!(available_castling_moves(&b, b.white_can_castle, b.black_can_castle), (None, None));
}

#[test]
fn castling_refused_through_attacked_square() {
    let b = board("r3k2r/8/8/8/8/8/5r2/R3K2R w KQkq - 0 1");
    let (king_side, queen_side) = available_castling_moves(&b, b.white_can_castle, b.black_can_castle);
    assert_eq!(king_side, None);
    assert_eq!(
        queen_side,
        Some(Move { piece: Piece::new(Color::White, PieceKind::King), action: MoveKind::Castle(CastleSide::Queen) })
    );
}

#[test]
fn castling_refused_in_check() {
    let b = board("4k3/8/8/8/4r3/8/8/R3K2R w KQ - 0 1");
    assert!(castling_moves(&b).is_empty());
}

#[test]
fn en_passant_target_set_then_cleared() {
    let b = board("4k3/8/8/8/3p4/8/4P3/4K3 w - - 0 1");
    let pushed = b.make_unchecked_move(standard(Color::White, PieceKind::Pawn, "e2", "e4"));
    assert_eq!(pushed.en_passant_target.bits, 1u64 << square("e3"));
    let next = pushed.make_unchecked_move(standard(Color::Black, PieceKind::King, "e8", "d8"));
    assert_eq!(next.en_passant_target.bits, 0);
    let lone = board("4k3/8/8/8/8/8/4P3/4K3 w - - 0 1");
    let no_neighbour = lone.make_unchecked_move(standard(Color::White, PieceKind::Pawn, "e2", "e4"));
    assert_eq!(no_neighbour.en_passant_target.bits, 0);
}

#[test]
fn fifty_move_counter() {
    let b = board("4k3/8/8/8/8/8/4P3/4K1N1 w - - 5 9");
    let quiet = b.make_unchecked_move(standard(Color::White, PieceKind::Knight, "g1", "f3"));
    assert_eq!(quiet.reps_50, 6);
    assert_eq!(quiet.moves_count, 10);
    let pawn = b.make_unchecked_move(standard(Color::White, PieceKind::Pawn, "e2", "e3"));
    assert_eq!(pawn.reps_50, 0);
}

#[test]
fn promotion_gives_four_moves() {
    let b = board("4k3/7P/8/8/8/8/8/4K3 w - - 0 1");
    let moves = generate_moves_ordered(&b, false, &Vec::new());
    let promotions = moves
        .iter()
        .filter(|m| matches!(m.action, MoveKind::Promote { .. }))
        .count();
    assert_eq!(promotions, 4);
    assert!(matches!(moves[0].action, MoveKind::Promote { .. }));
}

#[test]
fn generated_moves_never_leave_king_attacked() {
    let b = board(ITALIAN);
    for m in generate_moves_ordered(&b, false, &Vec::new()) {
        let after = b.make_unchecked_move(m);
        assert!(!after.position.is_in_check(Color::Black));
    }
}

#[test]
fn checkmate_scores_extreme() {
    let mated = board("rnb1kbnr/pppp1ppp/8/4p3/6Pq/5P2/PPPPP2P/RNBQKBNR w KQkq - 1 3");
    assert!(generate_moves_ordered(&mated, false, &Vec::new()).is_empty());
    let (score, line) = Scenario::new(mated).search(2, 3);
    assert_eq!(score, i64::MIN);
    assert!(line.is_empty());

    let before = board("rnbqkbnr/pppp1ppp/8/4p3/6P1/5P2/PPPPP2P/RNBQKBNR b KQkq - 0 2");
    let (score, line) = Scenario::new(before).search(1, 1);
    assert_eq!(score, i64::MIN);
    assert_eq!(line, vec![standard(Color::Black, PieceKind::Queen, "d8", "h4")]);
}

#[test]
fn stalemate_scores_zero() {
    let b = board("7k/5Q2/6K1/8/8/8/8/8 b - - 0 1");
    assert!(generate_moves_ordered(&b, false, &Vec::new()).is_empty());
    assert!(!b.position.is_in_check(Color::Black));
    let (score, line) = Scenario::new(b).search(2, 3);
    assert_eq!(score, 0);
    assert!(line.is_empty());
}

#[test]
fn pruned_search_matches_plain_minimax() {
    for fen in ["4k3/8/8/3q4/8/4N3/8/4K3 w - - 0 1", "r3k3/8/8/8/3n4/8/2B5/4K2R b K - 0 1", START] {
        let s = Scenario::new(board(fen));
        for depth in 1..3 {
            let (pruned, line) = s.search(depth, depth + 1);
            assert_eq!(pruned, s.minimax(depth, depth + 1, 0));
            assert!(!line.is_empty());
        }
    }
}

#[test]
fn mvv_lva_scores() {
    let b = board("4k3/8/8/3q4/4P3/8/8/4K3 w - - 0 1");
    let pawn_takes_queen = standard(Color::White, PieceKind::Pawn, "e4", "d5");
    assert_eq!(move_score_with_mvv_lva(pawn_takes_queen, &b.position), 8000);
    let defended = board("4k3/2p5/3p4/8/8/8/3Q4/4K3 w - - 0 1");
    let queen_takes_pawn = standard(Color::White, PieceKind::Queen, "d2", "d6");
    assert_eq!(move_score_with_mvv_lva(queen_takes_pawn, &defended.position), -12000);
    let undefended = board("4k3/8/3p4/8/8/8/3Q4/4K3 w - - 0 1");
    assert_eq!(move_score_with_mvv_lva(queen_takes_pawn, &undefended.position), 1000);
}

#[test]
fn static_evaluation() {
    let start = StaticEval::static_evaluate(&board(START));
    assert_eq!(start.white, start.black);
    let kings = StaticEval::static_evaluate(&board("8/8/8/8/8/8/8/K6k w - - 0 1"));
    // a king in the corner attacks three empty squares
    assert_eq!(kings.white, 1_000_000_000 + 30);
    assert_eq!(kings.black, 1_000_000_000 + 30);
    let mut e = StaticEval::new();
    e.add(Color::Black, 5);
    assert_eq!((e.white, e.black), (0, 5));
}

#[test]
fn best_line_keeps_the_best_for_the_side() {
    let m = standard(Color::White, PieceKind::Pawn, "e2", "e4");
    let mut white = BestLine::new(Color::White);
    assert!(white.offer(m, 10, vec![m]));
    assert!(!white.offer(m, 5, vec![m]));
    assert!(white.offer(m, 20, vec![m]));
    assert_eq!(white.best.as_ref().unwrap().1, 20);
    let mut black = BestLine::new(Color::Black);
    assert!(black.offer(m, 10, vec![m]));
    assert!(black.offer(m, 5, vec![m]));
    assert!(!black.offer(m, 20, vec![m]));
}

#[test]
fn root_move_line_starts_with_the_move() {
    let s = Scenario::new(board(START));
    let m = standard(Color::White, PieceKind::Knight, "g1", "f3");
    let (_, line) = s.evaluate_root_move(&m, 2, 2, i64::MIN, i64::MAX);
    assert_eq!(line[0], m);
    assert_eq!(line.len(), 2);
}

#[test]
fn bitboard_basics() {
    let b = Bitboard::new(0b1010_0001);
    assert_eq!(b.count_bits(), 3);
    assert_eq!(b.single_squares(), vec![0, 5, 7]);
    assert_eq!(Bitboard::new(0).single_squares(), Vec::<u8>::new());
    assert_eq!(Bitboard::new(u64::MAX).count_bits(), 64);
}

#[test]
fn piece_patterns() {
    let corner = Bitboard::new(1 << square("a1"));
    let knight_moves = knight(corner, Bitboard::new(0), Bitboard::new(0));
    assert_eq!(knight_moves.bits, (1 << square("b3")) | (1 << square("c2")));
    let king_moves = king(corner, Bitboard::new(0), Bitboard::new(0));
    assert_eq!(king_moves.count_bits(), 3);
    let rook_moves = rook(corner, Bitboard::new(1 << square("a3")), Bitboard::new(1 << square("d1")));
    assert_eq!(
        rook_moves.bits,
        (1 << square("a2")) | (1 << square("b1")) | (1 << square("c1")) | (1 << square("d1"))
    );
    let bishop_moves = bishop(Bitboard::new(1 << square("d4")), Bitboard::new(0), Bitboard::new(0));
    assert_eq!(bishop_moves.count_bits(), 13);
    let queen_moves = queen(Bitboard::new(1 << square("d4")), Bitboard::new(0), Bitboard::new(0));
    assert_eq!(queen_moves.count_bits(), 27);
    let two_rooks = rook(
        Bitboard::new((1 << square("a1")) | (1 << square("h8"))),
        Bitboard::new(0),
        Bitboard::new(0),
    );
    assert_eq!(two_rooks.count_bits(), 26);
    let pawn = Bitboard::new(1 << square("e2"));
    assert_eq!(
        white_pawn(pawn, Bitboard::new(0), Bitboard::new(1 << square("d3"))).bits,
        (1 << square("e3")) | (1 << square("e4")) | (1 << square("d3"))
    );
    let blocked = Bitboard::new(1 << square("e3"));
    assert_eq!(white_pawn(pawn, blocked, Bitboard::new(0)).bits, 0);
    let black = Bitboard::new(1 << square("a7"));
    assert_eq!(
        black_pawn(black, Bitboard::new(0), Bitboard::new(1 << square("b6"))).bits,
        (1 << square("a6")) | (1 << square("a5")) | (1 << square("b6"))
    );
}

#[test]
fn position_queries() {
    let b = board(START);
    let p = &b.position;
    assert_eq!(p.occupied_cells().count_bits(), 32);
    assert_eq!(p.empty_cells().count_bits(), 32);
    assert_eq!(p.occupied_by(Color::White).bits, 0xffff);
    let knight = Piece::new(Color::White, PieceKind::Knight);
    assert_eq!(p.attacks(knight, p.get(knight)).count_bits(), 4);
    assert_eq!(p.captures(knight, p.get(knight)).bits, 0);
    assert_eq!(p.defenses(knight, p.get(knight)).count_bits(), 2);
    assert_eq!(p.available_moves(knight, square("g1")).count_bits(), 2);
    assert_eq!(p.attacked_squares(Color::White).count_bits(), 8);
    assert!(p.square_is_defended_by(square("e2"), Color::White));
    assert!(!p.is_in_check(Color::White));
    let s = Scenario::new(board("4k3/8/8/8/8/8/4r3/4K3 w - - 0 1"));
    assert!(s.white_in_check());
    assert!(!s.black_in_check());
}

#[test]
fn castling_moves_pieces() {
    let b = board("r3k2r/8/8/8/8/8/8/R3K2R b KQkq - 0 1");
    let after = bitboards_after_castling(&b.position, Color::Black, CastleSide::Queen);
    assert_eq!(after.piece_at(square("c8")), Some(Piece::new(Color::Black, PieceKind::King)));
    assert_eq!(after.piece_at(square("d8")), Some(Piece::new(Color::Black, PieceKind::Rook)));
    assert_eq!(after.piece_at(square("a8")), None);
    assert_eq!(after, b.position.position_after_castling(Color::Black, CastleSide::Queen));
}

#[test]
fn rated_moves_take_best_first() {
    let b = board(ITALIAN);
    let mut moves = b.generate_moves(false);
    let n = moves.len();
    assert!(!moves.is_empty());
    let mut last = i64::MAX;
    for i in 0..n {
        let m = moves.take(i);
        assert_eq!(moves.list[i].piece_move, m);
        assert!(moves.list[i].rating <= last);
        last = moves.list[i].rating;
    }
    let critical = b.generate_moves(true);
    assert!(critical.len() < n);
}

#[test]
fn principal_variation_hint_comes_first() {
    let b = board(START);
    let hint = standard(Color::White, PieceKind::Pawn, "a2", "a3");
    let moves = generate_moves_ordered(&b, false, &vec![hint]);
    assert_eq!(moves[0], hint);
    assert_eq!(moves.len(), 20);
    let plain = generate_moves_ordered(&b, false, &Vec::new());
    assert_ne!(plain[0], hint);
}

#[test]
fn captures_ordered_by_victim() {
    let b = board("4k3/8/8/2q1r3/3P4/8/8/7K w - - 0 1");
    let moves = generate_moves_ordered(&b, true, &Vec::new());
    assert_eq!(moves.len(), 2);
    assert_eq!(moves[0], standard(Color::White, PieceKind::Pawn, "d4", "c5"));
    assert_eq!(moves[1], standard(Color::White, PieceKind::Pawn, "d4", "e5"));
}

#[test]
fn quiescence_at_the_limit_is_the_static_value() {
    let s = Scenario::new(board(START));
    assert_eq!(s.static_value(), 0);
    assert_eq!(s.quiescence_search(i64::MIN, i64::MAX, 3, 3), 0);
    assert_eq!(s.quiescence_search(-50, -10, 3, 3), 0);
    assert_eq!(s.quiescence_minimax(3, 3), 0);
}

#[test]
fn root_window_tightens() {
    let w = RootWindow::full();
    let (w, closed) = w.record(Color::White, 40);
    assert_eq!((w.alpha, w.beta, closed), (40, i64::MAX, false));
    let (w, _) = w.record(Color::White, 10);
    assert_eq!(w.alpha, 40);
    let (w, closed) = w.record(Color::Black, 30);
    assert_eq!((w.alpha, w.beta, closed), (40, 30, true));
}

#[test]
fn valid_placements_parse() {
    assert!(BBPosition::from_fen_notation("8/8/8/8/8/8/8/8").is_ok());
    assert!(BBPosition::from_fen_notation("1k6/8/8/8/8/8/8/7K").is_ok());
    assert_eq!(perft(&board("4k3/8/8/8/8/8/8/4K3 w - - 0 1"), 1), 5);
}

#[test]
fn castling_moves_only_king_and_rook() {
    let b = board("4k3/8/8/8/8/8/8/4Kn1R w K - 0 1");
    let after = b.position.position_after_castling(Color::White, CastleSide::King);
    assert_eq!(after.white_king.bits, 1 << square("g1"));
    assert_eq!(after.white_rook.bits, 1 << square("f1"));
    assert_eq!(after.black_knight, b.position.black_knight);
    assert_eq!(after.black_king, b.position.black_king);
}

#[test]
fn quiet_quiescence_node_returns_static_value() {
    let s = Scenario::new(board("4k3/8/8/8/8/8/8/4K3 b - - 0 1"));
    let v = s.static_value();
    assert_eq!(s.quiescence_search(v + 10, v + 20, 0, 3), v);
    assert_eq!(s.quiescence_minimax(0, 3), v);
}
