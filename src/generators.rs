//! Reachable-square patterns of each piece kind, on whole bitboards.
//!
//! Every function takes the origin squares as a bitboard and may be called
//! with several origins at once: the result is the union over the origins.
use vstd::prelude::*;

use crate::bits::{lemma_has_ops, occ};
use crate::pieces::Bitboard;

verus! {

/// Every square but the a-file.
pub const NOT_FILE_A: u64 = 0x7f7f_7f7f_7f7f_7f7f;

/// Every square but the b-file.
pub const NOT_FILE_B: u64 = 0xbfbf_bfbf_bfbf_bfbf;

/// Every square but the g-file.
pub const NOT_FILE_G: u64 = 0xfdfd_fdfd_fdfd_fdfd;

/// Every square but the h-file.
pub const NOT_FILE_H: u64 = 0xfefe_fefe_fefe_fefe;

pub const RANK_1: u64 = 0x0000_0000_0000_00ff;

pub const RANK_3: u64 = 0x0000_0000_00ff_0000;

pub const RANK_6: u64 = 0x0000_ff00_0000_0000;

pub const RANK_8: u64 = 0xff00_0000_0000_0000;

// A shift left by 8 moves a square one rank up; a shift left by 1 moves it
// one file towards the a-file. The file masks drop the squares that a shift
// carried across the edge of the board.

/// Squares attacked by white pawns standing on `o`.
pub open spec fn white_pawn_attack_mask(o: u64) -> u64 {
    ((o << 7u64) & NOT_FILE_A) | ((o << 9u64) & NOT_FILE_H)
}

/// Squares attacked by black pawns standing on `o`.
pub open spec fn black_pawn_attack_mask(o: u64) -> u64 {
    ((o >> 7u64) & NOT_FILE_H) | ((o >> 9u64) & NOT_FILE_A)
}

/// Pushes of white pawns on `o`: one square forward onto an empty square,
/// and two from the second rank when both squares are empty.
pub open spec fn white_push_mask(o: u64, occupied: u64) -> u64 {
    let single = (o << 8u64) & !occupied;
    single | (((single & RANK_3) << 8u64) & !occupied)
}

/// Pushes of black pawns on `o`, towards the first rank.
pub open spec fn black_push_mask(o: u64, occupied: u64) -> u64 {
    let single = (o >> 8u64) & !occupied;
    single | (((single & RANK_6) >> 8u64) & !occupied)
}

/// Knight jumps from `o`, on an empty board.
pub open spec fn knight_mask(o: u64) -> u64 {
    ((o << 15u64) & NOT_FILE_A) | ((o >> 15u64) & NOT_FILE_H) | ((o << 17u64) & NOT_FILE_H) | ((o
        >> 17u64) & NOT_FILE_A) | ((o >> 6u64) & NOT_FILE_H & NOT_FILE_G) | ((o << 6u64)
        & NOT_FILE_A & NOT_FILE_B) | ((o << 10u64) & NOT_FILE_H & NOT_FILE_G) | ((o >> 10u64)
        & NOT_FILE_A & NOT_FILE_B)
}

/// King steps from `o`, on an empty board.
pub open spec fn king_mask(o: u64) -> u64 {
    ((o << 1u64) & NOT_FILE_H) | ((o << 9u64) & NOT_FILE_H) | ((o >> 7u64) & NOT_FILE_H) | (o
        << 8u64) | ((o << 7u64) & NOT_FILE_A) | ((o >> 1u64) & NOT_FILE_A) | ((o >> 9u64)
        & NOT_FILE_A) | (o >> 8u64)
}

/// The squares a slider reaches from (`rank`, `col`) stepping by (`dr`, `dc`):
/// it stops before a square of `own` and on a square of `enemies`.
pub open spec fn ray(rank: int, col: int, dr: int, dc: int, own: u64, enemies: u64, fuel: nat) -> u64
    decreases fuel,
{
    let nr = rank + dr;
    let nc = col + dc;
    if fuel == 0 || !(0 <= nr < 8 && 0 <= nc < 8) {
        0
    } else {
        let s = nr * 8 + nc;
        if occ(own, s) {
            0
        } else if occ(enemies, s) {
            1u64 << (s as u64)
        } else {
            (1u64 << (s as u64)) | ray(nr, nc, dr, dc, own, enemies, (fuel - 1) as nat)
        }
    }
}

/// The four diagonal rays from square `sq`.
pub open spec fn diagonal_rays(sq: int, own: u64, enemies: u64) -> u64 {
    let r = sq / 8;
    let c = sq % 8;
    ray(r, c, 1, 1, own, enemies, 7) | ray(r, c, 1, -1, own, enemies, 7) | ray(
        r,
        c,
        -1,
        1,
        own,
        enemies,
        7,
    ) | ray(r, c, -1, -1, own, enemies, 7)
}

/// The four straight rays from square `sq`.
pub open spec fn straight_rays(sq: int, own: u64, enemies: u64) -> u64 {
    let r = sq / 8;
    let c = sq % 8;
    ray(r, c, 1, 0, own, enemies, 7) | ray(r, c, -1, 0, own, enemies, 7) | ray(
        r,
        c,
        0,
        1,
        own,
        enemies,
        7,
    ) | ray(r, c, 0, -1, own, enemies, 7)
}

/// Union of the rays of every origin square below `n`.
pub open spec fn slides(o: u64, diagonal: bool, own: u64, enemies: u64, n: int) -> u64
    decreases n,
{
    if n <= 0 {
        0
    } else {
        let rest = slides(o, diagonal, own, enemies, n - 1);
        if occ(o, n - 1) {
            rest | if diagonal {
                diagonal_rays(n - 1, own, enemies)
            } else {
                straight_rays(n - 1, own, enemies)
            }
        } else {
            rest
        }
    }
}

pub open spec fn bishop_mask(o: u64, own: u64, enemies: u64) -> u64 {
    slides(o, true, own, enemies, 64)
}

pub open spec fn rook_mask(o: u64, own: u64, enemies: u64) -> u64 {
    slides(o, false, own, enemies, 64)
}

pub open spec fn queen_mask(o: u64, own: u64, enemies: u64) -> u64 {
    rook_mask(o, own, enemies) | bishop_mask(o, own, enemies)
}

/// A knight jump from `s` to `t`: one rank and two files, or two ranks and
/// one file.
pub open spec fn knight_step(s: int, t: int) -> bool {
    let dr = t / 8 - s / 8;
    let dc = t % 8 - s % 8;
    ((dr == 1 || dr == -1) && (dc == 2 || dc == -2)) || ((dr == 2 || dr == -2) && (dc == 1 || dc
        == -1))
}

/// A king step from `s` to `t`: to any other square at most one rank and
/// one file away.
pub open spec fn king_step(s: int, t: int) -> bool {
    let dr = t / 8 - s / 8;
    let dc = t % 8 - s % 8;
    -1 <= dr <= 1 && -1 <= dc <= 1 && s != t
}

/// The knight mask of one square is exactly the knight jumps from it: the
/// file masks drop every shift that would leave the board.
pub proof fn lemma_knight_mask_square(s: int, t: int)
    requires
        0 <= s < 64,
        0 <= t < 64,
    ensures
        occ(knight_mask(1u64 << (s as u64)), t) <==> knight_step(s, t),
{
    let ss = s as u64;
    let tt = t as u64;
    assert((((((1u64 << ss) << 15u64) & 0x7f7f_7f7f_7f7f_7f7fu64) | (((1u64 << ss) >> 15u64)
        & 0xfefe_fefe_fefe_fefeu64) | (((1u64 << ss) << 17u64) & 0xfefe_fefe_fefe_fefeu64) | (((1u64
        << ss) >> 17u64) & 0x7f7f_7f7f_7f7f_7f7fu64) | (((1u64 << ss) >> 6u64)
        & 0xfefe_fefe_fefe_fefeu64 & 0xfdfd_fdfd_fdfd_fdfdu64) | (((1u64 << ss) << 6u64)
        & 0x7f7f_7f7f_7f7f_7f7fu64 & 0xbfbf_bfbf_bfbf_bfbfu64) | (((1u64 << ss) << 10u64)
        & 0xfefe_fefe_fefe_fefeu64 & 0xfdfd_fdfd_fdfd_fdfdu64) | (((1u64 << ss) >> 10u64)
        & 0x7f7f_7f7f_7f7f_7f7fu64 & 0xbfbf_bfbf_bfbf_bfbfu64)) >> tt) & 1 == 1 <==> (((tt / 8 == ss
        / 8 + 1 || ss / 8 == tt / 8 + 1) && (tt % 8 == ss % 8 + 2 || ss % 8 == tt % 8 + 2)) || ((tt
        / 8 == ss / 8 + 2 || ss / 8 == tt / 8 + 2) && (tt % 8 == ss % 8 + 1 || ss % 8 == tt % 8 + 1))))
        by (bit_vector)
        requires
            ss < 64,
            tt < 64,
    ;
}

/// The king mask of one square is exactly the king steps from it.
pub proof fn lemma_king_mask_square(s: int, t: int)
    requires
        0 <= s < 64,
        0 <= t < 64,
    ensures
        occ(king_mask(1u64 << (s as u64)), t) <==> king_step(s, t),
{
    let ss = s as u64;
    let tt = t as u64;
    assert((((((1u64 << ss) << 1u64) & 0xfefe_fefe_fefe_fefeu64) | (((1u64 << ss) << 9u64)
        & 0xfefe_fefe_fefe_fefeu64) | (((1u64 << ss) >> 7u64) & 0xfefe_fefe_fefe_fefeu64) | ((1u64
        << ss) << 8u64) | (((1u64 << ss) << 7u64) & 0x7f7f_7f7f_7f7f_7f7fu64) | (((1u64 << ss)
        >> 1u64) & 0x7f7f_7f7f_7f7f_7f7fu64) | (((1u64 << ss) >> 9u64) & 0x7f7f_7f7f_7f7f_7f7fu64) | ((
        1u64 << ss) >> 8u64)) >> tt) & 1 == 1 <==> ((tt / 8 == ss / 8 + 1 || ss / 8 == tt / 8 + 1
        || tt / 8 == ss / 8) && (tt % 8 == ss % 8 + 1 || ss % 8 == tt % 8 + 1 || tt % 8 == ss % 8)
        && ss != tt)) by (bit_vector)
        requires
            ss < 64,
            tt < 64,
    ;
}

/// A white pawn on `s` attacks `t`: one rank up and one file aside.
pub open spec fn white_pawn_step(s: int, t: int) -> bool {
    t / 8 == s / 8 + 1 && (t % 8 == s % 8 + 1 || s % 8 == t % 8 + 1)
}

/// A black pawn on `s` attacks `t`: one rank down and one file aside.
pub open spec fn black_pawn_step(s: int, t: int) -> bool {
    s / 8 == t / 8 + 1 && (t % 8 == s % 8 + 1 || s % 8 == t % 8 + 1)
}

/// A pawn of one square attacks the two squares diagonally ahead of it,
/// one rank up for White and one rank down for Black, on the board.
pub proof fn lemma_pawn_attack_mask_square(s: int, t: int)
    requires
        0 <= s < 64,
        0 <= t < 64,
    ensures
        occ(white_pawn_attack_mask(1u64 << (s as u64)), t) <==> white_pawn_step(s, t),
        occ(black_pawn_attack_mask(1u64 << (s as u64)), t) <==> black_pawn_step(s, t),
{
    let ss = s as u64;
    let tt = t as u64;
    assert((((((1u64 << ss) << 7u64) & 0x7f7f_7f7f_7f7f_7f7fu64) | (((1u64 << ss) << 9u64)
        & 0xfefe_fefe_fefe_fefeu64)) >> tt) & 1 == 1 <==> (tt / 8 == ss / 8 + 1 && (tt % 8 == ss % 8
        + 1 || ss % 8 == tt % 8 + 1))) by (bit_vector)
        requires
            ss < 64,
            tt < 64,
    ;
    assert((((((1u64 << ss) >> 7u64) & 0xfefe_fefe_fefe_fefeu64) | (((1u64 << ss) >> 9u64)
        & 0x7f7f_7f7f_7f7f_7f7fu64)) >> tt) & 1 == 1 <==> (ss / 8 == tt / 8 + 1 && (tt % 8 == ss % 8
        + 1 || ss % 8 == tt % 8 + 1))) by (bit_vector)
        requires
            ss < 64,
            tt < 64,
    ;
}

/// Diagonal captures of white pawns: onto squares of `black_pieces` only.
/// With every square as `black_pieces` it gives all attacked squares.
pub fn white_pawn_attack(starting_position: Bitboard, _blockers: Bitboard, black_pieces: Bitboard) -> (r: Bitboard)
    ensures
        r.bits == white_pawn_attack_mask(starting_position.bits) & black_pieces.bits,
        forall|s: int, t: int|
            0 <= s < 64 && 0 <= t < 64 && starting_position.bits == 1u64 << (s as u64) ==> (occ(
                r.bits,
                t,
            ) <==> white_pawn_step(s, t) && occ(
                black_pieces.bits,
                t,
            )),
{
    proof {
        assert forall|s: int, t: int|
            0 <= s < 64 && 0 <= t < 64 && starting_position.bits == 1u64 << (s as u64) implies (occ(
                white_pawn_attack_mask(starting_position.bits) & black_pieces.bits,
                t,
            ) <==> white_pawn_step(s, t) && occ(
                black_pieces.bits,
                t,
            )) by {
            lemma_pawn_attack_mask_square(s, t);
            lemma_has_ops(white_pawn_attack_mask(starting_position.bits), black_pieces.bits, t);
        }
    }
    let o = starting_position.bits;
    Bitboard { bits: (((o << 7u64) & NOT_FILE_A) | ((o << 9u64) & NOT_FILE_H)) & black_pieces.bits }
}

/// Diagonal captures of black pawns: onto squares of `white_pieces` only.
pub fn black_pawn_attack(starting_position: Bitboard, _blockers: Bitboard, white_pieces: Bitboard) -> (r: Bitboard)
    ensures
        r.bits == black_pawn_attack_mask(starting_position.bits) & white_pieces.bits,
        forall|s: int, t: int|
            0 <= s < 64 && 0 <= t < 64 && starting_position.bits == 1u64 << (s as u64) ==> (occ(
                r.bits,
                t,
            ) <==> black_pawn_step(s, t) && occ(
                white_pieces.bits,
                t,
            )),
{
    proof {
        assert forall|s: int, t: int|
            0 <= s < 64 && 0 <= t < 64 && starting_position.bits == 1u64 << (s as u64) implies (occ(
                black_pawn_attack_mask(starting_position.bits) & white_pieces.bits,
                t,
            ) <==> black_pawn_step(s, t) && occ(
                white_pieces.bits,
                t,
            )) by {
            lemma_pawn_attack_mask_square(s, t);
            lemma_has_ops(black_pawn_attack_mask(starting_position.bits), white_pieces.bits, t);
        }
    }
    let o = starting_position.bits;
    Bitboard { bits: (((o >> 7u64) & NOT_FILE_H) | ((o >> 9u64) & NOT_FILE_A)) & white_pieces.bits }
}

/// Forward moves of white pawns; `blockers` are the occupied squares.
pub fn white_pawn_quiet_moves(starting_position: Bitboard, blockers: Bitboard) -> (r: Bitboard)
    ensures
        r.bits == white_push_mask(starting_position.bits, blockers.bits),
{
    let single = (starting_position.bits << 8u64) & !blockers.bits;
    Bitboard { bits: single | (((single & RANK_3) << 8u64) & !blockers.bits) }
}

/// Forward moves of black pawns; `blockers` are the occupied squares.
pub fn black_pawn_quiet_moves(starting_position: Bitboard, blockers: Bitboard) -> (r: Bitboard)
    ensures
        r.bits == black_push_mask(starting_position.bits, blockers.bits),
{
    let single = (starting_position.bits >> 8u64) & !blockers.bits;
    Bitboard { bits: single | (((single & RANK_6) >> 8u64) & !blockers.bits) }
}

/// All moves of white pawns: pushes and captures of `enemies`.
pub fn white_pawn(starting_position: Bitboard, blockers: Bitboard, enemies: Bitboard) -> (r: Bitboard)
    ensures
        r.bits == (white_pawn_attack_mask(starting_position.bits) & enemies.bits) | white_push_mask(
            starting_position.bits,
            blockers.bits,
        ),
{
    let atk = white_pawn_attack(starting_position, blockers, enemies);
    let quiet = white_pawn_quiet_moves(starting_position, blockers);
    Bitboard { bits: atk.bits | quiet.bits }
}

/// All moves of black pawns: pushes and captures of `enemies`.
pub fn black_pawn(starting_position: Bitboard, blockers: Bitboard, enemies: Bitboard) -> (r: Bitboard)
    ensures
        r.bits == (black_pawn_attack_mask(starting_position.bits) & enemies.bits) | black_push_mask(
            starting_position.bits,
            blockers.bits,
        ),
{
    let atk = black_pawn_attack(starting_position, blockers, enemies);
    let quiet = black_pawn_quiet_moves(starting_position, blockers);
    Bitboard { bits: atk.bits | quiet.bits }
}

/// Knight moves; `blockers` are the squares of the knight's own side.
pub fn knight(starting_position: Bitboard, blockers: Bitboard, _enemies: Bitboard) -> (r: Bitboard)
    ensures
        r.bits == knight_mask(starting_position.bits) & !blockers.bits,
        forall|s: int, t: int|
            0 <= s < 64 && 0 <= t < 64 && starting_position.bits == 1u64 << (s as u64) ==> (occ(
                r.bits,
                t,
            ) <==> knight_step(s, t) && !occ(blockers.bits, t)),
{
    proof {
        assert forall|s: int, t: int|
            0 <= s < 64 && 0 <= t < 64 && starting_position.bits == 1u64 << (s as u64) implies (occ(
                knight_mask(starting_position.bits) & !blockers.bits,
                t,
            ) <==> knight_step(s, t) && !occ(blockers.bits, t)) by {
            lemma_knight_mask_square(s, t);
            lemma_has_ops(knight_mask(starting_position.bits), !blockers.bits, t);
            lemma_has_ops(blockers.bits, 0, t);
        }
    }
    let o = starting_position.bits;
    Bitboard {
        bits: (((o << 15u64) & NOT_FILE_A) | ((o >> 15u64) & NOT_FILE_H) | ((o << 17u64)
            & NOT_FILE_H) | ((o >> 17u64) & NOT_FILE_A) | ((o >> 6u64) & NOT_FILE_H & NOT_FILE_G)
            | ((o << 6u64) & NOT_FILE_A & NOT_FILE_B) | ((o << 10u64) & NOT_FILE_H & NOT_FILE_G)
            | ((o >> 10u64) & NOT_FILE_A & NOT_FILE_B)) & !blockers.bits,
    }
}

/// King moves; `blockers` are the squares of the king's own side.
pub fn king(starting_position: Bitboard, blockers: Bitboard, _enemies: Bitboard) -> (r: Bitboard)
    ensures
        r.bits == king_mask(starting_position.bits) & !blockers.bits,
        forall|s: int, t: int|
            0 <= s < 64 && 0 <= t < 64 && starting_position.bits == 1u64 << (s as u64) ==> (occ(
                r.bits,
                t,
            ) <==> king_step(s, t) && !occ(blockers.bits, t)),
{
    proof {
        assert forall|s: int, t: int|
            0 <= s < 64 && 0 <= t < 64 && starting_position.bits == 1u64 << (s as u64) implies (occ(
                king_mask(starting_position.bits) & !blockers.bits,
                t,
            ) <==> king_step(s, t) && !occ(blockers.bits, t)) by {
            lemma_king_mask_square(s, t);
            lemma_has_ops(king_mask(starting_position.bits), !blockers.bits, t);
            lemma_has_ops(blockers.bits, 0, t);
        }
    }
    let o = starting_position.bits;
    Bitboard {
        bits: (((o << 1u64) & NOT_FILE_H) | ((o << 9u64) & NOT_FILE_H) | ((o >> 7u64)
            & NOT_FILE_H) | (o << 8u64) | ((o << 7u64) & NOT_FILE_A) | ((o >> 1u64) & NOT_FILE_A)
            | ((o >> 9u64) & NOT_FILE_A) | (o >> 8u64)) & !blockers.bits,
    }
}

fn walk_ray(rank: i8, col: i8, dr: i8, dc: i8, own: u64, enemies: u64, fuel: u8) -> (r: u64)
    requires
        0 <= rank < 8,
        0 <= col < 8,
        -1 <= dr <= 1,
        -1 <= dc <= 1,
    ensures
        r == ray(rank as int, col as int, dr as int, dc as int, own, enemies, fuel as nat),
    decreases fuel,
{
    let nr = rank + dr;
    let nc = col + dc;
    if fuel == 0 || !(0 <= nr && nr < 8 && 0 <= nc && nc < 8) {
        0
    } else {
        let s: u64 = (nr as u64) * 8 + (nc as u64);
        let bit: u64 = 1u64 << s;
        if (own >> s) & 1 == 1 {
            0
        } else if (enemies >> s) & 1 == 1 {
            bit
        } else {
            bit | walk_ray(nr, nc, dr, dc, own, enemies, fuel - 1)
        }
    }
}

fn square_rays(sq: u8, diagonal: bool, own: u64, enemies: u64) -> (r: u64)
    requires
        sq < 64,
    ensures
        diagonal ==> r == diagonal_rays(sq as int, own, enemies),
        !diagonal ==> r == straight_rays(sq as int, own, enemies),
{
    let rank = (sq / 8) as i8;
    let col = (sq % 8) as i8;
    if diagonal {
        walk_ray(rank, col, 1, 1, own, enemies, 7) | walk_ray(rank, col, 1, -1, own, enemies, 7)
            | walk_ray(rank, col, -1, 1, own, enemies, 7) | walk_ray(rank, col, -1, -1, own, enemies, 7)
    } else {
        walk_ray(rank, col, 1, 0, own, enemies, 7) | walk_ray(rank, col, -1, 0, own, enemies, 7)
            | walk_ray(rank, col, 0, 1, own, enemies, 7) | walk_ray(rank, col, 0, -1, own, enemies, 7)
    }
}

fn slide_all(o: u64, diagonal: bool, own: u64, enemies: u64) -> (r: u64)
    ensures
        r == slides(o, diagonal, own, enemies, 64),
{
    let mut acc: u64 = 0;
    let mut sq: u8 = 0;
    while sq < 64
        invariant
            sq <= 64,
            acc == slides(o, diagonal, own, enemies, sq as int),
        decreases 64 - sq,
    {
        if (o >> (sq as u64)) & 1 == 1 {
            acc = acc | square_rays(sq, diagonal, own, enemies);
        }
        sq = sq + 1;
    }
    acc
}

/// Bishop moves; `blockers` are the squares of the bishop's own side.
pub fn bishop(starting_position: Bitboard, blockers: Bitboard, enemies: Bitboard) -> (r: Bitboard)
    ensures
        r.bits == bishop_mask(starting_position.bits, blockers.bits, enemies.bits),
{
    Bitboard { bits: slide_all(starting_position.bits, true, blockers.bits, enemies.bits) }
}

/// Rook moves; `blockers` are the squares of the rook's own side.
pub fn rook(starting_position: Bitboard, blockers: Bitboard, enemies: Bitboard) -> (r: Bitboard)
    ensures
        r.bits == rook_mask(starting_position.bits, blockers.bits, enemies.bits),
{
    Bitboard { bits: slide_all(starting_position.bits, false, blockers.bits, enemies.bits) }
}

/// Queen moves: the union of rook and bishop moves.
pub fn queen(starting_position: Bitboard, blockers: Bitboard, enemies: Bitboard) -> (r: Bitboard)
    ensures
        r.bits == queen_mask(starting_position.bits, blockers.bits, enemies.bits),
{
    let rook_bitboard = rook(starting_position, blockers, enemies);
    let bishop_bitboard = bishop(starting_position, blockers, enemies);
    Bitboard { bits: rook_bitboard.bits | bishop_bitboard.bits }
}

} // verus!
