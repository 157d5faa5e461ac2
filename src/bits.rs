use vstd::prelude::*;

verus! {

// Squares are numbered 0..64, rank-major: square `rank * 8 + c` where `c`
// counts files from the h-file (c == 0) to the a-file (c == 7).
// So h1 is 0, a1 is 7, h8 is 56 and a8 is 63.

/// Whether square `sq` is set in the mask `b`.
pub open spec fn occ(b: u64, sq: int) -> bool {
    (b >> (sq as u64)) & 1u64 == 1u64
}

/// The mask that holds square `sq` alone.
pub open spec fn sq_bit(sq: int) -> u64 {
    1u64 << (sq as u64)
}

pub open spec fn is_square(sq: int) -> bool {
    0 <= sq < 64
}

/// Number of set squares below `n`.
pub open spec fn count_below(b: u64, n: int) -> nat
    decreases n,
{
    if n <= 0 {
        0
    } else {
        count_below(b, n - 1) + if occ(b, n - 1) {
            1nat
        } else {
            0nat
        }
    }
}

/// The set squares below `n`, in increasing order.
pub open spec fn squares_below(b: u64, n: int) -> Seq<u8>
    decreases n,
{
    if n <= 0 {
        Seq::empty()
    } else if occ(b, n - 1) {
        squares_below(b, n - 1).push((n - 1) as u8)
    } else {
        squares_below(b, n - 1)
    }
}

/// The set squares of a mask, in increasing order.
pub open spec fn squares_of(b: u64) -> Seq<u8> {
    squares_below(b, 64)
}

pub proof fn lemma_bit_ops(a: u64, b: u64, s: u64)
    requires
        s < 64,
    ensures
        ((a | b) >> s) & 1 == 1 <==> ((a >> s) & 1 == 1 || (b >> s) & 1 == 1),
        ((a & b) >> s) & 1 == 1 <==> ((a >> s) & 1 == 1 && (b >> s) & 1 == 1),
        ((!a) >> s) & 1 == 1 <==> !((a >> s) & 1 == 1),
        ((0u64) >> s) & 1 != 1,
{
    assert(((a | b) >> s) & 1 == 1 <==> ((a >> s) & 1 == 1 || (b >> s) & 1 == 1)) by (bit_vector)
        requires
            s < 64,
    ;
    assert(((a & b) >> s) & 1 == 1 <==> ((a >> s) & 1 == 1 && (b >> s) & 1 == 1)) by (bit_vector)
        requires
            s < 64,
    ;
    assert(((!a) >> s) & 1 == 1 <==> !((a >> s) & 1 == 1)) by (bit_vector)
        requires
            s < 64,
    ;
    assert(((0u64) >> s) & 1 != 1) by (bit_vector);
}

/// Set-wise meaning of union, intersection and complement, square by square.
pub proof fn lemma_has_ops(a: u64, b: u64, s: int)
    requires
        is_square(s),
    ensures
        occ(a | b, s) <==> (occ(a, s) || occ(b, s)),
        occ(a & b, s) <==> (occ(a, s) && occ(b, s)),
        occ(!a, s) <==> !occ(a, s),
        !occ(0u64, s),
{
    lemma_bit_ops(a, b, s as u64);
}

/// A single-square mask holds exactly that square.
pub proof fn lemma_has_sq_bit(t: int, s: int)
    requires
        is_square(t),
        is_square(s),
    ensures
        occ(sq_bit(t), s) <==> s == t,
{
    let tt = t as u64;
    let ss = s as u64;
    assert(((1u64 << tt) >> ss) & 1 == 1 <==> ss == tt) by (bit_vector)
        requires
            tt < 64,
            ss < 64,
    ;
}

pub proof fn lemma_squares_below(b: u64, n: int)
    requires
        0 <= n <= 64,
    ensures
        squares_below(b, n).len() == count_below(b, n),
        count_below(b, n) <= n,
        forall|i: int|
            0 <= i < squares_below(b, n).len() ==> (squares_below(b, n)[i] as int) < n && occ(
                b,
                squares_below(b, n)[i] as int,
            ),
        forall|i: int, j: int|
            0 <= i < j < squares_below(b, n).len() ==> squares_below(b, n)[i]
                < squares_below(b, n)[j],
        forall|s: int| 0 <= s < n && occ(b, s) ==> squares_below(b, n).contains(s as u8),
    decreases n,
{
    if n > 0 {
        lemma_squares_below(b, n - 1);
        let prev = squares_below(b, n - 1);
        if occ(b, n - 1) {
            let cur = prev.push((n - 1) as u8);
            assert forall|s: int| 0 <= s < n && occ(b, s) implies cur.contains(s as u8) by {
                if s == n - 1 {
                    assert(cur[prev.len() as int] == s as u8);
                } else {
                    let k = choose|k: int| 0 <= k < prev.len() && prev[k] == s as u8;
                    assert(cur[k] == s as u8);
                }
            }
        }
    }
}

} // verus!
