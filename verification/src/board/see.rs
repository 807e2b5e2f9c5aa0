//! Static exchange evaluation (SEE): the likely material gain or loss
//! of a capture, from the series of exchanges that may follow it on the
//! destination square.

use vstd::prelude::*;
use crate::basetypes::{
    Bitboard, PieceType, Square, KING, QUEEN, ROOK, BISHOP, PAWN, NO_PIECE, MOVE_PROMOTION,
};
use crate::board::Board;
use crate::board::bitsets::{
    has_bit, lowest_bit, ls1b_spec, bitscan_forward, ls1b, lemma_lowest_bit_nonzero,
    lemma_and_or_bits, lemma_bitboard_of, lemma_bitboard_ext, lemma_empty_has_no_bit,
};
use crate::board::geometry::{
    attacks_from_spec, behind_blocker_spec, attacks_from, squares_behind_blocker, line_between,
    slider_attacks_pred, behind_pred, straight_aligned, diagonal_aligned,
};
use vstd::set_lib::{lemma_len_subset, lemma_int_range, set_int_range};
use crate::position::chess_move::{Move, piece_field, captured_field, move_type_field, orig_field, dest_field};
use crate::value::Value;

verus! {

/// The material value of a piece type: `KING` .. `PAWN`, then
/// `NO_PIECE`.
pub open spec fn piece_value_spec(p: int) -> int {
    if p == 0 {
        10000
    } else if p == 1 {
        975
    } else if p == 2 {
        500
    } else if p == 3 || p == 4 {
        325
    } else if p == 5 {
        100
    } else {
        0
    }
}

/// Returns the material value of a piece type.
pub fn piece_value(p: PieceType) -> (v: Value)
    requires
        p <= NO_PIECE,
    ensures
        v == piece_value_spec(p as int),
{
    match p {
        0 => 10000,
        1 => 975,
        2 => 500,
        3 => 325,
        4 => 325,
        5 => 100,
        _ => 0,
    }
}

/// The pieces that may block the line of a sliding attacker.
pub open spec fn may_xray_spec(b: Board) -> u64 {
    b.pieces.piece_type[PAWN as int] | b.pieces.piece_type[BISHOP as int]
        | b.pieces.piece_type[ROOK as int] | b.pieces.piece_type[QUEEN as int]
}

/// The attackers of `dest` uncovered when the piece on `orig_bb`
/// leaves: the first piece behind it, if it is a slider that moves
/// along that line.
pub open spec fn xray_spec(b: Board, dest: int, orig_bb: u64) -> u64 {
    let pt = b.pieces.piece_type;
    let candidates = b.occupied & behind_blocker_spec(dest, lowest_bit(orig_bb));
    let bb = attacks_from_spec(true, dest, candidates) & candidates & (pt[QUEEN as int]
        | pt[ROOK as int]);
    if bb != 0 {
        bb
    } else {
        attacks_from_spec(false, dest, candidates) & candidates & (pt[QUEEN as int]
            | pt[BISHOP as int])
    }
}

/// The attackers and defenders of `dest` left after the piece on
/// `orig_bb` has captured there, with the pieces that its leaving
/// uncovers.
pub open spec fn remaining_attackers(b: Board, dest: int, orig_bb: u64, att: u64) -> u64 {
    let att1 = att & !orig_bb;
    if orig_bb & may_xray_spec(b) != 0 {
        att1 | xray_spec(b, dest, orig_bb)
    } else {
        att1
    }
}

/// The least valuable piece type, at most `p`, that has a piece in
/// `cand`.
pub open spec fn least_valuable_from(cand: u64, pt: [u64; 6], p: int) -> Option<int>
    decreases p + 1,
{
    if p < 0 {
        None
    } else if cand & pt[p] != 0 {
        Some(p)
    } else {
        least_valuable_from(cand, pt, p - 1)
    }
}

/// The exchanges on `dest`. `gains[d]` is the material gained after
/// `d + 1` captures, from the viewpoint of the side that made the last
/// one; `piece` on `orig_bb`, of side `us`, is about to capture, and
/// `att` holds the attackers and defenders not yet used. The result is
/// the complete `gains` sequence, or `None` where it would grow longer
/// than the 34 entries that the evaluation keeps.
pub open spec fn exchange(
    b: Board,
    dest: int,
    us: int,
    piece: int,
    orig_bb: u64,
    att: u64,
    gains: Seq<int>,
) -> Option<Seq<int>>
    decreases 34 - gains.len(),
{
    if orig_bb == 0 || gains.len() == 0 {
        Some(gains)
    } else if gains.len() >= 34 {
        None
    } else {
        let g = gains.last();
        let next = piece_value_spec(piece) - g;
        if -g < 0 && next < 0 {
            // The side that made the last capture wins even if the
            // captured piece is defended.
            Some(gains)
        } else {
            let att2 = remaining_attackers(b, dest, orig_bb, att);
            let us2 = 1 - us;
            let cand = att2 & b.pieces.color[us2];
            match least_valuable_from(cand, b.pieces.piece_type, PAWN as int) {
                Some(p) => exchange(
                    b,
                    dest,
                    us2,
                    p,
                    ls1b_spec(cand & b.pieces.piece_type[p]),
                    att2,
                    gains.push(next),
                ),
                None => Some(gains),
            }
        }
    }
}

/// The outcome of the exchanges, by negamax over the gains: at each
/// capture the side to move may continue the exchange or back off.
pub open spec fn negamax(g: Seq<int>) -> int
    decreases g.len(),
{
    if g.len() <= 1 {
        g[0]
    } else {
        let rest = negamax(g.drop_first());
        if -g[0] >= rest {
            g[0]
        } else {
            -rest
        }
    }
}

/// The material gained by the first capture: the captured piece, plus
/// one for a promotion.
pub open spec fn initial_gain(m: Move) -> int {
    piece_value_spec(captured_field(m@) as int) + if move_type_field(m@) == MOVE_PROMOTION {
        1int
    } else {
        0int
    }
}

/// The gains of the exchanges that follow `m` on its destination square,
/// with `attackers` the pieces of both sides that attack it.
pub open spec fn see_exchange(b: Board, m: Move, attackers: u64) -> Option<Seq<int>> {
    exchange(
        b,
        dest_field(m@) as int,
        b.to_move as int,
        piece_field(m@) as int,
        1u64 << (orig_field(m@) as u64),
        attackers,
        seq![initial_gain(m)],
    )
}

/// The static exchange evaluation of `m`.
pub open spec fn see_value(b: Board, m: Move, attackers: u64) -> int {
    negamax(see_exchange(b, m, attackers).unwrap())
}

/// The negamax of a sequence of gains is at most its first gain.
proof fn lemma_negamax_at_most_first(g: Seq<int>)
    requires
        g.len() >= 1,
    ensures
        negamax(g) <= g[0],
{
}

/// The exchanges keep the gains they start from, and the gain they add
/// first is the value of the capturing piece less the last gain.
proof fn lemma_exchange_extends(
    b: Board,
    dest: int,
    us: int,
    piece: int,
    orig_bb: u64,
    att: u64,
    gains: Seq<int>,
)
    requires
        gains.len() >= 1,
        exchange(b, dest, us, piece, orig_bb, att, gains) is Some,
    ensures
        ({
            let r = exchange(b, dest, us, piece, orig_bb, att, gains)->0;
            &&& r.len() >= gains.len()
            &&& r.subrange(0, gains.len() as int) == gains
            &&& r.len() > gains.len() ==> r[gains.len() as int] == piece_value_spec(piece)
                - gains.last()
        }),
    decreases 34 - gains.len(),
{
    let r = exchange(b, dest, us, piece, orig_bb, att, gains)->0;
    if orig_bb == 0 || gains.len() >= 34 {
        assert(r.subrange(0, gains.len() as int) =~= gains);
    } else {
        let g = gains.last();
        let next = piece_value_spec(piece) - g;
        if -g < 0 && next < 0 {
            assert(r.subrange(0, gains.len() as int) =~= gains);
        } else {
            let att2 = remaining_attackers(b, dest, orig_bb, att);
            let us2 = 1 - us;
            let cand = att2 & b.pieces.color[us2];
            match least_valuable_from(cand, b.pieces.piece_type, PAWN as int) {
                Some(p) => {
                    let g2 = gains.push(next);
                    lemma_exchange_extends(
                        b,
                        dest,
                        us2,
                        p,
                        ls1b_spec(cand & b.pieces.piece_type[p]),
                        att2,
                        g2,
                    );
                    assert(r.subrange(0, g2.len() as int) == g2);
                    assert(r.subrange(0, gains.len() as int) =~= g2.subrange(
                        0,
                        gains.len() as int,
                    ));
                    assert(g2.subrange(0, gains.len() as int) =~= gains);
                    assert(r[gains.len() as int] == r.subrange(0, g2.len() as int)[gains.len() as int]);
                },
                None => {
                    assert(r.subrange(0, gains.len() as int) =~= gains);
                },
            }
        }
    }
}

/// The static exchange evaluation of a move never exceeds what its own
/// capture gains: the captured piece, plus one for a promotion.
pub proof fn lemma_see_at_most_capture(b: Board, m: Move, attackers: u64)
    requires
        see_exchange(b, m, attackers) is Some,
    ensures
        see_value(b, m, attackers) <= initial_gain(m),
{
    let g0 = seq![initial_gain(m)];
    let r = see_exchange(b, m, attackers)->0;
    lemma_exchange_extends(
        b,
        dest_field(m@) as int,
        b.to_move as int,
        piece_field(m@) as int,
        1u64 << (orig_field(m@) as u64),
        attackers,
        g0,
    );
    assert(r[0] == r.subrange(0, 1)[0]);
    lemma_negamax_at_most_first(r);
}

/// The static exchange evaluation of a move is never below what its own
/// capture gains less the value of the moving piece: the side that
/// moves can always stop after one recapture.
pub proof fn lemma_see_at_least_capture_less_mover(b: Board, m: Move, attackers: u64)
    requires
        see_exchange(b, m, attackers) is Some,
    ensures
        see_value(b, m, attackers) >= initial_gain(m) - piece_value_spec(piece_field(m@) as int),
{
    let g0 = seq![initial_gain(m)];
    let r = see_exchange(b, m, attackers)->0;
    lemma_exchange_extends(
        b,
        dest_field(m@) as int,
        b.to_move as int,
        piece_field(m@) as int,
        1u64 << (orig_field(m@) as u64),
        attackers,
        g0,
    );
    assert(r[0] == r.subrange(0, 1)[0]);
    if r.len() > 1 {
        lemma_negamax_at_most_first(r.drop_first());
        assert(r.drop_first()[0] == r[1]);
    }
}

/// The pieces of the side not to move that may recapture on the
/// destination square of `m`, once its moving piece has left its square
/// (uncovering any slider behind it).
pub open spec fn first_recapturers(b: Board, m: Move, attackers: u64) -> u64 {
    let dest = dest_field(m@) as int;
    let orig_bb = 1u64 << (orig_field(m@) as u64);
    remaining_attackers(b, dest, orig_bb, attackers) & b.pieces.color[1 - b.to_move]
}

proof fn lemma_single_bit_nonzero(k: u64)
    requires
        k < 64,
    ensures
        1u64 << k != 0,
{
    assert(k < 64 ==> 1u64 << k != 0) by (bit_vector);
}

proof fn lemma_orig_square_bound(m: Move)
    ensures
        orig_field(m@) < 64,
{
    let v = m@;
    assert((v & 0x0000_3f00u32) >> 8u32 < 64) by (bit_vector);
}

proof fn lemma_no_piece_in_empty(pt: [u64; 6], p: int)
    ensures
        least_valuable_from(0u64, pt, p) is None,
    decreases p + 1,
{
    if p >= 0 {
        let x = pt[p];
        assert(0u64 & x == 0) by (bit_vector);
        lemma_no_piece_in_empty(pt, p - 1);
    }
}

/// A capture that no piece can answer gains its whole value: the
/// captured piece, plus one for a promotion (and a quiet move to a
/// square that nothing attacks gains nothing).
pub proof fn lemma_see_undefended(b: Board, m: Move, attackers: u64)
    requires
        b.to_move <= 1,
        first_recapturers(b, m, attackers) == 0,
    ensures
        see_exchange(b, m, attackers) == Some(seq![initial_gain(m)]),
        see_value(b, m, attackers) == initial_gain(m),
{
    lemma_orig_square_bound(m);
    lemma_single_bit_nonzero(orig_field(m@) as u64);
    lemma_no_piece_in_empty(b.pieces.piece_type, PAWN as int);
    assert(seq![initial_gain(m)].last() == initial_gain(m));
}

/// A normal move of a piece worth more than its victim plus a pawn, to
/// a square that an enemy pawn guards, loses the difference, whatever
/// else attacks or defends the square.
pub proof fn lemma_see_pawn_guarded(b: Board, m: Move, attackers: u64)
    requires
        b.to_move <= 1,
        move_type_field(m@) != MOVE_PROMOTION,
        first_recapturers(b, m, attackers) & b.pieces.piece_type[PAWN as int] != 0,
        piece_value_spec(piece_field(m@) as int) > piece_value_spec(captured_field(m@) as int)
            + 100,
    ensures
        see_exchange(b, m, attackers) is Some,
        see_value(b, m, attackers) == piece_value_spec(captured_field(m@) as int)
            - piece_value_spec(piece_field(m@) as int),
{
    let vc = piece_value_spec(captured_field(m@) as int);
    let vp = piece_value_spec(piece_field(m@) as int);
    let cand = first_recapturers(b, m, attackers);
    let pawns = cand & b.pieces.piece_type[PAWN as int];
    lemma_orig_square_bound(m);
    lemma_single_bit_nonzero(orig_field(m@) as u64);
    lemma_lowest_bit_nonzero(pawns);
    lemma_single_bit_nonzero(lowest_bit(pawns) as u64);
    assert(least_valuable_from(cand, b.pieces.piece_type, PAWN as int) == Some(PAWN as int));
    let g = seq![vc, vp - vc];
    assert(seq![vc].push(vp - vc) =~= g);
    assert(g.last() == vp - vc);
    assert(seq![vc].last() == vc);
    assert(g.drop_first() =~= seq![vp - vc]);
    let dest = dest_field(m@) as int;
    let orig_bb = 1u64 << (orig_field(m@) as u64);
    let att1 = attackers & !orig_bb;
    let att2 = if orig_bb & may_xray_spec(b) != 0 {
        att1 | xray_spec(b, dest, orig_bb)
    } else {
        att1
    };
    let us2 = 1 - b.to_move;
    assert(initial_gain(m) == vc);
    assert(ls1b_spec(pawns) != 0);
    assert(exchange(b, dest, us2, PAWN as int, ls1b_spec(pawns), att2, g) == Some(g));
    assert(exchange(b, dest, b.to_move as int, piece_field(m@) as int, orig_bb, attackers, seq![vc])
        == exchange(b, dest, us2, PAWN as int, ls1b_spec(pawns), att2, seq![vc].push(vp - vc)));
    assert(seq![vp - vc][0] == vp - vc);
    assert(negamax(seq![vp - vc]) == vp - vc);
    assert(g[0] == vc);
    assert(negamax(g) == vc - vp);
}

/// The occupied squares of `b`.
pub open spec fn occupied_squares(b: Board) -> Set<int> {
    Set::new(|s: int| 0 <= s < 64 && has_bit(b.occupied, s))
}

/// Whether every occupied square strictly between `dest` and `s`, on a
/// line that holds both, is in `gone`: with the pieces in `gone`
/// removed, `s` sees `dest`.
pub open spec fn in_sight(b: Board, dest: int, s: int, gone: Set<int>) -> bool {
    forall|u: int|
        0 <= u < 64 && has_bit(b.occupied, u) && #[trigger] line_between(dest, s, u)
            ==> gone.contains(u)
}

proof fn lemma_between_is_strict(d: int, t: int, u: int)
    requires
        line_between(d, t, u),
    ensures
        u != t,
{
}

/// Of two squares strictly between `d` and `s`, one is the other or
/// lies between `d` and the other.
proof fn lemma_same_segment(d: int, s: int, q: int, u: int)
    requires
        0 <= d < 64,
        0 <= s < 64,
        0 <= q < 64,
        0 <= u < 64,
        line_between(d, s, q),
        line_between(d, s, u),
    ensures
        u == q || line_between(d, q, u) || line_between(d, u, q),
{
}

proof fn lemma_single_bit_set(k: u64, i: int)
    requires
        k < 64,
    ensures
        has_bit(1u64 << k, i) <==> i == k,
{
    if 0 <= i < 64 {
        let j = i as u64;
        assert(k < 64 && j < 64 ==> ((((1u64 << k) >> j) & 1u64 == 1u64) <==> j == k))
            by (bit_vector);
    }
}

proof fn lemma_remove_single_bit(a: u64, k: u64, i: int)
    requires
        k < 64,
    ensures
        has_bit(a & !(1u64 << k), i) <==> has_bit(a, i) && i != k,
{
    if 0 <= i < 64 {
        let j = i as u64;
        assert(k < 64 && j < 64 ==> ((((a & !(1u64 << k)) >> j) & 1u64 == 1u64) <==> ((a >> j)
            & 1u64 == 1u64 && j != k))) by (bit_vector);
    }
}

proof fn lemma_lowest_of_single_bit(k: u64)
    requires
        k < 64,
    ensures
        lowest_bit(1u64 << k) == k,
{
    lemma_single_bit_nonzero(k);
    lemma_lowest_bit_nonzero(1u64 << k);
    lemma_single_bit_set(k, lowest_bit(1u64 << k));
}

/// A piece that the x-ray through `sq` uncovers is occupied, in sight
/// of `dest` once `sq` is gone too, and not among the pieces gone.
proof fn lemma_xray_in_sight(b: Board, dest: int, sq: int, gone: Set<int>, s: int)
    requires
        0 <= dest < 64,
        0 <= sq < 64,
        has_bit(b.occupied, sq),
        !gone.contains(sq),
        in_sight(b, dest, sq, gone),
        forall|t: int| gone.contains(t) ==> in_sight(b, dest, t, gone),
        has_bit(xray_spec(b, dest, 1u64 << (sq as u64)), s),
    ensures
        has_bit(b.occupied, s),
        s != sq,
        !gone.contains(s),
        in_sight(b, dest, s, gone.insert(sq)),
{
    let pt = b.pieces.piece_type;
    lemma_lowest_of_single_bit(sq as u64);
    let behind = behind_blocker_spec(dest, sq);
    let cand = b.occupied & behind;
    let bb1 = attacks_from_spec(true, dest, cand) & cand & (pt[QUEEN as int] | pt[ROOK as int]);
    let straight = bb1 != 0;
    let y = if straight {
        pt[QUEEN as int] | pt[ROOK as int]
    } else {
        pt[QUEEN as int] | pt[BISHOP as int]
    };
    let att = attacks_from_spec(straight, dest, cand);
    assert(xray_spec(b, dest, 1u64 << (sq as u64)) == att & cand & y);
    lemma_and_or_bits(att & cand, y, s);
    lemma_and_or_bits(att, cand, s);
    lemma_and_or_bits(b.occupied, behind, s);
    lemma_bitboard_of(slider_attacks_pred(straight, dest, cand), 64, s);
    lemma_bitboard_of(behind_pred(dest, sq), 64, s);
    assert(line_between(dest, s, sq));
    lemma_between_is_strict(dest, s, sq);
    if gone.contains(s) {
        assert(in_sight(b, dest, s, gone));
        assert(gone.contains(sq));
    }
    assert forall|u: int|
        0 <= u < 64 && has_bit(b.occupied, u) && #[trigger] line_between(dest, s, u) implies gone.insert(
        sq,
    ).contains(u) by {
        lemma_same_segment(dest, s, sq, u);
        if u != sq && !line_between(dest, sq, u) {
            assert(line_between(dest, u, sq));
            lemma_bitboard_of(behind_pred(dest, sq), 64, u);
            lemma_and_or_bits(b.occupied, behind, u);
            assert(!has_bit(cand, u));
        }
    }
}

/// The exchanges from a state in which every piece that has captured
/// (`gone`), the piece about to capture (on `orig_bb`) and every
/// attacker in `att` stand on distinct occupied squares in sight of
/// `dest`, on a board with at most 32 pieces, fit in the 34 gains kept.
proof fn lemma_exchange_fits(
    b: Board,
    dest: int,
    us: int,
    piece: int,
    orig_bb: u64,
    att: u64,
    gains: Seq<int>,
    gone: Set<int>,
)
    requires
        0 <= dest < 64,
        gains.len() >= 1,
        gone.finite(),
        gone.len() == gains.len() - 1,
        occupied_squares(b).len() <= 32,
        gone.subset_of(occupied_squares(b)),
        forall|t: int| gone.contains(t) ==> in_sight(b, dest, t, gone),
        orig_bb != 0 ==> exists|sq: int|
            0 <= sq < 64 && orig_bb == 1u64 << (sq as u64) && has_bit(b.occupied, sq)
                && !gone.contains(sq) && in_sight(b, dest, sq, gone),
        forall|s: int|
            #![trigger has_bit(att, s)]
            has_bit(att, s) ==> has_bit(b.occupied, s) && !gone.contains(s) && in_sight(
                b,
                dest,
                s,
                gone,
            ),
    ensures
        exchange(b, dest, us, piece, orig_bb, att, gains) is Some,
    decreases 34 - gains.len(),
{
    if orig_bb == 0 {
        return;
    }
    let sq = choose|sq: int|
        0 <= sq < 64 && orig_bb == 1u64 << (sq as u64) && has_bit(b.occupied, sq)
            && !gone.contains(sq) && in_sight(b, dest, sq, gone);
    let gone2 = gone.insert(sq);
    lemma_int_range(0, 64);
    assert(occupied_squares(b).subset_of(set_int_range(0, 64)));
    lemma_len_subset(occupied_squares(b), set_int_range(0, 64));
    assert(gone2.subset_of(occupied_squares(b)));
    lemma_len_subset(gone2, occupied_squares(b));
    if gains.len() >= 34 {
        assert(gone2.len() == gone.len() + 1);
        return;
    }
    let g = gains.last();
    let next = piece_value_spec(piece) - g;
    if -g < 0 && next < 0 {
        return;
    }
    let att1 = att & !orig_bb;
    let att2 = remaining_attackers(b, dest, orig_bb, att);
    let us2 = 1 - us;
    let cand = att2 & b.pieces.color[us2];
    assert forall|t: int| gone2.contains(t) implies in_sight(b, dest, t, gone2) by {
        assert(in_sight(b, dest, t, gone));
    }
    assert forall|s: int| #![trigger has_bit(att2, s)] has_bit(att2, s) implies has_bit(
        b.occupied,
        s,
    ) && !gone2.contains(s) && in_sight(b, dest, s, gone2) by {
        lemma_remove_single_bit(att, sq as u64, s);
        if orig_bb & may_xray_spec(b) != 0 {
            lemma_and_or_bits(att1, xray_spec(b, dest, orig_bb), s);
            if has_bit(xray_spec(b, dest, orig_bb), s) {
                lemma_xray_in_sight(b, dest, sq, gone, s);
            }
        }
        if has_bit(att1, s) {
            assert(has_bit(att, s));
            assert(in_sight(b, dest, s, gone));
        }
    }
    match least_valuable_from(cand, b.pieces.piece_type, PAWN as int) {
        Some(p) => {
            let chosen = cand & b.pieces.piece_type[p];
            lemma_least_valuable_found(cand, b.pieces.piece_type, PAWN as int);
            lemma_lowest_bit_nonzero(chosen);
            let sq2 = lowest_bit(chosen);
            lemma_and_or_bits(cand, b.pieces.piece_type[p], sq2);
            lemma_and_or_bits(att2, b.pieces.color[us2], sq2);
            assert(has_bit(att2, sq2));
            assert(gone2.len() == gone.len() + 1);
            lemma_exchange_fits(b, dest, us2, p, ls1b_spec(chosen), att2, gains.push(next), gone2);
        },
        None => {},
    }
}

proof fn lemma_least_valuable_found(cand: u64, pt: [u64; 6], p: int)
    ensures
        least_valuable_from(cand, pt, p) matches Some(q) ==> 0 <= q <= p && cand & pt[q] != 0,
    decreases p + 1,
{
    if p >= 0 && cand & pt[p] == 0 {
        lemma_least_valuable_found(cand, pt, p - 1);
    }
}

/// On a board with at most 32 pieces, if the moving piece stands on its
/// square in sight of the destination, and every attacker given stands
/// on an occupied square in sight of it, the exchanges fit in the gains
/// that the evaluation keeps, so that it is defined.
pub proof fn lemma_see_fits(b: Board, m: Move, attackers: u64)
    requires
        occupied_squares(b).len() <= 32,
        has_bit(b.occupied, orig_field(m@) as int),
        in_sight(b, dest_field(m@) as int, orig_field(m@) as int, Set::empty()),
        forall|s: int|
            #![trigger has_bit(attackers, s)]
            has_bit(attackers, s) ==> has_bit(b.occupied, s) && in_sight(
                b,
                dest_field(m@) as int,
                s,
                Set::empty(),
            ),
    ensures
        see_exchange(b, m, attackers) is Some,
{
    let v = m@;
    assert((v & 0x0000_00fcu32) >> 2u32 < 64) by (bit_vector);
    lemma_orig_square_bound(m);
    let sq = orig_field(m@) as int;
    assert(0 <= sq < 64 && 1u64 << (orig_field(m@) as u64) == 1u64 << (sq as u64) && has_bit(
        b.occupied,
        sq,
    ) && !Set::<int>::empty().contains(sq) && in_sight(
        b,
        dest_field(m@) as int,
        sq,
        Set::empty(),
    ));
    lemma_exchange_fits(
        b,
        dest_field(m@) as int,
        b.to_move as int,
        piece_field(m@) as int,
        1u64 << (orig_field(m@) as u64),
        attackers,
        seq![initial_gain(m)],
        Set::empty(),
    );
}

/// Whether the piece on `s` is a slider that moves along the line from
/// `dest` through `q`: a queen, or a rook on a rank or a file, or a
/// bishop on a diagonal.
pub open spec fn slides_along(b: Board, dest: int, q: int, s: int) -> bool {
    let pt = b.pieces.piece_type;
    ||| has_bit(pt[QUEEN as int], s)
    ||| straight_aligned(dest, q) && has_bit(pt[ROOK as int], s)
    ||| diagonal_aligned(dest, q) && has_bit(pt[BISHOP as int], s)
}

/// Whether `s` is the first occupied square beyond `q` on the line from
/// `dest` through `q`.
pub open spec fn first_behind(b: Board, dest: int, q: int, s: int) -> bool {
    &&& 0 <= s < 64
    &&& has_bit(b.occupied, s)
    &&& line_between(dest, s, q)
    &&& forall|u: int|
        0 <= u < 64 && has_bit(b.occupied, u) && #[trigger] line_between(dest, s, u)
            ==> !line_between(dest, u, q)
}

/// When a pawn, bishop, rook or queen on `q` captures on `dest`, every
/// other attacker stays, and the first piece behind it on the line from
/// `dest`, if that piece slides along the line, joins the attackers.
pub proof fn lemma_uncovered_slider_joins(b: Board, dest: int, q: int, att: u64, s: int)
    requires
        0 <= dest < 64,
        0 <= q < 64,
        has_bit(b.pieces.piece_type[PAWN as int], q) || has_bit(b.pieces.piece_type[BISHOP as int], q)
            || has_bit(b.pieces.piece_type[ROOK as int], q) || has_bit(
            b.pieces.piece_type[QUEEN as int],
            q,
        ),
        first_behind(b, dest, q, s),
        slides_along(b, dest, q, s),
    ensures
        has_bit(remaining_attackers(b, dest, 1u64 << (q as u64), att), s),
{
    let pt = b.pieces.piece_type;
    let orig_bb = 1u64 << (q as u64);
    lemma_lowest_of_single_bit(q as u64);
    lemma_single_bit_set(q as u64, q);
    let may = may_xray_spec(b);
    lemma_and_or_bits(pt[PAWN as int], pt[BISHOP as int], q);
    lemma_and_or_bits(pt[PAWN as int] | pt[BISHOP as int], pt[ROOK as int], q);
    lemma_and_or_bits(pt[PAWN as int] | pt[BISHOP as int] | pt[ROOK as int], pt[QUEEN as int], q);
    lemma_and_or_bits(orig_bb, may, q);
    lemma_empty_has_no_bit(q);
    assert(orig_bb & may != 0);
    let behind = behind_blocker_spec(dest, q);
    let cand = b.occupied & behind;
    lemma_bitboard_of(behind_pred(dest, q), 64, s);
    lemma_and_or_bits(b.occupied, behind, s);
    assert(has_bit(cand, s));
    // No candidate lies between `dest` and `s`.
    assert forall|u: int| 0 <= u < 64 && #[trigger] line_between(dest, s, u) implies !has_bit(
        cand,
        u,
    ) by {
        lemma_bitboard_of(behind_pred(dest, q), 64, u);
        lemma_and_or_bits(b.occupied, behind, u);
    }
    let bb1 = attacks_from_spec(true, dest, cand) & cand & (pt[QUEEN as int] | pt[ROOK as int]);
    lemma_bitboard_of(slider_attacks_pred(true, dest, cand), 64, s);
    lemma_bitboard_of(slider_attacks_pred(false, dest, cand), 64, s);
    lemma_and_or_bits(pt[QUEEN as int], pt[ROOK as int], s);
    lemma_and_or_bits(pt[QUEEN as int], pt[BISHOP as int], s);
    if straight_aligned(dest, q) {
        let a = attacks_from_spec(true, dest, cand);
        lemma_and_or_bits(a, cand, s);
        lemma_and_or_bits(a & cand, pt[QUEEN as int] | pt[ROOK as int], s);
        lemma_empty_has_no_bit(s);
        assert(bb1 != 0);
        assert(xray_spec(b, dest, orig_bb) == bb1);
    } else {
        // The line is a diagonal: no square of it is on a rank or a file
        // of `dest`, so the straight attacks hold no candidate.
        assert forall|t: int| 0 <= t < 64 implies has_bit(bb1, t) == has_bit(0u64, t) by {
            let a = attacks_from_spec(true, dest, cand);
            lemma_and_or_bits(a, cand, t);
            lemma_and_or_bits(a & cand, pt[QUEEN as int] | pt[ROOK as int], t);
            lemma_bitboard_of(slider_attacks_pred(true, dest, cand), 64, t);
            lemma_bitboard_of(behind_pred(dest, q), 64, t);
            lemma_and_or_bits(b.occupied, behind, t);
            lemma_empty_has_no_bit(t);
        }
        lemma_bitboard_ext(bb1, 0u64);
        let a = attacks_from_spec(false, dest, cand);
        lemma_and_or_bits(a, cand, s);
        lemma_and_or_bits(a & cand, pt[QUEEN as int] | pt[BISHOP as int], s);
        assert(xray_spec(b, dest, orig_bb) == a & cand & (pt[QUEEN as int] | pt[BISHOP as int]));
    }
    lemma_and_or_bits(att & !orig_bb, xray_spec(b, dest, orig_bb), s);
}

/// When the piece on `q` captures on `dest`, every other attacker stays
/// among the attackers, and the piece on `q` leaves them.
pub proof fn lemma_capturer_leaves(b: Board, dest: int, q: int, att: u64, s: int)
    requires
        0 <= dest < 64,
        0 <= q < 64,
    ensures
        has_bit(att, s) && s != q ==> has_bit(remaining_attackers(b, dest, 1u64 << (q as u64), att), s),
        !has_bit(remaining_attackers(b, dest, 1u64 << (q as u64), att), q),
{
    let orig_bb = 1u64 << (q as u64);
    lemma_remove_single_bit(att, q as u64, s);
    lemma_remove_single_bit(att, q as u64, q);
    lemma_and_or_bits(att & !orig_bb, xray_spec(b, dest, orig_bb), s);
    lemma_and_or_bits(att & !orig_bb, xray_spec(b, dest, orig_bb), q);
    if orig_bb & may_xray_spec(b) != 0 {
        // The x-ray looks only behind `q`.
        lemma_lowest_of_single_bit(q as u64);
        let pt = b.pieces.piece_type;
        let behind = behind_blocker_spec(dest, q);
        let cand = b.occupied & behind;
        lemma_bitboard_of(behind_pred(dest, q), 64, q);
        lemma_and_or_bits(b.occupied, behind, q);
        assert(!line_between(dest, q, q));
        let a1 = attacks_from_spec(true, dest, cand);
        let a2 = attacks_from_spec(false, dest, cand);
        lemma_and_or_bits(a1, cand, q);
        lemma_and_or_bits(a1 & cand, pt[QUEEN as int] | pt[ROOK as int], q);
        lemma_and_or_bits(a2, cand, q);
        lemma_and_or_bits(a2 & cand, pt[QUEEN as int] | pt[BISHOP as int], q);
    }
}

/// When the piece on `q` captures on `dest`, the attackers left are only
/// the other attackers and, where that piece is a pawn, bishop, rook or
/// queen, the slider first behind it on the line from `dest`.
pub proof fn lemma_remaining_attackers_only(b: Board, dest: int, q: int, att: u64, s: int)
    requires
        0 <= dest < 64,
        0 <= q < 64,
        has_bit(remaining_attackers(b, dest, 1u64 << (q as u64), att), s),
    ensures
        (has_bit(att, s) && s != q) || ((has_bit(b.pieces.piece_type[PAWN as int], q) || has_bit(
            b.pieces.piece_type[BISHOP as int],
            q,
        ) || has_bit(b.pieces.piece_type[ROOK as int], q) || has_bit(
            b.pieces.piece_type[QUEEN as int],
            q,
        )) && first_behind(b, dest, q, s) && slides_along(b, dest, q, s)),
{
    let pt = b.pieces.piece_type;
    let orig_bb = 1u64 << (q as u64);
    let may = may_xray_spec(b);
    lemma_remove_single_bit(att, q as u64, s);
    lemma_and_or_bits(att & !orig_bb, xray_spec(b, dest, orig_bb), s);
    if orig_bb & may != 0 && has_bit(xray_spec(b, dest, orig_bb), s) {
        let k = q as u64;
        assert(k < 64 && (1u64 << k) & may != 0 ==> (may >> k) & 1u64 == 1u64) by (bit_vector);
        lemma_and_or_bits(pt[PAWN as int], pt[BISHOP as int], q);
        lemma_and_or_bits(pt[PAWN as int] | pt[BISHOP as int], pt[ROOK as int], q);
        lemma_and_or_bits(
            pt[PAWN as int] | pt[BISHOP as int] | pt[ROOK as int],
            pt[QUEEN as int],
            q,
        );
        lemma_lowest_of_single_bit(q as u64);
        let behind = behind_blocker_spec(dest, q);
        let cand = b.occupied & behind;
        lemma_bitboard_of(behind_pred(dest, q), 64, s);
        lemma_and_or_bits(b.occupied, behind, s);
        let a1 = attacks_from_spec(true, dest, cand);
        let a2 = attacks_from_spec(false, dest, cand);
        let bb1 = a1 & cand & (pt[QUEEN as int] | pt[ROOK as int]);
        lemma_and_or_bits(a1, cand, s);
        lemma_and_or_bits(a1 & cand, pt[QUEEN as int] | pt[ROOK as int], s);
        lemma_and_or_bits(a2, cand, s);
        lemma_and_or_bits(a2 & cand, pt[QUEEN as int] | pt[BISHOP as int], s);
        lemma_and_or_bits(pt[QUEEN as int], pt[ROOK as int], s);
        lemma_and_or_bits(pt[QUEEN as int], pt[BISHOP as int], s);
        lemma_bitboard_of(slider_attacks_pred(true, dest, cand), 64, s);
        lemma_bitboard_of(slider_attacks_pred(false, dest, cand), 64, s);
        assert forall|u: int|
            0 <= u < 64 && has_bit(b.occupied, u) && #[trigger] line_between(dest, s, u) implies !line_between(
            dest,
            u,
            q,
        ) by {
            lemma_bitboard_of(behind_pred(dest, q), 64, u);
            lemma_and_or_bits(b.occupied, behind, u);
        }
        if bb1 != 0 {
            assert(xray_spec(b, dest, orig_bb) == bb1);
        } else {
            assert(xray_spec(b, dest, orig_bb) == a2 & cand & (pt[QUEEN as int]
                | pt[BISHOP as int]));
        }
    }
}

pub open spec fn ints(s: Seq<Value>) -> Seq<int> {
    s.map_values(|x: Value| x as int)
}

/// Returns the attackers of `dest` uncovered when the piece on
/// `orig_bb` leaves.
fn xray(b: &Board, dest: Square, orig_bb: Bitboard) -> (r: Bitboard)
    requires
        dest < 64,
        orig_bb != 0,
    ensures
        r == xray_spec(*b, dest as int, orig_bb),
{
    proof {
        lemma_lowest_bit_nonzero(orig_bb);
    }
    let pt = &b.pieces.piece_type;
    let candidates = b.occupied & squares_behind_blocker(dest, bitscan_forward(orig_bb));
    let bb = attacks_from(ROOK, dest, candidates) & candidates & (pt[QUEEN] | pt[ROOK]);
    if bb != 0 {
        bb
    } else {
        attacks_from(BISHOP, dest, candidates) & candidates & (pt[QUEEN] | pt[BISHOP])
    }
}

/// Returns the least valuable piece type that has a piece in `cand`.
fn least_valuable(cand: Bitboard, pt: &[Bitboard; 6]) -> (r: Option<PieceType>)
    ensures
        r matches Some(p) ==> p <= PAWN && least_valuable_from(cand, *pt, PAWN as int) == Some(
            p as int,
        ),
        r is None ==> least_valuable_from(cand, *pt, PAWN as int) is None,
{
    let mut p: usize = PAWN + 1;
    while p > KING
        invariant
            p <= PAWN + 1,
            least_valuable_from(cand, *pt, PAWN as int) == least_valuable_from(
                cand,
                *pt,
                p - 1,
            ),
        decreases p,
    {
        p = p - 1;
        if cand & pt[p] != 0 {
            return Some(p);
        }
    }
    None
}

/// Returns the static exchange evaluation of `m`, where `attackers`
/// holds the pieces of both sides that attack its destination square.
pub fn static_exchange_evaluation(b: &Board, m: Move, attackers: Bitboard) -> (v: Value)
    requires
        b.to_move <= 1,
        piece_field(m@) < NO_PIECE,
        captured_field(m@) <= NO_PIECE,
        see_exchange(*b, m, attackers) is Some,
    ensures
        v == see_value(*b, m, attackers),
{
    match static_exchange_evaluation_checked(b, m, attackers) {
        Some(v) => v,
        None => {
            proof {
                assert(false);
            }
            0
        },
    }
}

/// Returns the static exchange evaluation of `m`, where `attackers`
/// holds the pieces of both sides that attack its destination square;
/// `None` where the exchanges would run longer than the 34 gains that
/// the evaluation keeps.
pub fn static_exchange_evaluation_checked(b: &Board, m: Move, attackers: Bitboard) -> (r: Option<
    Value,
>)
    requires
        b.to_move <= 1,
        piece_field(m@) < NO_PIECE,
        captured_field(m@) <= NO_PIECE,
    ensures
        r is Some <==> see_exchange(*b, m, attackers) is Some,
        r matches Some(v) ==> v == see_value(*b, m, attackers),
{
    let dest = m.dest_square();
    let pt = &b.pieces.piece_type;
    let color = &b.pieces.color;
    let ghost result = see_exchange(*b, m, attackers);
    let mut us = b.to_move;
    let mut piece = m.piece();
    let mut orig_bb: Bitboard = 1u64 << (m.orig_square() as u64);
    let mut att = attackers;
    let may_xray = pt[PAWN] | pt[BISHOP] | pt[ROOK] | pt[QUEEN];
    let captured_value = piece_value(m.captured_piece());
    let mut gain: Vec<Value> = Vec::new();
    gain.push(
        if m.move_type() == MOVE_PROMOTION {
            captured_value + 1
        } else {
            captured_value
        },
    );
    assert(ints(gain@) =~= seq![initial_gain(m)]);
    loop
        invariant
            dest < 64,
            us <= 1,
            piece <= PAWN,
            gain.len() >= 1,
            forall|i: int| 0 <= i < gain.len() ==> 0 <= #[trigger] gain@[i] <= 10001,
            may_xray == may_xray_spec(*b),
            *pt == b.pieces.piece_type,
            *color == b.pieces.color,
            gain.len() <= 34,
            result == see_exchange(*b, m, attackers),
            exchange(*b, dest as int, us as int, piece as int, orig_bb, att, ints(gain@))
                == result,
        ensures
            result == Some(ints(gain@)),
            gain.len() >= 1,
            forall|i: int| 0 <= i < gain.len() ==> 0 <= #[trigger] gain@[i] <= 10001,
        decreases 34 - gain.len(),
    {
        if orig_bb == 0 {
            break;
        }
        if gain.len() >= 34 {
            assert(ints(gain@).len() == gain@.len());
            return None;
        }
        let depth = gain.len() - 1;
        let g = gain[depth];
        let next: Value = piece_value(piece) - g;
        // Stop if the side that made the last capture wins even if the
        // captured piece is defended.
        let worst = if -g > next {
            -g
        } else {
            next
        };
        if worst < 0 {
            break;
        }
        let mut uncovered = att & !orig_bb;
        if orig_bb & may_xray != 0 {
            uncovered = uncovered | xray(b, dest, orig_bb);
        }
        // Change the side to move.
        let them = 1 - us;
        let candidates = uncovered & color[them];
        match least_valuable(candidates, pt) {
            Some(p) => {
                let ghost before = gain@;
                gain.push(next);
                assert(ints(gain@) =~= ints(before).push(next as int));
                att = uncovered;
                us = them;
                piece = p;
                orig_bb = ls1b(candidates & pt[p]);
            },
            None => {
                break;
            },
        }
    }
    // Negamax the gains, from the deepest capture up.
    let ghost gains = ints(gain@);
    let mut depth = gain.len() - 1;
    while depth > 0
        invariant
            gains == result->0,
            gains.len() == gain.len(),
            depth < gain.len(),
            forall|i: int| 0 <= i < depth ==> gain@[i] == gains[i],
            forall|i: int| 0 <= i < depth ==> 0 <= #[trigger] gain@[i] <= 10001,
            -10001 <= gain@[depth as int] <= 10001,
            gain@[depth as int] == negamax(gains.subrange(depth as int, gains.len() as int)),
        decreases depth,
    {
        let a = gain[depth - 1];
        let c = gain[depth];
        let worst = if -a > c {
            -a
        } else {
            c
        };
        gain.set(depth - 1, -worst);
        proof {
            let s = gains.subrange(depth - 1, gains.len() as int);
            assert(s.drop_first() =~= gains.subrange(depth as int, gains.len() as int));
        }
        depth = depth - 1;
    }
    assert(gains.subrange(0, gains.len() as int) =~= gains);
    Some(gain[0])
}

} // verus!
