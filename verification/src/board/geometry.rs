//! Board geometry: lines through squares, the squares attacked by
//! sliding pieces, and the squares behind a blocker.

use vstd::prelude::*;
use crate::basetypes::{Bitboard, PieceType, Square, ROOK, BISHOP};
use crate::board::bitsets::{has_bit, bitboard_of, lemma_bitboard_of};

verus! {

pub open spec fn file_of(s: int) -> int {
    s % 8
}

pub open spec fn rank_of(s: int) -> int {
    s / 8
}

/// Whether `x` lies strictly between `a` and `b`.
pub open spec fn strictly_between(a: int, x: int, b: int) -> bool {
    (a < x && x < b) || (b < x && x < a)
}

/// Whether `s` and `t` are distinct squares on a common rank or file.
pub open spec fn straight_aligned(s: int, t: int) -> bool {
    s != t && (rank_of(s) == rank_of(t) || file_of(s) == file_of(t))
}

/// Whether `s` and `t` are distinct squares on a common diagonal.
pub open spec fn diagonal_aligned(s: int, t: int) -> bool {
    s != t && (file_of(t) - file_of(s) == rank_of(t) - rank_of(s) || file_of(t) - file_of(s)
        == rank_of(s) - rank_of(t))
}

/// Whether square `u` lies strictly between squares `s` and `t` on a
/// rank, a file or a diagonal that holds both.
pub open spec fn line_between(s: int, t: int, u: int) -> bool {
    let fs = file_of(s);
    let rs = rank_of(s);
    let ft = file_of(t);
    let rt = rank_of(t);
    let fu = file_of(u);
    let ru = rank_of(u);
    ||| rs == rt && ru == rs && strictly_between(fs, fu, ft)
    ||| fs == ft && fu == fs && strictly_between(rs, ru, rt)
    ||| ft - fs == rt - rs && fu - fs == ru - rs && strictly_between(fs, fu, ft)
    ||| ft - fs == rs - rt && fu - fs == rs - ru && strictly_between(fs, fu, ft)
}

/// Whether a rook (`straight`) or a bishop (`!straight`) on `from`
/// attacks `t`, when the squares in `occupancy` block its lines.
pub open spec fn slider_attacks(straight: bool, from: int, occupancy: u64, t: int) -> bool {
    &&& 0 <= t < 64
    &&& if straight {
        straight_aligned(from, t)
    } else {
        diagonal_aligned(from, t)
    }
    &&& forall|u: int| 0 <= u < 64 && #[trigger] line_between(from, t, u) ==> !has_bit(occupancy, u)
}

pub open spec fn slider_attacks_pred(straight: bool, from: int, occupancy: u64) -> spec_fn(
    int,
) -> bool {
    |t: int| slider_attacks(straight, from, occupancy, t)
}

/// The squares attacked by a rook (`straight`) or a bishop on `from`.
pub open spec fn attacks_from_spec(straight: bool, from: int, occupancy: u64) -> u64 {
    bitboard_of(slider_attacks_pred(straight, from, occupancy), 64)
}

pub open spec fn behind_pred(origin: int, blocker: int) -> spec_fn(int) -> bool {
    |t: int| 0 <= t < 64 && line_between(origin, t, blocker)
}

/// The squares behind `blocker`, as seen from `origin`: those on the
/// line from `origin` through `blocker`, beyond `blocker`.
pub open spec fn behind_blocker_spec(origin: int, blocker: int) -> u64 {
    bitboard_of(behind_pred(origin, blocker), 64)
}

/// Computes `line_between(s, t, u)`.
fn is_between(s: Square, t: Square, u: Square) -> (r: bool)
    requires
        s < 64,
        t < 64,
        u < 64,
    ensures
        r == line_between(s as int, t as int, u as int),
{
    let fs = (s % 8) as i32;
    let rs = (s / 8) as i32;
    let ft = (t % 8) as i32;
    let rt = (t / 8) as i32;
    let fu = (u % 8) as i32;
    let ru = (u / 8) as i32;
    let f_between = (fs < fu && fu < ft) || (ft < fu && fu < fs);
    let r_between = (rs < ru && ru < rt) || (rt < ru && ru < rs);
    (rs == rt && ru == rs && f_between) || (fs == ft && fu == fs && r_between) || (ft - fs == rt
        - rs && fu - fs == ru - rs && f_between) || (ft - fs == rs - rt && fu - fs == rs - ru
        && f_between)
}

/// Computes `slider_attacks(straight, from, occupancy, t)`.
fn is_attacked_by_slider(straight: bool, from: Square, occupancy: Bitboard, t: Square) -> (r:
    bool)
    requires
        from < 64,
        t < 64,
    ensures
        r == slider_attacks(straight, from as int, occupancy, t as int),
{
    let fs = (from % 8) as i32;
    let rs = (from / 8) as i32;
    let ft = (t % 8) as i32;
    let rt = (t / 8) as i32;
    let aligned = if straight {
        from != t && (rs == rt || fs == ft)
    } else {
        from != t && (ft - fs == rt - rs || ft - fs == rs - rt)
    };
    if !aligned {
        return false;
    }
    let mut u: usize = 0;
    while u < 64
        invariant
            from < 64,
            t < 64,
            u <= 64,
            forall|v: int|
                0 <= v < u && #[trigger] line_between(from as int, t as int, v) ==> !has_bit(
                    occupancy,
                    v,
                ),
        decreases 64 - u,
    {
        if is_between(from, t, u) && (occupancy >> (u as u64)) & 1 == 1 {
            assert(has_bit(occupancy, u as int));
            return false;
        }
        u = u + 1;
    }
    true
}

/// Returns the squares attacked by a rook (`piece == ROOK`) or a
/// bishop (`piece == BISHOP`) on `from`, when the squares in
/// `occupancy` block its lines.
pub fn attacks_from(piece: PieceType, from: Square, occupancy: Bitboard) -> (r: Bitboard)
    requires
        piece == ROOK || piece == BISHOP,
        from < 64,
    ensures
        r == attacks_from_spec(piece == ROOK, from as int, occupancy),
{
    let straight = piece == ROOK;
    let ghost p = slider_attacks_pred(straight, from as int, occupancy);
    let mut r: Bitboard = 0;
    let mut t: usize = 0;
    while t < 64
        invariant
            from < 64,
            t <= 64,
            p == slider_attacks_pred(straight, from as int, occupancy),
            r == bitboard_of(p, t as nat),
        decreases 64 - t,
    {
        if is_attacked_by_slider(straight, from, occupancy, t) {
            r = r | (1u64 << (t as u64));
        }
        t = t + 1;
    }
    r
}

/// Returns the squares behind `blocker`, as seen from `origin`.
pub fn squares_behind_blocker(origin: Square, blocker: Square) -> (r: Bitboard)
    requires
        origin < 64,
        blocker < 64,
    ensures
        r == behind_blocker_spec(origin as int, blocker as int),
{
    let ghost p = behind_pred(origin as int, blocker as int);
    let mut r: Bitboard = 0;
    let mut t: usize = 0;
    while t < 64
        invariant
            origin < 64,
            blocker < 64,
            t <= 64,
            p == behind_pred(origin as int, blocker as int),
            r == bitboard_of(p, t as nat),
        decreases 64 - t,
    {
        if is_between(origin, t, blocker) {
            r = r | (1u64 << (t as u64));
        }
        t = t + 1;
    }
    r
}

/// `k` steps of `d`, which is -1, 0 or 1.
pub open spec fn steps(d: int, k: int) -> int {
    if d == 1 {
        k
    } else if d == -1 {
        -k
    } else {
        0
    }
}

/// Whether (`df`, `dr`) is one of the eight directions on the board: a
/// step of -1, 0 or 1 in file and in rank, not both 0.
pub open spec fn is_direction(df: int, dr: int) -> bool {
    -1 <= df <= 1 && -1 <= dr <= 1 && (df != 0 || dr != 0)
}

/// Whether the square `k` steps from `from` in direction (`df`, `dr`)
/// is on the board.
pub open spec fn ray_on_board(from: int, df: int, dr: int, k: int) -> bool {
    0 <= from % 8 + steps(df, k) < 8 && 0 <= from / 8 + steps(dr, k) < 8
}

/// The square `k` steps from `from` in direction (`df`, `dr`).
pub open spec fn ray_square(from: int, df: int, dr: int, k: int) -> int {
    (from / 8 + steps(dr, k)) * 8 + from % 8 + steps(df, k)
}

proof fn lemma_square_coords(r: int, f: int)
    requires
        0 <= r < 8,
        0 <= f < 8,
    ensures
        (r * 8 + f) % 8 == f,
        (r * 8 + f) / 8 == r,
        0 <= r * 8 + f < 64,
{
}

proof fn lemma_ray_coords(from: int, df: int, dr: int, k: int)
    requires
        0 <= from < 64,
        is_direction(df, dr),
        ray_on_board(from, df, dr, k),
    ensures
        file_of(ray_square(from, df, dr, k)) == from % 8 + steps(df, k),
        rank_of(ray_square(from, df, dr, k)) == from / 8 + steps(dr, k),
        0 <= ray_square(from, df, dr, k) < 64,
{
    lemma_square_coords(from / 8 + steps(dr, k), from % 8 + steps(df, k));
}

/// Going from `from` in one direction, a square `j` steps away lies
/// strictly between `from` and the square `k > j` steps away.
proof fn lemma_ray_between(from: int, df: int, dr: int, j: int, k: int)
    requires
        0 <= from < 64,
        is_direction(df, dr),
        0 < j < k,
        ray_on_board(from, df, dr, k),
    ensures
        ray_on_board(from, df, dr, j),
        line_between(from, ray_square(from, df, dr, k), ray_square(from, df, dr, j)),
{
    lemma_square_coords(from / 8, from % 8);
    assert(ray_on_board(from, df, dr, j));
    lemma_ray_coords(from, df, dr, k);
    lemma_ray_coords(from, df, dr, j);
}

/// A slider's line stops at the first occupied square: a square beyond
/// an occupied square, in any direction, is not attacked.
pub proof fn lemma_slider_blocked(
    straight: bool,
    from: int,
    occupancy: u64,
    df: int,
    dr: int,
    j: int,
    k: int,
)
    requires
        0 <= from < 64,
        is_direction(df, dr),
        0 < j < k,
        ray_on_board(from, df, dr, k),
        has_bit(occupancy, ray_square(from, df, dr, j)),
    ensures
        !has_bit(attacks_from_spec(straight, from, occupancy), ray_square(from, df, dr, k)),
{
    let t = ray_square(from, df, dr, k);
    lemma_ray_between(from, df, dr, j, k);
    lemma_ray_coords(from, df, dr, k);
    lemma_ray_coords(from, df, dr, j);
    lemma_bitboard_of(slider_attacks_pred(straight, from, occupancy), 64, t);
}

/// A rook (`straight`, directions along a rank or a file) or a bishop
/// (diagonal directions) attacks every square of its lines up to and
/// including the first occupied one.
pub proof fn lemma_slider_reaches(
    straight: bool,
    from: int,
    occupancy: u64,
    df: int,
    dr: int,
    k: int,
)
    requires
        0 <= from < 64,
        is_direction(df, dr),
        straight <==> (df == 0 || dr == 0),
        0 < k,
        ray_on_board(from, df, dr, k),
        forall|j: int|
            0 < j < k ==> !has_bit(occupancy, #[trigger] ray_square(from, df, dr, j)),
    ensures
        has_bit(attacks_from_spec(straight, from, occupancy), ray_square(from, df, dr, k)),
{
    let t = ray_square(from, df, dr, k);
    lemma_ray_coords(from, df, dr, k);
    lemma_square_coords(from / 8, from % 8);
    assert forall|u: int| 0 <= u < 64 && #[trigger] line_between(from, t, u) implies !has_bit(
        occupancy,
        u,
    ) by {
        let fu = file_of(u);
        let ru = rank_of(u);
        let j = if df != 0 {
            if fu > from % 8 {
                fu - from % 8
            } else {
                from % 8 - fu
            }
        } else {
            if ru > from / 8 {
                ru - from / 8
            } else {
                from / 8 - ru
            }
        };
        assert(0 < j < k);
        lemma_ray_between(from, df, dr, j, k);
        lemma_ray_coords(from, df, dr, j);
        lemma_square_coords(ru, fu);
        assert(u == ray_square(from, df, dr, j));
    }
    lemma_bitboard_of(slider_attacks_pred(straight, from, occupancy), 64, t);
}

/// The squares behind a blocker, seen from `origin`, hold every square
/// further along the direction from `origin` through the blocker.
pub proof fn lemma_behind_blocker_ray(origin: int, df: int, dr: int, j: int, k: int)
    requires
        0 <= origin < 64,
        is_direction(df, dr),
        0 < j < k,
        ray_on_board(origin, df, dr, k),
    ensures
        has_bit(
            behind_blocker_spec(origin, ray_square(origin, df, dr, j)),
            ray_square(origin, df, dr, k),
        ),
{
    let t = ray_square(origin, df, dr, k);
    lemma_ray_between(origin, df, dr, j, k);
    lemma_ray_coords(origin, df, dr, k);
    lemma_bitboard_of(behind_pred(origin, ray_square(origin, df, dr, j)), 64, t);
}

/// The direction and distance from `from` to `t`, for squares on a
/// common line: (file step, rank step, number of steps).
pub open spec fn direction_to(from: int, t: int) -> (int, int, int) {
    let df = file_of(t) - file_of(from);
    let dr = rank_of(t) - rank_of(from);
    let sf = if df > 0 {
        1int
    } else if df < 0 {
        -1int
    } else {
        0int
    };
    let sr = if dr > 0 {
        1int
    } else if dr < 0 {
        -1int
    } else {
        0int
    };
    let k = if df != 0 {
        if df > 0 {
            df
        } else {
            -df
        }
    } else if dr > 0 {
        dr
    } else {
        -dr
    };
    (sf, sr, k)
}

proof fn lemma_direction_to(from: int, t: int)
    requires
        0 <= from < 64,
        0 <= t < 64,
        straight_aligned(from, t) || diagonal_aligned(from, t),
    ensures
        ({
            let (df, dr, k) = direction_to(from, t);
            &&& is_direction(df, dr)
            &&& 0 < k
            &&& ray_on_board(from, df, dr, k)
            &&& t == ray_square(from, df, dr, k)
            &&& straight_aligned(from, t) <==> (df == 0 || dr == 0)
        }),
{
    let (df, dr, k) = direction_to(from, t);
    lemma_square_coords(rank_of(t), file_of(t));
    lemma_square_coords(from / 8, from % 8);
}

/// Every square that a rook (`straight`) or bishop attacks lies on one
/// of its lines, with no occupied square before it.
pub proof fn lemma_slider_attack_on_ray(straight: bool, from: int, occupancy: u64, t: int)
    requires
        0 <= from < 64,
        has_bit(attacks_from_spec(straight, from, occupancy), t),
    ensures
        ({
            let (df, dr, k) = direction_to(from, t);
            &&& is_direction(df, dr)
            &&& straight <==> (df == 0 || dr == 0)
            &&& 0 < k
            &&& ray_on_board(from, df, dr, k)
            &&& t == ray_square(from, df, dr, k)
            &&& forall|j: int|
                0 < j < k ==> !has_bit(occupancy, #[trigger] ray_square(from, df, dr, j))
        }),
{
    lemma_bitboard_of(slider_attacks_pred(straight, from, occupancy), 64, t);
    lemma_direction_to(from, t);
    let (df, dr, k) = direction_to(from, t);
    assert forall|j: int| 0 < j < k implies !has_bit(
        occupancy,
        #[trigger] ray_square(from, df, dr, j),
    ) by {
        lemma_ray_between(from, df, dr, j, k);
        lemma_ray_coords(from, df, dr, j);
    }
}

/// Every square behind a blocker, seen from `origin`, lies further than
/// the blocker along the direction from `origin` through it.
pub proof fn lemma_behind_blocker_on_ray(origin: int, blocker: int, t: int)
    requires
        0 <= origin < 64,
        0 <= blocker < 64,
        has_bit(behind_blocker_spec(origin, blocker), t),
    ensures
        ({
            let (df, dr, k) = direction_to(origin, t);
            let (bf, br, j) = direction_to(origin, blocker);
            &&& is_direction(df, dr)
            &&& bf == df && br == dr
            &&& 0 < j < k
            &&& ray_on_board(origin, df, dr, k)
            &&& t == ray_square(origin, df, dr, k)
            &&& blocker == ray_square(origin, df, dr, j)
        }),
{
    lemma_bitboard_of(behind_pred(origin, blocker), 64, t);
    lemma_square_coords(rank_of(t), file_of(t));
    lemma_square_coords(rank_of(blocker), file_of(blocker));
    lemma_square_coords(origin / 8, origin % 8);
    assert(straight_aligned(origin, t) || diagonal_aligned(origin, t));
    assert(straight_aligned(origin, blocker) || diagonal_aligned(origin, blocker));
    lemma_direction_to(origin, t);
    lemma_direction_to(origin, blocker);
}

} // verus!
