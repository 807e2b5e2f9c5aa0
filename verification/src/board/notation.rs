//! Forsyth–Edwards Notation (FEN).
//!
//! A FEN record is six fields separated by whitespace: the piece
//! placement, the active color, the castling availability, the
//! en-passant target square, the halfmove clock and the fullmove
//! number.

use vstd::prelude::*;
use vstd::string::StringSliceAdditionalSpecFns;
use crate::basetypes::{Color, PieceType, Square, WHITE, BLACK};
use crate::basetypes::CastlingRights;
use crate::board::{Board, PiecesPlacement};
use crate::board::bitsets::{
    bitboard_of, has_bit, lemma_and_or_bits, lemma_bitboard_of, lemma_bitboard_ext,
    lemma_empty_has_no_bit,
};

verus! {

/// ASCII whitespace: space, tab, line feed, vertical tab, form feed and
/// carriage return.
pub open spec fn is_space(c: u8) -> bool {
    c == 0x20 || (0x09 <= c && c <= 0x0d)
}

/// The fields of `s`: its maximal runs of bytes that are not
/// whitespace, in order.
pub open spec fn fields(s: Seq<u8>) -> Seq<Seq<u8>>
    decreases s.len(),
{
    if s.len() == 0 {
        Seq::empty()
    } else {
        let init = fields(s.drop_last());
        let c = s.last();
        if is_space(c) {
            init
        } else if s.len() >= 2 && !is_space(s[s.len() - 2]) {
            init.update(init.len() - 1, init.last().push(c))
        } else {
            init.push(seq![c])
        }
    }
}

/// The parts of `s` that `spans` delimit.
pub open spec fn spans_view(s: Seq<u8>, spans: Seq<(usize, usize)>) -> Seq<Seq<u8>> {
    spans.map_values(|p: (usize, usize)| s.subrange(p.0 as int, p.1 as int))
}

pub open spec fn spans_within(spans: Seq<(usize, usize)>, n: int) -> bool {
    forall|k: int| #![trigger spans[k]] 0 <= k < spans.len() ==> spans[k].0 < spans[k].1 <= n
}

fn is_space_byte(c: u8) -> (r: bool)
    ensures
        r == is_space(c),
{
    c == 0x20 || (0x09 <= c && c <= 0x0d)
}

/// Returns the start and end of each field of `s`.
fn split_fields(s: &[u8]) -> (spans: Vec<(usize, usize)>)
    ensures
        spans_view(s@, spans@) == fields(s@),
        spans_within(spans@, s@.len() as int),
{
    let mut spans: Vec<(usize, usize)> = Vec::new();
    let mut i: usize = 0;
    while i < s.len()
        invariant
            i <= s.len(),
            spans_within(spans@, i as int),
            spans_view(s@, spans@) == fields(s@.take(i as int)),
            i > 0 && !is_space(s@[i - 1]) ==> spans.len() > 0 && spans@.last().1 == i,
        decreases s.len() - i,
    {
        let c = s[i];
        let ghost before = spans@;
        proof {
            let t = s@.take(i + 1);
            assert(t.drop_last() =~= s@.take(i as int));
            assert(t.last() == c);
            if i > 0 {
                assert(t[t.len() - 2] == s@[i - 1]);
            }
        }
        if is_space_byte(c) {
        } else if i > 0 && !is_space_byte(s[i - 1]) {
            let last = spans.len() - 1;
            let (a, _) = spans[last];
            spans.set(last, (a, i + 1));
            proof {
                assert forall|k: int| #![trigger spans@[k]] 0 <= k < spans@.len() implies spans@[k].0
                    < spans@[k].1 <= i + 1 by {
                    assert(before[k].0 < before[k].1 <= i);
                    if k != last {
                        assert(spans@[k] == before[k]);
                    }
                }
                assert(s@.subrange(a as int, i + 1) =~= s@.subrange(a as int, i as int).push(c));
                assert(spans_view(s@, spans@) =~= spans_view(s@, before).update(
                    last as int,
                    spans_view(s@, before).last().push(c),
                ));
            }
        } else {
            spans.push((i, i + 1));
            proof {
                assert forall|k: int| #![trigger spans@[k]] 0 <= k < spans@.len() implies spans@[k].0
                    < spans@[k].1 <= i + 1 by {
                    if k < before.len() {
                        assert(spans@[k] == before[k]);
                        assert(before[k].0 < before[k].1 <= i);
                    }
                }
                assert(s@.subrange(i as int, i + 1) =~= seq![c]);
                assert(spans_view(s@, spans@) =~= spans_view(s@, before).push(seq![c]));
            }
        }
        i = i + 1;
    }
    assert(s@.take(s@.len() as int) =~= s@);
    spans
}

/// Splits `s` at every byte `sep`: `n` separators give `n + 1` parts.
pub open spec fn split_on(s: Seq<u8>, sep: u8) -> Seq<Seq<u8>>
    decreases s.len(),
{
    if s.len() == 0 {
        seq![Seq::empty()]
    } else {
        let init = split_on(s.drop_last(), sep);
        if s.last() == sep {
            init.push(Seq::empty())
        } else {
            init.update(init.len() - 1, init.last().push(s.last()))
        }
    }
}

/// The piece type that a FEN letter stands for: `K`, `Q`, `R`, `B`,
/// `N`, `P` for white pieces, the same in lower case for black ones.
pub open spec fn letter_piece(c: u8) -> Option<PieceType> {
    if c == 0x4b || c == 0x6b {
        Some(0usize)
    } else if c == 0x51 || c == 0x71 {
        Some(1usize)
    } else if c == 0x52 || c == 0x72 {
        Some(2usize)
    } else if c == 0x42 || c == 0x62 {
        Some(3usize)
    } else if c == 0x4e || c == 0x6e {
        Some(4usize)
    } else if c == 0x50 || c == 0x70 {
        Some(5usize)
    } else {
        None
    }
}

/// The color of the piece that a FEN letter stands for.
pub open spec fn letter_color(c: u8) -> Color {
    if c >= 0x61 {
        BLACK
    } else {
        WHITE
    }
}

/// The cells of one rank of a piece placement, from file `a` to file
/// `h`: a piece letter, or 0 for an empty square. Each digit `1`..`8`
/// stands for that many empty squares. `None` if a byte is neither.
pub open spec fn expand_rank(r: Seq<u8>) -> Option<Seq<u8>>
    decreases r.len(),
{
    if r.len() == 0 {
        Some(Seq::empty())
    } else {
        match expand_rank(r.drop_last()) {
            None => None,
            Some(init) => {
                let c = r.last();
                if 0x31 <= c && c <= 0x38 {
                    Some(init + Seq::new((c - 0x30) as nat, |i: int| 0u8))
                } else if letter_piece(c) is Some {
                    Some(init.push(c))
                } else {
                    None
                }
            },
        }
    }
}

/// Whether `r` describes a rank: it expands to exactly eight cells.
pub open spec fn valid_rank(r: Seq<u8>) -> bool {
    expand_rank(r) matches Some(cells) && cells.len() == 8
}

/// The 64 cells of a piece placement field, in the order of the field:
/// rank 8 first, each rank from file `a` to file `h`. The field is the
/// eight ranks separated by `/`.
pub open spec fn placement_cells(f: Seq<u8>) -> Option<Seq<u8>> {
    let ranks = split_on(f, 0x2f);
    if ranks.len() == 8 && forall|k: int| 0 <= k < 8 ==> valid_rank(#[trigger] ranks[k]) {
        Some(Seq::new(64, |i: int| expand_rank(ranks[i / 8])->0[i % 8]))
    } else {
        None
    }
}

/// The index, in the order of a placement field, of the cell of square
/// `s`.
pub open spec fn cell_index(s: int) -> int {
    (7 - s / 8) * 8 + s % 8
}

pub open spec fn piece_type_pred(cells: Seq<u8>, p: int) -> spec_fn(int) -> bool {
    |s: int| letter_piece(cells[cell_index(s)]) == Some(p as usize)
}

pub open spec fn color_pred(cells: Seq<u8>, c: int) -> spec_fn(int) -> bool {
    |s: int| letter_piece(cells[cell_index(s)]) is Some && letter_color(cells[cell_index(s)]) == c
}

/// Whether `pp` places the pieces as `cells` describes them.
pub open spec fn placement_matches(pp: PiecesPlacement, cells: Seq<u8>) -> bool {
    &&& forall|p: int| 0 <= p < 6 ==> pp.piece_type[p] == bitboard_of(piece_type_pred(cells, p), 64)
    &&& forall|c: int| 0 <= c < 2 ==> pp.color[c] == bitboard_of(color_pred(cells, c), 64)
}

proof fn lemma_expand_rank_prefix(r: Seq<u8>, i: int, j: int)
    requires
        0 <= i <= j <= r.len(),
    ensures
        expand_rank(r.take(i)) is None ==> expand_rank(r.take(j)) is None,
        expand_rank(r.take(j)) is Some ==> expand_rank(r.take(i))->0.len() <= expand_rank(
            r.take(j),
        )->0.len(),
    decreases j - i,
{
    if i < j {
        lemma_expand_rank_prefix(r, i, j - 1);
        assert(r.take(j).drop_last() =~= r.take(j - 1));
    }
}

fn letter_piece_exec(c: u8) -> (r: Option<PieceType>)
    ensures
        r == letter_piece(c),
{
    if c == 0x4b || c == 0x6b {
        Some(0)
    } else if c == 0x51 || c == 0x71 {
        Some(1)
    } else if c == 0x52 || c == 0x72 {
        Some(2)
    } else if c == 0x42 || c == 0x62 {
        Some(3)
    } else if c == 0x4e || c == 0x6e {
        Some(4)
    } else if c == 0x50 || c == 0x70 {
        Some(5)
    } else {
        None
    }
}

/// Appends the cells of the rank `s[a..b]` to `cells`; returns whether
/// it is a valid rank.
fn expand_rank_into(s: &[u8], a: usize, b: usize, cells: &mut Vec<u8>) -> (ok: bool)
    requires
        a <= b <= s.len(),
    ensures
        ok == valid_rank(s@.subrange(a as int, b as int)),
        ok ==> final(cells)@ == old(cells)@ + expand_rank(s@.subrange(a as int, b as int))->0,
{
    let ghost r = s@.subrange(a as int, b as int);
    let ghost start = cells@;
    let mut count: usize = 0;
    let mut i: usize = a;
    while i < b
        invariant
            a <= i <= b <= s.len(),
            r == s@.subrange(a as int, b as int),
            count <= 8,
            expand_rank(r.take(i - a)) is Some,
            expand_rank(r.take(i - a))->0.len() == count,
            cells@ == start + expand_rank(r.take(i - a))->0,
        decreases b - i,
    {
        let c = s[i];
        let ghost t = r.take(i - a + 1);
        proof {
            assert(t.drop_last() =~= r.take(i - a));
            assert(t.last() == c);
            lemma_expand_rank_prefix(r, i - a + 1, r.len() as int);
            assert(r.take(r.len() as int) =~= r);
        }
        if 0x31 <= c && c <= 0x38 {
            let n = (c - 0x30) as usize;
            if count + n > 8 {
                return false;
            }
            let ghost before = cells@;
            let mut k: usize = 0;
            while k < n
                invariant
                    k <= n,
                    cells@ == before + Seq::new(k as nat, |j: int| 0u8),
                decreases n - k,
            {
                cells.push(0);
                proof {
                    assert(cells@ =~= before + Seq::new((k + 1) as nat, |j: int| 0u8));
                }
                k = k + 1;
            }
            count = count + n;
            proof {
                assert(cells@ =~= start + expand_rank(t)->0);
            }
        } else if letter_piece_exec(c).is_some() {
            if count + 1 > 8 {
                return false;
            }
            cells.push(c);
            count = count + 1;
            proof {
                assert(cells@ =~= start + expand_rank(t)->0);
            }
        } else {
            return false;
        }
        i = i + 1;
    }
    assert(r.take(b - a) =~= r);
    count == 8
}

/// Returns the start and end of each part of `s[a..b]` split at every
/// byte `sep`.
fn split_bytes(s: &[u8], a: usize, b: usize, sep: u8) -> (spans: Vec<(usize, usize)>)
    requires
        a <= b <= s.len(),
    ensures
        spans_view(s@, spans@) == split_on(s@.subrange(a as int, b as int), sep),
        forall|k: int| #![trigger spans@[k]] 0 <= k < spans@.len() ==> a <= spans@[k].0 <= spans@[k].1 <= b,
{
    let ghost r = s@.subrange(a as int, b as int);
    let mut spans: Vec<(usize, usize)> = Vec::new();
    spans.push((a, a));
    proof {
        assert(r.take(0) =~= Seq::<u8>::empty());
        assert(s@.subrange(a as int, a as int) =~= Seq::<u8>::empty());
        assert(spans_view(s@, spans@) =~= seq![Seq::<u8>::empty()]);
    }
    let mut i: usize = a;
    while i < b
        invariant
            a <= i <= b <= s.len(),
            r == s@.subrange(a as int, b as int),
            spans.len() >= 1,
            spans@.last().1 == i,
            forall|k: int| #![trigger spans@[k]] 0 <= k < spans@.len() ==> a <= spans@[k].0 <= spans@[k].1 <= i,
            spans_view(s@, spans@) == split_on(r.take(i - a), sep),
        decreases b - i,
    {
        let c = s[i];
        let ghost t = r.take(i - a + 1);
        let ghost before = spans@;
        proof {
            assert(t.drop_last() =~= r.take(i - a));
            assert(t.last() == c);
        }
        if c == sep {
            spans.push((i + 1, i + 1));
            proof {
                assert forall|k: int| #![trigger spans@[k]] 0 <= k < spans@.len() implies a <= spans@[k].0
                    <= spans@[k].1 <= i + 1 by {
                    if k < before.len() {
                        assert(spans@[k] == before[k]);
                    }
                }
                assert(s@.subrange(i + 1, i + 1) =~= Seq::<u8>::empty());
                assert(spans_view(s@, spans@) =~= spans_view(s@, before).push(Seq::empty()));
            }
        } else {
            let last = spans.len() - 1;
            let (x, _) = spans[last];
            spans.set(last, (x, i + 1));
            proof {
                assert forall|k: int| #![trigger spans@[k]] 0 <= k < spans@.len() implies a <= spans@[k].0
                    <= spans@[k].1 <= i + 1 by {
                    if k != last {
                        assert(spans@[k] == before[k]);
                    }
                }
                assert(s@.subrange(x as int, i + 1) =~= s@.subrange(x as int, i as int).push(c));
                assert(spans_view(s@, spans@) =~= spans_view(s@, before).update(
                    last as int,
                    spans_view(s@, before).last().push(c),
                ));
            }
        }
        i = i + 1;
    }
    assert(r.take(b - a) =~= r);
    spans
}

/// Returns the piece placement that `cells` describe, in the order of a
/// placement field.
fn placement_from_cells(cells: &Vec<u8>) -> (pp: PiecesPlacement)
    requires
        cells@.len() == 64,
    ensures
        placement_matches(pp, cells@),
{
    let mut piece_type: [u64; 6] = [0, 0, 0, 0, 0, 0];
    let mut color: [u64; 2] = [0, 0];
    let mut s: usize = 0;
    while s < 64
        invariant
            s <= 64,
            cells@.len() == 64,
            forall|p: int|
                0 <= p < 6 ==> piece_type[p] == bitboard_of(
                    #[trigger] piece_type_pred(cells@, p),
                    s as nat,
                ),
            forall|c: int|
                0 <= c < 2 ==> color[c] == bitboard_of(#[trigger] color_pred(cells@, c), s as nat),
        decreases 64 - s,
    {
        let c = cells[(7 - s / 8) * 8 + s % 8];
        assert(c == cells@[cell_index(s as int)]);
        match letter_piece_exec(c) {
            Some(p) => {
                let side: Color = if c >= 0x61 {
                    BLACK
                } else {
                    WHITE
                };
                piece_type[p] = piece_type[p] | (1u64 << (s as u64));
                color[side] = color[side] | (1u64 << (s as u64));
            },
            None => {},
        }
        proof {
            assert forall|p: int| 0 <= p < 6 implies piece_type[p] == bitboard_of(
                #[trigger] piece_type_pred(cells@, p),
                (s + 1) as nat,
            ) by {
                reveal_with_fuel(bitboard_of, 2);
            }
            assert forall|q: int| 0 <= q < 2 implies color[q] == bitboard_of(
                #[trigger] color_pred(cells@, q),
                (s + 1) as nat,
            ) by {
                reveal_with_fuel(bitboard_of, 2);
            }
        }
        s = s + 1;
    }
    PiecesPlacement { piece_type, color }
}

/// Parses the piece placement field `s[a..b]`.
fn parse_placement(s: &[u8], a: usize, b: usize) -> (r: Option<PiecesPlacement>)
    requires
        a <= b <= s.len(),
    ensures
        r is Some <==> placement_cells(s@.subrange(a as int, b as int)) is Some,
        r matches Some(pp) ==> placement_matches(
            pp,
            placement_cells(s@.subrange(a as int, b as int))->0,
        ),
{
    let ghost f = s@.subrange(a as int, b as int);
    let ghost ranks = split_on(f, 0x2f);
    let spans = split_bytes(s, a, b, 0x2f);
    assert(spans_view(s@, spans@).len() == spans@.len());
    if spans.len() != 8 {
        return None;
    }
    let mut cells: Vec<u8> = Vec::new();
    let mut k: usize = 0;
    while k < 8
        invariant
            k <= 8,
            spans@.len() == 8,
            a <= b <= s.len(),
            ranks == split_on(s@.subrange(a as int, b as int), 0x2f),
            spans_view(s@, spans@) == ranks,
            forall|j: int| #![trigger spans@[j]] 0 <= j < spans@.len() ==> a <= spans@[j].0 <= spans@[j].1 <= b,
            forall|j: int| 0 <= j < k ==> valid_rank(#[trigger] ranks[j]),
            cells@.len() == 8 * k,
            forall|i: int|
                0 <= i < 8 * k ==> #[trigger] cells@[i] == expand_rank(ranks[i / 8])->0[i % 8],
        decreases 8 - k,
    {
        let (x, y) = spans[k];
        assert(ranks[k as int] == s@.subrange(x as int, y as int));
        let ghost before = cells@;
        if !expand_rank_into(s, x, y, &mut cells) {
            return None;
        }
        proof {
            assert forall|i: int| 0 <= i < 8 * (k + 1) implies #[trigger] cells@[i] == expand_rank(
                ranks[i / 8],
            )->0[i % 8] by {
                if i >= 8 * k {
                    assert(i / 8 == k);
                    assert(cells@[i] == expand_rank(ranks[k as int])->0[i - 8 * k]);
                } else {
                    assert(cells@[i] == before[i]);
                }
            }
        }
        k = k + 1;
    }
    assert(cells@ =~= Seq::new(64, |i: int| expand_rank(ranks[i / 8])->0[i % 8]));
    Some(placement_from_cells(&cells))
}

/// The side to move that an active color field names: `w` or `b`.
pub open spec fn active_color(t: Seq<u8>) -> Option<Color> {
    if t == seq![0x77u8] {
        Some(WHITE)
    } else if t == seq![0x62u8] {
        Some(BLACK)
    } else {
        None
    }
}

pub open spec fn is_castling_letter(c: u8) -> bool {
    c == 0x4b || c == 0x51 || c == 0x6b || c == 0x71
}

/// `bit` if `t` holds the letter `c`, 0 otherwise.
pub open spec fn castling_bit(t: Seq<u8>, c: u8, bit: int) -> int {
    if t.contains(c) {
        bit
    } else {
        0
    }
}

/// The castling rights of white and black that a castling field
/// names: `-` for none, otherwise one to four distinct letters among
/// `K`, `Q` (white's king-side and queen-side castling) and `k`, `q`
/// (black's). King-side castling is bit 1 of a player's rights,
/// queen-side castling bit 0.
pub open spec fn castling_field(t: Seq<u8>) -> Option<(int, int)> {
    if t == seq![0x2du8] {
        Some((0, 0))
    } else if 1 <= t.len() <= 4 && (forall|i: int| 0 <= i < t.len() ==> is_castling_letter(
        #[trigger] t[i],
    )) && (forall|i: int, j: int| 0 <= i < j < t.len() ==> t[i] != t[j]) {
        Some(
            (
                castling_bit(t, 0x4b, 2) + castling_bit(t, 0x51, 1),
                castling_bit(t, 0x6b, 2) + castling_bit(t, 0x71, 1),
            ),
        )
    } else {
        None
    }
}

/// The en-passant file that an en-passant field names: `-` for none
/// (8), otherwise a file `a`..`h` followed by rank `6` if white is to
/// move, rank `3` if black is.
pub open spec fn enpassant_field(t: Seq<u8>, to_move: Color) -> Option<int> {
    if t == seq![0x2du8] {
        Some(8)
    } else if t.len() == 2 && 0x61 <= t[0] <= 0x68 && t[1] == (if to_move == WHITE {
        0x36u8
    } else {
        0x33u8
    }) {
        Some(t[0] - 0x61)
    } else {
        None
    }
}

pub open spec fn all_digits(t: Seq<u8>) -> bool {
    forall|i: int| 0 <= i < t.len() ==> 0x30 <= #[trigger] t[i] <= 0x39
}

/// The number that a sequence of decimal digits stands for.
pub open spec fn decimal(t: Seq<u8>) -> int
    decreases t.len(),
{
    if t.len() == 0 {
        0
    } else {
        decimal(t.drop_last()) * 10 + (t.last() - 0x30)
    }
}

/// The number that a numeric field names: one or more decimal digits,
/// for a number at most `max`.
pub open spec fn number_field(t: Seq<u8>, max: int) -> Option<int> {
    if t.len() > 0 && all_digits(t) && decimal(t) <= max {
        Some(decimal(t))
    } else {
        None
    }
}

proof fn lemma_decimal_prefix(t: Seq<u8>, i: int, j: int)
    requires
        0 <= i <= j <= t.len(),
        all_digits(t),
    ensures
        0 <= decimal(t.take(i)) <= decimal(t.take(j)),
    decreases j,
{
    if j > 0 {
        assert(t.take(j).drop_last() =~= t.take(j - 1));
        if i < j {
            lemma_decimal_prefix(t, i, j - 1);
        } else {
            lemma_decimal_prefix(t, i - 1, j - 1);
        }
    } else {
        assert(t.take(0) =~= Seq::<u8>::empty());
    }
}

proof fn lemma_single(t: Seq<u8>, x: u8)
    ensures
        t == seq![x] <==> (t.len() == 1 && t[0] == x),
{
    if t.len() == 1 && t[0] == x {
        assert(t =~= seq![x]);
    }
}

fn parse_active_color(s: &[u8], a: usize, b: usize) -> (r: Option<Color>)
    requires
        a <= b <= s.len(),
    ensures
        r == active_color(s@.subrange(a as int, b as int)),
{
    let ghost t = s@.subrange(a as int, b as int);
    proof {
        lemma_single(t, 0x77);
        lemma_single(t, 0x62);
    }
    if b - a == 1 && s[a] == 0x77 {
        assert(t =~= seq![0x77u8]);
        Some(WHITE)
    } else if b - a == 1 && s[a] == 0x62 {
        assert(t =~= seq![0x62u8]);
        Some(BLACK)
    } else {
        if b - a == 1 {
            assert(t[0] == s@[a as int]);
        }
        None
    }
}

fn parse_castling(s: &[u8], a: usize, b: usize) -> (r: Option<(usize, usize)>)
    requires
        a <= b <= s.len(),
    ensures
        r is Some <==> castling_field(s@.subrange(a as int, b as int)) is Some,
        r matches Some(p) ==> castling_field(s@.subrange(a as int, b as int)) == Some(
            (p.0 as int, p.1 as int),
        ),
        r matches Some(p) ==> p.0 <= 3 && p.1 <= 3,
{
    let ghost t = s@.subrange(a as int, b as int);
    proof {
        lemma_single(t, 0x2d);
    }
    if b - a == 1 && s[a] == 0x2d {
        assert(t =~= seq![0x2du8]);
        return Some((0, 0));
    }
    proof {
        if b - a == 1 {
            assert(t[0] == s@[a as int]);
        }
    }
    assert(t != seq![0x2du8]);
    if b - a < 1 || b - a > 4 {
        return None;
    }
    let mut white_king = false;
    let mut white_queen = false;
    let mut black_king = false;
    let mut black_queen = false;
    let mut i: usize = a;
    while i < b
        invariant
            a <= i <= b <= s.len(),
            t == s@.subrange(a as int, b as int),
            t != seq![0x2du8],
            forall|j: int| 0 <= j < i - a ==> is_castling_letter(#[trigger] t[j]),
            forall|j: int, k: int| 0 <= j < k < i - a ==> t[j] != t[k],
            white_king == t.take(i - a).contains(0x4b),
            white_queen == t.take(i - a).contains(0x51),
            black_king == t.take(i - a).contains(0x6b),
            black_queen == t.take(i - a).contains(0x71),
        decreases b - i,
    {
        let c = s[i];
        let ghost u = t.take(i - a);
        let ghost v = t.take(i - a + 1);
        proof {
            assert(v =~= u.push(c));
            assert(t[i - a] == c);
            assert forall|x: u8| v.contains(x) <==> (u.contains(x) || x == c) by {
                if v.contains(x) {
                    let j = choose|j: int| 0 <= j < v.len() && v[j] == x;
                    if j < u.len() {
                        assert(u[j] == x);
                    }
                }
                if u.contains(x) {
                    let j = choose|j: int| 0 <= j < u.len() && u[j] == x;
                    assert(v[j] == x);
                }
                if x == c {
                    assert(v[u.len() as int] == x);
                }
            }
        }
        let seen = if c == 0x4b {
            white_king
        } else if c == 0x51 {
            white_queen
        } else if c == 0x6b {
            black_king
        } else if c == 0x71 {
            black_queen
        } else {
            proof {
                assert(!is_castling_letter(t[i - a]));
                assert(!(forall|j: int| 0 <= j < t.len() ==> is_castling_letter(#[trigger] t[j])));
            }
            return None;
        };
        if seen {
            proof {
                let j = choose|j: int| 0 <= j < u.len() && u[j] == c;
                assert(t[j] == t[i - a]);
            }
            return None;
        }
        proof {
            assert forall|j: int, k: int| 0 <= j < k < i - a + 1 implies t[j] != t[k] by {
                if k == i - a {
                    assert(u[j] == t[j]);
                }
            }
        }
        if c == 0x4b {
            white_king = true;
        } else if c == 0x51 {
            white_queen = true;
        } else if c == 0x6b {
            black_king = true;
        } else {
            black_queen = true;
        }
        i = i + 1;
    }
    assert(t.take(b - a) =~= t);
    assert(t != seq![0x2du8]) by {
        if t == seq![0x2du8] {
            assert(is_castling_letter(t[0]));
        }
    }
    let white: usize = (if white_king {
        2
    } else {
        0
    }) + (if white_queen {
        1
    } else {
        0
    });
    let black: usize = (if black_king {
        2
    } else {
        0
    }) + (if black_queen {
        1
    } else {
        0
    });
    Some((white, black))
}

fn parse_enpassant(s: &[u8], a: usize, b: usize, to_move: Color) -> (r: Option<usize>)
    requires
        a <= b <= s.len(),
    ensures
        r is Some <==> enpassant_field(s@.subrange(a as int, b as int), to_move) is Some,
        r matches Some(f) ==> enpassant_field(s@.subrange(a as int, b as int), to_move) == Some(
            f as int,
        ),
        r matches Some(f) ==> f <= 8,
        r matches Some(f) ==> (f == 8 <==> b - a == 1 && s@[a as int] == 0x2d),
        r matches Some(f) ==> f != 8 ==> b - a == 2 && f == s@[a as int] - 0x61 && s@[a + 1] == (
        if to_move == WHITE {
            0x36u8
        } else {
            0x33u8
        }),
{
    let ghost t = s@.subrange(a as int, b as int);
    proof {
        lemma_single(t, 0x2d);
    }
    if b - a == 1 && s[a] == 0x2d {
        assert(t =~= seq![0x2du8]);
        return Some(8);
    }
    proof {
        if b - a == 1 {
            assert(t[0] == s@[a as int]);
        }
    }
    let rank: u8 = if to_move == WHITE {
        0x36
    } else {
        0x33
    };
    if b - a == 2 && 0x61 <= s[a] && s[a] <= 0x68 && s[a + 1] == rank {
        assert(t[0] == s@[a as int] && t[1] == s@[a + 1]);
        Some((s[a] - 0x61) as usize)
    } else {
        proof {
            if b - a == 2 {
                assert(t[0] == s@[a as int] && t[1] == s@[a + 1]);
            }
        }
        None
    }
}

fn parse_number(s: &[u8], a: usize, b: usize, max: u32) -> (r: Option<u32>)
    requires
        a <= b <= s.len(),
    ensures
        r is Some <==> number_field(s@.subrange(a as int, b as int), max as int) is Some,
        r matches Some(n) ==> number_field(s@.subrange(a as int, b as int), max as int) == Some(
            n as int,
        ),
        r matches Some(n) ==> n <= max,
{
    let ghost t = s@.subrange(a as int, b as int);
    if a == b {
        return None;
    }
    let mut i: usize = a;
    let mut value: u32 = 0;
    while i < b
        invariant
            a <= i <= b <= s.len(),
            t == s@.subrange(a as int, b as int),
            forall|j: int| 0 <= j < i - a ==> 0x30 <= #[trigger] t[j] <= 0x39,
            value == decimal(t.take(i - a)),
            value <= max,
        decreases b - i,
    {
        let c = s[i];
        assert(t[i - a] == c);
        if c < 0x30 || c > 0x39 {
            return None;
        }
        let d = (c - 0x30) as u64;
        proof {
            assert(t.take(i - a + 1).drop_last() =~= t.take(i - a));
        }
        let next: u64 = value as u64 * 10 + d;
        if next > max as u64 {
            proof {
                if all_digits(t) {
                    lemma_decimal_prefix(t, i - a + 1, t.len() as int);
                    assert(t.take(t.len() as int) =~= t);
                }
            }
            return None;
        }
        value = next as u32;
        i = i + 1;
    }
    assert(t.take(b - a) =~= t);
    Some(value)
}

/// The error returned for a string that is not valid notation.
#[derive(Clone, Copy, Debug, PartialEq, Eq, Structural)]
pub struct NotationError;

/// Whether `s` is a FEN record: six fields, which are a piece
/// placement, an active color, a castling field, an en-passant field,
/// a halfmove clock (at most 255) and a fullmove number (at most
/// 65535).
pub open spec fn fen_valid(s: Seq<u8>) -> bool {
    let f = fields(s);
    &&& f.len() == 6
    &&& placement_cells(f[0]) is Some
    &&& active_color(f[1]) is Some
    &&& castling_field(f[2]) is Some
    &&& enpassant_field(f[3], active_color(f[1])->0) is Some
    &&& number_field(f[4], 255) is Some
    &&& number_field(f[5], 65535) is Some
}

/// Whether `b` is the position that the FEN record `s` describes.
pub open spec fn fen_board(b: Board, s: Seq<u8>) -> bool {
    let f = fields(s);
    &&& placement_matches(b.pieces, placement_cells(f[0])->0)
    &&& b.occupied == b.pieces.color[WHITE as int] | b.pieces.color[BLACK as int]
    &&& b.to_move == active_color(f[1])->0
    &&& b.castling_rights.rights_of(0) == (castling_field(f[2])->0).0
    &&& b.castling_rights.rights_of(1) == (castling_field(f[2])->0).1
    &&& b.enpassant_file == enpassant_field(f[3], b.to_move)->0
}

/// A position read from FEN places at most one piece on each square:
/// the two colors, and any two piece types, share no square; and the
/// piece types together occupy exactly the occupied squares.
pub proof fn lemma_fen_board_consistent(b: Board, s: Seq<u8>)
    requires
        fen_valid(s),
        fen_board(b, s),
    ensures
        b.pieces.color[WHITE as int] & b.pieces.color[BLACK as int] == 0,
        forall|p: int, q: int|
            0 <= p < q < 6 ==> b.pieces.piece_type[p] & b.pieces.piece_type[q] == 0,
        b.occupied == b.pieces.piece_type[0] | b.pieces.piece_type[1] | b.pieces.piece_type[2]
            | b.pieces.piece_type[3] | b.pieces.piece_type[4] | b.pieces.piece_type[5],
{
    let cells = placement_cells(fields(s)[0])->0;
    let pt = b.pieces.piece_type;
    let co = b.pieces.color;
    assert forall|i: int| 0 <= i < 64 implies !has_bit(co[0] & co[1], i) by {
        lemma_and_or_bits(co[0], co[1], i);
        lemma_bitboard_of(color_pred(cells, 0), 64, i);
        lemma_bitboard_of(color_pred(cells, 1), 64, i);
    }
    assert forall|i: int| 0 <= i < 64 implies has_bit(co[0] & co[1], i) == has_bit(0u64, i) by {
        lemma_empty_has_no_bit(i);
    }
    lemma_bitboard_ext(co[0] & co[1], 0u64);
    assert forall|p: int, q: int| 0 <= p < q < 6 implies pt[p] & pt[q] == 0 by {
        assert forall|i: int| 0 <= i < 64 implies has_bit(pt[p] & pt[q], i) == has_bit(0u64, i) by {
            lemma_empty_has_no_bit(i);
            lemma_and_or_bits(pt[p], pt[q], i);
            lemma_bitboard_of(piece_type_pred(cells, p), 64, i);
            lemma_bitboard_of(piece_type_pred(cells, q), 64, i);
        }
        lemma_bitboard_ext(pt[p] & pt[q], 0u64);
    }
    let all = pt[0] | pt[1] | pt[2] | pt[3] | pt[4] | pt[5];
    assert forall|i: int| 0 <= i < 64 implies has_bit(b.occupied, i) == has_bit(all, i) by {
        lemma_and_or_bits(co[0], co[1], i);
        lemma_bitboard_of(color_pred(cells, 0), 64, i);
        lemma_bitboard_of(color_pred(cells, 1), 64, i);
        lemma_and_or_bits(pt[0], pt[1], i);
        lemma_and_or_bits(pt[0] | pt[1], pt[2], i);
        lemma_and_or_bits(pt[0] | pt[1] | pt[2], pt[3], i);
        lemma_and_or_bits(pt[0] | pt[1] | pt[2] | pt[3], pt[4], i);
        lemma_and_or_bits(pt[0] | pt[1] | pt[2] | pt[3] | pt[4], pt[5], i);
        lemma_bitboard_of(piece_type_pred(cells, 0), 64, i);
        lemma_bitboard_of(piece_type_pred(cells, 1), 64, i);
        lemma_bitboard_of(piece_type_pred(cells, 2), 64, i);
        lemma_bitboard_of(piece_type_pred(cells, 3), 64, i);
        lemma_bitboard_of(piece_type_pred(cells, 4), 64, i);
        lemma_bitboard_of(piece_type_pred(cells, 5), 64, i);
    }
    lemma_bitboard_ext(b.occupied, all);
}

/// The en-passant file of a position read from FEN is 8 exactly when
/// its en-passant field is `-`; otherwise the field is a file letter
/// `a`..`h` and a rank, and the en-passant file is the letter counted
/// from `a`, whichever side is to move.
pub proof fn lemma_fen_enpassant_file(b: Board, s: Seq<u8>)
    requires
        fen_valid(s),
        fen_board(b, s),
    ensures
        fields(s)[3] == seq![0x2du8] <==> b.enpassant_file == 8,
        fields(s)[3] != seq![0x2du8] ==> fields(s)[3].len() == 2 && 0x61 <= fields(s)[3][0] <= 0x68
            && b.enpassant_file == fields(s)[3][0] - 0x61,
{
}

/// The upper-case FEN letter of a piece type: `K`, `Q`, `R`, `B`, `N`,
/// `P` for king .. pawn.
pub open spec fn upper_letter(p: int) -> u8 {
    if p == 0 {
        0x4bu8
    } else if p == 1 {
        0x51u8
    } else if p == 2 {
        0x52u8
    } else if p == 3 {
        0x42u8
    } else if p == 4 {
        0x4eu8
    } else {
        0x50u8
    }
}

/// In a position read from FEN, square `s` (rank `s / 8`, file `s % 8`)
/// holds a piece of type `p` exactly when the placement field names it
/// there, in either case, and a white piece exactly when it names an
/// upper-case piece letter. The field lists rank 8 first, each rank from
/// file `a`.
pub proof fn lemma_fen_pieces(b: Board, s: Seq<u8>, sq: int, p: int)
    requires
        fen_valid(s),
        fen_board(b, s),
        0 <= sq < 64,
        0 <= p < 6,
    ensures
        ({
            let c = placement_cells(fields(s)[0])->0[(7 - sq / 8) * 8 + sq % 8];
            &&& has_bit(b.pieces.piece_type[p], sq) <==> (c == upper_letter(p) || c
                == upper_letter(p) + 32)
            &&& has_bit(b.pieces.color[WHITE as int], sq) <==> exists|q: int|
                0 <= q < 6 && c == upper_letter(q)
            &&& has_bit(b.pieces.color[BLACK as int], sq) <==> exists|q: int|
                0 <= q < 6 && c == upper_letter(q) + 32
        }),
{
    let cells = placement_cells(fields(s)[0])->0;
    let c = cells[(7 - sq / 8) * 8 + sq % 8];
    lemma_bitboard_of(piece_type_pred(cells, p), 64, sq);
    lemma_bitboard_of(color_pred(cells, 0), 64, sq);
    lemma_bitboard_of(color_pred(cells, 1), 64, sq);
    if letter_piece(c) is Some {
        let q = letter_piece(c)->0 as int;
        if letter_color(c) == WHITE {
            assert(c == upper_letter(q));
        } else {
            assert(c == upper_letter(q) + 32);
        }
    }
}

/// The side to move of a position read from FEN is white exactly when its
/// active color field is `w`, and its castling rights are those that the
/// castling field names: `K` and `Q` give white king-side (2) and
/// queen-side (1) castling, `k` and `q` the same for black.
pub proof fn lemma_fen_side_and_castling(b: Board, s: Seq<u8>)
    requires
        fen_valid(s),
        fen_board(b, s),
    ensures
        b.to_move == WHITE <==> fields(s)[1] == seq![0x77u8],
        b.to_move == BLACK <==> fields(s)[1] == seq![0x62u8],
        b.castling_rights.rights_of(0) == (if fields(s)[2].contains(0x4bu8) {
            2int
        } else {
            0int
        }) + (if fields(s)[2].contains(0x51u8) {
            1int
        } else {
            0int
        }),
        b.castling_rights.rights_of(1) == (if fields(s)[2].contains(0x6bu8) {
            2int
        } else {
            0int
        }) + (if fields(s)[2].contains(0x71u8) {
            1int
        } else {
            0int
        }),
{
    lemma_single(fields(s)[1], 0x77);
    lemma_single(fields(s)[1], 0x62);
    let t = fields(s)[2];
    if t == seq![0x2du8] {
        assert(!t.contains(0x4bu8) && !t.contains(0x51u8) && !t.contains(0x6bu8) && !t.contains(
            0x71u8,
        )) by {
            if t.contains(0x4bu8) || t.contains(0x51u8) || t.contains(0x6bu8) || t.contains(0x71u8) {
                assert(t[0] == 0x2du8);
            }
        }
    }
}

/// Parses a FEN record: returns the position, the halfmove clock and the
/// fullmove number.
pub fn parse_fen(fen: &str) -> (r: Result<(Board, u8, u16), NotationError>)
    ensures
        r is Ok <==> fen_valid(fen.spec_bytes()),
        r matches Ok(t) ==> {
            let f = fields(fen.spec_bytes());
            &&& fen_board(t.0, fen.spec_bytes())
            &&& t.1 == number_field(f[4], 255)->0
            &&& t.2 == number_field(f[5], 65535)->0
        },
{
    let s = fen.as_bytes();
    let ghost f = fields(s@);
    let spans = split_fields(s);
    assert(spans_view(s@, spans@).len() == spans@.len());
    if spans.len() != 6 {
        return Err(NotationError);
    }
    let (a0, b0) = spans[0];
    let (a1, b1) = spans[1];
    let (a2, b2) = spans[2];
    let (a3, b3) = spans[3];
    let (a4, b4) = spans[4];
    let (a5, b5) = spans[5];
    assert(f[0] == s@.subrange(a0 as int, b0 as int));
    assert(f[1] == s@.subrange(a1 as int, b1 as int));
    assert(f[2] == s@.subrange(a2 as int, b2 as int));
    assert(f[3] == s@.subrange(a3 as int, b3 as int));
    assert(f[4] == s@.subrange(a4 as int, b4 as int));
    assert(f[5] == s@.subrange(a5 as int, b5 as int));
    let pieces = match parse_placement(s, a0, b0) {
        Some(p) => p,
        None => {
            return Err(NotationError);
        },
    };
    let to_move = match parse_active_color(s, a1, b1) {
        Some(c) => c,
        None => {
            return Err(NotationError);
        },
    };
    let (white, black) = match parse_castling(s, a2, b2) {
        Some(c) => c,
        None => {
            return Err(NotationError);
        },
    };
    let enpassant_file = match parse_enpassant(s, a3, b3, to_move) {
        Some(e) => e,
        None => {
            return Err(NotationError);
        },
    };
    let halfmove_clock = match parse_number(s, a4, b4, 255) {
        Some(n) => n,
        None => {
            return Err(NotationError);
        },
    };
    let fullmove_number = match parse_number(s, a5, b5, 65535) {
        Some(n) => n,
        None => {
            return Err(NotationError);
        },
    };
    let mut castling_rights = CastlingRights::new();
    castling_rights.set_for(WHITE, white);
    castling_rights.set_for(BLACK, black);
    let board = Board {
        pieces,
        to_move,
        castling_rights,
        enpassant_file,
        occupied: pieces.color[WHITE] | pieces.color[BLACK],
    };
    Ok((board, halfmove_clock as u8, fullmove_number as u16))
}

} // verus!
