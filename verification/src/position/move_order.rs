//! The order of moves: what comparing two moves tells.

use vstd::prelude::*;
use core::cmp::Ordering;
use vstd::std_specs::cmp::PartialOrdSpec;
use crate::position::chess_move::{
    Move, score_field, captured_field, piece_field, lemma_higher_score_orders_first,
    lemma_more_valuable_victim_orders_first, lemma_less_valuable_aggressor_orders_first,
    lemma_view_injective,
};

verus! {

/// Comparing moves: a move with a higher score compares greater, and one
/// with a lower score less, whatever their other fields.
pub proof fn lemma_compare_by_score(a: Move, b: Move)
    requires
        score_field(a@) > score_field(b@),
    ensures
        a.partial_cmp_spec(&b) == Some(Ordering::Greater),
        b.partial_cmp_spec(&a) == Some(Ordering::Less),
{
    lemma_higher_score_orders_first(a, b);
}

/// Comparing moves of equal score: the capture of a more valuable piece
/// (a lower piece type) compares greater.
pub proof fn lemma_compare_by_victim(a: Move, b: Move)
    requires
        score_field(a@) == score_field(b@),
        captured_field(a@) < captured_field(b@),
    ensures
        a.partial_cmp_spec(&b) == Some(Ordering::Greater),
        b.partial_cmp_spec(&a) == Some(Ordering::Less),
{
    lemma_more_valuable_victim_orders_first(a, b);
}

/// Comparing moves of equal score and victim: the move of a less
/// valuable piece (a higher piece type) compares greater.
pub proof fn lemma_compare_by_aggressor(a: Move, b: Move)
    requires
        score_field(a@) == score_field(b@),
        captured_field(a@) == captured_field(b@),
        piece_field(a@) > piece_field(b@),
    ensures
        a.partial_cmp_spec(&b) == Some(Ordering::Greater),
        b.partial_cmp_spec(&a) == Some(Ordering::Less),
{
    lemma_less_valuable_aggressor_orders_first(a, b);
}

/// Two moves compare equal exactly when they are the same move.
pub proof fn lemma_compare_equal(a: Move, b: Move)
    ensures
        a.partial_cmp_spec(&b) == Some(Ordering::Equal) <==> a == b,
{
    if a.partial_cmp_spec(&b) == Some(Ordering::Equal) {
        lemma_view_injective(a, b);
    }
}

} // verus!
