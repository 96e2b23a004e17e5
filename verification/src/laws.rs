//! The library's stated laws, proved once and for all: transposition-table
//! round-trip and collision safety, exactness of full-window search,
//! window consistency of fail-soft results, and preference for the
//! shorter of two mates.

use vstd::prelude::*;
use chess::Board;
use chess::ChessMove;
use crate::chessio::moves_of;
use crate::chessio::after_of;
use crate::chessio::white_of;
use crate::chessio::in_check;
use crate::eval::heur_of;
use crate::eval::bs_spec;
use crate::eval::mate_score;
use crate::eval::MIN_SCORE;
use crate::eval::MAX_SCORE;
use crate::ttable::TEntry;
use crate::ttable::put_model;
use crate::ttable::fetch_model;
use crate::minmax::negamax;
use crate::minmax::negamax_aux;
use crate::minmax::child_value;
use crate::minmax::side_mul;
use crate::minmax::ab_ok;
use crate::minmax::lemma_aux_ge;

verus! {

/// Transposition-table round trip: putting an entry and at once fetching
/// its hash yields an entry recording that hash — the entry itself, or a
/// deeper one already holding the bucket under the same hash.
pub proof fn lemma_tt_round_trip(s: Seq<Option<TEntry>>, e: TEntry)
    requires
        s.len() > 0,
    ensures
        fetch_model(put_model(s, e), e.hash) matches Some(r) && r.hash == e.hash,
{
    let i = e.hash as int % s.len() as int;
    let t = put_model(s, e);
    assert(t.len() == s.len());
    match s[i] {
        Some(cur) => {
            if cur.hash != e.hash || e.depth >= cur.depth {
                assert(t[i] == Some(e));
            } else {
                assert(t[i] == Some(cur) && cur.hash == e.hash);
            }
        },
        None => {
            assert(t[i] == Some(e));
        },
    }
}

/// Transposition-table collision safety: whatever was put, a fetch returns
/// nothing or an entry recording the queried hash.
pub proof fn lemma_tt_collision_safety(s: Seq<Option<TEntry>>, h: u64)
    ensures
        fetch_model(s, h) matches Some(r) ==> r.hash == h,
{
}

/// Negamax symmetry: a fail-soft result over the full window — which the
/// search contract guarantees of `alpha_beta(b, d, MIN_SCORE, MAX_SCORE)`
/// whenever the transposition table has no buckets and no cancellation
/// fires — is exactly the reference minimax value.
pub proof fn lemma_full_window_exact(b: Board, d: int, r: int)
    requires
        1 <= d <= 100,
        ab_ok(negamax(b, d), r, MIN_SCORE as int, MAX_SCORE as int),
        -800000 <= r <= 800000,
    ensures
        r == negamax(b, d),
{
}

/// Window consistency: a fail-soft result pins the reference value when
/// that value lies inside the window, and bounds it from the matching
/// side when it lies outside.
pub proof fn lemma_window_consistency(b: Board, d: int, r: int, alpha: int, beta: int)
    requires
        1 <= d <= 100,
        alpha < beta,
        ab_ok(negamax(b, d), r, alpha, beta),
    ensures
        alpha < negamax(b, d) < beta ==> r == negamax(b, d),
        negamax(b, d) <= alpha ==> r <= alpha,
        negamax(b, d) >= beta ==> r >= beta,
{
}

/// No heuristic score reaches mate magnitude.  True of any board a chess
/// game can reach; a board stacked with enough promoted queens could
/// breach it.
pub open spec fn calm() -> bool {
    forall|b: Board|
        moves_of(b).len() > 0 ==> -100000 < heur_of(b, #[trigger] moves_of(b)) < 100000
}

/// Playing a move hands the turn to the other side.
pub open spec fn sides_alternate() -> bool {
    forall|b: Board, m: ChessMove| white_of(#[trigger] after_of(b, m)) == !white_of(b)
}

/// Under `calm`, every reference value stays within the mate band of its
/// depth.
pub proof fn lemma_negamax_mate_band(b: Board, d: int)
    requires
        calm(),
        1 <= d <= 100,
    ensures
        -(100000 + d) <= negamax(b, d) <= 100000 + d,
    decreases d, moves_of(b).len() + 1, 1int,
{
    if moves_of(b).len() == 0 {
    } else {
        lemma_aux_mate_band(b, d, moves_of(b).len() as int);
    }
}

proof fn lemma_aux_mate_band(b: Board, d: int, n: int)
    requires
        calm(),
        1 <= d <= 100,
        1 <= n,
        n <= moves_of(b).len(),
    ensures
        -(100000 + d) <= negamax_aux(b, d, n) <= 100000 + d,
    decreases d, moves_of(b).len() + 1, 0int, n,
{
    lemma_child_mate_band(b, d, n - 1);
    if n > 1 {
        lemma_aux_mate_band(b, d, n - 1);
    }
}

proof fn lemma_child_mate_band(b: Board, d: int, i: int)
    requires
        calm(),
        1 <= d <= 100,
    ensures
        -(100000 + d) <= child_value(b, d, i) <= 100000 + d,
    decreases d, 0int, 0int, 0int,
{
    let child = after_of(b, moves_of(b)[i]);
    if d <= 1 {
        if moves_of(child).len() == 0 {
        } else {
            assert(-100000 < heur_of(child, moves_of(child)) < 100000);
        }
    } else {
        lemma_negamax_mate_band(child, d - 1);
    }
}

/// Under `calm` and `sides_alternate`, a side that still has a move is
/// never scored as badly as one already mated: its value stays above the
/// deepest mate its opponent could still deliver.
pub proof fn lemma_alive_floor(b: Board, d: int)
    requires
        calm(),
        sides_alternate(),
        1 <= d <= 100,
        moves_of(b).len() > 0,
    ensures
        negamax(b, d) >= -(100000 + d - 1),
{
    let child = after_of(b, moves_of(b)[0]);
    if d <= 1 {
        if moves_of(child).len() == 0 {
            assert(white_of(child) == !white_of(b));
            assert(child_value(b, d, 0) == side_mul(b) * bs_spec(child, moves_of(child), 1));
            if in_check(child) {
                assert(bs_spec(child, moves_of(child), 1) == mate_score(white_of(child), 1));
                assert(child_value(b, d, 0) == 100000 + 1);
            } else {
                assert(child_value(b, d, 0) == 0);
            }
        } else {
            assert(-100000 < heur_of(child, moves_of(child)) < 100000);
        }
        assert(child_value(b, d, 0) >= -(100000 + d - 1));
    } else {
        lemma_negamax_mate_band(child, d - 1);
        assert(child_value(b, d, 0) == -negamax(child, d - 1));
        assert(child_value(b, d, 0) >= -(100000 + d - 1));
    }
    lemma_aux_ge(b, d, moves_of(b).len() as int, 0);
}

/// Mate preference: a move that mates at once scores `100000 + d - 1`,
/// strictly above any move that leaves the opponent a reply — in
/// particular above any longer road to mate — and the reference value of
/// the position honours the immediate mate.
pub proof fn lemma_mate_preference(b: Board, d: int, i: int, j: int)
    requires
        calm(),
        sides_alternate(),
        2 <= d <= 100,
        0 <= i < moves_of(b).len(),
        0 <= j < moves_of(b).len(),
        moves_of(after_of(b, moves_of(b)[i])).len() == 0,
        in_check(after_of(b, moves_of(b)[i])),
        moves_of(after_of(b, moves_of(b)[j])).len() > 0,
    ensures
        child_value(b, d, i) == 100000 + d - 1,
        child_value(b, d, j) < child_value(b, d, i),
        negamax(b, d) >= 100000 + d - 1,
{
    let ci = after_of(b, moves_of(b)[i]);
    assert(negamax(ci, d - 1) == side_mul(ci) * bs_spec(ci, moves_of(ci), d - 1));
    assert(bs_spec(ci, moves_of(ci), d - 1) == mate_score(white_of(ci), d - 1));
    assert(negamax(ci, d - 1) == -(100000 + d - 1));
    assert(child_value(b, d, i) == 100000 + d - 1);
    let cj = after_of(b, moves_of(b)[j]);
    lemma_alive_floor(cj, d - 1);
    assert(child_value(b, d, j) == -negamax(cj, d - 1));
    assert(child_value(b, d, j) <= 100000 + d - 2);
    lemma_aux_ge(b, d, moves_of(b).len() as int, i);
}


/// A move whose value reaches the immediate-mate score is an immediate
/// mate: the opponent is left without a reply and in check.  Together with
/// the search contract's witness clause this pins the returned best move
/// as a mating move whenever the returned value is `100000 + d - 1`.
pub proof fn lemma_mate_move(b: Board, d: int, j: int)
    requires
        calm(),
        sides_alternate(),
        2 <= d <= 100,
        0 <= j < moves_of(b).len(),
        child_value(b, d, j) == 100000 + d - 1,
    ensures
        moves_of(after_of(b, moves_of(b)[j])).len() == 0,
        in_check(after_of(b, moves_of(b)[j])),
{
    let cj = after_of(b, moves_of(b)[j]);
    if moves_of(cj).len() > 0 {
        lemma_alive_floor(cj, d - 1);
        assert(child_value(b, d, j) == -negamax(cj, d - 1));
        assert(false);
    }
    assert(negamax(cj, d - 1) == side_mul(cj) * bs_spec(cj, moves_of(cj), d - 1));
    if !in_check(cj) {
        assert(bs_spec(cj, moves_of(cj), d - 1) == 0);
        assert(false);
    }
}

} // verus!

