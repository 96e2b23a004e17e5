//! The searcher: bounded negamax with alpha-beta pruning, transposition
//! table probing, move ordering, MTD(f)-style zero-window refinement,
//! iterative deepening, and principal-variation reconstruction.
//!
//! The reference value of a position is the spec function `negamax`.
//! `alpha_beta` is proved fail-soft correct against it whenever the
//! transposition table has no buckets; a live table may legitimately hand
//! back values from deeper searches of the same hash, which is the point
//! of keeping it.

use vstd::prelude::*;
use std::sync::Arc;
use std::sync::atomic::AtomicBool;
use std::sync::atomic::Ordering;
use chess::Board;
use chess::ChessMove;
use crate::chessio::moves_of;
use crate::chessio::after_of;
use crate::chessio::white_of;
use crate::chessio::generate_moves;
use crate::chessio::apply_move;
use crate::chessio::board_hash;
use crate::chessio::hash_of;
use crate::chessio::side_is_white;
use crate::chessio::move_source;
use crate::chessio::move_dest;
use crate::chessio::move_promotion;
use crate::chessio::src_of;
use crate::chessio::dst_of;
use crate::chessio::promo_of;
use crate::eval::Score;
use crate::eval::MIN_SCORE;
use crate::eval::MAX_SCORE;
use crate::eval::bs_spec;
use crate::eval::board_score;
use crate::eval::fast_board_score;
use crate::eval::lemma_bs_bounded;
use crate::ttable::TTable;
use crate::ttable::TEntry;
use crate::ttable::ValueInfo;
use crate::ttable::valid_entry;
use crate::ttable::fetch_model;

verus! {

/// +1 when White is to move, -1 when Black is: scores seen by the side to
/// move are White-positive scores times this.
pub open spec fn side_mul(b: Board) -> int {
    if white_of(b) {
        1
    } else {
        -1
    }
}

/// The reference negamax value of the `i`-th child of `b` at depth `d`,
/// from the point of view of the side to move at `b`: at depth 1 the
/// child's static score, deeper the negated reference value of the child.
pub open spec fn child_value(b: Board, d: int, i: int) -> int
    decreases d, 0int,
{
    let child = after_of(b, moves_of(b)[i]);
    if d <= 1 {
        side_mul(b) * bs_spec(child, moves_of(child), 1)
    } else {
        -negamax(child, d - 1)
    }
}

/// The best reference value among the first `n` children of `b` at depth
/// `d`, floored at `MIN_SCORE`.
pub open spec fn negamax_aux(b: Board, d: int, n: int) -> int
    decreases d, n,
{
    if n <= 0 {
        MIN_SCORE as int
    } else {
        let v = child_value(b, d, n - 1);
        let rest = negamax_aux(b, d, n - 1);
        if v > rest {
            v
        } else {
            rest
        }
    }
}

/// The reference minimax value of a position at depth `d`, from the point
/// of view of the side to move: the static score when there are no legal
/// moves, and otherwise the best child value.
pub open spec fn negamax(b: Board, d: int) -> int
    decreases d, moves_of(b).len() + 1,
{
    if moves_of(b).len() == 0 {
        side_mul(b) * bs_spec(b, moves_of(b), d)
    } else {
        negamax_aux(b, d, moves_of(b).len() as int)
    }
}

/// Fail-soft correctness of a windowed search result `r` against the true
/// value `v`: inside the window the result is exact, and outside it the
/// result bounds the true value from the matching side.
pub open spec fn ab_ok(v: int, r: int, alpha: int, beta: int) -> bool {
    &&& (r <= alpha ==> v <= r)
    &&& (r >= beta ==> v >= r)
    &&& (alpha < r < beta ==> v == r)
}

pub proof fn lemma_negamax_bounded(b: Board, d: int)
    requires
        1 <= d <= 100,
    ensures
        -800000 <= negamax(b, d) <= 800000,
    decreases d, moves_of(b).len() + 1,
{
    if moves_of(b).len() == 0 {
        lemma_bs_bounded(b, moves_of(b), d);
    } else {
        lemma_negamax_aux_bounded(b, d, moves_of(b).len() as int);
    }
}

pub proof fn lemma_child_value_bounded(b: Board, d: int, i: int)
    requires
        1 <= d <= 100,
    ensures
        -800000 <= child_value(b, d, i) <= 800000,
    decreases d, 0int,
{
    let child = after_of(b, moves_of(b)[i]);
    if d <= 1 {
        lemma_bs_bounded(child, moves_of(child), 1);
    } else {
        lemma_negamax_bounded(child, d - 1);
    }
}

pub proof fn lemma_negamax_aux_bounded(b: Board, d: int, n: int)
    requires
        1 <= d <= 100,
        1 <= n,
    ensures
        -800000 <= negamax_aux(b, d, n) <= 800000,
    decreases d, n,
{
    lemma_child_value_bounded(b, d, n - 1);
    if n > 1 {
        lemma_negamax_aux_bounded(b, d, n - 1);
    }
}

/// The best child value never exceeds a bound that every child value obeys.
pub proof fn lemma_aux_le(b: Board, d: int, n: int, bound: int)
    requires
        forall|i: int| 0 <= i < n ==> child_value(b, d, i) <= bound,
        MIN_SCORE as int <= bound,
    ensures
        negamax_aux(b, d, n) <= bound,
    decreases n,
{
    if n > 0 {
        assert(child_value(b, d, n - 1) <= bound);
        lemma_aux_le(b, d, n - 1, bound);
    }
}

/// The best child value is at least each child value.
pub proof fn lemma_aux_ge(b: Board, d: int, n: int, i: int)
    requires
        0 <= i < n,
    ensures
        negamax_aux(b, d, n) >= child_value(b, d, i),
    decreases n,
{
    if i < n - 1 {
        lemma_aux_ge(b, d, n - 1, i);
    }
}

/// A search result: the move found best at the root of the call and its
/// fail-soft negamax score.
pub struct ABResult {
    pub best_move: Option<ChessMove>,
    pub best_value: Score,
}

impl ABResult {
    /// A usable exact table entry, seen as a search result: only an exact
    /// entry at least `min_depth` deep qualifies.
    pub fn from_tentry(entry: TEntry, min_depth: i32) -> (r: Option<ABResult>)
        ensures
            r matches Some(res) ==> {
                &&& entry.value matches ValueInfo::Exact(s) && res.best_value == s
                &&& entry.depth >= min_depth
                &&& res.best_move == Some(entry.best_move)
            },
            (entry.value matches ValueInfo::Exact(s) && entry.depth >= min_depth) ==> r is Some,
    {
        match entry.value {
            ValueInfo::Exact(best_value) if entry.depth >= min_depth => Some(
                ABResult { best_value, best_move: Some(entry.best_move) },
            ),
            _ => None,
        }
    }
}

/// Cooperative cancellation: an optional shared flag, polled once every
/// `period` calls so the hot path stays cheap.
pub struct CancelPoll {
    token: Option<Arc<AtomicBool>>,
    ticks: u32,
    period: u32,
}

impl CancelPoll {
    pub closed spec fn wf(self) -> bool {
        self.period >= 1 && self.ticks < self.period
    }

    /// A poll that can never fire.
    pub closed spec fn is_never(self) -> bool {
        self.token is None
    }

    pub fn never() -> (r: CancelPoll)
        ensures
            r.wf(),
            r.is_never(),
    {
        CancelPoll { token: None, ticks: 0, period: 1 }
    }

    /// Watch `flag`, reading it once every `period` calls.
    pub fn watching(flag: Arc<AtomicBool>, period: u32) -> (r: CancelPoll)
        requires
            period >= 1,
        ensures
            r.wf(),
            !r.is_never(),
    {
        CancelPoll { token: Some(flag), ticks: 0, period }
    }

    /// Count a tick; on every `period`-th tick read the flag.  A poll
    /// without a flag never reports cancellation.
    pub fn check(&mut self) -> (c: bool)
        requires
            old(self).wf(),
        ensures
            final(self).wf(),
            final(self).is_never() == old(self).is_never(),
            old(self).is_never() ==> !c,
    {
        self.ticks = if self.ticks + 1 >= self.period {
            0
        } else {
            self.ticks + 1
        };
        if self.ticks == 0 {
            match &self.token {
                Option::None => false,
                Option::Some(flag) => flag.load(Ordering::Relaxed),
            }
        } else {
            false
        }
    }
}

/// Ordering used to sort candidate moves: higher ordering score first,
/// ties by enumeration order.
pub open spec fn order_ge(x: (usize, i32), y: (usize, i32)) -> bool {
    x.1 > y.1 || (x.1 == y.1 && x.0 <= y.0)
}

spec fn keeps_ids(s: Seq<(usize, i32)>, t: Seq<(usize, i32)>) -> bool {
    forall|x: (usize, i32)| s.contains(x) ==> t.contains(x)
}

proof fn lemma_swap_keeps_ids(s: Seq<(usize, i32)>, k: int, m: int)
    requires
        0 <= k < s.len(),
        0 <= m < s.len(),
    ensures
        keeps_ids(s, s.update(k, s[m]).update(m, s[k])),
        keeps_ids(s.update(k, s[m]).update(m, s[k]), s),
{
    let t = s.update(k, s[m]).update(m, s[k]);
    assert forall|x: (usize, i32)| s.contains(x) implies t.contains(x) by {
        let j = choose|j: int| 0 <= j < s.len() && s[j] == x;
        if j == k {
            if m == k {
                assert(t[k] == x);
            } else {
                assert(t[m] == x);
            }
        } else if j == m {
            assert(t[k] == x);
        } else {
            assert(t[j] == x);
        }
    }
    assert forall|x: (usize, i32)| t.contains(x) implies s.contains(x) by {
        let j = choose|j: int| 0 <= j < t.len() && t[j] == x;
        if j == m {
            assert(s[k] == x);
        } else if j == k {
            assert(s[m] == x);
        } else {
            assert(s[j] == x);
        }
    }
}

/// Sort move records by ordering score, best first, ties by enumeration
/// order; the records are a permutation of the input.
fn sort_desc(v: &mut Vec<(usize, i32)>)
    ensures
        final(v)@.len() == old(v)@.len(),
        keeps_ids(old(v)@, final(v)@),
        keeps_ids(final(v)@, old(v)@),
        forall|a: int, b: int|
            0 <= a < b < final(v)@.len() ==> order_ge(final(v)@[a], final(v)@[b]),
{
    let n = v.len();
    let mut k: usize = 0;
    while k < n
        invariant
            n == v@.len(),
            k <= n,
            keeps_ids(old(v)@, v@),
            keeps_ids(v@, old(v)@),
            forall|a: int, b: int| 0 <= a < b < k ==> order_ge(v@[a], v@[b]),
            forall|a: int, b: int| 0 <= a < k && k <= b < n ==> order_ge(v@[a], v@[b]),
        decreases n - k,
    {
        let mut m: usize = k;
        let mut t: usize = k + 1;
        while t < n
            invariant
                k <= m < t <= n,
                n == v@.len(),
                forall|a: int| k <= a < t ==> order_ge(v@[m as int], v@[a]),
            decreases n - t,
        {
            let (mi, ms) = v[m];
            let (ti, ts) = v[t];
            if ts > ms || (ts == ms && ti < mi) {
                m = t;
            }
            t = t + 1;
        }
        let vk = v[k];
        let vm = v[m];
        proof {
            lemma_swap_keeps_ids(v@, k as int, m as int);
        }
        v.set(k, vm);
        v.set(m, vk);
        k = k + 1;
    }
}


/// Some record in `s` carries the move index `i`.
pub open spec fn has_id(s: Seq<(usize, i32)>, i: int) -> bool {
    exists|j: int| 0 <= j < s.len() && ((#[trigger] s[j]).0 as int) == i
}

/// Two moves name the same source, destination and promotion.  Two legal
/// moves of one position are the same move exactly when these agree.
pub open spec fn coords_match(a: ChessMove, b: ChessMove) -> bool {
    src_of(a) == src_of(b) && dst_of(a) == dst_of(b) && promo_of(a) == promo_of(b)
}

/// Compare two moves by their plain coordinates.
fn moves_coord_eq(a: &ChessMove, b: &ChessMove) -> (r: bool)
    ensures
        r == coords_match(*a, *b),
{
    if move_source(a) != move_source(b) {
        return false;
    }
    if move_dest(a) != move_dest(b) {
        return false;
    }
    match (move_promotion(a), move_promotion(b)) {
        (Option::None, Option::None) => true,
        (Option::Some(x), Option::Some(y)) => x == y,
        _ => false,
    }
}

/// Negamax search of `board` to residual depth `depth` inside the window
/// `(alpha, beta)`, fail-soft, over an already generated move list and an
/// already fetched table entry for this position.
///
/// Unconditionally: the poll and table stay well-formed, the table keeps
/// its bucket count, a never-firing poll yields a result, and any result
/// lies in `MIN_SCORE..=MAX_SCORE`.  When the table has no buckets, the
/// result is the fail-soft reference value `negamax(board, depth)`.
#[verifier::rlimit(60)]
fn alpha_beta_raw(
    cancel: &mut CancelPoll,
    ttable: &mut TTable,
    board: &Board,
    entry_op: &Option<TEntry>,
    moves: &Vec<ChessMove>,
    depth: i32,
    alpha: Score,
    beta: Score,
) -> (r: Option<ABResult>)
    requires
        old(cancel).wf(),
        old(ttable).wf(),
        1 <= depth <= 100,
        MIN_SCORE - 1 <= alpha < beta <= MAX_SCORE + 1,
        moves@ == moves_of(*board),
        moves@.len() <= 4608,
        ((*entry_op) matches Some(e) ==> valid_entry(e)),
        old(ttable)@.len() == 0 ==> (*entry_op) is None,
    ensures
        final(cancel).wf(),
        final(cancel).is_never() == old(cancel).is_never(),
        final(ttable).wf(),
        final(ttable)@.len() == old(ttable)@.len(),
        old(cancel).is_never() ==> r is Some,
        (r matches Some(res) ==> MIN_SCORE <= res.best_value <= MAX_SCORE),
        old(ttable)@.len() == 0 ==> (r matches Some(res) ==> {
            &&& ab_ok(
                negamax(*board, depth as int),
                res.best_value as int,
                alpha as int,
                beta as int,
            )
            &&& -800000 <= res.best_value <= 800000
            &&& (res.best_move is Some <==> moves@.len() > 0)
            &&& (res.best_move matches Some(m) ==> moves@.contains(m))
            &&& ((res.best_value > alpha && moves@.len() > 0) ==> exists|j: int|
                {
                    &&& 0 <= j < moves@.len()
                    &&& res.best_move == Some(#[trigger] moves@[j])
                    &&& child_value(*board, depth as int, j) >= res.best_value as int
                })
        }),
        moves@.len() == 0 ==> (r matches Some(res) ==> (res.best_value as int == side_mul(*board)
            * bs_spec(*board, moves@, depth as int) && res.best_move is None)),
        (*entry_op) matches Some(e) ==> (r matches Some(res) ==> ((moves@.len() > 0 && e.depth
            >= depth) ==> {
            &&& (e.value matches ValueInfo::Exact(s) ==> (res.best_value == s && res.best_move
                == Some(e.best_move) && final(ttable)@ == old(ttable)@))
            &&& (e.value matches ValueInfo::LowerBound(v) ==> (v >= beta ==> (res.best_value == v
                && res.best_move == Some(e.best_move) && final(ttable)@ == old(ttable)@)))
            &&& (e.value matches ValueInfo::UpperBound(v) ==> (v <= alpha ==> (res.best_value == v
                && res.best_move == Some(e.best_move) && final(ttable)@ == old(ttable)@)))
        })),
    decreases depth,
{
    let ghost hh = old(ttable)@.len() == 0;
    let ghost d = depth as int;
    let ghost alpha_param = alpha as int;
    let ghost beta_param = beta as int;
    if cancel.check() {
        return None;
    }
    let alpha_orig = alpha;
    let mut alpha = alpha;
    let mut beta = beta;
    let score_mul: Score = if side_is_white(board) {
        1
    } else {
        -1
    };
    if moves.len() == 0 {
        proof {
            lemma_bs_bounded(*board, moves@, d);
        }
        let value = score_mul * board_score(board, moves, depth);
        return Some(ABResult { best_move: None, best_value: value });
    }
    let mut prev_best_move: Option<ChessMove> = None;
    match entry_op {
        Option::Some(entry) => {
            prev_best_move = Some(entry.best_move);
            if entry.depth >= depth {
                match entry.value {
                    ValueInfo::Exact(bv) => {
                        return Some(ABResult { best_value: bv, best_move: Some(entry.best_move) });
                    },
                    ValueInfo::LowerBound(v) => {
                        if alpha < v {
                            alpha = v;
                        }
                    },
                    ValueInfo::UpperBound(v) => {
                        if beta > v {
                            beta = v;
                        }
                    },
                }
                if alpha >= beta {
                    return Some(
                        ABResult {
                            best_value: entry.value.as_approximation(),
                            best_move: Some(entry.best_move),
                        },
                    );
                }
            }
        },
        Option::None => {},
    }
    let n = moves.len();
    let mut child_boards: Vec<Board> = Vec::new();
    let mut child_entries: Vec<Option<TEntry>> = Vec::new();
    let mut scored: Vec<(usize, i32)> = Vec::new();
    let mut i: usize = 0;
    while i < n
        invariant
            n == moves@.len(),
            moves@ == moves_of(*board),
            n <= 4608,
            1 <= depth <= 100,
            d == depth as int,
            i <= n,
            ttable.wf(),
            hh == (ttable@.len() == 0),
            child_boards@.len() == i as int,
            child_entries@.len() == i as int,
            scored@.len() == i as int,
            forall|t: int|
                0 <= t < i as int ==> #[trigger] child_boards@[t] == after_of(*board, moves@[t]),
            forall|t: int| 0 <= t < i as int ==> (#[trigger] scored@[t]).0 as int == t,
            forall|t: int|
                0 <= t < i as int ==> ((#[trigger] child_entries@[t]) matches Some(e)
                    ==> valid_entry(e)),
            hh ==> forall|t: int| 0 <= t < i as int ==> (#[trigger] child_entries@[t]) is None,
            score_mul as int == side_mul(*board),
        decreases n - i,
    {
        let mv = moves[i];
        proof {
            assert(moves@.contains(moves@[i as int]));
        }
        let move_board = apply_move(board, mv);
        let move_entry = ttable.fetch(board_hash(&move_board));
        proof {
            lemma_bs_bounded(move_board, moves@, d);
        }
        let mut fast_score = match move_entry {
            Option::Some(x) => x.value.as_approximation(),
            Option::None => score_mul * fast_board_score(&move_board, depth),
        };
        match &prev_best_move {
            Option::Some(pb) => {
                if moves_coord_eq(&mv, pb) {
                    fast_score = fast_score + 1000;
                }
            },
            Option::None => {},
        }
        child_boards.push(move_board);
        child_entries.push(move_entry);
        scored.push((i, fast_score));
        i = i + 1;
    }
    let ghost pre_sort = scored@;
    sort_desc(&mut scored);
    proof {
        assert forall|i2: int| 0 <= i2 < n as int implies #[trigger] has_id(scored@, i2) by {
            assert(pre_sort[i2].0 as int == i2);
            assert(pre_sort.contains(pre_sort[i2]));
            assert(scored@.contains(pre_sort[i2]));
            let j = choose|j: int| 0 <= j < scored@.len() && scored@[j] == pre_sort[i2];
            assert((scored@[j]).0 as int == i2);
        }
        assert forall|j: int| 0 <= j < n as int implies (0 <= ((#[trigger] scored@[j]).0 as int)
            && ((scored@[j]).0 as int) < (n as int)) by {
            assert(scored@.contains(scored@[j]));
            assert(pre_sort.contains(scored@[j]));
            let t = choose|t: int| 0 <= t < pre_sort.len() && pre_sort[t] == scored@[j];
            assert(pre_sort[t].0 as int == t);
        }
    }
    let mut best_value: Score = MIN_SCORE;
    let mut best_move: ChessMove = moves[0];
    let ghost alpha_start = alpha as int;
    proof {
        assert(moves@.contains(moves@[0]));
        lemma_child_value_bounded(*board, d, 0);
    }
    let ghost mut wit: int = 0;
    let ghost mut improved: bool = false;
    let mut cut = false;
    let mut k: usize = 0;
    while k < n && !cut
        invariant
            n == moves@.len(),
            moves@ == moves_of(*board),
            n <= 4608,
            0 < n,
            1 <= depth <= 100,
            d == depth as int,
            k <= n,
            cancel.wf(),
            cancel.is_never() == old(cancel).is_never(),
            ttable.wf(),
            ttable@.len() == old(ttable)@.len(),
            hh == (old(ttable)@.len() == 0),
            score_mul as int == side_mul(*board),
            child_boards@.len() == n as int,
            child_entries@.len() == n as int,
            scored@.len() == n as int,
            forall|t: int|
                0 <= t < n as int ==> #[trigger] child_boards@[t] == after_of(*board, moves@[t]),
            forall|t: int|
                0 <= t < n as int ==> ((#[trigger] child_entries@[t]) matches Some(e)
                    ==> valid_entry(e)),
            forall|j: int|
                0 <= j < n as int ==> (0 <= ((#[trigger] scored@[j]).0 as int) && ((
                scored@[j]).0 as int) < (n as int)),
            forall|i2: int| 0 <= i2 < n as int ==> #[trigger] has_id(scored@, i2),
            hh ==> forall|t: int| 0 <= t < n as int ==> (#[trigger] child_entries@[t]) is None,
            MIN_SCORE <= best_value <= MAX_SCORE,
            MIN_SCORE - 1 <= alpha as int <= MAX_SCORE + 1,
            MIN_SCORE <= beta as int <= MAX_SCORE + 1,
            !cut ==> alpha < beta,
            moves@.contains(best_move),
            alpha_orig as int <= alpha_start,
            improved ==> alpha as int == (if best_value as int > alpha_start {
                best_value as int
            } else {
                alpha_start
            }),
            !improved ==> (alpha as int == alpha_start && best_value == MIN_SCORE && !cut),
            hh ==> (alpha_orig as int == alpha_param && beta as int == beta_param
                && alpha_start == alpha_param),
            hh ==> (improved ==> -800000 <= best_value <= 800000),
            hh ==> (!improved ==> k == 0),
            hh ==> (!cut ==> forall|j: int|
                0 <= j < k as int ==> child_value(*board, d, (#[trigger] scored@[j]).0 as int)
                    <= best_value as int),
            hh ==> (best_value as int > alpha_orig as int ==> 0 <= wit < n as int && child_value(
                *board,
                d,
                wit,
            ) >= best_value as int && best_move == moves@[wit]),
            hh ==> (cut ==> best_value as int >= beta_param && best_value as int
                > alpha_orig as int),
            hh ==> (!cut ==> ((best_value as int) < (beta as int) || !improved)),
        decreases n - k,
    {
        let pair = scored[k];
        let idx = pair.0;
        let cmove = moves[idx];
        let centry = child_entries[idx];
        let child = child_boards[idx];
        let ghost idxi = idx as int;
        let ghost cv = child_value(*board, d, idxi);
        let value: Score;
        let short = match centry {
            Option::Some(ce) => ABResult::from_tentry(ce, depth - 1),
            Option::None => None,
        };
        match short {
            Option::Some(sub) => {
                value = -sub.best_value;
                proof {
                    if hh {
                        assert(child_entries@[idxi] is None);
                        assert(false);
                    }
                }
            },
            Option::None => {
                let sub_moves = generate_moves(&child);
                if depth > 1 {
                    let nb = -beta;
                    let na = -alpha;
                    match alpha_beta_raw(
                        cancel,
                        ttable,
                        &child,
                        &centry,
                        &sub_moves,
                        depth - 1,
                        nb,
                        na,
                    ) {
                        Option::None => {
                            return None;
                        },
                        Option::Some(sub) => {
                            value = -sub.best_value;
                            proof {
                                if hh {
                                    assert(child == after_of(*board, moves@[idxi]));
                                    assert(cv == -negamax(child, d - 1));
                                    assert(ab_ok(
                                        negamax(child, d - 1),
                                        sub.best_value as int,
                                        nb as int,
                                        na as int,
                                    ));
                                    assert(value as int >= beta as int ==> cv >= value as int);
                                    assert(value as int <= alpha as int ==> cv <= value as int);
                                    assert((alpha as int) < (value as int) && (value as int) < (beta as int) ==> cv
                                        == value as int);
                                    assert(-800000 <= value as int <= 800000);
                                }
                            }
                        },
                    }
                } else {
                    proof {
                        lemma_bs_bounded(child, sub_moves@, 1);
                    }
                    value = score_mul * board_score(&child, &sub_moves, depth);
                    proof {
                        if hh {
                            assert(child == after_of(*board, moves@[idxi]));
                            assert(sub_moves@ == moves_of(child));
                            assert(cv == side_mul(*board) * bs_spec(child, moves_of(child), 1));
                            assert(cv == value as int);
                            assert(-800000 <= value as int <= 800000);
                        }
                    }
                }
            },
        }
        proof {
            if hh {
                assert(value as int >= beta as int ==> cv >= value as int);
                assert(value as int <= alpha as int ==> cv <= value as int);
                assert((alpha as int) < (value as int) && (value as int) < (beta as int) ==> cv == value as int);
                assert(-800000 <= value as int <= 800000);
            }
        }
        if value > best_value {
            best_value = value;
            best_move = cmove;
            proof {
                improved = true;
                if hh && value as int > alpha_orig as int {
                    wit = idxi;
                }
            }
            if alpha < value {
                alpha = value;
            }
            if alpha >= beta {
                cut = true;
            }
        }
        k = k + 1;
    }
    let vi = if best_value <= alpha_orig {
        ValueInfo::UpperBound(best_value)
    } else if best_value >= beta {
        ValueInfo::LowerBound(best_value)
    } else {
        ValueInfo::Exact(best_value)
    };
    let hash = board_hash(board);
    ttable.put(TEntry { hash, depth, value: vi, best_move });
    proof {
        if hh {
            let nm = negamax(*board, d);
            assert(moves_of(*board).len() > 0);
            assert(nm == negamax_aux(*board, d, n as int));
            if cut {
                lemma_aux_ge(*board, d, n as int, wit);
                assert(nm >= best_value as int);
            } else {
                assert forall|i2: int| 0 <= i2 < n as int implies child_value(*board, d, i2)
                    <= best_value as int by {
                    assert(has_id(scored@, i2));
                    let j = choose|j: int|
                        0 <= j < scored@.len() && ((#[trigger] scored@[j]).0 as int) == i2;
                    assert(child_value(*board, d, (scored@[j]).0 as int) <= best_value as int);
                };
                lemma_aux_le(*board, d, n as int, best_value as int);
                if best_value as int > alpha_orig as int {
                    lemma_aux_ge(*board, d, n as int, wit);
                    assert(nm == best_value as int);
                }
            }
            assert(ab_ok(nm, best_value as int, alpha_param, beta_param));
        }
    }
    Some(ABResult { best_move: Some(best_move), best_value })
}

/// Negamax search of `board` to residual depth `depth` inside the window
/// `(alpha, beta)`: probe the transposition table, generate the legal
/// moves and run the windowed search.  Returns `None` only when a
/// cancellation was observed.
///
/// When the table has no buckets the result is the fail-soft reference
/// value `negamax(board, depth)`; a live table may answer from a deeper
/// search of the same position hash instead.
pub fn alpha_beta(
    cancel: &mut CancelPoll,
    ttable: &mut TTable,
    board: &Board,
    depth: i32,
    alpha: Score,
    beta: Score,
) -> (r: Option<ABResult>)
    requires
        old(cancel).wf(),
        old(ttable).wf(),
        1 <= depth <= 100,
        MIN_SCORE - 1 <= alpha < beta <= MAX_SCORE + 1,
    ensures
        final(cancel).wf(),
        final(cancel).is_never() == old(cancel).is_never(),
        final(ttable).wf(),
        final(ttable)@.len() == old(ttable)@.len(),
        old(cancel).is_never() ==> r is Some,
        (r matches Some(res) ==> MIN_SCORE <= res.best_value <= MAX_SCORE),
        old(ttable)@.len() == 0 ==> (r matches Some(res) ==> {
            &&& ab_ok(
                negamax(*board, depth as int),
                res.best_value as int,
                alpha as int,
                beta as int,
            )
            &&& -800000 <= res.best_value <= 800000
            &&& (res.best_move is Some <==> moves_of(*board).len() > 0)
            &&& (res.best_move matches Some(m) ==> moves_of(*board).contains(m))
            &&& ((res.best_value > alpha && moves_of(*board).len() > 0) ==> exists|j: int|
                {
                    &&& 0 <= j < moves_of(*board).len()
                    &&& res.best_move == Some(#[trigger] moves_of(*board)[j])
                    &&& child_value(*board, depth as int, j) >= res.best_value as int
                })
        }),
        (moves_of(*board).len() == 0 && fetch_model(old(ttable)@, hash_of(*board)) is None) ==> (
        r matches Some(res) ==> (res.best_value as int == side_mul(*board) * bs_spec(
            *board,
            moves_of(*board),
            depth as int,
        ) && res.best_move is None)),
        fetch_model(old(ttable)@, hash_of(*board)) matches Some(e) ==> (e.depth >= depth ==> {
            &&& (e.value matches ValueInfo::Exact(s) ==> (r matches Some(res) && res.best_value
                == s && res.best_move == Some(e.best_move) && final(ttable)@ == old(ttable)@))
            &&& (e.value matches ValueInfo::LowerBound(v) ==> (r matches Some(res) ==> ((moves_of(
                *board,
            ).len() > 0 && v >= beta) ==> (res.best_value == v && res.best_move == Some(
                e.best_move,
            ) && final(ttable)@ == old(ttable)@))))
            &&& (e.value matches ValueInfo::UpperBound(v) ==> (r matches Some(res) ==> ((moves_of(
                *board,
            ).len() > 0 && v <= alpha) ==> (res.best_value == v && res.best_move == Some(
                e.best_move,
            ) && final(ttable)@ == old(ttable)@))))
        }),
{
    let entry = ttable.fetch(board_hash(board));
    let short = match entry {
        Option::Some(e) => ABResult::from_tentry(e, depth),
        Option::None => None,
    };
    match short {
        Option::Some(result) => Some(result),
        Option::None => {
            let moves = generate_moves(board);
            alpha_beta_raw(cancel, ttable, board, &entry, &moves, depth, alpha, beta)
        },
    }
}


/// A principal variation with its score.
pub struct AlphaBetaResult {
    pub line: Vec<ChessMove>,
    pub score: Score,
}

/// A legal line: each move is legal in the position reached by the moves
/// before it.
pub open spec fn line_ok(b: Board, line: Seq<ChessMove>) -> bool
    decreases line.len(),
{
    if line.len() == 0 {
        true
    } else {
        moves_of(b).contains(line[0]) && line_ok(after_of(b, line[0]), line.skip(1))
    }
}

/// The position reached by playing a line out.
pub open spec fn apply_line(b: Board, line: Seq<ChessMove>) -> Board
    decreases line.len(),
{
    if line.len() == 0 {
        b
    } else {
        apply_line(after_of(b, line[0]), line.skip(1))
    }
}

/// Extending a legal line by a move legal at its end keeps it legal.
proof fn lemma_line_snoc(b: Board, line: Seq<ChessMove>, m: ChessMove)
    requires
        line_ok(b, line),
        moves_of(apply_line(b, line)).contains(m),
    ensures
        line_ok(b, line.push(m)),
        apply_line(b, line.push(m)) == after_of(apply_line(b, line), m),
    decreases line.len(),
{
    if line.len() == 0 {
        assert(line.push(m)[0] == m);
        assert(line.push(m).skip(1) =~= Seq::<ChessMove>::empty());
        assert(apply_line(b, line) == b);
        assert(line_ok(after_of(b, m), Seq::<ChessMove>::empty()));
        assert(apply_line(after_of(b, m), Seq::<ChessMove>::empty()) == after_of(b, m));
        assert(apply_line(b, line.push(m)) == after_of(b, m));
    } else {
        assert(line.push(m)[0] == line[0]);
        assert(line.push(m).skip(1) =~= line.skip(1).push(m));
        lemma_line_snoc(after_of(b, line[0]), line.skip(1), m);
        assert(apply_line(b, line.push(m)) == apply_line(after_of(b, line[0]), line.skip(1).push(m)));
        assert(apply_line(b, line) == apply_line(after_of(b, line[0]), line.skip(1)));
    }
}

/// The first legal move matching the coordinates of `target`, if any.
fn find_coord_match(moves: &Vec<ChessMove>, target: &ChessMove) -> (r: Option<usize>)
    ensures
        r matches Some(i) ==> i < moves@.len() && coords_match(moves@[i as int], *target) && (
        forall|j: int| 0 <= j < i as int ==> !coords_match(#[trigger] moves@[j], *target)),
        r is None ==> forall|j: int|
            0 <= j < moves@.len() ==> !coords_match(#[trigger] moves@[j], *target),
{
    let mut i: usize = 0;
    while i < moves.len()
        invariant
            i <= moves@.len(),
            forall|j: int| 0 <= j < i as int ==> !coords_match(#[trigger] moves@[j], *target),
        decreases moves@.len() - i as int,
    {
        if moves_coord_eq(&moves[i], target) {
            return Some(i);
        }
        i = i + 1;
    }
    None
}

/// Rebuild the principal variation behind a search result by walking the
/// transposition table: follow the best move, re-search the remainder with
/// a zero-width window around the score, and stop at the horizon, at a
/// miss, or at a move that is not legal where the walk stands.  Every move
/// pushed is checked legal, so the line is legal from the root, its length
/// never exceeds the depth, and it starts with the first legal move whose
/// coordinates match the result's best move.
pub fn alpha_beta_line(
    cancel: &mut CancelPoll,
    ttable: &mut TTable,
    board: &Board,
    depth: i32,
    result: ABResult,
) -> (r: Option<AlphaBetaResult>)
    requires
        old(cancel).wf(),
        old(ttable).wf(),
        1 <= depth <= 100,
        MIN_SCORE <= result.best_value <= MAX_SCORE,
    ensures
        final(cancel).wf(),
        final(cancel).is_never() == old(cancel).is_never(),
        final(ttable).wf(),
        final(ttable)@.len() == old(ttable)@.len(),
        old(cancel).is_never() ==> r is Some,
        r matches Some(res) ==> {
            &&& res.score == result.best_value
            &&& res.line@.len() <= depth as int
            &&& line_ok(*board, res.line@)
            &&& (result.best_move is None ==> res.line@.len() == 0)
            &&& (result.best_move matches Some(m) ==> ((exists|j: int|
                0 <= j < moves_of(*board).len() && coords_match(
                    #[trigger] moves_of(*board)[j],
                    m,
                )) ==> (res.line@.len() > 0 && exists|j: int|
                {
                    &&& 0 <= j < moves_of(*board).len()
                    &&& coords_match(#[trigger] moves_of(*board)[j], m)
                    &&& (forall|t: int|
                        0 <= t < j ==> !coords_match(#[trigger] moves_of(*board)[t], m))
                    &&& res.line@[0] == moves_of(*board)[j]
                })))
        },
{
    let mut line: Vec<ChessMove> = Vec::new();
    let mut sub_board: Board = *board;
    let mut pending: Option<ChessMove> = result.best_move;
    while pending.is_some()
        invariant
            cancel.wf(),
            cancel.is_never() == old(cancel).is_never(),
            ttable.wf(),
            ttable@.len() == old(ttable)@.len(),
            1 <= depth <= 100,
            MIN_SCORE <= result.best_value <= MAX_SCORE,
            line@.len() <= depth as int,
            pending is Some ==> line@.len() < depth as int,
            line_ok(*board, line@),
            pending is Some ==> sub_board == apply_line(*board, line@),
            (line@.len() == 0 && pending is Some) ==> pending == result.best_move,
            result.best_move is None ==> line@.len() == 0 && pending is None,
            result.best_move matches Some(m) ==> ((line@.len() == 0 && pending is None)
                ==> forall|t: int|
                0 <= t < moves_of(*board).len() ==> !coords_match(
                    #[trigger] moves_of(*board)[t],
                    m,
                )),
            result.best_move matches Some(m) ==> (line@.len() > 0 ==> exists|j: int|
                {
                    &&& 0 <= j < moves_of(*board).len()
                    &&& coords_match(#[trigger] moves_of(*board)[j], m)
                    &&& (forall|t: int|
                        0 <= t < j ==> !coords_match(#[trigger] moves_of(*board)[t], m))
                    &&& line@[0] == moves_of(*board)[j]
                }),
        decreases depth as int - line@.len(), (if pending is Some { 1int } else { 0int }),
    {
        let ghost line_was_empty = line@.len() == 0;
        let cmove = pending.unwrap();
        let legal = generate_moves(&sub_board);
        match find_coord_match(&legal, &cmove) {
            Option::None => {
                pending = None;
            },
            Option::Some(ix) => {
                let vmove = legal[ix];
                proof {
                    assert(legal@.contains(legal@[ix as int]));
                    lemma_line_snoc(*board, line@, vmove);
                }
                let ghost pre_line = line@;
                line.push(vmove);
                proof {
                    if line_was_empty {
                        assert(line@[0] == moves_of(*board)[ix as int]);
                    } else {
                        assert(line@[0] == pre_line[0]);
                    }
                }
                let d_now = line.len();
                if (d_now as i32) < depth {
                    sub_board = apply_move(&sub_board, vmove);
                    let same_side = side_is_white(&sub_board) == side_is_white(board);
                    let window = if same_side {
                        result.best_value
                    } else {
                        -result.best_value
                    };
                    match alpha_beta(cancel, ttable, &sub_board, depth - (d_now as i32), window - 1, window) {
                        Option::None => {
                            return None;
                        },
                        Option::Some(sub) => {
                            pending = sub.best_move;
                        },
                    }
                } else {
                    pending = None;
                }
            },
        }
    }
    Some(AlphaBetaResult { line, score: result.best_value })
}

/// MTD(f): converge on the value of `board` at `depth` by zero-window
/// probes around a sliding guess, letting the transposition table
/// accumulate bounds.  Returns the last probe's result, `None` only when
/// a cancellation was observed.
///
/// With no table buckets and no cancellation, the probes' fail-soft
/// bounds squeeze the window shut on the reference value itself.
pub fn mtdf(
    cancel: &mut CancelPoll,
    ttable: &mut TTable,
    board: &Board,
    depth: i32,
    guess: Score,
) -> (r: Option<ABResult>)
    requires
        old(cancel).wf(),
        old(ttable).wf(),
        1 <= depth <= 100,
        MIN_SCORE <= guess <= MAX_SCORE,
    ensures
        final(cancel).wf(),
        final(cancel).is_never() == old(cancel).is_never(),
        final(ttable).wf(),
        final(ttable)@.len() == old(ttable)@.len(),
        old(cancel).is_never() ==> r is Some,
        (r matches Some(res) ==> MIN_SCORE <= res.best_value <= MAX_SCORE),
        (old(ttable)@.len() == 0 && old(cancel).is_never()) ==> (r matches Some(res)
            && res.best_value as int == negamax(*board, depth as int)),
{
    let ghost hh = old(ttable)@.len() == 0 && old(cancel).is_never();
    let ghost v = negamax(*board, depth as int);
    proof {
        lemma_negamax_bounded(*board, depth as int);
    }
    let mut lower: Score = MIN_SCORE;
    let mut upper: Score = MAX_SCORE;
    let mut g: Score = guess;
    let mut last: Option<ABResult> = None;
    let mut fuel: u32 = 4000004;
    while lower < upper && fuel > 0
        invariant
            cancel.wf(),
            cancel.is_never() == old(cancel).is_never(),
            ttable.wf(),
            ttable@.len() == old(ttable)@.len(),
            1 <= depth <= 100,
            hh ==> (old(ttable)@.len() == 0 && old(cancel).is_never()),
            v == negamax(*board, depth as int),
            MIN_SCORE <= lower <= MAX_SCORE,
            MIN_SCORE <= upper <= MAX_SCORE,
            MIN_SCORE <= g <= MAX_SCORE,
            (lower < upper && fuel == 4000004 && last is None) || last is Some,
            (last matches Some(res) ==> MIN_SCORE <= res.best_value <= MAX_SCORE),
            hh ==> fuel as int >= upper as int - lower as int,
            hh ==> (lower as int <= v <= upper as int),
            hh ==> (g as int <= upper as int),
            hh ==> ((lower == MIN_SCORE && upper == MAX_SCORE) || g == lower || g == upper),
            hh ==> (last matches Some(res) ==> res.best_value == g),
        decreases fuel,
    {
        fuel = fuel - 1;
        let beta: Score = if g > lower + 1 {
            g
        } else {
            lower + 1
        };
        match alpha_beta(cancel, ttable, board, depth, beta - 1, beta) {
            Option::None => {
                return None;
            },
            Option::Some(res) => {
                g = res.best_value;
                proof {
                    if hh {
                        assert(ab_ok(v, g as int, beta as int - 1, beta as int));
                    }
                }
                if g < beta {
                    upper = g;
                } else {
                    lower = g;
                }
                last = Some(res);
            },
        }
    }
    proof {
        if hh {
            assert(lower >= upper);
            assert(last is Some);
            assert(lower as int <= v <= upper as int);
        }
    }
    last
}

/// One emitted analysis update: the best line found, its score, and the
/// completed search depth it came from.
pub struct ISUpdate {
    pub line: Vec<ChessMove>,
    pub score: Score,
    pub depth: i32,
}

#[verifier::external_type_specification]
#[verifier::external_body]
#[verifier::reject_recursive_types(T)]
pub struct ExSender<T>(std::sync::mpsc::Sender<T>);

/// Relies on std::sync::mpsc::Sender::send: it delivers the update to the
/// channel's queue unless the receiver is gone, and reports which of the
/// two happened.
#[verifier::external_body]
fn send_update(tx: &std::sync::mpsc::Sender<ISUpdate>, u: ISUpdate) -> (ok: bool) {
    tx.send(u).is_ok()
}

/// The consumer end of a search: a channel sender together with a ghost
/// log of the depth, score and line of every update handed to it, in order.
pub struct UpdateSink {
    tx: std::sync::mpsc::Sender<ISUpdate>,
    log: Ghost<Seq<(int, int, Seq<ChessMove>)>>,
}

impl UpdateSink {
    /// The (depth, score, line) triples of all updates handed to the
    /// channel so far, in order.
    pub closed spec fn records(self) -> Seq<(int, int, Seq<ChessMove>)> {
        self.log@
    }

    pub fn new(tx: std::sync::mpsc::Sender<ISUpdate>) -> (r: UpdateSink)
        ensures
            r.records() == Seq::<(int, int, Seq<ChessMove>)>::empty(),
    {
        UpdateSink { tx, log: Ghost(Seq::empty()) }
    }

    /// Hand one update to the channel; the log records it whether or not a
    /// receiver was still listening.
    pub fn emit(&mut self, u: ISUpdate) -> (ok: bool)
        ensures
            final(self).records() == old(self).records().push(
                (u.depth as int, u.score as int, u.line@),
            ),
    {
        let d = u.depth;
        let sc = u.score;
        let ghost l = u.line@;
        let ok = send_update(&self.tx, u);
        proof {
            self.log@ = self.log@.push((d as int, sc as int, l));
        }
        ok
    }
}

/// Iterative deepening: search depth 1, 2, ... up to `max_depth`, seeding
/// each depth's MTD(f) run with the previous guess of the same parity,
/// rebuild the principal variation, and emit one update per completed
/// depth.  Stops when cancelled or when the update consumer is gone.
///
/// One call emits updates for the consecutive depths 1, 2, ... — at least
/// one when the poll can never fire and a depth was asked for — and each
/// emitted line is legal from the root and no longer than its depth.  When
/// the table also has no buckets, each score is exactly the reference
/// value of the root at its depth.
pub fn infinite_search(
    ttable: &mut TTable,
    board: &Board,
    max_depth: i32,
    cancel: &mut CancelPoll,
    sink: &mut UpdateSink,
)
    requires
        old(ttable).wf(),
        old(cancel).wf(),
        0 <= max_depth <= 100,
    ensures
        final(ttable).wf(),
        final(ttable)@.len() == old(ttable)@.len(),
        final(cancel).wf(),
        final(cancel).is_never() == old(cancel).is_never(),
        final(sink).records().len() >= old(sink).records().len(),
        forall|a: int|
            0 <= a < old(sink).records().len() ==> final(sink).records()[a] == old(sink).records()[a],
        forall|a: int|
            old(sink).records().len() <= a < final(sink).records().len() ==> (#[trigger] final(sink).records()[a]).0 == a - old(sink).records().len() + 1,
        forall|a: int, b: int|
            old(sink).records().len() <= a < b < final(sink).records().len() ==> (#[trigger] final(sink).records()[a]).0 < (#[trigger] final(sink).records()[b]).0,
        forall|a: int|
            old(sink).records().len() <= a < final(sink).records().len() ==> (1 <= (
            #[trigger] final(sink).records()[a]).0 && final(sink).records()[a].0
                <= max_depth as int),
        forall|a: int|
            old(sink).records().len() <= a < final(sink).records().len() ==> (line_ok(
                *board,
                (#[trigger] final(sink).records()[a]).2,
            ) && final(sink).records()[a].2.len() <= final(sink).records()[a].0),
        (old(cancel).is_never() && max_depth >= 1) ==> final(sink).records().len() > old(
            sink,
        ).records().len(),
        (old(ttable)@.len() == 0 && old(cancel).is_never()) ==> forall|a: int|
            old(sink).records().len() <= a < final(sink).records().len() ==> (#[trigger] final(sink).records()[a]).1 == negamax(*board, final(sink).records()[a].0),
{
    let ghost hh = old(ttable)@.len() == 0 && old(cancel).is_never();
    let ghost len0 = old(sink).records().len() as int;
    let mut guess_even: Score = 0;
    let mut guess_odd: Score = 0;
    let mut depth: i32 = 1;
    while depth <= max_depth
        invariant
            ttable.wf(),
            ttable@.len() == old(ttable)@.len(),
            cancel.wf(),
            0 <= max_depth <= 100,
            1 <= depth <= max_depth + 1,
            MIN_SCORE <= guess_even <= MAX_SCORE,
            MIN_SCORE <= guess_odd <= MAX_SCORE,
            len0 == old(sink).records().len() as int,
            hh == (old(ttable)@.len() == 0 && old(cancel).is_never()),
            hh ==> ttable@.len() == 0,
            cancel.is_never() == old(cancel).is_never(),
            sink.records().len() >= len0,
            forall|a: int| 0 <= a < len0 ==> sink.records()[a] == old(sink).records()[a],
            sink.records().len() as int - len0 == depth as int - 1,
            forall|a: int|
                len0 <= a < sink.records().len() ==> (#[trigger] sink.records()[a]).0 == a - len0
                    + 1,
            forall|a: int|
                len0 <= a < sink.records().len() ==> (1 <= (#[trigger] sink.records()[a]).0
                    && sink.records()[a].0 <= max_depth as int),
            forall|a: int|
                len0 <= a < sink.records().len() ==> (line_ok(
                    *board,
                    (#[trigger] sink.records()[a]).2,
                ) && sink.records()[a].2.len() <= sink.records()[a].0),
            hh ==> forall|a: int|
                len0 <= a < sink.records().len() ==> (#[trigger] sink.records()[a]).1 == negamax(
                    *board,
                    sink.records()[a].0,
                ),
        decreases max_depth - depth + 1,
    {
        let odd = (depth as u32) % 2 == 1;
        let g = if odd {
            guess_odd
        } else {
            guess_even
        };
        match mtdf(cancel, ttable, board, depth, g) {
            Option::None => {
                return;
            },
            Option::Some(result) => {
                let bv = result.best_value;
                if odd {
                    guess_odd = bv;
                } else {
                    guess_even = bv;
                }
                let mut nc = CancelPoll::never();
                match alpha_beta_line(&mut nc, ttable, board, depth, result) {
                    Option::None => {
                        return;
                    },
                    Option::Some(ab) => {
                        let ok = sink.emit(ISUpdate { line: ab.line, score: ab.score, depth });
                        if !ok {
                            return;
                        }
                    },
                }
            },
        }
        depth = depth + 1;
    }
}

} // verus!


