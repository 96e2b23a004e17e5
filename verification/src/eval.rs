//! Static evaluation: a White-positive score built from material, the
//! piece-square tables, and a mobility/capture term over the side to move's
//! legal moves.  Checkmate and stalemate are scored from the move count.
//!
//! The heuristic part is clipped to `HEUR_CLIP`, which no position a chess
//! board can hold comes near; mate scores carry the remaining depth so that
//! shorter mates score higher.

use vstd::prelude::*;
use chess::Board;
use chess::ChessMove;
use crate::chessio::generate_moves;
use crate::chessio::moves_of;
use crate::chessio::squares_of;
use crate::chessio::occupant_of;
use crate::chessio::src_of;
use crate::chessio::dst_of;
use crate::chessio::white_of;
use crate::chessio::in_check;
use crate::chessio::piece_squares;
use crate::chessio::occupant;
use crate::chessio::move_source;
use crate::chessio::move_dest;
use crate::chessio::side_is_white;
use crate::chessio::checkers_count;
use crate::chessio::PAWN;
use crate::chessio::KNIGHT;
use crate::chessio::BISHOP;
use crate::chessio::ROOK;
use crate::chessio::QUEEN;
use crate::chessio::KING;

verus! {

pub type Score = i32;

pub const WIN_SCORE: Score = 100000;
pub const DRAW_SCORE: Score = 0;

pub const MIN_SCORE: Score = -1000000;
pub const MAX_SCORE: Score = 1000000;

/// The heuristic evaluation is clipped to this magnitude; real boards stay
/// far below it, and it keeps every score well inside `MIN_SCORE..MAX_SCORE`.
pub const HEUR_CLIP: Score = 800000;

pub const PT_PAWNS: [i32; 64] = [
    0, 0, 0, 0, 0, 0, 0, 0,
    50, 50, 50, 50, 50, 50, 50, 50,
    10, 10, 20, 30, 30, 20, 10, 10,
    5, 5, 10, 25, 25, 10, 5, 5,
    0, 0, 0, 20, 20, 0, 0, 0,
    5, -5, -10, 0, 0, -10, -5, 5,
    5, 10, 10, -20, -20, 10, 10, 5,
    0, 0, 0, 0, 0, 0, 0, 0,
];

pub const PT_KNIGHT: [i32; 64] = [
    -50, -40, -30, -30, -30, -30, -40, -50,
    -40, -20, 0, 0, 0, 0, -20, -40,
    -30, 0, 10, 15, 15, 10, 0, -30,
    -30, 5, 15, 20, 20, 15, 5, -30,
    -30, 0, 15, 20, 20, 15, 0, -30,
    -30, 5, 10, 15, 15, 10, 5, -30,
    -40, -20, 0, 5, 5, 0, -20, -40,
    -50, -40, -30, -30, -30, -30, -40, -50,
];

pub const PT_BISHOP: [i32; 64] = [
    -20, -10, -10, -10, -10, -10, -10, -20,
    -10, 0, 0, 0, 0, 0, 0, -10,
    -10, 0, 5, 10, 10, 5, 0, -10,
    -10, 5, 5, 10, 10, 5, 5, -10,
    -10, 0, 10, 10, 10, 10, 0, -10,
    -10, 10, 10, 10, 10, 10, 10, -10,
    -10, 5, 0, 0, 0, 0, 5, -10,
    -20, -10, -10, -10, -10, -10, -10, -20,
];

pub const PT_ROOK: [i32; 64] = [
    0, 0, 0, 0, 0, 0, 0, 0,
    5, 10, 10, 10, 10, 10, 10, 5,
    -5, 0, 0, 0, 0, 0, 0, -5,
    -5, 0, 0, 0, 0, 0, 0, -5,
    -5, 0, 0, 0, 0, 0, 0, -5,
    -5, 0, 0, 0, 0, 0, 0, -5,
    -5, 0, 0, 0, 0, 0, 0, -5,
    0, 0, 0, 5, 5, 0, 0, 0,
];

pub const PT_QUEEN: [i32; 64] = [
    -20, -10, -10, -5, -5, -10, -10, -20,
    -10, 0, 0, 0, 0, 0, 0, -10,
    -10, 0, 5, 5, 5, 5, 0, -10,
    -5, 0, 5, 5, 5, 5, 0, -5,
    0, 0, 5, 5, 5, 5, 0, -5,
    -10, 5, 5, 5, 5, 5, 0, -10,
    -10, 0, 5, 0, 0, 0, 0, -10,
    -20, -10, -10, -5, -5, -10, -10, -20,
];

pub const PT_KING: [i32; 64] = [
    -30, -40, -40, -50, -50, -40, -40, -30,
    -30, -40, -40, -50, -50, -40, -40, -30,
    -30, -40, -40, -50, -50, -40, -40, -30,
    -30, -40, -40, -50, -50, -40, -40, -30,
    -20, -30, -30, -40, -40, -30, -30, -20,
    -10, -20, -20, -20, -20, -20, -20, -10,
    20, 20, 0, 0, 0, 0, 20, 20,
    20, 30, 10, 0, 0, 10, 30, 20,
];

/// The material value of a piece kind.
pub open spec fn piece_val(p: u8) -> int {
    if p == PAWN {
        100
    } else if p == KNIGHT {
        320
    } else if p == BISHOP {
        330
    } else if p == ROOK {
        500
    } else if p == QUEEN {
        900
    } else {
        0
    }
}

pub fn piece_score(piece: u8) -> (r: Score)
    ensures
        r == piece_val(piece),
        0 <= r <= 900,
{
    if piece == PAWN {
        100
    } else if piece == KNIGHT {
        320
    } else if piece == BISHOP {
        330
    } else if piece == ROOK {
        500
    } else if piece == QUEEN {
        900
    } else {
        0
    }
}

/// The piece-square bonus of piece kind `p` at table index `i`.
pub open spec fn pst_val(p: u8, i: int) -> int {
    if 0 <= i < 64 {
        if p == PAWN {
            PT_PAWNS[i] as int
        } else if p == KNIGHT {
            PT_KNIGHT[i] as int
        } else if p == BISHOP {
            PT_BISHOP[i] as int
        } else if p == ROOK {
            PT_ROOK[i] as int
        } else if p == QUEEN {
            PT_QUEEN[i] as int
        } else if p == KING {
            PT_KING[i] as int
        } else {
            0
        }
    } else {
        0
    }
}

fn pst_lookup(p: u8, i: usize) -> (r: i32)
    requires
        p < 6,
        i < 64,
    ensures
        r == pst_val(p, i as int),
{
    if p == PAWN {
        PT_PAWNS[i]
    } else if p == KNIGHT {
        PT_KNIGHT[i]
    } else if p == BISHOP {
        PT_BISHOP[i]
    } else if p == ROOK {
        PT_ROOK[i]
    } else if p == QUEEN {
        PT_QUEEN[i]
    } else {
        PT_KING[i]
    }
}

/// The tables are written from Black's point of view (entry 0 is a8), so a
/// White piece looks its square up mirrored vertically.
pub open spec fn table_index(white: bool, sq: u8) -> int {
    if white {
        8 * (7 - sq as int / 8) + sq as int % 8
    } else {
        sq as int
    }
}

fn table_index_exec(white: bool, sq: u8) -> (r: usize)
    requires
        sq < 64,
    ensures
        r == table_index(white, sq),
        r < 64,
{
    if white {
        8 * (7 - (sq as usize) / 8) + (sq as usize) % 8
    } else {
        sq as usize
    }
}

/// Material of one side: piece counts weighted by piece values, over the
/// first `k` piece kinds.
pub open spec fn material_upto(b: Board, white: bool, k: int) -> int
    decreases k,
{
    if k <= 0 {
        0
    } else {
        material_upto(b, white, k - 1) + squares_of(b, white, (k - 1) as u8).len() * piece_val(
            (k - 1) as u8,
        )
    }
}

pub open spec fn material_of(b: Board, white: bool) -> int {
    material_upto(b, white, 6)
}

/// Piece-square bonus of the pieces of kind `p` on the squares of `sqs`
/// from position `j` on.
pub open spec fn pst_sum_from(p: u8, sqs: Seq<u8>, white: bool, j: int) -> int
    decreases sqs.len() - j,
{
    if j < 0 || j >= sqs.len() {
        0
    } else {
        pst_val(p, table_index(white, sqs[j])) + pst_sum_from(p, sqs, white, j + 1)
    }
}

/// Piece-square bonus of one side over the first `k` piece kinds.
pub open spec fn position_upto(b: Board, white: bool, k: int) -> int
    decreases k,
{
    if k <= 0 {
        0
    } else {
        position_upto(b, white, k - 1) + pst_sum_from(
            (k - 1) as u8,
            squares_of(b, white, (k - 1) as u8),
            white,
            0,
        )
    }
}

pub open spec fn position_of(b: Board, white: bool) -> int {
    position_upto(b, white, 6)
}

pub proof fn lemma_pst_bounded(p: u8, i: int)
    ensures
        -50 <= pst_val(p, i) <= 50,
{
}

fn material_score(board: &Board, white: bool) -> (r: i64)
    ensures
        r == material_of(*board, white),
        0 <= r <= 345600,
{
    let mut total: i64 = 0;
    let mut p: u8 = 0;
    while p < 6
        invariant
            p <= 6,
            total == material_upto(*board, white, p as int),
            0 <= total <= 57600 * p as int,
        decreases 6 - p as int,
    {
        let sqs = piece_squares(board, white, p);
        let n = sqs.len();
        let v = piece_score(p);
        proof {
            assert(n as int * v as int <= 57600) by (nonlinear_arith)
                requires
                    n <= 64,
                    0 <= v <= 900,
            ;
            assert(n as int * v as int >= 0) by (nonlinear_arith)
                requires
                    n <= 64,
                    0 <= v <= 900,
            ;
        }
        total = total + (n as i64) * (v as i64);
        p = p + 1;
    }
    total
}

fn position_score(board: &Board, white: bool) -> (r: i64)
    ensures
        r == position_of(*board, white),
        -19200 <= r <= 19200,
{
    let mut total: i64 = 0;
    let mut p: u8 = 0;
    while p < 6
        invariant
            p <= 6,
            total == position_upto(*board, white, p as int),
            -3200 * p as int <= total <= 3200 * p as int,
        decreases 6 - p as int,
    {
        let sqs = piece_squares(board, white, p);
        let mut inner: i64 = 0;
        let mut j: usize = 0;
        while j < sqs.len()
            invariant
                p < 6,
                j <= sqs@.len(),
                sqs@.len() <= 64,
                forall|i: int| 0 <= i < sqs@.len() ==> sqs@[i] < 64,
                inner + pst_sum_from(p, sqs@, white, j as int) == pst_sum_from(p, sqs@, white, 0),
                -50 * j as int <= inner <= 50 * j as int,
            decreases sqs@.len() - j as int,
        {
            let idx = table_index_exec(white, sqs[j]);
            let v = pst_lookup(p, idx);
            proof {
                lemma_pst_bounded(p, table_index(white, sqs@[j as int]));
            }
            inner = inner + (v as i64);
            j = j + 1;
        }
        total = total + inner;
        p = p + 1;
    }
    total
}

/// The mobility contribution of one move: 1 for a quiet move, and for a
/// capture at least 1 and otherwise a tenth of the value swing.
pub open spec fn mob_term(b: Board, m: ChessMove) -> int {
    match occupant_of(b, src_of(m)) {
        Option::Some(att) => match occupant_of(b, dst_of(m)) {
            Option::Some(vic) => {
                let q = (piece_val(vic.1) - piece_val(att.1)) / 10;
                if q < 1 {
                    1
                } else {
                    q
                }
            },
            Option::None => 1,
        },
        Option::None => 1,
    }
}

pub open spec fn mob_sum_from(b: Board, moves: Seq<ChessMove>, j: int) -> int
    decreases moves.len() - j,
{
    if j < 0 || j >= moves.len() {
        0
    } else {
        mob_term(b, moves[j]) + mob_sum_from(b, moves, j + 1)
    }
}

/// The mobility term, from White's point of view: the side to move's sum,
/// negated when Black is to move.
pub open spec fn mobility_of(b: Board, moves: Seq<ChessMove>) -> int {
    if white_of(b) {
        mob_sum_from(b, moves, 0)
    } else {
        -mob_sum_from(b, moves, 0)
    }
}

fn movability_score(board: &Board, moves: &Vec<ChessMove>) -> (r: i64)
    requires
        moves@.len() <= 4608,
    ensures
        r == mobility_of(*board, moves@),
        -414720 <= r <= 414720,
{
    let mut total: i64 = 0;
    let mut j: usize = 0;
    while j < moves.len()
        invariant
            j <= moves@.len(),
            moves@.len() <= 4608,
            total + mob_sum_from(*board, moves@, j as int) == mob_sum_from(*board, moves@, 0),
            0 <= total <= 90 * j as int,
        decreases moves@.len() - j as int,
    {
        let mv: ChessMove = moves[j];
        let term: i64 = match occupant(board, move_source(&mv)) {
            Option::None => 1,
            Option::Some((_ac, ap)) => match occupant(board, move_dest(&mv)) {
                Option::None => 1,
                Option::Some((_vc, vp)) => {
                    let av = piece_score(ap);
                    let vv = piece_score(vp);
                    if vv > av {
                        let q = ((vv - av) as u32 / 10) as i32;
                        if q < 1 {
                            1
                        } else {
                            q as i64
                        }
                    } else {
                        proof {
                            assert((piece_val(vp) - piece_val(ap)) / 10 < 1);
                        }
                        1
                    }
                },
            },
        };
        proof {
            assert(term == mob_term(*board, moves@[j as int]));
            assert(1 <= term <= 90);
        }
        total = total + term;
        j = j + 1;
    }
    if side_is_white(board) {
        total
    } else {
        -total
    }
}

/// Clip a heuristic value to `HEUR_CLIP`.
pub open spec fn clip(x: int) -> int {
    if x < -800000 {
        -800000
    } else if x > 800000 {
        800000
    } else {
        x
    }
}

/// The heuristic score of an ongoing position: material, piece-square
/// bonus and mobility, White minus Black, clipped.
pub open spec fn heur_of(b: Board, moves: Seq<ChessMove>) -> int {
    clip(
        material_of(b, true) - material_of(b, false) + position_of(b, true) - position_of(b, false)
            + mobility_of(b, moves),
    )
}

/// The fast heuristic: material and piece-square bonus only, clipped.
pub open spec fn fast_heur_of(b: Board) -> int {
    clip(
        material_of(b, true) - material_of(b, false) + position_of(b, true) - position_of(
            b,
            false,
        ),
    )
}

/// The mate score seen from White: the mated side is the side to move.
pub open spec fn mate_score(white: bool, d: int) -> int {
    if white {
        -(100000 + d)
    } else {
        100000 + d
    }
}

/// The full static score, White-positive: mate or draw when there are no
/// legal moves, the heuristic otherwise.
pub open spec fn bs_spec(b: Board, moves: Seq<ChessMove>, d: int) -> int {
    if moves.len() == 0 {
        if in_check(b) {
            mate_score(white_of(b), d)
        } else {
            0
        }
    } else {
        heur_of(b, moves)
    }
}

/// The fast static score: the heuristic, pushed by a mate-sized penalty
/// against the side to move when it stands in check.
pub open spec fn fast_bs_spec(b: Board, d: int) -> int {
    if in_check(b) {
        if white_of(b) {
            fast_heur_of(b) - (100000 + d)
        } else {
            fast_heur_of(b) + (100000 + d)
        }
    } else {
        fast_heur_of(b)
    }
}

pub proof fn lemma_bs_bounded(b: Board, moves: Seq<ChessMove>, d: int)
    requires
        0 <= d <= 100,
    ensures
        -800000 <= bs_spec(b, moves, d) <= 800000,
        -900100 <= fast_bs_spec(b, d) <= 900100,
{
}

fn clip64(x: i64) -> (r: i64)
    ensures
        r == clip(x as int),
        -800000 <= r <= 800000,
{
    if x < -800000 {
        -800000
    } else if x > 800000 {
        800000
    } else {
        x
    }
}

/// The board's status given how many legal moves the side to move has.
#[derive(Debug, Clone, Copy, PartialEq, Eq, Structural)]
pub enum GameStatus {
    Checkmate,
    Stalemate,
    Ongoing,
}

pub open spec fn quick_status_spec(b: Board, num_moves: int) -> GameStatus {
    if num_moves == 0 {
        if in_check(b) {
            GameStatus::Checkmate
        } else {
            GameStatus::Stalemate
        }
    } else {
        GameStatus::Ongoing
    }
}

/// Terminal detection from a precomputed legal-move count.
pub fn quick_status(board: &Board, num_moves: usize) -> (r: GameStatus)
    ensures
        r == quick_status_spec(*board, num_moves as int),
{
    if num_moves == 0 {
        if checkers_count(board) > 0 {
            GameStatus::Checkmate
        } else {
            GameStatus::Stalemate
        }
    } else {
        GameStatus::Ongoing
    }
}

fn heur_core(board: &Board) -> (r: i64)
    ensures
        r == material_of(*board, true) - material_of(*board, false) + position_of(*board, true)
            - position_of(*board, false),
        -400000 <= r <= 400000,
{
    let mw = material_score(board, true);
    let mb = material_score(board, false);
    let pw = position_score(board, true);
    let pb = position_score(board, false);
    mw - mb + pw - pb
}

/// The fast static score of a position: material and piece-square bonus,
/// with a mate-sized push against a side to move that stands in check.
/// It skips move generation and is never authoritative; the search uses it
/// only to order moves and seed aspiration guesses.
pub fn fast_board_score(board: &Board, depth: i32) -> (r: Score)
    requires
        0 <= depth <= 100,
    ensures
        r == fast_bs_spec(*board, depth as int),
{
    let base = clip64(heur_core(board));
    let score: i64 = if checkers_count(board) > 0 {
        if side_is_white(board) {
            base - (100000 + depth as i64)
        } else {
            base + (100000 + depth as i64)
        }
    } else {
        base
    };
    score as Score
}

/// The full static score of a position, White-positive, given its legal
/// moves: checkmate and stalemate when there are none, and otherwise
/// material, piece-square bonus and mobility.
pub fn board_score(board: &Board, moves: &Vec<ChessMove>, depth: i32) -> (r: Score)
    requires
        0 <= depth <= 100,
        moves@.len() <= 4608,
    ensures
        r == bs_spec(*board, moves@, depth as int),
{
    match quick_status(board, moves.len()) {
        GameStatus::Checkmate => {
            if side_is_white(board) {
                -(WIN_SCORE + depth)
            } else {
                WIN_SCORE + depth
            }
        },
        GameStatus::Stalemate => DRAW_SCORE,
        GameStatus::Ongoing => {
            let base = heur_core(board);
            let mob = movability_score(board, moves);
            let total = clip64(base + mob);
            total as Score
        },
    }
}

} // verus!
