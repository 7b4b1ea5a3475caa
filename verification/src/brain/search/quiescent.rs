use vstd::prelude::*;

use crate::brain::eval::INFTY;
use crate::brain::moves::Move;

verus! {

/// The depth below which only captures are searched, checks no more.
pub const Q_CHECK_CAP: i32 = -1;

/// The margin by which a capture may fall short of alpha and still be
/// searched.
pub const DELTA_SKIP_MARGIN: i32 = 200;

/// The category of a move in the quiescent search.
#[derive(Debug, Copy, Clone, PartialEq, Eq, Structural)]
pub enum MoveCategory {
    /// A capture with this exchange value at most zero.
    BadExchange { see: i32 },
    /// En passant, promotion or castling.
    Special,
    /// A quiet move.
    Other,
    /// A capture with this positive exchange value, which could win at most
    /// `optimistic_delta`, the value of the captured piece.
    GoodExchange { see: i32, optimistic_delta: i32 },
}

/// The ordering score of a category: good exchanges first, then special
/// moves, then quiet moves, then bad exchanges.
pub open spec fn category_score(c: MoveCategory) -> int {
    match c {
        MoveCategory::BadExchange { see } => see as int,
        MoveCategory::Special => 10000,
        MoveCategory::Other => 5000,
        MoveCategory::GoodExchange { see, .. } => 20000 + see,
    }
}

impl MoveCategory {
    /// The ordering score of the category.
    pub fn score(&self) -> (r: i32)
        requires
            self matches MoveCategory::GoodExchange { see, .. } ==> see <= i32::MAX - 20000,
        ensures
            r == category_score(*self),
    {
        match self {
            MoveCategory::BadExchange { see } => *see,
            MoveCategory::Special => 10000,
            MoveCategory::Other => 5000,
            MoveCategory::GoodExchange { see, .. } => 20000 + *see,
        }
    }
}

/// The category of a move, given the exchange value of a capture and the
/// piece values of the classes P, N, B, R, Q, K.
pub open spec fn category_of(mv: Move, see: i32, values: Seq<i32>) -> MoveCategory {
    match mv {
        Move::Standard { capture, .. } => match capture {
            None => MoveCategory::Other,
            Some(p) => if see <= 0 {
                MoveCategory::BadExchange { see }
            } else {
                MoveCategory::GoodExchange { see, optimistic_delta: values[p.1.idx()] }
            },
        },
        _ => MoveCategory::Special,
    }
}

/// The category of a move; `see` is the static exchange value of the move
/// when it is a capture.
pub fn categorise(mv: &Move, see: i32, values: &[i32; 6]) -> (r: MoveCategory)
    ensures
        r == category_of(*mv, see, values@),
{
    match mv {
        Move::Standard { capture, .. } => match capture {
            None => MoveCategory::Other,
            Some(p) => if see <= 0 {
                MoveCategory::BadExchange { see }
            } else {
                MoveCategory::GoodExchange { see, optimistic_delta: values[p.1.index()] }
            },
        },
        _ => MoveCategory::Special,
    }
}

/// What the quiescent search does before looking at moves.
#[derive(Debug, Copy, Clone, PartialEq, Eq, Structural)]
pub enum StandPat {
    /// The position is already good enough to cut off: answer beta.
    Cutoff(i32),
    /// Search the moves from this result and alpha.
    Search { result: i32, alpha: i32 },
}

/// The stand pat of a position: its static evaluation, unless in check
/// where every move is searched and the position counts as lost until one
/// saves it.
pub fn stand_pat(in_check: bool, static_eval: i32, alpha: i32, beta: i32) -> (r: StandPat)
    ensures
        ({
            let result: i32 = if in_check {
                (-INFTY) as i32
            } else {
                static_eval
            };
            r == if result >= beta {
                StandPat::Cutoff(beta)
            } else {
                StandPat::Search {
                    result,
                    alpha: if alpha < result {
                        result
                    } else {
                        alpha
                    },
                }
            }
        }),
{
    let result = if in_check {
        -INFTY
    } else {
        static_eval
    };
    if result >= beta {
        return StandPat::Cutoff(beta);
    }
    let a = if alpha < result {
        result
    } else {
        alpha
    };
    StandPat::Search { result, alpha: a }
}

/// Whether the search passes over a move: a losing exchange unless in
/// check, or, deep in the search and not in check, a winning exchange that
/// could not bring the result up to alpha.
pub open spec fn skips(c: MoveCategory, in_check: bool, depth: i32, result: i32, alpha: i32) -> bool {
    match c {
        MoveCategory::BadExchange { .. } => !in_check,
        MoveCategory::GoodExchange { optimistic_delta, .. } => !in_check && depth < Q_CHECK_CAP
            && result + optimistic_delta + DELTA_SKIP_MARGIN < alpha,
        _ => false,
    }
}

/// Whether the search passes over a move of the given category.
pub fn skip_move(c: &MoveCategory, in_check: bool, depth: i32, result: i32, alpha: i32) -> (r: bool)
    ensures
        r == skips(*c, in_check, depth, result, alpha),
{
    match c {
        MoveCategory::BadExchange { .. } => !in_check,
        MoveCategory::GoodExchange { optimistic_delta, .. } => {
            !in_check && depth < Q_CHECK_CAP && (result as i64) + (*optimistic_delta as i64)
                + (DELTA_SKIP_MARGIN as i64) < (alpha as i64)
        },
        _ => false,
    }
}

/// Takes in the value of a reply, from this side's point of view: the
/// result and alpha rise to it, and the search cuts off once alpha passes
/// beta.
pub fn after_reply(result: i32, alpha: i32, beta: i32, next: i32) -> (r: (i32, i32, bool))
    ensures
        r.0 == (if result < next {
            next
        } else {
            result
        }),
        r.1 == (if alpha < r.0 {
            r.0
        } else {
            alpha
        }),
        r.2 == (r.1 > beta),
{
    let res = if result < next {
        next
    } else {
        result
    };
    let a = if alpha < res {
        res
    } else {
        alpha
    };
    (res, a, a > beta)
}

/// The moves are ordered by descending category score.
pub open spec fn by_score(s: Seq<(MoveCategory, Move)>) -> bool {
    forall|i: int, j: int| 0 <= i < j < s.len() ==> category_score(s[i].0) >= category_score(s[j].0)
}

/// Every score of the categories fits in `i32`.
pub open spec fn scores_fit(s: Seq<(MoveCategory, Move)>) -> bool {
    forall|i: int|
        0 <= i < s.len() ==> (#[trigger] s[i].0 matches MoveCategory::GoodExchange { see, .. } ==> see
            <= i32::MAX - 20000)
}

/// Orders categorised moves by descending score. Nothing is promised of
/// the order among moves of equal score.
#[verifier::spinoff_prover]
pub fn sort_by_score(moves: Vec<(MoveCategory, Move)>) -> (r: Vec<(MoveCategory, Move)>)
    requires
        scores_fit(moves@),
    ensures
        by_score(r@),
        r@.to_multiset() == moves@.to_multiset(),
{
    let mut sorted: Vec<(MoveCategory, Move)> = Vec::new();
    let mut k: usize = 0;
    proof {
        assert(moves@.subrange(0, 0) =~= Seq::<(MoveCategory, Move)>::empty());
    }
    while k < moves.len()
        invariant
            k <= moves@.len(),
            scores_fit(moves@),
            by_score(sorted@),
            scores_fit(sorted@),
            sorted@.to_multiset() == moves@.subrange(0, k as int).to_multiset(),
        decreases moves@.len() - k,
    {
        let item = moves[k];
        let s = item.0.score();
        let mut pos: usize = 0;
        while pos < sorted.len() && sorted[pos].0.score() >= s
            invariant
                pos <= sorted@.len(),
                by_score(sorted@),
                scores_fit(sorted@),
                s == category_score(item.0),
                forall|i: int| 0 <= i < pos ==> category_score(#[trigger] sorted@[i].0) >= s,
            decreases sorted@.len() - pos,
        {
            pos = pos + 1;
        }
        proof {
            assert(pos < sorted@.len() ==> category_score(sorted@[pos as int].0) < s);
        }
        let ghost before = sorted@;
        sorted.insert(pos, item);
        proof {
            assert(sorted@ =~= before.insert(pos as int, item));
            assert forall|i: int, j: int| 0 <= i < j < sorted@.len() implies category_score(
                sorted@[i].0,
            ) >= category_score(sorted@[j].0) by {
                if i < pos && j == pos {
                } else if i == pos && j > pos {
                    assert(sorted@[j] == before[j - 1]);
                    assert(category_score(before[pos as int].0) < s);
                    if j - 1 > pos {
                        assert(category_score(before[pos as int].0) >= category_score(before[j - 1].0));
                    }
                }
            }
            vstd::seq_lib::to_multiset_insert(before, pos as int, item);
            assert(moves@.subrange(0, k + 1) =~= moves@.subrange(0, k as int).push(item));
            moves@.subrange(0, k as int).to_multiset_ensures();
            assert(sorted@.to_multiset() =~= moves@.subrange(0, k + 1).to_multiset());
            assert forall|i: int| 0 <= i < sorted@.len() implies (#[trigger] sorted@[i].0 matches MoveCategory::GoodExchange {
                see,
                ..
            } ==> see <= i32::MAX - 20000) by {
                if i < pos {
                    assert(sorted@[i] == before[i]);
                } else if i > pos {
                    assert(sorted@[i] == before[i - 1]);
                }
            }
        }
        k = k + 1;
    }
    proof {
        assert(moves@.subrange(0, moves@.len() as int) =~= moves@);
    }
    sorted
}

} // verus!
