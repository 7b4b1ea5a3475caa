use vstd::prelude::*;

use crate::brain::moves::Move;

verus! {

/// The moves with the first one equal to `new_last`, if there is one, moved
/// to the end; the others keep their order.
pub open spec fn repositioned_last(mvs: Seq<Move>, new_last: Move) -> Seq<Move> {
    if exists|i: int| 0 <= i < mvs.len() && mvs[i] == new_last {
        let i = choose|i: int|
            0 <= i < mvs.len() && mvs[i] == new_last && forall|j: int| 0 <= j < i ==> mvs[j] != new_last;
        mvs.remove(i).push(mvs[i])
    } else {
        mvs
    }
}

/// Moves the first move equal to `new_last`, if any, to the end, where a
/// search that takes the moves from the back tries it first.
pub fn reposition_last(dest: &mut Vec<Move>, new_last: &Move)
    ensures
        final(dest)@ == repositioned_last(old(dest)@, *new_last),
{
    let mut index: usize = 0;
    while index < dest.len()
        invariant
            index <= dest@.len(),
            dest@ == old(dest)@,
            forall|j: int| 0 <= j < index ==> dest@[j] != *new_last,
        decreases dest@.len() - index,
    {
        if dest[index] == *new_last {
            let ghost s = dest@;
            let removed = dest.remove(index);
            dest.push(removed);
            proof {
                let i = index as int;
                assert(s[i] == *new_last);
                let c = choose|c: int|
                    0 <= c < s.len() && s[c] == *new_last && forall|j: int| 0 <= j < c ==> s[j] != *new_last;
                assert(c == i) by {
                    if c < i {
                        assert(s[c] != *new_last);
                    }
                    if c > i {
                        assert(s[i] != *new_last);
                    }
                }
                assert(dest@ =~= s.remove(i).push(s[i]));
            }
            return ;
        }
        index = index + 1;
    }
}

/// Inserts a scored move into moves sorted by score, after every move
/// scored no higher.
pub open spec fn insert_sorted(sorted: Seq<(i32, Move)>, x: (i32, Move)) -> Seq<(i32, Move)>
    decreases sorted.len(),
{
    if sorted.len() == 0 {
        seq![x]
    } else if sorted.last().0 <= x.0 {
        sorted.push(x)
    } else {
        insert_sorted(sorted.drop_last(), x).push(sorted.last())
    }
}

/// The moves sorted by score, lowest first, moves of equal score in their
/// order.
pub open spec fn stable_sorted(s: Seq<(i32, Move)>) -> Seq<(i32, Move)>
    decreases s.len(),
{
    if s.len() == 0 {
        Seq::empty()
    } else {
        insert_sorted(stable_sorted(s.drop_last()), s.last())
    }
}

/// The order in which a node tries its moves: by score, highest first, with
/// the move of the principal variation first and the move from the table
/// next, when they are among the moves.
pub open spec fn ordered_moves(scored: Seq<(i32, Move)>, table_move: Option<Move>, pv_move: Option<Move>) -> Seq<Move> {
    let by_score = stable_sorted(scored).map_values(|x: (i32, Move)| x.1);
    let with_table = match table_move {
        Some(t) => repositioned_last(by_score, t),
        None => by_score,
    };
    let with_pv = match pv_move {
        Some(p) => repositioned_last(with_table, p),
        None => with_table,
    };
    with_pv.reverse()
}

/// Inserting at the position after the last move scored no higher gives
/// the sorted insertion.
proof fn lemma_insert_sorted_at(sorted: Seq<(i32, Move)>, x: (i32, Move), pos: int)
    requires
        0 <= pos <= sorted.len(),
        pos == 0 || sorted[pos - 1].0 <= x.0,
        forall|q: int| pos <= q < sorted.len() ==> #[trigger] sorted[q].0 > x.0,
    ensures
        insert_sorted(sorted, x) == sorted.insert(pos, x),
    decreases sorted.len(),
{
    if sorted.len() == 0 {
        assert(sorted.insert(pos, x) =~= seq![x]);
    } else if pos == sorted.len() {
        assert(sorted.insert(pos, x) =~= sorted.push(x));
    } else {
        assert(sorted[sorted.len() - 1].0 > x.0);
        let d = sorted.drop_last();
        assert forall|q: int| pos <= q < d.len() implies #[trigger] d[q].0 > x.0 by {
            assert(d[q] == sorted[q]);
        }
        if pos > 0 {
            assert(d[pos - 1] == sorted[pos - 1]);
        }
        lemma_insert_sorted_at(d, x, pos);
        assert(sorted.insert(pos, x) =~= d.insert(pos, x).push(sorted.last()));
    }
}

/// Sorts scored moves by score, lowest first, keeping the order of moves of
/// equal score.
pub fn sort_by_score_stable(scored: &Vec<(i32, Move)>) -> (r: Vec<(i32, Move)>)
    ensures
        r@ == stable_sorted(scored@),
{
    let mut r: Vec<(i32, Move)> = Vec::new();
    let mut i: usize = 0;
    while i < scored.len()
        invariant
            i <= scored@.len(),
            r@ == stable_sorted(scored@.take(i as int)),
        decreases scored@.len() - i,
    {
        let x = scored[i];
        let mut pos: usize = r.len();
        while pos > 0 && r[pos - 1].0 > x.0
            invariant
                pos <= r@.len(),
                forall|q: int| pos <= q < r@.len() ==> #[trigger] r@[q].0 > x.0,
            decreases pos,
        {
            pos = pos - 1;
        }
        proof {
            lemma_insert_sorted_at(r@, x, pos as int);
            assert(scored@.take(i as int + 1).drop_last() =~= scored@.take(i as int));
            assert(scored@.take(i as int + 1).last() == x);
        }
        r.insert(pos, x);
        i = i + 1;
    }
    assert(scored@.take(scored@.len() as int) =~= scored@);
    r
}

/// The moves without their scores.
fn moves_of(scored: &Vec<(i32, Move)>) -> (r: Vec<Move>)
    ensures
        r@ == scored@.map_values(|x: (i32, Move)| x.1),
{
    let mut moves: Vec<Move> = Vec::new();
    let mut k: usize = 0;
    while k < scored.len()
        invariant
            k <= scored@.len(),
            moves@ == scored@.take(k as int).map_values(|x: (i32, Move)| x.1),
        decreases scored@.len() - k,
    {
        moves.push(scored[k].1);
        k = k + 1;
        proof {
            assert(scored@.take(k as int).map_values(|x: (i32, Move)| x.1) =~= scored@.take(
                k as int - 1,
            ).map_values(|x: (i32, Move)| x.1).push(scored@[k as int - 1].1));
        }
    }
    assert(scored@.take(scored@.len() as int) =~= scored@);
    moves
}

/// The moves in the reverse order.
fn reversed(moves: &Vec<Move>) -> (r: Vec<Move>)
    ensures
        r@ == moves@.reverse(),
{
    let mut r: Vec<Move> = Vec::new();
    let mut j: usize = moves.len();
    while j > 0
        invariant
            j <= moves@.len(),
            r@ == moves@.subrange(j as int, moves@.len() as int).reverse(),
        decreases j,
    {
        j = j - 1;
        r.push(moves[j]);
        proof {
            assert(moves@.subrange(j as int, moves@.len() as int).reverse() =~= moves@.subrange(
                j as int + 1,
                moves@.len() as int,
            ).reverse().push(moves@[j as int]));
        }
    }
    assert(moves@.subrange(0, moves@.len() as int) =~= moves@);
    r
}

/// The order in which a node tries its moves, given each move with its
/// estimated score: highest score first, the move of the principal
/// variation before all, then the move from the table.
pub fn order_moves(scored: &Vec<(i32, Move)>, table_move: Option<Move>, pv_move: Option<Move>) -> (r: Vec<Move>)
    ensures
        r@ == ordered_moves(scored@, table_move, pv_move),
{
    let sorted = sort_by_score_stable(scored);
    let mut moves = moves_of(&sorted);
    if let Some(t) = table_move {
        reposition_last(&mut moves, &t);
    }
    if let Some(p) = pv_move {
        reposition_last(&mut moves, &p);
    }
    reversed(&moves)
}

} // verus!
