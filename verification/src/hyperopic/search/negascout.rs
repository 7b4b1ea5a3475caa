use vstd::prelude::*;

use crate::brain::moves::Move;
use crate::base::bitboard::{bits, lemma_bits_ops, BitBoard};
use crate::base::pieces::{Class, Piece};
use crate::base::types::Side;
use crate::hyperopic::search::moves::{PositionBoards, SearchMove};
use crate::hyperopic::search::transpositions::TreeNode;

verus! {

/// The instant a search started at.
#[verifier::external_type_specification]
#[verifier::external_body]
pub struct ExInstant(std::time::Instant);

/// Provides relevant callstack information for the search to use during
/// the traversal of the tree.
pub struct Context {
    pub start: std::time::Instant,
    pub alpha: i32,
    pub beta: i32,
    pub depth: u8,
    pub precursors: Vec<Move>,
}

/// The depth left after a reduction of `r`, never below zero.
pub open spec fn reduced_depth(depth: u8, r: u8) -> u8 {
    if r < depth {
        (depth - r) as u8
    } else {
        0
    }
}

impl Context {
    /// The context one level down the tree, after the move `mv`, with the
    /// given window and the depth reduced by `r`.
    pub fn next_level(&self, next_alpha: i32, next_beta: i32, mv: &Move, r: u8) -> (c: Context)
        ensures
            c.start == self.start,
            c.alpha == next_alpha,
            c.beta == next_beta,
            c.depth == reduced_depth(self.depth, r),
            c.precursors@ == self.precursors@.push(*mv),
    {
        let mut next_precursors = copy_moves(&self.precursors);
        next_precursors.push(*mv);
        let reduction = if r < self.depth {
            r
        } else {
            self.depth
        };
        Context {
            start: self.start,
            alpha: next_alpha,
            beta: next_beta,
            depth: self.depth - reduction,
            precursors: next_precursors,
        }
    }
}

/// A copy of a line of moves.
pub fn copy_moves(moves: &Vec<Move>) -> (r: Vec<Move>)
    ensures
        r@ == moves@,
{
    let mut v: Vec<Move> = Vec::new();
    let mut i: usize = 0;
    while i < moves.len()
        invariant
            i <= moves@.len(),
            v@ == moves@.subrange(0, i as int),
        decreases moves@.len() - i,
    {
        v.push(moves[i]);
        i = i + 1;
    }
    assert(moves@.subrange(0, moves@.len() as int) =~= moves@);
    v
}

/// The moves with the first one equal to `new_first`, if there is one,
/// moved to the front; the others keep their order.
pub open spec fn repositioned(mvs: Seq<SearchMove>, new_first: Move) -> Seq<SearchMove> {
    if exists|i: int| 0 <= i < mvs.len() && mvs[i].m == new_first {
        let i = choose|i: int|
            0 <= i < mvs.len() && mvs[i].m == new_first && forall|j: int|
                0 <= j < i ==> mvs[j].m != new_first;
        seq![mvs[i]] + mvs.remove(i)
    } else {
        mvs
    }
}

/// Moves the first move equal to `new_first`, if any, to the front.
pub fn reposition_first(dest: &mut Vec<SearchMove>, new_first: &Move)
    ensures
        final(dest)@ == repositioned(old(dest)@, *new_first),
{
    let mut index: usize = 0;
    while index < dest.len()
        invariant
            index <= dest@.len(),
            dest@ == old(dest)@,
            forall|j: int| 0 <= j < index ==> dest@[j].m != *new_first,
        decreases dest@.len() - index,
    {
        if dest[index].m == *new_first {
            let ghost s = dest@;
            let removed = dest.remove(index);
            dest.insert(0, removed);
            proof {
                let i = index as int;
                assert(s[i].m == *new_first);
                let c = choose|c: int|
                    0 <= c < s.len() && s[c].m == *new_first && forall|j: int|
                        0 <= j < c ==> s[j].m != *new_first;
                assert(c == i) by {
                    if c < i {
                        assert(s[c].m != *new_first);
                    }
                    if c > i {
                        assert(s[i].m != *new_first);
                    }
                }
                assert(dest@ =~= seq![s[i]] + s.remove(i));
            }
            return ;
        }
        index = index + 1;
    }
}

/// The evaluation of a position and the line of best play that led to it.
pub struct SearchResponse {
    pub eval: i32,
    pub path: Vec<Move>,
}

/// The response seen from the other side: the evaluation negated, the
/// path kept.
impl std::ops::Neg for SearchResponse {
    type Output = SearchResponse;

    fn neg(self) -> SearchResponse {
        SearchResponse { eval: -self.eval, path: self.path }
    }
}

impl vstd::std_specs::ops::NegSpecImpl for SearchResponse {
    open spec fn obeys_neg_spec() -> bool {
        true
    }

    open spec fn neg_req(self) -> bool {
        self.eval != i32::MIN
    }

    open spec fn neg_spec(self) -> SearchResponse {
        SearchResponse { eval: (-self.eval) as i32, path: self.path }
    }
}

/// The move a stored node suggests trying first.
pub open spec fn node_move(n: TreeNode) -> Option<Move> {
    match n {
        TreeNode::Pv { best_path, .. } => if best_path@.len() > 0 {
            Some(best_path@[0])
        } else {
            None
        },
        TreeNode::Cut { cutoff_move, .. } => Some(cutoff_move),
        TreeNode::All { best_move, .. } => Some(best_move),
    }
}

/// Whether a stored node answers the search: it is deep enough, its move
/// can be played, the position is not repeated, and its bound settles the
/// window.
pub open spec fn node_hits(n: TreeNode, is_repeated: bool, move_legal: bool, alpha: i32, beta: i32, depth: u8) -> bool {
    &&& !is_repeated
    &&& n.depth_of() >= depth
    &&& move_legal
    &&& node_move(n) is Some
    &&& match n {
        TreeNode::Pv { .. } => true,
        TreeNode::Cut { beta: b, .. } => beta <= b,
        TreeNode::All { eval, .. } => eval <= alpha,
    }
}

/// Decides what a stored node, if any, means for the search of a position:
/// the answer, if the node settles it, and the move to try first.
/// `is_repeated` says whether the position repeats one earlier in the game,
/// `move_legal` whether the node's move can be played in the position.
pub fn scout_table_lookup(entry: Option<TreeNode>, is_repeated: bool, move_legal: bool, ctx: &Context) -> (r: (
    Option<SearchResponse>,
    Option<Move>,
))
    ensures
        r.1 == (match entry {
            Some(n) => node_move(n),
            None => None,
        }),
        r.0 is Some <==> (entry matches Some(n) && node_hits(
            n,
            is_repeated,
            move_legal,
            ctx.alpha,
            ctx.beta,
            ctx.depth,
        )),
        r.0 matches Some(resp) ==> entry matches Some(n) && match n {
            TreeNode::Pv { eval, best_path, .. } => resp.eval == eval && resp.path@ == best_path@,
            TreeNode::Cut { .. } => resp.eval == ctx.beta && resp.path@.len() == 0,
            TreeNode::All { eval, .. } => resp.eval == eval && resp.path@.len() == 0,
        },
        r.0 is Some ==> (entry matches Some(n) && n.depth_of() >= ctx.depth && !is_repeated && move_legal),
{
    match entry {
        None => (None, None),
        Some(TreeNode::Pv { depth, eval, best_path, .. }) => {
            let table_move = if best_path.len() > 0 {
                Some(best_path[0])
            } else {
                None
            };
            if !is_repeated && depth >= ctx.depth && table_move.is_some() && move_legal {
                (Some(SearchResponse { eval, path: best_path }), table_move)
            } else {
                (None, table_move)
            }
        },
        Some(TreeNode::Cut { depth, beta, cutoff_move, .. }) => {
            if !is_repeated && depth >= ctx.depth && ctx.beta <= beta && move_legal {
                (Some(SearchResponse { eval: ctx.beta, path: Vec::new() }), Some(cutoff_move))
            } else {
                (None, Some(cutoff_move))
            }
        },
        Some(TreeNode::All { depth, eval, best_move, .. }) => {
            if !is_repeated && depth >= ctx.depth && eval <= ctx.alpha && move_legal {
                (Some(SearchResponse { eval, path: Vec::new() }), Some(best_move))
            } else {
                (None, Some(best_move))
            }
        },
    }
}

/// The depth reduction of a move: one ply, more for the later quiet moves
/// of a node that is searched deep enough and is not on the principal
/// variation, unless this is a research.
pub open spec fn scout_reduction_of(
    research: bool,
    depth: u8,
    in_check: bool,
    in_pvs_node: bool,
    is_pv_node: bool,
    tactical: bool,
    non_tactical_i: int,
) -> int {
    if !research && depth > 2 && !in_check && !in_pvs_node && !is_pv_node && !tactical {
        if non_tactical_i == 0 {
            1
        } else if non_tactical_i <= 6 {
            2
        } else {
            1 + depth / 3
        }
    } else {
        1
    }
}

/// The depth reduction of a move.
pub fn scout_reduction(
    research: bool,
    depth: u8,
    in_check: bool,
    in_pvs_node: bool,
    is_pv_node: bool,
    tactical: bool,
    non_tactical_i: usize,
) -> (r: u8)
    ensures
        r == scout_reduction_of(
            research,
            depth,
            in_check,
            in_pvs_node,
            is_pv_node,
            tactical,
            non_tactical_i as int,
        ),
{
    let mut r: u8 = 1;
    if !research && depth > 2 && !in_check && !in_pvs_node && !is_pv_node && !tactical {
        if non_tactical_i == 0 {
        } else if non_tactical_i <= 6 {
            r = r + 1;
        } else {
            r = r + depth / 3;
        }
    }
    r
}

/// Whether to try pruning with a null move: the search is shallow, beta is
/// low, the side to move is not in check and has enough material that
/// zugzwang is unlikely.
pub open spec fn null_move_pruning(
    depth: u8,
    beta: i32,
    in_check: bool,
    pawns: Set<int>,
    others: Set<int>,
) -> bool {
    depth < 5 && beta < 1000 && !in_check && (pawns.len() > 2 && others.len() > 1 || others.len()
        > 2)
}

/// Whether the search should try a null move in a position where `active`
/// is to move.
pub fn should_try_null_move_pruning(
    pos: &PositionBoards,
    active: Side,
    in_check: bool,
    ctx: &Context,
) -> (r: bool)
    ensures
        r == null_move_pruning(
            ctx.depth,
            ctx.beta,
            in_check,
            bits(pos.piece_boards@[Piece(active, Class::P).idx()].0),
            bits(pos.side_boards@[active.idx()].0).difference(
                bits(pos.piece_boards@[Piece(active, Class::P).idx()].0),
            ),
        ),
{
    if !(ctx.depth < 5 && ctx.beta < 1000 && !in_check) {
        return false;
    }
    let pawns = pos.piece_boards[Piece(active, Class::P).index()];
    let side = match active {
        Side::W => pos.side_boards[0],
        Side::B => pos.side_boards[1],
    };
    let others = BitBoard(side.0 & !pawns.0);
    proof {
        lemma_bits_ops(side.0, pawns.0);
    }
    pawns.size() > 2 && others.size() > 1 || others.size() > 2
}

/// The state of the loop over the moves of a node.
pub struct ScoutLoop {
    pub i: usize,
    pub non_tactical_i: usize,
    pub research: bool,
    pub result: i32,
    pub best_path: Vec<Move>,
    pub alpha: i32,
    pub beta: i32,
}

/// What the loop does after a move was searched.
#[derive(Debug, Copy, Clone, PartialEq, Eq, Structural)]
pub enum ScoutStep {
    /// Search the same move again at full depth.
    Research,
    /// The move refutes the node: store a cut at beta and return beta.
    Cutoff,
    /// Go on with the next move.
    Next,
}

impl ScoutLoop {
    /// Takes in the response to the move `m`, searched with reduction `r`,
    /// from the point of view of this node.
    pub fn on_response(&mut self, m: Move, tactical: bool, r: u8, eval: i32, path: Vec<Move>) -> (step:
        ScoutStep)
        requires
            old(self).i < usize::MAX,
            old(self).non_tactical_i < usize::MAX,
        ensures
            final(self).beta == old(self).beta,
            !old(self).research && r > 1 && eval > old(self).alpha ==> step == ScoutStep::Research
                && final(self).research && final(self).i == old(self).i && final(self).result == old(
                self,
            ).result && final(self).alpha == old(self).alpha && final(self).best_path@ == old(
                self,
            ).best_path@ && final(self).non_tactical_i == old(self).non_tactical_i,
            !(!old(self).research && r > 1 && eval > old(self).alpha) ==> {
                let improved = eval > old(self).result;
                let result = if improved {
                    eval
                } else {
                    old(self).result
                };
                let alpha = if old(self).alpha < result {
                    result
                } else {
                    old(self).alpha
                };
                &&& final(self).result == result
                &&& final(self).alpha == alpha
                &&& final(self).best_path@ == (if improved {
                    seq![m] + path@
                } else {
                    old(self).best_path@
                })
                &&& step == (if alpha >= old(self).beta {
                    ScoutStep::Cutoff
                } else {
                    ScoutStep::Next
                })
                &&& alpha < old(self).beta ==> final(self).i == old(self).i + 1
                    && !final(self).research && final(self).non_tactical_i == old(
                    self,
                ).non_tactical_i + (if tactical {
                    0int
                } else {
                    1int
                })
            },
    {
        if !self.research && r > 1 && eval > self.alpha {
            self.research = true;
            return ScoutStep::Research;
        }
        if eval > self.result {
            self.result = eval;
            let mut p = path;
            p.insert(0, m);
            self.best_path = p;
        }
        if self.alpha < self.result {
            self.alpha = self.result;
        }
        if self.alpha >= self.beta {
            return ScoutStep::Cutoff;
        }
        self.i = self.i + 1;
        self.research = false;
        if !tactical {
            self.non_tactical_i = self.non_tactical_i + 1;
        }
        ScoutStep::Next
    }

    /// The node to store once the moves are searched without a cutoff: an
    /// all node with the best move if alpha was not raised (nothing if no
    /// move was searched), else the principal variation.
    pub fn table_node(&self, start_alpha: i32, depth: u8, key: u64) -> (r: Option<TreeNode>)
        ensures
            self.alpha == start_alpha ==> (if self.best_path@.len() > 0 {
                r == Some(
                    TreeNode::All {
                        depth,
                        eval: self.result,
                        best_move: self.best_path@[0],
                        hash: key,
                    },
                )
            } else {
                r is None
            }),
            self.alpha != start_alpha ==> (r matches Some(TreeNode::Pv { depth: d, eval, best_path, hash }) && d
                == depth && eval == self.result && best_path@ == self.best_path@ && hash == key),
    {
        if self.alpha == start_alpha {
            if self.best_path.len() > 0 {
                Some(
                    TreeNode::All {
                        depth,
                        eval: self.result,
                        best_move: self.best_path[0],
                        hash: key,
                    },
                )
            } else {
                None
            }
        } else {
            Some(
                TreeNode::Pv {
                    depth,
                    eval: self.result,
                    best_path: copy_moves(&self.best_path),
                    hash: key,
                },
            )
        }
    }
}

} // verus!
