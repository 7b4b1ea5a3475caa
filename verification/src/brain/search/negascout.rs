use vstd::prelude::*;

use crate::base::pieces::{control_set, Class, Piece};
use crate::base::square::{lemma_square_at, lemma_square_idx};
use crate::base::types::{king_line, rook_line, Line};
use crate::brain::eval::INFTY;
use crate::brain::moves::Move;
use crate::brain::search::transpositions::TreeNode;
use crate::hyperopic::search::negascout::copy_moves;
use crate::hyperopic::search::search::PositionView;

verus! {

broadcast use lemma_square_idx, lemma_square_at;

/// Provides relevant callstack information for the search to use during
/// the traversal of the tree.
pub struct SearchContext {
    pub start_time: std::time::Instant,
    pub alpha: i32,
    pub beta: i32,
    pub depth_remaining: usize,
    pub precursors: Vec<Move>,
}

impl SearchContext {
    /// The context one level down the tree, after the move `mv`, with the
    /// given window.
    pub fn next_level(&self, next_alpha: i32, next_beta: i32, mv: &Move) -> (c: SearchContext)
        requires
            self.depth_remaining > 0,
        ensures
            c.start_time == self.start_time,
            c.alpha == next_alpha,
            c.beta == next_beta,
            c.depth_remaining == self.depth_remaining - 1,
            c.precursors@ == self.precursors@.push(*mv),
    {
        let mut next_precursors = copy_moves(&self.precursors);
        next_precursors.push(*mv);
        SearchContext {
            start_time: self.start_time,
            alpha: next_alpha,
            beta: next_beta,
            depth_remaining: self.depth_remaining - 1,
            precursors: next_precursors,
        }
    }
}

/// The evaluation of a position and the line of best play that led to it.
pub struct SearchResponse {
    pub eval: i32,
    pub path: Vec<Move>,
}

/// The response seen from the other side: the evaluation negated, the
/// path kept.
impl std::ops::Neg for SearchResponse {
    type Output = SearchResponse;

    fn neg(self) -> SearchResponse {
        SearchResponse { eval: -self.eval, path: self.path }
    }
}

impl vstd::std_specs::ops::NegSpecImpl for SearchResponse {
    open spec fn obeys_neg_spec() -> bool {
        true
    }

    open spec fn neg_req(self) -> bool {
        self.eval != i32::MIN
    }

    open spec fn neg_spec(self) -> SearchResponse {
        SearchResponse { eval: (-self.eval) as i32, path: self.path }
    }
}

/// Whether a move fits the position well enough to trust a stored answer
/// that starts with it: its pieces stand where it says, its capture is
/// what stands on the target, the moving piece controls the target, the
/// castling right is held with the rook and king of the side on their
/// squares, and the capture en passant is on the square the position
/// allows.
pub open spec fn psuedo_legal(pos: PositionView, m: Move) -> bool {
    match m {
        Move::Null => false,
        Move::Enpassant { capture, .. } => pos.enpassant == Some(capture),
        Move::Castle { corner } => {
            let c = corner.corner_of();
            let side = corner.side_of();
            &&& pos.castling_rights@.contains(corner)
            &&& pos.piece_locs@[rook_line(c).0.idx()] == Some(Piece(side, Class::R))
            &&& pos.piece_locs@[king_line(c).0.idx()] == Some(Piece(side, Class::K))
        },
        Move::Standard { moving, from, dest, capture } => {
            &&& pos.piece_locs@[from.idx()] == Some(moving)
            &&& pos.piece_locs@[dest.idx()] == capture
            &&& control_set(moving, from.idx(), pos.whites.0 | pos.blacks.0).contains(dest.idx())
        },
        Move::Promotion { from, dest, capture, .. } => {
            &&& pos.piece_locs@[from.idx()] == Some(Piece(pos.active, Class::P))
            &&& pos.piece_locs@[dest.idx()] == capture
        },
    }
}

/// Whether a move fits the position well enough to trust a stored answer
/// that starts with it.
pub fn is_psuedo_legal(pos: &PositionView, m: &Move) -> (r: bool)
    ensures
        r == psuedo_legal(*pos, *m),
{
    match m {
        Move::Null => false,
        Move::Enpassant { capture, .. } => match pos.enpassant {
            Some(sq) => sq == *capture,
            None => false,
        },
        Move::Castle { corner } => {
            let c = corner.corner();
            let side = corner.side();
            pos.castling_rights.contains(*corner) && pos.piece_locs[Line::rook_castling(c).0.index()]
                == Some(Piece(side, Class::R)) && pos.piece_locs[Line::king_castling(c).0.index()]
                == Some(Piece(side, Class::K))
        },
        Move::Standard { moving, from, dest, capture } => {
            let occupied = crate::base::bitboard::BitBoard(pos.whites.0 | pos.blacks.0);
            pos.piece_locs[from.index()] == Some(*moving) && pos.piece_locs[dest.index()] == *capture
                && moving.control(*from, occupied).contains(*dest)
        },
        Move::Promotion { from, dest, capture, .. } => {
            pos.piece_locs[from.index()] == Some(Piece(pos.active, Class::P))
                && pos.piece_locs[dest.index()] == *capture
        },
    }
}

/// Whether the search may answer from a stored move: the move fits the
/// position and playing it does not end the game, as `causes_termination`
/// says.
pub fn can_break_early(pos: &PositionView, m: &Move, causes_termination: bool) -> (r: bool)
    ensures
        r == (psuedo_legal(*pos, *m) && !causes_termination),
{
    is_psuedo_legal(pos, m) && !causes_termination
}

/// The move a stored node suggests trying first.
pub open spec fn table_move_of(n: TreeNode) -> Option<Move> {
    match n {
        TreeNode::Pv { optimal_path, .. } => if optimal_path@.len() > 0 {
            Some(optimal_path@[0])
        } else {
            None
        },
        TreeNode::Cut { cutoff_move, .. } => Some(cutoff_move),
        TreeNode::All { best_move, .. } => Some(best_move),
    }
}

/// Whether a stored node settles the search if its move can break early:
/// it is deep enough, has a move, and its bound settles the window.
pub open spec fn node_settles(n: TreeNode, alpha: i32, beta: i32, depth_remaining: usize) -> bool {
    &&& n.depth_of() >= depth_remaining
    &&& table_move_of(n) is Some
    &&& match n {
        TreeNode::Pv { .. } => true,
        TreeNode::Cut { beta: b, .. } => beta <= b,
        TreeNode::All { eval, .. } => eval <= alpha,
    }
}

/// Whether the stored node, if any, would settle the search, so that the
/// search must ask whether its move can break early.
pub fn needs_break_check(entry: &Option<TreeNode>, ctx: &SearchContext) -> (r: bool)
    ensures
        r == (*entry matches Some(n) && node_settles(n, ctx.alpha, ctx.beta, ctx.depth_remaining)),
{
    match entry {
        None => false,
        Some(TreeNode::Pv { depth, optimal_path, .. }) => (*depth as usize) >= ctx.depth_remaining
            && optimal_path.len() > 0,
        Some(TreeNode::Cut { depth, beta, .. }) => (*depth as usize) >= ctx.depth_remaining
            && ctx.beta <= *beta,
        Some(TreeNode::All { depth, eval, .. }) => (*depth as usize) >= ctx.depth_remaining && *eval
            <= ctx.alpha,
    }
}

/// Decides what a stored node, if any, means for the search of a position:
/// the answer, if the node settles the window and its move can break
/// early, and the move to try first.
pub fn table_lookup(entry: Option<TreeNode>, can_break: bool, ctx: &SearchContext) -> (r: (
    Option<SearchResponse>,
    Option<Move>,
))
    ensures
        r.1 == (match entry {
            Some(n) => table_move_of(n),
            None => None,
        }),
        r.0 is Some <==> (entry matches Some(n) && node_settles(
            n,
            ctx.alpha,
            ctx.beta,
            ctx.depth_remaining,
        ) && can_break),
        r.0 matches Some(resp) ==> entry matches Some(n) && match n {
            TreeNode::Pv { eval, optimal_path, .. } => resp.eval == eval && resp.path@ == optimal_path@,
            TreeNode::Cut { .. } => resp.eval == ctx.beta && resp.path@.len() == 0,
            TreeNode::All { eval, .. } => resp.eval == eval && resp.path@.len() == 0,
        },
        r.0 is Some ==> (entry matches Some(n) && n.depth_of() >= ctx.depth_remaining && can_break),
{
    match entry {
        None => (None, None),
        Some(TreeNode::Pv { depth, eval, optimal_path, .. }) => {
            let table_move = if optimal_path.len() > 0 {
                Some(optimal_path[0])
            } else {
                None
            };
            if (depth as usize) >= ctx.depth_remaining && table_move.is_some() && can_break {
                (Some(SearchResponse { eval, path: optimal_path }), table_move)
            } else {
                (None, table_move)
            }
        },
        Some(TreeNode::Cut { depth, beta, cutoff_move, .. }) => {
            if (depth as usize) >= ctx.depth_remaining && ctx.beta <= beta && can_break {
                (Some(SearchResponse { eval: ctx.beta, path: Vec::new() }), Some(cutoff_move))
            } else {
                (None, Some(cutoff_move))
            }
        },
        Some(TreeNode::All { depth, eval, best_move, .. }) => {
            if (depth as usize) >= ctx.depth_remaining && eval <= ctx.alpha && can_break {
                (Some(SearchResponse { eval, path: Vec::new() }), Some(best_move))
            } else {
                (None, Some(best_move))
            }
        },
    }
}

/// Evaluations that negate and shift by one without overflow.
pub open spec fn in_window(e: int) -> bool {
    -INFTY <= e <= INFTY
}

/// The state of the loop over the moves of a node.
pub struct ScoutLoop {
    /// The number of moves searched.
    pub i: usize,
    /// The best evaluation found.
    pub result: i32,
    /// The line of the best move.
    pub best_path: Vec<Move>,
    pub alpha: i32,
    pub beta: i32,
}

impl ScoutLoop {
    /// The loop before the first move, with the window of the node.
    pub fn start(alpha: i32, beta: i32) -> (r: ScoutLoop)
        ensures
            r.i == 0,
            r.result == -INFTY,
            r.best_path@.len() == 0,
            r.alpha == alpha,
            r.beta == beta,
    {
        ScoutLoop { i: 0, result: -INFTY, best_path: Vec::new(), alpha, beta }
    }

    /// The window to search the next move with, from the point of view of
    /// the child: the full window for the first move, the null window just
    /// above alpha for the others.
    pub fn window(&self) -> (r: (i32, i32))
        requires
            in_window(self.alpha as int),
            in_window(self.beta as int),
        ensures
            self.i == 0 ==> r.0 == -self.beta && r.1 == -self.alpha,
            self.i > 0 ==> r.0 == -self.alpha - 1 && r.1 == -self.alpha,
    {
        if self.i == 0 {
            (-self.beta, -self.alpha)
        } else {
            (-self.alpha - 1, -self.alpha)
        }
    }

    /// Whether a move searched with the null window raised alpha without
    /// reaching beta, and so must be searched again with the full window.
    pub fn needs_full_search(&self, eval: i32) -> (r: bool)
        ensures
            r == (self.i > 0 && self.alpha < eval && eval < self.beta),
    {
        self.i > 0 && self.alpha < eval && eval < self.beta
    }

    /// Takes in the response to the move `m` of this node, from the point of
    /// view of this node; returns the cut node to store when the move
    /// refutes the node, whose answer is then beta.
    pub fn on_response(&mut self, m: Move, eval: i32, path: Vec<Move>, hash: u64, depth_remaining: usize) -> (cut: Option<TreeNode>)
        requires
            old(self).i < usize::MAX,
        ensures
            final(self).beta == old(self).beta,
            final(self).result == (if eval > old(self).result {
                eval
            } else {
                old(self).result
            }),
            final(self).best_path@ == (if eval > old(self).result {
                seq![m] + path@
            } else {
                old(self).best_path@
            }),
            final(self).alpha == (if old(self).alpha < final(self).result {
                final(self).result
            } else {
                old(self).alpha
            }),
            final(self).alpha >= old(self).beta ==> cut == Some(
                TreeNode::Cut { hash, depth: depth_remaining as u8, beta: old(self).beta, cutoff_move: m },
            ),
            final(self).alpha < old(self).beta ==> cut is None && final(self).i == old(self).i + 1,
    {
        if eval > self.result {
            self.result = eval;
            let mut p = path;
            p.insert(0, m);
            self.best_path = p;
        }
        if self.alpha < self.result {
            self.alpha = self.result;
        }
        if self.alpha >= self.beta {
            return Some(TreeNode::Cut { hash, depth: depth_remaining as u8, beta: self.beta, cutoff_move: m });
        }
        self.i = self.i + 1;
        None
    }

    /// The node to store once every move was searched, and the answer: an
    /// all node with the last move of the best line when alpha never rose
    /// (nothing when there was no move), else the principal variation.
    pub fn finish(self, start_alpha: i32, hash: u64, depth_remaining: usize) -> (r: (Option<TreeNode>, SearchResponse))
        ensures
            r.1.eval == self.result,
            r.1.path@ == self.best_path@,
            self.alpha == start_alpha && self.best_path@.len() > 0 ==> r.0 == Some(TreeNode::All {
                hash,
                depth: depth_remaining as u8,
                eval: self.result,
                best_move: self.best_path@.last(),
            }),
            self.alpha == start_alpha && self.best_path@.len() == 0 ==> r.0 is None,
            self.alpha != start_alpha ==> (r.0 matches Some(TreeNode::Pv { hash: h, depth: d, eval: e, optimal_path: p })
                && h == hash && d == depth_remaining as u8 && e == self.result && p@ == self.best_path@),
    {
        let stored = if self.alpha == start_alpha {
            if self.best_path.len() > 0 {
                let last = self.best_path[self.best_path.len() - 1];
                Some(TreeNode::All { hash, depth: depth_remaining as u8, eval: self.result, best_move: last })
            } else {
                None
            }
        } else {
            Some(TreeNode::Pv {
                hash,
                depth: depth_remaining as u8,
                eval: self.result,
                optimal_path: copy_moves(&self.best_path),
            })
        };
        (stored, SearchResponse { eval: self.result, path: self.best_path })
    }
}

/// The first answer of an iterative deepening step: an error for a depth
/// of zero, which cannot be deepened.
pub fn check_depth(depth: u8) -> (r: Result<(), String>)
    ensures
        r is Ok <==> depth >= 1,
{
    if depth < 1 {
        Err("Cannot iteratively deepen with depth 0".to_owned())
    } else {
        Ok(())
    }
}

} // verus!
