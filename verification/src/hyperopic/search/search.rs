use vstd::prelude::*;

use crate::base::bitboard::{bits, BitBoard};
use crate::base::castlezone::CastleZoneSet;
use crate::base::pieces::{control_set, pawn_moves_set, Class, Piece};
use crate::base::square::{lemma_square_at, lemma_square_idx, Square};
use crate::base::types::{king_line, rook_line, Line, Side};
use crate::brain::eval::INFTY;
use crate::brain::moves::Move;
use crate::hyperopic::search::moves::SearchMove;
use crate::hyperopic::search::negascout::{copy_moves, reduced_depth, reposition_first, repositioned};
use crate::hyperopic::search::table::{NodeType, TableEntry};

verus! {

broadcast use lemma_square_idx, lemma_square_at;

/// Provides relevant callstack information for the search to use during
/// the traversal of the tree.
pub struct Context {
    pub start: std::time::Instant,
    pub root_index: u16,
    pub alpha: i32,
    pub beta: i32,
    pub depth: u8,
    pub precursors: Vec<Move>,
    pub known_raise_alpha: Option<Move>,
}

impl Context {
    /// The context one level down the tree, after the move `m`, with the
    /// given window and the depth reduced by `r`.
    pub fn next(&self, alpha: i32, beta: i32, m: &Move, r: u8) -> (c: Context)
        ensures
            c.start == self.start,
            c.root_index == self.root_index,
            c.alpha == alpha,
            c.beta == beta,
            c.depth == reduced_depth(self.depth, r),
            c.precursors@ == self.precursors@.push(*m),
            c.known_raise_alpha is None,
    {
        let mut next_precursors = copy_moves(&self.precursors);
        next_precursors.push(*m);
        let reduction = if r < self.depth {
            r
        } else {
            self.depth
        };
        Context {
            start: self.start,
            alpha,
            beta,
            depth: self.depth - reduction,
            root_index: self.root_index,
            precursors: next_precursors,
            known_raise_alpha: None,
        }
    }
}

/// The evaluation of a position and the line of best play that led to it.
pub struct SearchResponse {
    pub eval: i32,
    pub path: Vec<Move>,
}

/// The response seen from the other side: the evaluation negated, the
/// path kept.
impl std::ops::Neg for SearchResponse {
    type Output = SearchResponse;

    fn neg(self) -> SearchResponse {
        SearchResponse { eval: -self.eval, path: self.path }
    }
}

impl vstd::std_specs::ops::NegSpecImpl for SearchResponse {
    open spec fn obeys_neg_spec() -> bool {
        true
    }

    open spec fn neg_req(self) -> bool {
        self.eval != i32::MIN
    }

    open spec fn neg_spec(self) -> SearchResponse {
        SearchResponse { eval: (-self.eval) as i32, path: self.path }
    }
}

/// What the table says of a position: nothing, a move to try first, or the
/// answer itself.
pub enum TableLookup {
    Miss,
    Suggestion(NodeType),
    Hit(SearchResponse),
}

/// Whether a stored entry answers the search of a position: the entry is
/// deep enough, its move can be played, the position is not repeated, and
/// its bound settles the window.
pub open spec fn entry_hits(
    e: TableEntry,
    is_repeated: bool,
    move_legal: bool,
    alpha: i32,
    beta: i32,
    depth: u8,
) -> bool {
    &&& !is_repeated
    &&& e.depth >= depth
    &&& move_legal
    &&& match e.node_type {
        NodeType::Pv(path) => path@.len() > 0,
        NodeType::Cut(_) => beta <= e.eval,
        NodeType::All(_) => e.eval <= alpha,
    }
}

/// A table entry answers a search only when it was searched at least as
/// deep as the search asks, the position is not repeated and the entry's
/// move can be played, whatever its node type and bound.
pub proof fn lemma_hit_needs_depth(
    e: TableEntry,
    is_repeated: bool,
    move_legal: bool,
    alpha: i32,
    beta: i32,
    depth: u8,
)
    ensures
        entry_hits(e, is_repeated, move_legal, alpha, beta, depth) ==> e.depth >= depth && !is_repeated
            && move_legal,
{
}

/// The evaluation a hit answers with: for a principal variation the stored
/// evaluation raised to alpha and then lowered to beta (the minimum of beta
/// and the maximum of alpha and the evaluation), beta for a cut, alpha for
/// an all node.
pub open spec fn hit_eval(e: TableEntry, alpha: i32, beta: i32) -> i32 {
    match e.node_type {
        NodeType::Pv(_) => {
            let lower = if alpha < e.eval {
                e.eval
            } else {
                alpha
            };
            if beta < lower {
                beta
            } else {
                lower
            }
        },
        NodeType::Cut(_) => beta,
        NodeType::All(_) => alpha,
    }
}

/// Decides what a table entry, if any, means for the search of a position
/// in the given context. `is_repeated` says whether the position repeats
/// one earlier in the game, `move_legal` whether the entry's move (the head
/// of its path for a principal variation) can be played in the position.
pub fn table_lookup(entry: Option<TableEntry>, is_repeated: bool, move_legal: bool, ctx: &Context) -> (r:
    TableLookup)
    ensures
        entry is None <==> r is Miss,
        r matches TableLookup::Hit(resp) ==> entry matches Some(e) && entry_hits(
            e,
            is_repeated,
            move_legal,
            ctx.alpha,
            ctx.beta,
            ctx.depth,
        ) && resp.eval == hit_eval(e, ctx.alpha, ctx.beta) && resp.path@ == (match e.node_type {
            NodeType::Pv(path) => path@,
            _ => Seq::<Move>::empty(),
        }),
        r matches TableLookup::Suggestion(n) ==> entry matches Some(e) && !entry_hits(
            e,
            is_repeated,
            move_legal,
            ctx.alpha,
            ctx.beta,
            ctx.depth,
        ) && n == e.node_type,
        r is Hit ==> (entry matches Some(e) && e.depth >= ctx.depth && !is_repeated && move_legal),
        (entry matches Some(e) && (e.depth < ctx.depth || is_repeated || !move_legal)) ==> r is Suggestion,
{
    match entry {
        None => TableLookup::Miss,
        Some(existing) => {
            let deep_enough = !is_repeated && existing.depth >= ctx.depth && move_legal;
            match existing.node_type {
                NodeType::Pv(path) => {
                    if deep_enough && path.len() > 0 {
                        let lower = if ctx.alpha < existing.eval {
                            existing.eval
                        } else {
                            ctx.alpha
                        };
                        let adjusted_eval = if ctx.beta < lower {
                            ctx.beta
                        } else {
                            lower
                        };
                        TableLookup::Hit(SearchResponse { eval: adjusted_eval, path })
                    } else {
                        TableLookup::Suggestion(NodeType::Pv(path))
                    }
                },
                NodeType::Cut(m) => {
                    if deep_enough && ctx.beta <= existing.eval {
                        TableLookup::Hit(SearchResponse { eval: ctx.beta, path: Vec::new() })
                    } else {
                        TableLookup::Suggestion(NodeType::Cut(m))
                    }
                },
                NodeType::All(m) => {
                    if deep_enough && existing.eval <= ctx.alpha {
                        TableLookup::Hit(SearchResponse { eval: ctx.alpha, path: Vec::new() })
                    } else {
                        TableLookup::Suggestion(NodeType::All(m))
                    }
                },
            }
        },
    }
}

/// The depth reduction a move is searched with: one ply, more for quiet
/// moves late in the order when the search is deep enough, unless this is
/// a research.
pub open spec fn reduction_of(
    research: bool,
    depth: u8,
    in_check: bool,
    tactical: bool,
    is_pv_node: bool,
    i: int,
) -> int {
    if !research && depth > 2 && !in_check && !tactical {
        if is_pv_node {
            if i > 6 {
                2
            } else {
                1
            }
        } else if i == 0 {
            1
        } else if i <= 6 {
            2
        } else {
            1 + depth / 3
        }
    } else {
        1
    }
}

/// The depth reduction for the `i`th move of a node.
pub fn reduction(
    research: bool,
    depth: u8,
    in_check: bool,
    tactical: bool,
    is_pv_node: bool,
    i: usize,
) -> (r: u8)
    ensures
        r == reduction_of(research, depth, in_check, tactical, is_pv_node, i as int),
        1 <= r,
{
    let mut r: u8 = 1;
    if !research && depth > 2 && !in_check && !tactical {
        if is_pv_node {
            if i > 6 {
                r = r + 1;
            }
        } else {
            if i == 0 {
            } else if i <= 6 {
                r = r + 1;
            } else {
                r = r + depth / 3;
            }
        }
    }
    r
}

/// The state of the loop over the moves of a node.
pub struct MoveLoop {
    /// The index of the move being searched.
    pub i: usize,
    /// Whether the move is searched again at full depth.
    pub research: bool,
    /// The best line found so far, starting with its move.
    pub best_path: Vec<Move>,
    /// Whether some move raised alpha.
    pub raised_alpha: bool,
    /// The best score found so far.
    pub score: i32,
    pub alpha: i32,
    pub beta: i32,
}

/// What the loop does after a move was searched.
#[derive(Debug, Copy, Clone, PartialEq, Eq, Structural)]
pub enum LoopStep {
    /// Search the same move again at full depth.
    Research,
    /// The move refutes the node: store a cut at beta and return beta.
    Cutoff,
    /// Go on with the next move.
    Next,
    /// Stop the loop: the node turned out to be a principal variation node.
    Stop,
}

/// The evaluations stay within the window of the whole search.
pub open spec fn bounded_eval(e: int) -> bool {
    -INFTY <= e <= INFTY
}

impl MoveLoop {
    /// The loop at its start, with the window of the node.
    pub fn start(alpha: i32, beta: i32) -> (r: MoveLoop)
        ensures
            r.i == 0,
            !r.research,
            r.best_path@ == Seq::<Move>::empty(),
            !r.raised_alpha,
            r.score == -INFTY,
            r.alpha == alpha,
            r.beta == beta,
    {
        MoveLoop {
            i: 0,
            research: false,
            best_path: Vec::new(),
            raised_alpha: false,
            score: -INFTY,
            alpha,
            beta,
        }
    }

    /// The window the first search of the current move uses, seen from the
    /// child: the full window until some move raised alpha, then a null
    /// window just above alpha.
    pub fn first_window(&self) -> (r: (i32, i32))
        requires
            bounded_eval(self.alpha as int),
            bounded_eval(self.beta as int),
        ensures
            r == (if self.raised_alpha {
                ((-self.alpha - 1) as i32, (-self.alpha) as i32)
            } else {
                ((-self.beta) as i32, (-self.alpha) as i32)
            }),
    {
        if self.raised_alpha {
            (-self.alpha - 1, -self.alpha)
        } else {
            (-self.beta, -self.alpha)
        }
    }

    /// Whether the evaluation of a null window search shows a better move
    /// that needs a full window search.
    pub fn needs_full_search(&self, null_eval: i32) -> (r: bool)
        ensures
            r == (self.raised_alpha && self.score < null_eval),
    {
        self.raised_alpha && self.score < null_eval
    }

    /// Takes in the response to the move `m`, searched with reduction `r`:
    /// its evaluation and line, both from the point of view of this node.
    pub fn on_response(&mut self, m: Move, r: u8, eval: i32, path: Vec<Move>, is_pv_node: bool) -> (step:
        LoopStep)
        requires
            old(self).i < usize::MAX,
        ensures
            old(self).score < eval && r > 1 ==> step == LoopStep::Research && final(self).research
                && final(self).i == old(self).i && final(self).score == old(self).score
                && final(self).best_path@ == old(self).best_path@ && final(self).alpha == old(
                self,
            ).alpha && final(self).raised_alpha == old(self).raised_alpha,
            !(old(self).score < eval && r > 1) ==> {
                let improved = old(self).score < eval;
                let score = if improved {
                    eval
                } else {
                    old(self).score
                };
                let alpha = if improved && old(self).alpha < eval {
                    eval
                } else {
                    old(self).alpha
                };
                let raised = old(self).raised_alpha || (improved && old(self).alpha < eval);
                &&& final(self).score == score
                &&& final(self).alpha == alpha
                &&& final(self).raised_alpha == raised
                &&& final(self).best_path@ == (if improved {
                    seq![m] + path@
                } else {
                    old(self).best_path@
                })
                &&& step == (if alpha >= old(self).beta {
                    LoopStep::Cutoff
                } else if !is_pv_node && raised {
                    LoopStep::Stop
                } else {
                    LoopStep::Next
                })
                &&& alpha < old(self).beta ==> final(self).i == old(self).i + 1
                    && !final(self).research
            },
            final(self).beta == old(self).beta,
    {
        if self.score < eval {
            if r > 1 {
                self.research = true;
                return LoopStep::Research;
            }
            self.score = eval;
            let mut p = path;
            p.insert(0, m);
            self.best_path = p;
            if self.alpha < self.score {
                self.alpha = self.score;
                self.raised_alpha = true;
            }
        }
        if self.alpha >= self.beta {
            return LoopStep::Cutoff;
        }
        self.i = self.i + 1;
        self.research = false;
        if !is_pv_node && self.raised_alpha {
            return LoopStep::Stop;
        }
        LoopStep::Next
    }
}

/// What a node does once its moves are searched.
pub enum NodeOutcome {
    /// The node is a principal variation node after all: search it again
    /// from the starting alpha, trying first the move that raised alpha.
    Research { alpha: i32, known_raise_alpha: Option<Move> },
    /// Store this node type at the score and answer with alpha and the best
    /// line.
    Store { node_type: NodeType, score: i32, eval: i32, path: Vec<Move> },
}

/// Decides what a node does after its move loop ended without a cutoff.
pub fn finish(state: MoveLoop, is_pv_node: bool, start_alpha: i32) -> (r: NodeOutcome)
    requires
        state.raised_alpha || state.best_path@.len() > 0,
    ensures
        !is_pv_node && state.raised_alpha ==> r == (NodeOutcome::Research {
            alpha: start_alpha,
            known_raise_alpha: if state.best_path@.len() > 0 {
                Some(state.best_path@[0])
            } else {
                None
            },
        }),
        !(!is_pv_node && state.raised_alpha) ==> (r matches NodeOutcome::Store {
            node_type,
            score,
            eval,
            path,
        } && score == state.score && eval == state.alpha && path@ == state.best_path@ && (
        if state.raised_alpha {
            node_type matches NodeType::Pv(p) && p@ == state.best_path@
        } else {
            node_type == NodeType::All(state.best_path@[0])
        })),
{
    if !is_pv_node && state.raised_alpha {
        let known = if state.best_path.len() > 0 {
            Some(state.best_path[0])
        } else {
            None
        };
        return NodeOutcome::Research { alpha: start_alpha, known_raise_alpha: known };
    }
    let node_type = if state.raised_alpha {
        NodeType::Pv(copy_moves(&state.best_path))
    } else {
        NodeType::All(state.best_path[0])
    };
    NodeOutcome::Store {
        node_type,
        score: state.score,
        eval: state.alpha,
        path: state.best_path,
    }
}

/// What the search reads of a position to check that a stored move can be
/// played in it: the piece on each square, the pieces of each side, the
/// castling rights, the square a pawn can be taken on en passant, and the
/// side to move.
#[derive(Debug, Copy, Clone, PartialEq, Eq)]
pub struct PositionView {
    pub piece_locs: [Option<Piece>; 64],
    pub whites: BitBoard,
    pub blacks: BitBoard,
    pub castling_rights: CastleZoneSet,
    pub enpassant: Option<Square>,
    pub active: Side,
}

/// The squares a piece on a square can move to, by the pieces of each side.
pub open spec fn move_targets(p: Piece, from: Square, whites: u64, blacks: u64) -> Set<int> {
    (match p.1 {
        Class::P => pawn_moves_set(p.0, from.idx(), whites, blacks),
        _ => control_set(p, from.idx(), whites | blacks),
    }).difference(bits(
        if p.0 == Side::W {
            whites
        } else {
            blacks
        },
    ))
}

/// Whether a move fits the position well enough to be tried: its pieces
/// stand where it says, its capture is what stands on the target, the
/// piece can move there, the castling right is still held, and the
/// capture en passant is on the square the position allows.
pub open spec fn pseudo_legal(pos: PositionView, m: Move) -> bool {
    match m {
        Move::Null => false,
        Move::Enpassant { capture, .. } => pos.enpassant == Some(capture),
        Move::Castle { corner } => {
            let c = corner.corner_of();
            &&& pos.castling_rights@.contains(corner)
            &&& pos.piece_locs@[rook_line(c).0.idx()] == Some(Piece(pos.active, Class::R))
            &&& pos.piece_locs@[king_line(c).0.idx()] == Some(Piece(pos.active, Class::K))
        },
        Move::Standard { moving, from, dest, capture } => {
            &&& pos.piece_locs@[from.idx()] == Some(moving)
            &&& pos.piece_locs@[dest.idx()] == capture
            &&& move_targets(moving, from, pos.whites.0, pos.blacks.0).contains(dest.idx())
        },
        Move::Promotion { from, dest, capture, .. } => {
            &&& pos.piece_locs@[from.idx()] == Some(Piece(pos.active, Class::P))
            &&& pos.piece_locs@[dest.idx()] == capture
        },
    }
}

/// Whether a move fits the position well enough to be tried.
pub fn is_pseudo_legal(pos: &PositionView, m: &Move) -> (r: bool)
    ensures
        r == pseudo_legal(*pos, *m),
{
    match m {
        Move::Null => false,
        Move::Enpassant { capture, .. } => match pos.enpassant {
            Some(sq) => sq == *capture,
            None => false,
        },
        Move::Castle { corner } => {
            let c = corner.corner();
            let rook = Piece(pos.active, Class::R);
            let king = Piece(pos.active, Class::K);
            pos.castling_rights.contains(*corner) && pos.piece_locs[Line::rook_castling(c).0.index()]
                == Some(rook) && pos.piece_locs[Line::king_castling(c).0.index()] == Some(king)
        },
        Move::Standard { moving, from, dest, capture } => {
            pos.piece_locs[from.index()] == Some(*moving) && pos.piece_locs[dest.index()] == *capture
                && moving.moves(*from, pos.whites, pos.blacks).contains(*dest)
        },
        Move::Promotion { from, dest, capture, .. } => {
            pos.piece_locs[from.index()] == Some(Piece(pos.active, Class::P))
                && pos.piece_locs[dest.index()] == *capture
        },
    }
}

/// The moves with the one to try first of each of the table, the move known
/// to raise alpha and the principal variation, in turn, moved to the front.
pub open spec fn arranged(
    mvs: Seq<SearchMove>,
    table_move: Option<Move>,
    known_raise_alpha: Option<Move>,
    pv_move: Option<Move>,
) -> Seq<SearchMove> {
    let a = match table_move {
        Some(t) => repositioned(mvs, t),
        None => mvs,
    };
    let b = match known_raise_alpha {
        Some(k) => repositioned(a, k),
        None => a,
    };
    match pv_move {
        Some(p) => repositioned(b, p),
        None => b,
    }
}

/// Orders the moves of a node for the search: the move the table suggests
/// to the front, then the move known to raise alpha, then the next move of
/// the principal variation, so that the last of these that is among the
/// moves comes first.
pub fn arrange_moves(
    mvs: &mut Vec<SearchMove>,
    table_move: Option<Move>,
    known_raise_alpha: Option<Move>,
    pv_move: Option<Move>,
)
    ensures
        final(mvs)@ == arranged(old(mvs)@, table_move, known_raise_alpha, pv_move),
{
    if let Some(t) = table_move {
        reposition_first(mvs, &t);
    }
    if let Some(k) = known_raise_alpha {
        reposition_first(mvs, &k);
    }
    if let Some(p) = pv_move {
        reposition_first(mvs, &p);
    }
}

} // verus!
