use std::time::Instant;

use myopic::base::bitboard::BitBoard;
use myopic::base::pieces::{Class, Piece};
use myopic::base::square::Square::{B1, C3, E2, E4, G1, F3};
use myopic::base::types::Side;
use myopic::brain::moves::Move;
use myopic::brain::search::interactive::{CommandAction, InteractiveSearch, SearchCommand};
use myopic::brain::search::moves::{order_moves, reposition_last, sort_by_score_stable};
use myopic::brain::search::negascout::{
    check_depth, needs_break_check, table_lookup as brain_table_lookup, ScoutLoop as BrainLoop,
    SearchContext, SearchResponse as BrainResponse,
};
use myopic::brain::search::quiescent::{
    after_reply, categorise, skip_move, sort_by_score, stand_pat, MoveCategory, StandPat,
};
use myopic::hyperopic::search::{best_move_response, should_deepen};
use myopic::brain::search::transpositions::{TranspositionTable, TreeNode as BrainNode};
use myopic::hyperopic::search::debug::{DebugLookup, DebugTranspositions};
use myopic::hyperopic::search::moves::{PositionBoards, SearchMove};
use myopic::hyperopic::search::negascout::{
    reposition_first, scout_reduction, scout_table_lookup, should_try_null_move_pruning,
    Context as ScoutContext, ScoutLoop, ScoutStep, SearchResponse as ScoutResponse,
};
use myopic::hyperopic::search::search::{
    finish, reduction, table_lookup, Context, LoopStep, MoveLoop, NodeOutcome, SearchResponse,
    TableLookup,
};
use myopic::hyperopic::search::table::{
    NodeType, TableEntry, Transpositions as TableTranspositions, TranspositionsImpl as Table,
};
use myopic::hyperopic::search::transpositions::{
    Transpositions, TranspositionsImpl, TreeNode,
};

fn e4() -> Move {
    Move::Standard { moving: Piece(Side::W, Class::P), from: E2, dest: E4, capture: None }
}

fn nc3() -> Move {
    Move::Standard { moving: Piece(Side::W, Class::N), from: B1, dest: C3, capture: None }
}

fn nf3() -> Move {
    Move::Standard { moving: Piece(Side::W, Class::N), from: G1, dest: F3, capture: None }
}

fn ctx(alpha: i32, beta: i32, depth: u8) -> Context {
    Context {
        start: Instant::now(),
        root_index: 0,
        alpha,
        beta,
        depth,
        precursors: vec![],
        known_raise_alpha: None,
    }
}

#[test]
fn context_next_reduces_depth() {
    let c = ctx(-10, 10, 3);
    let n = c.next(-10, 10, &e4(), 5);
    assert_eq!(0, n.depth);
    assert_eq!(vec![e4()], n.precursors);
    let n2 = n.next(1, 2, &nc3(), 1);
    assert_eq!(0, n2.depth);
    assert_eq!(vec![e4(), nc3()], n2.precursors);
    let s = ScoutContext { start: Instant::now(), alpha: 0, beta: 5, depth: 4, precursors: vec![] };
    let s2 = s.next_level(-5, 0, &nf3(), 1);
    assert_eq!(3, s2.depth);
    assert_eq!((-5, 0), (s2.alpha, s2.beta));
}

#[test]
fn table_lookup_decisions() {
    let c = ctx(-50, 50, 3);
    assert!(matches!(table_lookup(None, false, true, &c), TableLookup::Miss));
    let pv = TableEntry {
        root_index: 0,
        key: 7,
        depth: 4,
        eval: 80,
        node_type: NodeType::Pv(vec![e4(), nc3()]),
    };
    match table_lookup(Some(pv.clone()), false, true, &c) {
        TableLookup::Hit(r) => {
            assert_eq!(50, r.eval);
            assert_eq!(vec![e4(), nc3()], r.path);
        }
        _ => panic!("expected a hit"),
    }
    assert!(matches!(table_lookup(Some(pv.clone()), true, true, &c), TableLookup::Suggestion(_)));
    let shallow = TableEntry { depth: 2, ..pv };
    assert!(matches!(table_lookup(Some(shallow), false, true, &c), TableLookup::Suggestion(_)));
    let cut = TableEntry { root_index: 0, key: 7, depth: 3, eval: 60, node_type: NodeType::Cut(e4()) };
    match table_lookup(Some(cut), false, true, &c) {
        TableLookup::Hit(r) => assert_eq!(50, r.eval),
        _ => panic!("expected a hit"),
    }
    let all = TableEntry { root_index: 0, key: 7, depth: 3, eval: -60, node_type: NodeType::All(e4()) };
    match table_lookup(Some(all.clone()), false, false, &c) {
        TableLookup::Suggestion(NodeType::All(m)) => assert_eq!(e4(), m),
        _ => panic!("expected a suggestion"),
    }
    match table_lookup(Some(all), false, true, &c) {
        TableLookup::Hit(r) => assert_eq!(-50, r.eval),
        _ => panic!("expected a hit"),
    }
}

#[test]
fn reductions() {
    assert_eq!(1, reduction(false, 6, false, false, false, 0));
    assert_eq!(2, reduction(false, 6, false, false, false, 3));
    assert_eq!(3, reduction(false, 6, false, false, false, 9));
    assert_eq!(1, reduction(false, 6, false, false, true, 3));
    assert_eq!(2, reduction(false, 6, false, false, true, 9));
    assert_eq!(1, reduction(true, 6, false, false, false, 9));
    assert_eq!(1, reduction(false, 2, false, false, false, 9));
    assert_eq!(1, reduction(false, 6, true, false, false, 9));
    assert_eq!(1, reduction(false, 6, false, true, false, 9));
    assert_eq!(4, scout_reduction(false, 9, false, false, false, false, 7));
    assert_eq!(2, scout_reduction(false, 9, false, false, false, false, 1));
    assert_eq!(1, scout_reduction(false, 9, false, true, false, false, 7));
}

#[test]
fn move_loop_steps() {
    let mut l = MoveLoop::start(-100, 100);
    assert_eq!((-100, 100), l.first_window());
    // A reduced search that improves is searched again.
    assert_eq!(LoopStep::Research, l.on_response(e4(), 2, 10, vec![], true));
    assert!(l.research);
    assert_eq!(0, l.i);
    assert_eq!(LoopStep::Next, l.on_response(e4(), 1, 10, vec![nc3()], true));
    assert_eq!((10, 10, true), (l.score, l.alpha, l.raised_alpha));
    assert_eq!(vec![e4(), nc3()], l.best_path);
    assert_eq!((-11, -10), l.first_window());
    assert!(l.needs_full_search(20));
    assert_eq!(LoopStep::Cutoff, l.on_response(nf3(), 1, 150, vec![], true));
    let mut m = MoveLoop::start(-100, 100);
    assert_eq!(LoopStep::Stop, m.on_response(e4(), 1, 5, vec![], false));
    match finish(m, false, -100) {
        NodeOutcome::Research { alpha, known_raise_alpha } => {
            assert_eq!(-100, alpha);
            assert_eq!(Some(e4()), known_raise_alpha);
        }
        _ => panic!("expected a research"),
    }
    let mut n = MoveLoop::start(0, 100);
    assert_eq!(LoopStep::Next, n.on_response(e4(), 1, -5, vec![], true));
    match finish(n, true, 0) {
        NodeOutcome::Store { node_type, score, eval, path } => {
            assert_eq!(NodeType::All(e4()), node_type);
            assert_eq!((-5, 0), (score, eval));
            assert_eq!(vec![e4()], path);
        }
        _ => panic!("expected a store"),
    }
}

#[test]
fn scout_decisions() {
    let c = ScoutContext { start: Instant::now(), alpha: -20, beta: 20, depth: 3, precursors: vec![] };
    let node = TreeNode::All { hash: 9, depth: 5, eval: -30, best_move: nc3() };
    let (hit, mv) = scout_table_lookup(Some(node), false, true, &c);
    assert_eq!(-30, hit.expect("expected a hit").eval);
    assert_eq!(Some(nc3()), mv);
    let pv = TreeNode::Pv { hash: 9, depth: 1, eval: 3, best_path: vec![e4()] };
    let (hit, mv) = scout_table_lookup(Some(pv), false, true, &c);
    assert!(hit.is_none());
    assert_eq!(Some(e4()), mv);

    let mut l = ScoutLoop {
        i: 0,
        non_tactical_i: 0,
        research: false,
        result: -500_000,
        best_path: vec![],
        alpha: -20,
        beta: 20,
    };
    assert_eq!(ScoutStep::Research, l.on_response(e4(), false, 2, 0, vec![]));
    assert_eq!(ScoutStep::Next, l.on_response(e4(), false, 1, 0, vec![]));
    assert_eq!((1, 1, 0, 0), (l.i, l.non_tactical_i, l.result, l.alpha));
    assert_eq!(ScoutStep::Cutoff, l.on_response(nc3(), true, 1, 25, vec![]));
    match l.table_node(-20, 3, 9) {
        Some(TreeNode::Pv { best_path, eval, .. }) => {
            assert_eq!(vec![nc3()], best_path);
            assert_eq!(25, eval);
        }
        _ => panic!("expected a pv node"),
    }

    let sm = |m: Move| SearchMove {
        m,
        is_attack: false,
        is_check: false,
        is_promoting: false,
        is_passed_pawn: false,
        is_positional_xray: false,
    };
    let mut mvs = vec![sm(e4()), sm(nc3()), sm(nf3())];
    reposition_first(&mut mvs, &nf3());
    assert_eq!(vec![nf3(), e4(), nc3()], mvs.iter().map(|s| s.m).collect::<Vec<_>>());
    reposition_first(&mut mvs, &Move::Null);
    assert_eq!(vec![nf3(), e4(), nc3()], mvs.iter().map(|s| s.m).collect::<Vec<_>>());
}

#[test]
fn null_move_pruning() {
    let mut pos = PositionBoards {
        piece_boards: [BitBoard::empty(); 12],
        side_boards: [BitBoard::empty(); 2],
        passive_control: BitBoard::empty(),
    };
    pos.piece_boards[0] = BitBoard(0xff00);
    pos.side_boards[0] = BitBoard(0xffff);
    let c = ScoutContext { start: Instant::now(), alpha: 0, beta: 50, depth: 3, precursors: vec![] };
    assert!(should_try_null_move_pruning(&pos, Side::W, false, &c));
    assert!(!should_try_null_move_pruning(&pos, Side::W, true, &c));
    assert!(!should_try_null_move_pruning(&pos, Side::B, false, &c));
    let deep = ScoutContext { start: Instant::now(), alpha: 0, beta: 50, depth: 5, precursors: vec![] };
    assert!(!should_try_null_move_pruning(&pos, Side::W, false, &deep));
}

#[test]
fn transposition_tables() {
    let mut t = TranspositionsImpl::new(10);
    let node = TreeNode::Cut { hash: 23, depth: 2, beta: 5, cutoff_move: e4() };
    t.put(23, node.clone());
    assert_eq!(Some(&node), t.get(23));
    assert_eq!(None, t.get(13));
    assert_eq!(2, node.depth());
    assert!(node.matches(23));
    assert_eq!(&e4(), node.get_move());

    let mut table = Table::new(8);
    table.put(17, 3, 2, 40, NodeType::Cut(e4()));
    assert_eq!(40, table.get(17).unwrap().eval);
    // A much shallower entry from the same root does not replace a deep one.
    table.put(17, 3, 1, 10, NodeType::All(nc3()));
    table.put(25, 3, 0, 10, NodeType::All(nc3()));
    assert_eq!(40, table.get(17).unwrap().eval);
    assert!(table.get(25).is_none());
    // A later root lets it through.
    table.put(25, 5, 0, 10, NodeType::All(nc3()));
    assert_eq!(10, table.get(25).unwrap().eval);

    let mut brain = TranspositionTable::new(4);
    brain.insert(6, BrainNode::All { hash: 6, depth: 1, eval: 0, best_move: e4() });
    assert_eq!(1, brain.get(6).unwrap().depth());
    assert!(brain.get(2).is_none());
}

#[test]
fn interactive_commands() {
    let mut s: InteractiveSearch<u32> = InteractiveSearch::new();
    assert_eq!((10, 30_000, 100_000), (s.max_depth, s.max_time_ms, s.transposition_table_size));
    assert_eq!(CommandAction::Continue, s.step(SearchCommand::Depth(4), None));
    assert_eq!(4, s.max_depth);
    // No root yet: the game clock changes nothing.
    let clock = SearchCommand::GameTime { w_base: 60_000, w_inc: 0, b_base: 600_000, b_inc: 2_000 };
    assert_eq!(CommandAction::Continue, s.step(clock.clone(), None));
    assert_eq!(30_000, s.max_time_ms);
    assert_eq!(CommandAction::Continue, s.step(SearchCommand::Root(7), None));
    assert_eq!(Some(7), s.root);
    s.step(clock.clone(), Some(Side::W));
    assert_eq!(500 + 6_000, s.max_time_ms);
    s.step(clock, Some(Side::B));
    assert_eq!(45_000, s.max_time_ms);
    assert_eq!(CommandAction::Continue, s.step(SearchCommand::Time(1_234), Some(Side::B)));
    assert_eq!(1_234, s.max_time_ms);
    assert_eq!(CommandAction::Continue, s.step(SearchCommand::Infinite, Some(Side::B)));
    assert_eq!((1_000, 1_000_000_000), (s.max_depth, s.max_time_ms));
    assert_eq!(CommandAction::Execute, s.step(SearchCommand::Go, Some(Side::B)));
    assert_eq!(CommandAction::ExecuteThenClose, s.step(SearchCommand::GoOnce, Some(Side::B)));
    assert_eq!(CommandAction::Continue, s.step(SearchCommand::Stop, Some(Side::B)));
    assert_eq!(CommandAction::Close, s.step(SearchCommand::Close, Some(Side::B)));
    assert!(s.should_terminate(2_000_000_000, 0, false));
    assert!(s.should_terminate(0, 1_000, false));
    assert!(s.should_terminate(0, 0, true));
    assert!(!s.should_terminate(0, 0, false));
}

#[test]
fn deepening_decisions() {
    assert!(best_move_response(3, vec![], 2).is_none());
    let r = best_move_response(3, vec![e4(), nc3()], 2).unwrap();
    assert_eq!((3, e4(), 2), (r.eval, r.best_move, r.depth));
    assert!(should_deepen(3));
    assert!(!should_deepen(499_999));
    assert!(!should_deepen(-499_999));
}

#[test]
fn quiescent_decisions() {
    use_quiescent();
}

fn use_quiescent() {
    let values = [1, 3, 3, 5, 9, 1000];
    let capture = Move::Standard {
        moving: Piece(Side::W, Class::N),
        from: C3,
        dest: E4,
        capture: Some(Piece(Side::B, Class::R)),
    };
    assert_eq!(MoveCategory::Other, categorise(&e4(), 0, &values));
    assert_eq!(MoveCategory::BadExchange { see: -2 }, categorise(&capture, -2, &values));
    let good = categorise(&capture, 2, &values);
    assert_eq!(MoveCategory::GoodExchange { see: 2, optimistic_delta: 5 }, good);
    assert_eq!(20002, good.score());
    assert_eq!(MoveCategory::Special, categorise(&Move::Null, 0, &values));

    assert_eq!(StandPat::Cutoff(10), stand_pat(false, 12, 0, 10));
    assert_eq!(StandPat::Search { result: 5, alpha: 5 }, stand_pat(false, 5, 0, 10));
    assert_eq!(StandPat::Search { result: -500_000, alpha: 0 }, stand_pat(true, 50, 0, 10));

    assert!(skip_move(&MoveCategory::BadExchange { see: -1 }, false, 0, 0, 0));
    assert!(!skip_move(&MoveCategory::BadExchange { see: -1 }, true, 0, 0, 0));
    assert!(skip_move(&good, false, -2, 0, 300));
    assert!(!skip_move(&good, false, -1, 0, 300));
    assert!(!skip_move(&good, false, -2, 100, 300));

    assert_eq!((7, 7, false), after_reply(3, 5, 10, 7));
    assert_eq!((11, 11, true), after_reply(3, 5, 10, 11));

    let sorted = sort_by_score(vec![
        (MoveCategory::Other, e4()),
        (good, capture),
        (MoveCategory::BadExchange { see: -3 }, nc3()),
        (MoveCategory::Special, Move::Null),
        (MoveCategory::Other, nf3()),
    ]);
    assert_eq!(
        vec![capture, Move::Null, e4(), nf3(), nc3()],
        sorted.iter().map(|(_, m)| *m).collect::<Vec<_>>()
    );
}

fn brain_ctx(alpha: i32, beta: i32, depth_remaining: usize) -> SearchContext {
    SearchContext { start_time: Instant::now(), alpha, beta, depth_remaining, precursors: vec![] }
}

#[test]
fn brain_context_next_level() {
    let ctx = brain_ctx(-10, 20, 3);
    let next = ctx.next_level(-20, 10, &e4());
    assert_eq!((-20, 10, 2), (next.alpha, next.beta, next.depth_remaining));
    assert_eq!(vec![e4()], next.precursors);
    assert_eq!(ctx.start_time, next.start_time);
}

#[test]
fn brain_response_negation() {
    let r = -BrainResponse { eval: 35, path: vec![e4(), nc3()] };
    assert_eq!(-35, r.eval);
    assert_eq!(vec![e4(), nc3()], r.path);
}

#[test]
fn brain_table_lookups() {
    let ctx = brain_ctx(-10, 20, 3);
    let pv = BrainNode::Pv { hash: 1, depth: 3, eval: 7, optimal_path: vec![e4(), nc3()] };
    assert!(needs_break_check(&Some(pv.clone()), &ctx));
    let (answer, mv) = brain_table_lookup(Some(pv.clone()), true, &ctx);
    let answer = answer.unwrap();
    assert_eq!((7, vec![e4(), nc3()]), (answer.eval, answer.path));
    assert_eq!(Some(e4()), mv);
    let (answer, mv) = brain_table_lookup(Some(pv), false, &ctx);
    assert!(answer.is_none());
    assert_eq!(Some(e4()), mv);

    let shallow = BrainNode::Cut { hash: 1, depth: 2, beta: 50, cutoff_move: nf3() };
    assert!(!needs_break_check(&Some(shallow.clone()), &ctx));
    let (answer, mv) = brain_table_lookup(Some(shallow), true, &ctx);
    assert!(answer.is_none());
    assert_eq!(Some(nf3()), mv);

    let cut = BrainNode::Cut { hash: 1, depth: 4, beta: 20, cutoff_move: nf3() };
    let (answer, _) = brain_table_lookup(Some(cut), true, &ctx);
    assert_eq!(20, answer.unwrap().eval);
    let low_cut = BrainNode::Cut { hash: 1, depth: 4, beta: 19, cutoff_move: nf3() };
    assert!(!needs_break_check(&Some(low_cut), &ctx));

    let all = BrainNode::All { hash: 1, depth: 3, eval: -10, best_move: nc3() };
    let (answer, mv) = brain_table_lookup(Some(all), true, &ctx);
    let answer = answer.unwrap();
    assert_eq!((-10, 0), (answer.eval, answer.path.len()));
    assert_eq!(Some(nc3()), mv);
    let high_all = BrainNode::All { hash: 1, depth: 3, eval: -9, best_move: nc3() };
    assert!(!needs_break_check(&Some(high_all), &ctx));

    let (answer, mv) = brain_table_lookup(None, true, &ctx);
    assert!(answer.is_none() && mv.is_none());
    let empty_pv = BrainNode::Pv { hash: 1, depth: 5, eval: 7, optimal_path: vec![] };
    assert!(!needs_break_check(&Some(empty_pv), &ctx));
}

#[test]
fn brain_scout_loop() {
    let mut state = BrainLoop::start(-10, 20);
    assert_eq!((-20, 10), state.window());
    assert!(!state.needs_full_search(5));
    assert!(state.on_response(e4(), 5, vec![nc3()], 9, 3).is_none());
    assert_eq!((5, 5, 1), (state.result, state.alpha, state.i));
    assert_eq!(vec![e4(), nc3()], state.best_path);
    assert_eq!((-6, -5), state.window());
    assert!(state.needs_full_search(6));
    assert!(!state.needs_full_search(20));
    assert!(state.on_response(nf3(), 3, vec![], 9, 3).is_none());
    assert_eq!((5, 2), (state.result, state.i));
    let cut = state.on_response(nc3(), 25, vec![], 9, 3);
    assert_eq!(Some(BrainNode::Cut { hash: 9, depth: 3, beta: 20, cutoff_move: nc3() }), cut);
}

#[test]
fn brain_scout_finish() {
    let mut state = BrainLoop::start(-10, 20);
    state.on_response(e4(), -15, vec![nc3(), nf3()], 9, 3);
    let (stored, response) = state.finish(-10, 9, 3);
    assert_eq!(Some(BrainNode::All { hash: 9, depth: 3, eval: -15, best_move: nf3() }), stored);
    assert_eq!((-15, vec![e4(), nc3(), nf3()]), (response.eval, response.path));

    let (stored, _) = BrainLoop::start(-10, 20).finish(-10, 9, 3);
    assert!(stored.is_none());

    let mut state = BrainLoop::start(-10, 20);
    state.on_response(e4(), 4, vec![nc3()], 9, 3);
    let (stored, response) = state.finish(-10, 9, 3);
    assert_eq!(
        Some(BrainNode::Pv { hash: 9, depth: 3, eval: 4, optimal_path: vec![e4(), nc3()] }),
        stored
    );
    assert_eq!(4, response.eval);
}

#[test]
fn brain_reposition_last() {
    let mut moves = vec![e4(), nc3(), nf3(), nc3()];
    reposition_last(&mut moves, &nc3());
    assert_eq!(vec![e4(), nf3(), nc3(), nc3()], moves);
    reposition_last(&mut moves, &Move::Null);
    assert_eq!(vec![e4(), nf3(), nc3(), nc3()], moves);
}

#[test]
fn deepening_depth_check() {
    assert!(check_depth(0).is_err());
    assert!(check_depth(1).is_ok());
}

#[test]
fn response_negation() {
    let r = -SearchResponse { eval: -40, path: vec![nf3()] };
    assert_eq!((40, vec![nf3()]), (r.eval, r.path));
    let r = -ScoutResponse { eval: 0, path: vec![] };
    assert_eq!(0, r.eval);
    let r = -(-ScoutResponse { eval: 12, path: vec![e4()] });
    assert_eq!((12, vec![e4()]), (r.eval, r.path));
}

#[test]
fn stable_sort_keeps_ties_in_order() {
    let scored = vec![(5, e4()), (1, nc3()), (5, nf3()), (-2, Move::Null), (1, e4())];
    let sorted = sort_by_score_stable(&scored);
    assert_eq!(vec![(-2, Move::Null), (1, nc3()), (1, e4()), (5, e4()), (5, nf3())], sorted);
}

#[test]
fn move_order_puts_pv_then_table_first() {
    let scored = vec![(10, e4()), (30, nc3()), (20, nf3())];
    assert_eq!(vec![nc3(), nf3(), e4()], order_moves(&scored, None, None));
    assert_eq!(vec![e4(), nc3(), nf3()], order_moves(&scored, Some(e4()), None));
    assert_eq!(vec![nf3(), e4(), nc3()], order_moves(&scored, Some(e4()), Some(nf3())));
    assert_eq!(vec![nc3(), nf3(), e4()], order_moves(&scored, Some(Move::Null), None));
}

#[test]
fn debug_table_catches_collisions() {
    let mut table = DebugTranspositions::new(8);
    let start = "rnbqkbnr/pppppppp/8/8/8/8/PPPPPPPP/RNBQKBNR w KQkq -".to_string();
    let other = "rnbqkbnr/pppppppp/8/8/4P3/8/PPPP1PPP/RNBQKBNR b KQkq e3".to_string();
    assert!(matches!(table.get(17, &start), DebugLookup::Miss));
    table.put(17, start.clone(), 0, 3, 25, NodeType::Cut(e4()));
    match table.get(17, &start) {
        DebugLookup::Hit(e) => assert_eq!((17, 3, 25), (e.key, e.depth, e.eval)),
        _ => panic!("expected a hit"),
    }
    assert!(matches!(table.get(25, &start), DebugLookup::Miss));
    match table.get(17, &other) {
        DebugLookup::Collision(existing, new) => {
            assert_eq!(start, existing);
            assert_eq!(other, new);
        }
        _ => panic!("expected a collision"),
    }
    table.put(25, other.clone(), 1, 1, -5, NodeType::All(nc3()));
    assert!(matches!(table.get(17, &start), DebugLookup::Miss));
    assert!(matches!(table.get(25, &other), DebugLookup::Hit(_)));
}

#[test]
fn table_lookup_inverted_window() {
    // With alpha above beta the principal variation's evaluation is raised
    // to alpha and then lowered to beta.
    let c = ctx(50, -50, 3);
    let pv = TableEntry {
        root_index: 0,
        key: 7,
        depth: 4,
        eval: 0,
        node_type: NodeType::Pv(vec![e4()]),
    };
    match table_lookup(Some(pv), false, true, &c) {
        TableLookup::Hit(r) => assert_eq!(-50, r.eval),
        _ => panic!("expected a hit"),
    }
}

#[test]
fn transposition_insert_then_get() {
    let mut brain = TranspositionTable::new(4);
    brain.insert(5, BrainNode::Cut { hash: 5, depth: 2, beta: 7, cutoff_move: e4() });
    // A node stored under a key that is not its own hash is not found
    // under that key; it is found under its own hash, which shares the slot.
    brain.insert(6, BrainNode::All { hash: 10, depth: 1, eval: 0, best_move: e4() });
    assert!(brain.get(6).is_none());
    assert_eq!(1, brain.get(10).unwrap().depth());
    // A node for a hash of another slot is not found.
    brain.insert(7, BrainNode::All { hash: 8, depth: 1, eval: 0, best_move: e4() });
    assert!(brain.get(7).is_none());
    assert!(brain.get(8).is_none());
    // The slot of key 5 was left alone.
    assert_eq!(2, brain.get(5).unwrap().depth());
    // Replacing the slot of 5 with a node for 9 hides the node for 5.
    brain.insert(9, BrainNode::All { hash: 9, depth: 3, eval: 0, best_move: e4() });
    assert!(brain.get(5).is_none());
    assert_eq!(3, brain.get(9).unwrap().depth());
}
