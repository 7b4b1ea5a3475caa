use vstd::prelude::*;

use crate::base::types::Side;

verus! {

/// The time limit of an infinite search, in milliseconds.
pub const INFINITE_DURATION_MS: u64 = 1_000_000_000;

/// The depth limit of an infinite search.
pub const INFINITE_DEPTH: usize = 1_000;

/// The default time limit, in milliseconds.
pub const DEFAULT_SEARCH_DURATION_MS: u64 = 30_000;

/// The default depth limit.
pub const DEFAULT_SEARCH_DEPTH: usize = 10;

/// The default number of slots of the transposition table.
pub const DEFAULT_TABLE_SIZE: usize = 100_000;

/// The longest a search computed from the game clock may take, in
/// milliseconds.
pub const MAX_COMPUTED_MOVE_SEARCH_DURATION_MS: usize = 45_000;

/// A command to an interactive search.
#[derive(Debug, Clone, PartialEq)]
pub enum SearchCommand<B> {
    Go,
    GoOnce,
    Stop,
    Close,
    Root(B),
    Infinite,
    Depth(usize),
    Time(usize),
    GameTime { w_base: usize, w_inc: usize, b_base: usize, b_inc: usize },
}

/// What the search loop does after a command.
#[derive(Debug, Copy, Clone, PartialEq, Eq, Structural)]
pub enum CommandAction {
    /// Wait for the next command.
    Continue,
    /// Search the root and send the result, then wait.
    Execute,
    /// Search the root and send the result, then stop.
    ExecuteThenClose,
    /// Stop.
    Close,
}

/// The settings of an interactive search: the position to search from and
/// the limits of the search.
pub struct InteractiveSearch<B> {
    pub root: Option<B>,
    pub max_depth: usize,
    pub max_time_ms: u64,
    pub transposition_table_size: usize,
}

/// The time a move may take from the game clock of the side to move: its
/// increment (at least half a second) and a tenth of its remaining time, at
/// most 45 seconds.
pub open spec fn game_time_ms(active: Side, w_base: usize, w_inc: usize, b_base: usize, b_inc: usize) -> int {
    let inc = if active == Side::W {
        w_inc
    } else {
        b_inc
    };
    let base = if active == Side::W {
        w_base
    } else {
        b_base
    };
    let t = (if inc < 500 {
        500
    } else {
        inc as int
    }) + base / 10;
    if t < MAX_COMPUTED_MOVE_SEARCH_DURATION_MS {
        t
    } else {
        MAX_COMPUTED_MOVE_SEARCH_DURATION_MS as int
    }
}

impl<B> InteractiveSearch<B> {
    /// Settings with no root and the default limits.
    pub fn new() -> (r: InteractiveSearch<B>)
        ensures
            r.root is None,
            r.max_depth == DEFAULT_SEARCH_DEPTH,
            r.max_time_ms == DEFAULT_SEARCH_DURATION_MS,
            r.transposition_table_size == DEFAULT_TABLE_SIZE,
    {
        InteractiveSearch {
            root: None,
            max_depth: DEFAULT_SEARCH_DEPTH,
            max_time_ms: DEFAULT_SEARCH_DURATION_MS,
            transposition_table_size: DEFAULT_TABLE_SIZE,
        }
    }

    /// Limit the time of a search to the given milliseconds.
    pub fn set_max_time(&mut self, time: usize)
        ensures
            final(self).max_time_ms == time,
            final(self).max_depth == old(self).max_depth,
            final(self).root == old(self).root,
            final(self).transposition_table_size == old(self).transposition_table_size,
    {
        self.max_time_ms = time as u64;
    }

    /// Limit the time of a search by the game clock of the side to move of
    /// the root, if there is a root; `active` is that side.
    pub fn set_game_time(
        &mut self,
        active: Option<Side>,
        w_base: usize,
        w_inc: usize,
        b_base: usize,
        b_inc: usize,
    )
        requires
            old(self).root is Some <==> active is Some,
        ensures
            final(self).max_time_ms == (match active {
                Some(s) => game_time_ms(s, w_base, w_inc, b_base, b_inc),
                None => old(self).max_time_ms as int,
            }),
            final(self).max_depth == old(self).max_depth,
            final(self).root == old(self).root,
            final(self).transposition_table_size == old(self).transposition_table_size,
    {
        if let Some(side) = active {
            let inc = match side {
                Side::W => w_inc,
                Side::B => b_inc,
            };
            let base = match side {
                Side::W => w_base,
                Side::B => b_base,
            };
            let bounded_base = if base / 10 < MAX_COMPUTED_MOVE_SEARCH_DURATION_MS {
                base / 10
            } else {
                MAX_COMPUTED_MOVE_SEARCH_DURATION_MS
            };
            let first = if inc < 500 {
                500
            } else if inc < MAX_COMPUTED_MOVE_SEARCH_DURATION_MS {
                inc
            } else {
                MAX_COMPUTED_MOVE_SEARCH_DURATION_MS
            };
            let time = first + bounded_base;
            let capped = if time < MAX_COMPUTED_MOVE_SEARCH_DURATION_MS {
                time
            } else {
                MAX_COMPUTED_MOVE_SEARCH_DURATION_MS
            };
            self.set_max_time(capped);
        }
    }

    /// Takes in a command: updates the settings and says what to do next.
    /// `root_active` is the side to move of the root before the command, if
    /// there is one.
    pub fn step(&mut self, cmd: SearchCommand<B>, root_active: Option<Side>) -> (r: CommandAction)
        requires
            old(self).root is Some <==> root_active is Some,
        ensures
            r == (match cmd {
                SearchCommand::Close => CommandAction::Close,
                SearchCommand::Go => CommandAction::Execute,
                SearchCommand::GoOnce => CommandAction::ExecuteThenClose,
                _ => CommandAction::Continue,
            }),
            final(self).transposition_table_size == old(self).transposition_table_size,
            match cmd {
                SearchCommand::Root(root) => final(self).root == Some(root) && final(self).max_depth
                    == old(self).max_depth && final(self).max_time_ms == old(self).max_time_ms,
                SearchCommand::Depth(d) => final(self).max_depth == d && final(self).max_time_ms
                    == old(self).max_time_ms && final(self).root == old(self).root,
                SearchCommand::Time(t) => final(self).max_time_ms == t && final(self).max_depth
                    == old(self).max_depth && final(self).root == old(self).root,
                SearchCommand::GameTime { w_base, w_inc, b_base, b_inc } => final(self).max_time_ms
                    == (match root_active {
                    Some(s) => game_time_ms(s, w_base, w_inc, b_base, b_inc),
                    None => old(self).max_time_ms as int,
                }) && final(self).max_depth == old(self).max_depth && final(self).root == old(
                    self,
                ).root,
                SearchCommand::Infinite => final(self).max_time_ms == INFINITE_DURATION_MS
                    && final(self).max_depth == INFINITE_DEPTH && final(self).root == old(self).root,
                _ => final(self).max_time_ms == old(self).max_time_ms && final(self).max_depth == old(
                    self,
                ).max_depth && final(self).root == old(self).root,
            },
    {
        match cmd {
            SearchCommand::Close => CommandAction::Close,
            SearchCommand::Stop => CommandAction::Continue,
            SearchCommand::Go => CommandAction::Execute,
            SearchCommand::Root(root) => {
                self.root = Some(root);
                CommandAction::Continue
            },
            SearchCommand::Depth(max_depth) => {
                self.max_depth = max_depth;
                CommandAction::Continue
            },
            SearchCommand::Time(max_time) => {
                self.set_max_time(max_time);
                CommandAction::Continue
            },
            SearchCommand::GameTime { w_base, w_inc, b_base, b_inc } => {
                self.set_game_time(root_active, w_base, w_inc, b_base, b_inc);
                CommandAction::Continue
            },
            SearchCommand::Infinite => {
                self.max_time_ms = INFINITE_DURATION_MS;
                self.max_depth = INFINITE_DEPTH;
                CommandAction::Continue
            },
            SearchCommand::GoOnce => CommandAction::ExecuteThenClose,
        }
    }

    /// Whether a search that has run for `elapsed_ms` milliseconds and
    /// reached `depth` should stop: past the time limit, at the depth limit,
    /// or told to stop.
    pub fn should_terminate(&self, elapsed_ms: u64, depth: usize, stop_received: bool) -> (r: bool)
        ensures
            r == (elapsed_ms > self.max_time_ms || depth >= self.max_depth || stop_received),
    {
        elapsed_ms > self.max_time_ms || depth >= self.max_depth || stop_received
    }
}

} // verus!
