use vstd::prelude::*;

verus! {

/// The map that a list of (id, count) entries stands for: later entries
/// win, which never matters when no id occurs twice.
pub open spec fn entries_map(s: Seq<(String, i32)>) -> Map<Seq<char>, i32>
    decreases s.len(),
{
    if s.len() == 0 {
        Map::empty()
    } else {
        entries_map(s.drop_last()).insert(s.last().0@, s.last().1)
    }
}

/// No id occurs twice among the entries.
pub open spec fn distinct_ids(s: Seq<(String, i32)>) -> bool {
    forall|i: int, j: int| 0 <= i < j < s.len() ==> (#[trigger] s[i]).0@ != (#[trigger] s[j]).0@
}

/// The map holds the count of each entry.
proof fn lemma_entries_index(s: Seq<(String, i32)>, k: int)
    requires
        distinct_ids(s),
        0 <= k < s.len(),
    ensures
        entries_map(s).contains_key(s[k].0@),
        entries_map(s)[s[k].0@] == s[k].1,
    decreases s.len(),
{
    if k < s.len() - 1 {
        assert(s.drop_last()[k] == s[k]);
        lemma_entries_index(s.drop_last(), k);
        assert(s[k].0@ != s[s.len() - 1].0@);
    }
}

/// Every id of the map is the id of an entry.
proof fn lemma_entries_keys(s: Seq<(String, i32)>, key: Seq<char>)
    ensures
        entries_map(s).contains_key(key) ==> exists|k: int| 0 <= k < s.len() && (#[trigger] s[k]).0@ == key,
    decreases s.len(),
{
    if s.len() > 0 {
        lemma_entries_keys(s.drop_last(), key);
        if entries_map(s.drop_last()).contains_key(key) {
            let k = choose|k: int| 0 <= k < s.drop_last().len() && (#[trigger] s.drop_last()[k]).0@ == key;
            assert(s[k] == s.drop_last()[k]);
        }
        if key == s.last().0@ {
            assert(s[s.len() - 1].0@ == key);
        }
    }
}

/// Changing the count of an entry changes the count of its id.
proof fn lemma_entries_update(s: Seq<(String, i32)>, k: int, v: i32)
    requires
        distinct_ids(s),
        0 <= k < s.len(),
    ensures
        entries_map(s.update(k, (s[k].0, v))) == entries_map(s).insert(s[k].0@, v),
        distinct_ids(s.update(k, (s[k].0, v))),
    decreases s.len(),
{
    let t = s.update(k, (s[k].0, v));
    if k == s.len() - 1 {
        assert(t.drop_last() =~= s.drop_last());
        assert(entries_map(t) =~= entries_map(s).insert(s[k].0@, v));
    } else {
        assert(t.drop_last() =~= s.drop_last().update(k, (s[k].0, v)));
        assert(s.drop_last()[k] == s[k]);
        lemma_entries_update(s.drop_last(), k, v);
        assert(s[k].0@ != s.last().0@);
        assert(entries_map(t) =~= entries_map(s).insert(s[k].0@, v));
    }
    assert forall|i: int, j: int| 0 <= i < j < t.len() implies (#[trigger] t[i]).0@ != (#[trigger] t[j]).0@ by {
        assert(s[i].0@ != s[j].0@);
    }
}

/// How often each opponent has been challenged since a game with it last
/// started: the games it plays take the count down.
pub struct BotTracker {
    /// The count of each bot, by id; no id occurs twice.
    pub activity: Vec<(String, i32)>,
}

impl BotTracker {
    /// The counts by id.
    pub open spec fn view(&self) -> Map<Seq<char>, i32> {
        entries_map(self.activity@)
    }

    /// No id occurs twice.
    pub open spec fn wf(&self) -> bool {
        distinct_ids(self.activity@)
    }

    /// A tracker with no bots.
    pub fn new() -> (r: BotTracker)
        ensures
            r.wf(),
            r.view() == Map::<Seq<char>, i32>::empty(),
    {
        BotTracker { activity: Vec::new() }
    }

    /// The position of the entry of a bot, if it has one.
    fn position(&self, id: &String) -> (r: Option<usize>)
        requires
            self.wf(),
        ensures
            match r {
                Some(k) => k < self.activity@.len() && self.activity@[k as int].0@ == id@,
                None => !self.view().contains_key(id@),
            },
    {
        let mut k: usize = 0;
        while k < self.activity.len()
            invariant
                k <= self.activity@.len(),
                forall|i: int| 0 <= i < k ==> (#[trigger] self.activity@[i]).0@ != id@,
            decreases self.activity@.len() - k,
        {
            if self.activity[k].0 == *id {
                return Some(k);
            }
            k = k + 1;
        }
        proof {
            lemma_entries_keys(self.activity@, id@);
        }
        None
    }

    /// The count of a bot, if it has one.
    pub fn count(&self, id: &String) -> (r: Option<i32>)
        requires
            self.wf(),
        ensures
            r == (if self.view().contains_key(id@) {
                Some(self.view()[id@])
            } else {
                None::<i32>
            }),
    {
        match self.position(id) {
            Some(k) => {
                proof {
                    lemma_entries_index(self.activity@, k as int);
                }
                Some(self.activity[k].1)
            },
            None => None,
        }
    }

    /// Sets the count of a bot.
    fn set_count(&mut self, id: &String, v: i32)
        requires
            old(self).wf(),
        ensures
            final(self).wf(),
            final(self).view() == old(self).view().insert(id@, v),
    {
        match self.position(id) {
            Some(k) => {
                let name = self.activity[k].0.clone();
                proof {
                    lemma_entries_update(self.activity@, k as int, v);
                }
                self.activity.set(k, (name, v));
            },
            None => {
                let ghost before = self.activity@;
                self.activity.push((id.clone(), v));
                proof {
                    assert(self.activity@.drop_last() =~= before);
                    assert forall|i: int, j: int|
                        0 <= i < j < self.activity@.len() implies (#[trigger] self.activity@[i]).0@
                        != (#[trigger] self.activity@[j]).0@ by {
                        if j == before.len() {
                            lemma_entries_index(before, i);
                        } else {
                            assert(before[i].0@ != before[j].0@);
                        }
                    }
                }
            },
        }
    }

    /// A game with a bot started: its count goes down by one, from one if
    /// it had none.
    pub fn on_game_started(&mut self, opponent: &String)
        requires
            old(self).wf(),
            old(self).view().contains_key(opponent@) ==> old(self).view()[opponent@] > i32::MIN,
        ensures
            final(self).wf(),
            final(self).view() == after_game_started(old(self).view(), opponent@),
    {
        let v = match self.count(opponent) {
            Some(c) => c - 1,
            None => 0,
        };
        self.set_count(opponent, v);
    }

    /// A bot was challenged: its count goes up by one, from nothing if it
    /// had none.
    pub fn on_challenge(&mut self, opponent: &String)
        requires
            old(self).wf(),
            old(self).view().contains_key(opponent@) ==> old(self).view()[opponent@] < i32::MAX,
        ensures
            final(self).wf(),
            final(self).view() == after_challenge(old(self).view(), opponent@),
    {
        let v = match self.count(opponent) {
            Some(c) => c + 1,
            None => 1,
        };
        self.set_count(opponent, v);
    }

    /// Forgets every bot.
    pub fn flush(&mut self)
        ensures
            final(self).wf(),
            final(self).view() == Map::<Seq<char>, i32>::empty(),
    {
        self.activity = Vec::new();
    }
}

/// The count after a challenge to a bot: one more than before, or one.
pub open spec fn after_challenge(t: Map<Seq<char>, i32>, id: Seq<char>) -> Map<Seq<char>, i32> {
    t.insert(
        id,
        (if t.contains_key(id) {
            t[id] + 1
        } else {
            1
        }) as i32,
    )
}

/// The count after a game with a bot starts: one less than before, or zero.
pub open spec fn after_game_started(t: Map<Seq<char>, i32>, id: Seq<char>) -> Map<Seq<char>, i32> {
    t.insert(
        id,
        (if t.contains_key(id) {
            t[id] - 1
        } else {
            0
        }) as i32,
    )
}

/// A challenge answered by a game leaves the count of the bot as it was,
/// and a bot seen for the first time active, with a count of zero.
pub proof fn lemma_challenge_then_game(t: Map<Seq<char>, i32>, id: Seq<char>)
    requires
        t.contains_key(id) ==> t[id] < i32::MAX,
    ensures
        after_game_started(after_challenge(t, id), id) == (if t.contains_key(id) {
            t
        } else {
            t.insert(id, 0)
        }),
{
    if t.contains_key(id) {
        assert(after_game_started(after_challenge(t, id), id) =~= t);
    } else {
        assert(after_game_started(after_challenge(t, id), id) =~= t.insert(id, 0));
    }
}

/// What the game search loop hears: that the tracker is due to be
/// flushed, that a poll for a challenge is due, or that a game with an
/// opponent started.
pub enum SearchEvent {
    FlushDue,
    PollDue,
    GameStarted(String),
}

/// What the game search loop does next: poll for a challenge, or wait for
/// the next event.
pub enum SearchAction {
    Poll,
    Wait,
}

/// The decisions of the game search loop on each event: a due flush forgets
/// every bot, a due poll asks for a challenge to be made, and a game that
/// started counts against its opponent.
pub fn search_step(tracker: &mut BotTracker, event: SearchEvent) -> (r: SearchAction)
    requires
        old(tracker).wf(),
        event matches SearchEvent::GameStarted(id) ==> (old(tracker).view().contains_key(id@)
            ==> old(tracker).view()[id@] > i32::MIN),
    ensures
        final(tracker).wf(),
        match event {
            SearchEvent::FlushDue => final(tracker).view() == Map::<Seq<char>, i32>::empty()
                && r is Wait,
            SearchEvent::PollDue => *final(tracker) == *old(tracker) && r is Poll,
            SearchEvent::GameStarted(id) => final(tracker).view() == after_game_started(
                old(tracker).view(),
                id@,
            ) && r is Wait,
        },
{
    match event {
        SearchEvent::FlushDue => {
            tracker.flush();
            SearchAction::Wait
        },
        SearchEvent::PollDue => SearchAction::Poll,
        SearchEvent::GameStarted(id) => {
            tracker.on_game_started(&id);
            SearchAction::Wait
        },
    }
}

} // verus!
