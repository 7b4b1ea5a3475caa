use vstd::prelude::*;

verus! {

/// An event of the stream of our bot account.
#[derive(Debug)]
pub enum BotEvent {
    /// A bot challenges us.
    Challenge { id: String, challenger: String },
    /// A game of ours starts.
    GameStart { id: String, opponent: String },
}

/// What to do about an event.
#[derive(Debug)]
pub enum EventAction {
    /// Decline the challenge with this id.
    Decline(String),
    /// Nothing.
    Ignore,
    /// Play the game with this id, and count it as a game started by the
    /// opponent.
    StartGame { id: String, opponent: String },
}

/// The ids of the games that have been started.
pub struct StartedGames {
    pub ids: Vec<String>,
}

impl StartedGames {
    /// The ids started.
    pub open spec fn view(&self) -> Set<Seq<char>> {
        self.ids@.map_values(|s: String| s@).to_set()
    }

    /// No game started yet.
    pub fn new() -> (r: StartedGames)
        ensures
            r.view() == Set::<Seq<char>>::empty(),
    {
        let r = StartedGames { ids: Vec::new() };
        assert(r.view() =~= Set::<Seq<char>>::empty());
        r
    }

    /// Adds a game, and tells whether it was new.
    pub fn insert(&mut self, id: &String) -> (r: bool)
        ensures
            r == !old(self).view().contains(id@),
            final(self).view() == old(self).view().insert(id@),
    {
        let ghost before = self.ids@;
        let mut k: usize = 0;
        while k < self.ids.len()
            invariant
                k <= self.ids@.len(),
                self.ids@ == before,
                forall|i: int| 0 <= i < k ==> (#[trigger] self.ids@[i])@ != id@,
            decreases self.ids@.len() - k,
        {
            if self.ids[k] == *id {
                proof {
                    assert(before.map_values(|s: String| s@)[k as int] == id@);
                    assert(self.view().contains(id@));
                    assert(self.view().insert(id@) =~= self.view());
                }
                return false;
            }
            k = k + 1;
        }
        proof {
            assert forall|x: Seq<char>| #[trigger] self.view().contains(x) implies x != id@ by {
                let m = before.map_values(|s: String| s@);
                let i = choose|i: int| 0 <= i < m.len() && #[trigger] m[i] == x;
                assert(before[i]@ != id@);
            }
        }
        self.ids.push(id.clone());
        proof {
            let m = self.ids@.map_values(|s: String| s@);
            assert(m =~= before.map_values(|s: String| s@).push(id@));
            before.map_values(|s: String| s@).lemma_push_to_set_commute(id@);
            assert(self.view() =~= before.map_values(|s: String| s@).to_set().insert(id@));
        }
        true
    }
}

/// What an event asks of us: a challenge from another bot is declined, one
/// of our own is let be; a game is played when it starts the first time,
/// and left alone when it starts again.
pub open spec fn event_action(started: Set<Seq<char>>, our_id: Seq<char>, event: BotEvent) -> EventAction {
    match event {
        BotEvent::Challenge { id, challenger } => if challenger@ != our_id {
            EventAction::Decline(id)
        } else {
            EventAction::Ignore
        },
        BotEvent::GameStart { id, opponent } => if !started.contains(id@) {
            EventAction::StartGame { id, opponent }
        } else {
            EventAction::Ignore
        },
    }
}

/// Decides what to do about an event, and records the games started.
pub fn process_event(started: &mut StartedGames, our_id: &String, event: BotEvent) -> (r: EventAction)
    ensures
        r == event_action(old(started).view(), our_id@, event),
        final(started).view() == (match event {
            BotEvent::GameStart { id, .. } => old(started).view().insert(id@),
            _ => old(started).view(),
        }),
{
    match event {
        BotEvent::Challenge { id, challenger } => {
            if challenger != *our_id {
                EventAction::Decline(id)
            } else {
                EventAction::Ignore
            }
        },
        BotEvent::GameStart { id, opponent } => {
            if started.insert(&id) {
                EventAction::StartGame { id, opponent }
            } else {
                EventAction::Ignore
            }
        },
    }
}

/// A game is played once: once its start has been seen, starting it again
/// asks for nothing.
pub proof fn lemma_game_started_once(
    started: Set<Seq<char>>,
    our_id: Seq<char>,
    id: String,
    opponent: String,
)
    ensures
        event_action(started.insert(id@), our_id, BotEvent::GameStart { id, opponent })
            == EventAction::Ignore,
{
}

} // verus!
