use vstd::prelude::*;

use rand::Rng;

use crate::matchmaking::tracker::BotTracker;

verus! {

/// An online bot that could be challenged: its id and its rating for the
/// time control of the challenge.
#[derive(Debug)]
pub struct BotRating {
    pub id: String,
    pub rating: u32,
}

/// How far below and above our own rating an opponent may be rated.
#[derive(Debug, Copy, Clone, PartialEq, Eq, Structural)]
pub struct RatingRange {
    pub offset_below: u32,
    pub offset_above: u32,
}

/// What a look for an opponent decides before choosing one.
#[derive(Debug, Copy, Clone, PartialEq, Eq, Structural)]
pub enum PollCheck {
    /// Enough games are being played already.
    Busy,
    /// We are not among the online bots.
    Offline,
    /// An opponent should be challenged.
    Ready,
}

/// The most games played at once before no more opponents are challenged.
pub const MAX_GAMES_IN_PROGRESS: usize = 2;

/// Whether a bot id is among the ids of the bots.
pub open spec fn online(bots: Seq<BotRating>, id: Seq<char>) -> bool {
    exists|k: int| 0 <= k < bots.len() && (#[trigger] bots[k]).id@ == id
}

/// What to do given the games in progress and the online bots.
pub open spec fn poll_check(games_in_progress: usize, bots: Seq<BotRating>, our_id: Seq<char>) -> PollCheck {
    if games_in_progress >= MAX_GAMES_IN_PROGRESS {
        PollCheck::Busy
    } else if !online(bots, our_id) {
        PollCheck::Offline
    } else {
        PollCheck::Ready
    }
}

/// Decides whether to look for an opponent: not while enough games are
/// being played, nor while we do not appear among the online bots.
pub fn check_poll(games_in_progress: usize, bots: &Vec<BotRating>, our_id: &String) -> (r: PollCheck)
    ensures
        r == poll_check(games_in_progress, bots@, our_id@),
{
    if games_in_progress >= MAX_GAMES_IN_PROGRESS {
        return PollCheck::Busy;
    }
    let mut k: usize = 0;
    while k < bots.len()
        invariant
            k <= bots@.len(),
            games_in_progress < MAX_GAMES_IN_PROGRESS,
            forall|i: int| 0 <= i < k ==> (#[trigger] bots@[i]).id@ != our_id@,
        decreases bots@.len() - k,
    {
        if bots[k].id == *our_id {
            assert(bots@[k as int].id@ == our_id@);
            return PollCheck::Ready;
        }
        k = k + 1;
    }
    PollCheck::Offline
}

/// Whether a bot is one of ours, never to be challenged.
pub open spec fn excluded(id: Seq<char>) -> bool {
    id == "hyperopic"@ || id == "myopic-bot"@
}

/// Whether a bot may be challenged: not one of ours, and rated between the
/// bounds, both included.
pub open spec fn is_candidate(b: BotRating, lo: u32, hi: u32) -> bool {
    !excluded(b.id@) && lo <= b.rating <= hi
}

/// The bots that may be challenged, in their order.
pub open spec fn candidates(bots: Seq<BotRating>, lo: u32, hi: u32) -> Seq<BotRating>
    decreases bots.len(),
{
    if bots.len() == 0 {
        Seq::empty()
    } else if is_candidate(bots.last(), lo, hi) {
        candidates(bots.drop_last(), lo, hi).push(bots.last())
    } else {
        candidates(bots.drop_last(), lo, hi)
    }
}

/// The ratings an opponent may have: from the offset below our rating to
/// the offset above it.
pub fn rating_bounds(rating: u32, range: RatingRange) -> (r: (u32, u32))
    requires
        range.offset_below <= rating,
        rating + range.offset_above <= u32::MAX,
    ensures
        r.0 == rating - range.offset_below,
        r.1 == rating + range.offset_above,
{
    (rating - range.offset_below, rating + range.offset_above)
}

/// Whether a bot id is one of ours.
fn is_excluded(id: &String) -> (r: bool)
    ensures
        r == excluded(id@),
{
    let ours = "hyperopic".to_owned();
    let bot = "myopic-bot".to_owned();
    *id == ours || *id == bot
}

/// The bots that may be challenged: not ours, and rated between the
/// bounds.
pub fn candidate_bots(bots: &Vec<BotRating>, lo: u32, hi: u32) -> (r: Vec<BotRating>)
    ensures
        r@ == candidates(bots@, lo, hi),
{
    let mut r: Vec<BotRating> = Vec::new();
    let mut k: usize = 0;
    while k < bots.len()
        invariant
            k <= bots@.len(),
            r@ == candidates(bots@.take(k as int), lo, hi),
        decreases bots@.len() - k,
    {
        let b = &bots[k];
        assert(bots@.take(k as int + 1).drop_last() =~= bots@.take(k as int));
        if !is_excluded(&b.id) && lo <= b.rating && b.rating <= hi {
            r.push(BotRating { id: b.id.clone(), rating: b.rating });
        }
        k = k + 1;
    }
    assert(bots@.take(bots@.len() as int) =~= bots@);
    r
}

/// Whether the candidate at `i` has not been challenged since the tracker
/// was last flushed.
pub open spec fn untested(c: Seq<BotRating>, t: Map<Seq<char>, i32>, i: int) -> bool {
    !t.contains_key(c[i].id@)
}

/// Whether the candidate at `i` was challenged and has played every game
/// since.
pub open spec fn active(c: Seq<BotRating>, t: Map<Seq<char>, i32>, i: int) -> bool {
    t.contains_key(c[i].id@) && t[c[i].id@] == 0
}

/// Whether the candidate at `i` was challenged and has a count other than
/// zero.
pub open spec fn inactive(c: Seq<BotRating>, t: Map<Seq<char>, i32>, i: int) -> bool {
    t.contains_key(c[i].id@) && t[c[i].id@] != 0
}

/// Whether some candidate is untested.
pub open spec fn any_untested(c: Seq<BotRating>, t: Map<Seq<char>, i32>) -> bool {
    exists|i: int| 0 <= i < c.len() && #[trigger] untested(c, t, i)
}

/// The number of active candidates among the first `n`.
pub open spec fn count_active(c: Seq<BotRating>, t: Map<Seq<char>, i32>, n: int) -> int
    decreases n,
{
    if n <= 0 {
        0
    } else {
        count_active(c, t, n - 1) + if active(c, t, n - 1) {
            1int
        } else {
            0int
        }
    }
}

/// The untested candidate at `i` has the highest rating of the untested
/// ones, and is the last of those that have it.
pub open spec fn best_untested(c: Seq<BotRating>, t: Map<Seq<char>, i32>, i: int) -> bool {
    &&& 0 <= i < c.len()
    &&& untested(c, t, i)
    &&& forall|j: int| 0 <= j < c.len() && #[trigger] untested(c, t, j) ==> c[j].rating <= c[i].rating
    &&& forall|j: int| i < j < c.len() && #[trigger] untested(c, t, j) ==> c[j].rating < c[i].rating
}

/// The candidate at `i` is the active one with `pick` active ones before
/// it.
pub open spec fn nth_active(c: Seq<BotRating>, t: Map<Seq<char>, i32>, pick: int, i: int) -> bool {
    0 <= i < c.len() && active(c, t, i) && count_active(c, t, i) == pick
}

/// The inactive candidate at `i` has the lowest count of the inactive
/// ones, and is the first of those that have it.
pub open spec fn least_inactive(c: Seq<BotRating>, t: Map<Seq<char>, i32>, i: int) -> bool {
    &&& 0 <= i < c.len()
    &&& inactive(c, t, i)
    &&& forall|j: int| 0 <= j < c.len() && #[trigger] inactive(c, t, j) ==> t[c[i].id@] <= t[c[j].id@]
    &&& forall|j: int| 0 <= j < i && #[trigger] inactive(c, t, j) ==> t[c[j].id@] > t[c[i].id@]
}

/// The count of active candidates never falls, and is zero only when none
/// is active.
proof fn lemma_count_active(c: Seq<BotRating>, t: Map<Seq<char>, i32>, n: int)
    requires
        0 <= n,
    ensures
        count_active(c, t, n) >= 0,
        count_active(c, t, n) <= n,
        count_active(c, t, n) == 0 ==> forall|i: int| 0 <= i < n ==> !#[trigger] active(c, t, i),
    decreases n,
{
    if n > 0 {
        lemma_count_active(c, t, n - 1);
    }
}

/// The count of active candidates grows with the number looked at.
proof fn lemma_count_active_mono(c: Seq<BotRating>, t: Map<Seq<char>, i32>, n: int, m: int)
    requires
        0 <= n <= m,
    ensures
        count_active(c, t, n) <= count_active(c, t, m),
    decreases m - n,
{
    if n < m {
        lemma_count_active_mono(c, t, n, m - 1);
    }
}

/// Picks a number below `n` at random, by `Rng::gen_range` on the thread's
/// generator of rand: the contract claims only that the number is below
/// `n`, which is all that every outcome has in common.
#[verifier::external_body]
fn random_below(n: usize) -> (r: usize)
    requires
        n > 0,
    ensures
        r < n,
{
    rand::thread_rng().gen_range(0..n)
}

/// The number of active candidates.
pub fn active_count(c: &Vec<BotRating>, tracker: &BotTracker) -> (r: usize)
    requires
        tracker.wf(),
    ensures
        r == count_active(c@, tracker.view(), c@.len() as int),
{
    let ghost t = tracker.view();
    let mut n: usize = 0;
    let mut k: usize = 0;
    while k < c.len()
        invariant
            tracker.wf(),
            t == tracker.view(),
            k <= c@.len(),
            n == count_active(c@, t, k as int),
            n <= k,
        decreases c@.len() - k,
    {
        proof {
            lemma_count_active(c@, t, k as int + 1);
        }
        if tracker.count(&c[k].id) == Some(0i32) {
            n = n + 1;
        }
        k = k + 1;
    }
    n
}

/// Whether some candidate is untested.
pub fn has_untested(c: &Vec<BotRating>, tracker: &BotTracker) -> (r: bool)
    requires
        tracker.wf(),
    ensures
        r == any_untested(c@, tracker.view()),
{
    let ghost t = tracker.view();
    let mut k: usize = 0;
    while k < c.len()
        invariant
            tracker.wf(),
            t == tracker.view(),
            k <= c@.len(),
            forall|i: int| 0 <= i < k ==> !#[trigger] untested(c@, t, i),
        decreases c@.len() - k,
    {
        if tracker.count(&c[k].id).is_none() {
            assert(untested(c@, t, k as int));
            return true;
        }
        k = k + 1;
    }
    false
}

/// Chooses the candidate to challenge: the best rated of those not yet
/// challenged, the last of them if several; else the active one at
/// position `pick` among the active ones; else the first of those with
/// the lowest count.
#[verifier::rlimit(30)]
pub fn choose_opponent(c: &Vec<BotRating>, tracker: &BotTracker, pick: usize) -> (r: usize)
    requires
        tracker.wf(),
        c@.len() > 0,
        !any_untested(c@, tracker.view()) && count_active(c@, tracker.view(), c@.len() as int) > 0
            ==> pick < count_active(c@, tracker.view(), c@.len() as int),
    ensures
        r < c@.len(),
        any_untested(c@, tracker.view()) ==> best_untested(c@, tracker.view(), r as int),
        !any_untested(c@, tracker.view()) && count_active(c@, tracker.view(), c@.len() as int) > 0
            ==> nth_active(c@, tracker.view(), pick as int, r as int),
        !any_untested(c@, tracker.view()) && count_active(c@, tracker.view(), c@.len() as int) == 0
            ==> least_inactive(c@, tracker.view(), r as int),
{
    let ghost t = tracker.view();
    let ghost cs = c@;
    let mut best: Option<usize> = None;
    let mut k: usize = 0;
    while k < c.len()
        invariant
            tracker.wf(),
            t == tracker.view(),
            cs == c@,
            k <= cs.len(),
            best is None ==> forall|j: int| 0 <= j < k ==> !#[trigger] untested(cs, t, j),
            best matches Some(b) ==> {
                &&& b < k
                &&& untested(cs, t, b as int)
                &&& forall|j: int| 0 <= j < k && #[trigger] untested(cs, t, j) ==> cs[j].rating <= cs[b as int].rating
                &&& forall|j: int| b < j < k && #[trigger] untested(cs, t, j) ==> cs[j].rating < cs[b as int].rating
            },
        decreases cs.len() - k,
    {
        if tracker.count(&c[k].id).is_none() {
            let better = match best {
                None => true,
                Some(b) => c[k].rating >= c[b].rating,
            };
            if better {
                best = Some(k);
            }
        }
        k = k + 1;
    }
    if let Some(b) = best {
        return b;
    }
    assert(!any_untested(cs, t));
    let mut seen: usize = 0;
    let mut k: usize = 0;
    while k < c.len()
        invariant
            tracker.wf(),
            t == tracker.view(),
            cs == c@,
            k <= cs.len(),
            !any_untested(cs, t),
            count_active(cs, t, cs.len() as int) > 0 ==> pick < count_active(cs, t, cs.len() as int),
            seen == count_active(cs, t, k as int),
            seen <= pick || count_active(cs, t, cs.len() as int) == 0,
        decreases cs.len() - k,
    {
        proof {
            lemma_count_active(cs, t, k as int + 1);
        }
        if tracker.count(&c[k].id) == Some(0i32) {
            if seen == pick {
                proof {
                    lemma_count_active_mono(cs, t, k as int + 1, cs.len() as int);
                }
                return k;
            }
            seen = seen + 1;
        }
        k = k + 1;
    }
    proof {
        lemma_count_active(cs, t, cs.len() as int);
        if count_active(cs, t, cs.len() as int) > 0 {
            assert(seen == count_active(cs, t, cs.len() as int));
            assert(false);
        }
    }
    let mut least: Option<usize> = None;
    let mut k: usize = 0;
    while k < c.len()
        invariant
            tracker.wf(),
            t == tracker.view(),
            cs == c@,
            k <= cs.len(),
            least is None ==> forall|j: int| 0 <= j < k ==> !#[trigger] inactive(cs, t, j),
            least matches Some(l) ==> {
                &&& l < k
                &&& inactive(cs, t, l as int)
                &&& forall|j: int| 0 <= j < k && #[trigger] inactive(cs, t, j) ==> t[cs[l as int].id@] <= t[cs[j].id@]
                &&& forall|j: int| 0 <= j < l && #[trigger] inactive(cs, t, j) ==> t[cs[j].id@] > t[cs[l as int].id@]
            },
        decreases cs.len() - k,
    {
        match tracker.count(&c[k].id) {
            Some(a) => {
                if a != 0 {
                    let better = match least {
                        None => true,
                        Some(l) => match tracker.count(&c[l].id) {
                            Some(b) => a < b,
                            None => false,
                        },
                    };
                    if better {
                        least = Some(k);
                    }
                }
            },
            None => {},
        }
        k = k + 1;
    }
    proof {
        if least is None {
            assert(!untested(cs, t, 0));
            assert(!active(cs, t, 0));
            assert(!inactive(cs, t, 0));
            assert(false);
        }
    }
    least.unwrap()
}

/// Chooses the candidate to challenge, picking at random among the active
/// ones when every candidate has been challenged and some are active.
pub fn pick_opponent(c: &Vec<BotRating>, tracker: &BotTracker) -> (r: usize)
    requires
        tracker.wf(),
        c@.len() > 0,
    ensures
        r < c@.len(),
        any_untested(c@, tracker.view()) ==> best_untested(c@, tracker.view(), r as int),
        !any_untested(c@, tracker.view()) && count_active(c@, tracker.view(), c@.len() as int) > 0
            ==> active(c@, tracker.view(), r as int),
        !any_untested(c@, tracker.view()) && count_active(c@, tracker.view(), c@.len() as int) == 0
            ==> least_inactive(c@, tracker.view(), r as int),
{
    let n_active = active_count(c, tracker);
    let pick = if !has_untested(c, tracker) && n_active > 0 {
        random_below(n_active)
    } else {
        0
    };
    choose_opponent(c, tracker, pick)
}

} // verus!
