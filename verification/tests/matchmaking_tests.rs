use myopic::matchmaking::events::{process_event, BotEvent, EventAction, StartedGames};
use myopic::matchmaking::opponents::{
    active_count, candidate_bots, check_poll, choose_opponent, has_untested, pick_opponent,
    rating_bounds, BotRating, PollCheck, RatingRange,
};
use myopic::matchmaking::tracker::{search_step, BotTracker, SearchAction, SearchEvent};

fn bot(id: &str, rating: u32) -> BotRating {
    BotRating { id: id.to_string(), rating }
}

fn ids(bots: &[BotRating]) -> Vec<String> {
    bots.iter().map(|b| b.id.clone()).collect()
}

#[test]
fn tracker_counts_challenges_and_games() {
    let mut tracker = BotTracker::new();
    let a = "alpha".to_string();
    let b = "beta".to_string();
    assert_eq!(None, tracker.count(&a));
    tracker.on_challenge(&a);
    tracker.on_challenge(&a);
    assert_eq!(Some(2), tracker.count(&a));
    tracker.on_game_started(&a);
    assert_eq!(Some(1), tracker.count(&a));
    tracker.on_game_started(&b);
    assert_eq!(Some(0), tracker.count(&b));
    tracker.on_game_started(&b);
    assert_eq!(Some(-1), tracker.count(&b));
    assert_eq!(2, tracker.activity.len());
    tracker.flush();
    assert_eq!(None, tracker.count(&a));
    assert_eq!(None, tracker.count(&b));
}

#[test]
fn challenge_then_game_restores_count() {
    let mut tracker = BotTracker::new();
    let a = "alpha".to_string();
    tracker.on_challenge(&a);
    tracker.on_game_started(&a);
    assert_eq!(Some(0), tracker.count(&a));
    tracker.on_game_started(&a);
    tracker.on_challenge(&a);
    tracker.on_game_started(&a);
    assert_eq!(Some(-1), tracker.count(&a));
}

#[test]
fn poll_checks() {
    let us = "myopic-bot".to_string();
    let online = vec![bot("alpha", 1500), bot("myopic-bot", 1600)];
    assert_eq!(PollCheck::Busy, check_poll(2, &online, &us));
    assert_eq!(PollCheck::Busy, check_poll(3, &online, &us));
    assert_eq!(PollCheck::Ready, check_poll(1, &online, &us));
    assert_eq!(PollCheck::Offline, check_poll(0, &vec![bot("alpha", 1500)], &us));
}

#[test]
fn rating_window() {
    let range = RatingRange { offset_below: 200, offset_above: 100 };
    assert_eq!((1400, 1700), rating_bounds(1600, range));
}

#[test]
fn candidates_exclude_ours_and_far_ratings() {
    let online = vec![
        bot("alpha", 1400),
        bot("hyperopic", 1500),
        bot("beta", 1399),
        bot("myopic-bot", 1600),
        bot("gamma", 1700),
        bot("delta", 1701),
        bot("epsilon", 1550),
    ];
    let c = candidate_bots(&online, 1400, 1700);
    assert_eq!(vec!["alpha", "gamma", "epsilon"], ids(&c));
    assert_eq!(1700, c[1].rating);
}

#[test]
fn untested_best_rated_chosen_last_on_ties() {
    let c = vec![bot("a", 1500), bot("b", 1600), bot("c", 1600), bot("d", 1700)];
    let mut tracker = BotTracker::new();
    tracker.on_challenge(&"d".to_string());
    assert!(has_untested(&c, &tracker));
    assert_eq!(2, choose_opponent(&c, &tracker, 0));
    assert_eq!(2, pick_opponent(&c, &tracker));
}

#[test]
fn active_chosen_by_pick() {
    let c = vec![bot("a", 1500), bot("b", 1600), bot("c", 1650), bot("d", 1700)];
    let mut tracker = BotTracker::new();
    for id in ["a", "b", "c", "d"] {
        tracker.on_challenge(&id.to_string());
    }
    tracker.on_game_started(&"b".to_string());
    tracker.on_game_started(&"d".to_string());
    assert!(!has_untested(&c, &tracker));
    assert_eq!(2, active_count(&c, &tracker));
    assert_eq!(1, choose_opponent(&c, &tracker, 0));
    assert_eq!(3, choose_opponent(&c, &tracker, 1));
    let r = pick_opponent(&c, &tracker);
    assert!(r == 1 || r == 3);
}

#[test]
fn inactive_least_count_chosen_first_on_ties() {
    let c = vec![bot("a", 1500), bot("b", 1600), bot("c", 1650)];
    let mut tracker = BotTracker::new();
    for id in ["a", "a", "b", "c", "c"] {
        tracker.on_challenge(&id.to_string());
    }
    tracker.on_game_started(&"a".to_string());
    assert_eq!(0, active_count(&c, &tracker));
    assert_eq!(0, choose_opponent(&c, &tracker, 0));
    assert_eq!(0, pick_opponent(&c, &tracker));
    tracker.on_game_started(&"c".to_string());
    tracker.on_game_started(&"c".to_string());
    tracker.on_game_started(&"c".to_string());
    assert_eq!(2, choose_opponent(&c, &tracker, 0));
}

#[test]
fn events_decline_and_start_once() {
    let us = "myopic-bot".to_string();
    let mut started = StartedGames::new();
    match process_event(
        &mut started,
        &us,
        BotEvent::Challenge { id: "c1".to_string(), challenger: "alpha".to_string() },
    ) {
        EventAction::Decline(id) => assert_eq!("c1", id),
        other => panic!("unexpected {:?}", other),
    }
    match process_event(
        &mut started,
        &us,
        BotEvent::Challenge { id: "c2".to_string(), challenger: "myopic-bot".to_string() },
    ) {
        EventAction::Ignore => {}
        other => panic!("unexpected {:?}", other),
    }
    match process_event(
        &mut started,
        &us,
        BotEvent::GameStart { id: "g1".to_string(), opponent: "alpha".to_string() },
    ) {
        EventAction::StartGame { id, opponent } => {
            assert_eq!("g1", id);
            assert_eq!("alpha", opponent);
        }
        other => panic!("unexpected {:?}", other),
    }
    match process_event(
        &mut started,
        &us,
        BotEvent::GameStart { id: "g1".to_string(), opponent: "alpha".to_string() },
    ) {
        EventAction::Ignore => {}
        other => panic!("unexpected {:?}", other),
    }
    assert_eq!(vec!["g1".to_string()], started.ids);
    assert!(!started.insert(&"g1".to_string()));
    assert!(started.insert(&"g2".to_string()));
}

#[test]
fn search_loop_decisions() {
    let mut tracker = BotTracker::new();
    let a = String::from("bot-a");
    assert!(matches!(search_step(&mut tracker, SearchEvent::PollDue), SearchAction::Poll));
    assert_eq!(None, tracker.count(&a));
    assert!(matches!(search_step(&mut tracker, SearchEvent::GameStarted(a.clone())), SearchAction::Wait));
    assert_eq!(Some(0), tracker.count(&a));
    assert!(matches!(search_step(&mut tracker, SearchEvent::GameStarted(a.clone())), SearchAction::Wait));
    assert_eq!(Some(-1), tracker.count(&a));
    assert!(matches!(search_step(&mut tracker, SearchEvent::FlushDue), SearchAction::Wait));
    assert_eq!(None, tracker.count(&a));
}
