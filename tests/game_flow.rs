use crankword::game::{
    advance_turn, is_exhausted, Game, GameAndPlayers, GameError, GameStatus, Guess, Player,
    MAX_TURNS,
};
use crankword::scoring::LetterScore;
use crankword::turns::{commit_if_current, GuessResult};

const NOW: i64 = 1_000_000;

fn player(user_id: i32, turn_order: Option<u32>) -> Player {
    Player { user_id, username: format!("user{}", user_id), turn_order }
}

fn game(status: GameStatus, turn: Option<i32>) -> Game {
    Game {
        id: 9,
        word: "APPLE".to_string(),
        game_status: status,
        owner_id: 1,
        winner_id: None,
        turn_user_id: turn,
        turn_deadline: NOW + 30,
        created_timestamp: NOW - 1000,
        is_open: true,
        version: 0,
    }
}

/// A game in progress between users 1 (the owner), 2 and 3, in that turn
/// order, with user 1 to play.
fn in_progress(n: i32) -> GameAndPlayers {
    GameAndPlayers {
        game: game(GameStatus::InProgress, Some(1)),
        players: (1..=n).map(|u| player(u, Some(u as u32))).collect(),
        guesses: Vec::new(),
    }
}

fn pre_game(n: i32) -> GameAndPlayers {
    GameAndPlayers {
        game: game(GameStatus::PreGame, None),
        players: (1..=n).map(|u| player(u, None)).collect(),
        guesses: Vec::new(),
    }
}

fn guess(user_id: i32, n: u32, at: i64) -> Guess {
    Guess { user_id, word: "ZZZZZ".to_string(), guess_number: n, created_timestamp: at }
}

fn scored(r: Result<GuessResult, GameError>) -> crankword::turns::GuessOutcome {
    match r {
        Ok(GuessResult::Scored(o)) => o,
        _ => panic!("guess was not scored"),
    }
}

#[test]
fn turn_rotation_wraps() {
    let g = in_progress(3);
    assert_eq!(advance_turn(&g.players, Some(1)), Ok(2));
    assert_eq!(advance_turn(&g.players, Some(2)), Ok(3));
    assert_eq!(advance_turn(&g.players, Some(3)), Ok(1));
    assert_eq!(advance_turn(&g.players, None), Err(GameError::NoActiveTurn));
    assert_eq!(advance_turn(&g.players, Some(8)), Err(GameError::NoActiveTurn));
    let solo = in_progress(1);
    assert_eq!(advance_turn(&solo.players, Some(1)), Ok(1));
}

#[test]
fn exhaustion_needs_every_player_at_the_limit() {
    assert!(is_exhausted(&vec![5, 5]));
    assert!(!is_exhausted(&vec![5, 4]));
    assert!(is_exhausted(&vec![]));
}

#[test]
fn guess_passes_turn_and_is_recorded() {
    let mut g = in_progress(3);
    let o = scored(g.submit_guess(1, "zebra", true, NOW));
    assert!(!o.is_winner);
    assert!(!o.game_over);
    assert_eq!(o.next_turn_id, Some(2));
    assert_eq!(o.scores.len(), 5);
    assert_eq!(g.game.turn_user_id, Some(2));
    assert_eq!(g.game.turn_deadline, NOW + crankword::clock::TURN_SECONDS);
    assert_eq!(g.guesses.len(), 1);
    assert_eq!(g.guesses[0].word, "ZEBRA");
    assert_eq!(g.guesses[0].guess_number, 1);
    assert_eq!(g.guesses[0].user_id, 1);
    assert_eq!(g.game.version, 1);
}

#[test]
fn sixth_guess_is_refused() {
    let mut g = in_progress(2);
    for n in 1..=5 {
        g.guesses.push(guess(1, n, NOW - 10));
    }
    g.guesses.push(guess(2, 1, NOW - 10));
    let r = g.submit_guess(1, "zebra", true, NOW);
    assert!(matches!(r, Ok(GuessResult::MaxGuessesReached)));
    assert_eq!(g.guesses.len(), 6);
    assert_eq!(g.game.turn_user_id, Some(1));
    assert_eq!(g.game.version, 0);
}

#[test]
fn wrong_length_guess_is_refused_as_max_guesses() {
    let mut g = in_progress(2);
    let r = g.submit_guess(1, "pear", true, NOW);
    assert!(matches!(r, Ok(GuessResult::MaxGuessesReached)));
    assert!(g.guesses.is_empty());
}

#[test]
fn out_of_turn_guess_and_unknown_word() {
    let mut g = in_progress(2);
    assert!(matches!(g.submit_guess(2, "zebra", true, NOW), Ok(GuessResult::WrongTurn)));
    assert!(matches!(g.submit_guess(1, "zzzzz", false, NOW), Ok(GuessResult::NotARealWord)));
    assert!(matches!(g.submit_guess(7, "zebra", true, NOW), Err(GameError::NotAParticipant)));
    assert!(g.guesses.is_empty());
    assert_eq!(g.game.turn_user_id, Some(1));
}

#[test]
fn winning_guess_finishes_the_game() {
    let mut g = in_progress(2);
    let o = scored(g.submit_guess(1, "apple", true, NOW));
    assert!(o.is_winner);
    assert!(o.game_over);
    assert_eq!(o.next_turn_id, None);
    assert_eq!(o.scores, vec![LetterScore::RightSpot; 5]);
    assert_eq!(g.game.game_status, GameStatus::Finished);
    assert_eq!(g.game.winner_id, Some(1));
    assert_eq!(g.game.turn_user_id, None);
    assert!(matches!(g.submit_guess(2, "apple", true, NOW), Err(GameError::WrongState)));
    assert!(matches!(g.submit_guess(1, "apple", true, NOW), Err(GameError::WrongState)));
    assert_eq!(g.guesses.len(), 1);
}

#[test]
fn lower_case_secret_can_be_won() {
    let mut g = in_progress(2);
    g.game.word = "apple".to_string();
    let o = scored(g.submit_guess(1, "APPLE", true, NOW));
    assert!(o.is_winner);
    assert_eq!(g.game.winner_id, Some(1));
    let r = g.guess_scores();
    assert_eq!(r[0].scores, vec![LetterScore::RightSpot; 5]);
}

#[test]
fn exhausted_game_finishes_without_winner() {
    let mut g = in_progress(2);
    for round in 0..MAX_TURNS {
        for u in [1, 2] {
            let o = scored(g.submit_guess(u, "zebra", true, NOW + round as i64));
            let last = round == MAX_TURNS - 1 && u == 2;
            assert_eq!(o.game_over, last);
        }
    }
    assert_eq!(g.game.game_status, GameStatus::Finished);
    assert_eq!(g.game.winner_id, None);
    assert_eq!(g.game.turn_user_id, None);
    assert_eq!(g.guesses.len(), 2 * MAX_TURNS);
    let numbers: Vec<u32> = g.guesses.iter().filter(|x| x.user_id == 2).map(|x| x.guess_number).collect();
    assert_eq!(numbers, vec![1, 2, 3, 4, 5]);
}

#[test]
fn timeout_is_handled_once() {
    let mut g = in_progress(3);
    g.game.turn_deadline = NOW - 5;
    let snapshot_version = g.game.version;
    let r = g.refresh_turn(1, NOW);
    assert!(r.advanced);
    assert_eq!(r.current_turn_id, Some(2));
    assert_eq!(r.turn_deadline, NOW + crankword::clock::TURN_SECONDS);
    assert_eq!(g.guesses.len(), 1);
    assert_eq!(g.guesses[0].user_id, 1);
    assert_eq!(g.guesses[0].word, "-----");
    assert_eq!(g.guesses[0].guess_number, 1);
    assert_eq!(r.scores.len(), 1);
    assert_eq!(r.scores[0].scores, vec![LetterScore::Dud; 5]);
    let again = g.refresh_turn(1, NOW);
    assert!(!again.advanced);
    assert_eq!(g.guesses.len(), 1);
    assert_eq!(g.game.turn_user_id, Some(2));

    // Two polls that read the same version: only the first write lands.
    let mut stored = in_progress(3);
    stored.game.turn_deadline = NOW - 5;
    let mut first = in_progress(3);
    first.game.turn_deadline = NOW - 5;
    first.refresh_turn(1, NOW);
    let mut second = in_progress(3);
    second.game.turn_deadline = NOW - 5;
    second.refresh_turn(1, NOW);
    assert!(commit_if_current(&mut stored, first, snapshot_version));
    assert!(!commit_if_current(&mut stored, second, snapshot_version));
    assert_eq!(stored.guesses.len(), 1);
    assert_eq!(stored.game.turn_user_id, Some(2));
}

#[test]
fn poll_at_current_time_forces_an_old_turn() {
    let mut g = in_progress(2);
    g.game.turn_deadline = 0;
    let r = g.refresh_turn_now(1);
    assert!(r.advanced);
    assert_eq!(r.current_turn_id, Some(2));
    assert!(r.turn_deadline > NOW);
    assert_eq!(g.guesses.len(), 1);
    let again = g.refresh_turn_now(1);
    assert!(!again.advanced);
}

#[test]
fn only_the_owner_poll_forces_the_turn() {
    let mut g = in_progress(2);
    g.game.turn_deadline = NOW - 5;
    let r = g.refresh_turn(2, NOW);
    assert!(!r.advanced);
    assert_eq!(g.game.turn_user_id, Some(1));
    let mut fresh = in_progress(2);
    let r = fresh.refresh_turn(1, NOW);
    assert!(!r.advanced);
    assert!(fresh.guesses.is_empty());
}

#[test]
fn timeout_on_last_guess_finishes() {
    let mut g = in_progress(2);
    for n in 1..=5 {
        g.guesses.push(guess(2, n, NOW - 100));
    }
    for n in 1..=4 {
        g.guesses.push(guess(1, n, NOW - 100));
    }
    g.game.turn_deadline = NOW - 1;
    let r = g.refresh_turn(1, NOW);
    assert!(r.advanced);
    assert_eq!(r.game_status, GameStatus::Finished);
    assert_eq!(g.game.winner_id, None);
    assert_eq!(g.guesses.len(), 10);
}

#[test]
fn start_draws_turn_order_and_gives_turn_to_last_drawn() {
    let mut g = pre_game(3);
    let r = g.start_game(1, &vec![2, 0, 0], NOW);
    assert_eq!(r, Ok(2));
    let order: Vec<(i32, Option<u32>)> = g.players.iter().map(|p| (p.user_id, p.turn_order)).collect();
    assert_eq!(order, vec![(3, Some(1)), (1, Some(2)), (2, Some(3))]);
    assert_eq!(g.game.game_status, GameStatus::InProgress);
    assert_eq!(g.game.turn_user_id, Some(2));
    assert_eq!(g.game.turn_deadline, NOW + crankword::clock::TURN_SECONDS);
}

#[test]
fn start_is_refused_when_not_allowed() {
    let mut g = pre_game(2);
    assert_eq!(g.start_game(2, &vec![0, 0], NOW), Err(GameError::NotOwner));
    let mut h = in_progress(2);
    assert_eq!(h.start_game(1, &vec![0, 0], NOW), Err(GameError::WrongState));
    let mut r = pre_game(3);
    let first = r.start_game_random(1, NOW).unwrap();
    assert_eq!(r.game.turn_user_id, Some(first));
    assert_eq!(r.players[2].user_id, first);
    let mut ids: Vec<i32> = r.players.iter().map(|p| p.user_id).collect();
    ids.sort();
    assert_eq!(ids, vec![1, 2, 3]);
}

#[test]
fn join_rules() {
    let mut g = pre_game(1);
    assert_eq!(g.join(2, "two".to_string(), false), Ok(()));
    assert_eq!(g.join(2, "two".to_string(), false), Err(GameError::AlreadyJoined));
    g.game.is_open = false;
    assert_eq!(g.join(3, "three".to_string(), false), Err(GameError::NotInvited));
    assert_eq!(g.join(3, "three".to_string(), true), Ok(()));
    let mut full = pre_game(6);
    assert_eq!(full.join(7, "seven".to_string(), true), Err(GameError::GameFull));
    let mut started = in_progress(2);
    assert_eq!(started.join(3, "three".to_string(), true), Err(GameError::WrongState));
}

#[test]
fn quit_rules() {
    let mut g = in_progress(3);
    assert_eq!(g.quit(1, NOW), Err(GameError::OwnerCannotLeave));
    assert_eq!(g.quit(9, NOW), Err(GameError::NotAParticipant));
    g.guesses.push(guess(1, 1, NOW - 1000));
    g.guesses.push(guess(2, 1, NOW - 60));
    assert_eq!(g.quit(2, NOW), Err(GameError::QuitTooSoon));
    assert_eq!(g.quit(2, NOW + 240), Ok(()));
    let ids: Vec<(i32, Option<u32>)> = g.players.iter().map(|p| (p.user_id, p.turn_order)).collect();
    assert_eq!(ids, vec![(1, Some(1)), (3, Some(2))]);
    assert_eq!(g.guesses.len(), 1);
    assert_eq!(g.guesses[0].user_id, 1);
}

#[test]
fn quitting_turn_holder_passes_the_turn() {
    let mut g = in_progress(3);
    g.game.turn_user_id = Some(3);
    assert_eq!(g.quit(3, NOW), Ok(()));
    assert_eq!(g.game.turn_user_id, Some(1));
    assert_eq!(g.game.turn_deadline, NOW + crankword::clock::TURN_SECONDS);
    assert_eq!(g.players.len(), 2);
    let mut p = pre_game(2);
    assert_eq!(p.quit(2, NOW), Ok(()));
    assert_eq!(p.players.len(), 1);
    assert_eq!(p.players[0].turn_order, None);
}

#[test]
fn cancel_and_finish_rules() {
    let mut g = in_progress(2);
    assert_eq!(g.cancel(2), Err(GameError::NotOwner));
    assert_eq!(g.cancel(1), Ok(()));
    assert_eq!(g.game.game_status, GameStatus::Cancelled);
    assert_eq!(g.game.turn_user_id, None);
    assert_eq!(g.cancel(1), Err(GameError::WrongState));
    assert_eq!(g.finish(None), Err(GameError::WrongState));
    let mut p = pre_game(2);
    assert_eq!(p.cancel(1), Ok(()));
    let mut f = in_progress(2);
    assert_eq!(f.finish(Some(2)), Ok(()));
    assert_eq!(f.game.winner_id, Some(2));
    assert_eq!(f.quit(2, NOW), Err(GameError::WrongState));
}

#[test]
fn new_game_has_its_owner_as_only_player() {
    let g = GameAndPlayers::new_game(4, "APPLE".to_string(), 7, "owner".to_string(), false, NOW);
    assert_eq!(g.game.game_status, GameStatus::PreGame);
    assert_eq!(g.players.len(), 1);
    assert_eq!(g.players[0].user_id, 7);
    assert!(g.user_is_player(7));
    assert!(!g.user_is_player(8));
    assert!(g.guesses.is_empty());
}

#[test]
fn status_names() {
    assert_eq!(GameStatus::PreGame.as_str(), "pre_game");
    assert_eq!(GameStatus::InProgress.as_str(), "in_progress");
    assert_eq!(GameStatus::Finished.as_str(), "finished");
    assert_eq!(GameStatus::Cancelled.as_str(), "cancelled");
    assert!(GameStatus::Cancelled.is_terminal());
    assert!(!GameStatus::PreGame.is_terminal());
}
