//! The answers the game sends back to a client, and the requests it takes.

use vstd::prelude::*;
use crate::turns::GuessAndScore;

verus! {

/// A failed request: a message and a status code.
pub struct ErrorResponse {
    pub error: String,
    pub code: u16,
}

/// The answer to a cancellation.
pub struct GameCancelled {
    pub success: bool,
    pub message: String,
}

/// The scores of every guess of a game.
pub struct AllPlayerScores {
    pub scores: Vec<GuessAndScore>,
}

pub struct InviteSuccessObject {
    pub invite_success: bool,
    pub message: String,
}

pub struct BootPlayerSuccessObject {
    pub success: bool,
    pub message: String,
}

pub struct UninviteSuccessObject {
    pub success: bool,
    pub message: String,
}

/// The games a user is invited to, by their public ids.
pub struct DashboardRefreshData {
    pub invited_game_hashes: Vec<String>,
}

pub struct JoinGameFailure {
    pub error: String,
    pub success: bool,
}

impl JoinGameFailure {
    pub fn new(message: String) -> (r: JoinGameFailure)
        ensures
            !r.success,
            r.error == message,
    {
        JoinGameFailure { success: false, error: message }
    }
}

pub struct LeaveGameFailure {
    pub error: String,
    pub success: bool,
}

pub struct StartGameFailure {
    pub error: String,
    pub success: bool,
}

pub struct JoinGameSuccess {
    pub success: bool,
}

pub struct LeaveGameSuccess {
    pub success: bool,
}

pub struct StartGameSuccess {
    pub success: bool,
}

/// A newly created game's id.
pub struct GameId {
    pub game_id: i32,
}

/// A game's public id.
pub struct HashedGameId {
    pub hashed_game_id: String,
}

pub struct InviteData {
    pub hashed_game_id: String,
    pub invited_player_username: String,
}

/// A guess sent by a player.
pub struct WordToCheck {
    pub guess_word: String,
    pub hashed_game_id: String,
}

/// The code the sign-in service hands back after a login.
pub struct AuthCodeQuery {
    pub code: String,
}

pub struct DeleteInviteData {
    pub username: String,
    pub hashed_game_id: String,
}

pub struct BootPlayerData {
    pub username: String,
    pub hashed_game_id: String,
}

/// The guess is not in the dictionary.
pub struct FakeWord {
    pub fake_word: bool,
}

impl FakeWord {
    pub fn new() -> (r: FakeWord)
        ensures
            r.fake_word,
    {
        FakeWord { fake_word: true }
    }
}

/// The player has no guesses left.
pub struct MaxGuesses {
    pub max_guesses: bool,
}

impl MaxGuesses {
    pub fn new() -> (r: MaxGuesses)
        ensures
            r.max_guesses,
    {
        MaxGuesses { max_guesses: true }
    }
}

/// It is not the player's turn.
pub struct WrongTurn {
    pub wrong_turn: bool,
}

impl WrongTurn {
    pub fn new() -> (r: WrongTurn)
        ensures
            r.wrong_turn,
    {
        WrongTurn { wrong_turn: true }
    }
}

} // verus!
