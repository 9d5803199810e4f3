//! Row identifiers as the store keys them, and the summary of a game in a
//! user's list of games.

use vstd::prelude::*;
use crate::game::GameStatus;

verus! {

/// A user id, widened to the store's key type.
pub struct UserId {
    user_id: i64,
}

impl UserId {
    pub fn new(id: i32) -> (r: UserId)
        ensures
            r.get_id_spec() == id as i64,
    {
        UserId { user_id: id as i64 }
    }

    pub closed spec fn get_id_spec(&self) -> i64 {
        self.user_id
    }

    pub fn get_id(&self) -> (r: i64)
        ensures
            r == self.get_id_spec(),
    {
        self.user_id
    }
}

/// A game id, widened to the store's key type.
pub struct GameId {
    game_id: i64,
}

impl GameId {
    pub fn new(id: i32) -> (r: GameId)
        ensures
            r.get_id_spec() == id as i64,
    {
        GameId { game_id: id as i64 }
    }

    pub closed spec fn get_id_spec(&self) -> i64 {
        self.game_id
    }

    pub fn get_id(&self) -> (r: i64)
        ensures
            r == self.get_id_spec(),
    {
        self.game_id
    }
}

/// One entry of a user's list of games.
pub struct GameItemData {
    pub game_id: i32,
    pub status: GameStatus,
    pub number_of_players: u8,
}

} // verus!
