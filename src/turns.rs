//! One guess or one timeout check, end to end: the checks, the recorded
//! guess, the score, and the shared advance-or-finish step.

use vstd::prelude::*;
use vstd::string::StringExecFns;
use crate::clock::{compute_deadline, deadline_after, unix_now};
use crate::game::{
    count_guesses, find_player, guess_count, exhausted, in_turn_order, is_player, next_after,
    next_version, players_exhausted, Game, GameAndPlayers, GameError, GameStatus, Guess, Player,
    MAX_TURNS,
};
use crate::scoring::{all_right, check_guess, is_all_right, score_spec, score_uppercased, LetterScore};
use crate::text::{all_caps, join_cased, to_upper, upper_of, words};

verus! {

/// The scores of an accepted guess.
pub struct GuessOutcome {
    pub scores: Vec<LetterScore>,
    pub is_winner: bool,
    pub game_over: bool,
    /// Who plays next, while the game goes on.
    pub next_turn_id: Option<i32>,
}

/// What became of a guess that was not refused with an error.
pub enum GuessResult {
    Scored(GuessOutcome),
    /// It is another player's turn.
    WrongTurn,
    /// The player has no guesses left, or the guess has the wrong length.
    MaxGuessesReached,
    /// The guess is not in the dictionary.
    NotARealWord,
}

/// The scores of one recorded guess, without its word.
pub struct GuessAndScore {
    pub user_id: i32,
    pub guess_number: u32,
    pub scores: Vec<LetterScore>,
}

/// What a poll of a game in progress shows.
pub struct TurnRefreshOutcome {
    pub current_turn_id: Option<i32>,
    pub game_status: GameStatus,
    pub turn_deadline: i64,
    /// The poll found the turn run out and moved it on.
    pub advanced: bool,
    /// The scores of every guess, in the order they were made.
    pub scores: Vec<GuessAndScore>,
}

/// The word recorded for a turn that ran out: it holds no letter, so it
/// matches nothing.
pub open spec fn missed_word() -> Seq<char> {
    "-----"@
}

/// A guess, as the game records it: in upper case, one space between words.
pub open spec fn normalized(guess: Seq<char>) -> Seq<char> {
    join_cased(words(guess), true)
}

/// Why a guess is turned away, if it is: checked in this order.
pub open spec fn refusal(s: GameAndPlayers, user_id: i32, norm: Seq<char>, is_real_word: bool) -> Option<
    Result<GuessResult, GameError>,
> {
    let g = s.game;
    if !is_player(s.players@, user_id) {
        Some(Err(GameError::NotAParticipant))
    } else if g.game_status != GameStatus::InProgress {
        Some(Err(GameError::WrongState))
    } else if g.turn_user_id != Some(user_id) {
        Some(Ok(GuessResult::WrongTurn))
    } else if upper_of(norm).len() != upper_of(g.word@).len() || guess_count(s.guesses@, user_id)
        >= MAX_TURNS {
        Some(Ok(GuessResult::MaxGuessesReached))
    } else if !is_real_word {
        Some(Ok(GuessResult::NotARealWord))
    } else {
        None
    }
}

/// The game after its turn holder `holder` has played: finished without a
/// winner when every player has used all their guesses, else with the turn
/// passed on; the deadline runs from `now`.
pub open spec fn after_turn(g: Game, ps: Seq<Player>, gs: Seq<Guess>, holder: i32, now: i64) -> Game {
    if exhausted(ps, gs) {
        Game {
            game_status: GameStatus::Finished,
            winner_id: None,
            turn_user_id: None,
            turn_deadline: deadline_after(now),
            version: next_version(g.version),
            ..g
        }
    } else {
        Game {
            turn_user_id: Some(next_after(ps, holder)),
            turn_deadline: deadline_after(now),
            version: next_version(g.version),
            ..g
        }
    }
}

/// A poll by `acting_user_id` at `now` finds that the turn has run out.
pub open spec fn timeout_due(g: Game, acting_user_id: i32, now: i64) -> bool {
    &&& acting_user_id == g.owner_id
    &&& g.game_status == GameStatus::InProgress
    &&& now >= g.turn_deadline
}

/// `gs2` is `gs` with one more guess of `u`, numbered next, holding `word`.
pub open spec fn one_more_guess(gs: Seq<Guess>, gs2: Seq<Guess>, u: i32, word: Seq<char>, now: i64) -> bool {
    &&& gs2.len() == gs.len() + 1
    &&& gs2.drop_last() == gs
    &&& gs2.last().user_id == u
    &&& gs2.last().word@ == word
    &&& gs2.last().guess_number == guess_count(gs, u) + 1
    &&& gs2.last().created_timestamp == now
}

/// `a` carries the maker, number and scores of guess `g` against `secret`.
pub open spec fn score_of_guess(a: GuessAndScore, g: Guess, secret: Seq<char>) -> bool {
    &&& a.user_id == g.user_id
    &&& a.guess_number == g.guess_number
    &&& a.scores@ == score_spec(upper_of(g.word@), upper_of(secret))
}

/// `r` scores the guesses `gs` one for one, in their order.
pub open spec fn scores_of_guesses(r: Seq<GuessAndScore>, gs: Seq<Guess>, secret: Seq<char>) -> bool {
    &&& r.len() == gs.len()
    &&& forall|i: int| 0 <= i < r.len() ==> #[trigger] score_of_guess(r[i], gs[i], secret)
}

/// What a poll by `acting_user_id` at `now` does to the game `s`, leaving
/// `after`; `advanced` tells whether the turn had run out.
pub open spec fn refresh_effect(s: GameAndPlayers, after: GameAndPlayers, acting_user_id: i32, now: i64, advanced: bool) -> bool {
    let h = s.game.turn_user_id->0;
    if timeout_due(s.game, acting_user_id, now) {
        &&& advanced
        &&& after.players == s.players
        &&& if guess_count(s.guesses@, h) < MAX_TURNS {
            one_more_guess(s.guesses@, after.guesses@, h, missed_word(), now)
        } else {
            after.guesses == s.guesses
        }
        &&& after.game == after_turn(s.game, s.players@, after.guesses@, h, now)
    } else {
        !advanced && after == s
    }
}

/// The stored game after a write of `updated` that read version
/// `observed_version`: the write goes through only while the stored game is
/// still at that version.
pub open spec fn committed(stored: GameAndPlayers, updated: GameAndPlayers, observed_version: u64) -> GameAndPlayers {
    if stored.game.version == observed_version {
        updated
    } else {
        stored
    }
}

/// Writes `updated` over `stored` when the stored game is still at
/// `observed_version`, the version `updated` was computed from; tells whether
/// it did.
pub fn commit_if_current(stored: &mut GameAndPlayers, updated: GameAndPlayers, observed_version: u64) -> (r: bool)
    ensures
        r == (old(stored).game.version == observed_version),
        *final(stored) == committed(*old(stored), updated, observed_version),
{
    if stored.game.version == observed_version {
        *stored = updated;
        true
    } else {
        false
    }
}

/// A finished game turns away every further guess of its players with a
/// state error.
pub proof fn lemma_finished_refuses_guesses(s: GameAndPlayers, user_id: i32, norm: Seq<char>, is_real_word: bool)
    requires
        s.game.game_status == GameStatus::Finished,
        is_player(s.players@, user_id),
    ensures
        refusal(s, user_id, norm, is_real_word) == Some(Err::<GuessResult, GameError>(GameError::WrongState)),
{
}

/// A guess at the guess limit is turned away as `MaxGuessesReached`, so it
/// records nothing and changes nothing.
pub proof fn lemma_guess_over_limit_refused(s: GameAndPlayers, user_id: i32, norm: Seq<char>, is_real_word: bool)
    requires
        is_player(s.players@, user_id),
        s.game.game_status == GameStatus::InProgress,
        s.game.turn_user_id == Some(user_id),
        guess_count(s.guesses@, user_id) >= MAX_TURNS,
    ensures
        refusal(s, user_id, norm, is_real_word) == Some(Ok::<GuessResult, GameError>(GuessResult::MaxGuessesReached)),
{
}

/// Turn rotation through a guess: when N distinct players hold turn orders
/// 1 to N in roster order and the holder of order `k` plays without ending
/// the game, the turn passes to the holder of order `(k mod N) + 1`, with a
/// fresh deadline.
pub proof fn lemma_guess_passes_turn(g: Game, ps: Seq<Player>, gs: Seq<Guess>, k: int, now: i64)
    requires
        in_turn_order(ps),
        crate::game::ids_unique(ps),
        1 <= k <= ps.len(),
        !exhausted(ps, gs),
    ensures
        ({
            let n = ps.len() as int;
            let after = after_turn(g, ps, gs, ps[k - 1].user_id, now);
            &&& after.game_status == g.game_status
            &&& after.turn_user_id == Some(ps[k % n].user_id)
            &&& ps[k % n].turn_order == Some(((k % n) + 1) as u32)
            &&& after.turn_deadline == deadline_after(now)
        }),
{
    crate::game::lemma_turn_rotation(ps, k);
}

/// A timeout is handled once: right after a poll at `now`, a second poll
/// at the same time finds nothing to do and changes nothing.
pub proof fn lemma_refresh_not_repeated(
    s: GameAndPlayers,
    after: GameAndPlayers,
    acting_user_id: i32,
    now: i64,
    advanced: bool,
)
    requires
        now < i64::MAX,
        refresh_effect(s, after, acting_user_id, now, advanced),
    ensures
        !timeout_due(after.game, acting_user_id, now),
        forall|again: GameAndPlayers, advanced_again: bool|
            #[trigger] refresh_effect(after, again, acting_user_id, now, advanced_again) ==> again == after
                && !advanced_again,
{
}

/// Of two writes computed from the same read of a game, and each moving the
/// version on, only the first goes through: the second finds the version
/// moved and is refused, so a timeout or a guess is never applied twice.
pub proof fn lemma_stale_write_refused(
    stored: GameAndPlayers,
    first: GameAndPlayers,
    second: GameAndPlayers,
)
    requires
        first.game.version == next_version(stored.game.version),
        second.game.version == next_version(stored.game.version),
    ensures
        committed(stored, first, stored.game.version) == first,
        committed(first, second, stored.game.version) == first,
{
}

/// The scores of `norm` against `secret` are all `RightSpot` exactly when
/// the two are equal, for words of the same length.
proof fn lemma_all_right_iff_equal(norm: Seq<char>, secret: Seq<char>)
    requires
        norm.len() == secret.len(),
    ensures
        all_right(score_spec(norm, secret)) == (norm == secret),
{
    let sc = score_spec(norm, secret);
    if all_right(sc) {
        assert forall|i: int| 0 <= i < norm.len() implies norm[i] == secret[i] by {
            assert(sc[i] == LetterScore::RightSpot);
        }
        assert(norm =~= secret);
    }
}

impl GameAndPlayers {
    /// Records `word` as the next guess of `user_id`.
    fn record_guess(&mut self, user_id: i32, word: String, now: i64)
        requires
            old(self).wf(),
            is_player(old(self).players@, user_id),
            guess_count(old(self).guesses@, user_id) < MAX_TURNS,
            old(self).game.game_status == GameStatus::InProgress,
        ensures
            final(self).players == old(self).players,
            final(self).game == old(self).game,
            one_more_guess(old(self).guesses@, final(self).guesses@, user_id, word@, now),
            final(self).wf(),
    {
        let count = count_guesses(&self.guesses, user_id);
        let ghost gs = self.guesses@;
        let g = Guess { user_id, word, guess_number: (count + 1) as u32, created_timestamp: now };
        self.guesses.push(g);
        proof {
            let gs2 = self.guesses@;
            assert(gs2.drop_last() =~= gs);
            crate::game::lemma_numbered_push(gs, g);
            assert forall|k: int| 0 <= k < self.players@.len() implies guess_count(gs2, #[trigger] self.players@[k].user_id)
                <= MAX_TURNS by {
                crate::game::lemma_count_push(gs, g, self.players@[k].user_id);
            }
            assert forall|i: int| 0 <= i < gs2.len() implies is_player(self.players@, #[trigger] gs2[i].user_id) by {
                if i < gs.len() {
                    assert(gs2[i] == gs[i]);
                }
            }
        }
    }

    /// The step shared by a guess and a timeout: once `holder` has played,
    /// finish the game if nobody has a guess left, else pass the turn on.
    fn advance_or_finish(&mut self, holder: i32, now: i64)
        requires
            old(self).wf(),
            old(self).game.game_status == GameStatus::InProgress,
            is_player(old(self).players@, holder),
        ensures
            final(self).players == old(self).players,
            final(self).guesses == old(self).guesses,
            final(self).game == after_turn(old(self).game, old(self).players@, old(self).guesses@, holder, now),
            final(self).wf(),
    {
        let next = crate::game::advance_turn(&self.players, Some(holder));
        let next = match next {
            Ok(u) => u,
            Err(_) => {
                assert(false);
                holder
            },
        };
        let deadline = compute_deadline(now);
        self.game.turn_deadline = deadline;
        self.game.version = self.game.version.wrapping_add(1);
        if players_exhausted(&self.players, &self.guesses) {
            self.game.game_status = GameStatus::Finished;
            self.game.winner_id = None;
            self.game.turn_user_id = None;
        } else {
            self.game.turn_user_id = Some(next);
            proof {
                let ps = self.players@;
                let k = crate::game::position_of(ps, holder);
                let m = (k + 1) % (ps.len() as int);
                assert(0 <= m < ps.len()) by {
                    vstd::arithmetic::div_mod::lemma_mod_bound(k + 1, ps.len() as int);
                }
                assert(ps[m].user_id == next);
            }
        }
    }

    /// Takes a guess of `user_id`, made at `now`. `is_real_word` is the
    /// dictionary's verdict on the guess.
    ///
    /// The guess is normalised to upper case and checked in this order: the
    /// user plays in the game, the game is in progress, the turn is theirs,
    /// the guess has the secret's length and they have a guess left, and the
    /// word is real. A guess that passes is recorded with the next guess
    /// number and scored against the secret, both words in upper case. A
    /// correct guess finishes the game with its maker as
    /// the winner; any other passes the turn on, or finishes the game without
    /// a winner when nobody has a guess left.
    pub fn submit_guess(&mut self, user_id: i32, guess_word: &str, is_real_word: bool, now: i64) -> (r: Result<
        GuessResult,
        GameError,
    >)
        requires
            old(self).wf(),
        ensures
            final(self).wf(),
            ({
                let s = *old(self);
                let norm = normalized(guess_word@);
                match refusal(s, user_id, norm, is_real_word) {
                    Some(x) => r == x && *final(self) == s,
                    None => match r {
                        Ok(GuessResult::Scored(o)) => {
                            &&& o.scores@ == score_spec(upper_of(norm), upper_of(s.game.word@))
                            &&& o.is_winner == all_right(o.scores@)
                            &&& o.is_winner == (upper_of(norm) == upper_of(s.game.word@))
                            &&& final(self).players == s.players
                            &&& one_more_guess(s.guesses@, final(self).guesses@, user_id, norm, now)
                            &&& if o.is_winner {
                                &&& final(self).game == (Game {
                                    game_status: GameStatus::Finished,
                                    winner_id: Some(user_id),
                                    turn_user_id: None,
                                    version: next_version(s.game.version),
                                    ..s.game
                                })
                                &&& o.game_over
                                &&& o.next_turn_id is None
                            } else {
                                &&& final(self).game == after_turn(
                                    s.game,
                                    s.players@,
                                    final(self).guesses@,
                                    user_id,
                                    now,
                                )
                                &&& o.game_over == (final(self).game.game_status == GameStatus::Finished)
                                &&& o.next_turn_id == final(self).game.turn_user_id
                            }
                        },
                        _ => false,
                    },
                }
            }),
    {
        let norm = all_caps(guess_word);
        if find_player(&self.players, user_id).is_none() {
            return Err(GameError::NotAParticipant);
        }
        if self.game.game_status != GameStatus::InProgress {
            return Err(GameError::WrongState);
        }
        if self.game.turn_user_id != Some(user_id) {
            return Ok(GuessResult::WrongTurn);
        }
        let guess_upper = to_upper(norm.as_str());
        let secret_upper = to_upper(self.game.word.as_str());
        let secret_len = crate::scoring::chars_of(secret_upper.as_str()).len();
        let guess_len = crate::scoring::chars_of(guess_upper.as_str()).len();
        if guess_len != secret_len || count_guesses(&self.guesses, user_id) >= MAX_TURNS {
            return Ok(GuessResult::MaxGuessesReached);
        }
        if !is_real_word {
            return Ok(GuessResult::NotARealWord);
        }
        let scores = score_uppercased(&guess_upper, &secret_upper);
        let is_winner = is_all_right(&scores);
        proof {
            lemma_all_right_iff_equal(guess_upper@, secret_upper@);
        }
        self.record_guess(user_id, norm, now);
        if is_winner {
            self.game.game_status = GameStatus::Finished;
            self.game.winner_id = Some(user_id);
            self.game.turn_user_id = None;
            self.game.version = self.game.version.wrapping_add(1);
            Ok(GuessResult::Scored(GuessOutcome { scores, is_winner, game_over: true, next_turn_id: None }))
        } else {
            self.advance_or_finish(user_id, now);
            let game_over = self.game.game_status == GameStatus::Finished;
            Ok(
                GuessResult::Scored(
                    GuessOutcome { scores, is_winner, game_over, next_turn_id: self.game.turn_user_id },
                ),
            )
        }
    }

    /// A poll of the game by `acting_user_id` at `now`. When the owner polls
    /// a game in progress whose turn has run out, the turn holder forfeits
    /// the turn: a missed guess is recorded in their name (while they have a
    /// guess left), and the game goes on exactly as after a guess of theirs.
    /// Any other poll changes nothing.
    pub fn refresh_turn(&mut self, acting_user_id: i32, now: i64) -> (r: TurnRefreshOutcome)
        requires
            old(self).wf(),
        ensures
            final(self).wf(),
            refresh_effect(*old(self), *final(self), acting_user_id, now, r.advanced),
            r.current_turn_id == final(self).game.turn_user_id,
            r.game_status == final(self).game.game_status,
            r.turn_deadline == final(self).game.turn_deadline,
            scores_of_guesses(r.scores@, final(self).guesses@, final(self).game.word@),
    {
        let due = acting_user_id == self.game.owner_id && self.game.game_status == GameStatus::InProgress
            && crate::clock::is_expired(self.game.turn_deadline, now);
        if due {
            let holder = match self.game.turn_user_id {
                Some(u) => u,
                None => {
                    assert(false);
                    acting_user_id
                },
            };
            if count_guesses(&self.guesses, holder) < MAX_TURNS {
                proof {
                    reveal_strlit("-----");
                }
                self.record_guess(holder, String::from_str("-----"), now);
            }
            self.advance_or_finish(holder, now);
        }
        let scores = self.guess_scores();
        TurnRefreshOutcome {
            current_turn_id: self.game.turn_user_id,
            game_status: self.game.game_status,
            turn_deadline: self.game.turn_deadline,
            advanced: due,
            scores,
        }
    }

    /// A poll at the current time; otherwise as
    /// [`GameAndPlayers::refresh_turn`].
    pub fn refresh_turn_now(&mut self, acting_user_id: i32) -> (r: TurnRefreshOutcome)
        requires
            old(self).wf(),
        ensures
            final(self).wf(),
            r.current_turn_id == final(self).game.turn_user_id,
            r.game_status == final(self).game.game_status,
            r.turn_deadline == final(self).game.turn_deadline,
            scores_of_guesses(r.scores@, final(self).guesses@, final(self).game.word@),
            exists|now: i64| #[trigger] refresh_effect(*old(self), *final(self), acting_user_id, now, r.advanced),
    {
        let ghost before = *self;
        let now = unix_now();
        let r = self.refresh_turn(acting_user_id, now);
        assert(refresh_effect(before, *self, acting_user_id, now, r.advanced));
        r
    }

    /// The scores of every recorded guess against the secret.
    pub fn guess_scores(&self) -> (r: Vec<GuessAndScore>)
        ensures
            scores_of_guesses(r@, self.guesses@, self.game.word@),
    {
        let mut r: Vec<GuessAndScore> = Vec::new();
        let mut i: usize = 0;
        while i < self.guesses.len()
            invariant
                i <= self.guesses@.len(),
                scores_of_guesses(r@, self.guesses@.subrange(0, i as int), self.game.word@),
            decreases self.guesses@.len() - i,
        {
            let g = &self.guesses[i];
            let scores = check_guess(&g.word, &self.game.word);
            let ghost old_r = r@;
            r.push(GuessAndScore { user_id: g.user_id, guess_number: g.guess_number, scores });
            proof {
                let gs2 = self.guesses@.subrange(0, i + 1);
                assert forall|j: int| 0 <= j < r@.len() implies #[trigger] score_of_guess(r@[j], gs2[j], self.game.word@) by {
                    if j < i {
                        assert(r@[j] == old_r[j]);
                        assert(gs2[j] == self.guesses@.subrange(0, i as int)[j]);
                        assert(score_of_guess(old_r[j], self.guesses@.subrange(0, i as int)[j], self.game.word@));
                    }
                }
            }
            i = i + 1;
        }
        assert(self.guesses@.subrange(0, self.guesses@.len() as int) =~= self.guesses@);
        r
    }
}

} // verus!
