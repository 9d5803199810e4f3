//! Status changes of a game: joining and leaving, the start with its random
//! turn order, finishing and cancelling.

use vstd::prelude::*;
use crate::clock::{compute_deadline, deadline_after, QUIT_WINDOW_SECONDS};
use crate::game::{
    find_player, guess_count, ids_unique, is_player, is_terminal, lemma_count_push,
    lemma_numbered_push, next_after, next_version, numbered, position_of, Game, GameAndPlayers,
    GameError, GameStatus, Guess, Player,
};
use crate::text::MAX_PLAYERS;

verus! {

/// The roster after `u` leaves a game: everyone else in the same order,
/// with turn orders renumbered from 1 when `ordered`.
pub open spec fn roster_without(old_ps: Seq<Player>, new_ps: Seq<Player>, k: int, ordered: bool) -> bool {
    let rest = old_ps.remove(k);
    &&& new_ps.len() == rest.len()
    &&& renumbered_prefix(new_ps, rest, ordered)
}

/// Player `j` of `new_ps` is player `j` of `rest`, renumbered.
pub open spec fn renumbered_at(new_ps: Seq<Player>, rest: Seq<Player>, ordered: bool, j: int) -> bool {
    &&& new_ps[j].user_id == rest[j].user_id
    &&& new_ps[j].username == rest[j].username
    &&& new_ps[j].turn_order == (if ordered {
        Some((j + 1) as u32)
    } else {
        None
    })
}

/// Each player of `new_ps` is the player of `rest` at the same position,
/// renumbered.
pub open spec fn renumbered_prefix(new_ps: Seq<Player>, rest: Seq<Player>, ordered: bool) -> bool {
    forall|j: int| 0 <= j < new_ps.len() ==> #[trigger] renumbered_at(new_ps, rest, ordered, j)
}

/// The guesses of `gs` that do not belong to `u`, in their order.
pub open spec fn guesses_without(gs: Seq<Guess>, u: i32) -> Seq<Guess>
    decreases gs.len(),
{
    if gs.len() == 0 {
        seq![]
    } else {
        let r = guesses_without(gs.drop_last(), u);
        if gs.last().user_id == u {
            r
        } else {
            r.push(gs.last())
        }
    }
}

/// The time of the latest guess of `u` in `gs`, if any.
pub open spec fn last_guess_time(gs: Seq<Guess>, u: i32) -> Option<i64>
    decreases gs.len(),
{
    if gs.len() == 0 {
        None
    } else if gs.last().user_id == u {
        Some(gs.last().created_timestamp)
    } else {
        last_guess_time(gs.drop_last(), u)
    }
}

/// A player whose latest guess (if any) is at least the quit window old
/// at `now` may quit a game in progress.
pub open spec fn may_quit(gs: Seq<Guess>, u: i32, now: i64) -> bool {
    match last_guess_time(gs, u) {
        None => true,
        Some(t) => now - t >= QUIT_WINDOW_SECONDS,
    }
}

/// The players in the order the draws take them: each draw picks, by its
/// position, one of the players not drawn yet.
pub open spec fn drawn(pool: Seq<Player>, draws: Seq<usize>) -> Seq<Player>
    decreases draws.len(),
{
    if draws.len() == 0 {
        seq![]
    } else if (draws[0] as int) < pool.len() {
        seq![pool[draws[0] as int]] + drawn(pool.remove(draws[0] as int), draws.drop_first())
    } else {
        seq![]
    }
}

/// `draws` picks each of `n` players once: the `i`-th draw is below the
/// number of players still left, `n - i`.
pub open spec fn valid_draws(draws: Seq<usize>, n: int) -> bool {
    &&& draws.len() == n
    &&& forall|i: int| 0 <= i < n ==> #[trigger] draws[i] < n - i
}

/// What starting the game does, given the draws of the shuffle.
pub open spec fn start_outcome(
    acting_user_id: i32,
    before: GameAndPlayers,
    after: GameAndPlayers,
    draws: Seq<usize>,
    now: i64,
    r: Result<i32, GameError>,
) -> bool {
    let ps = before.players@;
    if acting_user_id != before.game.owner_id {
        r == Err::<i32, GameError>(GameError::NotOwner) && after == before
    } else if before.game.game_status != GameStatus::PreGame {
        r == Err::<i32, GameError>(GameError::WrongState) && after == before
    } else if ps.len() == 0 {
        r == Err::<i32, GameError>(GameError::NoPlayers) && after == before
    } else {
        let d = drawn(ps, draws);
        &&& after.players@.len() == ps.len()
        &&& renumbered_prefix(after.players@, d, true)
        &&& after.guesses == before.guesses
        &&& r == Ok::<i32, GameError>(d.last().user_id)
        &&& after.game == (Game {
            game_status: GameStatus::InProgress,
            turn_user_id: Some(d.last().user_id),
            turn_deadline: deadline_after(now),
            version: next_version(before.game.version),
            ..before.game
        })
    }
}

/// Every player of the pool is among those drawn.
proof fn lemma_drawn_keeps(pool: Seq<Player>, draws: Seq<usize>, j: int)
    requires
        valid_draws(draws, pool.len() as int),
        0 <= j < pool.len(),
    ensures
        is_player(drawn(pool, draws), pool[j].user_id),
    decreases draws.len(),
{
    let n = pool.len() as int;
    let d = draws[0] as int;
    assert(draws[0] < n - 0);
    let rest = pool.remove(d);
    let ds = draws.drop_first();
    let out = drawn(pool, draws);
    if j == d {
        assert(out[0] == pool[j]);
    } else {
        let j2 = if j < d { j } else { j - 1 };
        assert(rest[j2] == pool[j]);
        assert forall|i: int| 0 <= i < n - 1 implies #[trigger] ds[i] < (n - 1) - i by {
            assert(draws[i + 1] < n - (i + 1));
        }
        lemma_drawn_keeps(rest, ds, j2);
        let k = choose|k: int| 0 <= k < drawn(rest, ds).len() && #[trigger] drawn(rest, ds)[k].user_id
            == pool[j].user_id;
        assert(out[k + 1] == drawn(rest, ds)[k]);
    }
}

/// Every drawn player comes from the pool, and no user is drawn twice.
proof fn lemma_drawn_unique(pool: Seq<Player>, draws: Seq<usize>)
    requires
        valid_draws(draws, pool.len() as int),
        ids_unique(pool),
    ensures
        ids_unique(drawn(pool, draws)),
        forall|i: int| 0 <= i < drawn(pool, draws).len() ==> is_player(pool, #[trigger] drawn(pool, draws)[i].user_id),
    decreases draws.len(),
{
    if draws.len() > 0 {
        let n = pool.len() as int;
        let d = draws[0] as int;
        assert(draws[0] < n - 0);
        let rest = pool.remove(d);
        let ds = draws.drop_first();
        assert forall|i: int| 0 <= i < n - 1 implies #[trigger] ds[i] < (n - 1) - i by {
            assert(draws[i + 1] < n - (i + 1));
        }
        assert forall|i: int, j: int| 0 <= i < j < rest.len() implies #[trigger] rest[i].user_id != #[trigger] rest[j].user_id by {
            let i2 = if i < d { i } else { i + 1 };
            let j2 = if j < d { j } else { j + 1 };
            assert(rest[i] == pool[i2]);
            assert(rest[j] == pool[j2]);
        }
        lemma_drawn_unique(rest, ds);
        let tail = drawn(rest, ds);
        let out = drawn(pool, draws);
        assert(out == seq![pool[d]] + tail);
        assert forall|i: int| 0 <= i < tail.len() implies #[trigger] tail[i].user_id != pool[d].user_id by {
            let m = choose|m: int| 0 <= m < rest.len() && #[trigger] rest[m].user_id == tail[i].user_id;
            let m2 = if m < d { m } else { m + 1 };
            assert(rest[m] == pool[m2]);
        }
        assert forall|i: int, j: int| 0 <= i < j < out.len() implies #[trigger] out[i].user_id != #[trigger] out[j].user_id by {
            assert(out[j] == tail[j - 1]);
            if i > 0 {
                assert(out[i] == tail[i - 1]);
            }
        }
        assert forall|i: int| 0 <= i < out.len() implies is_player(pool, #[trigger] out[i].user_id) by {
            if i == 0 {
                assert(pool[d].user_id == out[0].user_id);
            } else {
                assert(out[i] == tail[i - 1]);
                let m = choose|m: int| 0 <= m < rest.len() && #[trigger] rest[m].user_id == tail[i - 1].user_id;
                let m2 = if m < d { m } else { m + 1 };
                assert(rest[m] == pool[m2]);
            }
        }
    }
}

/// A player at a position other than the one removed stays in the roster.
proof fn lemma_kept_index(ps: Seq<Player>, new_ps: Seq<Player>, k: int, ordered: bool, m: int)
    requires
        0 <= k < ps.len(),
        0 <= m < ps.len(),
        m != k,
        roster_without(ps, new_ps, k, ordered),
    ensures
        is_player(new_ps, ps[m].user_id),
{
    let m2 = if m < k { m } else { m - 1 };
    assert(ps.remove(k)[m2] == ps[m]);
    assert(renumbered_at(new_ps, ps.remove(k), ordered, m2));
}

proof fn lemma_count_without(gs: Seq<Guess>, u: i32, v: i32)
    ensures
        guess_count(guesses_without(gs, u), v) == if v == u {
            0
        } else {
            guess_count(gs, v)
        },
    decreases gs.len(),
{
    if gs.len() > 0 {
        lemma_count_without(gs.drop_last(), u, v);
        let r = guesses_without(gs.drop_last(), u);
        if gs.last().user_id != u {
            assert(r.push(gs.last()).drop_last() =~= r);
        }
    }
}

/// Taking out every guess of one user keeps the others' numbering.
proof fn lemma_without_numbered(gs: Seq<Guess>, u: i32)
    requires
        numbered(gs),
    ensures
        numbered(guesses_without(gs, u)),
    decreases gs.len(),
{
    if gs.len() > 0 {
        let prev = gs.drop_last();
        let x = gs.last();
        assert forall|i: int| 0 <= i < prev.len() implies #[trigger] prev[i].guess_number == guess_count(prev.subrange(0, i + 1), prev[i].user_id) by {
            assert(prev.subrange(0, i + 1) =~= gs.subrange(0, i + 1));
            assert(prev[i] == gs[i]);
        }
        lemma_without_numbered(prev, u);
        if x.user_id != u {
            let w = guesses_without(prev, u);
            lemma_count_without(prev, u, x.user_id);
            assert(prev.push(x) =~= gs);
            lemma_count_push(prev, x, x.user_id);
            assert(gs.subrange(0, gs.len() as int) =~= gs);
            assert(gs[gs.len() - 1] == x);
            lemma_numbered_push(w, x);
        }
    }
}

proof fn lemma_without_users(gs: Seq<Guess>, u: i32, i: int)
    requires
        0 <= i < guesses_without(gs, u).len(),
    ensures
        guesses_without(gs, u)[i].user_id != u,
        exists|j: int| 0 <= j < gs.len() && #[trigger] gs[j] == guesses_without(gs, u)[i],
    decreases gs.len(),
{
    let r = guesses_without(gs.drop_last(), u);
    if i < r.len() {
        lemma_without_users(gs.drop_last(), u, i);
        let j = choose|j: int| 0 <= j < gs.drop_last().len() && #[trigger] gs.drop_last()[j] == r[i];
        assert(gs[j] == guesses_without(gs, u)[i]);
    } else {
        assert(gs[gs.len() - 1] == guesses_without(gs, u)[i]);
    }
}

/// The guesses of `gs` that do not belong to `u`.
fn remove_guesses_of(gs: &Vec<Guess>, u: i32) -> (r: Vec<Guess>)
    ensures
        r@ == guesses_without(gs@, u),
{
    let mut r: Vec<Guess> = Vec::new();
    let mut i: usize = 0;
    while i < gs.len()
        invariant
            i <= gs@.len(),
            r@ == guesses_without(gs@.subrange(0, i as int), u),
        decreases gs@.len() - i,
    {
        assert(gs@.subrange(0, i + 1).drop_last() =~= gs@.subrange(0, i as int));
        if gs[i].user_id != u {
            let g = &gs[i];
            r.push(Guess {
                user_id: g.user_id,
                word: g.word.clone(),
                guess_number: g.guess_number,
                created_timestamp: g.created_timestamp,
            });
        }
        i = i + 1;
    }
    assert(gs@.subrange(0, gs@.len() as int) =~= gs@);
    r
}

/// The time of the latest guess of `u`, if any.
fn latest_guess_time(gs: &Vec<Guess>, u: i32) -> (r: Option<i64>)
    ensures
        r == last_guess_time(gs@, u),
{
    let mut i: usize = gs.len();
    assert(gs@.subrange(0, gs@.len() as int) =~= gs@);
    while i > 0
        invariant
            i <= gs@.len(),
            last_guess_time(gs@, u) == last_guess_time(gs@.subrange(0, i as int), u),
        decreases i,
    {
        let ghost pre = gs@.subrange(0, i as int);
        assert(pre.drop_last() =~= gs@.subrange(0, i - 1));
        if gs[i - 1].user_id == u {
            return Some(gs[i - 1].created_timestamp);
        }
        i = i - 1;
    }
    None
}

/// `ps` without position `k`, with turn orders renumbered from 1 when
/// `ordered` and cleared otherwise.
fn roster_after_leave(ps: &Vec<Player>, k: usize, ordered: bool) -> (r: Vec<Player>)
    requires
        k < ps@.len() < u32::MAX,
    ensures
        roster_without(ps@, r@, k as int, ordered),
{
    let ghost rest = ps@.remove(k as int);
    let mut r: Vec<Player> = Vec::new();
    let mut i: usize = 0;
    while i < ps.len()
        invariant
            k < ps@.len() < u32::MAX,
            rest == ps@.remove(k as int),
            i <= ps@.len(),
            r@.len() == (if i <= k { i as int } else { i - 1 }),
            renumbered_prefix(r@, rest, ordered),
        decreases ps@.len() - i,
    {
        let ghost old_r = r@;
        if i != k {
            let p = &ps[i];
            assert(rest[r@.len() as int] == ps@[i as int]);
            let turn_order = if ordered {
                Some((r.len() + 1) as u32)
            } else {
                None
            };
            r.push(Player { user_id: p.user_id, username: p.username.clone(), turn_order });
        }
        assert(renumbered_prefix(r@, rest, ordered)) by {
            assert forall|j: int| 0 <= j < r@.len() implies #[trigger] renumbered_at(r@, rest, ordered, j) by {
                if j < old_r.len() {
                    assert(r@[j] == old_r[j]);
                    assert(renumbered_at(old_r, rest, ordered, j));
                }
            }
        }
        i = i + 1;
    }
    r
}

/// Relies on `rand::Rng::random_range` over `rand::rng()`: a value in `0..n`.
#[verifier::external_body]
fn uniform_index(n: usize) -> (r: usize)
    requires
        n > 0,
    ensures
        r < n,
{
    rand::Rng::random_range(&mut rand::rng(), 0..n)
}

impl GameAndPlayers {
    /// Starts the game: the owner's action, on a game that has not started
    /// and has players. The players are drawn one at a time, the `i`-th
    /// draw picking by position among those not drawn yet; they take turn
    /// orders 1 to N in the order drawn, and the turn goes to the player
    /// drawn last. The turn deadline runs from `now`. Returns that player.
    pub fn start_game(&mut self, acting_user_id: i32, draws: &Vec<usize>, now: i64) -> (r: Result<i32, GameError>)
        requires
            old(self).wf(),
            valid_draws(draws@, old(self).players@.len() as int),
        ensures
            final(self).wf(),
            start_outcome(acting_user_id, *old(self), *final(self), draws@, now, r),
    {
        if acting_user_id != self.game.owner_id {
            return Err(GameError::NotOwner);
        }
        if self.game.game_status != GameStatus::PreGame {
            return Err(GameError::WrongState);
        }
        let n = self.players.len();
        if n == 0 {
            return Err(GameError::NoPlayers);
        }
        let ghost before = *self;
        let ghost orig = self.players@;
        let mut pool: Vec<Player> = Vec::new();
        std::mem::swap(&mut pool, &mut self.players);
        let mut out: Vec<Player> = Vec::new();
        let ghost mut taken: Seq<Player> = seq![];
        let mut i: usize = 0;
        assert(draws@.subrange(0, n as int) =~= draws@);
        assert(taken + drawn(pool@, draws@.subrange(0, n as int)) =~= drawn(orig, draws@));
        while i < n
            invariant
                n == orig.len() == draws@.len(),
                n < u32::MAX,
                valid_draws(draws@, n as int),
                i <= n,
                pool@.len() == n - i,
                taken.len() == i,
                out@.len() == i,
                drawn(orig, draws@) == taken + drawn(pool@, draws@.subrange(i as int, n as int)),
                renumbered_prefix(out@, taken, true),
            decreases n - i,
        {
            let d = draws[i];
            assert(draws@[i as int] < n - i);
            let ghost ds = draws@.subrange(i as int, n as int);
            assert(ds[0] == d);
            assert(ds.drop_first() =~= draws@.subrange(i + 1, n as int));
            let ghost old_pool = pool@;
            let ghost old_out = out@;
            let ghost old_taken = taken;
            let p = pool.remove(d);
            proof {
                assert(drawn(old_pool, ds) == seq![p] + drawn(pool@, draws@.subrange(i + 1, n as int)));
                taken = taken.push(p);
                assert(old_taken + (seq![p] + drawn(pool@, draws@.subrange(i + 1, n as int))) =~= taken
                    + drawn(pool@, draws@.subrange(i + 1, n as int)));
            }
            out.push(Player { user_id: p.user_id, username: p.username, turn_order: Some((i + 1) as u32) });
            assert forall|j: int| 0 <= j < out@.len() implies #[trigger] renumbered_at(out@, taken, true, j) by {
                if j < i {
                    assert(out@[j] == old_out[j]);
                    assert(taken[j] == old_taken[j]);
                    assert(renumbered_at(old_out, old_taken, true, j));
                }
            }
            i = i + 1;
        }
        assert(draws@.subrange(n as int, n as int) =~= seq![]);
        assert(taken + seq![] =~= taken);
        let first = out[n - 1].user_id;
        assert(renumbered_at(out@, taken, true, n - 1));
        self.players = out;
        self.game.game_status = GameStatus::InProgress;
        self.game.turn_user_id = Some(first);
        self.game.turn_deadline = compute_deadline(now);
        self.game.version = self.game.version.wrapping_add(1);
        proof {
            let ps = self.players@;
            assert(is_player(ps, first)) by {
                assert(ps[n - 1].user_id == first);
            }
            assert forall|k: int| 0 <= k < ps.len() implies #[trigger] ps[k].turn_order == Some((k + 1) as u32) by {
                assert(renumbered_at(ps, taken, true, k));
            }
            let ko = choose|k: int| 0 <= k < orig.len() && #[trigger] orig[k].user_id == before.game.owner_id;
            lemma_drawn_keeps(orig, draws@, ko);
            lemma_drawn_unique(orig, draws@);
            assert forall|a: int, b: int| 0 <= a < b < ps.len() implies #[trigger] ps[a].user_id != #[trigger] ps[b].user_id by {
                assert(renumbered_at(ps, taken, true, a));
                assert(renumbered_at(ps, taken, true, b));
            }
            let m = choose|m: int| 0 <= m < taken.len() && #[trigger] taken[m].user_id == before.game.owner_id;
            assert(renumbered_at(ps, taken, true, m));
            assert(ps[m].user_id == before.game.owner_id);
            assert forall|k: int| 0 <= k < ps.len() implies guess_count(self.guesses@, #[trigger] ps[k].user_id) <= crate::game::MAX_TURNS by {
                assert(self.guesses@.len() == 0);
            }
        }
        Ok(first)
    }

    /// Starts the game with a shuffle drawn from the thread's random
    /// generator; otherwise as [`GameAndPlayers::start_game`].
    pub fn start_game_random(&mut self, acting_user_id: i32, now: i64) -> (r: Result<i32, GameError>)
        requires
            old(self).wf(),
        ensures
            final(self).wf(),
            exists|draws: Seq<usize>|
                valid_draws(draws, old(self).players@.len() as int) && start_outcome(
                    acting_user_id,
                    *old(self),
                    *final(self),
                    draws,
                    now,
                    r,
                ),
    {
        let ghost before = *self;
        let n = self.players.len();
        let mut draws: Vec<usize> = Vec::new();
        let mut i: usize = 0;
        while i < n
            invariant
                n == old(self).players@.len(),
                i <= n,
                draws@.len() == i,
                forall|j: int| 0 <= j < i ==> #[trigger] draws@[j] < n - j,
            decreases n - i,
        {
            draws.push(uniform_index(n - i));
            i = i + 1;
        }
        let r = self.start_game(acting_user_id, &draws, now);
        assert(valid_draws(draws@, n as int) && start_outcome(acting_user_id, before, *self, draws@, now, r));
        r
    }

    /// Finishes a game in progress, with `winner_id` as its winner if any.
    /// Refused on a game not in progress.
    pub fn finish(&mut self, winner_id: Option<i32>) -> (r: Result<(), GameError>)
        requires
            old(self).wf(),
        ensures
            final(self).wf(),
            final(self).players == old(self).players,
            final(self).guesses == old(self).guesses,
            if old(self).game.game_status == GameStatus::InProgress {
                &&& r == Ok::<(), GameError>(())
                &&& final(self).game == (Game {
                    game_status: GameStatus::Finished,
                    winner_id,
                    turn_user_id: None,
                    version: next_version(old(self).game.version),
                    ..old(self).game
                })
            } else {
                r == Err::<(), GameError>(GameError::WrongState) && final(self).game == old(self).game
            },
    {
        if self.game.game_status != GameStatus::InProgress {
            return Err(GameError::WrongState);
        }
        self.game.game_status = GameStatus::Finished;
        self.game.winner_id = winner_id;
        self.game.turn_user_id = None;
        self.game.version = self.game.version.wrapping_add(1);
        Ok(())
    }

    /// Cancels a game that has not ended: the owner's action.
    pub fn cancel(&mut self, acting_user_id: i32) -> (r: Result<(), GameError>)
        requires
            old(self).wf(),
        ensures
            final(self).wf(),
            final(self).players == old(self).players,
            final(self).guesses == old(self).guesses,
            r == (if acting_user_id != old(self).game.owner_id {
                Err(GameError::NotOwner)
            } else if is_terminal(old(self).game.game_status) {
                Err(GameError::WrongState)
            } else {
                Ok(())
            }),
            r is Err ==> final(self).game == old(self).game,
            r is Ok ==> final(self).game == (Game {
                game_status: GameStatus::Cancelled,
                turn_user_id: None,
                version: next_version(old(self).game.version),
                ..old(self).game
            }),
    {
        if acting_user_id != self.game.owner_id {
            return Err(GameError::NotOwner);
        }
        if self.game.game_status.is_terminal() {
            return Err(GameError::WrongState);
        }
        self.game.game_status = GameStatus::Cancelled;
        self.game.turn_user_id = None;
        self.game.version = self.game.version.wrapping_add(1);
        Ok(())
    }

    /// Takes `user_id` out of the game, together with all their guesses.
    ///
    /// Before the start any player but the owner may leave. In a game in
    /// progress a player may quit only when their own latest guess, if any,
    /// is at least the quit window old; if they hold the turn, it passes to
    /// the next player first, with a fresh deadline. The owner cannot leave
    /// (they cancel instead), and nobody leaves an ended game. The remaining
    /// players keep their order; once the game has started their turn orders
    /// are renumbered from 1.
    pub fn quit(&mut self, user_id: i32, now: i64) -> (r: Result<(), GameError>)
        requires
            old(self).wf(),
        ensures
            final(self).wf(),
            ({
                let ps = old(self).players@;
                let gs = old(self).guesses@;
                let g = old(self).game;
                r == (if !is_player(ps, user_id) {
                    Err(GameError::NotAParticipant)
                } else if user_id == g.owner_id {
                    Err(GameError::OwnerCannotLeave)
                } else if g.game_status == GameStatus::PreGame {
                    Ok(())
                } else if g.game_status == GameStatus::InProgress {
                    if may_quit(gs, user_id, now) {
                        Ok(())
                    } else {
                        Err(GameError::QuitTooSoon)
                    }
                } else {
                    Err(GameError::WrongState)
                })
            }),
            r is Err ==> *final(self) == *old(self),
            r is Ok ==> ({
                let ps = old(self).players@;
                let g = old(self).game;
                let in_progress = g.game_status == GameStatus::InProgress;
                let passes = in_progress && g.turn_user_id == Some(user_id);
                &&& roster_without(ps, final(self).players@, position_of(ps, user_id), in_progress)
                &&& final(self).guesses@ == guesses_without(old(self).guesses@, user_id)
                &&& final(self).game == (Game {
                    turn_user_id: if passes {
                        Some(next_after(ps, user_id))
                    } else {
                        g.turn_user_id
                    },
                    turn_deadline: if passes {
                        deadline_after(now)
                    } else {
                        g.turn_deadline
                    },
                    version: next_version(g.version),
                    ..g
                })
            }),
    {
        let k = match find_player(&self.players, user_id) {
            None => {
                return Err(GameError::NotAParticipant);
            },
            Some(k) => k,
        };
        if user_id == self.game.owner_id {
            return Err(GameError::OwnerCannotLeave);
        }
        let in_progress = self.game.game_status == GameStatus::InProgress;
        if !in_progress && self.game.game_status != GameStatus::PreGame {
            return Err(GameError::WrongState);
        }
        if in_progress {
            match latest_guess_time(&self.guesses, user_id) {
                None => {},
                Some(t) => {
                    if (now as i128) - (t as i128) < QUIT_WINDOW_SECONDS as i128 {
                        return Err(GameError::QuitTooSoon);
                    }
                },
            }
        }
        let ghost before = *self;
        let ghost ps = self.players@;
        let ghost gs = self.guesses@;
        let n = self.players.len();
        proof {
            let ko = choose|j: int| 0 <= j < ps.len() && #[trigger] ps[j].user_id == before.game.owner_id;
            assert(ko != k);
            assert(n >= 2);
        }
        if in_progress && self.game.turn_user_id == Some(user_id) {
            let next = if k == n - 1 {
                0
            } else {
                k + 1
            };
            assert(next as int == (k + 1) % (n as int)) by {
                if k == n - 1 {
                    vstd::arithmetic::div_mod::lemma_mod_self_0(n as int);
                } else {
                    vstd::arithmetic::div_mod::lemma_small_mod((k + 1) as nat, n as nat);
                }
            }
            self.game.turn_user_id = Some(self.players[next].user_id);
            self.game.turn_deadline = compute_deadline(now);
        }
        let new_players = roster_after_leave(&self.players, k, in_progress);
        let new_guesses = remove_guesses_of(&self.guesses, user_id);
        self.players = new_players;
        self.guesses = new_guesses;
        self.game.version = self.game.version.wrapping_add(1);
        proof {
            let ps2 = self.players@;
            let gs2 = self.guesses@;
            lemma_without_numbered(gs, user_id);
            assert forall|a: int, b: int| 0 <= a < b < ps2.len() implies #[trigger] ps2[a].user_id != #[trigger] ps2[b].user_id by {
                let rest = ps.remove(k as int);
                assert(renumbered_at(ps2, rest, in_progress, a));
                assert(renumbered_at(ps2, rest, in_progress, b));
                let a2 = if a < k { a } else { a + 1 };
                let b2 = if b < k { b } else { b + 1 };
                assert(rest[a] == ps[a2]);
                assert(rest[b] == ps[b2]);
            }
            assert forall|j: int| 0 <= j < ps2.len() implies guess_count(gs2, #[trigger] ps2[j].user_id)
                <= crate::game::MAX_TURNS by {
                let v = ps2[j].user_id;
                lemma_count_without(gs, user_id, v);
                let j2 = if j < k { j } else { j + 1 };
                assert(renumbered_at(ps2, ps.remove(k as int), in_progress, j));
                assert(ps.remove(k as int)[j] == ps[j2]);
                assert(ps[j2].user_id == v);
            }
            assert forall|i: int| 0 <= i < gs2.len() implies is_player(ps2, #[trigger] gs2[i].user_id) by {
                lemma_without_users(gs, user_id, i);
                let j = choose|j: int| 0 <= j < gs.len() && #[trigger] gs[j] == gs2[i];
                let m = choose|m: int| 0 <= m < ps.len() && #[trigger] ps[m].user_id == gs[j].user_id;
                lemma_kept_index(ps, ps2, k as int, in_progress, m);
            }
            let ko = choose|j: int| 0 <= j < ps.len() && #[trigger] ps[j].user_id == before.game.owner_id;
            lemma_kept_index(ps, ps2, k as int, in_progress, ko);
            if in_progress {
                let h = self.game.turn_user_id->0;
                if before.game.turn_user_id == Some(user_id) {
                    let m = (k + 1) % (n as int);
                    lemma_kept_index(ps, ps2, k as int, in_progress, m);
                } else {
                    let m = choose|m: int| 0 <= m < ps.len() && #[trigger] ps[m].user_id == h;
                    lemma_kept_index(ps, ps2, k as int, in_progress, m);
                }
                assert forall|j: int| 0 <= j < ps2.len() implies #[trigger] ps2[j].turn_order == Some((j + 1) as u32) by {
                    assert(renumbered_at(ps2, ps.remove(k as int), in_progress, j));
                }
            } else {
                assert forall|j: int| 0 <= j < ps2.len() implies #[trigger] ps2[j].turn_order is None by {
                    assert(renumbered_at(ps2, ps.remove(k as int), in_progress, j));
                }
                assert(gs2.len() == 0);
            }
        }
        Ok(())
    }

    /// Adds a player to a game that has not started: refused once it has
    /// started, to a player already in it, when it is full, and to an
    /// uninvited user when it is invite-only.
    pub fn join(&mut self, user_id: i32, username: String, invited: bool) -> (r: Result<(), GameError>)
        requires
            old(self).wf(),
        ensures
            final(self).wf(),
            r == (if old(self).game.game_status != GameStatus::PreGame {
                Err(GameError::WrongState)
            } else if is_player(old(self).players@, user_id) {
                Err(GameError::AlreadyJoined)
            } else if old(self).players@.len() >= MAX_PLAYERS {
                Err(GameError::GameFull)
            } else if !old(self).game.is_open && !invited {
                Err(GameError::NotInvited)
            } else {
                Ok(())
            }),
            r is Err ==> *final(self) == *old(self),
            r is Ok ==> {
                &&& final(self).players@ == old(self).players@.push(
                    (Player { user_id, username, turn_order: None }),
                )
                &&& final(self).guesses == old(self).guesses
                &&& final(self).game == (Game {
                    version: next_version(old(self).game.version),
                    ..old(self).game
                })
            },
    {
        if self.game.game_status != GameStatus::PreGame {
            return Err(GameError::WrongState);
        }
        if find_player(&self.players, user_id).is_some() {
            return Err(GameError::AlreadyJoined);
        }
        if self.players.len() >= MAX_PLAYERS as usize {
            return Err(GameError::GameFull);
        }
        if !self.game.is_open && !invited {
            return Err(GameError::NotInvited);
        }
        let ghost old_ps = self.players@;
        self.players.push(Player { user_id, username, turn_order: None });
        self.game.version = self.game.version.wrapping_add(1);
        proof {
            let ps = self.players@;
            assert forall|i: int| 0 <= i < self.guesses@.len() implies is_player(
                ps,
                #[trigger] self.guesses@[i].user_id,
            ) by {
                let k = choose|k: int| 0 <= k < old_ps.len() && #[trigger] old_ps[k].user_id
                    == self.guesses@[i].user_id;
                assert(ps[k] == old_ps[k]);
            }
            let ko = choose|k: int| 0 <= k < old_ps.len() && #[trigger] old_ps[k].user_id
                == self.game.owner_id;
            assert(ps[ko] == old_ps[ko]);
            assert forall|a: int, b: int| 0 <= a < b < ps.len() implies #[trigger] ps[a].user_id != #[trigger] ps[b].user_id by {
                assert(ps[a] == old_ps[a]);
                if b < old_ps.len() {
                    assert(ps[b] == old_ps[b]);
                }
            }
        }
        Ok(())
    }
}

} // verus!
