//! The game aggregate and its lifecycle: `PreGame`, then `InProgress`, then
//! `Finished` or `Cancelled`, the two terminal states.

use vstd::prelude::*;

verus! {

/// Most guesses each player gets in one game.
pub const MAX_TURNS: usize = 5;

/// The state of a game.
#[derive(Clone, Copy, Debug, PartialEq, Eq, Structural)]
pub enum GameStatus {
    PreGame,
    InProgress,
    Finished,
    Cancelled,
}

impl GameStatus {
    /// The name under which the status is stored.
    pub fn as_str(&self) -> (r: &'static str)
        ensures
            r@ == status_name(*self),
    {
        match self {
            GameStatus::PreGame => "pre_game",
            GameStatus::InProgress => "in_progress",
            GameStatus::Finished => "finished",
            GameStatus::Cancelled => "cancelled",
        }
    }

    /// The status stored under `name`, if any.
    pub fn parse(name: &str) -> (r: Option<GameStatus>)
        ensures
            match r {
                Some(s) => status_name(s) == name@,
                None => forall|s: GameStatus| status_name(s) != name@,
            },
    {
        let statuses = [GameStatus::PreGame, GameStatus::InProgress, GameStatus::Finished, GameStatus::Cancelled];
        let mut i: usize = 0;
        while i < 4
            invariant
                statuses@ == seq![GameStatus::PreGame, GameStatus::InProgress, GameStatus::Finished, GameStatus::Cancelled],
                i <= 4,
                forall|j: int| 0 <= j < i ==> status_name(#[trigger] statuses@[j]) != name@,
            decreases 4 - i,
        {
            let s = statuses[i];
            if same_text(s.as_str(), name) {
                return Some(s);
            }
            i = i + 1;
        }
        assert forall|s: GameStatus| status_name(s) != name@ by {
            match s {
                GameStatus::PreGame => assert(status_name(statuses@[0]) != name@),
                GameStatus::InProgress => assert(status_name(statuses@[1]) != name@),
                GameStatus::Finished => assert(status_name(statuses@[2]) != name@),
                GameStatus::Cancelled => assert(status_name(statuses@[3]) != name@),
            }
        }
        None
    }

    /// Finished and cancelled games take no further change.
    pub fn is_terminal(&self) -> (r: bool)
        ensures
            r == is_terminal(*self),
    {
        match self {
            GameStatus::Finished | GameStatus::Cancelled => true,
            _ => false,
        }
    }
}

/// `a` and `b` hold the same characters.
fn same_text(a: &str, b: &str) -> (r: bool)
    ensures
        r == (a@ == b@),
{
    let x = crate::scoring::chars_of(a);
    let y = crate::scoring::chars_of(b);
    if x.len() != y.len() {
        return false;
    }
    let mut i: usize = 0;
    while i < x.len()
        invariant
            x@ == a@,
            y@ == b@,
            x@.len() == y@.len(),
            i <= x@.len(),
            forall|j: int| 0 <= j < i ==> x@[j] == y@[j],
        decreases x@.len() - i,
    {
        if x[i] != y[i] {
            assert(a@[i as int] != b@[i as int]);
            return false;
        }
        i = i + 1;
    }
    assert(x@ =~= y@);
    true
}

pub open spec fn status_name(s: GameStatus) -> Seq<char> {
    match s {
        GameStatus::PreGame => "pre_game"@,
        GameStatus::InProgress => "in_progress"@,
        GameStatus::Finished => "finished"@,
        GameStatus::Cancelled => "cancelled"@,
    }
}

pub open spec fn is_terminal(s: GameStatus) -> bool {
    s == GameStatus::Finished || s == GameStatus::Cancelled
}

/// Why an action on a game was refused.
#[derive(Clone, Copy, Debug, PartialEq, Eq, Structural)]
pub enum GameError {
    /// The acting user does not play in the game.
    NotAParticipant,
    /// Only the game's owner may do this.
    NotOwner,
    /// The game is not in a state that allows this action.
    WrongState,
    /// No player holds the turn.
    NoActiveTurn,
    /// The game has no players.
    NoPlayers,
    /// The user already plays in the game.
    AlreadyJoined,
    /// The game has as many players as it can take.
    GameFull,
    /// The game is invite-only and the user holds no invitation.
    NotInvited,
    /// The player guessed too recently to quit.
    QuitTooSoon,
    /// The owner cannot leave their own game; they cancel it instead.
    OwnerCannotLeave,
}

/// A participant of one game.
pub struct Player {
    pub user_id: i32,
    pub username: String,
    /// Assigned when the game starts; `None` before.
    pub turn_order: Option<u32>,
}

/// One recorded guess of a game.
pub struct Guess {
    pub user_id: i32,
    pub word: String,
    /// 1 for a player's first guess in the game, 2 for the next, and so on.
    pub guess_number: u32,
    pub created_timestamp: i64,
}

/// The game row.
pub struct Game {
    pub id: i32,
    /// The secret word; guesses are compared with it in upper case.
    pub word: String,
    pub game_status: GameStatus,
    pub owner_id: i32,
    pub winner_id: Option<i32>,
    pub turn_user_id: Option<i32>,
    /// Meaningful only while the game is in progress.
    pub turn_deadline: i64,
    pub created_timestamp: i64,
    /// Anyone may join an open game; others need an invitation.
    pub is_open: bool,
    /// Changes with every change of the game, so that a writer can tell
    /// whether what it read is still current.
    pub version: u64,
}

/// A game with its roster and all its guesses: the unit that each action
/// reads and writes as a whole.
pub struct GameAndPlayers {
    pub game: Game,
    /// Once the game has started, in turn order.
    pub players: Vec<Player>,
    /// In the order they were made.
    pub guesses: Vec<Guess>,
}

/// The version that follows `v`.
pub open spec fn next_version(v: u64) -> u64 {
    if v == u64::MAX {
        0
    } else {
        (v + 1) as u64
    }
}

/// `u` plays in a game with roster `ps`.
pub open spec fn is_player(ps: Seq<Player>, u: i32) -> bool {
    exists|k: int| 0 <= k < ps.len() && #[trigger] ps[k].user_id == u
}

/// The first roster position of `u`.
pub open spec fn position_of(ps: Seq<Player>, u: i32) -> int
    decreases ps.len(),
{
    if ps.len() == 0 {
        0
    } else if ps[0].user_id == u {
        0
    } else {
        1 + position_of(ps.drop_first(), u)
    }
}

/// Who follows `u` in turn order, the first player following the last.
pub open spec fn next_after(ps: Seq<Player>, u: i32) -> i32 {
    ps[(position_of(ps, u) + 1) % (ps.len() as int)].user_id
}

/// No user appears twice in the roster.
pub open spec fn ids_unique(ps: Seq<Player>) -> bool {
    forall|i: int, j: int| 0 <= i < j < ps.len() ==> #[trigger] ps[i].user_id != #[trigger] ps[j].user_id
}

/// The players hold turn orders 1 to N in roster order.
pub open spec fn in_turn_order(ps: Seq<Player>) -> bool {
    forall|k: int| 0 <= k < ps.len() ==> #[trigger] ps[k].turn_order == Some((k + 1) as u32)
}

/// No player has a turn order yet.
pub open spec fn unordered(ps: Seq<Player>) -> bool {
    forall|k: int| 0 <= k < ps.len() ==> #[trigger] ps[k].turn_order is None
}

/// How many of `gs` belong to `u`.
pub open spec fn guess_count(gs: Seq<Guess>, u: i32) -> nat
    decreases gs.len(),
{
    if gs.len() == 0 {
        0
    } else {
        guess_count(gs.drop_last(), u) + (if gs.last().user_id == u { 1nat } else { 0nat })
    }
}

/// Each guess carries its maker's count of guesses up to and including it:
/// every player's guesses are numbered 1, 2, 3, ... in the order made.
pub open spec fn numbered(gs: Seq<Guess>) -> bool {
    forall|i: int| 0 <= i < gs.len() ==> #[trigger] gs[i].guess_number == guess_count(gs.subrange(0, i + 1), gs[i].user_id)
}

pub proof fn lemma_count_push(gs: Seq<Guess>, x: Guess, v: i32)
    ensures
        guess_count(gs.push(x), v) == guess_count(gs, v) + (if x.user_id == v { 1nat } else { 0nat }),
{
    assert(gs.push(x).drop_last() =~= gs);
}

/// Appending a guess numbered one past its maker's count keeps the
/// numbering.
pub proof fn lemma_numbered_push(gs: Seq<Guess>, x: Guess)
    requires
        numbered(gs),
        x.guess_number == guess_count(gs, x.user_id) + 1,
    ensures
        numbered(gs.push(x)),
{
    let gs2 = gs.push(x);
    assert forall|i: int| 0 <= i < gs2.len() implies #[trigger] gs2[i].guess_number == guess_count(gs2.subrange(0, i + 1), gs2[i].user_id) by {
        if i < gs.len() {
            assert(gs2.subrange(0, i + 1) =~= gs.subrange(0, i + 1));
        } else {
            assert(gs2.subrange(0, i + 1) =~= gs2);
            lemma_count_push(gs, x, x.user_id);
        }
    }
}

/// Every player has used all their guesses.
pub open spec fn exhausted(ps: Seq<Player>, gs: Seq<Guess>) -> bool {
    forall|k: int| 0 <= k < ps.len() ==> guess_count(gs, #[trigger] ps[k].user_id) >= MAX_TURNS
}

impl GameAndPlayers {
    /// The invariant of a game.
    pub open spec fn wf(&self) -> bool {
        let ps = self.players@;
        let gs = self.guesses@;
        let g = self.game;
        &&& ps.len() < u32::MAX
        &&& ids_unique(ps)
        &&& numbered(gs)
        &&& forall|k: int| 0 <= k < ps.len() ==> guess_count(gs, #[trigger] ps[k].user_id) <= MAX_TURNS
        &&& forall|i: int| 0 <= i < gs.len() ==> is_player(ps, #[trigger] gs[i].user_id)
        &&& (g.turn_user_id is Some) == (g.game_status == GameStatus::InProgress)
        &&& g.game_status == GameStatus::InProgress ==> is_player(ps, g.turn_user_id->0)
        &&& g.game_status == GameStatus::PreGame ==> unordered(ps) && gs.len() == 0
        &&& (g.game_status == GameStatus::InProgress || g.game_status == GameStatus::Finished)
            ==> in_turn_order(ps)
        &&& !is_terminal(g.game_status) ==> is_player(ps, g.owner_id)
        &&& g.winner_id is Some ==> g.game_status == GameStatus::Finished
    }

    /// A new game, not started, whose only player is its owner.
    pub fn new_game(
        id: i32,
        word: String,
        owner_id: i32,
        owner_name: String,
        is_open: bool,
        now: i64,
    ) -> (r: GameAndPlayers)
        ensures
            r.wf(),
            r.game == (Game {
                id,
                word,
                game_status: GameStatus::PreGame,
                owner_id,
                winner_id: None,
                turn_user_id: None,
                turn_deadline: now,
                created_timestamp: now,
                is_open,
                version: 0,
            }),
            r.players@ == seq![Player { user_id: owner_id, username: owner_name, turn_order: None }],
            r.guesses@.len() == 0,
    {
        let mut players: Vec<Player> = Vec::new();
        players.push(Player { user_id: owner_id, username: owner_name, turn_order: None });
        let r = GameAndPlayers {
            game: Game {
                id,
                word,
                game_status: GameStatus::PreGame,
                owner_id,
                winner_id: None,
                turn_user_id: None,
                turn_deadline: now,
                created_timestamp: now,
                is_open,
                version: 0,
            },
            players,
            guesses: Vec::new(),
        };
        assert(r.players@[0].user_id == owner_id);
        r
    }

    /// `user_id` plays in this game.
    pub fn user_is_player(&self, user_id: i32) -> (r: bool)
        ensures
            r == is_player(self.players@, user_id),
    {
        find_player(&self.players, user_id).is_some()
    }
}

/// The roster position of `u`, if `u` plays.
pub fn find_player(ps: &Vec<Player>, u: i32) -> (r: Option<usize>)
    ensures
        match r {
            Some(k) => k < ps@.len() && ps@[k as int].user_id == u && k == position_of(ps@, u),
            None => !is_player(ps@, u),
        },
{
    let mut i: usize = 0;
    assert(ps@.subrange(0, ps@.len() as int) =~= ps@);
    while i < ps.len()
        invariant
            i <= ps@.len(),
            forall|j: int| 0 <= j < i ==> ps@[j].user_id != u,
            position_of(ps@, u) == i + position_of(ps@.subrange(i as int, ps@.len() as int), u),
        decreases ps@.len() - i,
    {
        let ghost rest = ps@.subrange(i as int, ps@.len() as int);
        if ps[i].user_id == u {
            assert(rest[0].user_id == u);
            return Some(i);
        }
        assert(rest.drop_first() =~= ps@.subrange(i + 1, ps@.len() as int));
        i = i + 1;
    }
    None
}

/// The number of guesses of `u` among `gs`.
pub fn count_guesses(gs: &Vec<Guess>, u: i32) -> (r: usize)
    ensures
        r == guess_count(gs@, u),
{
    let mut r: usize = 0;
    let mut i: usize = 0;
    while i < gs.len()
        invariant
            i <= gs@.len(),
            r == guess_count(gs@.subrange(0, i as int), u),
            r <= i,
        decreases gs@.len() - i,
    {
        assert(gs@.subrange(0, i + 1).drop_last() =~= gs@.subrange(0, i as int));
        if gs[i].user_id == u {
            r = r + 1;
        }
        i = i + 1;
    }
    assert(gs@.subrange(0, gs@.len() as int) =~= gs@);
    r
}

/// The guess count of each player, in roster order.
pub fn guess_counts(ps: &Vec<Player>, gs: &Vec<Guess>) -> (r: Vec<usize>)
    ensures
        r@.len() == ps@.len(),
        forall|k: int| 0 <= k < ps@.len() ==> r@[k] == guess_count(gs@, #[trigger] ps@[k].user_id),
{
    let mut r: Vec<usize> = Vec::new();
    let mut k: usize = 0;
    while k < ps.len()
        invariant
            k <= ps@.len(),
            r@.len() == k,
            forall|j: int| 0 <= j < k ==> r@[j] == guess_count(gs@, #[trigger] ps@[j].user_id),
        decreases ps@.len() - k,
    {
        r.push(count_guesses(gs, ps[k].user_id));
        k = k + 1;
    }
    r
}

/// Every count has reached the guess limit.
pub fn is_exhausted(guess_counts: &Vec<usize>) -> (r: bool)
    ensures
        r == forall|k: int| 0 <= k < guess_counts@.len() ==> #[trigger] guess_counts@[k] >= MAX_TURNS,
{
    let mut i: usize = 0;
    while i < guess_counts.len()
        invariant
            i <= guess_counts@.len(),
            forall|k: int| 0 <= k < i ==> #[trigger] guess_counts@[k] >= MAX_TURNS,
        decreases guess_counts@.len() - i,
    {
        if guess_counts[i] < MAX_TURNS {
            return false;
        }
        i = i + 1;
    }
    true
}

/// Every player of `ps` has used all their guesses in `gs`.
pub fn players_exhausted(ps: &Vec<Player>, gs: &Vec<Guess>) -> (r: bool)
    ensures
        r == exhausted(ps@, gs@),
{
    let counts = guess_counts(ps, gs);
    let r = is_exhausted(&counts);
    assert(r == exhausted(ps@, gs@)) by {
        if !r {
            let k = choose|k: int| 0 <= k < counts@.len() && !(#[trigger] counts@[k] >= MAX_TURNS);
            assert(guess_count(gs@, ps@[k].user_id) < MAX_TURNS);
        }
    }
    r
}

/// The player after `current_turn` in turn order; the first player follows
/// the last. `ps` is in turn order.
pub fn advance_turn(ps: &Vec<Player>, current_turn: Option<i32>) -> (r: Result<i32, GameError>)
    ensures
        match current_turn {
            None => r == Err::<i32, GameError>(GameError::NoActiveTurn),
            Some(u) => if is_player(ps@, u) {
                r == Ok::<i32, GameError>(next_after(ps@, u))
            } else {
                r == Err::<i32, GameError>(GameError::NoActiveTurn)
            },
        },
{
    match current_turn {
        None => Err(GameError::NoActiveTurn),
        Some(u) => match find_player(ps, u) {
            None => Err(GameError::NoActiveTurn),
            Some(k) => {
                assert(k < ps@.len());
                let next = if k == ps.len() - 1 {
                    0
                } else {
                    k + 1
                };
                assert(next as int == (k + 1) % (ps@.len() as int)) by {
                    if k + 1 == ps@.len() {
                        vstd::arithmetic::div_mod::lemma_mod_self_0(ps@.len() as int);
                    } else {
                        vstd::arithmetic::div_mod::lemma_small_mod((k + 1) as nat, ps@.len() as nat);
                    }
                }
                Ok(ps[next].user_id)
            },
        },
    }
}

proof fn lemma_position_of(ps: Seq<Player>, j: int)
    requires
        0 <= j < ps.len(),
        forall|i: int| 0 <= i < j ==> #[trigger] ps[i].user_id != ps[j].user_id,
    ensures
        position_of(ps, ps[j].user_id) == j,
    decreases j,
{
    if j > 0 {
        let rest = ps.drop_first();
        assert forall|i: int| 0 <= i < j - 1 implies #[trigger] rest[i].user_id != rest[j - 1].user_id by {
            assert(rest[i] == ps[i + 1]);
        }
        lemma_position_of(rest, j - 1);
        assert(rest[j - 1] == ps[j]);
    }
}

/// Turn rotation: when N distinct players hold turn orders 1 to N in roster
/// order, the turn passes from the holder of order `k` to the holder of
/// order `(k mod N) + 1`.
pub proof fn lemma_turn_rotation(ps: Seq<Player>, k: int)
    requires
        in_turn_order(ps),
        ids_unique(ps),
        1 <= k <= ps.len(),
    ensures
        ps[k - 1].turn_order == Some(k as u32),
        next_after(ps, ps[k - 1].user_id) == ps[k % (ps.len() as int)].user_id,
        ps[k % (ps.len() as int)].turn_order == Some(((k % (ps.len() as int)) + 1) as u32),
{
    let n = ps.len() as int;
    assert forall|i: int| 0 <= i < k - 1 implies #[trigger] ps[i].user_id != ps[k - 1].user_id by {
        assert(ps[i].user_id != ps[k - 1].user_id);
    }
    lemma_position_of(ps, k - 1);
    assert(0 <= k % n < n) by {
        vstd::arithmetic::div_mod::lemma_mod_bound(k, n);
    }
    assert(ps[k % n].turn_order == Some(((k % n) + 1) as u32));
}

} // verus!
