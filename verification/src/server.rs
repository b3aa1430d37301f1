//! The game server's decisions, event by event: clients asking to join and
//! being admitted or refused, a frame of melee combat, dead players coming
//! back, session checks with the platform, and players leaving.
use vstd::prelude::*;

use crate::combat::{
    combat_detection, combat_result, count_true, hit_table, lemma_awards_at_most_deaths,
    lemma_awards_need_hits, square,
};
use crate::shared::{KILL_SCORE, MAX_HP};
use crate::text::same_text;

verus! {

/// A player as the server keeps it.
#[derive(Clone, Copy, Debug, PartialEq, Eq)]
pub struct ServerPlayer {
    pub id: u64,
    pub score: u32,
    pub health: u8,
    pub dead: bool,
}

/// An account playing on the server: the player entity it plays as, its
/// user name and the session token the platform gave it.
#[derive(Debug)]
pub struct Account {
    pub id: u64,
    pub username: String,
    pub token: String,
}

/// Everything the server decides over.
#[derive(Debug)]
pub struct ServerWorld {
    pub players: Vec<ServerPlayer>,
    /// Players that joined so far; picks each newcomer's colour.
    pub player_count: u32,
    /// The accounts online, in the order they joined.
    pub accounts: Vec<Account>,
}

/// The reason given to a client refused because the platform could not be
/// reached at start-up.
pub const PLATFORM_UNAVAILABLE: &'static str = "Platform unavailable";

/// The reason given to a client whose account is already playing.
pub const ALREADY_ONLINE: &'static str = "Already logged in";

/// Some account online has this user name.
pub open spec fn name_online(accounts: Seq<Account>, name: Seq<char>) -> bool {
    exists|i: int| 0 <= i < accounts.len() && #[trigger] accounts[i].username@ == name
}

/// No two accounts online share a user name.
pub open spec fn names_distinct(accounts: Seq<Account>) -> bool {
    forall|i: int, j: int|
        0 <= i < accounts.len() && 0 <= j < accounts.len() && i != j ==> #[trigger] accounts[i].username@
            != #[trigger] accounts[j].username@
}

/// Whether a client may join, and as whom.
#[derive(Debug, PartialEq, Eq)]
pub enum Admission {
    /// Join as this account.
    Admit { username: String, token: String },
    /// Disconnect the client, for this reason.
    Refuse(String),
}

/// What to do with a player after its session was checked with the platform.
#[derive(Debug, PartialEq, Eq)]
pub enum RenewalStep {
    /// The session was renewed: the player stays.
    Keep,
    /// The session is gone: disconnect the player, for this reason.
    Disconnect(String),
}

/// Who sent a message: the server itself, or a client entity given by its bits.
#[derive(Clone, Copy, Debug, PartialEq, Eq)]
pub enum ClientRef {
    Server,
    Client(u64),
}

/// The player id a message sender stands for: the server is player 0.
pub fn client_id_to_u64(id: ClientRef) -> (n: u64)
    ensures
        n == match id {
            ClientRef::Server => 0u64,
            ClientRef::Client(bits) => bits,
        },
{
    match id {
        ClientRef::Server => 0,
        ClientRef::Client(bits) => bits,
    }
}

/// Something that happened to the server.
#[derive(Debug)]
pub enum ServerEvent {
    /// A client connected; its entity has these bits. `platform_connected`
    /// tells whether the platform accepted the server's key at start-up, and
    /// `verdict` is the platform's answer to the client's credentials: the
    /// user name and session token, or the refusal.
    Connected { bits: u64, platform_connected: bool, verdict: Result<(String, String), String> },
    /// A frame of melee: `hits[a][b]` tells whether the tip of the `a`-th
    /// alive player lies inside the `b`-th alive player (alive players in
    /// world order).
    Melee(Vec<Vec<bool>>),
    /// The respawn timers of these players ran out.
    Respawn(Vec<u64>),
    /// The platform answered the renewal of this player's session.
    SessionChecked { id: u64, outcome: Result<(), String> },
    /// This player's client disconnected.
    Left(u64),
}

/// What the server must do after an event.
#[derive(Debug, PartialEq, Eq)]
pub enum ServerAction {
    /// Spawn the newcomer's entity, with the colour for this join number,
    /// under its user name.
    Spawn { id: u64, color_index: u32, username: String },
    /// Disconnect the client that asked to join, for this reason.
    Refused { id: u64, reason: String },
    /// Mark these players dead and start their respawn timers.
    Killed(Vec<u64>),
    /// Bring these players back at safe places.
    Respawned(Vec<u64>),
    /// The player keeps playing.
    Kept,
    /// Disconnect this player and remove its entity, for this reason.
    Disconnected { id: u64, reason: String },
    /// Remove the entity of this player, whose client left.
    Removed(u64),
}

/// The first player with the given id, from position `p` on.
pub open spec fn first_player(players: Seq<ServerPlayer>, id: u64, p: int) -> Option<int>
    decreases players.len() - p,
{
    if p < 0 || p >= players.len() {
        None
    } else if players[p].id == id {
        Some(p)
    } else {
        first_player(players, id, p + 1)
    }
}

/// The first account of the given player, from position `p` on.
pub open spec fn first_account(accounts: Seq<Account>, id: u64, p: int) -> Option<int>
    decreases accounts.len() - p,
{
    if p < 0 || p >= accounts.len() {
        None
    } else if accounts[p].id == id {
        Some(p)
    } else {
        first_account(accounts, id, p + 1)
    }
}

/// The players without the first one with the given id.
pub open spec fn without_player(players: Seq<ServerPlayer>, id: u64) -> Seq<ServerPlayer> {
    match first_player(players, id, 0) {
        Some(i) => players.remove(i),
        None => players,
    }
}

/// The accounts without the first one of the given player.
pub open spec fn without_account(accounts: Seq<Account>, id: u64) -> Seq<Account> {
    match first_account(accounts, id, 0) {
        Some(i) => accounts.remove(i),
        None => accounts,
    }
}

/// Positions of the alive players, in order.
pub open spec fn alive_positions(players: Seq<ServerPlayer>) -> Seq<int>
    decreases players.len(),
{
    if players.len() == 0 {
        Seq::empty()
    } else if !players.last().dead {
        alive_positions(players.drop_last()).push(players.len() - 1)
    } else {
        alive_positions(players.drop_last())
    }
}

/// Alive positions are increasing positions of alive players, and every
/// alive player is listed.
pub proof fn lemma_alive_positions(players: Seq<ServerPlayer>)
    ensures
        alive_positions(players).len() <= players.len(),
        forall|a: int| 0 <= a < alive_positions(players).len() ==> {
            &&& 0 <= #[trigger] alive_positions(players)[a] < players.len()
            &&& !players[alive_positions(players)[a]].dead
        },
        forall|a: int, b: int|
            0 <= a < b < alive_positions(players).len() ==> #[trigger] alive_positions(players)[a]
                < #[trigger] alive_positions(players)[b],
        forall|p: int| 0 <= p < players.len() && !(#[trigger] players[p]).dead ==> alive_positions(
            players,
        ).contains(p),
    decreases players.len(),
{
    if players.len() > 0 {
        let rest = players.drop_last();
        lemma_alive_positions(rest);
        assert forall|p: int| 0 <= p < players.len() && !(#[trigger] players[p]).dead implies alive_positions(
            players,
        ).contains(p) by {
            if p < players.len() - 1 {
                assert(rest[p] == players[p]);
                let a = choose|a: int| 0 <= a < alive_positions(rest).len() && alive_positions(rest)[a] == p;
                if !players.last().dead {
                    assert(alive_positions(players)[a] == p);
                }
            } else {
                assert(alive_positions(players)[alive_positions(players).len() - 1] == p);
            }
        }
    }
}

/// The world after the kills of a melee frame: the `a`-th alive player is
/// marked dead when `killed[a]`.
pub open spec fn mark_killed(players: Seq<ServerPlayer>, alive: Seq<int>, killed: Seq<bool>, a: int) -> Seq<
    ServerPlayer,
>
    decreases killed.len() - a,
{
    if a < 0 || a >= killed.len() {
        players
    } else if killed[a] {
        mark_killed(
            players.update(
                alive[a],
                ServerPlayer { dead: true, ..players[alive[a]] },
            ),
            alive,
            killed,
            a + 1,
        )
    } else {
        mark_killed(players, alive, killed, a + 1)
    }
}

/// The world after the awards of a melee frame, from the `d`-th award on.
pub open spec fn add_awards(players: Seq<ServerPlayer>, alive: Seq<int>, awards: Seq<(usize, u32)>, d: int) -> Seq<
    ServerPlayer,
>
    decreases awards.len() - d,
{
    if d < 0 || d >= awards.len() {
        players
    } else {
        let p = alive[awards[d].0 as int];
        add_awards(
            players.update(
                p,
                ServerPlayer { score: (players[p].score + awards[d].1) as u32, ..players[p] },
            ),
            alive,
            awards,
            d + 1,
        )
    }
}

/// The world after a melee frame.
pub open spec fn melee_world(players: Seq<ServerPlayer>, h: Seq<Seq<bool>>) -> Seq<ServerPlayer> {
    let alive = alive_positions(players);
    let outcome = combat_result(h);
    add_awards(mark_killed(players, alive, outcome.0, 0), alive, outcome.1, 0)
}

/// The ids of the players a melee frame kills, in world order of the alive.
pub open spec fn killed_ids(players: Seq<ServerPlayer>, alive: Seq<int>, killed: Seq<bool>, a: int) -> Seq<u64>
    decreases a,
{
    if a <= 0 || a > killed.len() {
        Seq::empty()
    } else if killed[a - 1] {
        killed_ids(players, alive, killed, a - 1).push(players[alive[a - 1]].id)
    } else {
        killed_ids(players, alive, killed, a - 1)
    }
}

/// Whether one of the listed ids is the player's.
pub open spec fn listed(ids: Seq<u64>, id: u64) -> bool {
    ids.contains(id)
}

/// The world after respawns: each dead player whose id is listed comes back
/// with full health.
pub open spec fn respawn_world(players: Seq<ServerPlayer>, ids: Seq<u64>) -> Seq<ServerPlayer> {
    Seq::new(
        players.len(),
        |p: int|
            if players[p].dead && listed(ids, players[p].id) {
                ServerPlayer { dead: false, health: MAX_HP, ..players[p] }
            } else {
                players[p]
            },
    )
}

/// The ids of the players respawned, in world order.
pub open spec fn respawned_ids(players: Seq<ServerPlayer>, ids: Seq<u64>) -> Seq<u64>
    decreases players.len(),
{
    if players.len() == 0 {
        Seq::empty()
    } else if players.last().dead && listed(ids, players.last().id) {
        respawned_ids(players.drop_last(), ids).push(players.last().id)
    } else {
        respawned_ids(players.drop_last(), ids)
    }
}

/// Every score leaves room for one kill per player.
pub open spec fn scores_fit(players: Seq<ServerPlayer>) -> bool {
    forall|p: int| 0 <= p < players.len() ==> (#[trigger] players[p]).score + KILL_SCORE * players.len()
        <= u32::MAX
}

/// A set flag raises the count; the count is at most the length.
proof fn lemma_count_bounds(s: Seq<bool>)
    ensures
        count_true(s) <= s.len(),
    decreases s.len(),
{
    if s.len() > 0 {
        lemma_count_bounds(s.drop_last());
    }
}

/// Marking kills keeps every player's id and score, and only ever sets the
/// dead flag.
proof fn lemma_mark_killed_keeps(players: Seq<ServerPlayer>, alive: Seq<int>, killed: Seq<bool>, a: int)
    requires
        forall|x: int| 0 <= x < killed.len() ==> 0 <= #[trigger] alive[x] < players.len(),
    ensures
        mark_killed(players, alive, killed, a).len() == players.len(),
        forall|q: int| 0 <= q < players.len() ==> {
            &&& (#[trigger] mark_killed(players, alive, killed, a)[q]).id == players[q].id
            &&& mark_killed(players, alive, killed, a)[q].score == players[q].score
            &&& (players[q].dead ==> mark_killed(players, alive, killed, a)[q].dead)
        },
    decreases killed.len() - a,
{
    if 0 <= a < killed.len() {
        if killed[a] {
            let next = players.update(alive[a], ServerPlayer { dead: true, ..players[alive[a]] });
            lemma_mark_killed_keeps(next, alive, killed, a + 1);
        } else {
            lemma_mark_killed_keeps(players, alive, killed, a + 1);
        }
    }
}

/// Adding awards keeps ids and dead flags and never lowers a score, as long
/// as every score has room for the awards still to come.
proof fn lemma_add_awards_raises(players: Seq<ServerPlayer>, alive: Seq<int>, awards: Seq<(usize, u32)>, d: int)
    requires
        0 <= d <= awards.len(),
        forall|e: int| 0 <= e < awards.len() ==> #[trigger] awards[e].1 == KILL_SCORE,
        forall|e: int| 0 <= e < awards.len() ==> 0 <= #[trigger] alive[awards[e].0 as int] < players.len(),
        forall|q: int| 0 <= q < players.len() ==> (#[trigger] players[q]).score + KILL_SCORE * (
        awards.len() - d) <= u32::MAX,
    ensures
        add_awards(players, alive, awards, d).len() == players.len(),
        forall|q: int| 0 <= q < players.len() ==> {
            &&& (#[trigger] add_awards(players, alive, awards, d)[q]).id == players[q].id
            &&& add_awards(players, alive, awards, d)[q].dead == players[q].dead
            &&& add_awards(players, alive, awards, d)[q].score >= players[q].score
        },
    decreases awards.len() - d,
{
    if d < awards.len() {
        let p = alive[awards[d].0 as int];
        let next = players.update(
            p,
            ServerPlayer { score: (players[p].score + awards[d].1) as u32, ..players[p] },
        );
        assert(awards[d].1 == KILL_SCORE);
        assert forall|q: int| 0 <= q < next.len() implies (#[trigger] next[q]).score + KILL_SCORE * (
        awards.len() - (d + 1)) <= u32::MAX by {
            assert(KILL_SCORE * (awards.len() - d) == KILL_SCORE * (awards.len() - (d + 1))
                + KILL_SCORE) by (nonlinear_arith);
        }
        lemma_add_awards_raises(next, alive, awards, d + 1);
    }
}

/// A melee frame never lowers a score, never brings a dead player back, and
/// keeps every player and id in place.
pub proof fn lemma_melee_never_lowers_scores(players: Seq<ServerPlayer>, h: Seq<Seq<bool>>)
    requires
        h.len() == alive_positions(players).len(),
        square(h),
        scores_fit(players),
    ensures
        melee_world(players, h).len() == players.len(),
        forall|q: int| 0 <= q < players.len() ==> {
            &&& (#[trigger] melee_world(players, h)[q]).id == players[q].id
            &&& melee_world(players, h)[q].score >= players[q].score
            &&& (players[q].dead ==> melee_world(players, h)[q].dead)
        },
{
    let alive = alive_positions(players);
    let outcome = combat_result(h);
    lemma_alive_positions(players);
    lemma_awards_at_most_deaths(h);
    lemma_awards_need_hits(h);
    crate::combat::lemma_killed_only_if_hit(h);
    lemma_count_bounds(outcome.0);
    lemma_mark_killed_keeps(players, alive, outcome.0, 0);
    let marked = mark_killed(players, alive, outcome.0, 0);
    assert forall|q: int| 0 <= q < marked.len() implies (#[trigger] marked[q]).score + KILL_SCORE * (
    outcome.1.len() - 0) <= u32::MAX by {
        assert(KILL_SCORE * outcome.1.len() <= KILL_SCORE * players.len()) by (nonlinear_arith)
            requires
                outcome.1.len() <= players.len(),
        ;
        assert(players[q].score + KILL_SCORE * players.len() <= u32::MAX);
    }
    lemma_add_awards_raises(marked, alive, outcome.1, 0);
}

/// A respawn brings each listed dead player back alive with full health, and
/// touches no one else.
pub proof fn lemma_respawn_restores_health(players: Seq<ServerPlayer>, ids: Seq<u64>)
    ensures
        respawn_world(players, ids).len() == players.len(),
        forall|q: int| 0 <= q < players.len() ==> {
            let after = #[trigger] respawn_world(players, ids)[q];
            &&& after.id == players[q].id
            &&& after.score == players[q].score
            &&& (players[q].dead && ids.contains(players[q].id) ==> !after.dead && after.health
                == MAX_HP)
            &&& (!(players[q].dead && ids.contains(players[q].id)) ==> after == players[q])
        },
{
}

/// Lists the positions of the alive players.
fn alive_list(players: &Vec<ServerPlayer>) -> (alive: Vec<usize>)
    ensures
        alive@.len() == alive_positions(players@).len(),
        forall|a: int| 0 <= a < alive@.len() ==> alive@[a] as int == alive_positions(players@)[a],
{
    let n = players.len();
    let mut alive: Vec<usize> = Vec::new();
    let mut i: usize = 0;
    while i < n
        invariant
            n == players@.len(),
            i <= n,
            alive@.len() == alive_positions(players@.subrange(0, i as int)).len(),
            forall|a: int| 0 <= a < alive@.len() ==> alive@[a] as int == alive_positions(
                players@.subrange(0, i as int),
            )[a],
        decreases n - i,
    {
        proof {
            assert(players@.subrange(0, i + 1).drop_last() =~= players@.subrange(0, i as int));
        }
        if !players[i].dead {
            alive.push(i);
        }
        i = i + 1;
    }
    proof {
        assert(players@.subrange(0, n as int) =~= players@);
    }
    alive
}

/// What the server answers a client that asks to join: `Ok` with the user
/// name and token it joins as, when the platform was reachable at start-up,
/// accepted the credentials, and no account of that name is online; else
/// `Err` with the reason of the refusal.
pub open spec fn admission_of(
    accounts: Seq<Account>,
    platform_connected: bool,
    verdict: Result<(String, String), String>,
) -> Result<(Seq<char>, Seq<char>), Seq<char>> {
    if !platform_connected {
        Err(PLATFORM_UNAVAILABLE@)
    } else {
        match verdict {
            Err(m) => Err(m@),
            Ok((name, token)) => if name_online(accounts, name@) {
                Err(ALREADY_ONLINE@)
            } else {
                Ok((name@, token@))
            },
        }
    }
}

/// Whether an account of this name is online.
fn account_online(accounts: &Vec<Account>, name: &str) -> (b: bool)
    ensures
        b == name_online(accounts@, name@),
{
    let n = accounts.len();
    let mut i: usize = 0;
    while i < n
        invariant
            n == accounts@.len(),
            i <= n,
            forall|j: int| 0 <= j < i ==> #[trigger] accounts@[j].username@ != name@,
        decreases n - i,
    {
        if same_text(accounts[i].username.as_str(), name) {
            return true;
        }
        i = i + 1;
    }
    false
}

/// Decides whether a connecting client may join: only if the platform was
/// reachable at start-up, accepted its credentials, and its account is not
/// already playing.
pub fn admit_client(world: &ServerWorld, platform_connected: bool, verdict: Result<(String, String), String>) -> (a:
    Admission)
    ensures
        match admission_of(world.accounts@, platform_connected, verdict) {
            Ok((name, token)) => a matches Admission::Admit { username, token: t } && username@ == name
                && t@ == token,
            Err(reason) => a matches Admission::Refuse(r) && r@ == reason,
        },
{
    if !platform_connected {
        return Admission::Refuse(String::from_str(PLATFORM_UNAVAILABLE));
    }
    match verdict {
        Err(m) => Admission::Refuse(m),
        Ok((name, token)) => {
            if account_online(&world.accounts, name.as_str()) {
                Admission::Refuse(String::from_str(ALREADY_ONLINE))
            } else {
                Admission::Admit { username: name, token }
            }
        },
    }
}

/// What a session check with the platform means for the player: it stays
/// when the session was renewed, and is disconnected with the platform's
/// message otherwise.
pub fn renewal_decision(outcome: Result<(), String>) -> (step: RenewalStep)
    ensures
        match outcome {
            Ok(()) => step == RenewalStep::Keep,
            Err(m) => step matches RenewalStep::Disconnect(r) && r@ == m@,
        },
{
    match outcome {
        Ok(()) => RenewalStep::Keep,
        Err(m) => RenewalStep::Disconnect(m),
    }
}

proof fn lemma_first_account(accounts: Seq<Account>, id: u64, p: int)
    requires
        0 <= p,
    ensures
        match first_account(accounts, id, p) {
            Some(k) => p <= k < accounts.len() && accounts[k].id == id,
            None => forall|r: int| p <= r < accounts.len() ==> #[trigger] accounts[r].id != id,
        },
    decreases accounts.len() - p,
{
    if p < accounts.len() && accounts[p].id != id {
        lemma_first_account(accounts, id, p + 1);
    }
}

proof fn lemma_first_player(players: Seq<ServerPlayer>, id: u64, p: int)
    requires
        0 <= p,
    ensures
        match first_player(players, id, p) {
            Some(k) => p <= k < players.len() && players[k].id == id,
            None => forall|r: int| p <= r < players.len() ==> #[trigger] players[r].id != id,
        },
    decreases players.len() - p,
{
    if p < players.len() && players[p].id != id {
        lemma_first_player(players, id, p + 1);
    }
}

/// No two accounts belong to the same player.
pub open spec fn account_ids_distinct(accounts: Seq<Account>) -> bool {
    forall|i: int, j: int|
        0 <= i < accounts.len() && 0 <= j < accounts.len() && i != j ==> #[trigger] accounts[i].id
            != #[trigger] accounts[j].id
}

/// No two players have the same id.
pub open spec fn player_ids_distinct(players: Seq<ServerPlayer>) -> bool {
    forall|i: int, j: int|
        0 <= i < players.len() && 0 <= j < players.len() && i != j ==> #[trigger] players[i].id
            != #[trigger] players[j].id
}

/// When player `id` leaves or is disconnected, exactly its account goes
/// offline: every account of another player stays, nothing new appears, at
/// most one account goes, and, when no two accounts share a player, none of
/// `id` remains.
pub proof fn lemma_departure_removes_its_account(accounts: Seq<Account>, id: u64)
    ensures
        ({
            let r = without_account(accounts, id);
            &&& forall|i: int| 0 <= i < accounts.len() && accounts[i].id != id ==> r.contains(
                #[trigger] accounts[i],
            )
            &&& forall|i: int| 0 <= i < r.len() ==> accounts.contains(#[trigger] r[i])
            &&& accounts.len() <= r.len() + 1
            &&& account_ids_distinct(accounts) ==> forall|i: int| 0 <= i < r.len() ==> (#[trigger] r[i]).id != id
        }),
{
    lemma_first_account(accounts, id, 0);
    let r = without_account(accounts, id);
    if let Some(k) = first_account(accounts, id, 0) {
        assert forall|i: int| 0 <= i < accounts.len() && accounts[i].id != id implies r.contains(
            #[trigger] accounts[i],
        ) by {
            if i < k {
                assert(r[i] == accounts[i]);
            } else {
                assert(i != k);
                assert(r[i - 1] == accounts[i]);
            }
        }
        assert forall|i: int| 0 <= i < r.len() implies accounts.contains(#[trigger] r[i]) by {
            if i < k {
                assert(r[i] == accounts[i]);
            } else {
                assert(r[i] == accounts[i + 1]);
            }
        }
        if account_ids_distinct(accounts) {
            assert forall|i: int| 0 <= i < r.len() implies (#[trigger] r[i]).id != id by {
                if i < k {
                    assert(r[i] == accounts[i]);
                } else {
                    assert(r[i] == accounts[i + 1]);
                }
            }
        }
    } else {
        assert forall|i: int| 0 <= i < r.len() implies accounts.contains(#[trigger] r[i]) by {
            assert(r[i] == accounts[i]);
        }
        assert forall|i: int| 0 <= i < accounts.len() && accounts[i].id != id implies r.contains(
            #[trigger] accounts[i],
        ) by {
            assert(r[i] == accounts[i]);
        }
    }
}

/// When player `id` leaves or is disconnected, exactly its entity goes:
/// every other player stays, nothing new appears, at most one player goes,
/// and, when no two players share an id, none with `id` remains.
pub proof fn lemma_departure_removes_its_player(players: Seq<ServerPlayer>, id: u64)
    ensures
        ({
            let r = without_player(players, id);
            &&& forall|i: int| 0 <= i < players.len() && players[i].id != id ==> r.contains(
                #[trigger] players[i],
            )
            &&& forall|i: int| 0 <= i < r.len() ==> players.contains(#[trigger] r[i])
            &&& players.len() <= r.len() + 1
            &&& player_ids_distinct(players) ==> forall|i: int| 0 <= i < r.len() ==> (#[trigger] r[i]).id != id
        }),
{
    lemma_first_player(players, id, 0);
    let r = without_player(players, id);
    if let Some(k) = first_player(players, id, 0) {
        assert forall|i: int| 0 <= i < players.len() && players[i].id != id implies r.contains(
            #[trigger] players[i],
        ) by {
            if i < k {
                assert(r[i] == players[i]);
            } else {
                assert(i != k);
                assert(r[i - 1] == players[i]);
            }
        }
        assert forall|i: int| 0 <= i < r.len() implies players.contains(#[trigger] r[i]) by {
            if i < k {
                assert(r[i] == players[i]);
            } else {
                assert(r[i] == players[i + 1]);
            }
        }
        if player_ids_distinct(players) {
            assert forall|i: int| 0 <= i < r.len() implies (#[trigger] r[i]).id != id by {
                if i < k {
                    assert(r[i] == players[i]);
                } else {
                    assert(r[i] == players[i + 1]);
                }
            }
        }
    } else {
        assert forall|i: int| 0 <= i < r.len() implies players.contains(#[trigger] r[i]) by {
            assert(r[i] == players[i]);
        }
        assert forall|i: int| 0 <= i < players.len() && players[i].id != id implies r.contains(
            #[trigger] players[i],
        ) by {
            assert(r[i] == players[i]);
        }
    }
}

/// Removing accounts keeps their names distinct.
proof fn lemma_remove_keeps_distinct(accounts: Seq<Account>, i: int)
    requires
        names_distinct(accounts),
        0 <= i < accounts.len(),
    ensures
        names_distinct(accounts.remove(i)),
{
    let r = accounts.remove(i);
    assert forall|a: int, b: int| 0 <= a < r.len() && 0 <= b < r.len() && a != b implies #[trigger] r[a].username@
        != #[trigger] r[b].username@ by {
        let a2 = if a < i { a } else { a + 1 };
        let b2 = if b < i { b } else { b + 1 };
        assert(r[a] == accounts[a2]);
        assert(r[b] == accounts[b2]);
    }
}

/// Removes a player and its account from the world.
pub fn disconnect_player(world: &mut ServerWorld, id: u64)
    ensures
        final(world).player_count == old(world).player_count,
        final(world).players@ == without_player(old(world).players@, id),
        final(world).accounts@ == without_account(old(world).accounts@, id),
        names_distinct(old(world).accounts@) ==> names_distinct(final(world).accounts@),
{
    let ghost p0 = world.players@;
    let ghost a0 = world.accounts@;
    let n = world.players.len();
    let mut i: usize = 0;
    while i < n && world.players[i].id != id
        invariant
            n == p0.len(),
            world.players@ == p0,
            i <= n,
            first_player(p0, id, 0) == first_player(p0, id, i as int),
        decreases n - i,
    {
        i = i + 1;
    }
    if i < n {
        world.players.remove(i);
    }
    let m = world.accounts.len();
    let mut j: usize = 0;
    while j < m && world.accounts[j].id != id
        invariant
            m == a0.len(),
            world.accounts@ == a0,
            j <= m,
            first_account(a0, id, 0) == first_account(a0, id, j as int),
        decreases m - j,
    {
        j = j + 1;
    }
    if j < m {
        proof {
            if names_distinct(a0) {
                lemma_remove_keeps_distinct(a0, j as int);
            }
        }
        world.accounts.remove(j);
    }
}

/// Handles one event. A connecting client joins, alive with full health and
/// no points and with the next colour, when `admission_of` admits it, and is
/// refused otherwise. A melee frame kills and awards as `combat_result` says
/// over the alive players. A respawn brings back the listed players that are
/// dead. A failed session check disconnects the player; a player whose
/// client left is removed. No two accounts online ever share a user name.
pub fn run_server(world: &mut ServerWorld, event: ServerEvent) -> (action: ServerAction)
    requires
        event is Connected ==> old(world).player_count < u32::MAX,
        event matches ServerEvent::Melee(hits) ==> {
            &&& hits@.len() == alive_positions(old(world).players@).len()
            &&& square(hit_table(hits@))
            &&& scores_fit(old(world).players@)
        },
    ensures
        names_distinct(old(world).accounts@) ==> names_distinct(final(world).accounts@),
        match event {
            ServerEvent::Connected { bits, platform_connected, verdict } => match admission_of(
                old(world).accounts@,
                platform_connected,
                verdict,
            ) {
                Ok((name, token)) => {
                    &&& final(world).player_count == old(world).player_count + 1
                    &&& final(world).players@ == old(world).players@.push(
                        ServerPlayer { id: bits, score: 0, health: MAX_HP, dead: false },
                    )
                    &&& final(world).accounts@.len() == old(world).accounts@.len() + 1
                    &&& final(world).accounts@.drop_last() == old(world).accounts@
                    &&& final(world).accounts@.last().id == bits
                    &&& final(world).accounts@.last().username@ == name
                    &&& final(world).accounts@.last().token@ == token
                    &&& action matches ServerAction::Spawn { id, color_index, username } && id == bits
                        && color_index == old(world).player_count && username@ == name
                },
                Err(reason) => {
                    &&& final(world).player_count == old(world).player_count
                    &&& final(world).players@ == old(world).players@
                    &&& final(world).accounts@ == old(world).accounts@
                    &&& action matches ServerAction::Refused { id, reason: r } && id == bits && r@ == reason
                },
            },
            ServerEvent::Melee(hits) => {
                let alive = alive_positions(old(world).players@);
                &&& final(world).player_count == old(world).player_count
                &&& final(world).accounts@ == old(world).accounts@
                &&& final(world).players@ == melee_world(old(world).players@, hit_table(hits@))
                &&& action matches ServerAction::Killed(ids) && ids@ == killed_ids(
                    old(world).players@,
                    alive,
                    combat_result(hit_table(hits@)).0,
                    alive.len() as int,
                )
            },
            ServerEvent::Respawn(ids) => {
                &&& final(world).player_count == old(world).player_count
                &&& final(world).accounts@ == old(world).accounts@
                &&& final(world).players@ == respawn_world(old(world).players@, ids@)
                &&& action matches ServerAction::Respawned(back) && back@ == respawned_ids(
                    old(world).players@,
                    ids@,
                )
            },
            ServerEvent::SessionChecked { id, outcome } => match outcome {
                Ok(()) => {
                    &&& final(world).player_count == old(world).player_count
                    &&& final(world).players@ == old(world).players@
                    &&& final(world).accounts@ == old(world).accounts@
                    &&& action == ServerAction::Kept
                },
                Err(m) => {
                    &&& final(world).player_count == old(world).player_count
                    &&& final(world).players@ == without_player(old(world).players@, id)
                    &&& final(world).accounts@ == without_account(old(world).accounts@, id)
                    &&& action matches ServerAction::Disconnected { id: who, reason } && who == id && reason@
                        == m@
                },
            },
            ServerEvent::Left(id) => {
                &&& final(world).player_count == old(world).player_count
                &&& final(world).players@ == without_player(old(world).players@, id)
                &&& final(world).accounts@ == without_account(old(world).accounts@, id)
                &&& action == ServerAction::Removed(id)
            },
        },
{
    match event {
        ServerEvent::Connected { bits, platform_connected, verdict } => {
            match admit_client(world, platform_connected, verdict) {
                Admission::Admit { username, token } => {
                    proof {
                        let acc = world.accounts@;
                        if names_distinct(acc) {
                            let pushed = acc.push(Account { id: bits, username, token });
                            assert forall|i: int, j: int|
                                0 <= i < pushed.len() && 0 <= j < pushed.len() && i != j implies
                                #[trigger] pushed[i].username@ != #[trigger] pushed[j].username@ by {
                                if i < acc.len() && j < acc.len() {
                                    assert(pushed[i] == acc[i] && pushed[j] == acc[j]);
                                } else if i < acc.len() {
                                    assert(pushed[i] == acc[i]);
                                } else {
                                    assert(pushed[j] == acc[j]);
                                }
                            }
                        }
                    }
                    server_on_connect(world, bits, username, token)
                },
                Admission::Refuse(reason) => ServerAction::Refused { id: bits, reason },
            }
        },
        ServerEvent::Melee(hits) => {
            let ids = melee(&mut world.players, &hits);
            ServerAction::Killed(ids)
        },
        ServerEvent::Respawn(ids) => {
            let back = respawn_dead_players(&mut world.players, &ids);
            ServerAction::Respawned(back)
        },
        ServerEvent::SessionChecked { id, outcome } => match renewal_decision(outcome) {
            RenewalStep::Keep => ServerAction::Kept,
            RenewalStep::Disconnect(reason) => {
                disconnect_player(world, id);
                ServerAction::Disconnected { id, reason }
            },
        },
        ServerEvent::Left(id) => {
            disconnect_player(world, id);
            ServerAction::Removed(id)
        },
    }
}

/// Lets an admitted client join: it joins alive, with full health and no
/// points, gets the colour of the current join number, and its account is
/// recorded as online.
pub fn server_on_connect(world: &mut ServerWorld, bits: u64, username: String, token: String) -> (action:
    ServerAction)
    requires
        old(world).player_count < u32::MAX,
    ensures
        final(world).player_count == old(world).player_count + 1,
        final(world).players@ == old(world).players@.push(
            ServerPlayer { id: bits, score: 0, health: MAX_HP, dead: false },
        ),
        final(world).accounts@ == old(world).accounts@.push(Account { id: bits, username, token }),
        action matches ServerAction::Spawn { id, color_index, username: name } && id == bits && color_index
            == old(world).player_count && name@ == username@,
{
    let color_index = world.player_count;
    world.player_count = world.player_count + 1;
    world.players.push(ServerPlayer { id: bits, score: 0, health: MAX_HP, dead: false });
    let name = username.clone();
    world.accounts.push(Account { id: bits, username, token });
    ServerAction::Spawn { id: bits, color_index, username: name }
}

/// Applies a melee frame to the players and lists the killed.
fn melee(players: &mut Vec<ServerPlayer>, hits: &Vec<Vec<bool>>) -> (ids: Vec<u64>)
    requires
        hits@.len() == alive_positions(old(players)@).len(),
        square(hit_table(hits@)),
        scores_fit(old(players)@),
    ensures
        final(players)@ == melee_world(old(players)@, hit_table(hits@)),
        ids@ == killed_ids(
            old(players)@,
            alive_positions(old(players)@),
            combat_result(hit_table(hits@)).0,
            alive_positions(old(players)@).len() as int,
        ),
{
    let ghost p0 = players@;
    let ghost alive_s = alive_positions(p0);
    let ghost h = hit_table(hits@);
    let alive = alive_list(players);
    let outcome = combat_detection(hits);
    proof {
        lemma_alive_positions(p0);
        lemma_awards_at_most_deaths(h);
        lemma_awards_need_hits(h);
        crate::combat::lemma_killed_only_if_hit(h);
        lemma_count_bounds(outcome.killed@);
    }
    let na = alive.len();
    let mut ids: Vec<u64> = Vec::new();
    let ghost marked = mark_killed(p0, alive_s, outcome.killed@, 0);
    let mut a: usize = 0;
    while a < na
        invariant
            na == alive@.len(),
            na == alive_s.len(),
            na == outcome.killed@.len(),
            forall|x: int| 0 <= x < na ==> alive@[x] as int == alive_s[x],
            forall|x: int| 0 <= x < na ==> 0 <= #[trigger] alive_s[x] < p0.len(),
            forall|x: int, y: int| 0 <= x < y < na ==> #[trigger] alive_s[x] < #[trigger] alive_s[y],
            a <= na,
            players@.len() == p0.len(),
            forall|q: int| 0 <= q < p0.len() ==> (#[trigger] players@[q]).id == p0[q].id
                && players@[q].score == p0[q].score,
            forall|x: int| a <= x < na ==> players@[alive_s[x]] == p0[alive_s[x]],
            mark_killed(players@, alive_s, outcome.killed@, a as int) == marked,
            ids@ == killed_ids(p0, alive_s, outcome.killed@, a as int),
        decreases na - a,
    {
        if outcome.killed[a] {
            let p = alive[a];
            let old_p = players[p];
            players.set(p, ServerPlayer { dead: true, ..old_p });
            ids.push(old_p.id);
            proof {
                assert forall|x: int| a + 1 <= x < na implies players@[alive_s[x]] == p0[alive_s[x]] by {
                    assert(alive_s[a as int] < alive_s[x]);
                }
            }
        }
        a = a + 1;
    }
    let nd = outcome.score_deltas.len();
    let ghost goal = add_awards(marked, alive_s, outcome.score_deltas@, 0);
    let mut d: usize = 0;
    while d < nd
        invariant
            nd == outcome.score_deltas@.len(),
            nd <= na,
            na == alive@.len(),
            na == alive_s.len(),
            na <= p0.len(),
            forall|x: int| 0 <= x < na ==> alive@[x] as int == alive_s[x],
            forall|x: int| 0 <= x < na ==> 0 <= #[trigger] alive_s[x] < p0.len(),
            forall|e: int| #![trigger outcome.score_deltas@[e]] 0 <= e < nd ==> outcome.score_deltas@[e].1 == KILL_SCORE
                && outcome.score_deltas@[e].0 < na,
            d <= nd,
            players@.len() == p0.len(),
            scores_fit(p0),
            forall|q: int| 0 <= q < p0.len() ==> (#[trigger] players@[q]).score <= p0[q].score + KILL_SCORE * d,
            add_awards(players@, alive_s, outcome.score_deltas@, d as int) == goal,
        decreases nd - d,
    {
        let (who, points) = outcome.score_deltas[d];
        let p = alive[who];
        let old_p = players[p];
        proof {
            assert(KILL_SCORE * d + KILL_SCORE == KILL_SCORE * (d + 1)) by (nonlinear_arith);
            assert(KILL_SCORE * (d + 1) <= KILL_SCORE * p0.len()) by (nonlinear_arith)
                requires
                    d + 1 <= p0.len(),
            ;
            assert(p0[p as int].score + KILL_SCORE * p0.len() <= u32::MAX);
        }
        players.set(p, ServerPlayer { score: old_p.score + points, ..old_p });
        d = d + 1;
    }
    ids
}

/// Brings back the dead players whose respawn timers ran out (`ids`) with
/// full health, and lists them in world order.
pub fn respawn_dead_players(players: &mut Vec<ServerPlayer>, ids: &Vec<u64>) -> (back: Vec<u64>)
    ensures
        final(players)@ == respawn_world(old(players)@, ids@),
        back@ == respawned_ids(old(players)@, ids@),
{
    let ghost p0 = players@;
    let n = players.len();
    let mut back: Vec<u64> = Vec::new();
    let mut i: usize = 0;
    while i < n
        invariant
            n == p0.len(),
            players@.len() == n,
            i <= n,
            forall|q: int| 0 <= q < i ==> #[trigger] players@[q] == respawn_world(p0, ids@)[q],
            forall|q: int| i <= q < n ==> #[trigger] players@[q] == p0[q],
            back@ == respawned_ids(p0.subrange(0, i as int), ids@),
        decreases n - i,
    {
        let pl = players[i];
        proof {
            assert(p0.subrange(0, i + 1).drop_last() =~= p0.subrange(0, i as int));
            assert(p0.subrange(0, i + 1).last() == p0[i as int]);
        }
        if pl.dead && id_listed(ids, pl.id) {
            players.set(i, ServerPlayer { dead: false, health: MAX_HP, ..pl });
            back.push(pl.id);
        }
        i = i + 1;
    }
    proof {
        assert(p0.subrange(0, n as int) =~= p0);
        assert(players@ =~= respawn_world(p0, ids@));
    }
    back
}

/// Whether an id is listed.
fn id_listed(ids: &Vec<u64>, id: u64) -> (b: bool)
    ensures
        b == listed(ids@, id),
{
    let n = ids.len();
    let mut i: usize = 0;
    while i < n
        invariant
            n == ids@.len(),
            i <= n,
            forall|j: int| 0 <= j < i ==> ids@[j] != id,
        decreases n - i,
    {
        if ids[i] == id {
            assert(ids@[i as int] == id);
            return true;
        }
        i = i + 1;
    }
    false
}

} // verus!
