//! Shooting: who may fire this frame, and what the bullets in flight do to
//! the players they hit.
use vstd::prelude::*;

use crate::shared::{KILL_SCORE, MAX_BULLETS_PER_PLAYER};

verus! {

/// An alive player as the shooting system sees it.
#[derive(Clone, Copy, Debug, PartialEq, Eq)]
pub struct Shooter {
    pub id: u64,
    /// The shoot cooldown has run out.
    pub ready: bool,
}

/// An alive player as the bullet system sees it.
#[derive(Clone, Copy, Debug, PartialEq, Eq)]
pub struct Target {
    pub id: u64,
    pub health: u8,
}

/// The score of one player.
#[derive(Clone, Copy, Debug, PartialEq, Eq)]
pub struct ScoreSlot {
    pub id: u64,
    pub score: u32,
}

/// Number of bullets in flight that belong to `id`.
pub open spec fn owned_count(owners: Seq<u64>, id: u64) -> nat
    decreases owners.len(),
{
    if owners.len() == 0 {
        0
    } else {
        owned_count(owners.drop_last(), id) + if owners.last() == id {
            1nat
        } else {
            0nat
        }
    }
}

/// The first alive player at or after `p` with the given id.
pub open spec fn find_shooter(players: Seq<Shooter>, id: u64, p: int) -> Option<int>
    decreases players.len() - p,
{
    if p < 0 || p >= players.len() {
        None
    } else if players[p].id == id {
        Some(p)
    } else {
        find_shooter(players, id, p + 1)
    }
}

/// Cooldown flags and the players that fired so far, in order.
pub type ShootState = (Seq<Shooter>, Seq<usize>);

/// One shoot request: the sender must be an alive player whose cooldown has
/// run out and who has fewer than `MAX_BULLETS_PER_PLAYER` bullets in flight;
/// then its cooldown restarts and it fires.
pub open spec fn shoot_step(owners: Seq<u64>, st: ShootState, sender: u64) -> ShootState {
    match find_shooter(st.0, sender, 0) {
        None => st,
        Some(p) => if !st.0[p].ready || owned_count(owners, sender) >= MAX_BULLETS_PER_PLAYER {
            st
        } else {
            (st.0.update(p, Shooter { id: st.0[p].id, ready: false }), st.1.push(p as usize))
        },
    }
}

/// The shoot requests from the `m`-th on.
pub open spec fn shots_from(owners: Seq<u64>, senders: Seq<u64>, st: ShootState, m: int) -> ShootState
    decreases senders.len() - m,
{
    if m < 0 || m >= senders.len() {
        st
    } else {
        shots_from(owners, senders, shoot_step(owners, st, senders[m]), m + 1)
    }
}

proof fn lemma_shooter_found(players: Seq<Shooter>, id: u64, p: int)
    requires
        0 <= p,
    ensures
        find_shooter(players, id, p) matches Some(k) ==> p <= k < players.len() && players[k].id == id,
    decreases players.len() - p,
{
    if p < players.len() && players[p].id != id {
        lemma_shooter_found(players, id, p + 1);
    }
}

/// Counts the bullets in flight that belong to `id`.
fn count_owned(owners: &Vec<u64>, id: u64) -> (c: usize)
    ensures
        c == owned_count(owners@, id),
{
    let n = owners.len();
    let mut c: usize = 0;
    let mut i: usize = 0;
    while i < n
        invariant
            n == owners@.len(),
            i <= n,
            c == owned_count(owners@.subrange(0, i as int), id),
            c <= i,
        decreases n - i,
    {
        assert(owners@.subrange(0, i + 1).drop_last() =~= owners@.subrange(0, i as int));
        if owners[i] == id {
            c = c + 1;
        }
        i = i + 1;
    }
    assert(owners@.subrange(0, n as int) =~= owners@);
    c
}

/// Finds the first alive player with the given id.
fn find_shooter_exec(players: &Vec<Shooter>, id: u64) -> (r: Option<usize>)
    ensures
        match r {
            Some(p) => find_shooter(players@, id, 0) == Some(p as int),
            None => find_shooter(players@, id, 0) is None,
        },
{
    let n = players.len();
    let mut p: usize = 0;
    while p < n
        invariant
            n == players@.len(),
            p <= n,
            find_shooter(players@, id, 0) == find_shooter(players@, id, p as int),
        decreases n - p,
    {
        if players[p].id == id {
            return Some(p);
        }
        p = p + 1;
    }
    None
}

/// Handles the shoot requests of one frame, in order. Returns the players
/// (positions in `players`) that fire, one bullet each, in order; the
/// cooldown of each of them restarts. `bullet_owners` are the owners of the
/// bullets in flight before this frame.
pub fn server_handle_shoot(senders: &Vec<u64>, players: &mut Vec<Shooter>, bullet_owners: &Vec<u64>) -> (fired: Vec<
    usize,
>)
    ensures
        (final(players)@, fired@) == shots_from(
            bullet_owners@,
            senders@,
            (old(players)@, Seq::empty()),
            0,
        ),
{
    let ghost goal = shots_from(bullet_owners@, senders@, (players@, Seq::empty()), 0);
    let mut fired: Vec<usize> = Vec::new();
    let n = senders.len();
    let mut m: usize = 0;
    while m < n
        invariant
            n == senders@.len(),
            m <= n,
            shots_from(bullet_owners@, senders@, (players@, fired@), m as int) == goal,
        decreases n - m,
    {
        let sender = senders[m];
        proof {
            lemma_shooter_found(players@, sender, 0);
        }
        match find_shooter_exec(players, sender) {
            None => {},
            Some(p) => {
                if players[p].ready && count_owned(bullet_owners, sender) < MAX_BULLETS_PER_PLAYER {
                    let id = players[p].id;
                    players.set(p, Shooter { id, ready: false });
                    fired.push(p);
                }
            },
        }
        m = m + 1;
    }
    fired
}

/// The first alive player, from position `p` on, that bullet `b` is inside
/// and that does not own it.
pub open spec fn bullet_target(
    owners: Seq<u64>,
    targets: Seq<Target>,
    hits: Seq<Seq<bool>>,
    b: int,
    p: int,
) -> Option<int>
    decreases targets.len() - p,
{
    if p < 0 || p >= targets.len() {
        None
    } else if targets[p].id != owners[b] && hits[b][p] {
        Some(p)
    } else {
        bullet_target(owners, targets, hits, b, p + 1)
    }
}

/// The first score slot of a player.
pub open spec fn score_slot_of(scores: Seq<ScoreSlot>, id: u64, i: int) -> Option<int>
    decreases scores.len() - i,
{
    if i < 0 || i >= scores.len() {
        None
    } else if scores[i].id == id {
        Some(i)
    } else {
        score_slot_of(scores, id, i + 1)
    }
}

/// Awards a kill to the first score slot of `id`, if it has one.
pub open spec fn award_kill(scores: Seq<ScoreSlot>, id: u64) -> Seq<ScoreSlot> {
    match score_slot_of(scores, id, 0) {
        None => scores,
        Some(i) => scores.update(i, ScoreSlot { id: scores[i].id, score: (scores[i].score + KILL_SCORE) as u32 }),
    }
}

/// Health, death marks, spent bullets and scores during a frame of bullets.
pub type BulletState = (Seq<Target>, Seq<bool>, Seq<bool>, Seq<ScoreSlot>);

/// Bullet `b`: if it is inside an alive player other than its owner, the
/// first such player takes the bullet, which is spent. A player with hit
/// points left loses one; the one that loses its last hit point is marked
/// dead and earns the owner a kill. A player already without hit points
/// loses nothing more, dies no second time and earns nobody a kill.
pub open spec fn bullet_step(owners: Seq<u64>, hits: Seq<Seq<bool>>, st: BulletState, b: int) -> BulletState {
    let (targets, dead, spent, scores) = st;
    match bullet_target(owners, targets, hits, b, 0) {
        None => st,
        Some(p) => {
            let spent2 = spent.update(b, true);
            if targets[p].health == 0 {
                (targets, dead, spent2, scores)
            } else {
                let hp = (targets[p].health - 1) as u8;
                let targets2 = targets.update(p, Target { id: targets[p].id, health: hp });
                if hp == 0 {
                    (targets2, dead.update(p, true), spent2, award_kill(scores, owners[b]))
                } else {
                    (targets2, dead, spent2, scores)
                }
            }
        },
    }
}

/// The bullets from the `b`-th on.
pub open spec fn bullets_from(owners: Seq<u64>, hits: Seq<Seq<bool>>, st: BulletState, b: int) -> BulletState
    decreases owners.len() - b,
{
    if b < 0 || b >= owners.len() {
        st
    } else {
        bullets_from(owners, hits, bullet_step(owners, hits, st, b), b + 1)
    }
}

/// The bullet table as plain booleans: `hits[b][p]` holds when bullet `b`
/// is inside alive player `p`.
pub open spec fn bullet_table(hits: Seq<Vec<bool>>) -> Seq<Seq<bool>> {
    hits.map_values(|r: Vec<bool>| r@)
}

/// Every score leaves room for one kill per bullet its player owns: no
/// score can grow by more in one frame.
pub open spec fn scores_have_room(scores: Seq<ScoreSlot>, owners: Seq<u64>) -> bool {
    forall|i: int|
        0 <= i < scores.len() ==> (#[trigger] scores[i]).score + KILL_SCORE * owned_count(owners, scores[i].id)
            <= u32::MAX
}

/// Counting bullets in a prefix one bullet longer adds that bullet.
proof fn lemma_owned_step(owners: Seq<u64>, k: int, id: u64)
    requires
        0 <= k < owners.len(),
    ensures
        owned_count(owners.subrange(0, k + 1), id) == owned_count(owners.subrange(0, k), id) + if owners[k]
            == id {
            1nat
        } else {
            0nat
        },
{
    assert(owners.subrange(0, k + 1).drop_last() =~= owners.subrange(0, k));
}

/// A prefix owns no more bullets than the whole list.
proof fn lemma_owned_prefix(owners: Seq<u64>, k: int, id: u64)
    requires
        0 <= k <= owners.len(),
    ensures
        owned_count(owners.subrange(0, k), id) <= owned_count(owners, id),
    decreases owners.len() - k,
{
    if k == owners.len() {
        assert(owners.subrange(0, k) =~= owners);
    } else {
        lemma_owned_step(owners, k, id);
        lemma_owned_prefix(owners, k + 1, id);
    }
}

/// What a frame of bullets does.
#[derive(Debug)]
pub struct CollisionOutcome {
    /// `dead[p]`: alive player `p` is marked dead.
    pub dead: Vec<bool>,
    /// `spent[b]`: bullet `b` hit someone and disappears.
    pub spent: Vec<bool>,
}

fn all_false(n: usize) -> (v: Vec<bool>)
    ensures
        v@ == Seq::new(n as nat, |_i: int| false),
{
    let mut v: Vec<bool> = Vec::new();
    let mut k: usize = 0;
    while k < n
        invariant
            k <= n,
            v@ == Seq::new(k as nat, |_i: int| false),
        decreases n - k,
    {
        v.push(false);
        k = k + 1;
        assert(v@ =~= Seq::new(k as nat, |_i: int| false));
    }
    v
}

/// Finds the player that bullet `b` strikes.
fn find_target(
    owners: &Vec<u64>,
    targets: &Vec<Target>,
    hits: &Vec<Vec<bool>>,
    b: usize,
) -> (r: Option<usize>)
    requires
        b < owners@.len(),
        b < hits@.len(),
        hits@[b as int]@.len() == targets@.len(),
    ensures
        match r {
            Some(p) => bullet_target(owners@, targets@, bullet_table(hits@), b as int, 0) == Some(p as int),
            None => bullet_target(owners@, targets@, bullet_table(hits@), b as int, 0) is None,
        },
{
    let ghost h = bullet_table(hits@);
    let n = targets.len();
    let mut p: usize = 0;
    while p < n
        invariant
            n == targets@.len(),
            p <= n,
            b < owners@.len(),
            b < hits@.len(),
            h == bullet_table(hits@),
            hits@[b as int]@.len() == n,
            bullet_target(owners@, targets@, h, b as int, 0) == bullet_target(owners@, targets@, h, b as int, p as int),
        decreases n - p,
    {
        assert(h[b as int] == hits@[b as int]@);
        if targets[p].id != owners[b] && hits[b][p] {
            return Some(p);
        }
        p = p + 1;
    }
    None
}

/// Finds the score slot of a player.
fn find_score_slot(scores: &Vec<ScoreSlot>, id: u64) -> (r: Option<usize>)
    ensures
        match r {
            Some(i) => score_slot_of(scores@, id, 0) == Some(i as int),
            None => score_slot_of(scores@, id, 0) is None,
        },
{
    let n = scores.len();
    let mut i: usize = 0;
    while i < n
        invariant
            n == scores@.len(),
            i <= n,
            score_slot_of(scores@, id, 0) == score_slot_of(scores@, id, i as int),
        decreases n - i,
    {
        if scores[i].id == id {
            return Some(i);
        }
        i = i + 1;
    }
    None
}

proof fn lemma_score_slot_found(scores: Seq<ScoreSlot>, id: u64, i: int)
    requires
        0 <= i,
    ensures
        score_slot_of(scores, id, i) matches Some(k) ==> i <= k < scores.len() && scores[k].id == id,
    decreases scores.len() - i,
{
    if i < scores.len() && scores[i].id != id {
        lemma_score_slot_found(scores, id, i + 1);
    }
}

proof fn lemma_target_found(owners: Seq<u64>, targets: Seq<Target>, hits: Seq<Seq<bool>>, b: int, p: int)
    requires
        0 <= p,
    ensures
        bullet_target(owners, targets, hits, b, p) matches Some(k) ==> p <= k < targets.len()
            && targets[k].id != owners[b] && hits[b][k],
    decreases targets.len() - p,
{
    if p < targets.len() && !(targets[p].id != owners[b] && hits[b][p]) {
        lemma_target_found(owners, targets, hits, b, p + 1);
    }
}

/// Award keeps slot ids and raises only a slot of `id`, by one kill.
proof fn lemma_award_bounds(scores: Seq<ScoreSlot>, id: u64)
    requires
        forall|i: int| 0 <= i < scores.len() && (#[trigger] scores[i]).id == id ==> scores[i].score + KILL_SCORE <= u32::MAX,
    ensures
        award_kill(scores, id).len() == scores.len(),
        forall|i: int| 0 <= i < scores.len() ==> {
            &&& (#[trigger] award_kill(scores, id)[i]).id == scores[i].id
            &&& scores[i].score <= award_kill(scores, id)[i].score
            &&& award_kill(scores, id)[i].score <= scores[i].score + if scores[i].id == id {
                KILL_SCORE
            } else {
                0
            }
        },
{
    lemma_score_slot_found(scores, id, 0);
}

/// Scores that grew by at most one kill per bullet of the first `b` still
/// have room for a kill by bullet `b`.
proof fn lemma_room_for_award(owners: Seq<u64>, scores0: Seq<ScoreSlot>, scores: Seq<ScoreSlot>, b: int)
    requires
        0 <= b < owners.len(),
        scores_have_room(scores0, owners),
        scores.len() == scores0.len(),
        forall|i: int| 0 <= i < scores.len() ==> {
            &&& (#[trigger] scores[i]).id == scores0[i].id
            &&& scores[i].score <= scores0[i].score + KILL_SCORE * owned_count(owners.subrange(0, b), scores0[i].id)
        },
    ensures
        forall|i: int| 0 <= i < scores.len() && (#[trigger] scores[i]).id == owners[b] ==> scores[i].score
            + KILL_SCORE <= u32::MAX,
{
    assert forall|i: int| 0 <= i < scores.len() && (#[trigger] scores[i]).id == owners[b] implies scores[i].score
        + KILL_SCORE <= u32::MAX by {
        let id = scores0[i].id;
        lemma_owned_step(owners, b, id);
        lemma_owned_prefix(owners, b + 1, id);
        let c = owned_count(owners.subrange(0, b), id);
        assert(KILL_SCORE * c + KILL_SCORE == KILL_SCORE * (c + 1)) by (nonlinear_arith);
        assert(KILL_SCORE * (c + 1) <= KILL_SCORE * owned_count(owners, id)) by (nonlinear_arith)
            requires
                c + 1 <= owned_count(owners, id),
        ;
        assert(scores0[i].score + KILL_SCORE * owned_count(owners, id) <= u32::MAX);
    }
}

/// A step that raised only the slots of bullet `b`'s owner, by one kill,
/// keeps each score within one kill per bullet counted so far.
proof fn lemma_room_kept(
    owners: Seq<u64>,
    scores0: Seq<ScoreSlot>,
    before: Seq<ScoreSlot>,
    after: Seq<ScoreSlot>,
    b: int,
)
    requires
        0 <= b < owners.len(),
        before.len() == scores0.len(),
        after.len() == scores0.len(),
        forall|i: int| 0 <= i < before.len() ==> {
            &&& (#[trigger] before[i]).id == scores0[i].id
            &&& before[i].score <= scores0[i].score + KILL_SCORE * owned_count(owners.subrange(0, b), scores0[i].id)
        },
        forall|i: int| 0 <= i < after.len() ==> {
            &&& (#[trigger] after[i]).id == before[i].id
            &&& after[i].score <= before[i].score + if before[i].id == owners[b] {
                KILL_SCORE
            } else {
                0
            }
        },
    ensures
        forall|i: int| 0 <= i < after.len() ==> {
            &&& (#[trigger] after[i]).id == scores0[i].id
            &&& after[i].score <= scores0[i].score + KILL_SCORE * owned_count(
                owners.subrange(0, b + 1),
                scores0[i].id,
            )
        },
{
    assert forall|i: int| 0 <= i < after.len() implies {
        &&& (#[trigger] after[i]).id == scores0[i].id
        &&& after[i].score <= scores0[i].score + KILL_SCORE * owned_count(owners.subrange(0, b + 1), scores0[i].id)
    } by {
        let id = scores0[i].id;
        lemma_owned_step(owners, b, id);
        let c = owned_count(owners.subrange(0, b), id);
        assert(KILL_SCORE * c + KILL_SCORE == KILL_SCORE * (c + 1)) by (nonlinear_arith);
        assert(before[i].score <= scores0[i].score + KILL_SCORE * c);
    }
}

/// What one bullet can do: it strikes at most one player, the first alive
/// player other than its owner that it is inside, taking one hit point if
/// the player has one left; it is then spent. Every other player keeps its
/// health and dead mark, and a kill is awarded only for a player it takes
/// from one hit point to none.
pub proof fn lemma_one_bullet_one_player(owners: Seq<u64>, hits: Seq<Seq<bool>>, st: BulletState, b: int)
    requires
        0 <= b < owners.len(),
        st.1.len() == st.0.len(),
        b < st.2.len(),
    ensures
        ({
            let next = bullet_step(owners, hits, st, b);
            &&& next.0.len() == st.0.len()
            &&& next.1.len() == st.1.len()
            &&& next.2 == st.2 || next.2 == st.2.update(b, true)
            &&& forall|q: int|
                0 <= q < st.0.len() && (#[trigger] next.0[q] != st.0[q] || next.1[q] != st.1[q]) ==> {
                    &&& next.2 == st.2.update(b, true)
                    &&& st.0[q].id != owners[b] && hits[b][q]
                    &&& forall|r: int| 0 <= r < q ==> !(st.0[r].id != owners[b] && hits[b][r])
                    &&& st.0[q].health > 0
                    &&& next.0[q] == (Target { id: st.0[q].id, health: (st.0[q].health - 1) as u8 })
                    &&& next.1[q] == (st.1[q] || st.0[q].health == 1)
                }
            &&& forall|q1: int, q2: int|
                0 <= q1 < st.0.len() && 0 <= q2 < st.0.len() && (#[trigger] next.0[q1] != st.0[q1] || next.1[q1]
                    != st.1[q1]) && (#[trigger] next.0[q2] != st.0[q2] || next.1[q2] != st.1[q2]) ==> q1 == q2
            &&& next.3 != st.3 ==> exists|q: int|
                0 <= q < st.0.len() && #[trigger] st.0[q].health == 1 && next.0[q].health == 0 && next.1[q]
        }),
{
    lemma_target_found(owners, st.0, hits, b, 0);
    lemma_target_first(owners, st.0, hits, b, 0);
}

/// The bullet's target is the first player, from `p` on, that it strikes.
proof fn lemma_target_first(owners: Seq<u64>, targets: Seq<Target>, hits: Seq<Seq<bool>>, b: int, p: int)
    requires
        0 <= p,
    ensures
        bullet_target(owners, targets, hits, b, p) matches Some(k) ==> forall|r: int|
            p <= r < k ==> !(targets[r].id != owners[b] && hits[b][r]),
    decreases targets.len() - p,
{
    if p < targets.len() && !(targets[p].id != owners[b] && hits[b][p]) {
        lemma_target_first(owners, targets, hits, b, p + 1);
    }
}

/// Hit points of all players together.
pub open spec fn health_total(ts: Seq<Target>) -> int
    decreases ts.len(),
{
    if ts.len() == 0 {
        0
    } else {
        health_total(ts.drop_last()) + ts.last().health
    }
}

proof fn lemma_health_total_update(ts: Seq<Target>, p: int, t: Target)
    requires
        0 <= p < ts.len(),
    ensures
        health_total(ts.update(p, t)) == health_total(ts) - ts[p].health + t.health,
    decreases ts.len(),
{
    if p == ts.len() - 1 {
        assert(ts.update(p, t).drop_last() =~= ts.drop_last());
    } else {
        assert(ts.update(p, t).drop_last() =~= ts.drop_last().update(p, t));
        lemma_health_total_update(ts.drop_last(), p, t);
    }
}

/// Across a frame, the players lose no more hit points in total than there
/// are bullets spent: each bullet takes at most one hit point from one
/// player.
pub proof fn lemma_health_lost_at_most_spent(
    owners: Seq<u64>,
    hits: Seq<Seq<bool>>,
    targets: Seq<Target>,
    scores: Seq<ScoreSlot>,
)
    ensures
        ({
            let r = bullets_from(
                owners,
                hits,
                (targets, Seq::new(targets.len(), |_i: int| false), Seq::new(owners.len(), |_i: int| false), scores),
                0,
            );
            health_total(targets) - health_total(r.0) <= crate::combat::count_true(r.2)
        }),
{
    let inv = |st: BulletState, k: int|
        {
            &&& st.0.len() == targets.len()
            &&& st.1.len() == targets.len()
            &&& st.2.len() == owners.len()
            &&& health_total(targets) - health_total(st.0) <= crate::combat::count_true(st.2)
            &&& forall|c: int| k <= c < owners.len() ==> !#[trigger] st.2[c]
        };
    assert forall|st: BulletState, k: int| 0 <= k < owners.len() && inv(st, k) implies #[trigger] inv(
        bullet_step(owners, hits, st, k),
        k + 1,
    ) by {
        lemma_target_found(owners, st.0, hits, k, 0);
        if let Some(p) = bullet_target(owners, st.0, hits, k, 0) {
            crate::combat::lemma_count_set(st.2, k);
            if st.0[p].health > 0 {
                lemma_health_total_update(
                    st.0,
                    p,
                    Target { id: st.0[p].id, health: (st.0[p].health - 1) as u8 },
                );
            }
        }
    }
    let st0 = (targets, Seq::new(targets.len(), |_i: int| false), Seq::new(owners.len(), |_i: int| false), scores);
    assert(inv(st0, 0));
    lemma_bullets_preserve(owners, hits, st0, 0, inv);
}

/// Resolves the bullets in flight against the alive players. `hits[b][p]`
/// says whether bullet `b` is inside player `p`; healths drop in `targets`,
/// kills raise `scores`.
pub fn bullet_player_collision(
    bullet_owners: &Vec<u64>,
    targets: &mut Vec<Target>,
    hits: &Vec<Vec<bool>>,
    scores: &mut Vec<ScoreSlot>,
) -> (out: CollisionOutcome)
    requires
        hits@.len() == bullet_owners@.len(),
        forall|b: int| 0 <= b < hits@.len() ==> (#[trigger] hits@[b])@.len() == old(targets)@.len(),
        scores_have_room(old(scores)@, bullet_owners@),
    ensures
        (final(targets)@, out.dead@, out.spent@, final(scores)@) == bullets_from(
            bullet_owners@,
            bullet_table(hits@),
            (
                old(targets)@,
                Seq::new(old(targets)@.len(), |_i: int| false),
                Seq::new(bullet_owners@.len(), |_i: int| false),
                old(scores)@,
            ),
            0,
        ),
{
    let ghost h = bullet_table(hits@);
    let ghost scores0 = scores@;
    let nb = bullet_owners.len();
    let mut dead = all_false(targets.len());
    let mut spent = all_false(nb);
    let ghost goal = bullets_from(bullet_owners@, h, (targets@, dead@, spent@, scores@), 0);
    let mut b: usize = 0;
    while b < nb
        invariant
            nb == bullet_owners@.len(),
            nb == hits@.len(),
            h == bullet_table(hits@),
            b <= nb,
            forall|c: int| 0 <= c < hits@.len() ==> (#[trigger] hits@[c])@.len() == targets@.len(),
            dead@.len() == targets@.len(),
            spent@.len() == nb,
            scores@.len() == scores0.len(),
            forall|i: int| 0 <= i < scores@.len() ==> {
                &&& (#[trigger] scores@[i]).id == scores0[i].id
                &&& scores@[i].score <= scores0[i].score + KILL_SCORE * owned_count(
                    bullet_owners@.subrange(0, b as int),
                    scores0[i].id,
                )
            },
            scores_have_room(scores0, bullet_owners@),
            bullets_from(bullet_owners@, h, (targets@, dead@, spent@, scores@), b as int) == goal,
        decreases nb - b,
    {
        let ghost st = (targets@, dead@, spent@, scores@);
        proof {
            lemma_target_found(bullet_owners@, targets@, h, b as int, 0);
            lemma_room_for_award(bullet_owners@, scores0, scores@, b as int);
            lemma_award_bounds(scores@, bullet_owners@[b as int]);
        }
        match find_target(bullet_owners, targets, hits, b) {
            None => {},
            Some(p) => {
                let t = targets[p];
                spent.set(b, true);
                if t.health > 0 {
                    let hp: u8 = t.health - 1;
                    targets.set(p, Target { id: t.id, health: hp });
                    if hp == 0 {
                        dead.set(p, true);
                        let owner = bullet_owners[b];
                        match find_score_slot(scores, owner) {
                            None => {},
                            Some(i) => {
                                proof {
                                    lemma_score_slot_found(scores@, owner, 0);
                                }
                                let slot = scores[i];
                                scores.set(i, ScoreSlot { id: slot.id, score: slot.score + KILL_SCORE });
                            },
                        }
                    }
                }
                proof {
                    assert(bullet_step(bullet_owners@, h, st, b as int) == (targets@, dead@, spent@, scores@));
                }
            },
        }
        proof {
            lemma_room_kept(bullet_owners@, scores0, st.3, scores@, b as int);
        }
        b = b + 1;
    }
    CollisionOutcome { dead, spent }
}

proof fn lemma_shots_preserve(
    owners: Seq<u64>,
    senders: Seq<u64>,
    st: ShootState,
    m: int,
    inv: spec_fn(ShootState) -> bool,
)
    requires
        0 <= m,
        inv(st),
        forall|s: ShootState, k: int| 0 <= k < senders.len() && inv(s) ==> #[trigger] inv(
            shoot_step(owners, s, senders[k]),
        ),
    ensures
        inv(shots_from(owners, senders, st, m)),
    decreases senders.len() - m,
{
    if m < senders.len() {
        assert(inv(shoot_step(owners, st, senders[m])));
        lemma_shots_preserve(owners, senders, shoot_step(owners, st, senders[m]), m + 1, inv);
    }
}

proof fn lemma_shots_shift(owners: Seq<u64>, a: Seq<u64>, b: Seq<u64>, st: ShootState, k: int)
    requires
        0 <= k <= b.len(),
    ensures
        shots_from(owners, a + b, st, a.len() + k) == shots_from(owners, b, st, k),
    decreases b.len() - k,
{
    if k < b.len() {
        assert((a + b)[a.len() + k] == b[k]);
        lemma_shots_shift(owners, a, b, shoot_step(owners, st, b[k]), k + 1);
    }
}

proof fn lemma_shots_concat_from(owners: Seq<u64>, a: Seq<u64>, b: Seq<u64>, st: ShootState, m: int)
    requires
        0 <= m <= a.len(),
    ensures
        shots_from(owners, a + b, st, m) == shots_from(owners, b, shots_from(owners, a, st, m), 0),
    decreases a.len() - m,
{
    if m == a.len() {
        lemma_shots_shift(owners, a, b, st, 0);
    } else {
        assert((a + b)[m] == a[m]);
        lemma_shots_concat_from(owners, a, b, shoot_step(owners, st, a[m]), m + 1);
    }
}

/// Shoot requests are handled one after the other: the requests `first`
/// followed by `rest` are handled as `first`, then `rest` from the state
/// `first` left.
pub proof fn lemma_requests_in_turn(owners: Seq<u64>, first: Seq<u64>, rest: Seq<u64>, st: ShootState)
    ensures
        shots_from(owners, first + rest, st, 0) == shots_from(owners, rest, shots_from(owners, first, st, 0), 0),
{
    lemma_shots_concat_from(owners, first, rest, st, 0);
}

/// A request is refused when its sender is no alive player, is still
/// cooling down, or already has `MAX_BULLETS_PER_PLAYER` bullets in flight.
pub open spec fn request_refused(owners: Seq<u64>, players: Seq<Shooter>, sender: u64) -> bool {
    match find_shooter(players, sender, 0) {
        None => true,
        Some(p) => !players[p].ready || owned_count(owners, sender) >= MAX_BULLETS_PER_PLAYER,
    }
}

/// A refused request changes nothing, so the requests after it are handled
/// exactly as if it had not been made; an accepted request fires from its
/// sender's first alive player and restarts that player's cooldown.
pub proof fn lemma_request_outcome(owners: Seq<u64>, before: Seq<u64>, x: u64, after: Seq<u64>, st: ShootState)
    ensures
        ({
            let mid = shots_from(owners, before, st, 0);
            &&& request_refused(owners, mid.0, x) ==> shots_from(owners, before.push(x) + after, st, 0)
                == shots_from(owners, before + after, st, 0)
            &&& !request_refused(owners, mid.0, x) ==> {
                let p = find_shooter(mid.0, x, 0)->0;
                shots_from(owners, before.push(x), st, 0) == (
                    mid.0.update(p, Shooter { id: mid.0[p].id, ready: false }),
                    mid.1.push(p as usize),
                )
            }
        }),
{
    let mid = shots_from(owners, before, st, 0);
    lemma_requests_in_turn(owners, before, seq![x], st);
    assert(before.push(x) =~= before + seq![x]);
    assert(shots_from(owners, seq![x], mid, 0) == shots_from(owners, seq![x], shoot_step(owners, mid, x), 1));
    if request_refused(owners, mid.0, x) {
        lemma_requests_in_turn(owners, before.push(x), after, st);
        lemma_requests_in_turn(owners, before, after, st);
    }
}

/// The shooting invariant: ids stay, cooldowns only restart, and every
/// player that fired was ready at the start, had room for one more bullet,
/// has restarted its cooldown, and fired once.
pub open spec fn shooting_invariant(owners: Seq<u64>, init: Seq<Shooter>, st: ShootState) -> bool {
    &&& st.0.len() == init.len()
    &&& forall|p: int| 0 <= p < init.len() ==> (#[trigger] st.0[p]).id == init[p].id
    &&& forall|p: int| 0 <= p < init.len() && (#[trigger] st.0[p]).ready ==> init[p].ready
    &&& forall|k: int| 0 <= k < st.1.len() ==> {
        &&& (#[trigger] st.1[k]) < init.len()
        &&& init[st.1[k] as int].ready
        &&& !st.0[st.1[k] as int].ready
        &&& owned_count(owners, init[st.1[k] as int].id) + 1 <= MAX_BULLETS_PER_PLAYER
        &&& find_shooter(init, init[st.1[k] as int].id, 0) == Some(st.1[k] as int)
    }
    &&& st.1.no_duplicates()
}

/// Players with the same ids, in the same places, give the same shooter.
proof fn lemma_find_same_ids(a: Seq<Shooter>, b: Seq<Shooter>, id: u64, p: int)
    requires
        a.len() == b.len(),
        forall|q: int| 0 <= q < a.len() ==> (#[trigger] a[q]).id == b[q].id,
    ensures
        find_shooter(a, id, p) == find_shooter(b, id, p),
    decreases a.len() - p,
{
    if 0 <= p < a.len() && a[p].id != id {
        lemma_find_same_ids(a, b, id, p + 1);
    }
}

/// Within one frame a player fires at most once, only if its cooldown had
/// run out, and only if the bullet keeps it within `MAX_BULLETS_PER_PLAYER`
/// bullets in flight.
pub proof fn lemma_fire_rules(owners: Seq<u64>, senders: Seq<u64>, players: Seq<Shooter>)
    requires
        players.len() <= usize::MAX,
    ensures
        shooting_invariant(owners, players, shots_from(owners, senders, (players, Seq::empty()), 0)),
{
    let inv = |st: ShootState| shooting_invariant(owners, players, st);
    assert forall|s: ShootState, k: int| 0 <= k < senders.len() && inv(s) implies #[trigger] inv(
        shoot_step(owners, s, senders[k]),
    ) by {
        lemma_shooter_found(s.0, senders[k], 0);
        lemma_find_same_ids(s.0, players, senders[k], 0);
        let next = shoot_step(owners, s, senders[k]);
        if let Some(p) = find_shooter(s.0, senders[k], 0) {
            if s.0[p].ready && owned_count(owners, senders[k]) < MAX_BULLETS_PER_PLAYER {
                assert(next.1 == s.1.push(p as usize));
                assert forall|a: int, b: int| 0 <= a < next.1.len() && 0 <= b < next.1.len() && a != b implies
                    next.1[a] != next.1[b] by {
                    if a < s.1.len() && b < s.1.len() {
                    } else if a < s.1.len() {
                        assert(!s.0[s.1[a] as int].ready);
                    } else {
                        assert(!s.0[s.1[b] as int].ready);
                    }
                }
                assert forall|j: int| 0 <= j < next.1.len() implies {
                    &&& (#[trigger] next.1[j]) < players.len()
                    &&& players[next.1[j] as int].ready
                    &&& !next.0[next.1[j] as int].ready
                    &&& owned_count(owners, players[next.1[j] as int].id) + 1 <= MAX_BULLETS_PER_PLAYER
                    &&& find_shooter(players, players[next.1[j] as int].id, 0) == Some(next.1[j] as int)
                } by {
                    if j < s.1.len() {
                        assert(next.1[j] == s.1[j]);
                    } else {
                        assert(next.1[j] as int == p);
                    }
                }
            }
        }
    }
    lemma_shots_preserve(owners, senders, (players, Seq::empty()), 0, inv);
}

/// The owners of the bullets fired this frame, in order.
pub open spec fn fired_owners(players: Seq<Shooter>, fired: Seq<usize>) -> Seq<u64> {
    fired.map_values(|p: usize| players[p as int].id)
}

/// Bullets of two lists, counted together.
proof fn lemma_owned_concat(a: Seq<u64>, b: Seq<u64>, id: u64)
    ensures
        owned_count(a + b, id) == owned_count(a, id) + owned_count(b, id),
    decreases b.len(),
{
    if b.len() > 0 {
        assert((a + b).drop_last() =~= a + b.drop_last());
        lemma_owned_concat(a, b.drop_last(), id);
    }
}

/// A list in which `id` occurs at most once owns at most one bullet of it,
/// and owns one only where it occurs.
proof fn lemma_owned_at_most_one(b: Seq<u64>, id: u64)
    requires
        forall|k1: int, k2: int| 0 <= k1 < b.len() && 0 <= k2 < b.len() && b[k1] == id && b[k2] == id ==> k1 == k2,
    ensures
        owned_count(b, id) <= 1,
        owned_count(b, id) == 1 ==> exists|k: int| 0 <= k < b.len() && b[k] == id,
    decreases b.len(),
{
    if b.len() > 0 {
        let r = b.drop_last();
        lemma_owned_at_most_one(r, id);
        if b.last() == id {
            if owned_count(r, id) == 1 {
                let k = choose|k: int| 0 <= k < r.len() && r[k] == id;
                assert(b[k] == id && b[b.len() - 1] == id);
            }
            assert(b[b.len() - 1] == id);
        } else if owned_count(r, id) == 1 {
            let k = choose|k: int| 0 <= k < r.len() && r[k] == id;
            assert(b[k] == id);
        }
    }
}

/// Shooting keeps the bullet limit: if no player had more than
/// `MAX_BULLETS_PER_PLAYER` bullets in flight before a frame, none has more
/// after the bullets fired in it.
pub proof fn lemma_bullet_limit_kept(owners: Seq<u64>, senders: Seq<u64>, players: Seq<Shooter>)
    requires
        players.len() <= usize::MAX,
        forall|id: u64| #[trigger] owned_count(owners, id) <= MAX_BULLETS_PER_PLAYER,
    ensures
        forall|id: u64|
            #[trigger] owned_count(
                owners + fired_owners(players, shots_from(owners, senders, (players, Seq::empty()), 0).1),
                id,
            ) <= MAX_BULLETS_PER_PLAYER,
{
    lemma_fire_rules(owners, senders, players);
    let st = shots_from(owners, senders, (players, Seq::empty()), 0);
    let f = st.1;
    let b = fired_owners(players, f);
    assert forall|id: u64| #[trigger] owned_count(owners + b, id) <= MAX_BULLETS_PER_PLAYER by {
        lemma_owned_concat(owners, b, id);
        assert forall|k1: int, k2: int|
            0 <= k1 < b.len() && 0 <= k2 < b.len() && b[k1] == id && b[k2] == id implies k1 == k2 by {
            assert(find_shooter(players, players[f[k1] as int].id, 0) == Some(f[k1] as int));
            assert(find_shooter(players, players[f[k2] as int].id, 0) == Some(f[k2] as int));
            assert(f[k1] == f[k2]);
        }
        lemma_owned_at_most_one(b, id);
        if owned_count(b, id) == 1 {
            let k = choose|k: int| 0 <= k < b.len() && b[k] == id;
            assert(owned_count(owners, players[f[k] as int].id) + 1 <= MAX_BULLETS_PER_PLAYER);
        }
    }
}

proof fn lemma_bullets_preserve(
    owners: Seq<u64>,
    hits: Seq<Seq<bool>>,
    st: BulletState,
    b: int,
    inv: spec_fn(BulletState, int) -> bool,
)
    requires
        0 <= b <= owners.len(),
        inv(st, b),
        forall|s: BulletState, k: int| 0 <= k < owners.len() && inv(s, k) ==> #[trigger] inv(
            bullet_step(owners, hits, s, k),
            k + 1,
        ),
    ensures
        inv(bullets_from(owners, hits, st, b), owners.len() as int),
    decreases owners.len() - b,
{
    if b < owners.len() {
        assert(inv(bullet_step(owners, hits, st, b), b + 1));
        lemma_bullets_preserve(owners, hits, bullet_step(owners, hits, st, b), b + 1, inv);
    }
}

/// Bullet `b` is inside player `p`, which does not own it.
pub open spec fn struck_by(owners: Seq<u64>, targets: Seq<Target>, hits: Seq<Seq<bool>>, b: int, p: int) -> bool {
    0 <= b < owners.len() && targets[p].id != owners[b] && hits[b][p]
}

/// The bullet invariant: players keep their ids and never regain health; a
/// player loses health only when a bullet it does not own is inside it; a
/// dead mark means no health left; a spent bullet was inside a player it does
/// not own; scores only grow.
pub open spec fn bullet_invariant(
    owners: Seq<u64>,
    hits: Seq<Seq<bool>>,
    init: Seq<Target>,
    scores0: Seq<ScoreSlot>,
    st: BulletState,
) -> bool {
    &&& st.0.len() == init.len()
    &&& st.1.len() == init.len()
    &&& st.2.len() == owners.len()
    &&& st.3.len() == scores0.len()
    &&& forall|p: int| 0 <= p < init.len() ==> {
        &&& (#[trigger] st.0[p]).id == init[p].id
        &&& st.0[p].health <= init[p].health
        &&& st.0[p].health < init[p].health ==> exists|b: int| #[trigger] struck_by(owners, init, hits, b, p)
        &&& st.1[p] ==> st.0[p].health == 0
    }
    &&& forall|b: int| 0 <= b < owners.len() && #[trigger] st.2[b] ==> exists|p: int|
        0 <= p < init.len() && #[trigger] struck_by(owners, init, hits, b, p)
    &&& forall|i: int| 0 <= i < scores0.len() ==> {
        &&& (#[trigger] st.3[i]).id == scores0[i].id
        &&& scores0[i].score <= st.3[i].score
    }
}

/// A frame of bullets never heals anyone or lowers a score; health is lost
/// only to a bullet of someone else; a player marked dead has no health
/// left; a spent bullet struck a player it does not own.
pub proof fn lemma_bullet_rules(owners: Seq<u64>, hits: Seq<Seq<bool>>, targets: Seq<Target>, scores: Seq<ScoreSlot>)
    requires
        scores_have_room(scores, owners),
    ensures
        bullet_invariant(
            owners,
            hits,
            targets,
            scores,
            bullets_from(
                owners,
                hits,
                (targets, Seq::new(targets.len(), |_i: int| false), Seq::new(owners.len(), |_i: int| false), scores),
                0,
            ),
        ),
{
    let inv = |st: BulletState, k: int|
        bullet_invariant(owners, hits, targets, scores, st) && forall|i: int|
            0 <= i < scores.len() ==> (#[trigger] st.3[i]).score <= scores[i].score + KILL_SCORE * owned_count(
                owners.subrange(0, k),
                scores[i].id,
            );
    assert forall|s: BulletState, k: int| 0 <= k < owners.len() && inv(s, k) implies #[trigger] inv(
        bullet_step(owners, hits, s, k),
        k + 1,
    ) by {
        let next = bullet_step(owners, hits, s, k);
        lemma_room_for_award(owners, scores, s.3, k);
        lemma_award_bounds(s.3, owners[k]);
        lemma_room_kept(owners, scores, s.3, next.3, k);
        lemma_target_found(owners, s.0, hits, k, 0);
        if let Some(p) = bullet_target(owners, s.0, hits, k, 0) {
            assert(struck_by(owners, targets, hits, k, p));
            assert forall|q: int| 0 <= q < targets.len() implies {
                &&& (#[trigger] next.0[q]).id == targets[q].id
                &&& next.0[q].health <= targets[q].health
                &&& next.0[q].health < targets[q].health ==> exists|c: int| #[trigger] struck_by(owners, targets, hits, c, q)
                &&& next.1[q] ==> next.0[q].health == 0
            } by {
                if q != p {
                    assert(next.0[q] == s.0[q]);
                }
            }
            assert forall|c: int| 0 <= c < owners.len() && #[trigger] next.2[c] implies exists|q: int|
                0 <= q < targets.len() && #[trigger] struck_by(owners, targets, hits, c, q) by {
                if c == k {
                    assert(struck_by(owners, targets, hits, k, p));
                } else {
                    assert(s.2[c]);
                }
            }
        }
    }
    assert(owners.subrange(0, 0) =~= Seq::<u64>::empty());
    assert(inv(
        (targets, Seq::new(targets.len(), |_i: int| false), Seq::new(owners.len(), |_i: int| false), scores),
        0,
    ));
    lemma_bullets_preserve(
        owners,
        hits,
        (targets, Seq::new(targets.len(), |_i: int| false), Seq::new(owners.len(), |_i: int| false), scores),
        0,
        inv,
    );
}

} // verus!
