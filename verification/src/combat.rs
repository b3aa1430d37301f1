//! Melee combat: each frame, every pair of alive players is checked for a
//! tip-into-body hit, in order, and kills and points follow from the hits.
use vstd::prelude::*;

use crate::shared::KILL_SCORE;

verus! {

/// Killed flags and awarded points so far.
pub type CombatState = (Seq<bool>, Seq<(usize, u32)>);

/// The hit table as plain booleans: `h[a][b]` holds when the tip of player
/// `a` lies inside player `b`.
pub open spec fn hit_table(hits: Seq<Vec<bool>>) -> Seq<Seq<bool>> {
    hits.map_values(|r: Vec<bool>| r@)
}

/// The table has one row and one column per player.
pub open spec fn square(h: Seq<Seq<bool>>) -> bool {
    forall|i: int| 0 <= i < h.len() ==> (#[trigger] h[i]).len() == h.len()
}

/// The pair `(i, j)`, `i < j`: a mutual hit kills both unless both are
/// already dead; a one-sided hit between two players that are both still
/// alive kills the one hit and awards the hitter; anything else changes
/// nothing.
pub open spec fn pair_step(h: Seq<Seq<bool>>, st: CombatState, i: int, j: int) -> CombatState {
    let killed = st.0;
    let deltas = st.1;
    let a_killed = killed[i];
    let b_killed = killed[j];
    if a_killed && b_killed {
        st
    } else {
        let a_hits_b = h[i][j];
        let b_hits_a = h[j][i];
        if a_hits_b && b_hits_a {
            (killed.update(i, true).update(j, true), deltas)
        } else if a_hits_b {
            if !a_killed && !b_killed {
                (killed.update(j, true), deltas.push((i as usize, KILL_SCORE)))
            } else {
                st
            }
        } else if b_hits_a {
            if !a_killed && !b_killed {
                (killed.update(i, true), deltas.push((j as usize, KILL_SCORE)))
            } else {
                st
            }
        } else {
            st
        }
    }
}

/// The pairs `(i, j), (i, j + 1), ...` in turn.
pub open spec fn row_from(h: Seq<Seq<bool>>, st: CombatState, i: int, j: int) -> CombatState
    decreases h.len() - j,
{
    if j >= h.len() {
        st
    } else {
        row_from(h, pair_step(h, st, i, j), i, j + 1)
    }
}

/// The rows `i, i + 1, ...` in turn, each with the pairs after its diagonal.
pub open spec fn rows_from(h: Seq<Seq<bool>>, st: CombatState, i: int) -> CombatState
    decreases h.len() - i,
{
    if i >= h.len() {
        st
    } else {
        rows_from(h, row_from(h, st, i, i + 1), i + 1)
    }
}

/// Nobody killed, nothing awarded.
pub open spec fn combat_start(n: nat) -> CombatState {
    (Seq::new(n, |_i: int| false), Seq::empty())
}

/// The outcome of a frame of melee combat.
pub open spec fn combat_result(h: Seq<Seq<bool>>) -> CombatState {
    rows_from(h, combat_start(h.len()), 0)
}

/// Who dies in a frame of melee combat and who scores.
#[derive(Debug)]
pub struct CombatOutcome {
    /// `killed[p]`: player `p` dies this frame.
    pub killed: Vec<bool>,
    /// `(p, points)`: player `p` gains `points`, in the order the kills happened.
    pub score_deltas: Vec<(usize, u32)>,
}

/// Resolves a frame of melee combat among the alive players, given which
/// player's tip lies inside which player (`hits[a][b]`).
pub fn combat_detection(hits: &Vec<Vec<bool>>) -> (out: CombatOutcome)
    requires
        square(hit_table(hits@)),
    ensures
        (out.killed@, out.score_deltas@) == combat_result(hit_table(hits@)),
{
    let ghost h = hit_table(hits@);
    let n = hits.len();
    let mut killed: Vec<bool> = Vec::new();
    let mut k: usize = 0;
    while k < n
        invariant
            k <= n,
            killed@ == Seq::new(k as nat, |_i: int| false),
        decreases n - k,
    {
        killed.push(false);
        k = k + 1;
        assert(killed@ =~= Seq::new(k as nat, |_i: int| false));
    }
    let mut deltas: Vec<(usize, u32)> = Vec::new();
    let ghost goal = combat_result(h);
    assert((killed@, deltas@) == combat_start(h.len()));
    let mut i: usize = 0;
    while i < n
        invariant
            n == h.len(),
            n == hits@.len(),
            h == hit_table(hits@),
            square(h),
            i <= n,
            killed@.len() == n,
            rows_from(h, (killed@, deltas@), i as int) == goal,
        decreases n - i,
    {
        let ghost row_goal = rows_from(h, row_from(h, (killed@, deltas@), i as int, i + 1), i + 1);
        assert(row_goal == goal);
        let ghost row_end = row_from(h, (killed@, deltas@), i as int, i + 1);
        let mut j: usize = i + 1;
        while j < n
            invariant
                n == h.len(),
                n == hits@.len(),
                h == hit_table(hits@),
                square(h),
                i < n,
                i < j <= n,
                killed@.len() == n,
                row_from(h, (killed@, deltas@), i as int, j as int) == row_end,
            decreases n - j,
        {
            let a_killed = killed[i];
            let b_killed = killed[j];
            proof {
                assert(h[i as int] == hits@[i as int]@);
                assert(h[j as int] == hits@[j as int]@);
            }
            if !(a_killed && b_killed) {
                let a_hits_b = hits[i][j];
                let b_hits_a = hits[j][i];
                if a_hits_b && b_hits_a {
                    killed.set(i, true);
                    killed.set(j, true);
                } else if a_hits_b {
                    if !a_killed && !b_killed {
                        deltas.push((i, KILL_SCORE));
                        killed.set(j, true);
                    }
                } else if b_hits_a {
                    if !a_killed && !b_killed {
                        deltas.push((j, KILL_SCORE));
                        killed.set(i, true);
                    }
                }
            }
            j = j + 1;
        }
        i = i + 1;
    }
    CombatOutcome { killed, score_deltas: deltas }
}

/// A property of the combat state that each pair keeps.
pub open spec fn kept_by_pairs(h: Seq<Seq<bool>>, inv: spec_fn(CombatState) -> bool) -> bool {
    forall|st: CombatState, a: int, b: int|
        0 <= a < b < h.len() && st.0.len() == h.len() && inv(st) ==> #[trigger] inv(
            pair_step(h, st, a, b),
        )
}

proof fn lemma_pair_len(h: Seq<Seq<bool>>, st: CombatState, i: int, j: int)
    requires
        0 <= i < j < h.len(),
        st.0.len() == h.len(),
    ensures
        pair_step(h, st, i, j).0.len() == h.len(),
{
}

proof fn lemma_row_preserves(h: Seq<Seq<bool>>, st: CombatState, i: int, j: int, inv: spec_fn(CombatState) -> bool)
    requires
        0 <= i < j,
        st.0.len() == h.len(),
        inv(st),
        kept_by_pairs(h, inv),
    ensures
        inv(row_from(h, st, i, j)),
        row_from(h, st, i, j).0.len() == h.len(),
    decreases h.len() - j,
{
    if j < h.len() {
        lemma_pair_len(h, st, i, j);
        assert(inv(pair_step(h, st, i, j)));
        lemma_row_preserves(h, pair_step(h, st, i, j), i, j + 1, inv);
    }
}

proof fn lemma_rows_preserve(h: Seq<Seq<bool>>, st: CombatState, i: int, inv: spec_fn(CombatState) -> bool)
    requires
        0 <= i,
        st.0.len() == h.len(),
        inv(st),
        kept_by_pairs(h, inv),
    ensures
        inv(rows_from(h, st, i)),
        rows_from(h, st, i).0.len() == h.len(),
    decreases h.len() - i,
{
    if i < h.len() {
        lemma_row_preserves(h, st, i, i + 1, inv);
        lemma_rows_preserve(h, row_from(h, st, i, i + 1), i + 1, inv);
    }
}

/// How one pair `(i, j)` can change the frame: it awards nothing, or it
/// awards one kill's worth to one of the two players for a one-sided hit on
/// the other, which dies, and only if neither of them was killed earlier in
/// the frame. Kills are never undone.
pub proof fn lemma_pair_rule(h: Seq<Seq<bool>>, st: CombatState, i: int, j: int)
    requires
        0 <= i < j < h.len(),
        st.0.len() == h.len(),
    ensures
        ({
            let next = pair_step(h, st, i, j);
            &&& next.0.len() == h.len()
            &&& forall|x: int| 0 <= x < h.len() && #[trigger] st.0[x] ==> next.0[x]
            &&& forall|x: int| 0 <= x < h.len() && x != i && x != j ==> next.0[x] == #[trigger] st.0[x]
            &&& next.1 == st.1 || {
                &&& !st.0[i] && !st.0[j]
                &&& {
                    ||| next.1 == st.1.push((i as usize, KILL_SCORE)) && h[i][j] && !h[j][i] && next.0 == st.0.update(
                        j,
                        true,
                    )
                    ||| next.1 == st.1.push((j as usize, KILL_SCORE)) && h[j][i] && !h[i][j] && next.0 == st.0.update(
                        i,
                        true,
                    )
                }
            }
            &&& (st.0[i] || st.0[j]) ==> next.1 == st.1
            &&& !h[i][j] && !h[j][i] ==> next == st
            &&& h[i][j] && h[j][i] && !(st.0[i] && st.0[j]) ==> next == (
                st.0.update(i, true).update(j, true),
                st.1,
            )
            &&& h[i][j] && !h[j][i] && !st.0[i] && !st.0[j] ==> next == (
                st.0.update(j, true),
                st.1.push((i as usize, KILL_SCORE)),
            )
            &&& h[j][i] && !h[i][j] && !st.0[i] && !st.0[j] ==> next == (
                st.0.update(i, true),
                st.1.push((j as usize, KILL_SCORE)),
            )
            &&& h[i][j] != h[j][i] && (st.0[i] || st.0[j]) ==> next == st
        }),
{
}

/// A player already killed when the pairs from row `i0` on are checked
/// scores nothing in them: every award they add goes to a player that was
/// still alive at their start. Awards made before are kept, and kills are
/// never undone.
pub proof fn lemma_dead_never_score(h: Seq<Seq<bool>>, st: CombatState, i0: int)
    requires
        square(h),
        h.len() <= usize::MAX,
        0 <= i0,
        st.0.len() == h.len(),
    ensures
        ({
            let r = rows_from(h, st, i0);
            &&& r.0.len() == h.len()
            &&& forall|x: int| 0 <= x < h.len() && #[trigger] st.0[x] ==> r.0[x]
            &&& st.1.len() <= r.1.len()
            &&& r.1.subrange(0, st.1.len() as int) == st.1
            &&& forall|d: int| st.1.len() <= d < r.1.len() ==> !st.0[(#[trigger] r.1[d]).0 as int]
        }),
{
    let n = h.len();
    let inv = |s: CombatState|
        {
            &&& s.0.len() == n
            &&& forall|x: int| 0 <= x < n && #[trigger] st.0[x] ==> s.0[x]
            &&& st.1.len() <= s.1.len()
            &&& s.1.subrange(0, st.1.len() as int) == st.1
            &&& forall|d: int| st.1.len() <= d < s.1.len() ==> {
                &&& 0 <= (#[trigger] s.1[d]).0 < n
                &&& !st.0[s.1[d].0 as int]
            }
        };
    assert forall|s: CombatState, a: int, b: int|
        0 <= a < b < n && s.0.len() == n && inv(s) implies #[trigger] inv(pair_step(h, s, a, b)) by {
        lemma_pair_rule(h, s, a, b);
        let next = pair_step(h, s, a, b);
        if next.1 != s.1 {
            assert(!s.0[a] && !s.0[b]);
            assert(!st.0[a] && !st.0[b]);
            assert(next.1.subrange(0, st.1.len() as int) =~= s.1.subrange(0, st.1.len() as int));
            assert forall|d: int| st.1.len() <= d < next.1.len() implies {
                &&& 0 <= (#[trigger] next.1[d]).0 < n
                &&& !st.0[next.1[d].0 as int]
            } by {
                if d < s.1.len() {
                    assert(next.1[d] == s.1[d]);
                } else if next.1 == s.1.push((a as usize, KILL_SCORE)) {
                    assert(next.1[d].0 as int == a);
                } else {
                    assert(next.1[d].0 as int == b);
                }
            }
        }
    }
    assert(st.1.subrange(0, st.1.len() as int) =~= st.1);
    lemma_rows_preserve(h, st, i0, inv);
}

/// Someone's tip lies inside player `x`.
pub open spec fn was_hit(h: Seq<Seq<bool>>, x: int) -> bool {
    exists|y: int| 0 <= y < h.len() && y != x && #[trigger] h[y][x]
}

/// Player `x`'s tip lies inside someone.
pub open spec fn hit_someone(h: Seq<Seq<bool>>, x: int) -> bool {
    exists|v: int| 0 <= v < h.len() && v != x && #[trigger] h[x][v]
}

/// Number of set flags.
pub open spec fn count_true(s: Seq<bool>) -> nat
    decreases s.len(),
{
    if s.len() == 0 {
        0
    } else {
        count_true(s.drop_last()) + if s.last() {
            1nat
        } else {
            0nat
        }
    }
}

/// Setting one flag raises the count by one if the flag was clear.
pub proof fn lemma_count_set(s: Seq<bool>, j: int)
    requires
        0 <= j < s.len(),
    ensures
        count_true(s.update(j, true)) == count_true(s) + if s[j] {
            0nat
        } else {
            1nat
        },
    decreases s.len(),
{
    if j == s.len() - 1 {
        assert(s.update(j, true).drop_last() =~= s.drop_last());
    } else {
        assert(s.update(j, true).drop_last() =~= s.drop_last().update(j, true));
        lemma_count_set(s.drop_last(), j);
    }
}

/// A player dies in melee only if someone's tip was inside it.
pub proof fn lemma_killed_only_if_hit(h: Seq<Seq<bool>>)
    requires
        square(h),
    ensures
        combat_result(h).0.len() == h.len(),
        forall|x: int| 0 <= x < h.len() && #[trigger] combat_result(h).0[x] ==> was_hit(h, x),
{
    let inv = |st: CombatState| forall|x: int| 0 <= x < h.len() && #[trigger] st.0[x] ==> was_hit(h, x);
    assert forall|st: CombatState, a: int, b: int|
        0 <= a < b < h.len() && st.0.len() == h.len() && inv(st) implies #[trigger] inv(
            pair_step(h, st, a, b),
        ) by {
        let next = pair_step(h, st, a, b);
        assert forall|x: int| 0 <= x < h.len() && #[trigger] next.0[x] implies was_hit(h, x) by {
            if !st.0[x] {
                if x == a {
                    assert(h[b][a]);
                } else {
                    assert(x == b);
                    assert(h[a][b]);
                }
            }
        }
    }
    lemma_rows_preserve(h, combat_start(h.len()), 0, inv);
}

/// Every award is one kill's worth of points and goes to a player whose tip
/// was inside someone.
pub proof fn lemma_awards_need_hits(h: Seq<Seq<bool>>)
    requires
        square(h),
        h.len() <= usize::MAX,
    ensures
        forall|d: int| 0 <= d < combat_result(h).1.len() ==> {
            &&& (#[trigger] combat_result(h).1[d]).1 == KILL_SCORE
            &&& combat_result(h).1[d].0 < h.len()
            &&& hit_someone(h, combat_result(h).1[d].0 as int)
        },
{
    let inv = |st: CombatState|
        forall|d: int| 0 <= d < st.1.len() ==> {
            &&& (#[trigger] st.1[d]).1 == KILL_SCORE
            &&& st.1[d].0 < h.len()
            &&& hit_someone(h, st.1[d].0 as int)
        };
    assert forall|st: CombatState, a: int, b: int|
        0 <= a < b < h.len() && st.0.len() == h.len() && inv(st) implies #[trigger] inv(
            pair_step(h, st, a, b),
        ) by {
        let next = pair_step(h, st, a, b);
        assert forall|d: int| 0 <= d < next.1.len() implies {
            &&& (#[trigger] next.1[d]).1 == KILL_SCORE
            &&& next.1[d].0 < h.len()
            &&& hit_someone(h, next.1[d].0 as int)
        } by {
            if d >= st.1.len() {
                if h[a][b] && !h[b][a] {
                    assert(next.1[d].0 as int == a);
                    assert(h[a][b]);
                } else {
                    assert(next.1[d].0 as int == b);
                    assert(h[b][a]);
                }
            }
        }
    }
    lemma_rows_preserve(h, combat_start(h.len()), 0, inv);
}

/// There are never more awards than deaths: each award comes with the death
/// of a player that was alive, while a mutual hit kills two and awards none.
pub proof fn lemma_awards_at_most_deaths(h: Seq<Seq<bool>>)
    requires
        square(h),
    ensures
        combat_result(h).1.len() <= count_true(combat_result(h).0),
{
    let inv = |st: CombatState| st.1.len() <= count_true(st.0);
    assert forall|st: CombatState, a: int, b: int|
        0 <= a < b < h.len() && st.0.len() == h.len() && inv(st) implies #[trigger] inv(
            pair_step(h, st, a, b),
        ) by {
        lemma_count_set(st.0, a);
        lemma_count_set(st.0, b);
        lemma_count_set(st.0.update(a, true), b);
    }
    assert(count_true(combat_start(h.len()).0) >= 0);
    lemma_rows_preserve(h, combat_start(h.len()), 0, inv);
}

/// Without hits nobody dies and nobody scores.
pub proof fn lemma_no_hits_no_change(h: Seq<Seq<bool>>)
    requires
        square(h),
        forall|a: int, b: int| 0 <= a < h.len() && 0 <= b < h.len() ==> !#[trigger] h[a][b],
    ensures
        combat_result(h) == combat_start(h.len()),
{
    let inv = |st: CombatState| st == combat_start(h.len());
    assert forall|st: CombatState, a: int, b: int|
        0 <= a < b < h.len() && st.0.len() == h.len() && inv(st) implies #[trigger] inv(
            pair_step(h, st, a, b),
        ) by {
        assert(!h[a][b]);
        assert(!h[b][a]);
    }
    lemma_rows_preserve(h, combat_start(h.len()), 0, inv);
}

} // verus!
