//! The platform's table of login sessions, keyed by token.
use vstd::prelude::*;

use crate::text::same_text;

verus! {

/// Session lifetime granted at login and at each renewal, in seconds.
pub const SESSION_TTL_SECS: u64 = 60;

/// Session lifetime in milliseconds, the unit of the platform clock.
pub const SESSION_TTL_MILLIS: u64 = SESSION_TTL_SECS * 1000;

/// One logged-in user; `expires_at` is a time on the platform clock (ms).
#[derive(Debug)]
pub struct Session {
    pub username: String,
    pub expires_at: u64,
}

/// What a session is: its user name and its expiry time.
pub type SessionView = (Seq<char>, u64);

/// The view of a session.
pub open spec fn session_view(s: Session) -> SessionView {
    (s.username@, s.expires_at)
}

/// Every token occurs at most once.
pub open spec fn distinct_tokens(s: Seq<(String, Session)>) -> bool {
    forall|i: int, j: int|
        0 <= i < s.len() && 0 <= j < s.len() && i != j ==> #[trigger] s[i].0@ != #[trigger] s[j].0@
}

/// Some entry carries the token `k`.
pub open spec fn holds_token(s: Seq<(String, Session)>, k: Seq<char>) -> bool {
    exists|i: int| 0 <= i < s.len() && #[trigger] s[i].0@ == k
}

/// The token map that a list of entries stands for.
pub open spec fn tokens_map(s: Seq<(String, Session)>) -> Map<Seq<char>, SessionView> {
    Map::new(
        |k: Seq<char>| holds_token(s, k),
        |k: Seq<char>| session_view(s[choose|i: int| 0 <= i < s.len() && #[trigger] s[i].0@ == k].1),
    )
}

/// The entries of a token map that a predicate keeps.
pub open spec fn keep_sessions(
    m: Map<Seq<char>, SessionView>,
    keep: spec_fn(SessionView) -> bool,
) -> Map<Seq<char>, SessionView> {
    Map::new(|k: Seq<char>| m.contains_key(k) && keep(m[k]), |k: Seq<char>| m[k])
}

/// The sessions that have not expired at time `now`.
pub open spec fn unexpired(m: Map<Seq<char>, SessionView>, now: u64) -> Map<Seq<char>, SessionView> {
    keep_sessions(m, |v: SessionView| v.1 > now)
}

/// The sessions that belong to other users than `username`.
pub open spec fn others_sessions(m: Map<Seq<char>, SessionView>, username: Seq<char>) -> Map<
    Seq<char>,
    SessionView,
> {
    keep_sessions(m, |v: SessionView| v.0 != username)
}

/// Looking an entry up by its own token gives that entry.
pub proof fn lemma_tokens_map_at(s: Seq<(String, Session)>, i: int)
    requires
        distinct_tokens(s),
        0 <= i < s.len(),
    ensures
        tokens_map(s).contains_key(s[i].0@),
        tokens_map(s)[s[i].0@] == session_view(s[i].1),
{
    let k = s[i].0@;
    assert(holds_token(s, k));
    let j = choose|j: int| 0 <= j < s.len() && #[trigger] s[j].0@ == k;
    assert(j == i);
}

/// A criterion by which sessions are dropped from the table.
enum Sweep<'a> {
    ExpiredAt(u64),
    OwnedBy(&'a str),
}

/// Whether a sweep drops a session.
spec fn swept(sw: Sweep, v: SessionView) -> bool {
    match sw {
        Sweep::ExpiredAt(now) => v.1 <= now,
        Sweep::OwnedBy(user) => v.0 == user@,
    }
}

fn is_swept(sw: &Sweep, s: &Session) -> (b: bool)
    ensures
        b == swept(*sw, session_view(*s)),
{
    match sw {
        Sweep::ExpiredAt(now) => s.expires_at <= *now,
        Sweep::OwnedBy(user) => same_text(s.username.as_str(), user),
    }
}

fn copy_entry(e: &(String, Session)) -> (c: (String, Session))
    ensures
        c == *e,
{
    (e.0.clone(), Session { username: e.1.username.clone(), expires_at: e.1.expires_at })
}

/// What a sweep has built after looking at the first `i` entries, with the
/// positions that link the two lists: `src[j]` is where `kept[j]` came from,
/// and `dst[a]` is where a kept `old_e[a]` went.
spec fn sweep_inv(
    old_e: Seq<(String, Session)>,
    kept: Seq<(String, Session)>,
    src: Seq<int>,
    dst: Seq<int>,
    i: int,
    sw: Sweep,
) -> bool {
    &&& distinct_tokens(kept)
    &&& src.len() == kept.len()
    &&& dst.len() == i
    &&& forall|j: int| 0 <= j < kept.len() ==> {
        &&& 0 <= #[trigger] src[j] < i
        &&& kept[j] == old_e[src[j]]
        &&& !swept(sw, session_view(old_e[src[j]].1))
    }
    &&& forall|a: int| 0 <= a < i && !swept(sw, session_view(old_e[a].1)) ==> {
        &&& 0 <= #[trigger] dst[a] < kept.len()
        &&& kept[dst[a]] == old_e[a]
    }
}

proof fn lemma_sweep_done(
    old_e: Seq<(String, Session)>,
    new_e: Seq<(String, Session)>,
    src: Seq<int>,
    dst: Seq<int>,
    sw: Sweep,
)
    requires
        distinct_tokens(old_e),
        sweep_inv(old_e, new_e, src, dst, old_e.len() as int, sw),
    ensures
        distinct_tokens(new_e),
        tokens_map(new_e) == keep_sessions(tokens_map(old_e), |v: SessionView| !swept(sw, v)),
{
    let target = keep_sessions(tokens_map(old_e), |v: SessionView| !swept(sw, v));
    assert forall|t: Seq<char>| #[trigger] tokens_map(new_e).contains_key(t) <==> target.contains_key(t) by {
        if holds_token(new_e, t) {
            let j = choose|j: int| 0 <= j < new_e.len() && #[trigger] new_e[j].0@ == t;
            lemma_tokens_map_at(old_e, src[j]);
        }
        if target.contains_key(t) {
            let a = choose|a: int| 0 <= a < old_e.len() && #[trigger] old_e[a].0@ == t;
            lemma_tokens_map_at(old_e, a);
            assert(new_e[dst[a]].0@ == t);
        }
    }
    assert forall|t: Seq<char>| #[trigger] tokens_map(new_e).contains_key(t) implies
        tokens_map(new_e)[t] == target[t] by {
        let j = choose|j: int| 0 <= j < new_e.len() && #[trigger] new_e[j].0@ == t;
        lemma_tokens_map_at(new_e, j);
        lemma_tokens_map_at(old_e, src[j]);
    }
    assert(tokens_map(new_e) =~= target);
}

/// Login sessions by token. No token occurs twice.
pub struct Sessions {
    entries: Vec<(String, Session)>,
}

impl View for Sessions {
    type V = Map<Seq<char>, SessionView>;

    closed spec fn view(&self) -> Map<Seq<char>, SessionView> {
        tokens_map(self.entries@)
    }
}

impl Sessions {
    /// The table is well formed: no token occurs twice.
    pub closed spec fn wf(&self) -> bool {
        distinct_tokens(self.entries@)
    }

    /// An empty table.
    pub fn new() -> (s: Sessions)
        ensures
            s.wf(),
            s@ == Map::<Seq<char>, SessionView>::empty(),
    {
        let s = Sessions { entries: Vec::new() };
        assert(s@ =~= Map::<Seq<char>, SessionView>::empty());
        s
    }

    /// Number of sessions in the table.
    pub fn len(&self) -> (n: usize)
        requires
            self.wf(),
        ensures
            n == self@.len(),
    {
        proof {
            let keys = self.entries@.map_values(|e: (String, Session)| e.0@);
            assert forall|i: int, j: int|
                0 <= i < keys.len() && 0 <= j < keys.len() && i != j implies keys[i] != keys[j] by {
                assert(self.entries@[i].0@ != self.entries@[j].0@);
            }
            assert(keys.no_duplicates());
            keys.unique_seq_to_set();
            assert forall|k: Seq<char>| #[trigger] self@.dom().contains(k) <==> keys.to_set().contains(k) by {
                if self@.dom().contains(k) {
                    let i = choose|i: int| 0 <= i < self.entries@.len() && #[trigger] self.entries@[i].0@ == k;
                    assert(keys[i] == k);
                }
                if keys.to_set().contains(k) {
                    let i = choose|i: int| 0 <= i < keys.len() && keys[i] == k;
                    assert(self.entries@[i].0@ == k);
                }
            }
            assert(self@.dom() =~= keys.to_set());
        }
        self.entries.len()
    }

    /// Position of the entry with the given token.
    fn find(&self, token: &str) -> (r: Option<usize>)
        requires
            self.wf(),
        ensures
            match r {
                Some(i) => i < self.entries@.len() && self.entries@[i as int].0@ == token@,
                None => !self@.contains_key(token@),
            },
    {
        let n = self.entries.len();
        let mut i: usize = 0;
        while i < n
            invariant
                n == self.entries@.len(),
                i <= n,
                forall|k: int| 0 <= k < i ==> #[trigger] self.entries@[k].0@ != token@,
            decreases n - i,
        {
            if same_text(self.entries[i].0.as_str(), token) {
                return Some(i);
            }
            i = i + 1;
        }
        None
    }

    /// The session with the given token, if any.
    pub fn get(&self, token: &str) -> (r: Option<&Session>)
        requires
            self.wf(),
        ensures
            r.is_some() == self@.contains_key(token@),
            r.is_some() ==> session_view(*r.unwrap()) == self@[token@],
    {
        match self.find(token) {
            Some(i) => {
                proof {
                    lemma_tokens_map_at(self.entries@, i as int);
                }
                Some(&self.entries[i].1)
            },
            None => None,
        }
    }

    /// Stores a session under a token, replacing any session with that token.
    pub fn insert(&mut self, token: String, session: Session)
        requires
            old(self).wf(),
        ensures
            final(self).wf(),
            final(self)@ == old(self)@.insert(token@, session_view(session)),
    {
        let ghost old_e = self.entries@;
        let ghost k = token@;
        let ghost v = session_view(session);
        match self.find(token.as_str()) {
            Some(i) => {
                self.entries.set(i, (token, session));
                let ghost new_e = self.entries@;
                assert(new_e == old_e.update(i as int, new_e[i as int]));
                assert(distinct_tokens(new_e)) by {
                    assert forall|a: int, b: int|
                        0 <= a < new_e.len() && 0 <= b < new_e.len() && a != b implies
                        #[trigger] new_e[a].0@ != #[trigger] new_e[b].0@ by {
                        if a != i && b != i {
                            assert(old_e[a].0@ != old_e[b].0@);
                        } else if a == i {
                            assert(old_e[i as int].0@ != old_e[b].0@);
                        } else {
                            assert(old_e[a].0@ != old_e[i as int].0@);
                        }
                    }
                }
                assert(tokens_map(new_e) =~= tokens_map(old_e).insert(k, v)) by {
                    assert forall|t: Seq<char>|
                        #[trigger] tokens_map(new_e).contains_key(t) <==> tokens_map(old_e).insert(k, v).contains_key(t) by {
                        if holds_token(new_e, t) {
                            let a = choose|a: int| 0 <= a < new_e.len() && #[trigger] new_e[a].0@ == t;
                            if a != i {
                                assert(old_e[a].0@ == t);
                            }
                        }
                        if holds_token(old_e, t) {
                            let a = choose|a: int| 0 <= a < old_e.len() && #[trigger] old_e[a].0@ == t;
                            assert(new_e[a].0@ == t);
                        }
                        if t == k {
                            assert(new_e[i as int].0@ == t);
                        }
                    }
                    assert forall|t: Seq<char>| #[trigger] tokens_map(new_e).contains_key(t) implies
                        tokens_map(new_e)[t] == tokens_map(old_e).insert(k, v)[t] by {
                        let a = choose|a: int| 0 <= a < new_e.len() && #[trigger] new_e[a].0@ == t;
                        lemma_tokens_map_at(new_e, a);
                        if a != i {
                            lemma_tokens_map_at(old_e, a);
                        }
                    }
                }
            },
            None => {
                self.entries.push((token, session));
                let ghost new_e = self.entries@;
                assert(new_e == old_e.push(new_e[old_e.len() as int]));
                assert(distinct_tokens(new_e)) by {
                    assert forall|a: int, b: int|
                        0 <= a < new_e.len() && 0 <= b < new_e.len() && a != b implies
                        #[trigger] new_e[a].0@ != #[trigger] new_e[b].0@ by {
                        if a < old_e.len() && b < old_e.len() {
                            assert(old_e[a].0@ != old_e[b].0@);
                        } else if a < old_e.len() {
                            if old_e[a].0@ == k {
                                assert(holds_token(old_e, k));
                            }
                        } else {
                            if old_e[b].0@ == k {
                                assert(holds_token(old_e, k));
                            }
                        }
                    }
                }
                assert(tokens_map(new_e) =~= tokens_map(old_e).insert(k, v)) by {
                    assert forall|t: Seq<char>|
                        #[trigger] tokens_map(new_e).contains_key(t) <==> tokens_map(old_e).insert(k, v).contains_key(t) by {
                        if holds_token(new_e, t) {
                            let a = choose|a: int| 0 <= a < new_e.len() && #[trigger] new_e[a].0@ == t;
                            if a < old_e.len() {
                                assert(old_e[a].0@ == t);
                            }
                        }
                        if holds_token(old_e, t) {
                            let a = choose|a: int| 0 <= a < old_e.len() && #[trigger] old_e[a].0@ == t;
                            assert(new_e[a].0@ == t);
                        }
                        if t == k {
                            assert(new_e[old_e.len() as int].0@ == t);
                        }
                    }
                    assert forall|t: Seq<char>| #[trigger] tokens_map(new_e).contains_key(t) implies
                        tokens_map(new_e)[t] == tokens_map(old_e).insert(k, v)[t] by {
                        let a = choose|a: int| 0 <= a < new_e.len() && #[trigger] new_e[a].0@ == t;
                        lemma_tokens_map_at(new_e, a);
                        if a < old_e.len() {
                            lemma_tokens_map_at(old_e, a);
                        }
                    }
                }
            },
        }
    }

    /// Gives the session with the given token a new expiry time; reports
    /// whether there was such a session.
    pub fn refresh(&mut self, token: &str, expires_at: u64) -> (found: bool)
        requires
            old(self).wf(),
        ensures
            final(self).wf(),
            found == old(self)@.contains_key(token@),
            found ==> final(self)@ == old(self)@.insert(token@, (old(self)@[token@].0, expires_at)),
            !found ==> final(self)@ == old(self)@,
    {
        match self.find(token) {
            Some(i) => {
                proof {
                    lemma_tokens_map_at(self.entries@, i as int);
                }
                let e = copy_entry(&self.entries[i]);
                let (t, s) = e;
                let renewed = Session { username: s.username, expires_at };
                self.insert(t, renewed);
                true
            },
            None => false,
        }
    }

    /// Drops every session that the sweep selects.
    fn sweep(&mut self, sw: &Sweep)
        requires
            old(self).wf(),
        ensures
            final(self).wf(),
            final(self)@ == keep_sessions(old(self)@, |v: SessionView| !swept(*sw, v)),
    {
        let ghost old_e = self.entries@;
        let n = self.entries.len();
        let mut kept: Vec<(String, Session)> = Vec::new();
        let ghost mut src: Seq<int> = Seq::empty();
        let ghost mut dst: Seq<int> = Seq::empty();
        let mut i: usize = 0;
        while i < n
            invariant
                n == old_e.len(),
                self.entries@ == old_e,
                distinct_tokens(old_e),
                i <= n,
                sweep_inv(old_e, kept@, src, dst, i as int, *sw),
            decreases n - i,
        {
            let ghost before = kept@;
            if !is_swept(sw, &self.entries[i].1) {
                let e = copy_entry(&self.entries[i]);
                kept.push(e);
                proof {
                    dst = dst.push(before.len() as int);
                    src = src.push(i as int);
                    assert forall|a: int, b: int|
                        0 <= a < kept@.len() && 0 <= b < kept@.len() && a != b implies
                        #[trigger] kept@[a].0@ != #[trigger] kept@[b].0@ by {
                        if a < before.len() && b < before.len() {
                            assert(before[a].0@ != before[b].0@);
                        } else if a < before.len() {
                            assert(old_e[src[a]].0@ != old_e[i as int].0@);
                        } else {
                            assert(old_e[src[b]].0@ != old_e[i as int].0@);
                        }
                    }
                }
            } else {
                proof {
                    dst = dst.push(-1);
                }
            }
            i = i + 1;
        }
        self.entries = kept;
        proof {
            lemma_sweep_done(old_e, self.entries@, src, dst, *sw);
        }
    }

    /// Drops the sessions that have expired at time `now`.
    pub fn remove_expired(&mut self, now: u64)
        requires
            old(self).wf(),
        ensures
            final(self).wf(),
            final(self)@ == unexpired(old(self)@, now),
    {
        self.sweep(&Sweep::ExpiredAt(now));
        assert(self@ =~= unexpired(old(self)@, now));
    }

    /// Drops every session of the given user.
    pub fn remove_user(&mut self, username: &str)
        requires
            old(self).wf(),
        ensures
            final(self).wf(),
            final(self)@ == others_sessions(old(self)@, username@),
    {
        self.sweep(&Sweep::OwnedBy(username));
        assert(self@ =~= others_sessions(old(self)@, username@));
    }
}

/// Drops every session whose expiry time is not after `now`.
pub fn cleanup_expired_sessions(sessions: &mut Sessions, now: u64)
    requires
        old(sessions).wf(),
    ensures
        final(sessions).wf(),
        final(sessions)@ == unexpired(old(sessions)@, now),
{
    sessions.remove_expired(now);
}

/// Dropping expired sessions twice is dropping them once at the later time:
/// a clean-up at `a` followed by one at `b >= a` leaves what a single
/// clean-up at `b` leaves.
pub proof fn lemma_cleanup_composes(m: Map<Seq<char>, SessionView>, a: u64, b: u64)
    requires
        a <= b,
    ensures
        unexpired(unexpired(m, a), b) == unexpired(m, b),
{
    assert(unexpired(unexpired(m, a), b) =~= unexpired(m, b));
}

/// After a clean-up at `now` no session has expired at `now`, and every
/// session that had not expired is still there, unchanged.
pub proof fn lemma_cleanup_exact(m: Map<Seq<char>, SessionView>, now: u64)
    ensures
        forall|k: Seq<char>| #[trigger] unexpired(m, now).contains_key(k) ==> unexpired(m, now)[k].1 > now,
        forall|k: Seq<char>| m.contains_key(k) && m[k].1 > now ==> #[trigger] unexpired(m, now).contains_key(k)
            && unexpired(m, now)[k] == m[k],
{
}

} // verus!
