//! The login platform: player accounts, API keys of game servers, and the
//! decisions behind its HTTP endpoints (key check, login, session renewal).
use vstd::prelude::*;

use crate::crypto::{generate_token, hash_password, is_token_char, password_hash_of, TOKEN_LEN};
use crate::sessions::{
    cleanup_expired_sessions, others_sessions, unexpired, Session, SessionView, Sessions,
    SESSION_TTL_MILLIS,
};
use crate::shared::{AuthResponse, RenewRequest, RenewResponse};
use crate::text::{has_prefix, same_text, starts_with};

verus! {

/// HTTP status: success.
pub const STATUS_OK: u16 = 200;

/// HTTP status: malformed request.
pub const STATUS_BAD_REQUEST: u16 = 400;

/// HTTP status: missing or unknown API key.
pub const STATUS_UNAUTHORIZED: u16 = 401;

/// HTTP status: wrong user name or password.
pub const STATUS_FORBIDDEN: u16 = 403;

/// HTTP status: no such session.
pub const STATUS_NOT_FOUND: u16 = 404;

/// A player account with its stored password hash.
#[derive(Debug)]
pub struct Player {
    pub username: String,
    pub password_hash: String,
}

/// All player accounts.
#[derive(Debug)]
pub struct PlayerDb {
    pub players: Vec<Player>,
}

/// API keys of the game servers the platform serves.
#[derive(Debug)]
pub struct ApiKeyDb {
    pub keys: Vec<String>,
}

/// A login request.
#[derive(Debug)]
pub struct LoginRequest {
    pub username: String,
    pub password: String,
}

/// Answer to an API key check.
#[derive(Debug)]
pub struct KeyVerifyResponse {
    pub valid: bool,
    pub message: String,
}

/// Everything the platform keeps.
pub struct AppState {
    pub players: PlayerDb,
    pub api_keys: ApiKeyDb,
    pub sessions: Sessions,
}

/// The scheme word that prefixes an API key in the `Authorization` header.
pub open spec fn bearer_prefix() -> Seq<char> {
    seq!['B', 'e', 'a', 'r', 'e', 'r', ' ']
}

/// The view of an optional text.
pub open spec fn opt_text(o: Option<&str>) -> Option<Seq<char>> {
    match o {
        Some(s) => Some(s@),
        None => None,
    }
}

/// The API key carried by an `Authorization` header value: what follows
/// `Bearer `, if the value starts so.
pub open spec fn bearer_token(header: Option<Seq<char>>) -> Option<Seq<char>> {
    match header {
        Some(v) => if has_prefix(v, bearer_prefix()) {
            Some(v.subrange(7, v.len() as int))
        } else {
            None
        },
        None => None,
    }
}

/// Whether `key` is one of the listed keys.
pub open spec fn key_listed(keys: Seq<String>, key: Seq<char>) -> bool {
    exists|i: int| 0 <= i < keys.len() && #[trigger] keys[i]@ == key
}

/// The refusal of an API key check, or `None` when the key is accepted.
pub open spec fn api_key_refusal(keys: Seq<String>, header: Option<Seq<char>>) -> Option<Seq<char>> {
    match bearer_token(header) {
        None => Some("Missing API key"@),
        Some(k) => if key_listed(keys, k) {
            None
        } else {
            Some("Invalid API key"@)
        },
    }
}

/// Whether some account has this user name and the hash of this password.
pub open spec fn credentials_match(players: Seq<Player>, username: Seq<char>, password: Seq<char>) -> bool {
    exists|i: int|
        0 <= i < players.len() && #[trigger] players[i].username@ == username
            && players[i].password_hash@ == password_hash_of(password)
}

/// Takes the API key out of an `Authorization` header value.
pub fn extract_api_key(authorization: Option<&str>) -> (key: Option<&str>)
    ensures
        opt_text(key) == bearer_token(opt_text(authorization)),
{
    match authorization {
        Some(v) => {
            let prefix = "Bearer ";
            proof {
                reveal_strlit("Bearer ");
                assert(prefix@ =~= bearer_prefix());
            }
            if starts_with(v, prefix) {
                let n = v.unicode_len();
                Some(v.substring_char(7, n))
            } else {
                None
            }
        },
        None => None,
    }
}

/// Whether `key` is among the keys.
fn key_is_listed(keys: &Vec<String>, key: &str) -> (b: bool)
    ensures
        b == key_listed(keys@, key@),
{
    let n = keys.len();
    let mut i: usize = 0;
    while i < n
        invariant
            n == keys@.len(),
            i <= n,
            forall|j: int| 0 <= j < i ==> #[trigger] keys@[j]@ != key@,
        decreases n - i,
    {
        if same_text(keys[i].as_str(), key) {
            return true;
        }
        i = i + 1;
    }
    false
}

/// Checks the API key of a request: `Ok` when the header carries a listed
/// key, otherwise 401 with the reason.
pub fn check_api_key(state: &AppState, authorization: Option<&str>) -> (r: Result<(), (u16, String)>)
    ensures
        match api_key_refusal(state.api_keys.keys@, opt_text(authorization)) {
            None => r is Ok,
            Some(msg) => r matches Err((code, m)) && code == STATUS_UNAUTHORIZED && m@ == msg,
        },
{
    match extract_api_key(authorization) {
        None => Err((STATUS_UNAUTHORIZED, String::from_str("Missing API key"))),
        Some(token) => {
            if key_is_listed(&state.api_keys.keys, token) {
                Ok(())
            } else {
                Err((STATUS_UNAUTHORIZED, String::from_str("Invalid API key")))
            }
        },
    }
}

/// Answers a game server that asks whether its API key is valid.
pub fn verify_key_handler(state: &AppState, authorization: Option<&str>) -> (r: (
    u16,
    KeyVerifyResponse,
))
    ensures
        match api_key_refusal(state.api_keys.keys@, opt_text(authorization)) {
            None => r.0 == STATUS_OK && r.1.valid && r.1.message@ == "API key is valid"@,
            Some(msg) => r.0 == STATUS_UNAUTHORIZED && !r.1.valid && r.1.message@ == msg,
        },
{
    match check_api_key(state, authorization) {
        Ok(()) => (
            STATUS_OK,
            KeyVerifyResponse { valid: true, message: String::from_str("API key is valid") },
        ),
        Err((code, msg)) => (code, KeyVerifyResponse { valid: false, message: msg }),
    }
}

/// Whether an account with this user name has this password.
fn credentials_valid(db: &PlayerDb, username: &str, password: &str) -> (b: bool)
    ensures
        b == credentials_match(db.players@, username@, password@),
{
    let hash = hash_password(password);
    let n = db.players.len();
    let mut i: usize = 0;
    while i < n
        invariant
            n == db.players@.len(),
            i <= n,
            hash@ == password_hash_of(password@),
            forall|j: int|
                0 <= j < i ==> !(#[trigger] db.players@[j].username@ == username@
                    && db.players@[j].password_hash@ == password_hash_of(password@)),
        decreases n - i,
    {
        let p = &db.players[i];
        if same_text(p.username.as_str(), username) && same_text(p.password_hash.as_str(), hash.as_str()) {
            return true;
        }
        i = i + 1;
    }
    false
}

/// A refused login answer.
fn refused(username: String, message: String) -> (r: AuthResponse)
    ensures
        !r.success,
        r.username == username,
        r.message == message,
        r.token@.len() == 0,
{
    AuthResponse { success: false, username, message, token: String::new() }
}

/// Logs a player in. With a valid API key and matching credentials the
/// expired sessions are dropped, so is every other session of the same user,
/// and a fresh random token is registered for `SESSION_TTL_MILLIS` from
/// `now`; otherwise the sessions stay as they are.
pub fn login_handler(state: &mut AppState, authorization: Option<&str>, creds: LoginRequest, now: u64) -> (r: (
    u16,
    AuthResponse,
))
    requires
        old(state).sessions.wf(),
        now <= u64::MAX - SESSION_TTL_MILLIS,
    ensures
        final(state).sessions.wf(),
        final(state).players == old(state).players,
        final(state).api_keys == old(state).api_keys,
        r.1.username@ == creds.username@,
        match api_key_refusal(old(state).api_keys.keys@, opt_text(authorization)) {
            Some(msg) => {
                &&& r.0 == STATUS_UNAUTHORIZED
                &&& !r.1.success && r.1.message@ == msg && r.1.token@.len() == 0
                &&& final(state).sessions@ == old(state).sessions@
            },
            None => if creds.username@.len() == 0 || creds.password@.len() == 0 {
                &&& r.0 == STATUS_BAD_REQUEST
                &&& !r.1.success && r.1.token@.len() == 0
                &&& r.1.message@ == "Username and password are required"@
                &&& final(state).sessions@ == old(state).sessions@
            } else if credentials_match(old(state).players.players@, creds.username@, creds.password@) {
                &&& r.0 == STATUS_OK
                &&& r.1.success && r.1.message@ == "Authentication successful"@
                &&& r.1.token@.len() == TOKEN_LEN
                &&& forall|i: int| 0 <= i < r.1.token@.len() ==> is_token_char(#[trigger] r.1.token@[i])
                &&& final(state).sessions@ == others_sessions(
                    unexpired(old(state).sessions@, now),
                    creds.username@,
                ).insert(r.1.token@, (creds.username@, (now + SESSION_TTL_MILLIS) as u64))
            } else {
                &&& r.0 == STATUS_FORBIDDEN
                &&& !r.1.success && r.1.token@.len() == 0
                &&& r.1.message@ == "Invalid username or password"@
                &&& final(state).sessions@ == old(state).sessions@
            },
        },
{
    if let Err((code, msg)) = check_api_key(state, authorization) {
        return (code, refused(creds.username, msg));
    }
    if creds.username.as_str().is_empty() || creds.password.as_str().is_empty() {
        return (
            STATUS_BAD_REQUEST,
            refused(creds.username, String::from_str("Username and password are required")),
        );
    }
    if credentials_valid(&state.players, creds.username.as_str(), creds.password.as_str()) {
        cleanup_expired_sessions(&mut state.sessions, now);
        state.sessions.remove_user(creds.username.as_str());
        let token = generate_token();
        let expires_at = now + SESSION_TTL_MILLIS;
        state.sessions.insert(
            token.clone(),
            Session { username: creds.username.clone(), expires_at },
        );
        (
            STATUS_OK,
            AuthResponse {
                success: true,
                username: creds.username,
                message: String::from_str("Authentication successful"),
                token,
            },
        )
    } else {
        (STATUS_FORBIDDEN, refused(creds.username, String::from_str("Invalid username or password")))
    }
}

/// Extends a session. With a valid API key the expired sessions are dropped
/// first; a session that remains under the token then expires
/// `SESSION_TTL_MILLIS` after `now`.
pub fn renew_handler(state: &mut AppState, authorization: Option<&str>, req: RenewRequest, now: u64) -> (r: (
    u16,
    RenewResponse,
))
    requires
        old(state).sessions.wf(),
        now <= u64::MAX - SESSION_TTL_MILLIS,
    ensures
        final(state).sessions.wf(),
        final(state).players == old(state).players,
        final(state).api_keys == old(state).api_keys,
        match api_key_refusal(old(state).api_keys.keys@, opt_text(authorization)) {
            Some(msg) => {
                &&& r.0 == STATUS_UNAUTHORIZED
                &&& !r.1.success && r.1.message@ == msg
                &&& final(state).sessions@ == old(state).sessions@
            },
            None => {
                let live = unexpired(old(state).sessions@, now);
                if live.contains_key(req.token@) {
                    &&& r.0 == STATUS_OK
                    &&& r.1.success && r.1.message@ == "Session renewed"@
                    &&& final(state).sessions@ == live.insert(
                        req.token@,
                        (live[req.token@].0, (now + SESSION_TTL_MILLIS) as u64),
                    )
                } else {
                    &&& r.0 == STATUS_NOT_FOUND
                    &&& !r.1.success && r.1.message@ == "Session not found or expired"@
                    &&& final(state).sessions@ == live
                }
            },
        },
{
    if let Err((code, msg)) = check_api_key(state, authorization) {
        return (code, RenewResponse { success: false, message: msg });
    }
    cleanup_expired_sessions(&mut state.sessions, now);
    if state.sessions.refresh(req.token.as_str(), now + SESSION_TTL_MILLIS) {
        (STATUS_OK, RenewResponse { success: true, message: String::from_str("Session renewed") })
    } else {
        (
            STATUS_NOT_FOUND,
            RenewResponse { success: false, message: String::from_str("Session not found or expired") },
        )
    }
}

/// User names of the accounts a fresh player database is seeded with; each
/// account's password is its user name.
pub open spec fn default_usernames() -> Seq<Seq<char>> {
    seq!["kindy"@, "ananda"@, "martin"@, "amy"@]
}

/// The stored hash of an account after normalisation: a missing hash becomes
/// the hash of the user name.
pub open spec fn normalized_hash(p: Player) -> Seq<char> {
    if p.password_hash@.len() == 0 {
        password_hash_of(p.username@)
    } else {
        p.password_hash@
    }
}

/// A new account whose password is its user name.
fn seeded_player(name: &str) -> (p: Player)
    ensures
        p.username@ == name@,
        p.password_hash@ == password_hash_of(name@),
{
    Player { username: String::from_str(name), password_hash: hash_password(name) }
}

/// Normalises a freshly read player database: every account without a
/// password hash gets the hash of its user name, and an empty database is
/// seeded with the default accounts. The flag tells whether the result
/// differs from what was read, so that it must be written back.
pub fn prepare_players(db: PlayerDb) -> (r: (PlayerDb, bool))
    ensures
        db.players@.len() == 0 ==> {
            &&& r.1
            &&& r.0.players@.len() == default_usernames().len()
            &&& forall|i: int| 0 <= i < r.0.players@.len() ==> {
                &&& (#[trigger] r.0.players@[i]).username@ == default_usernames()[i]
                &&& r.0.players@[i].password_hash@ == password_hash_of(default_usernames()[i])
            }
        },
        db.players@.len() > 0 ==> {
            &&& r.1 == exists|i: int| 0 <= i < db.players@.len() && (#[trigger] db.players@[i]).password_hash@.len() == 0
            &&& r.0.players@.len() == db.players@.len()
            &&& forall|i: int| 0 <= i < r.0.players@.len() ==> {
                &&& (#[trigger] r.0.players@[i]).username@ == db.players@[i].username@
                &&& r.0.players@[i].password_hash@ == normalized_hash(db.players@[i])
            }
        },
{
    if db.players.len() == 0 {
        let mut players: Vec<Player> = Vec::new();
        players.push(seeded_player("kindy"));
        players.push(seeded_player("ananda"));
        players.push(seeded_player("martin"));
        players.push(seeded_player("amy"));
        return (PlayerDb { players }, true);
    }
    let ghost old_players = db.players@;
    let mut source = db.players;
    let mut players: Vec<Player> = Vec::new();
    let mut changed = false;
    let n = source.len();
    let mut i: usize = 0;
    while i < n
        invariant
            n == old_players.len(),
            source@.len() == n,
            i <= n,
            forall|j: int| i <= j < n ==> #[trigger] source@[j] == old_players[j],
            players@.len() == i,
            forall|j: int| 0 <= j < i ==> {
                &&& (#[trigger] players@[j]).username@ == old_players[j].username@
                &&& players@[j].password_hash@ == normalized_hash(old_players[j])
            },
            changed == exists|j: int| 0 <= j < i && (#[trigger] old_players[j]).password_hash@.len() == 0,
        decreases n - i,
    {
        let p = Player { username: String::new(), password_hash: String::new() };
        let mut entry = p;
        source.set_and_swap(i, &mut entry);
        proof {
            assert(entry == old_players[i as int]);
        }
        if entry.password_hash.as_str().is_empty() {
            let hash = hash_password(entry.username.as_str());
            players.push(Player { username: entry.username, password_hash: hash });
            changed = true;
        } else {
            players.push(entry);
        }
        i = i + 1;
    }
    (PlayerDb { players }, changed)
}

/// The sessions after a successful login of `user` at `now` with `token`.
pub open spec fn after_login(
    m: Map<Seq<char>, SessionView>,
    user: Seq<char>,
    token: Seq<char>,
    now: u64,
) -> Map<Seq<char>, SessionView> {
    others_sessions(unexpired(m, now), user).insert(token, (user, (now + SESSION_TTL_MILLIS) as u64))
}

/// A user is logged in at most once: after a login, the new token is the
/// only session of that user.
pub proof fn lemma_one_session_per_user(
    m: Map<Seq<char>, SessionView>,
    user: Seq<char>,
    token: Seq<char>,
    now: u64,
)
    ensures
        after_login(m, user, token, now).contains_key(token),
        forall|t: Seq<char>|
            #[trigger] after_login(m, user, token, now).contains_key(t) && after_login(m, user, token, now)[t].0
                == user ==> t == token,
{
}

/// No user holds two sessions.
pub open spec fn one_token_per_user(m: Map<Seq<char>, SessionView>) -> bool {
    forall|t1: Seq<char>, t2: Seq<char>|
        #[trigger] m.contains_key(t1) && #[trigger] m.contains_key(t2) && t1 != t2 ==> m[t1].0 != m[t2].0
}

/// A login keeps every user at one session at most: if no user held two
/// sessions before, none does after, whichever user logs in.
pub proof fn lemma_login_keeps_one_token_per_user(
    m: Map<Seq<char>, SessionView>,
    user: Seq<char>,
    token: Seq<char>,
    now: u64,
)
    requires
        one_token_per_user(m),
    ensures
        one_token_per_user(after_login(m, user, token, now)),
{
    let r = after_login(m, user, token, now);
    assert forall|t1: Seq<char>, t2: Seq<char>|
        #[trigger] r.contains_key(t1) && #[trigger] r.contains_key(t2) && t1 != t2 implies r[t1].0 != r[t2].0 by {
        if t1 != token && t2 != token {
            assert(m.contains_key(t1) && m.contains_key(t2));
        }
    }
}

/// A session issued at login can be renewed at any time before it runs out:
/// the clean-up that renewal does first keeps it.
pub proof fn lemma_login_session_renewable(
    m: Map<Seq<char>, SessionView>,
    user: Seq<char>,
    token: Seq<char>,
    now: u64,
    later: u64,
)
    requires
        now <= u64::MAX - SESSION_TTL_MILLIS,
        later < now + SESSION_TTL_MILLIS,
    ensures
        unexpired(after_login(m, user, token, now), later).contains_key(token),
        unexpired(after_login(m, user, token, now), later)[token].0 == user,
{
}

/// A login leaves the sessions of other users alone, except those that had
/// expired and the one whose token the new session takes over.
pub proof fn lemma_login_keeps_others(
    m: Map<Seq<char>, SessionView>,
    user: Seq<char>,
    token: Seq<char>,
    now: u64,
    t: Seq<char>,
)
    requires
        m.contains_key(t),
        m[t].0 != user,
        m[t].1 > now,
        t != token,
    ensures
        after_login(m, user, token, now).contains_key(t),
        after_login(m, user, token, now)[t] == m[t],
{
}

} // verus!
