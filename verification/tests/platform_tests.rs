use simple::crypto::{generate_token, hash_password, token_from_draws, TOKEN_LEN};
use simple::platform::{
    check_api_key, extract_api_key, login_handler, prepare_players, renew_handler,
    verify_key_handler, ApiKeyDb, AppState, LoginRequest, Player, PlayerDb, STATUS_BAD_REQUEST,
    STATUS_FORBIDDEN, STATUS_NOT_FOUND, STATUS_OK, STATUS_UNAUTHORIZED,
};
use simple::sessions::{Sessions, SESSION_TTL_MILLIS};
use simple::shared::RenewRequest;

const KINDY_HASH: &str = "2a6dfcfc82c2e018f7fd5c5392e5972b56bb753a8b11eb69c13e9a1a684c9cd2";

fn state_with(players: &[(&str, &str)], keys: &[&str]) -> AppState {
    AppState {
        players: PlayerDb {
            players: players
                .iter()
                .map(|(u, p)| Player { username: u.to_string(), password_hash: hash_password(p) })
                .collect(),
        },
        api_keys: ApiKeyDb { keys: keys.iter().map(|k| k.to_string()).collect() },
        sessions: Sessions::new(),
    }
}

fn login(user: &str, pass: &str) -> LoginRequest {
    LoginRequest { username: user.to_string(), password: pass.to_string() }
}

#[test]
fn hash_password_is_sha256_hex() {
    assert_eq!(hash_password("kindy"), KINDY_HASH);
    assert_eq!(hash_password("a much longer password than the digest").len(), 64);
    assert_eq!(
        hash_password(""),
        "e3b0c44298fc1c149afbf4c8996fb92427ae41e4649b934ca495991b7852b855"
    );
    assert_eq!(
        hash_password("abc"),
        "ba7816bf8f01cfea414140de5dae2223b00361a396177a9cb410ff61f20015ad"
    );
}

#[test]
fn generated_tokens_are_alphanumeric_and_fresh() {
    let a = generate_token();
    let b = generate_token();
    assert_eq!(a.len(), 32);
    assert_eq!(a.chars().count(), 32);
    assert!(a.chars().all(|c| c.is_ascii_alphanumeric()));
    assert!(b.chars().all(|c| c.is_ascii_alphanumeric()));
    assert_ne!(a, b);
}

#[test]
fn draws_pick_alphabet_characters() {
    assert_eq!(token_from_draws(&vec![0, 25, 26, 51, 52, 61, 62, 125]), "AZaz09AB");
    assert_eq!(token_from_draws(&vec![u32::MAX]), "D");
    assert_eq!(token_from_draws(&vec![]), "");
    assert_eq!(TOKEN_LEN, 32);
}

#[test]
fn extract_api_key_takes_bearer_value() {
    assert_eq!(extract_api_key(Some("Bearer abc")), Some("abc"));
    assert_eq!(extract_api_key(Some("Bearer ")), Some(""));
    assert_eq!(extract_api_key(Some("Basic abc")), None);
    assert_eq!(extract_api_key(Some("bearer abc")), None);
    assert_eq!(extract_api_key(None), None);
}

#[test]
fn check_api_key_errors() {
    let state = state_with(&[], &["k1", "k2"]);
    assert_eq!(check_api_key(&state, Some("Bearer k2")), Ok(()));
    assert_eq!(
        check_api_key(&state, Some("Bearer k3")),
        Err((STATUS_UNAUTHORIZED, "Invalid API key".to_string()))
    );
    assert_eq!(
        check_api_key(&state, None),
        Err((STATUS_UNAUTHORIZED, "Missing API key".to_string()))
    );
    assert_eq!(
        check_api_key(&state, Some("k1")),
        Err((STATUS_UNAUTHORIZED, "Missing API key".to_string()))
    );
}

#[test]
fn verify_key_answers() {
    let state = state_with(&[], &["k1"]);
    let (code, resp) = verify_key_handler(&state, Some("Bearer k1"));
    assert_eq!(code, STATUS_OK);
    assert!(resp.valid);
    assert_eq!(resp.message, "API key is valid");
    let (code, resp) = verify_key_handler(&state, Some("Bearer nope"));
    assert_eq!(code, STATUS_UNAUTHORIZED);
    assert!(!resp.valid);
    assert_eq!(resp.message, "Invalid API key");
}

#[test]
fn login_success_registers_session() {
    let mut state = state_with(&[("kindy", "kindy")], &["k1"]);
    let (code, resp) = login_handler(&mut state, Some("Bearer k1"), login("kindy", "kindy"), 1000);
    assert_eq!(code, STATUS_OK);
    assert!(resp.success);
    assert_eq!(resp.username, "kindy");
    assert_eq!(resp.message, "Authentication successful");
    assert_eq!(resp.token.len(), 32);
    assert_eq!(state.sessions.len(), 1);
    let s = state.sessions.get(&resp.token).unwrap();
    assert_eq!(s.username, "kindy");
    assert_eq!(s.expires_at, 1000 + SESSION_TTL_MILLIS);
}

#[test]
fn second_login_replaces_first_session() {
    let mut state = state_with(&[("kindy", "kindy"), ("amy", "amy")], &["k1"]);
    let (_, first) = login_handler(&mut state, Some("Bearer k1"), login("kindy", "kindy"), 1000);
    let (_, other) = login_handler(&mut state, Some("Bearer k1"), login("amy", "amy"), 1500);
    let (code, second) = login_handler(&mut state, Some("Bearer k1"), login("kindy", "kindy"), 2000);
    assert_eq!(code, STATUS_OK);
    assert!(state.sessions.get(&first.token).is_none());
    assert_eq!(state.sessions.get(&second.token).unwrap().username, "kindy");
    assert_eq!(state.sessions.get(&other.token).unwrap().username, "amy");
    assert_eq!(state.sessions.len(), 2);
}

#[test]
fn login_refusals() {
    let mut state = state_with(&[("kindy", "kindy")], &["k1"]);
    let (code, resp) = login_handler(&mut state, Some("Bearer k1"), login("kindy", "wrong"), 10);
    assert_eq!(code, STATUS_FORBIDDEN);
    assert!(!resp.success);
    assert_eq!(resp.message, "Invalid username or password");
    assert_eq!(resp.token, "");
    let (code, resp) = login_handler(&mut state, Some("Bearer k1"), login("", "kindy"), 10);
    assert_eq!(code, STATUS_BAD_REQUEST);
    assert_eq!(resp.message, "Username and password are required");
    let (code, resp) = login_handler(&mut state, Some("Bearer k1"), login("kindy", ""), 10);
    assert_eq!(code, STATUS_BAD_REQUEST);
    assert_eq!(resp.username, "kindy");
    let (code, resp) = login_handler(&mut state, Some("Bearer bad"), login("kindy", "kindy"), 10);
    assert_eq!(code, STATUS_UNAUTHORIZED);
    assert_eq!(resp.message, "Invalid API key");
    let (code, resp) = login_handler(&mut state, None, login("kindy", "kindy"), 10);
    assert_eq!(code, STATUS_UNAUTHORIZED);
    assert_eq!(resp.message, "Missing API key");
    assert_eq!(state.sessions.len(), 0);
}

#[test]
fn renew_extends_live_session() {
    let mut state = state_with(&[("kindy", "kindy")], &["k1"]);
    let (_, resp) = login_handler(&mut state, Some("Bearer k1"), login("kindy", "kindy"), 1000);
    let (code, r) =
        renew_handler(&mut state, Some("Bearer k1"), RenewRequest { token: resp.token.clone() }, 30_000);
    assert_eq!(code, STATUS_OK);
    assert!(r.success);
    assert_eq!(r.message, "Session renewed");
    assert_eq!(state.sessions.get(&resp.token).unwrap().expires_at, 30_000 + SESSION_TTL_MILLIS);
}

#[test]
fn renew_of_expired_or_unknown_session_fails() {
    let mut state = state_with(&[("kindy", "kindy")], &["k1"]);
    let (_, resp) = login_handler(&mut state, Some("Bearer k1"), login("kindy", "kindy"), 1000);
    let (code, r) = renew_handler(
        &mut state,
        Some("Bearer k1"),
        RenewRequest { token: resp.token.clone() },
        1000 + SESSION_TTL_MILLIS,
    );
    assert_eq!(code, STATUS_NOT_FOUND);
    assert!(!r.success);
    assert_eq!(r.message, "Session not found or expired");
    assert_eq!(state.sessions.len(), 0);
    let (code, r) =
        renew_handler(&mut state, Some("Bearer k1"), RenewRequest { token: "nope".to_string() }, 5);
    assert_eq!(code, STATUS_NOT_FOUND);
    assert!(!r.success);
    let (code, r) =
        renew_handler(&mut state, Some("Bearer x"), RenewRequest { token: "nope".to_string() }, 5);
    assert_eq!(code, STATUS_UNAUTHORIZED);
    assert_eq!(r.message, "Invalid API key");
}

#[test]
fn session_renewable_until_it_runs_out() {
    let mut state = state_with(&[("amy", "amy")], &["k1"]);
    let (_, resp) = login_handler(&mut state, Some("Bearer k1"), login("amy", "amy"), 0);
    let (code, _) = renew_handler(
        &mut state,
        Some("Bearer k1"),
        RenewRequest { token: resp.token.clone() },
        SESSION_TTL_MILLIS - 1,
    );
    assert_eq!(code, STATUS_OK);
}

#[test]
fn empty_player_db_is_seeded() {
    let (db, changed) = prepare_players(PlayerDb { players: vec![] });
    assert!(changed);
    let names: Vec<&str> = db.players.iter().map(|p| p.username.as_str()).collect();
    assert_eq!(names, vec!["kindy", "ananda", "martin", "amy"]);
    assert_eq!(db.players[0].password_hash, KINDY_HASH);
    for p in &db.players {
        assert_eq!(p.password_hash, hash_password(&p.username));
    }
}

#[test]
fn missing_hashes_are_filled() {
    let db = PlayerDb {
        players: vec![
            Player { username: "kindy".to_string(), password_hash: String::new() },
            Player { username: "zed".to_string(), password_hash: "x".to_string() },
        ],
    };
    let (db, changed) = prepare_players(db);
    assert!(changed);
    assert_eq!(db.players[0].password_hash, KINDY_HASH);
    assert_eq!(db.players[1].password_hash, "x");
    let (db2, changed2) = prepare_players(db);
    assert!(!changed2);
    assert_eq!(db2.players.len(), 2);
}
