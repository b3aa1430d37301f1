use simple::env::{load_env, ENV_KEY_NAME};
use simple::platform_client::{
    auth_header, credentials_outcome, key_verify_outcome, mkcert_ca_source, platform_url,
    renew_outcome, retry_decision, CaSource, RetryStep,
};
use simple::platform::KeyVerifyResponse;
use simple::scoreboard::{
    rank_by_score, rank_label, ranked_entry_text, scoreboard_entries, scoreboard_text,
    scoreboard_text_by_id, update_scoreboard, ScoreLine,
};
use simple::shared::{AuthResponse, RenewResponse, PLATFORM_API_KEY};
use simple::text::{joined, decimal_string, repeat_char, same_text, starts_with};

#[test]
fn decimal_and_text_helpers() {
    assert_eq!(decimal_string(0), "0");
    assert_eq!(decimal_string(3001), "3001");
    assert_eq!(decimal_string(u64::MAX), "18446744073709551615");
    assert!(starts_with("Bearer x", "Bearer "));
    assert!(!starts_with("Bear", "Bearer "));
    assert_eq!(repeat_char('*', 3), "***");
    assert_eq!(joined("ab", "cd"), "abcd");
    assert!(same_text("x", "x"));
    assert!(!same_text("x", "y"));
}

#[test]
fn header_and_url() {
    assert_eq!(auth_header("k1"), "Bearer k1");
    assert_eq!(platform_url("/api/auth/login"), "https://127.0.0.1:3001/api/auth/login");
}

#[test]
fn header_round_trips_through_extraction() {
    let h = auth_header("some key");
    assert_eq!(simple::platform::extract_api_key(Some(h.as_str())), Some("some key"));
}

#[test]
fn platform_answers_are_read() {
    assert_eq!(
        key_verify_outcome(KeyVerifyResponse { valid: true, message: "x".to_string() }),
        Ok(())
    );
    assert_eq!(
        key_verify_outcome(KeyVerifyResponse { valid: false, message: "bad".to_string() }),
        Err("bad".to_string())
    );
    let ok = AuthResponse {
        success: true,
        username: "amy".to_string(),
        message: "m".to_string(),
        token: "t".to_string(),
    };
    assert_eq!(credentials_outcome(ok), Ok(("amy".to_string(), "t".to_string())));
    let no = AuthResponse {
        success: false,
        username: "amy".to_string(),
        message: "Invalid username or password".to_string(),
        token: String::new(),
    };
    assert_eq!(credentials_outcome(no), Err("Invalid username or password".to_string()));
    assert_eq!(renew_outcome(RenewResponse { success: true, message: String::new() }), Ok(()));
    assert_eq!(
        renew_outcome(RenewResponse { success: false, message: "gone".to_string() }),
        Err("gone".to_string())
    );
}

#[test]
fn retries_then_gives_up() {
    assert_eq!(retry_decision(1, 3, Ok(())), RetryStep::Verified);
    assert_eq!(
        retry_decision(1, 3, Err("down".to_string())),
        RetryStep::RetryAfterPause { next: 2 }
    );
    assert_eq!(
        retry_decision(3, 3, Err("down".to_string())),
        RetryStep::GiveUp("down".to_string())
    );
}

fn line(id: u64, name: &str, score: u32) -> ScoreLine {
    ScoreLine { id, name: name.to_string(), score }
}

#[test]
fn scoreboard_ranks_and_writes() {
    let ranked = rank_by_score(&vec![line(1, "b", 10), line(2, "a", 20), line(3, "c", 5)]);
    let scores: Vec<u32> = ranked.iter().map(|l| l.score).collect();
    assert_eq!(scores, vec![20, 10, 5]);
    assert_eq!(scoreboard_text(&ranked), "=== Scores ===\na: 20\nb: 10\nc: 5");
    assert_eq!(scoreboard_text(&vec![]), "=== Scores ===\nWaiting...");
    assert_eq!(scoreboard_text_by_id(&vec![line(12345, "x", 7)]), "=== Scores ===\nP345: 7");
    assert_eq!(scoreboard_text_by_id(&vec![]), "=== Scores ===\nWaiting...");
}

#[test]
fn rank_labels() {
    assert_eq!(rank_label(0), "\u{1f947}");
    assert_eq!(rank_label(1), "\u{1f948}");
    assert_eq!(rank_label(2), "\u{1f949}");
    assert_eq!(rank_label(3), "#4");
    assert_eq!(ranked_entry_text(9, "amy", 30), "#10  amy  \u{2014}  30\u{5206}");
}

#[test]
fn env_file_gives_key() {
    assert_eq!(ENV_KEY_NAME, "PLATFORM_API_KEY");
    assert_eq!(load_env(Some("PLATFORM_API_KEY=abc\n")), "abc");
    assert_eq!(
        load_env(Some("# comment\n\n  OTHER = 1\r\n PLATFORM_API_KEY =  k e y  \r\nPLATFORM_API_KEY=second")),
        "k e y"
    );
    assert_eq!(load_env(Some("PLATFORM_API_KEY=a=b")), "a=b");
    assert_eq!(load_env(Some("PLATFORM_API_KEY=")), "");
}

#[test]
fn env_falls_back_to_builtin_key() {
    assert_eq!(load_env(None), PLATFORM_API_KEY);
    assert_eq!(load_env(Some("")), PLATFORM_API_KEY);
    assert_eq!(load_env(Some("#PLATFORM_API_KEY=x\nPLATFORM_API_KEYX=y\nnoequals")), PLATFORM_API_KEY);
}

#[test]
fn client_scoreboard_from_unordered_players() {
    let players = vec![line(1, "b", 10), line(2, "a", 20)];
    assert_eq!(update_scoreboard(&players), "=== Scores ===\na: 20\nb: 10");
    assert_eq!(update_scoreboard(&vec![]), "=== Scores ===\nWaiting...");
}

#[test]
fn server_scoreboard_panel() {
    let players = vec![line(1, "kindy", 10), line(2, "amy", 30)];
    assert_eq!(
        scoreboard_entries(&players),
        vec![
            "=== \u{6392}\u{884c}\u{699c} ===".to_string(),
            "\u{1f947}  amy  \u{2014}  30\u{5206}".to_string(),
            "\u{1f948}  kindy  \u{2014}  10\u{5206}".to_string(),
        ]
    );
    assert_eq!(
        scoreboard_entries(&vec![]),
        vec![
            "=== \u{6392}\u{884c}\u{699c} ===".to_string(),
            "\u{7b49}\u{5f85}\u{73a9}\u{5bb6}\u{52a0}\u{5165}...".to_string(),
        ]
    );
}

#[test]
fn ca_file_choice() {
    assert_eq!(mkcert_ca_source(true, true, true, true), CaSource::Explicit);
    assert_eq!(mkcert_ca_source(false, true, true, false), CaSource::LocalAppData);
    assert_eq!(mkcert_ca_source(false, false, true, true), CaSource::HomeShare);
    assert_eq!(mkcert_ca_source(false, false, false, true), CaSource::HomeLibrary);
    assert_eq!(mkcert_ca_source(false, false, false, false), CaSource::NotFound);
}
