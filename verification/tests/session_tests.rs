use simple::sessions::{cleanup_expired_sessions, Session, Sessions, SESSION_TTL_MILLIS, SESSION_TTL_SECS};

fn session(user: &str, expires_at: u64) -> Session {
    Session { username: user.to_string(), expires_at }
}

fn table() -> Sessions {
    let mut s = Sessions::new();
    s.insert("t1".to_string(), session("kindy", 100));
    s.insert("t2".to_string(), session("amy", 200));
    s.insert("t3".to_string(), session("martin", 300));
    s
}

#[test]
fn ttl_is_sixty_seconds() {
    assert_eq!(SESSION_TTL_SECS, 60);
    assert_eq!(SESSION_TTL_MILLIS, 60_000);
}

#[test]
fn insert_get_and_replace() {
    let mut s = Sessions::new();
    assert_eq!(s.len(), 0);
    assert!(s.get("t1").is_none());
    s.insert("t1".to_string(), session("kindy", 100));
    assert_eq!(s.len(), 1);
    assert_eq!(s.get("t1").unwrap().expires_at, 100);
    s.insert("t1".to_string(), session("amy", 7));
    assert_eq!(s.len(), 1);
    assert_eq!(s.get("t1").unwrap().username, "amy");
    assert_eq!(s.get("t1").unwrap().expires_at, 7);
}

#[test]
fn cleanup_drops_expired_at_or_before_now() {
    let mut s = table();
    cleanup_expired_sessions(&mut s, 200);
    assert!(s.get("t1").is_none());
    assert!(s.get("t2").is_none());
    assert_eq!(s.get("t3").unwrap().username, "martin");
    assert_eq!(s.len(), 1);
}

#[test]
fn cleanup_before_any_expiry_keeps_all() {
    let mut s = table();
    cleanup_expired_sessions(&mut s, 99);
    assert_eq!(s.len(), 3);
    assert_eq!(s.get("t1").unwrap().expires_at, 100);
}

#[test]
fn cleanups_compose() {
    let mut twice = table();
    cleanup_expired_sessions(&mut twice, 100);
    cleanup_expired_sessions(&mut twice, 250);
    let mut once = table();
    cleanup_expired_sessions(&mut once, 250);
    assert_eq!(twice.len(), once.len());
    for t in ["t1", "t2", "t3"] {
        assert_eq!(twice.get(t).is_some(), once.get(t).is_some());
    }
}

#[test]
fn refresh_and_remove_user() {
    let mut s = table();
    assert!(s.refresh("t2", 999));
    assert_eq!(s.get("t2").unwrap().expires_at, 999);
    assert!(!s.refresh("t9", 999));
    s.insert("t4".to_string(), session("amy", 50));
    s.remove_user("amy");
    assert!(s.get("t2").is_none());
    assert!(s.get("t4").is_none());
    assert_eq!(s.len(), 2);
    s.remove_expired(1000);
    assert_eq!(s.len(), 0);
}
