use simple::bullets::{bullet_player_collision, server_handle_shoot, ScoreSlot, Shooter, Target};
use simple::combat::combat_detection;
use simple::server::{
    admit_client, client_id_to_u64, disconnect_player, renewal_decision, respawn_dead_players,
    run_server, server_on_connect, Admission, ClientRef, RenewalStep, ServerAction, ServerEvent,
    ServerPlayer, ServerWorld, ALREADY_ONLINE, PLATFORM_UNAVAILABLE,
};
use simple::shared::{update_visibility, Shown, Visibility, KILL_SCORE, MAX_BULLETS_PER_PLAYER, MAX_HP};

#[test]
fn one_sided_hit_kills_and_scores() {
    let out = combat_detection(&vec![vec![false, true], vec![false, false]]);
    assert_eq!(out.killed, vec![false, true]);
    assert_eq!(out.score_deltas, vec![(0, KILL_SCORE)]);
}

#[test]
fn mutual_hit_kills_both_without_points() {
    let out = combat_detection(&vec![vec![false, true], vec![true, false]]);
    assert_eq!(out.killed, vec![true, true]);
    assert!(out.score_deltas.is_empty());
}

#[test]
fn no_hits_change_nothing() {
    let out = combat_detection(&vec![vec![false; 3]; 3]);
    assert_eq!(out.killed, vec![false; 3]);
    assert!(out.score_deltas.is_empty());
    let out = combat_detection(&vec![]);
    assert!(out.killed.is_empty());
}

#[test]
fn killed_player_cannot_kill_later_in_frame() {
    // 0 hits 1, then 1 would hit 2: 1 is already dead.
    let h = vec![
        vec![false, true, false],
        vec![false, false, true],
        vec![false, false, false],
    ];
    let out = combat_detection(&h);
    assert_eq!(out.killed, vec![false, true, false]);
    assert_eq!(out.score_deltas, vec![(0, 10)]);
}

#[test]
fn points_never_exceed_kills() {
    let h = vec![
        vec![false, true, true],
        vec![true, false, true],
        vec![false, false, false],
    ];
    let out = combat_detection(&h);
    assert_eq!(out.killed, vec![true, true, false]);
    assert!(out.score_deltas.is_empty());
    // 0 hits 1, then 2 hits 0: both kills count.
    let h = vec![
        vec![false, true, false],
        vec![false, false, false],
        vec![true, false, false],
    ];
    let out = combat_detection(&h);
    let kills = out.killed.iter().filter(|k| **k).count();
    assert!(out.score_deltas.len() <= kills);
    assert_eq!(out.killed, vec![true, true, false]);
    assert_eq!(out.score_deltas, vec![(0, 10), (2, 10)]);
}

#[test]
fn shooting_respects_cooldown_and_order() {
    let mut players = vec![Shooter { id: 1, ready: true }, Shooter { id: 2, ready: false }];
    let fired = server_handle_shoot(&vec![1, 2, 1, 3], &mut players, &vec![]);
    assert_eq!(fired, vec![0]);
    assert_eq!(players, vec![Shooter { id: 1, ready: false }, Shooter { id: 2, ready: false }]);
}

#[test]
fn shooting_respects_bullet_limit() {
    let mut players = vec![Shooter { id: 7, ready: true }, Shooter { id: 8, ready: true }];
    let owners = vec![7u64; MAX_BULLETS_PER_PLAYER];
    let fired = server_handle_shoot(&vec![7, 8], &mut players, &owners);
    assert_eq!(fired, vec![1]);
    assert!(players[0].ready);
    assert!(!players[1].ready);
    let mut players = vec![Shooter { id: 7, ready: true }];
    let owners = vec![7u64; MAX_BULLETS_PER_PLAYER - 1];
    assert_eq!(server_handle_shoot(&vec![7], &mut players, &owners), vec![0]);
}

#[test]
fn bullets_hurt_kill_and_score() {
    let mut targets = vec![Target { id: 1, health: 3 }, Target { id: 2, health: 1 }];
    let mut scores = vec![ScoreSlot { id: 1, score: 0 }, ScoreSlot { id: 2, score: 5 }];
    // bullet 0 (owner 1) is inside player 2; bullet 1 (owner 1) inside both.
    let hits = vec![vec![false, true], vec![true, true]];
    let out = bullet_player_collision(&vec![1, 1], &mut targets, &hits, &mut scores);
    assert_eq!(out.spent, vec![true, true]);
    assert_eq!(out.dead, vec![false, true]);
    assert_eq!(targets, vec![Target { id: 1, health: 3 }, Target { id: 2, health: 0 }]);
    // The second bullet strikes the player it already left at zero: one
    // death, one kill.
    assert_eq!(scores, vec![ScoreSlot { id: 1, score: 10 }, ScoreSlot { id: 2, score: 5 }]);
}

#[test]
fn one_death_awards_one_kill() {
    // Player 3 has one hit point; bullets of players 1 and 2 both strike it.
    let mut targets = vec![Target { id: 3, health: 1 }];
    let mut scores = vec![
        ScoreSlot { id: 1, score: 0 },
        ScoreSlot { id: 2, score: 7 },
        ScoreSlot { id: 3, score: 0 },
    ];
    let out = bullet_player_collision(&vec![1, 2], &mut targets, &vec![vec![true], vec![true]], &mut scores);
    assert_eq!(out.spent, vec![true, true]);
    assert_eq!(out.dead, vec![true]);
    assert_eq!(targets[0].health, 0);
    assert_eq!(scores[0].score, KILL_SCORE);
    assert_eq!(scores[1].score, 7);
    assert_eq!(scores[2].score, 0);
}

#[test]
fn score_near_limit_without_bullets_is_accepted() {
    let mut targets = vec![Target { id: 3, health: 1 }];
    let mut scores = vec![ScoreSlot { id: 1, score: 0 }, ScoreSlot { id: 9, score: u32::MAX }];
    let out = bullet_player_collision(&vec![1], &mut targets, &vec![vec![true]], &mut scores);
    assert_eq!(out.dead, vec![true]);
    assert_eq!(scores[0].score, KILL_SCORE);
    assert_eq!(scores[1].score, u32::MAX);
}

#[test]
fn own_bullet_does_not_hurt() {
    let mut targets = vec![Target { id: 4, health: 2 }];
    let mut scores = vec![ScoreSlot { id: 4, score: 0 }];
    let out = bullet_player_collision(&vec![4], &mut targets, &vec![vec![true]], &mut scores);
    assert_eq!(out.spent, vec![false]);
    assert_eq!(out.dead, vec![false]);
    assert_eq!(targets[0].health, 2);
    assert_eq!(scores[0].score, 0);
}

#[test]
fn hit_without_kill_only_hurts() {
    let mut targets = vec![Target { id: 4, health: 2 }];
    let mut scores = vec![ScoreSlot { id: 9, score: 0 }];
    let out = bullet_player_collision(&vec![9], &mut targets, &vec![vec![true]], &mut scores);
    assert_eq!(out.spent, vec![true]);
    assert_eq!(out.dead, vec![false]);
    assert_eq!(targets[0].health, 1);
    assert_eq!(scores[0].score, 0);
}

#[test]
fn client_ids() {
    assert_eq!(client_id_to_u64(ClientRef::Server), 0);
    assert_eq!(client_id_to_u64(ClientRef::Client(42)), 42);
}

fn world() -> ServerWorld {
    ServerWorld { players: vec![], player_count: 0, accounts: vec![] }
}

fn join(bits: u64, name: &str) -> ServerEvent {
    ServerEvent::Connected {
        bits,
        platform_connected: true,
        verdict: Ok((name.to_string(), format!("tok-{name}"))),
    }
}

fn spawn(id: u64, color_index: u32, name: &str) -> ServerAction {
    ServerAction::Spawn { id, color_index, username: name.to_string() }
}

#[test]
fn joining_players_get_distinct_colours() {
    let mut w = world();
    let a = run_server(&mut w, join(11, "kindy"));
    let b = run_server(&mut w, join(12, "amy"));
    assert_eq!(a, spawn(11, 0, "kindy"));
    assert_eq!(b, spawn(12, 1, "amy"));
    assert_eq!(w.accounts.len(), 2);
    assert_eq!(w.accounts[1].username, "amy");
    assert_eq!(w.accounts[1].token, "tok-amy");
    assert_eq!(w.player_count, 2);
    assert_eq!(
        w.players,
        vec![
            ServerPlayer { id: 11, score: 0, health: MAX_HP, dead: false },
            ServerPlayer { id: 12, score: 0, health: MAX_HP, dead: false },
        ]
    );
}

#[test]
fn melee_marks_dead_and_scores() {
    let mut w = world();
    run_server(&mut w, join(1, "a"));
    run_server(&mut w, join(2, "b"));
    run_server(&mut w, join(3, "c"));
    w.players[1].dead = true;
    // Alive players are 1 and 3; 3's tip is inside 1.
    let action = run_server(&mut w, ServerEvent::Melee(vec![vec![false, false], vec![true, false]]));
    assert_eq!(action, ServerAction::Killed(vec![1]));
    assert!(w.players[0].dead);
    assert_eq!(w.players[2].score, KILL_SCORE);
    assert_eq!(w.players[0].score, 0);
}

#[test]
fn respawn_restores_listed_dead_players() {
    let mut w = world();
    run_server(&mut w, join(1, "a"));
    run_server(&mut w, join(2, "b"));
    w.players[0].dead = true;
    w.players[0].health = 0;
    w.players[0].score = 30;
    let action = run_server(&mut w, ServerEvent::Respawn(vec![1, 2, 5]));
    assert_eq!(action, ServerAction::Respawned(vec![1]));
    assert_eq!(w.players[0], ServerPlayer { id: 1, score: 30, health: MAX_HP, dead: false });
    assert_eq!(w.players[1], ServerPlayer { id: 2, score: 0, health: MAX_HP, dead: false });
    assert_eq!(w.player_count, 2);
}

#[test]
fn visibility_follows_death() {
    let mut e = vec![
        Shown { is_player: true, dead: true, visibility: Visibility::Inherited },
        Shown { is_player: true, dead: false, visibility: Visibility::Hidden },
        Shown { is_player: false, dead: false, visibility: Visibility::Visible },
    ];
    update_visibility(&mut e);
    assert_eq!(e[0].visibility, Visibility::Hidden);
    assert_eq!(e[1].visibility, Visibility::Inherited);
    assert_eq!(e[2].visibility, Visibility::Visible);
}

#[test]
fn connect_and_respawn_directly() {
    let mut w = world();
    assert_eq!(
        server_on_connect(&mut w, 5, "kindy".to_string(), "t".to_string()),
        spawn(5, 0, "kindy")
    );
    assert_eq!(w.players.len(), 1);
    assert_eq!(w.accounts[0].id, 5);
    let mut players = vec![
        ServerPlayer { id: 1, score: 3, health: 0, dead: true },
        ServerPlayer { id: 2, score: 4, health: 0, dead: true },
    ];
    assert_eq!(respawn_dead_players(&mut players, &vec![2]), vec![2]);
    assert!(players[0].dead);
    assert_eq!(players[1], ServerPlayer { id: 2, score: 4, health: MAX_HP, dead: false });
    assert_eq!(respawn_dead_players(&mut players, &vec![2]), Vec::<u64>::new());
}

#[test]
fn refused_clients_do_not_join() {
    let mut w = world();
    let down = ServerEvent::Connected {
        bits: 1,
        platform_connected: false,
        verdict: Ok(("kindy".to_string(), "t".to_string())),
    };
    assert_eq!(
        run_server(&mut w, down),
        ServerAction::Refused { id: 1, reason: PLATFORM_UNAVAILABLE.to_string() }
    );
    let bad = ServerEvent::Connected {
        bits: 2,
        platform_connected: true,
        verdict: Err("Invalid username or password".to_string()),
    };
    assert_eq!(
        run_server(&mut w, bad),
        ServerAction::Refused { id: 2, reason: "Invalid username or password".to_string() }
    );
    assert!(w.players.is_empty());
    assert!(w.accounts.is_empty());
    assert_eq!(w.player_count, 0);
}

#[test]
fn second_login_of_same_account_is_refused() {
    let mut w = world();
    assert_eq!(run_server(&mut w, join(1, "kindy")), spawn(1, 0, "kindy"));
    assert_eq!(
        run_server(&mut w, join(2, "kindy")),
        ServerAction::Refused { id: 2, reason: ALREADY_ONLINE.to_string() }
    );
    assert_eq!(w.players.len(), 1);
    assert_eq!(w.player_count, 1);
    // Once the first client left, the account may join again.
    assert_eq!(run_server(&mut w, ServerEvent::Left(1)), ServerAction::Removed(1));
    assert!(w.players.is_empty());
    assert_eq!(run_server(&mut w, join(3, "kindy")), spawn(3, 1, "kindy"));
}

#[test]
fn expired_session_disconnects_player() {
    let mut w = world();
    run_server(&mut w, join(1, "kindy"));
    run_server(&mut w, join(2, "amy"));
    let ok = ServerEvent::SessionChecked { id: 1, outcome: Ok(()) };
    assert_eq!(run_server(&mut w, ok), ServerAction::Kept);
    assert_eq!(w.players.len(), 2);
    let gone = ServerEvent::SessionChecked {
        id: 1,
        outcome: Err("Session not found or expired".to_string()),
    };
    assert_eq!(
        run_server(&mut w, gone),
        ServerAction::Disconnected { id: 1, reason: "Session not found or expired".to_string() }
    );
    assert_eq!(w.players, vec![ServerPlayer { id: 2, score: 0, health: MAX_HP, dead: false }]);
    assert_eq!(w.accounts.len(), 1);
    assert_eq!(w.accounts[0].username, "amy");
}

#[test]
fn admission_and_renewal_decisions() {
    let mut w = world();
    server_on_connect(&mut w, 1, "amy".to_string(), "t".to_string());
    assert_eq!(
        admit_client(&w, true, Ok(("kindy".to_string(), "k".to_string()))),
        Admission::Admit { username: "kindy".to_string(), token: "k".to_string() }
    );
    assert_eq!(
        admit_client(&w, true, Ok(("amy".to_string(), "k".to_string()))),
        Admission::Refuse(ALREADY_ONLINE.to_string())
    );
    assert_eq!(
        admit_client(&w, false, Err("x".to_string())),
        Admission::Refuse(PLATFORM_UNAVAILABLE.to_string())
    );
    assert_eq!(renewal_decision(Ok(())), RenewalStep::Keep);
    assert_eq!(renewal_decision(Err("gone".to_string())), RenewalStep::Disconnect("gone".to_string()));
    disconnect_player(&mut w, 99);
    assert_eq!(w.players.len(), 1);
    disconnect_player(&mut w, 1);
    assert!(w.players.is_empty() && w.accounts.is_empty());
}
