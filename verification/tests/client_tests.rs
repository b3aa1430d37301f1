use simple::client::{new_client, run_client, ClientAction, ClientFrame};
use simple::login::{
    char_for_key, check_connection, client_id_from_time, client_send_input, credentials_of,
    handle_connect, handle_login_input,
    movement_axes, pack_user_data, render_login_text, ConnectionState, FocusField, GameState,
    LoginData, LoginKey, MoveKeys, USER_DATA_LEN,
};

fn empty_login() -> LoginData {
    LoginData {
        username: String::new(),
        password: String::new(),
        focused: FocusField::Username,
        status: None,
        connect_requested: false,
    }
}

fn press(login: &mut LoginData, keys: &[LoginKey]) {
    handle_login_input(login, &keys.to_vec());
}

#[test]
fn keys_type_lower_case_letters_digits_and_space() {
    assert_eq!(char_for_key(LoginKey::A), Some('a'));
    assert_eq!(char_for_key(LoginKey::Z), Some('z'));
    assert_eq!(char_for_key(LoginKey::Digit0), Some('0'));
    assert_eq!(char_for_key(LoginKey::Digit9), Some('9'));
    assert_eq!(char_for_key(LoginKey::Space), Some(' '));
    assert_eq!(char_for_key(LoginKey::Tab), None);
    assert_eq!(char_for_key(LoginKey::Enter), None);
    assert_eq!(char_for_key(LoginKey::Backspace), None);
}

#[test]
fn typing_goes_to_focused_field() {
    let mut l = empty_login();
    press(&mut l, &[LoginKey::K]);
    press(&mut l, &[LoginKey::I]);
    assert_eq!(l.username, "ki");
    press(&mut l, &[LoginKey::Tab]);
    assert_eq!(l.focused, FocusField::Password);
    press(&mut l, &[LoginKey::Digit1, LoginKey::A]);
    // Keys of one frame go in in the screen's order: letters, then digits.
    assert_eq!(l.password, "a1");
    assert_eq!(l.username, "ki");
}

#[test]
fn tab_twice_restores_focus() {
    let mut l = empty_login();
    press(&mut l, &[LoginKey::A]);
    l.status = Some("old".to_string());
    press(&mut l, &[LoginKey::Tab]);
    assert_eq!(l.status, None);
    press(&mut l, &[LoginKey::Tab]);
    assert_eq!(l.focused, FocusField::Username);
    assert_eq!(l.username, "a");
}

#[test]
fn backspace_undoes_typing() {
    let mut l = empty_login();
    press(&mut l, &[LoginKey::A, LoginKey::B]);
    press(&mut l, &[LoginKey::C]);
    press(&mut l, &[LoginKey::Backspace]);
    assert_eq!(l.username, "ab");
    let mut e = empty_login();
    press(&mut e, &[LoginKey::Backspace]);
    assert_eq!(e.username, "");
}

#[test]
fn enter_needs_both_fields() {
    let mut l = empty_login();
    press(&mut l, &[LoginKey::A]);
    press(&mut l, &[LoginKey::Enter]);
    assert!(!l.connect_requested);
    assert_eq!(l.status.as_deref(), Some("Enter username and password"));
    press(&mut l, &[LoginKey::Tab]);
    press(&mut l, &[LoginKey::B]);
    press(&mut l, &[LoginKey::Enter]);
    assert!(l.connect_requested);
    assert_eq!(l.status.as_deref(), Some("Connecting..."));
    // Once requested, keys change nothing.
    press(&mut l, &[LoginKey::C, LoginKey::Tab]);
    assert_eq!(l.password, "b");
    assert_eq!(l.focused, FocusField::Password);
}

#[test]
fn login_texts_hide_password() {
    let mut l = empty_login();
    l.username = "amy".to_string();
    l.password = "secret".to_string();
    assert_eq!(
        render_login_text(&l),
        ("amy|".to_string(), "******".to_string(), String::new())
    );
    l.focused = FocusField::Password;
    l.status = Some("Connection timed out".to_string());
    assert_eq!(
        render_login_text(&l),
        ("amy".to_string(), "******|".to_string(), "Connection timed out".to_string())
    );
    l.password = "é".to_string();
    assert_eq!(render_login_text(&l).1, "**|");
}

#[test]
fn user_data_is_padded_and_cut() {
    let d = pack_user_data(b"{\"a\":1}");
    assert_eq!(d.len(), USER_DATA_LEN);
    assert_eq!(&d[..7], b"{\"a\":1}");
    assert!(d[7..].iter().all(|b| *b == 0));
    let long = vec![7u8; 300];
    let d = pack_user_data(&long);
    assert_eq!(d, vec![7u8; 256]);
}

#[test]
fn credentials_copy_fields() {
    let mut l = empty_login();
    l.username = "kindy".to_string();
    l.password = "pw".to_string();
    let c = credentials_of(&l);
    assert_eq!(c.username, "kindy");
    assert_eq!(c.password, "pw");
}

#[test]
fn client_id_is_nanoseconds() {
    assert_eq!(client_id_from_time(2, 5), 2_000_000_005);
    assert_eq!(client_id_from_time(0, 999_999_999), 999_999_999);
}

#[test]
fn connection_timeout_and_loss() {
    let mut st = ConnectionState { printed_connected: false };
    let mut l = empty_login();
    l.connect_requested = true;
    assert!(!check_connection(false, false, &mut st, &mut l));
    assert!(l.connect_requested);
    assert!(check_connection(true, false, &mut st, &mut l));
    assert_eq!(l.status.as_deref(), Some("Connection timed out"));
    assert!(!l.connect_requested);

    let mut st = ConnectionState { printed_connected: false };
    let mut l = empty_login();
    assert!(!check_connection(true, true, &mut st, &mut l));
    assert!(st.printed_connected);
    assert!(check_connection(false, false, &mut st, &mut l));
    assert_eq!(l.status.as_deref(), Some("Disconnected (auth failed or server closed)"));
}

#[test]
fn movement_axes_from_keys() {
    let mut k = MoveKeys::default();
    assert_eq!(movement_axes(&k), (0, 0));
    k.w = true;
    k.right = true;
    assert_eq!(movement_axes(&k), (1, 1));
    k.up = true;
    k.s = true;
    k.a = true;
    assert_eq!(movement_axes(&k), (0, 0));
    let k = MoveKeys { down: true, left: true, ..MoveKeys::default() };
    assert_eq!(movement_axes(&k), (-1, -1));
}

#[test]
fn client_runs_login_then_game() {
    let mut c = new_client();
    assert_eq!(c.game, GameState::Login);
    let frame = |keys: Vec<LoginKey>| ClientFrame {
        just_pressed: keys,
        connect_timer_finished: false,
        connected: false,
    };
    assert!(matches!(run_client(&mut c, &frame(vec![LoginKey::A])), ClientAction::Stay));
    run_client(&mut c, &frame(vec![LoginKey::Tab]));
    run_client(&mut c, &frame(vec![LoginKey::B]));
    match run_client(&mut c, &frame(vec![LoginKey::Enter])) {
        ClientAction::Connect(creds) => {
            assert_eq!(creds.username, "a");
            assert_eq!(creds.password, "b");
        }
        other => panic!("expected a connection, got {:?}", other),
    }
    assert_eq!(c.game, GameState::InGame);
    let connected = ClientFrame { just_pressed: vec![], connect_timer_finished: false, connected: true };
    assert!(matches!(run_client(&mut c, &connected), ClientAction::Stay));
    let lost = ClientFrame { just_pressed: vec![], connect_timer_finished: false, connected: false };
    assert!(matches!(run_client(&mut c, &lost), ClientAction::Disconnect));
    assert_eq!(c.game, GameState::Login);
    assert!(!c.login.connect_requested);
    assert_eq!(c.login.username, "a");
}

#[test]
fn input_sent_only_with_a_direction() {
    assert_eq!(client_send_input(&MoveKeys::default()), None);
    let k = MoveKeys { a: true, d: true, ..MoveKeys::default() };
    assert_eq!(client_send_input(&k), None);
    let k = MoveKeys { up: true, d: true, ..MoveKeys::default() };
    assert_eq!(client_send_input(&k), Some((1, 1)));
}

#[test]
fn connect_only_when_requested() {
    let mut l = empty_login();
    l.username = "u".to_string();
    l.password = "p".to_string();
    assert!(handle_connect(&l).is_none());
    l.connect_requested = true;
    let c = handle_connect(&l).unwrap();
    assert_eq!((c.username.as_str(), c.password.as_str()), ("u", "p"));
}
