//! The client's login screen: typing credentials, the texts it shows, the
//! credentials packed into the connection request, and the watch over the
//! connection once in game.
use vstd::prelude::*;

use crate::shared::AuthCredentials;
use crate::text::{push_char, repeat_char};

verus! {

/// The keys the login screen reacts to.
#[derive(Clone, Copy, Debug, PartialEq, Eq, Structural)]
pub enum LoginKey {
    A,
    B,
    C,
    D,
    E,
    F,
    G,
    H,
    I,
    J,
    K,
    L,
    M,
    N,
    O,
    P,
    Q,
    R,
    S,
    T,
    U,
    V,
    W,
    X,
    Y,
    Z,
    Digit0,
    Digit1,
    Digit2,
    Digit3,
    Digit4,
    Digit5,
    Digit6,
    Digit7,
    Digit8,
    Digit9,
    Space,
    Tab,
    Backspace,
    Enter,
}

/// The character a key types, if it types one.
pub open spec fn key_char(k: LoginKey) -> Option<char> {
    match k {
        LoginKey::A => Some('a'),
        LoginKey::B => Some('b'),
        LoginKey::C => Some('c'),
        LoginKey::D => Some('d'),
        LoginKey::E => Some('e'),
        LoginKey::F => Some('f'),
        LoginKey::G => Some('g'),
        LoginKey::H => Some('h'),
        LoginKey::I => Some('i'),
        LoginKey::J => Some('j'),
        LoginKey::K => Some('k'),
        LoginKey::L => Some('l'),
        LoginKey::M => Some('m'),
        LoginKey::N => Some('n'),
        LoginKey::O => Some('o'),
        LoginKey::P => Some('p'),
        LoginKey::Q => Some('q'),
        LoginKey::R => Some('r'),
        LoginKey::S => Some('s'),
        LoginKey::T => Some('t'),
        LoginKey::U => Some('u'),
        LoginKey::V => Some('v'),
        LoginKey::W => Some('w'),
        LoginKey::X => Some('x'),
        LoginKey::Y => Some('y'),
        LoginKey::Z => Some('z'),
        LoginKey::Digit0 => Some('0'),
        LoginKey::Digit1 => Some('1'),
        LoginKey::Digit2 => Some('2'),
        LoginKey::Digit3 => Some('3'),
        LoginKey::Digit4 => Some('4'),
        LoginKey::Digit5 => Some('5'),
        LoginKey::Digit6 => Some('6'),
        LoginKey::Digit7 => Some('7'),
        LoginKey::Digit8 => Some('8'),
        LoginKey::Digit9 => Some('9'),
        LoginKey::Space => Some(' '),
        _ => None,
    }
}

/// The order in which the login screen looks at the typing keys.
pub open spec fn typing_key(i: int) -> LoginKey {
    if i == 0 {
        LoginKey::A
    } else if i == 1 {
        LoginKey::B
    } else if i == 2 {
        LoginKey::C
    } else if i == 3 {
        LoginKey::D
    } else if i == 4 {
        LoginKey::E
    } else if i == 5 {
        LoginKey::F
    } else if i == 6 {
        LoginKey::G
    } else if i == 7 {
        LoginKey::H
    } else if i == 8 {
        LoginKey::I
    } else if i == 9 {
        LoginKey::J
    } else if i == 10 {
        LoginKey::K
    } else if i == 11 {
        LoginKey::L
    } else if i == 12 {
        LoginKey::M
    } else if i == 13 {
        LoginKey::N
    } else if i == 14 {
        LoginKey::O
    } else if i == 15 {
        LoginKey::P
    } else if i == 16 {
        LoginKey::Q
    } else if i == 17 {
        LoginKey::R
    } else if i == 18 {
        LoginKey::S
    } else if i == 19 {
        LoginKey::T
    } else if i == 20 {
        LoginKey::U
    } else if i == 21 {
        LoginKey::V
    } else if i == 22 {
        LoginKey::W
    } else if i == 23 {
        LoginKey::X
    } else if i == 24 {
        LoginKey::Y
    } else if i == 25 {
        LoginKey::Z
    } else if i == 26 {
        LoginKey::Digit0
    } else if i == 27 {
        LoginKey::Digit1
    } else if i == 28 {
        LoginKey::Digit2
    } else if i == 29 {
        LoginKey::Digit3
    } else if i == 30 {
        LoginKey::Digit4
    } else if i == 31 {
        LoginKey::Digit5
    } else if i == 32 {
        LoginKey::Digit6
    } else if i == 33 {
        LoginKey::Digit7
    } else if i == 34 {
        LoginKey::Digit8
    } else if i == 35 {
        LoginKey::Digit9
    } else {
        LoginKey::Space
    }
}

/// Returns the character a key types, if it types one.
pub fn char_for_key(key: LoginKey) -> (c: Option<char>)
    ensures
        c == key_char(key),
{
    match key {
        LoginKey::A => Some('a'),
        LoginKey::B => Some('b'),
        LoginKey::C => Some('c'),
        LoginKey::D => Some('d'),
        LoginKey::E => Some('e'),
        LoginKey::F => Some('f'),
        LoginKey::G => Some('g'),
        LoginKey::H => Some('h'),
        LoginKey::I => Some('i'),
        LoginKey::J => Some('j'),
        LoginKey::K => Some('k'),
        LoginKey::L => Some('l'),
        LoginKey::M => Some('m'),
        LoginKey::N => Some('n'),
        LoginKey::O => Some('o'),
        LoginKey::P => Some('p'),
        LoginKey::Q => Some('q'),
        LoginKey::R => Some('r'),
        LoginKey::S => Some('s'),
        LoginKey::T => Some('t'),
        LoginKey::U => Some('u'),
        LoginKey::V => Some('v'),
        LoginKey::W => Some('w'),
        LoginKey::X => Some('x'),
        LoginKey::Y => Some('y'),
        LoginKey::Z => Some('z'),
        LoginKey::Digit0 => Some('0'),
        LoginKey::Digit1 => Some('1'),
        LoginKey::Digit2 => Some('2'),
        LoginKey::Digit3 => Some('3'),
        LoginKey::Digit4 => Some('4'),
        LoginKey::Digit5 => Some('5'),
        LoginKey::Digit6 => Some('6'),
        LoginKey::Digit7 => Some('7'),
        LoginKey::Digit8 => Some('8'),
        LoginKey::Digit9 => Some('9'),
        LoginKey::Space => Some(' '),
        _ => None,
    }
}

/// The `i`-th key in the order the login screen looks at typing keys.
fn typing_key_at(i: usize) -> (k: LoginKey)
    requires
        i < TYPING_KEYS,
    ensures
        k == typing_key(i as int),
{
    match i {
        0 => LoginKey::A,
        1 => LoginKey::B,
        2 => LoginKey::C,
        3 => LoginKey::D,
        4 => LoginKey::E,
        5 => LoginKey::F,
        6 => LoginKey::G,
        7 => LoginKey::H,
        8 => LoginKey::I,
        9 => LoginKey::J,
        10 => LoginKey::K,
        11 => LoginKey::L,
        12 => LoginKey::M,
        13 => LoginKey::N,
        14 => LoginKey::O,
        15 => LoginKey::P,
        16 => LoginKey::Q,
        17 => LoginKey::R,
        18 => LoginKey::S,
        19 => LoginKey::T,
        20 => LoginKey::U,
        21 => LoginKey::V,
        22 => LoginKey::W,
        23 => LoginKey::X,
        24 => LoginKey::Y,
        25 => LoginKey::Z,
        26 => LoginKey::Digit0,
        27 => LoginKey::Digit1,
        28 => LoginKey::Digit2,
        29 => LoginKey::Digit3,
        30 => LoginKey::Digit4,
        31 => LoginKey::Digit5,
        32 => LoginKey::Digit6,
        33 => LoginKey::Digit7,
        34 => LoginKey::Digit8,
        35 => LoginKey::Digit9,
        _ => LoginKey::Space,
    }
}

/// Number of typing keys: 26 letters, 10 digits and the space bar.
pub const TYPING_KEYS: usize = 37;

/// Whether a key was pressed this frame.
pub open spec fn pressed(keys: Seq<LoginKey>, k: LoginKey) -> bool {
    keys.contains(k)
}

/// The characters typed by the first `n` typing keys, in the order the
/// screen looks at them.
pub open spec fn typed_upto(keys: Seq<LoginKey>, n: int) -> Seq<char>
    decreases n,
{
    if n <= 0 {
        Seq::empty()
    } else {
        typed_upto(keys, n - 1) + if pressed(keys, typing_key(n - 1)) {
            seq![key_char(typing_key(n - 1))->0]
        } else {
            Seq::<char>::empty()
        }
    }
}

/// The characters typed this frame.
pub open spec fn typed(keys: Seq<LoginKey>) -> Seq<char> {
    typed_upto(keys, TYPING_KEYS as int)
}

/// Which field receives the typing.
#[derive(Clone, Copy, Debug, PartialEq, Eq, Structural)]
pub enum FocusField {
    Username,
    Password,
}

/// Whether the client is on the login screen or in the game.
#[derive(Clone, Copy, Debug, PartialEq, Eq, Structural)]
pub enum GameState {
    Login,
    InGame,
}

/// What the login screen holds.
#[derive(Debug)]
pub struct LoginData {
    pub username: String,
    pub password: String,
    pub focused: FocusField,
    pub status: Option<String>,
    pub connect_requested: bool,
}

/// The view of the login screen's data.
pub struct LoginView {
    pub username: Seq<char>,
    pub password: Seq<char>,
    pub focused: FocusField,
    pub status: Option<Seq<char>>,
    pub connect_requested: bool,
}

/// The view of an optional string.
pub open spec fn opt_string(o: Option<String>) -> Option<Seq<char>> {
    match o {
        Some(s) => Some(s@),
        None => None,
    }
}

/// The view of the login screen's data.
pub open spec fn login_view(d: LoginData) -> LoginView {
    LoginView {
        username: d.username@,
        password: d.password@,
        focused: d.focused,
        status: opt_string(d.status),
        connect_requested: d.connect_requested,
    }
}

/// A text with its last character removed, if it has one.
pub open spec fn without_last(s: Seq<char>) -> Seq<char> {
    if s.len() > 0 {
        s.drop_last()
    } else {
        s
    }
}

/// One frame of input on the login screen. Nothing changes once a
/// connection is requested. Otherwise Tab switches the field, Backspace
/// deletes in the focused field, Enter requests the connection when both
/// fields are filled, and else the typed characters go to the focused field.
/// Each of these clears the status message, except Enter, which sets it.
pub open spec fn login_input_step(v: LoginView, keys: Seq<LoginKey>) -> LoginView {
    if v.connect_requested {
        v
    } else if pressed(keys, LoginKey::Tab) {
        LoginView {
            username: v.username,
            password: v.password,
            focused: match v.focused {
                FocusField::Username => FocusField::Password,
                FocusField::Password => FocusField::Username,
            },
            status: None,
            connect_requested: false,
        }
    } else if pressed(keys, LoginKey::Backspace) {
        LoginView {
            username: if v.focused == FocusField::Username {
                without_last(v.username)
            } else {
                v.username
            },
            password: if v.focused == FocusField::Password {
                without_last(v.password)
            } else {
                v.password
            },
            focused: v.focused,
            status: None,
            connect_requested: false,
        }
    } else if pressed(keys, LoginKey::Enter) {
        if v.username.len() == 0 || v.password.len() == 0 {
            LoginView {
                username: v.username,
                password: v.password,
                focused: v.focused,
                status: Some("Enter username and password"@),
                connect_requested: false,
            }
        } else {
            LoginView {
                username: v.username,
                password: v.password,
                focused: v.focused,
                status: Some("Connecting..."@),
                connect_requested: true,
            }
        }
    } else if typed(keys).len() == 0 {
        v
    } else {
        LoginView {
            username: if v.focused == FocusField::Username {
                v.username + typed(keys)
            } else {
                v.username
            },
            password: if v.focused == FocusField::Password {
                v.password + typed(keys)
            } else {
                v.password
            },
            focused: v.focused,
            status: None,
            connect_requested: false,
        }
    }
}

/// Whether a key is among this frame's pressed keys.
fn is_pressed(keys: &Vec<LoginKey>, k: LoginKey) -> (b: bool)
    ensures
        b == pressed(keys@, k),
{
    let n = keys.len();
    let mut i: usize = 0;
    while i < n
        invariant
            n == keys@.len(),
            i <= n,
            forall|j: int| 0 <= j < i ==> keys@[j] != k,
        decreases n - i,
    {
        if keys[i] == k {
            assert(keys@[i as int] == k);
            return true;
        }
        i = i + 1;
    }
    false
}

/// Removes the last character of a string, if it has one.
fn pop_last(s: &mut String)
    ensures
        final(s)@ == without_last(old(s)@),
{
    let n = s.as_str().unicode_len();
    if n > 0 {
        let shorter = String::from_str(s.as_str().substring_char(0, n - 1));
        *s = shorter;
        assert(s@ =~= without_last(old(s)@));
    }
}

/// Collects the characters typed this frame.
fn typed_chars(keys: &Vec<LoginKey>) -> (t: String)
    ensures
        t@ == typed(keys@),
{
    let mut t = String::new();
    let mut i: usize = 0;
    while i < TYPING_KEYS
        invariant
            i <= TYPING_KEYS,
            t@ == typed_upto(keys@, i as int),
        decreases TYPING_KEYS - i,
    {
        let k = typing_key_at(i);
        if is_pressed(keys, k) {
            match char_for_key(k) {
                Some(c) => push_char(&mut t, c),
                None => {},
            }
        }
        proof {
            assert(key_char(typing_key(i as int)) is Some);
        }
        i = i + 1;
        assert(t@ =~= typed_upto(keys@, i as int));
    }
    t
}

/// Handles one frame of keyboard input on the login screen.
pub fn handle_login_input(login: &mut LoginData, just_pressed: &Vec<LoginKey>)
    ensures
        login_view(*final(login)) == login_input_step(login_view(*old(login)), just_pressed@),
{
    if login.connect_requested {
        return;
    }
    if is_pressed(just_pressed, LoginKey::Tab) {
        login.focused = match login.focused {
            FocusField::Username => FocusField::Password,
            FocusField::Password => FocusField::Username,
        };
        login.status = None;
        return;
    }
    if is_pressed(just_pressed, LoginKey::Backspace) {
        login.status = None;
        match login.focused {
            FocusField::Username => pop_last(&mut login.username),
            FocusField::Password => pop_last(&mut login.password),
        }
        return;
    }
    if is_pressed(just_pressed, LoginKey::Enter) {
        if login.username.as_str().is_empty() || login.password.as_str().is_empty() {
            login.status = Some(String::from_str("Enter username and password"));
        } else {
            login.connect_requested = true;
            login.status = Some(String::from_str("Connecting..."));
        }
        return;
    }
    let t = typed_chars(just_pressed);
    if !t.as_str().is_empty() {
        login.status = None;
        match login.focused {
            FocusField::Username => login.username.append(t.as_str()),
            FocusField::Password => login.password.append(t.as_str()),
        }
    }
}

/// The user name as shown: with a cursor bar when its field has focus.
pub open spec fn username_display_of(v: LoginView) -> Seq<char> {
    if v.focused == FocusField::Username {
        v.username.push('|')
    } else {
        v.username
    }
}

/// The password as shown: one star per byte of its UTF-8 text, with a
/// cursor bar when its field has focus.
pub open spec fn password_display_of(v: LoginView) -> Seq<char> {
    let stars = Seq::new(vstd::utf8::encode_utf8(v.password).len(), |_i: int| '*');
    if v.focused == FocusField::Password {
        stars.push('|')
    } else {
        stars
    }
}

/// The status line as shown: the message, or nothing.
pub open spec fn status_display_of(v: LoginView) -> Seq<char> {
    match v.status {
        Some(s) => s,
        None => Seq::empty(),
    }
}

/// The three changing texts of the login screen: user name, password and
/// status line.
pub fn render_login_text(login: &LoginData) -> (texts: (String, String, String))
    ensures
        texts.0@ == username_display_of(login_view(*login)),
        texts.1@ == password_display_of(login_view(*login)),
        texts.2@ == status_display_of(login_view(*login)),
{
    let mut user = login.username.clone();
    if login.focused == FocusField::Username {
        push_char(&mut user, '|');
    }
    let nbytes = login.password.as_str().as_bytes().len();
    let mut pass = repeat_char('*', nbytes);
    proof {
        assert(nbytes == vstd::utf8::encode_utf8(login.password@).len());
        assert(pass@ =~= Seq::new(vstd::utf8::encode_utf8(login.password@).len(), |_i: int| '*'));
    }
    if login.focused == FocusField::Password {
        push_char(&mut pass, '|');
    }
    let status = match &login.status {
        Some(s) => s.clone(),
        None => String::new(),
    };
    (user, pass, status)
}

/// Pressing Tab twice brings focus back to the field it started on, and
/// leaves both fields as they were.
pub proof fn lemma_tab_twice_restores(v: LoginView, keys: Seq<LoginKey>)
    requires
        !v.connect_requested,
        pressed(keys, LoginKey::Tab),
    ensures
        ({
            let w = login_input_step(login_input_step(v, keys), keys);
            &&& w.focused == v.focused
            &&& w.username == v.username
            &&& w.password == v.password
            &&& !w.connect_requested
        }),
{
}

/// Typing one character and then pressing Backspace gives back the fields
/// as they were.
pub proof fn lemma_backspace_undoes_typing(v: LoginView, keys: Seq<LoginKey>, back: Seq<LoginKey>)
    requires
        !v.connect_requested,
        !pressed(keys, LoginKey::Tab),
        !pressed(keys, LoginKey::Backspace),
        !pressed(keys, LoginKey::Enter),
        typed(keys).len() == 1,
        !pressed(back, LoginKey::Tab),
        pressed(back, LoginKey::Backspace),
    ensures
        ({
            let w = login_input_step(login_input_step(v, keys), back);
            &&& w.focused == v.focused
            &&& w.username == v.username
            &&& w.password == v.password
        }),
{
    let t = typed(keys);
    assert((v.username + t).drop_last() =~= v.username);
    assert((v.password + t).drop_last() =~= v.password);
}

/// A connection is only ever requested from a screen whose two fields are
/// both filled, by pressing Enter; once requested, no input changes the
/// screen.
pub proof fn lemma_connect_needs_both_fields(v: LoginView, keys: Seq<LoginKey>)
    ensures
        !v.connect_requested && login_input_step(v, keys).connect_requested ==> {
            &&& pressed(keys, LoginKey::Enter)
            &&& v.username.len() > 0
            &&& v.password.len() > 0
        },
        v.connect_requested ==> login_input_step(v, keys) == v,
{
}

/// The password field never shows the password: every character shown is a
/// star, but for the cursor bar at the end when the field has focus.
pub proof fn lemma_password_never_shown(v: LoginView)
    ensures
        forall|i: int|
            0 <= i < password_display_of(v).len() ==> #[trigger] password_display_of(v)[i] == '*'
                || (password_display_of(v)[i] == '|' && i == password_display_of(v).len() - 1
                && v.focused == FocusField::Password),
{
}

/// Size of the user data block of a connection request.
pub const USER_DATA_LEN: usize = 256;

/// The user data block: the serialized credentials, cut at 256 bytes and
/// padded with zeros.
pub open spec fn user_data_of(bytes: Seq<u8>) -> Seq<u8> {
    Seq::new(
        USER_DATA_LEN as nat,
        |i: int|
            if i < bytes.len() {
                bytes[i]
            } else {
                0u8
            },
    )
}

/// Packs the serialized credentials into the user data block of a
/// connection request.
pub fn pack_user_data(bytes: &[u8]) -> (data: Vec<u8>)
    ensures
        data@ == user_data_of(bytes@),
{
    let mut data: Vec<u8> = Vec::new();
    let mut i: usize = 0;
    while i < USER_DATA_LEN
        invariant
            i <= USER_DATA_LEN,
            data@.len() == i,
            forall|j: int| 0 <= j < i ==> #[trigger] data@[j] == user_data_of(bytes@)[j],
        decreases USER_DATA_LEN - i,
    {
        if i < bytes.len() {
            data.push(bytes[i]);
        } else {
            data.push(0u8);
        }
        i = i + 1;
    }
    assert(data@ =~= user_data_of(bytes@));
    data
}

/// The credentials a connection request carries.
pub fn credentials_of(login: &LoginData) -> (creds: AuthCredentials)
    ensures
        creds.username@ == login.username@,
        creds.password@ == login.password@,
{
    AuthCredentials { username: login.username.clone(), password: login.password.clone() }
}

/// Starts the connection the login screen requested: the credentials the
/// connection request carries, or nothing while no connection is requested.
pub fn handle_connect(login: &LoginData) -> (creds: Option<AuthCredentials>)
    ensures
        creds.is_some() == login.connect_requested,
        creds matches Some(c) ==> c.username@ == login.username@ && c.password@ == login.password@,
{
    if login.connect_requested {
        Some(credentials_of(login))
    } else {
        None
    }
}

/// The client id of a connection: the clock reading in nanoseconds.
pub open spec fn client_id_of(secs: u64, subsec_nanos: u32) -> int {
    subsec_nanos + secs * 1_000_000_000
}

/// Derives the client id of a connection from the clock reading.
pub fn client_id_from_time(secs: u64, subsec_nanos: u32) -> (id: u64)
    requires
        client_id_of(secs, subsec_nanos) <= u64::MAX,
    ensures
        id == client_id_of(secs, subsec_nanos),
{
    subsec_nanos as u64 + secs * 1_000_000_000
}

/// What the client remembers about its connection.
#[derive(Clone, Copy, Debug, PartialEq, Eq, Default)]
pub struct ConnectionState {
    pub printed_connected: bool,
}

/// One check of the connection while in game, after the connect timer has
/// been advanced. The first time the transport is connected it is noted.
/// The client gives up when the timer ran out before any connection, or
/// when an established connection is lost; then the login screen tells why
/// and may request a connection again. Returns whether to disconnect.
pub fn check_connection(
    timer_finished: bool,
    connected: bool,
    state: &mut ConnectionState,
    login: &mut LoginData,
) -> (disconnect: bool)
    ensures
        final(state).printed_connected == (old(state).printed_connected || connected),
        disconnect == (!connected && (timer_finished || old(state).printed_connected)),
        disconnect ==> {
            &&& final(login).username == old(login).username
            &&& final(login).password == old(login).password
            &&& final(login).focused == old(login).focused
            &&& !final(login).connect_requested
            &&& opt_string(final(login).status) == Some(
                if old(state).printed_connected {
                    "Disconnected (auth failed or server closed)"@
                } else {
                    "Connection timed out"@
                },
            )
        },
        !disconnect ==> *final(login) == *old(login),
{
    if connected && !state.printed_connected {
        state.printed_connected = true;
    }
    let should_disconnect = (timer_finished && !connected) || (state.printed_connected && !connected);
    if should_disconnect {
        if state.printed_connected {
            login.status = Some(String::from_str("Disconnected (auth failed or server closed)"));
        } else {
            login.status = Some(String::from_str("Connection timed out"));
        }
        login.connect_requested = false;
    }
    should_disconnect
}

/// Which movement keys are held.
#[derive(Clone, Copy, Debug, PartialEq, Eq, Default)]
pub struct MoveKeys {
    pub w: bool,
    pub s: bool,
    pub a: bool,
    pub d: bool,
    pub up: bool,
    pub down: bool,
    pub left: bool,
    pub right: bool,
}

/// The unnormalised movement direction: up and right count positive.
pub open spec fn axes_of(k: MoveKeys) -> (int, int) {
    (
        (if k.d || k.right {
            1int
        } else {
            0int
        }) - (if k.a || k.left {
            1int
        } else {
            0int
        }),
        (if k.w || k.up {
            1int
        } else {
            0int
        }) - (if k.s || k.down {
            1int
        } else {
            0int
        }),
    )
}

/// Reads the movement direction from the held keys: W/S or up/down for the
/// vertical axis, A/D or left/right for the horizontal one.
pub fn movement_axes(keys: &MoveKeys) -> (axes: (i8, i8))
    ensures
        axes.0 == axes_of(*keys).0,
        axes.1 == axes_of(*keys).1,
{
    let mut dx: i8 = 0;
    let mut dy: i8 = 0;
    if keys.w || keys.up {
        dy = dy + 1;
    }
    if keys.s || keys.down {
        dy = dy - 1;
    }
    if keys.a || keys.left {
        dx = dx - 1;
    }
    if keys.d || keys.right {
        dx = dx + 1;
    }
    (dx, dy)
}

/// The movement a client sends this frame: the direction of the held keys,
/// or nothing when the keys give no direction.
pub fn client_send_input(keys: &MoveKeys) -> (input: Option<(i8, i8)>)
    ensures
        match input {
            Some(a) => a.0 == axes_of(*keys).0 && a.1 == axes_of(*keys).1 && (a.0 != 0 || a.1 != 0),
            None => axes_of(*keys).0 == 0 && axes_of(*keys).1 == 0,
        },
{
    let (dx, dy) = movement_axes(keys);
    if dx != 0 || dy != 0 {
        Some((dx, dy))
    } else {
        None
    }
}

} // verus!
