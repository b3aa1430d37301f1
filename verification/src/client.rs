//! The game client's decisions, frame by frame: the login screen until a
//! connection is requested, then the watch over the connection.
use vstd::prelude::*;

use crate::login::{
    check_connection, handle_connect, handle_login_input, login_input_step, login_view, opt_string,
    ConnectionState, GameState, LoginData, LoginKey,
};
use crate::shared::AuthCredentials;

verus! {

/// What the client keeps between frames.
#[derive(Debug)]
pub struct ClientState {
    pub game: GameState,
    pub login: LoginData,
    pub connection: ConnectionState,
}

/// What happened outside the client since the last frame.
#[derive(Debug)]
pub struct ClientFrame {
    /// Keys pressed this frame.
    pub just_pressed: Vec<LoginKey>,
    /// The connect timer has run out.
    pub connect_timer_finished: bool,
    /// The transport is connected.
    pub connected: bool,
}

/// What the client must do after a frame.
#[derive(Debug)]
pub enum ClientAction {
    /// Nothing beyond drawing.
    Stay,
    /// Leave the login screen and connect to the game server with these
    /// credentials, restarting the connect timer.
    Connect(AuthCredentials),
    /// Drop the connection and show the login screen again.
    Disconnect,
}

/// A fresh client: on the login screen with empty fields.
pub fn new_client() -> (c: ClientState)
    ensures
        c.game == GameState::Login,
        c.login.username@.len() == 0,
        c.login.password@.len() == 0,
        c.login.focused == crate::login::FocusField::Username,
        c.login.status.is_none(),
        !c.login.connect_requested,
        !c.connection.printed_connected,
{
    ClientState {
        game: GameState::Login,
        login: LoginData {
            username: String::new(),
            password: String::new(),
            focused: crate::login::FocusField::Username,
            status: None,
            connect_requested: false,
        },
        connection: ConnectionState { printed_connected: false },
    }
}

/// One frame of the client. On the login screen the keys are handled, and a
/// requested connection is started: the client enters the game with a fresh
/// connection record. In the game the connection is checked, and a timed
/// out or lost connection sends the client back to the login screen.
pub fn run_client(state: &mut ClientState, frame: &ClientFrame) -> (action: ClientAction)
    ensures
        old(state).game == GameState::Login ==> {
            let v = login_input_step(login_view(old(state).login), frame.just_pressed@);
            &&& login_view(final(state).login) == v
            &&& if v.connect_requested {
                &&& final(state).game == GameState::InGame
                &&& !final(state).connection.printed_connected
                &&& action matches ClientAction::Connect(creds) && creds.username@ == v.username
                    && creds.password@ == v.password
            } else {
                &&& final(state).game == GameState::Login
                &&& final(state).connection == old(state).connection
                &&& action is Stay
            }
        },
        old(state).game == GameState::InGame ==> {
            let lost = !frame.connected && (frame.connect_timer_finished
                || old(state).connection.printed_connected);
            &&& final(state).connection.printed_connected == (old(state).connection.printed_connected
                || frame.connected)
            &&& if lost {
                &&& final(state).game == GameState::Login
                &&& action is Disconnect
                &&& final(state).login.username == old(state).login.username
                &&& final(state).login.password == old(state).login.password
                &&& final(state).login.focused == old(state).login.focused
                &&& !final(state).login.connect_requested
                &&& opt_string(final(state).login.status) == Some(
                    if old(state).connection.printed_connected {
                        "Disconnected (auth failed or server closed)"@
                    } else {
                        "Connection timed out"@
                    },
                )
            } else {
                &&& final(state).game == GameState::InGame
                &&& action is Stay
                &&& final(state).login == old(state).login
            }
        },
{
    match state.game {
        GameState::Login => {
            handle_login_input(&mut state.login, &frame.just_pressed);
            match handle_connect(&state.login) {
                Some(creds) => {
                    state.connection = ConnectionState { printed_connected: false };
                    state.game = GameState::InGame;
                    ClientAction::Connect(creds)
                },
                None => ClientAction::Stay,
            }
        },
        GameState::InGame => {
            if check_connection(
                frame.connect_timer_finished,
                frame.connected,
                &mut state.connection,
                &mut state.login,
            ) {
                state.game = GameState::Login;
                ClientAction::Disconnect
            } else {
                ClientAction::Stay
            }
        },
    }
}

} // verus!
