//! Definitions shared by the game server, the game client and the platform.
use vstd::prelude::*;

verus! {

/// UDP port of the game server.
pub const PORT: u16 = 5000;

/// Protocol identifier of the game transport.
pub const PROTOCOL_ID: u64 = 123456;

/// TCP port of the login platform.
pub const PLATFORM_PORT: u16 = 3001;

/// Default API key with which the game server authenticates to the platform.
pub const PLATFORM_API_KEY: &'static str = "super-secret-platform-api-key";

/// Host of the login platform.
pub const PLATFORM_HOST: &'static str = "127.0.0.1";

/// Hit points of a fresh or respawned player.
pub const MAX_HP: u8 = 3;

/// Most bullets one player may have in flight.
pub const MAX_BULLETS_PER_PLAYER: usize = 5;

/// Points awarded for a kill.
pub const KILL_SCORE: u32 = 10;

/// Identity of a player: the bits of its client entity.
#[derive(Clone, Copy, Debug, PartialEq, Eq)]
pub struct PlayerId(pub u64);

/// Points collected by a player.
#[derive(Clone, Copy, Debug, PartialEq, Eq, Default)]
pub struct Score(pub u32);

/// Remaining hit points of a player.
#[derive(Clone, Copy, Debug, PartialEq, Eq)]
pub struct Health(pub u8);

/// Marks a player that is dead and waiting to respawn.
#[derive(Clone, Copy, Debug, PartialEq, Eq)]
pub struct Dead;

/// Number of players that connected so far; picks each new player's colour.
#[derive(Clone, Copy, Debug, PartialEq, Eq, Default)]
pub struct PlayerCount(pub u32);

/// Display name of a player.
#[derive(Clone, Debug, PartialEq, Eq)]
pub struct PlayerName(pub String);

/// Request to fire a bullet.
#[derive(Clone, Copy, Debug, PartialEq, Eq)]
pub struct ShootInput(pub u8);

/// Credentials a player submits.
#[derive(Clone, Debug, PartialEq, Eq)]
pub struct AuthCredentials {
    pub username: String,
    pub password: String,
}

/// The platform's answer to a login.
#[derive(Clone, Debug, PartialEq, Eq)]
pub struct AuthResponse {
    pub success: bool,
    pub username: String,
    pub message: String,
    pub token: String,
}

/// Request to extend a session.
#[derive(Clone, Debug, PartialEq, Eq)]
pub struct RenewRequest {
    pub token: String,
}

/// The platform's answer to a session renewal.
#[derive(Clone, Debug, PartialEq, Eq)]
pub struct RenewResponse {
    pub success: bool,
    pub message: String,
}

/// Whether an entity is drawn.
#[derive(Clone, Copy, Debug, PartialEq, Eq, Structural)]
pub enum Visibility {
    Inherited,
    Hidden,
    Visible,
}

/// What the drawing of an entity depends on.
#[derive(Clone, Copy, Debug, PartialEq, Eq, Structural)]
pub struct Shown {
    /// The entity is a player.
    pub is_player: bool,
    /// The entity is marked dead.
    pub dead: bool,
    pub visibility: Visibility,
}

/// The visibility an entity gets: the dead are hidden, living players follow
/// their parent, and everything else keeps its own.
pub open spec fn visibility_after(e: Shown) -> Visibility {
    if e.dead {
        Visibility::Hidden
    } else if e.is_player {
        Visibility::Inherited
    } else {
        e.visibility
    }
}

/// Hides the dead and shows the living players.
pub fn update_visibility(entities: &mut Vec<Shown>)
    ensures
        final(entities)@.len() == old(entities)@.len(),
        forall|i: int|
            0 <= i < old(entities)@.len() ==> #[trigger] final(entities)@[i] == (Shown {
                visibility: visibility_after(old(entities)@[i]),
                ..old(entities)@[i]
            }),
{
    let n = entities.len();
    let mut i: usize = 0;
    while i < n
        invariant
            n == old(entities)@.len(),
            entities@.len() == n,
            i <= n,
            forall|j: int|
                0 <= j < i ==> #[trigger] entities@[j] == (Shown {
                    visibility: visibility_after(old(entities)@[j]),
                    ..old(entities)@[j]
                }),
            forall|j: int| i <= j < n ==> #[trigger] entities@[j] == old(entities)@[j],
        decreases n - i,
    {
        let e = entities[i];
        if e.dead {
            if e.visibility != Visibility::Hidden {
                entities.set(i, Shown { visibility: Visibility::Hidden, ..e });
            }
        } else if e.is_player {
            if e.visibility != Visibility::Inherited {
                entities.set(i, Shown { visibility: Visibility::Inherited, ..e });
            }
        }
        i = i + 1;
    }
}

} // verus!
