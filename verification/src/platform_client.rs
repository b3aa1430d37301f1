//! What the game server decides when it talks to the login platform: the
//! request line and header it sends, how it reads the answers, and when it
//! retries the start-up key check.
use vstd::prelude::*;

use crate::platform::{bearer_prefix, bearer_token, KeyVerifyResponse};
use crate::shared::{AuthResponse, RenewResponse, PLATFORM_HOST, PLATFORM_PORT};
use crate::text::{joined, decimal, decimal_string};

verus! {

/// The `Authorization` header value that carries an API key.
pub open spec fn auth_header_of(api_key: Seq<char>) -> Seq<char> {
    bearer_prefix() + api_key
}

/// Builds the `Authorization` header value for an API key.
pub fn auth_header(api_key: &str) -> (h: String)
    ensures
        h@ == auth_header_of(api_key@),
{
    let prefix = "Bearer ";
    proof {
        reveal_strlit("Bearer ");
        assert(prefix@ =~= bearer_prefix());
    }
    joined(prefix, api_key)
}

/// The address of a platform endpoint.
pub open spec fn platform_url_of(path: Seq<char>) -> Seq<char> {
    "https://"@ + PLATFORM_HOST@ + ":"@ + decimal(PLATFORM_PORT as nat) + path
}

/// Builds the address of a platform endpoint.
pub fn platform_url(path: &str) -> (url: String)
    ensures
        url@ == platform_url_of(path@),
{
    let mut url = joined("https://", PLATFORM_HOST);
    url.append(":");
    let port = decimal_string(PLATFORM_PORT as u64);
    url.append(port.as_str());
    url.append(path);
    url
}

/// Reads the platform's answer to the start-up key check.
pub fn key_verify_outcome(resp: KeyVerifyResponse) -> (r: Result<(), String>)
    ensures
        resp.valid ==> r is Ok,
        !resp.valid ==> r == Err::<(), String>(resp.message),
{
    if resp.valid {
        Ok(())
    } else {
        Err(resp.message)
    }
}

/// Reads the platform's answer to a login: the user name and session token,
/// or the platform's message.
pub fn credentials_outcome(resp: AuthResponse) -> (r: Result<(String, String), String>)
    ensures
        resp.success ==> r == Ok::<(String, String), String>((resp.username, resp.token)),
        !resp.success ==> r == Err::<(String, String), String>(resp.message),
{
    if resp.success {
        Ok((resp.username, resp.token))
    } else {
        Err(resp.message)
    }
}

/// Reads the platform's answer to a session renewal.
pub fn renew_outcome(resp: RenewResponse) -> (r: Result<(), String>)
    ensures
        resp.success ==> r is Ok,
        !resp.success ==> r == Err::<(), String>(resp.message),
{
    if resp.success {
        Ok(())
    } else {
        Err(resp.message)
    }
}

/// What the start-up key check does after one attempt.
#[derive(Debug, PartialEq, Eq)]
pub enum RetryStep {
    /// The key was accepted.
    Verified,
    /// Wait a second, then make attempt number `next`.
    RetryAfterPause { next: u32 },
    /// Give up with the last error.
    GiveUp(String),
}

/// Decides what follows attempt number `attempt` (counted from 1) of at most
/// `max_retries`, given how that attempt went.
pub fn retry_decision(attempt: u32, max_retries: u32, outcome: Result<(), String>) -> (step: RetryStep)
    requires
        1 <= attempt <= max_retries,
    ensures
        outcome is Ok ==> step == RetryStep::Verified,
        outcome is Err && attempt < max_retries ==> step == (RetryStep::RetryAfterPause {
            next: (attempt + 1) as u32,
        }),
        outcome is Err && attempt == max_retries ==> step == RetryStep::GiveUp(outcome->Err_0),
{
    match outcome {
        Ok(()) => RetryStep::Verified,
        Err(msg) => if attempt < max_retries {
            RetryStep::RetryAfterPause { next: attempt + 1 }
        } else {
            RetryStep::GiveUp(msg)
        },
    }
}

/// Where the game server takes the local certificate authority that signs
/// the platform's certificate from.
#[derive(Debug, PartialEq, Eq)]
pub enum CaSource {
    /// The file named by the `MKCERT_CA` environment variable.
    Explicit,
    /// `mkcert/rootCA.pem` under `LOCALAPPDATA`.
    LocalAppData,
    /// `.local/share/mkcert/rootCA.pem` under `HOME`.
    HomeShare,
    /// `Library/Application Support/mkcert/rootCA.pem` under `HOME`.
    HomeLibrary,
    /// None of them: only the system's roots are trusted.
    NotFound,
}

/// Picks the certificate authority file: the explicitly named one if there
/// is one, else the first of the usual places whose file exists. Each flag
/// says whether that place is given and its file exists.
pub fn mkcert_ca_source(
    explicit_set: bool,
    local_app_data_exists: bool,
    home_share_exists: bool,
    home_library_exists: bool,
) -> (source: CaSource)
    ensures
        source == if explicit_set {
            CaSource::Explicit
        } else if local_app_data_exists {
            CaSource::LocalAppData
        } else if home_share_exists {
            CaSource::HomeShare
        } else if home_library_exists {
            CaSource::HomeLibrary
        } else {
            CaSource::NotFound
        },
{
    if explicit_set {
        CaSource::Explicit
    } else if local_app_data_exists {
        CaSource::LocalAppData
    } else if home_share_exists {
        CaSource::HomeShare
    } else if home_library_exists {
        CaSource::HomeLibrary
    } else {
        CaSource::NotFound
    }
}

/// The key a game server sends is the key the platform reads back from the
/// header: `Bearer ` followed by the key, whatever the key holds.
pub proof fn lemma_auth_header_round_trip(api_key: Seq<char>)
    ensures
        bearer_token(Some(auth_header_of(api_key))) == Some(api_key),
{
    let h = auth_header_of(api_key);
    assert(h.subrange(0, 7) =~= bearer_prefix());
    assert(h.subrange(7, h.len() as int) =~= api_key);
}

} // verus!
