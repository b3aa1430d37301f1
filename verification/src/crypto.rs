//! Password hashing and session tokens for the login platform.
use sha2::Digest;
use vstd::prelude::*;

use crate::text::push_char;

verus! {

/// The SHA-256 digest of a byte string, as the `sha2` crate computes it.
pub uninterp spec fn sha256(data: Seq<u8>) -> Seq<u8>;

/// Lower-case hexadecimal digit of a nibble.
pub open spec fn hex_digit(n: u8) -> char {
    if n < 10 {
        (n + 48) as char
    } else {
        (n + 87) as char
    }
}

/// Lower-case hexadecimal text of a byte string: two digits per byte, high nibble first.
pub open spec fn hex_lower(data: Seq<u8>) -> Seq<char>
    decreases data.len(),
{
    if data.len() == 0 {
        Seq::empty()
    } else {
        seq![hex_digit(data[0] / 16), hex_digit(data[0] % 16)] + hex_lower(data.drop_first())
    }
}

/// Hex text has two digits per byte.
proof fn lemma_hex_len(data: Seq<u8>)
    ensures
        hex_lower(data).len() == 2 * data.len(),
    decreases data.len(),
{
    if data.len() > 0 {
        lemma_hex_len(data.drop_first());
    }
}

/// The stored form of a password: the lower-case hex text of the SHA-256
/// digest of its UTF-8 bytes.
pub open spec fn password_hash_of(password: Seq<char>) -> Seq<char> {
    hex_lower(sha256(vstd::utf8::encode_utf8(password)))
}

/// SHA-256 of `data` through `sha2::Sha256` (`new`, `update`, `finalize`).
/// The contract names the digest `sha256(data)` and states its documented
/// length of 32 bytes; the digest function itself is not modelled.
#[verifier::external_body]
fn sha256_digest(data: &[u8]) -> (digest: Vec<u8>)
    ensures
        digest@ == sha256(data@),
        digest@.len() == 32,
{
    let mut hasher = sha2::Sha256::new();
    hasher.update(data);
    hasher.finalize().to_vec()
}

/// `hex::encode`: each byte becomes two lower-case hex digits, high nibble
/// first, in order (the crate maps bytes through the table "0123456789abcdef").
#[verifier::external_body]
fn hex_encode(data: &[u8]) -> (text: String)
    ensures
        text@ == hex_lower(data@),
{
    hex::encode(data)
}

/// A uniformly random `u32` from `rand::random`. Nothing is promised of the
/// value: it comes from the thread-local generator.
#[verifier::external_body]
fn random_u32() -> u32 {
    rand::random::<u32>()
}

/// Hashes a password (or a user name, for the seeded accounts) for storage.
pub fn hash_password(password: &str) -> (hash: String)
    ensures
        hash@ == password_hash_of(password@),
        hash@.len() == 64,
{
    let digest = sha256_digest(password.as_bytes());
    proof {
        lemma_hex_len(digest@);
    }
    hex_encode(digest.as_slice())
}

/// Number of characters in a session token.
pub const TOKEN_LEN: usize = 32;

/// The token alphabet in order: `A`-`Z`, `a`-`z`, `0`-`9`.
pub open spec fn token_alphabet(i: int) -> char {
    if i < 26 {
        (i + 65) as char
    } else if i < 52 {
        (i - 26 + 97) as char
    } else {
        (i - 52 + 48) as char
    }
}

/// Whether a character belongs to the token alphabet.
pub open spec fn is_token_char(c: char) -> bool {
    ('A' <= c <= 'Z') || ('a' <= c <= 'z') || ('0' <= c <= '9')
}

/// The `i`-th character of the token alphabet.
fn alphabet_char(i: u32) -> (c: char)
    requires
        i < 62,
    ensures
        c == token_alphabet(i as int),
        is_token_char(c),
{
    if i < 26 {
        ((i as u8) + 65u8) as char
    } else if i < 52 {
        ((i as u8) - 26u8 + 97u8) as char
    } else {
        ((i as u8) - 52u8 + 48u8) as char
    }
}

/// The token that a sequence of random draws spells: each draw picks the
/// character at its remainder modulo 62 in the token alphabet.
pub open spec fn token_of_draws(draws: Seq<u32>) -> Seq<char> {
    Seq::new(draws.len(), |i: int| token_alphabet((draws[i] % 62) as int))
}

/// Spells a token from random draws, one character per draw.
pub fn token_from_draws(draws: &Vec<u32>) -> (token: String)
    ensures
        token@ == token_of_draws(draws@),
        forall|i: int| 0 <= i < token@.len() ==> is_token_char(#[trigger] token@[i]),
{
    let mut token = String::new();
    let n = draws.len();
    let mut k: usize = 0;
    while k < n
        invariant
            n == draws@.len(),
            k <= n,
            token@ == token_of_draws(draws@.subrange(0, k as int)),
            forall|i: int| 0 <= i < token@.len() ==> is_token_char(#[trigger] token@[i]),
        decreases n - k,
    {
        push_char(&mut token, alphabet_char(draws[k] % 62));
        k = k + 1;
        assert(token@ =~= token_of_draws(draws@.subrange(0, k as int)));
    }
    assert(draws@.subrange(0, n as int) =~= draws@);
    token
}

/// A fresh random session token: 32 characters from the token alphabet,
/// each picked by a draw of `rand::random`.
pub fn generate_token() -> (token: String)
    ensures
        token@.len() == TOKEN_LEN,
        forall|i: int| 0 <= i < token@.len() ==> is_token_char(#[trigger] token@[i]),
{
    let mut draws: Vec<u32> = Vec::new();
    let mut n: usize = 0;
    while n < TOKEN_LEN
        invariant
            n <= TOKEN_LEN,
            draws@.len() == n,
        decreases TOKEN_LEN - n,
    {
        draws.push(random_u32());
        n = n + 1;
    }
    token_from_draws(&draws)
}

} // verus!
