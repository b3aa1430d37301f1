//! The game server's `.env` file: where its platform API key comes from when
//! the environment does not give one.
use vstd::prelude::*;

use crate::shared::PLATFORM_API_KEY;
use crate::text::{push_char, same_text, chars_of};

verus! {

/// The key whose line gives the API key.
pub const ENV_KEY_NAME: &'static str = "PLATFORM_API_KEY";

/// Whether a character is white space, as Unicode's `White_Space` property
/// (and `char::is_whitespace`) has it.
pub open spec fn is_white_space(c: char) -> bool {
    let n = c as u32;
    ||| 0x9 <= n <= 0xd
    ||| n == 0x20
    ||| n == 0x85
    ||| n == 0xa0
    ||| n == 0x1680
    ||| 0x2000 <= n <= 0x200a
    ||| n == 0x2028
    ||| n == 0x2029
    ||| n == 0x202f
    ||| n == 0x205f
    ||| n == 0x3000
}

/// A text without its leading white space.
pub open spec fn trim_start(s: Seq<char>) -> Seq<char>
    decreases s.len(),
{
    if s.len() > 0 && is_white_space(s[0]) {
        trim_start(s.drop_first())
    } else {
        s
    }
}

/// A text without its trailing white space.
pub open spec fn trim_end(s: Seq<char>) -> Seq<char>
    decreases s.len(),
{
    if s.len() > 0 && is_white_space(s.last()) {
        trim_end(s.drop_last())
    } else {
        s
    }
}

/// A text without white space at either end.
pub open spec fn trim(s: Seq<char>) -> Seq<char> {
    trim_end(trim_start(s))
}

/// The position of the first `c` in `s` at or after `j`, or the length of
/// `s` when there is none.
pub open spec fn position_from(s: Seq<char>, c: char, j: int) -> int
    decreases s.len() - j,
{
    if j < 0 || j >= s.len() {
        s.len() as int
    } else if s[j] == c {
        j
    } else {
        position_from(s, c, j + 1)
    }
}

/// What one line of the file says of the API key: a line that is not blank
/// and not a comment, of the form `key = value`, whose key is
/// `PLATFORM_API_KEY`, gives its value; other lines give nothing.
pub open spec fn line_value(line: Seq<char>) -> Option<Seq<char>> {
    let t = trim(line);
    let eq = position_from(t, '=', 0);
    if t.len() == 0 || t[0] == '#' || eq == t.len() {
        None
    } else if trim(t.subrange(0, eq)) == ENV_KEY_NAME@ {
        Some(trim(t.subrange(eq + 1, t.len() as int)))
    } else {
        None
    }
}

/// Reading the file from the line that starts at `start`, with the
/// characters before `j` of that line already passed: the value given by the
/// first line that gives one.
pub open spec fn env_scan(s: Seq<char>, start: int, j: int) -> Option<Seq<char>>
    decreases s.len() - j,
{
    if j < 0 || j >= s.len() {
        line_value(s.subrange(start, s.len() as int))
    } else if s[j] == '\n' {
        match line_value(s.subrange(start, j)) {
            Some(v) => Some(v),
            None => env_scan(s, j + 1, j + 1),
        }
    } else {
        env_scan(s, start, j + 1)
    }
}

/// The API key that a `.env` file gives: the value of its first line that
/// sets `PLATFORM_API_KEY`, lines being split at line feeds.
pub open spec fn env_value(s: Seq<char>) -> Option<Seq<char>> {
    env_scan(s, 0, 0)
}

/// The API key the server uses when the environment gives none: the one the
/// `.env` file gives, if it could be read and gives one, else the built-in
/// key.
pub open spec fn env_api_key(contents: Option<Seq<char>>) -> Seq<char> {
    match contents {
        Some(c) => match env_value(c) {
            Some(v) => v,
            None => PLATFORM_API_KEY@,
        },
        None => PLATFORM_API_KEY@,
    }
}

/// Whether a character is white space.
fn white_space(c: char) -> (b: bool)
    ensures
        b == is_white_space(c),
{
    let n = c as u32;
    (0x9 <= n && n <= 0xd) || n == 0x20 || n == 0x85 || n == 0xa0 || n == 0x1680 || (0x2000 <= n
        && n <= 0x200a) || n == 0x2028 || n == 0x2029 || n == 0x202f || n == 0x205f || n == 0x3000
}

/// The bounds of the trimmed part of `cs[lo..hi]`.
fn trim_range(cs: &Vec<char>, lo: usize, hi: usize) -> (r: (usize, usize))
    requires
        lo <= hi <= cs@.len(),
    ensures
        lo <= r.0 <= r.1 <= hi,
        cs@.subrange(r.0 as int, r.1 as int) == trim(cs@.subrange(lo as int, hi as int)),
{
    let mut a = lo;
    while a < hi && white_space(cs[a])
        invariant
            lo <= a <= hi <= cs@.len(),
            trim_start(cs@.subrange(lo as int, hi as int)) == trim_start(
                cs@.subrange(a as int, hi as int),
            ),
        decreases hi - a,
    {
        assert(cs@.subrange(a as int, hi as int).drop_first() =~= cs@.subrange(a + 1, hi as int));
        a = a + 1;
    }
    assert(trim_start(cs@.subrange(a as int, hi as int)) == cs@.subrange(a as int, hi as int));
    let mut b = hi;
    while b > a && white_space(cs[b - 1])
        invariant
            lo <= a <= b <= hi <= cs@.len(),
            trim_end(cs@.subrange(a as int, hi as int)) == trim_end(cs@.subrange(a as int, b as int)),
        decreases b - a,
    {
        assert(cs@.subrange(a as int, b as int).drop_last() =~= cs@.subrange(a as int, b - 1));
        b = b - 1;
    }
    (a, b)
}

/// The text of `cs[lo..hi]`.
fn text_of(cs: &Vec<char>, lo: usize, hi: usize) -> (s: String)
    requires
        lo <= hi <= cs@.len(),
    ensures
        s@ == cs@.subrange(lo as int, hi as int),
{
    let mut s = String::new();
    let mut i = lo;
    while i < hi
        invariant
            lo <= i <= hi <= cs@.len(),
            s@ == cs@.subrange(lo as int, i as int),
        decreases hi - i,
    {
        push_char(&mut s, cs[i]);
        i = i + 1;
        assert(s@ =~= cs@.subrange(lo as int, i as int));
    }
    s
}

/// What the line `cs[lo..hi]` says of the API key.
fn line_value_of(cs: &Vec<char>, lo: usize, hi: usize) -> (r: Option<String>)
    requires
        lo <= hi <= cs@.len(),
    ensures
        match r {
            Some(v) => line_value(cs@.subrange(lo as int, hi as int)) == Some(v@),
            None => line_value(cs@.subrange(lo as int, hi as int)) is None,
        },
{
    let ghost line = cs@.subrange(lo as int, hi as int);
    let (a, b) = trim_range(cs, lo, hi);
    let ghost t = cs@.subrange(a as int, b as int);
    if a == b || cs[a] == '#' {
        return None;
    }
    let mut k = a;
    while k < b && cs[k] != '='
        invariant
            a <= k <= b <= cs@.len(),
            t == cs@.subrange(a as int, b as int),
            position_from(t, '=', 0) == position_from(t, '=', k - a),
        decreases b - k,
    {
        k = k + 1;
    }
    assert(position_from(t, '=', k - a) == k - a);
    if k == b {
        return None;
    }
    let (ka, kb) = trim_range(cs, a, k);
    assert(t.subrange(0, k - a) =~= cs@.subrange(a as int, k as int));
    let key = text_of(cs, ka, kb);
    if !same_text(key.as_str(), ENV_KEY_NAME) {
        return None;
    }
    let (va, vb) = trim_range(cs, k + 1, b);
    assert(t.subrange(k - a + 1, t.len() as int) =~= cs@.subrange(k + 1, b as int));
    Some(text_of(cs, va, vb))
}

/// The API key a `.env` file's text gives, if it gives one.
fn env_value_of(contents: &str) -> (r: Option<String>)
    ensures
        match r {
            Some(v) => env_value(contents@) == Some(v@),
            None => env_value(contents@) is None,
        },
{
    let cs = chars_of(contents);
    let n = cs.len();
    let mut start: usize = 0;
    let mut j: usize = 0;
    while j < n
        invariant
            n == cs@.len(),
            cs@ == contents@,
            start <= j <= n,
            env_value(contents@) == env_scan(cs@, start as int, j as int),
        decreases n - j,
    {
        if cs[j] == '\n' {
            let r = line_value_of(&cs, start, j);
            if r.is_some() {
                return r;
            }
            start = j + 1;
        }
        j = j + 1;
    }
    line_value_of(&cs, start, n)
}

/// The API key the server uses when the environment gives none, from the
/// text of its `.env` file (`None` when the file could not be read): the
/// value of the first line `PLATFORM_API_KEY = value`, white space around
/// key and value trimmed and blank and `#` lines skipped; else the built-in
/// key.
pub fn load_env(contents: Option<&str>) -> (key: String)
    ensures
        key@ == env_api_key(
            match contents {
                Some(c) => Some(c@),
                None => None,
            },
        ),
{
    match contents {
        Some(c) => match env_value_of(c) {
            Some(v) => v,
            None => String::from_str(PLATFORM_API_KEY),
        },
        None => String::from_str(PLATFORM_API_KEY),
    }
}

} // verus!
