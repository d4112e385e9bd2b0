//! Settings read from the environment: ports, the cache folder, the API token
//! and switches.
use vstd::prelude::*;

use crate::deps::{lowercase, to_lowercase};
use crate::text::{parse_unsigned, parse_usize, trim, trim_str};

verus! {

/// The default port of the engine's stream server.
pub const DEFAULT_STREAM_PORT: u16 = 9527;

/// The default port of the API.
pub const DEFAULT_API_PORT: u16 = 9528;

/// The default cache folder.
pub const DEFAULT_CACHE_DIR: &'static str = "/root/bt_cache";

/// The port given by an environment variable: its value read as a `u16`, or
/// `default` when it is unset or not a number in range.
pub open spec fn env_port(value: Option<Seq<char>>, default: u16) -> u16 {
    match value {
        Some(v) => match parse_unsigned(v, u16::MAX as nat) {
            Some(n) => n as u16,
            None => default,
        },
        None => default,
    }
}

/// Reads a `u16` setting, falling back to `default`.
pub fn env_u16_value(value: Option<&str>, default: u16) -> (r: u16)
    ensures
        r == env_port(
            match value {
                Some(v) => Some(v@),
                None => None,
            },
            default,
        ),
{
    match value {
        Some(v) => match parse_usize(v) {
            Some(n) => {
                if n <= 65535 {
                    n as u16
                } else {
                    default
                }
            },
            None => default,
        },
        None => default,
    }
}

/// A lower-cased, trimmed setting that means "on".
pub open spec fn is_on_word(v: Seq<char>) -> bool {
    v == "1"@ || v == "true"@ || v == "yes"@ || v == "on"@
}

/// A switch given by an environment variable: on when its trimmed, lower-cased
/// value is `1`, `true`, `yes` or `on`, off for any other value, `default` when unset.
pub open spec fn env_switch(value: Option<Seq<char>>, default: bool) -> bool {
    match value {
        Some(v) => is_on_word(lowercase(trim(v))),
        None => default,
    }
}

fn same_text(a: &str, b: &str) -> (r: bool)
    ensures
        r == (a@ == b@),
{
    let av = crate::text::chars_of(a);
    let bv = crate::text::chars_of(b);
    if av.len() != bv.len() {
        return false;
    }
    let r = crate::text::occurs_at_exec(&av, &bv, 0);
    assert(av@.subrange(0, bv@.len() as int) =~= av@);
    r
}

/// Whether the lower-cased, trimmed value `v` means "on".
pub fn is_on_value(v: &str) -> (r: bool)
    ensures
        r == is_on_word(v@),
{
    same_text(v, "1") || same_text(v, "true") || same_text(v, "yes") || same_text(v, "on")
}

/// Reads a switch setting, falling back to `default`.
pub fn env_bool_value(value: Option<&str>, default: bool) -> (r: bool)
    ensures
        r == env_switch(
            match value {
                Some(v) => Some(v@),
                None => None,
            },
            default,
        ),
{
    match value {
        Some(v) => {
            let lower = to_lowercase(trim_str(v));
            is_on_value(lower.as_str())
        },
        None => default,
    }
}

/// The API token setting: its trimmed value, or none when unset or blank.
pub fn api_token_value(value: Option<&str>) -> (r: Option<String>)
    ensures
        match value {
            Some(v) => if trim(v@).len() > 0 {
                r matches Some(t) && t@ == trim(v@)
            } else {
                r is None
            },
            None => r is None,
        },
{
    match value {
        Some(v) => {
            let t = trim_str(v);
            if t.unicode_len() > 0 {
                Some(String::from_str(t))
            } else {
                None
            }
        },
        None => None,
    }
}

} // verus!
