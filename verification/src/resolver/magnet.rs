//! Magnet links, and bare 40-digit BitTorrent info hashes, which are turned
//! into magnet links.
use vstd::prelude::*;
use vstd::utf8::{encode_utf8, is_ascii_chars, is_ascii_chars_encode_utf8};

use crate::layer::{LinkTier, SourceResolver, TierView};
use crate::text::{chars_of, starts_with, str_starts_with, trim, trim_str};

verus! {

/// The resolver for magnet links; the torrent engine does the resolving.
pub struct MagnetResolver;

impl MagnetResolver {
    pub fn new() -> Self {
        MagnetResolver
    }
}

/// `char::is_ascii_hexdigit`.
pub open spec fn is_hex_digit(c: char) -> bool {
    ||| '0' <= c <= '9'
    ||| 'a' <= c <= 'f'
    ||| 'A' <= c <= 'F'
}

/// A (trimmed) link that is a magnet link, or a bare info hash: 40 bytes, all
/// hexadecimal digits.
pub open spec fn is_magnet_input(t: Seq<char>) -> bool {
    ||| starts_with(t, "magnet:"@)
    ||| encode_utf8(t).len() == 40 && forall|i: int| 0 <= i < t.len() ==> is_hex_digit(#[trigger] t[i])
}

/// The magnet link to resolve for a user's input: the input itself when it is
/// a magnet link, else the input taken as an info hash.
pub open spec fn magnet_link_for(input: Seq<char>) -> Seq<char> {
    let t = trim(input);
    if starts_with(t, "magnet:"@) {
        t
    } else {
        "magnet:?xt=urn:btih:"@ + t
    }
}

impl SourceResolver for MagnetResolver {
    open spec fn accepts(&self, input: Seq<char>) -> bool {
        is_magnet_input(trim(input))
    }

    fn can_handle(&self, input: &str) -> (b: bool) {
        let trimmed = trim_str(input);
        if str_starts_with(trimmed, "magnet:") {
            return true;
        }
        let v = chars_of(trimmed);
        let mut i: usize = 0;
        while i < v.len()
            invariant
                i <= v@.len(),
                v@ == trimmed@,
                trimmed@ == trim(input@),
                !starts_with(trimmed@, "magnet:"@),
                forall|k: int| 0 <= k < i ==> is_hex_digit(#[trigger] v@[k]),
            decreases v@.len() - i,
        {
            let c = v[i];
            if !(('0' <= c && c <= '9') || ('a' <= c && c <= 'f') || ('A' <= c && c <= 'F')) {
                assert(!is_hex_digit(trimmed@[i as int]));
                return false;
            }
            i += 1;
        }
        proof {
            assert(is_ascii_chars(v@));
            is_ascii_chars_encode_utf8(v@);
        }
        v.len() == 40
    }
}

/// The magnet link to hand to the torrent engine for `input`.
pub fn magnet_uri(input: &str) -> (r: String)
    ensures
        r@ == magnet_link_for(input@),
        starts_with(r@, "magnet:"@),
{
    proof {
        reveal_strlit("magnet:");
        reveal_strlit("magnet:?xt=urn:btih:");
    }
    let trimmed = trim_str(input);
    if str_starts_with(trimmed, "magnet:") {
        String::from_str(trimmed)
    } else {
        let r = String::from_str("magnet:?xt=urn:btih:").concat(trimmed);
        assert(r@.subrange(0, 7) =~= "magnet:"@);
        r
    }
}

/// What resolving a magnet link answers once the torrent engine has added it:
/// the stream of the torrent's first file, played without extra headers; the
/// engine's error is reported as a resolving failure.
pub open spec fn magnet_tier_view(added: Result<(Seq<char>, usize), Seq<char>>) -> Result<
    TierView,
    Seq<char>,
> {
    match added {
        Ok((stream_url, _)) => Ok(TierView::ReadyToPlay { stream_url, headers: Seq::empty() }),
        Err(e) => Err("磁链解析失败: "@ + e),
    }
}

/// The tier for a magnet link, given what the engine answered when adding it
/// (the stream address and torrent id, or its error).
pub fn magnet_tier(added: Result<(String, usize), String>) -> (r: Result<LinkTier, String>)
    ensures
        match magnet_tier_view(
            match added {
                Ok((u, id)) => Ok((u@, id)),
                Err(e) => Err(e@),
            },
        ) {
            Ok(t) => r matches Ok(tier) && tier@ == t,
            Err(e) => r matches Err(s) && s@ == e,
        },
{
    match added {
        Ok((stream_url, _id)) => {
            let headers: Vec<(String, String)> = Vec::new();
            assert(headers.deep_view() =~= Seq::<(Seq<char>, Seq<char>)>::empty());
            Ok(LinkTier::ReadyToPlay { stream_url, headers })
        },
        Err(e) => Err(String::from_str("磁链解析失败: ").concat(e.as_str())),
    }
}

} // verus!
