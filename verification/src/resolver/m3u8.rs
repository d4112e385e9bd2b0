//! HLS links: anything that names an `.m3u8` playlist is played as it is.
use vstd::prelude::*;

use crate::deps::{lowercase, to_lowercase};
use crate::layer::{LinkTier, SourceResolver, TierView};
use crate::text::{ends_with, has_substring, str_contains, str_ends_with, trim, trim_str};

verus! {

/// The resolver for HLS (`.m3u8`) links.
pub struct M3u8Resolver;

/// The lower-cased link names an HLS playlist.
pub open spec fn is_m3u8_link(lower: Seq<char>) -> bool {
    has_substring(lower, ".m3u8"@) || ends_with(lower, "m3u8"@)
}

/// Whether the lower-cased link `lower` names an HLS playlist.
pub fn looks_like_m3u8(lower: &str) -> (b: bool)
    ensures
        b == is_m3u8_link(lower@),
{
    str_contains(lower, ".m3u8") || str_ends_with(lower, "m3u8")
}

impl SourceResolver for M3u8Resolver {
    open spec fn accepts(&self, input: Seq<char>) -> bool {
        is_m3u8_link(lowercase(trim(input)))
    }

    fn can_handle(&self, input: &str) -> (b: bool) {
        let lower = to_lowercase(trim_str(input));
        looks_like_m3u8(lower.as_str())
    }
}

impl M3u8Resolver {
    /// An HLS link is ready to play as it is (without surrounding whitespace).
    pub fn resolve(&self, input: &str) -> (r: Result<LinkTier, String>)
        ensures
            r matches Ok(tier) && tier@ == (TierView::ReadyToPlay {
                stream_url: trim(input@),
                headers: Seq::empty(),
            }),
    {
        let headers: Vec<(String, String)> = Vec::new();
        assert(headers.deep_view() =~= Seq::<(Seq<char>, Seq<char>)>::empty());
        let tier = LinkTier::ReadyToPlay { stream_url: String::from_str(trim_str(input)), headers };
        Ok(tier)
    }
}

} // verus!
