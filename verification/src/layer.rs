//! The types shared between the layers: the tiers of a resolved link and the
//! interface every source resolver offers.
use vstd::prelude::*;

verus! {

/// What a resolver found for a link.
#[derive(Debug)]
pub enum LinkTier {
    /// A source that can be played directly, with the HTTP headers (such as
    /// `Referer`) that playing it needs.
    ReadyToPlay { stream_url: String, headers: Vec<(String, String)> },
    /// A source that has to be cached or downloaded before it can be played.
    NeedsCache { source_url: String, estimated_size: u64 },
    /// A link that can only be downloaded.
    DownloadOnly { download_url: String },
    /// No source exists, or it has expired.
    NotFound { reason: String },
}

/// The mathematical value of a [`LinkTier`].
pub enum TierView {
    ReadyToPlay { stream_url: Seq<char>, headers: Seq<(Seq<char>, Seq<char>)> },
    NeedsCache { source_url: Seq<char>, estimated_size: u64 },
    DownloadOnly { download_url: Seq<char> },
    NotFound { reason: Seq<char> },
}

impl View for LinkTier {
    type V = TierView;

    open spec fn view(&self) -> TierView {
        match self {
            LinkTier::ReadyToPlay { stream_url, headers } => TierView::ReadyToPlay {
                stream_url: stream_url@,
                headers: headers.deep_view(),
            },
            LinkTier::NeedsCache { source_url, estimated_size } => TierView::NeedsCache {
                source_url: source_url@,
                estimated_size: *estimated_size,
            },
            LinkTier::DownloadOnly { download_url } => TierView::DownloadOnly {
                download_url: download_url@,
            },
            LinkTier::NotFound { reason } => TierView::NotFound { reason: reason@ },
        }
    }
}

/// The mathematical value of a resolver's answer.
pub open spec fn outcome_view(o: Result<LinkTier, String>) -> Result<TierView, Seq<char>> {
    match o {
        Ok(t) => Ok(t@),
        Err(e) => Err(e@),
    }
}

/// A source resolver: it tells which links it handles.
pub trait SourceResolver {
    /// The links (as written by the user) that this resolver handles.
    spec fn accepts(&self, input: Seq<char>) -> bool;

    /// Whether this resolver handles `input`.
    fn can_handle(&self, input: &str) -> (b: bool)
        ensures
            b == self.accepts(input@),
    ;
}

} // verus!
