//! The logic of a BitTorrent / HLS / web-video player service: resolving the
//! links users paste, choosing which file to play, serving byte ranges,
//! checking API access, and flagging files that look like ads.
pub mod ai_strategy;
pub mod api;
pub mod config;
pub mod db;
pub mod deps;
pub mod engine;
pub mod layer;
pub mod resolver;
pub mod text;
