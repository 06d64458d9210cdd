//! Media-gateway core: a time-bounded cache, a registry of vetted proxy
//! targets, playlist generation and rewriting, and feed selection.

pub mod cache;
pub mod civil;
pub mod encoding;
pub mod feed;
pub mod gql;
pub mod listing;
pub mod live;
pub mod profile;
pub mod registry;
pub mod relay;
pub mod store;
pub mod text;
pub mod types;
pub mod vod;
