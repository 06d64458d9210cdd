//! The records that the gateway passes around: videos, live streams,
//! users, and what is kept of a viewer's history and subscriptions.

use vstd::prelude::*;

verus! {

/// Where the gateway listens, as shown to the user.
#[derive(Debug, Clone, PartialEq, Eq)]
pub struct ServerInfo {
    pub ip: String,
    pub port: u16,
    pub url: String,
    pub qrcode: String,
}

/// A channel.
#[derive(Debug, Clone, PartialEq, Eq)]
pub struct UserInfo {
    pub id: String,
    pub login: String,
    pub display_name: String,
    pub profile_image_url: String,
}

/// The game of a video.
#[derive(Debug, Clone, PartialEq, Eq)]
pub struct VodGame {
    pub name: String,
}

/// The channel that owns a video.
#[derive(Debug, Clone, PartialEq, Eq)]
pub struct VodOwner {
    pub login: String,
    pub display_name: String,
    pub profile_image_url: String,
}

/// A video on demand, as the platform describes it.
#[derive(Debug, Clone, PartialEq, Eq)]
pub struct Vod {
    pub id: String,
    pub title: String,
    pub length_seconds: u64,
    pub preview_thumbnail_url: String,
    /// The creation time, as `YYYY-MM-DDTHH:MM:SSZ`.
    pub created_at: String,
    pub view_count: u64,
    pub language: Option<String>,
    pub game: Option<VodGame>,
    pub owner: Option<VodOwner>,
}

/// The game of a live stream.
#[derive(Debug, Clone, PartialEq, Eq)]
pub struct LiveGame {
    pub id: Option<String>,
    pub name: String,
    pub box_art_url: Option<String>,
}

/// The channel of a live stream.
#[derive(Debug, Clone, PartialEq, Eq)]
pub struct LiveBroadcaster {
    pub id: String,
    pub login: String,
    pub display_name: String,
    pub profile_image_url: String,
}

/// A live stream.
#[derive(Debug, Clone, PartialEq, Eq)]
pub struct LiveStream {
    pub id: String,
    pub title: String,
    pub preview_image_url: String,
    pub viewer_count: u64,
    pub language: Option<String>,
    pub started_at: String,
    pub broadcaster: LiveBroadcaster,
    pub game: Option<LiveGame>,
}

/// One page of live streams.
#[derive(Debug, Clone, PartialEq, Eq)]
pub struct LiveStreamsPage {
    pub items: Vec<LiveStream>,
    pub next_cursor: Option<String>,
    pub has_more: bool,
}

/// A video on the watch list.
#[derive(Debug, Clone, PartialEq, Eq)]
pub struct WatchlistEntry {
    pub vod_id: String,
    pub title: String,
    pub preview_thumbnail_url: String,
    pub length_seconds: u64,
    /// When the entry was added, in milliseconds from the epoch.
    pub added_at: u64,
}

/// A subscription.
#[derive(Debug, Clone, PartialEq, Eq)]
pub struct SubEntry {
    /// The channel's login, in lower case.
    pub login: String,
    pub display_name: String,
    pub profile_image_url: String,
}

/// The viewer's settings.
#[derive(Debug, Clone, PartialEq, Eq)]
pub struct ExperienceSettings {
    pub one_sync: bool,
}

impl Default for ExperienceSettings {
    fn default() -> (s: Self)
        ensures
            !s.one_sync,
    {
        ExperienceSettings { one_sync: false }
    }
}

/// How far a video was watched, in whole seconds, and when.
#[derive(Debug, Clone, PartialEq, Eq)]
pub struct HistoryStamp {
    pub vod_id: String,
    /// The position reached, in whole seconds.
    pub timecode: i64,
    /// The length of the video, in whole seconds; zero when unknown.
    pub duration: i64,
    /// The time of the last update, in milliseconds from the epoch.
    pub updated_at: u64,
}

} // verus!
