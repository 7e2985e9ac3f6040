//! The cache slots the application owns, one per kind of fetched resource,
//! each with its own time-to-live.
use crate::cache::Cache;
use crate::lastfm::{Album, Artist, Track, UserStats};
use vstd::prelude::*;

verus! {

/// Milliseconds per minute.
pub const MINUTE_MILLIS: u64 = 60000;

/// Milliseconds per hour.
pub const HOUR_MILLIS: u64 = 3600000;

/// The music-profile caches: one slot per widget.
pub struct LastfmCache {
    pub now_playing: Cache<Option<Track>>,
    pub top_artists: Cache<Vec<Artist>>,
    pub top_tracks: Cache<Vec<Track>>,
    pub top_albums: Cache<Vec<Album>>,
    pub user_stats: Cache<UserStats>,
}

impl LastfmCache {
    /// The slots with their lifetimes: a minute for the now-playing line,
    /// sixty hours for top artists, an hour for top tracks and albums, five
    /// minutes for the listening totals.
    pub fn new() -> (r: Self)
        ensures
            r.now_playing.spec_ttl() == MINUTE_MILLIS,
            r.top_artists.spec_ttl() == 60 * HOUR_MILLIS,
            r.top_tracks.spec_ttl() == HOUR_MILLIS,
            r.top_albums.spec_ttl() == HOUR_MILLIS,
            r.user_stats.spec_ttl() == 5 * MINUTE_MILLIS,
    {
        LastfmCache {
            now_playing: Cache::new(MINUTE_MILLIS),
            top_artists: Cache::new(60 * HOUR_MILLIS),
            top_tracks: Cache::new(HOUR_MILLIS),
            top_albums: Cache::new(HOUR_MILLIS),
            user_stats: Cache::new(5 * MINUTE_MILLIS),
        }
    }
}

/// The weather cache.
pub struct WttrCache {
    pub weather: Cache<String>,
}

impl WttrCache {
    /// One slot, refreshed at most every fifteen minutes.
    pub fn new() -> (r: Self)
        ensures
            r.weather.spec_ttl() == 15 * MINUTE_MILLIS,
    {
        WttrCache { weather: Cache::new(15 * MINUTE_MILLIS) }
    }
}

} // verus!
