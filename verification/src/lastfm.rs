//! The music-profile data the widgets render — tracks, albums, artists and
//! listening totals — and the decisions taken while shaping API answers into
//! them: picking the largest image, reading playcounts that arrive as text,
//! choosing the currently playing track, and wording the now-playing line.
use crate::strutil::{all_digits, dec_value};
use vstd::prelude::*;
use vstd::string::StringSliceAdditionalSpecFns;

verus! {

/// One track, recent or top-listed.
pub struct Track {
    pub name: String,
    pub artist: String,
    pub url: String,
    pub image_url: Option<String>,
    pub is_playing: bool,
    pub playcount: Option<u64>,
}

/// One top-listed album.
pub struct Album {
    pub name: String,
    pub artist: String,
    pub url: String,
    pub image_url: Option<String>,
    pub playcount: u64,
}

/// One top-listed artist.
pub struct Artist {
    pub name: String,
    pub url: String,
    pub image_url: Option<String>,
    pub playcount: u64,
}

/// The listening totals of the profile page.
#[derive(PartialEq, Eq, Structural, Clone, Copy, Debug)]
pub struct UserStats {
    pub total_scrobbles: u64,
    pub total_artists: u64,
    pub total_albums: u64,
    pub total_tracks: u64,
}

fn clone_opt_string(o: &Option<String>) -> (r: Option<String>)
    ensures
        r == *o,
{
    match o {
        Some(s) => Some(s.clone()),
        None => None,
    }
}

impl Clone for Track {
    fn clone(&self) -> (r: Self)
        ensures
            r == *self,
    {
        Track {
            name: self.name.clone(),
            artist: self.artist.clone(),
            url: self.url.clone(),
            image_url: clone_opt_string(&self.image_url),
            is_playing: self.is_playing,
            playcount: self.playcount,
        }
    }
}

/// The playcount a listing reports: the counts arrive as text, and anything
/// that is not a plain whole number counts as zero. One leading plus sign
/// is tolerated, as number parsers commonly do.
pub open spec fn spec_playcount(b: Seq<u8>) -> u64 {
    let digits = if b.len() > 0 && b[0] == 43 {
        b.drop_first()
    } else {
        b
    };
    if digits.len() > 0 && all_digits(digits) && dec_value(digits) <= u64::MAX {
        dec_value(digits) as u64
    } else {
        0
    }
}

/// Reads a playcount out of the text an API answer carries it as.
pub fn parse_playcount(s: &str) -> (r: u64)
    ensures
        r == spec_playcount(s.spec_bytes()),
{
    let v = s.as_bytes();
    let digits = if v.len() > 0 && v[0] == 43 {
        proof {
            assert(v@.subrange(1, v@.len() as int) =~= v@.drop_first());
        }
        crate::identity::copy_range(v, 1, v.len())
    } else {
        proof {
            assert(v@.subrange(0, v@.len() as int) =~= v@);
        }
        crate::identity::copy_range(v, 0, v.len())
    };
    match crate::strutil::parse_u64_dec(digits.as_slice()) {
        Some(n) => n,
        None => 0,
    }
}

/// The image a listing shows: the last of the offered sizes, if any.
pub fn last_image(images: &Vec<String>) -> (r: Option<String>)
    ensures
        images@.len() == 0 ==> r is None,
        images@.len() > 0 ==> r == Some(images@.last()),
{
    if images.len() == 0 {
        None
    } else {
        Some(images[images.len() - 1].clone())
    }
}

/// Builds the listening totals from the four counts the profile queries
/// answer, each carried as text.
pub fn user_stats_from_totals(scrobbles: &str, artists: &str, albums: &str, tracks: &str) -> (r:
    UserStats)
    ensures
        r.total_scrobbles == spec_playcount(scrobbles.spec_bytes()),
        r.total_artists == spec_playcount(artists.spec_bytes()),
        r.total_albums == spec_playcount(albums.spec_bytes()),
        r.total_tracks == spec_playcount(tracks.spec_bytes()),
{
    UserStats {
        total_scrobbles: parse_playcount(scrobbles),
        total_artists: parse_playcount(artists),
        total_albums: parse_playcount(albums),
        total_tracks: parse_playcount(tracks),
    }
}

/// The currently playing track: the newest of the recent tracks, and only
/// while it is marked as playing.
pub fn now_playing_track(tracks: &Vec<Track>) -> (r: Option<Track>)
    ensures
        tracks@.len() == 0 ==> r is None,
        tracks@.len() > 0 && !tracks@[0].is_playing ==> r is None,
        tracks@.len() > 0 && tracks@[0].is_playing ==> r == Some(tracks@[0]),
{
    if tracks.len() == 0 {
        return None;
    }
    let first = &tracks[0];
    if first.is_playing {
        Some(first.clone())
    } else {
        None
    }
}

/// The line shown when nothing is playing.
pub open spec fn spec_nothing_playing() -> Seq<char> {
    "☹ Nothing playing right now ☹"@
}

/// The now-playing line for a track name and artist.
pub open spec fn spec_now_playing_line(name: Seq<char>, artist: Seq<char>) -> Seq<char> {
    "♫ Now Playing: "@ + name + " by "@ + artist + " ♫"@
}

/// Words the now-playing widget's message: the track and artist while one
/// is playing, the fixed line otherwise.
pub fn format_now_playing(playing: Option<(String, String)>) -> (r: String)
    ensures
        match playing {
            Some((name, artist)) => r@ == spec_now_playing_line(name@, artist@),
            None => r@ == spec_nothing_playing(),
        },
{
    match playing {
        Some((name, artist)) => {
            let mut out = String::new();
            out.append("♫ Now Playing: ");
            out.append(name.as_str());
            out.append(" by ");
            out.append(artist.as_str());
            out.append(" ♫");
            proof {
                assert(out@ =~= spec_now_playing_line(name@, artist@));
            }
            out
        },
        None => {
            let mut out = String::new();
            out.append("☹ Nothing playing right now ☹");
            proof {
                assert(out@ =~= spec_nothing_playing());
            }
            out
        },
    }
}

/// The message of the recent-tracks answer: the fixed line unless the
/// newest track is marked as playing, else its name and artist, with fixed
/// words standing in for missing fields.
pub fn recent_now_playing_message(
    is_playing: bool,
    name: Option<String>,
    artist: Option<String>,
) -> (r: String)
    ensures
        !is_playing ==> r@ == spec_nothing_playing(),
        is_playing ==> r@ == spec_now_playing_line(
            match name {
                Some(n) => n@,
                None => "No Track"@,
            },
            match artist {
                Some(a) => a@,
                None => "Unknown Artist"@,
            },
        ),
{
    if !is_playing {
        return format_now_playing(None);
    }
    let n = match name {
        Some(n) => n,
        None => {
            let mut s = String::new();
            s.append("No Track");
            proof {
                assert(s@ =~= "No Track"@);
            }
            s
        },
    };
    let a = match artist {
        Some(a) => a,
        None => {
            let mut s = String::new();
            s.append("Unknown Artist");
            proof {
                assert(s@ =~= "Unknown Artist"@);
            }
            s
        },
    };
    format_now_playing(Some((n, a)))
}

/// Whether a recent track's now-playing attribute, carried as text, marks
/// it as playing.
pub fn now_playing_attr(attr: Option<String>) -> (r: bool)
    ensures
        match attr {
            Some(s) => r == (s@ == "true"@),
            None => r == false,
        },
{
    match attr {
        Some(s) => crate::strutil::str_eq(s.as_str(), "true"),
        None => false,
    }
}

/// Reads the currently playing line out of a recent-tracks JSON answer, as
/// the home page's fallback widget does: the newest track's now-playing
/// attribute decides, and missing name or artist fields fall back to fixed
/// words. The document is opaque; what the message says for each extracted
/// value is the contract of [`recent_now_playing_message`].
pub fn recent_tracks_message(doc: &serde_json::Value) -> Option<String> {
    let tracks = match crate::jsonval::json_get(doc, "recenttracks") {
        Some(rt) => match crate::jsonval::json_get(rt, "track") {
            Some(t) => t,
            None => {
                return None;
            },
        },
        None => {
            return None;
        },
    };
    let track = match crate::jsonval::json_at(tracks, 0) {
        Some(t) => t,
        None => {
            return None;
        },
    };
    let attr = match crate::jsonval::json_get(track, "@attr") {
        Some(a) => match crate::jsonval::json_get(a, "nowplaying") {
            Some(np) => crate::jsonval::json_as_string(np),
            None => None,
        },
        None => None,
    };
    let is_playing = now_playing_attr(attr);
    let name = crate::jsonval::json_str_field(track, "name");
    let artist = match crate::jsonval::json_get(track, "artist") {
        Some(a) => crate::jsonval::json_str_field(a, "#text"),
        None => None,
    };
    Some(recent_now_playing_message(is_playing, name, artist))
}

} // verus!
