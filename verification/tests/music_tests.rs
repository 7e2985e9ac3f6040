use homepage_core::lastfm::{
    format_now_playing, last_image, now_playing_attr, now_playing_track, parse_playcount,
    recent_now_playing_message, recent_tracks_message, user_stats_from_totals, Track,
};
use homepage_core::spotify::{join_comma, player_message, SpotifyAPI};

fn parse_doc(text: &str) -> Option<serde_json::Value> {
    serde_json::from_str(text).ok()
}

fn track(name: &str, playing: bool) -> Track {
    Track {
        name: name.to_string(),
        artist: "band".to_string(),
        url: "https://example.org/t".to_string(),
        image_url: None,
        is_playing: playing,
        playcount: None,
    }
}

#[test]
fn playcounts_arrive_as_text() {
    assert_eq!(parse_playcount("123"), 123);
    assert_eq!(parse_playcount("+7"), 7);
    assert_eq!(parse_playcount(""), 0);
    assert_eq!(parse_playcount("12a"), 0);
    assert_eq!(parse_playcount("99999999999999999999"), 0);
}

#[test]
fn the_largest_image_is_the_last_offered() {
    assert_eq!(last_image(&vec![]), None);
    let images = vec!["s.png".to_string(), "m.png".to_string(), "l.png".to_string()];
    assert_eq!(last_image(&images), Some("l.png".to_string()));
}

#[test]
fn listening_totals_parse_each_count() {
    let s = user_stats_from_totals("100", "20", "30", "+40");
    assert_eq!(s.total_scrobbles, 100);
    assert_eq!(s.total_artists, 20);
    assert_eq!(s.total_albums, 30);
    assert_eq!(s.total_tracks, 40);
}

#[test]
fn now_playing_is_the_newest_track_only_while_marked_playing() {
    assert!(now_playing_track(&vec![]).is_none());
    assert!(now_playing_track(&vec![track("a", false), track("b", true)]).is_none());
    let r = now_playing_track(&vec![track("a", true), track("b", false)]);
    assert_eq!(r.map(|t| t.name), Some("a".to_string()));
}

#[test]
fn now_playing_lines_are_worded_like_the_widget() {
    assert_eq!(format_now_playing(None), "☹ Nothing playing right now ☹");
    assert_eq!(
        format_now_playing(Some(("Song".to_string(), "Band".to_string()))),
        "♫ Now Playing: Song by Band ♫"
    );
}

#[test]
fn recent_message_falls_back_for_missing_fields() {
    assert_eq!(recent_now_playing_message(false, None, None), "☹ Nothing playing right now ☹");
    assert_eq!(
        recent_now_playing_message(true, None, None),
        "♫ Now Playing: No Track by Unknown Artist ♫"
    );
    assert_eq!(
        recent_now_playing_message(true, Some("S".to_string()), Some("B".to_string())),
        "♫ Now Playing: S by B ♫"
    );
}

#[test]
fn now_playing_attribute_is_the_text_true() {
    assert!(now_playing_attr(Some("true".to_string())));
    assert!(!now_playing_attr(Some("false".to_string())));
    assert!(!now_playing_attr(Some("TRUE".to_string())));
    assert!(!now_playing_attr(None));
}

#[test]
fn recent_tracks_answers_read_through_real_json() {
    let body = r##"{"recenttracks":{"track":[{"name":"Song","artist":{"#text":"Band"},"@attr":{"nowplaying":"true"}}]}}"##;
    let doc = parse_doc(body).expect("valid json");
    assert_eq!(
        recent_tracks_message(&doc),
        Some("♫ Now Playing: Song by Band ♫".to_string())
    );

    let idle = r##"{"recenttracks":{"track":[{"name":"Song","artist":{"#text":"Band"}}]}}"##;
    let doc = parse_doc(idle).expect("valid json");
    assert_eq!(recent_tracks_message(&doc), Some("☹ Nothing playing right now ☹".to_string()));

    let broken = r#"{"recenttracks":{}}"#;
    let doc = parse_doc(broken).expect("valid json");
    assert_eq!(recent_tracks_message(&doc), None);

    assert!(parse_doc("{nope").is_none());
}

#[test]
fn token_bookkeeping_follows_the_answer() {
    let mut api = SpotifyAPI::new("id".to_string(), "secret".to_string(), "refresh".to_string());
    assert!(api.needs_refresh(0));
    assert!(api.current_token(0).is_none());

    let doc = parse_doc(r#"{"access_token":"tok","expires_in":60}"#).unwrap();
    assert!(api.ingest_token_response(&doc, 1000).is_ok());
    assert_eq!(api.access_token.as_deref(), Some("tok"));
    assert_eq!(api.token_expiry, Some(61_000));
    assert!(!api.needs_refresh(60_999));
    assert!(api.needs_refresh(61_000));
    assert_eq!(api.current_token(5000).map(String::as_str), Some("tok"));

    // An answer that names no lifetime defaults to an hour.
    let doc = parse_doc(r#"{"access_token":"tok2"}"#).unwrap();
    assert!(api.ingest_token_response(&doc, 0).is_ok());
    assert_eq!(api.token_expiry, Some(3_600_000));

    // A missing token is the error and changes nothing.
    let doc = parse_doc(r#"{"error":"nope"}"#).unwrap();
    assert!(api.ingest_token_response(&doc, 9).is_err());
    assert_eq!(api.access_token.as_deref(), Some("tok2"));
    assert_eq!(api.token_expiry, Some(3_600_000));
}

#[test]
fn the_authorization_value_is_basic_base64() {
    let api = SpotifyAPI::new("id".to_string(), "secret".to_string(), "r".to_string());
    assert_eq!(api.basic_auth_value(), "Basic aWQ6c2VjcmV0");
}

#[test]
fn player_answers_read_through_real_json() {
    let body = r#"{"is_playing":true,"item":{"name":"Song","artists":[{"name":"A"},{"name":"B"}]}}"#;
    let doc = parse_doc(body).unwrap();
    assert_eq!(
        homepage_core::spotify::player_message_from_doc(&doc),
        "♫ Now Playing: Song by A, B ♫"
    );

    let idle = r#"{"is_playing":false}"#;
    let doc = parse_doc(idle).unwrap();
    assert_eq!(
        homepage_core::spotify::player_message_from_doc(&doc),
        "☹ Nothing playing right now ☹"
    );

    let nameless = r#"{"is_playing":true,"item":{"artists":[{"name":"A"}]}}"#;
    let doc = parse_doc(nameless).unwrap();
    assert_eq!(
        homepage_core::spotify::player_message_from_doc(&doc),
        "♫ Now Playing: No Track by A ♫"
    );
}

#[test]
fn player_messages_join_artists_with_commas() {
    assert_eq!(join_comma(&vec![]), "");
    assert_eq!(join_comma(&vec!["A".to_string()]), "A");
    assert_eq!(join_comma(&vec!["A".to_string(), "B".to_string(), "C".to_string()]), "A, B, C");
    assert_eq!(
        player_message(true, Some("Song".to_string()), vec!["A".to_string(), "B".to_string()]),
        "♫ Now Playing: Song by A, B ♫"
    );
    assert_eq!(
        player_message(true, None, vec!["A".to_string()]),
        "♫ Now Playing: No Track by A ♫"
    );
    assert_eq!(player_message(false, None, vec![]), "☹ Nothing playing right now ☹");
}
