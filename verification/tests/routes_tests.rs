use homepage_core::routes::{
    content_type_for, eq_ignore_case, has_dotdot, has_header, render_mode, route_of, Method,
    RenderType, Route,
};

#[test]
fn pages_route_by_path() {
    assert_eq!(route_of(Method::Get, "/"), Route::Home);
    assert_eq!(route_of(Method::Get, "/home"), Route::Home);
    assert_eq!(route_of(Method::Get, "/guestbook"), Route::Guestbook);
    assert_eq!(route_of(Method::Get, "/projects"), Route::Projects);
    assert_eq!(route_of(Method::Get, "/interests"), Route::Interests);
    assert_eq!(route_of(Method::Get, "/nope"), Route::NotFound);
    assert_eq!(route_of(Method::Post, "/home"), Route::NotFound);
}

#[test]
fn components_route_by_path_and_method() {
    assert_eq!(route_of(Method::Get, "/comp/now-playing"), Route::CompNowPlaying);
    assert_eq!(route_of(Method::Get, "/comp/top-artists"), Route::CompTopArtists);
    assert_eq!(route_of(Method::Get, "/comp/top-tracks"), Route::CompTopTracks);
    assert_eq!(route_of(Method::Get, "/comp/top-albums"), Route::CompTopAlbums);
    assert_eq!(route_of(Method::Get, "/comp/user-stats"), Route::CompUserStats);
    assert_eq!(route_of(Method::Get, "/comp/server-weather"), Route::CompServerWeather);
    assert_eq!(route_of(Method::Get, "/comp/projects"), Route::CompProjects);
    assert_eq!(route_of(Method::Get, "/comp/messages"), Route::CompMessages);
    assert_eq!(route_of(Method::Post, "/comp/messages"), Route::CompPostMessage);
    assert_eq!(route_of(Method::Get, "/comp/unknown"), Route::NotFound);
    assert_eq!(route_of(Method::Post, "/comp/projects"), Route::NotFound);
}

#[test]
fn query_strings_never_take_part_in_the_match() {
    assert_eq!(route_of(Method::Get, "/comp/messages?last_id=5&limit=2"), Route::CompMessages);
    assert_eq!(route_of(Method::Get, "/home?x=1"), Route::Home);
    assert_eq!(route_of(Method::Get, "/?x=1"), Route::Home);
}

#[test]
fn static_urls_route_by_prefix() {
    assert_eq!(route_of(Method::Get, "/static/style/styles.css"), Route::StaticAsset);
    assert_eq!(route_of(Method::Post, "/static/x"), Route::StaticAsset);
}

#[test]
fn content_types_by_extension() {
    assert_eq!(content_type_for("css"), "text/css; charset=utf-8");
    assert_eq!(content_type_for("js"), "application/javascript; charset=utf-8");
    assert_eq!(content_type_for("png"), "image/png");
    assert_eq!(content_type_for("gif"), "image/gif");
    assert_eq!(content_type_for("svg"), "image/svg+xml");
    assert_eq!(content_type_for("jpg"), "image/jpeg");
    assert_eq!(content_type_for("jpeg"), "image/jpeg");
    assert_eq!(content_type_for("woff"), "application/octet-stream");
}

#[test]
fn dotdot_paths_are_flagged() {
    assert!(has_dotdot(b"static/../etc/passwd"));
    assert!(has_dotdot(b".."));
    assert!(!has_dotdot(b"static/img/a.png"));
    assert!(!has_dotdot(b"."));
    assert!(!has_dotdot(b""));
}

#[test]
fn header_names_compare_case_insensitively() {
    assert!(eq_ignore_case(b"HX-Request", b"hx-request"));
    assert!(eq_ignore_case(b"CF-Connecting-IP", b"cf-connecting-ip"));
    assert!(!eq_ignore_case(b"HX-Request", b"HX-Reques"));
    let headers = vec![
        ("Host".to_string(), "example.org".to_string()),
        ("hx-request".to_string(), "true".to_string()),
    ];
    assert!(has_header(&headers, "HX-Request"));
    assert!(!has_header(&headers, "X-Forwarded-For"));
}

#[test]
fn htmx_requests_render_partials() {
    assert!(matches!(render_mode(true), RenderType::Partial));
    assert!(matches!(render_mode(false), RenderType::Full));
}
