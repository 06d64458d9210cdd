use nosubvod::cache::{TimedCache, NANOS_PER_SEC};
use nosubvod::registry::{
    is_proxy_token_exec, proxy_path_for, register_variant_proxy_target,
    resolve_variant_proxy_target, resolve_variant_proxy_target_at, sanitize_target,
    store_variant_proxy_target, validate_variant_target_url, ProxyError, UrlParts,
    TARGET_TTL_SECS,
};

fn chars(s: &str) -> Vec<char> {
    s.chars().collect()
}

#[test]
fn register_then_resolve_gives_sanitized_url() {
    let mut targets: TimedCache<String> = TimedCache::new();
    let u = "https://usher.ttvnw.net/api/channel/hls/foo.m3u8?sig=abc&evil=1";
    let token = register_variant_proxy_target(&mut targets, u).unwrap();
    let url = resolve_variant_proxy_target(&targets, &token).unwrap();
    assert_eq!(url, "https://usher.ttvnw.net/api/channel/hls/foo.m3u8?sig=abc");
    assert_eq!(url, validate_variant_target_url(u).unwrap());
}

#[test]
fn tokens_are_reusable_and_distinct() {
    let mut targets: TimedCache<String> = TimedCache::new();
    let a = register_variant_proxy_target(&mut targets, "https://a.ttvnw.net/vod/1.m3u8").unwrap();
    let b = register_variant_proxy_target(&mut targets, "https://b.ttvnw.net/vod/2.m3u8").unwrap();
    assert_ne!(a, b);
    for _ in 0..3 {
        assert_eq!(resolve_variant_proxy_target(&targets, &a).unwrap(), "https://a.ttvnw.net/vod/1.m3u8");
    }
    assert_eq!(resolve_variant_proxy_target(&targets, &b).unwrap(), "https://b.ttvnw.net/vod/2.m3u8");
}

#[test]
fn fresh_tokens_match_the_uuid_grammar() {
    let re = regex::Regex::new(
        r"^[0-9a-f]{8}-[0-9a-f]{4}-[1-5][0-9a-f]{3}-[89ab][0-9a-f]{3}-[0-9a-f]{12}$",
    )
    .unwrap();
    let mut targets: TimedCache<String> = TimedCache::new();
    for _ in 0..20 {
        let t = register_variant_proxy_target(&mut targets, "https://a.ttvnw.net/vod/1.m3u8").unwrap();
        assert!(re.is_match(&t));
        assert!(is_proxy_token_exec(&chars(&t)));
        assert_eq!(&t[14..15], "4");
    }
}

#[test]
fn token_matcher_agrees_with_the_pattern() {
    let re = regex::Regex::new(
        r"^[0-9a-f]{8}-[0-9a-f]{4}-[1-5][0-9a-f]{3}-[89ab][0-9a-f]{3}-[0-9a-f]{12}$",
    )
    .unwrap();
    let samples = [
        "123e4567-e89b-42d3-a456-426614174000",
        "123e4567-e89b-12d3-8456-426614174000",
        "123e4567-e89b-52d3-b456-426614174000",
        "123e4567-e89b-62d3-a456-426614174000",
        "123e4567-e89b-02d3-a456-426614174000",
        "123e4567-e89b-42d3-c456-426614174000",
        "123e4567-e89b-42d3-7456-426614174000",
        "123E4567-e89b-42d3-a456-426614174000",
        "123e4567e89b-42d3-a456-4266141740000",
        "123e4567-e89b-42d3-a456-42661417400",
        "123e4567-e89b-42d3-a456-4266141740000",
        "123e4567-e89b-42d3-a456-42661417400g",
        "123e4567_e89b-42d3-a456-426614174000",
        "",
        "123e4567-e89b-42d3-a456-426614174000\n",
        "\u{e9}23e4567-e89b-42d3-a456-426614174000",
    ];
    for s in samples {
        assert_eq!(is_proxy_token_exec(&chars(s)), re.is_match(s), "{s:?}");
    }
}

#[test]
fn wrong_scheme_is_refused() {
    let r = validate_variant_target_url("http://ttvnw.net/vod/x.m3u8");
    assert!(matches!(r, Err(ProxyError::NotHttps)));
    assert_eq!(r.unwrap_err().message(), "Only HTTPS URLs are allowed");
    let mut targets: TimedCache<String> = TimedCache::new();
    assert!(register_variant_proxy_target(&mut targets, "http://ttvnw.net/vod/x.m3u8").is_err());
}

#[test]
fn foreign_host_is_refused() {
    let r = validate_variant_target_url("https://evil.com/vod/x.m3u8");
    match r {
        Err(ProxyError::DisallowedHost(h)) => assert_eq!(h, "evil.com"),
        other => panic!("{other:?}"),
    }
    let e = validate_variant_target_url("https://evil.com/vod/x.m3u8").unwrap_err();
    assert_eq!(e.message(), "Disallowed host: evil.com");
    assert!(matches!(
        validate_variant_target_url("https://evilttvnw.net/vod/x.m3u8"),
        Err(ProxyError::DisallowedHost(_))
    ));
    assert!(matches!(
        validate_variant_target_url("https://ttvnw.net.evil.com/vod/x.m3u8"),
        Err(ProxyError::DisallowedHost(_))
    ));
}

#[test]
fn allowed_hosts_pass() {
    for host in [
        "ttvnw.net",
        "twitch.tv",
        "jtvnw.net",
        "cloudfront.net",
        "usher.ttvnw.net",
        "www.twitch.tv",
        "static-cdn.jtvnw.net",
        "d2example.cloudfront.net",
        "USHER.TTVNW.NET",
    ] {
        let u = format!("https://{host}/vod/x.m3u8");
        assert!(validate_variant_target_url(&u).is_ok(), "{host}");
    }
}

#[test]
fn paths_are_vetted() {
    assert!(validate_variant_target_url("https://usher.ttvnw.net/api/channel/hls/foo.m3u8").is_ok());
    assert!(validate_variant_target_url("https://a.ttvnw.net/vod/seg.ts").is_ok());
    assert!(validate_variant_target_url("https://a.ttvnw.net/chunked/seg.ts").is_ok());
    assert!(validate_variant_target_url("https://a.ttvnw.net/x/y/index-dvr.m3u8").is_ok());
    assert!(validate_variant_target_url("https://a.ttvnw.net/X/Y/INDEX.M3U8").is_ok());
    let r = validate_variant_target_url("https://a.ttvnw.net/other/seg.ts");
    assert!(matches!(r, Err(ProxyError::DisallowedPath)));
    assert_eq!(r.unwrap_err().message(), "Disallowed target path");
    assert!(matches!(
        validate_variant_target_url("https://a.ttvnw.net/api/channel/hls/foo.ts"),
        Err(ProxyError::DisallowedPath)
    ));
}

#[test]
fn invalid_url_is_refused() {
    let r = validate_variant_target_url("not a url");
    assert!(matches!(r, Err(ProxyError::InvalidUrl)));
    assert_eq!(r.unwrap_err().message(), "Invalid URL");
    assert!(matches!(validate_variant_target_url(""), Err(ProxyError::InvalidUrl)));
    assert!(matches!(validate_variant_target_url("/vod/x.m3u8"), Err(ProxyError::InvalidUrl)));
}

#[test]
fn query_is_reduced_to_allowed_parameters() {
    assert_eq!(
        validate_variant_target_url("https://a.ttvnw.net/vod/x.m3u8?sig=abc&evil=1").unwrap(),
        "https://a.ttvnw.net/vod/x.m3u8?sig=abc"
    );
    assert_eq!(
        validate_variant_target_url("https://a.ttvnw.net/vod/x.m3u8?evil=1").unwrap(),
        "https://a.ttvnw.net/vod/x.m3u8"
    );
    assert_eq!(
        validate_variant_target_url("https://a.ttvnw.net/vod/x.m3u8").unwrap(),
        "https://a.ttvnw.net/vod/x.m3u8"
    );
    assert_eq!(
        validate_variant_target_url(
            "https://a.ttvnw.net/vod/x.m3u8?x=1&token=a%3Db%20c&allow_source=true&p=12&y=2&player=twitchweb"
        )
        .unwrap(),
        "https://a.ttvnw.net/vod/x.m3u8?token=a%3Db%20c&allow_source=true&p=12&player=twitchweb"
    );
    assert_eq!(
        validate_variant_target_url("https://a.ttvnw.net/vod/x.m3u8?sig=a+b").unwrap(),
        "https://a.ttvnw.net/vod/x.m3u8?sig=a%20b"
    );
    assert_eq!(
        validate_variant_target_url("https://a.ttvnw.net/vod/x.m3u8?SIG=abc").unwrap(),
        "https://a.ttvnw.net/vod/x.m3u8"
    );
}

#[test]
fn every_allowed_parameter_is_kept() {
    let names = [
        "allow_source",
        "allow_audio_only",
        "fast_bread",
        "playlist_include_framerate",
        "player_backend",
        "player",
        "p",
        "sig",
        "token",
    ];
    for n in names {
        let u = format!("https://a.ttvnw.net/vod/x.m3u8?{n}=v&drop=1");
        assert_eq!(
            validate_variant_target_url(&u).unwrap(),
            format!("https://a.ttvnw.net/vod/x.m3u8?{n}=v")
        );
    }
}

#[test]
fn sanitize_target_checks_in_order() {
    let parts = |scheme: &str, host: Option<&str>, path: &str, q: Vec<(&str, &str)>| UrlParts {
        scheme: scheme.to_string(),
        host: host.map(|h| h.to_string()),
        path: path.to_string(),
        query: q.into_iter().map(|(k, v)| (k.to_string(), v.to_string())).collect(),
        serialized_len: 0,
    };
    assert!(matches!(
        sanitize_target(&parts("http", Some("evil.com"), "/nope", vec![])),
        Err(ProxyError::NotHttps)
    ));
    assert!(matches!(
        sanitize_target(&parts("https", Some("evil.com"), "/nope", vec![])),
        Err(ProxyError::DisallowedHost(_))
    ));
    assert!(matches!(
        sanitize_target(&parts("https", None, "/vod/x", vec![])),
        Err(ProxyError::DisallowedHost(_))
    ));
    assert!(matches!(
        sanitize_target(&parts("https", Some("twitch.tv"), "/nope", vec![])),
        Err(ProxyError::DisallowedPath)
    ));
    assert_eq!(sanitize_target(&parts("https", Some("Twitch.TV"), "/vod/x", vec![])).unwrap(), None);
    assert_eq!(
        sanitize_target(&parts(
            "https",
            Some("twitch.tv"),
            "/vod/x",
            vec![("a", "1"), ("sig", "x y"), ("token", "\u{e9}/="), ("b", "2")]
        ))
        .unwrap(),
        Some("sig=x%20y&token=%C3%A9%2F%3D".to_string())
    );
}

#[test]
fn malformed_token_is_refused() {
    let targets: TimedCache<String> = TimedCache::new();
    let r = resolve_variant_proxy_target(&targets, "not-a-token");
    assert!(matches!(r, Err(ProxyError::InvalidToken)));
    assert_eq!(r.unwrap_err().message(), "Invalid variant proxy id");
    assert!(matches!(resolve_variant_proxy_target(&targets, ""), Err(ProxyError::InvalidToken)));
}

#[test]
fn unknown_token_is_not_found() {
    let targets: TimedCache<String> = TimedCache::new();
    let r = resolve_variant_proxy_target(&targets, "123e4567-e89b-42d3-a456-426614174000");
    assert!(matches!(r, Err(ProxyError::NotFound)));
    assert_eq!(r.unwrap_err().message(), "Variant proxy target not found or expired");
}

#[test]
fn token_is_trimmed_before_lookup() {
    let mut targets: TimedCache<String> = TimedCache::new();
    let t = "123e4567-e89b-42d3-a456-426614174000";
    store_variant_proxy_target(&mut targets, t, "https://a.ttvnw.net/vod/x".to_string(), 0);
    assert_eq!(
        resolve_variant_proxy_target_at(&targets, "  123e4567-e89b-42d3-a456-426614174000\n", 1).unwrap(),
        "https://a.ttvnw.net/vod/x"
    );
}

#[test]
fn target_expires_after_three_hundred_seconds() {
    assert_eq!(TARGET_TTL_SECS, 300);
    let mut targets: TimedCache<String> = TimedCache::new();
    let t = "123e4567-e89b-42d3-a456-426614174000";
    store_variant_proxy_target(&mut targets, t, "https://a.ttvnw.net/vod/x".to_string(), 10);
    assert!(resolve_variant_proxy_target_at(&targets, t, 10).is_ok());
    assert!(resolve_variant_proxy_target_at(&targets, t, 10 + 300 * NANOS_PER_SEC - 1).is_ok());
    assert!(matches!(
        resolve_variant_proxy_target_at(&targets, t, 10 + 300 * NANOS_PER_SEC),
        Err(ProxyError::NotFound)
    ));
}

#[test]
fn refused_url_leaves_registry_unchanged() {
    let mut targets: TimedCache<String> = TimedCache::new();
    let t = "123e4567-e89b-42d3-a456-426614174000";
    store_variant_proxy_target(&mut targets, t, "https://a.ttvnw.net/vod/x".to_string(), 0);
    assert!(register_variant_proxy_target(&mut targets, "https://evil.com/vod/x").is_err());
    assert_eq!(resolve_variant_proxy_target_at(&targets, t, 1).unwrap(), "https://a.ttvnw.net/vod/x");
}

#[test]
fn proxy_path_names_the_token() {
    assert_eq!(
        proxy_path_for("123e4567-e89b-42d3-a456-426614174000"),
        "/api/stream/variant.m3u8?id=123e4567-e89b-42d3-a456-426614174000"
    );
    assert_eq!(proxy_path_for("a b"), "/api/stream/variant.m3u8?id=a%20b");
}

#[test]
fn long_url_is_accepted() {
    let long = format!("https://a.ttvnw.net/vod/{}.m3u8?sig=1&x=2", "x".repeat(0x200_0000));
    let expected = format!("https://a.ttvnw.net/vod/{}.m3u8?sig=1", "x".repeat(0x200_0000));
    assert_eq!(validate_variant_target_url(&long).unwrap(), expected);
}
