use nosubvod::cache::TimedCache;
use nosubvod::registry::resolve_variant_proxy_target;
use nosubvod::vod::{
    build_stream_url, classify_playlist, codec_from_init, create_serving_id, is_vod_id_exec,
    parse_vod_url_info, plan_vod_source, prepare_vod_request, renditions, ManifestError,
    ManifestJob, ManifestStep, MasterPlaylist, ProbeVerdict, Rendition, VodMeta, VodSource,
    VodUrlError, START_BANDWIDTH, WEEK_MILLIS,
};

const HEADER: &str = "#EXTM3U\n#EXT-X-TWITCH-INFO:ORIGIN=\"s3\",B=\"false\",REGION=\"EU\",USER-IP=\"127.0.0.1\",SERVING-ID=\"sid\",CLUSTER=\"cloudfront_vod\",USER-COUNTRY=\"BE\",MANIFEST-CLUSTER=\"cloudfront_vod\"";

fn rendition(key: &str, resolution: &str, fps: u32) -> Rendition {
    Rendition { key: key.to_string(), resolution: resolution.to_string(), fps }
}

fn bandwidths(playlist: &str) -> Vec<u64> {
    playlist
        .lines()
        .filter(|l| l.starts_with("#EXT-X-STREAM-INF:"))
        .map(|l| {
            let rest = &l[l.find("BANDWIDTH=").unwrap() + 10..];
            rest[..rest.find(',').unwrap()].parse::<u64>().unwrap()
        })
        .collect()
}

#[test]
fn special_id_is_read_from_preview_url() {
    let r = parse_vod_url_info("https://d2example.cloudfront.net/abc123/storyboards/998-info.json");
    assert_eq!(r, Ok(("d2example.cloudfront.net".to_string(), "abc123".to_string())));
}

#[test]
fn special_id_precedes_first_storyboards_segment() {
    assert_eq!(
        parse_vod_url_info("https://h/a/b/c/my-storyboards-x/storyboards/i.json"),
        Ok(("h".to_string(), "c".to_string()))
    );
    assert_eq!(
        parse_vod_url_info("//h/x/storyboards"),
        Ok(("h".to_string(), "x".to_string()))
    );
    assert_eq!(
        parse_vod_url_info("a//b//h/x/storyboards"),
        Ok(("b".to_string(), "x".to_string()))
    );
}

#[test]
fn preview_url_errors() {
    assert_eq!(parse_vod_url_info("no-slashes"), Err(VodUrlError::NoSchemeSeparator));
    assert_eq!(parse_vod_url_info(""), Err(VodUrlError::NoSchemeSeparator));
    assert_eq!(parse_vod_url_info("https://host-only"), Err(VodUrlError::NoPath));
    assert_eq!(parse_vod_url_info("https://h/a/b/c.json"), Err(VodUrlError::NoStoryboards));
    assert_eq!(parse_vod_url_info("https://h/"), Err(VodUrlError::NoStoryboards));
    assert_eq!(parse_vod_url_info("https://h/storyboards/x"), Err(VodUrlError::EmptySpecialId));
    assert_eq!(parse_vod_url_info("https://h/a//storyboards/x"), Err(VodUrlError::EmptySpecialId));
    assert_eq!(parse_vod_url_info("https://storyboards/a/b"), Err(VodUrlError::NoStoryboards));
}

#[test]
fn vod_ids_are_vetted() {
    let re = regex::Regex::new(r"^[a-zA-Z0-9_-]+$").unwrap();
    for s in ["123", "a_b-C9", "", " ", "12 3", "12\n", "\u{e9}", "a/b", "a\"b", "-", "_"] {
        assert_eq!(is_vod_id_exec(s), re.is_match(s), "{s:?}");
    }
}

#[test]
fn six_renditions_in_order() {
    let list = renditions();
    let keys: Vec<&str> = list.iter().map(|r| r.key.as_str()).collect();
    assert_eq!(keys, vec!["chunked", "1080p60", "720p60", "480p30", "360p30", "160p30"]);
    let res: Vec<&str> = list.iter().map(|r| r.resolution.as_str()).collect();
    assert_eq!(res, vec!["1920x1080", "1920x1080", "1280x720", "854x480", "640x360", "284x160"]);
    let fps: Vec<u32> = list.iter().map(|r| r.fps).collect();
    assert_eq!(fps, vec![60, 60, 60, 30, 30, 30]);
}

#[test]
fn stream_urls_by_kind_and_age() {
    assert_eq!(
        build_stream_url("d.net", "sp", "720p60", "42", "highlight", 0, "chan"),
        "https://d.net/sp/720p60/highlight-42.m3u8"
    );
    assert_eq!(
        build_stream_url("d.net", "sp", "720p60", "42", "highlight", WEEK_MILLIS + 1, "chan"),
        "https://d.net/sp/720p60/highlight-42.m3u8"
    );
    assert_eq!(
        build_stream_url("d.net", "sp", "720p60", "42", "upload", WEEK_MILLIS + 1, "chan"),
        "https://d.net/chan/42/sp/720p60/index-dvr.m3u8"
    );
    assert_eq!(
        build_stream_url("d.net", "sp", "720p60", "42", "upload", WEEK_MILLIS, "chan"),
        "https://d.net/sp/720p60/index-dvr.m3u8"
    );
    assert_eq!(
        build_stream_url("d.net", "sp", "chunked", "42", "archive", WEEK_MILLIS + 1, "chan"),
        "https://d.net/sp/chunked/index-dvr.m3u8"
    );
    assert_eq!(
        build_stream_url("d.net", "sp", "chunked", "42", "Upload", WEEK_MILLIS + 1, "chan"),
        "https://d.net/sp/chunked/index-dvr.m3u8"
    );
}

#[test]
fn playlist_bodies_are_judged() {
    let url = "https://d.net/sp/720p60/index-dvr.m3u8";
    assert_eq!(
        classify_playlist(url, "#EXTM3U\n0.ts\n1.ts"),
        ProbeVerdict::Codec("avc1.4D001E".to_string())
    );
    assert_eq!(
        classify_playlist(url, "#EXTM3U\n0.mp4\n1.mp4"),
        ProbeVerdict::NeedsInit("https://d.net/sp/720p60/init-0.mp4".to_string())
    );
    assert_eq!(
        classify_playlist(url, "a.mp4 and b.ts"),
        ProbeVerdict::Codec("avc1.4D001E".to_string())
    );
    assert_eq!(classify_playlist(url, "#EXTM3U\n"), ProbeVerdict::Unavailable);
    assert_eq!(classify_playlist(url, ""), ProbeVerdict::Unavailable);
    assert_eq!(
        classify_playlist("https://d.net/sp/720p60/highlight-1.m3u8", "x.mp4"),
        ProbeVerdict::NeedsInit("https://d.net/sp/720p60/highlight-1.m3u8".to_string())
    );
}

#[test]
fn codec_is_told_from_init_segment() {
    assert_eq!(codec_from_init(Some("....hev1....")), "hev1.1.6.L93.B0");
    assert_eq!(codec_from_init(Some("....avc1....")), "avc1.4D001E");
    assert_eq!(codec_from_init(Some("")), "avc1.4D001E");
    assert_eq!(codec_from_init(None), "hev1.1.6.L93.B0");
}

#[test]
fn empty_playlist_is_the_header() {
    assert_eq!(MasterPlaylist::begin("sid").finish(), HEADER);
    assert!(MasterPlaylist::begin("x").finish().starts_with("#EXTM3U\n#EXT-X-TWITCH-INFO:"));
}

#[test]
fn variant_blocks_are_written() {
    let mut p = MasterPlaylist::begin("sid");
    p.push_variant(&rendition("chunked", "1920x1080", 60), "avc1.4D001E", "tok-1");
    p.push_variant(&rendition("480p30", "854x480", 30), "hev1.1.6.L93.B0", "tok 2");
    let expected = format!(
        "{HEADER}\n#EXT-X-MEDIA:TYPE=VIDEO,GROUP-ID=\"1080p\",NAME=\"1080p\",AUTOSELECT=YES,DEFAULT=YES\n#EXT-X-STREAM-INF:BANDWIDTH=8534030,CODECS=\"avc1.4D001E,mp4a.40.2\",RESOLUTION=1920x1080,VIDEO=\"1080p\",FRAME-RATE=60\n/api/stream/variant.m3u8?id=tok-1\n#EXT-X-MEDIA:TYPE=VIDEO,GROUP-ID=\"480p30\",NAME=\"480p30\",AUTOSELECT=NO,DEFAULT=NO\n#EXT-X-STREAM-INF:BANDWIDTH=8533930,CODECS=\"hev1.1.6.L93.B0,mp4a.40.2\",RESOLUTION=854x480,VIDEO=\"480p30\",FRAME-RATE=30\n/api/stream/variant.m3u8?id=tok%202"
    );
    assert_eq!(p.finish(), expected);
}

#[test]
fn source_rendition_is_named_by_its_height() {
    let mut p = MasterPlaylist::begin("sid");
    p.push_variant(&rendition("chunked", "1280x720", 30), "c", "t");
    p.push_variant(&rendition("chunked", "none", 30), "c", "t");
    p.push_variant(&rendition("chunked", "1x2x3", 30), "c", "t");
    let text = p.finish();
    assert!(text.contains("GROUP-ID=\"720p\""));
    assert!(text.contains("GROUP-ID=\"1080p\""));
    assert!(text.contains("GROUP-ID=\"2p\""));
}

#[test]
fn bandwidth_falls_from_variant_to_variant() {
    let mut p = MasterPlaylist::begin("sid");
    for r in renditions() {
        p.push_variant(&r, "avc1.4D001E", "t");
    }
    let b = bandwidths(&p.finish());
    assert_eq!(b, vec![8534030, 8533930, 8533830, 8533730, 8533630, 8533530]);
    assert_eq!(b[0], START_BANDWIDTH);
    for w in b.windows(2) {
        assert!(w[1] < w[0]);
    }
}

#[test]
fn bandwidth_of_skipped_rendition_is_not_spent() {
    let mut targets: TimedCache<String> = TimedCache::new();
    let mut p = MasterPlaylist::begin("sid");
    let list = renditions();
    let a = p.add_variant(&mut targets, &list[0], "avc1.4D001E", "https://d.cloudfront.net/sp/chunked/index-dvr.m3u8");
    let b = p.add_variant(&mut targets, &list[1], "avc1.4D001E", "https://evil.com/sp/1080p60/index-dvr.m3u8");
    let c = p.add_variant(&mut targets, &list[2], "avc1.4D001E", "https://d.cloudfront.net/sp/720p60/index-dvr.m3u8");
    assert!(a.is_some());
    assert!(b.is_none());
    assert!(c.is_some());
    let text = p.finish();
    assert_eq!(bandwidths(&text), vec![8534030, 8533930]);
    assert!(text.ends_with(&format!("/api/stream/variant.m3u8?id={}", c.clone().unwrap())));
    assert_eq!(
        resolve_variant_proxy_target(&targets, &a.unwrap()).unwrap(),
        "https://d.cloudfront.net/sp/chunked/index-dvr.m3u8"
    );
    assert_eq!(
        resolve_variant_proxy_target(&targets, &c.unwrap()).unwrap(),
        "https://d.cloudfront.net/sp/720p60/index-dvr.m3u8"
    );
}

#[test]
fn bandwidth_stops_at_zero() {
    let mut p = MasterPlaylist::begin("sid");
    let r = rendition("160p30", "284x160", 30);
    for _ in 0..85_343 {
        p.push_variant(&r, "c", "t");
    }
    let b = bandwidths(&p.finish());
    assert_eq!(b[85_339], 130);
    assert_eq!(b[85_340], 30);
    assert_eq!(b[85_341], 0);
    assert_eq!(b[85_342], 0);
}

#[test]
fn vod_request_is_prepared() {
    let (id, query) = prepare_vod_request(" 12345 ").unwrap();
    assert_eq!(id, "12345");
    assert_eq!(
        query,
        "{\"query\":\"query { video(id: \\\"12345\\\") { broadcastType, createdAt, seekPreviewsURL, owner { login } } }\"}"
    );
    assert_eq!(prepare_vod_request("12 345"), Err(ManifestError::InvalidId));
    assert_eq!(prepare_vod_request(""), Err(ManifestError::InvalidId));
    assert_eq!(prepare_vod_request("1\"2"), Err(ManifestError::InvalidId));
    let (id, query) = prepare_vod_request("a_B-9").unwrap();
    assert_eq!(id, "a_B-9");
    assert!(query.contains("video(id: \\\"a_B-9\\\")"));
}

fn meta(url: Option<&str>, owner: Option<&str>, kind: Option<&str>, created: Option<&str>) -> VodMeta {
    VodMeta {
        seek_previews_url: url.map(|s| s.to_string()),
        owner_login: owner.map(|s| s.to_string()),
        broadcast_type: kind.map(|s| s.to_string()),
        created_at: created.map(|s| s.to_string()),
    }
}

#[test]
fn vod_source_is_planned() {
    let now = 1_705_314_600_000u64;
    let url = "https://d2.cloudfront.net/abc/storyboards/1-info.json";
    let m = meta(Some(url), Some("chan"), Some("UPLOAD"), Some("2024-01-01T10:30:00Z"));
    let s = plan_vod_source("42", Some(&m), now).unwrap();
    assert_eq!(s.domain, "d2.cloudfront.net");
    assert_eq!(s.special_id, "abc");
    assert_eq!(s.vod_id, "42");
    assert_eq!(s.broadcast_type, "upload");
    assert_eq!(s.age_millis, 14 * 86_400_000);
    assert_eq!(s.channel_login, "chan");
    assert_eq!(s.rendition_url("chunked"), "https://d2.cloudfront.net/chan/42/abc/chunked/index-dvr.m3u8");
    let m = meta(Some(url), Some("chan"), None, None);
    let s = plan_vod_source("42", Some(&m), now).unwrap();
    assert_eq!(s.broadcast_type, "archive");
    assert_eq!(s.age_millis, 0);
    assert_eq!(s.rendition_url("160p30"), "https://d2.cloudfront.net/abc/160p30/index-dvr.m3u8");
}

#[test]
fn vod_source_errors_and_messages() {
    let url = "https://d2.cloudfront.net/abc/storyboards/1-info.json";
    let e = plan_vod_source("42", None, 0).unwrap_err();
    assert_eq!(e, ManifestError::NotFound);
    assert_eq!(e.message(), "Video not found");
    let e = plan_vod_source("42", Some(&meta(None, None, None, None)), 0).unwrap_err();
    assert_eq!(e, ManifestError::MissingPreviews);
    assert_eq!(e.message(), "Missing seekPreviewsURL");
    let e = plan_vod_source("42", Some(&meta(Some(url), None, None, None)), 0).unwrap_err();
    assert_eq!(e, ManifestError::MissingOwner);
    assert_eq!(e.message(), "Missing owner.login");
    let cases = [
        ("x", VodUrlError::NoSchemeSeparator, "No '//' found in URL"),
        ("https://h", VodUrlError::NoPath, "No path separator found"),
        ("https://h/a", VodUrlError::NoStoryboards, "Cannot find storyboards in URL"),
        ("https://h/storyboards", VodUrlError::EmptySpecialId, "Empty vodSpecialID"),
    ];
    for (u, kind, text) in cases {
        let e = plan_vod_source("42", Some(&meta(Some(u), Some("c"), None, None)), 0).unwrap_err();
        assert_eq!(e, ManifestError::Previews(kind));
        assert_eq!(e.message(), text);
    }
    assert_eq!(ManifestError::InvalidId.message(), "Invalid VOD identifier");
}

#[test]
fn serving_ids_are_thirty_two_hex_digits() {
    let a = create_serving_id();
    let b = create_serving_id();
    assert_eq!(a.len(), 32);
    assert!(a.chars().all(|c| c.is_ascii_digit() || ('a'..='f').contains(&c)));
    assert_ne!(a, b);
}

fn planned(kind: &str) -> VodSource {
    let url = "https://d2.cloudfront.net/abc/storyboards/1-info.json";
    let m = meta(Some(url), Some("chan"), Some(kind), None);
    plan_vod_source("42", Some(&m), 0).unwrap()
}

#[test]
fn playlist_is_made_step_by_step() {
    let mut targets: TimedCache<String> = TimedCache::new();
    let mut job = ManifestJob::start(planned("archive"), "sid");
    let url = |key: &str| format!("https://d2.cloudfront.net/abc/{key}/index-dvr.m3u8");
    // chunked: plain segments
    assert_eq!(job.step(), ManifestStep::FetchPlaylist(url("chunked")));
    job.playlist_fetched(&mut targets, Some("#EXTM3U\n0.ts"));
    // 1080p60: could not be had
    assert_eq!(job.step(), ManifestStep::FetchPlaylist(url("1080p60")));
    job.playlist_fetched(&mut targets, None);
    // 720p60: fragmented, the segment tells H.265
    assert_eq!(job.step(), ManifestStep::FetchPlaylist(url("720p60")));
    job.playlist_fetched(&mut targets, Some("#EXTM3U\n0.mp4"));
    assert_eq!(
        job.step(),
        ManifestStep::FetchInit("https://d2.cloudfront.net/abc/720p60/init-0.mp4".to_string())
    );
    // a playlist handed in now is passed over
    job.playlist_fetched(&mut targets, Some("0.ts"));
    assert_eq!(
        job.step(),
        ManifestStep::FetchInit("https://d2.cloudfront.net/abc/720p60/init-0.mp4".to_string())
    );
    job.init_fetched(&mut targets, Some("ftyp....hev1...."));
    // 480p30: fragmented, the segment could not be had
    assert_eq!(job.step(), ManifestStep::FetchPlaylist(url("480p30")));
    // a segment handed in now is passed over
    job.init_fetched(&mut targets, Some("hev1"));
    assert_eq!(job.step(), ManifestStep::FetchPlaylist(url("480p30")));
    job.playlist_fetched(&mut targets, Some("0.mp4"));
    job.init_fetched(&mut targets, None);
    // 360p30: fragmented, the segment tells H.264
    assert_eq!(job.step(), ManifestStep::FetchPlaylist(url("360p30")));
    job.playlist_fetched(&mut targets, Some("0.mp4"));
    job.init_fetched(&mut targets, Some("avc1"));
    // 160p30: names no media
    assert_eq!(job.step(), ManifestStep::FetchPlaylist(url("160p30")));
    job.playlist_fetched(&mut targets, Some("#EXTM3U"));
    assert_eq!(job.step(), ManifestStep::Finished);
    job.playlist_fetched(&mut targets, Some("0.ts"));
    job.init_fetched(&mut targets, Some("hev1"));
    assert_eq!(job.step(), ManifestStep::Finished);

    let text = job.finish();
    assert!(text.starts_with(HEADER));
    assert_eq!(bandwidths(&text), vec![8534030, 8533930, 8533830, 8533730]);
    let names: Vec<&str> = text
        .lines()
        .filter(|l| l.starts_with("#EXT-X-MEDIA:"))
        .map(|l| &l[l.find("NAME=\"").unwrap() + 6..l.find("\",AUTOSELECT").unwrap()])
        .collect();
    assert_eq!(names, vec!["1080p", "720p60", "480p30", "360p30"]);
    let codecs: Vec<&str> = text
        .lines()
        .filter(|l| l.starts_with("#EXT-X-STREAM-INF:"))
        .map(|l| &l[l.find("CODECS=\"").unwrap() + 8..l.find(",mp4a").unwrap()])
        .collect();
    assert_eq!(codecs, vec!["avc1.4D001E", "hev1.1.6.L93.B0", "hev1.1.6.L93.B0", "avc1.4D001E"]);
    let tokens: Vec<&str> = text
        .lines()
        .filter(|l| l.starts_with("/api/stream/variant.m3u8?id="))
        .map(|l| &l["/api/stream/variant.m3u8?id=".len()..])
        .collect();
    assert_eq!(tokens.len(), 4);
    assert_eq!(resolve_variant_proxy_target(&targets, tokens[0]).unwrap(), url("chunked"));
    assert_eq!(resolve_variant_proxy_target(&targets, tokens[1]).unwrap(), url("720p60"));
    assert_eq!(resolve_variant_proxy_target(&targets, tokens[3]).unwrap(), url("360p30"));
}

#[test]
fn playlist_without_available_rendition_is_the_header() {
    let mut targets: TimedCache<String> = TimedCache::new();
    let mut job = ManifestJob::start(planned("highlight"), "sid");
    let mut asked = Vec::new();
    loop {
        match job.step() {
            ManifestStep::FetchPlaylist(url) => {
                asked.push(url);
                job.playlist_fetched(&mut targets, None);
            }
            ManifestStep::FetchInit(_) => unreachable!(),
            ManifestStep::Finished => break,
        }
    }
    assert_eq!(asked.len(), 6);
    assert_eq!(asked[0], "https://d2.cloudfront.net/abc/chunked/highlight-42.m3u8");
    assert_eq!(asked[5], "https://d2.cloudfront.net/abc/160p30/highlight-42.m3u8");
    assert_eq!(job.finish(), HEADER);
}
