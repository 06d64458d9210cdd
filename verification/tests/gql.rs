use nosubvod::gql::{
    after_clause, batch_query, category_vods_query, game_vods_query, gql_escape, languages_clause,
    live_category_cache_key, live_category_page_size, live_category_query, live_page_size,
    live_search_cache_key, live_search_category_query, live_search_channel_query,
    live_status_cache_key, live_streams_cache_key, live_streams_query, live_user_cache_key,
    normalize_login, search_channels_query, search_global_query, top_categories_query,
    trending_cache_key, user_cache_key, user_info_query, user_live_query, user_vods_cache_key,
    user_vods_query, video_alias, video_chat_query, video_markers_query, vod_manifest_query,
    vod_page_size,
};
use nosubvod::listing::{
    dedupe_by_id, is_login_exec, join_texts, live_page, merge_game_vods, merge_live_results,
    next_vod_cursor, normalize_logins, safe_vod_ids, search_page, sort_texts, text_lt_exec,
    watched_metadata_query,
};
use nosubvod::types::{
    ExperienceSettings, LiveBroadcaster, LiveStream, LiveStreamsPage, Vod,
};

const FIELDS: &str = "id, title, lengthSeconds, previewThumbnailURL(width: 320, height: 180), createdAt, viewCount, language, game { name }, owner { login, displayName, profileImageURL(width: 50) }";

fn strings(v: &[&str]) -> Vec<String> {
    v.iter().map(|s| s.to_string()).collect()
}

fn vod(id: &str, title: &str) -> Vod {
    Vod {
        id: id.to_string(),
        title: title.to_string(),
        length_seconds: 1,
        preview_thumbnail_url: String::new(),
        created_at: String::new(),
        view_count: 0,
        language: None,
        game: None,
        owner: None,
    }
}

fn live(id: &str, viewers: u64) -> LiveStream {
    LiveStream {
        id: id.to_string(),
        title: format!("t{id}"),
        preview_image_url: String::new(),
        viewer_count: viewers,
        language: None,
        started_at: String::new(),
        broadcaster: LiveBroadcaster {
            id: String::new(),
            login: String::new(),
            display_name: String::new(),
            profile_image_url: String::new(),
        },
        game: None,
    }
}

#[test]
fn texts_are_escaped_as_in_json() {
    assert_eq!(gql_escape("plain"), "plain");
    assert_eq!(gql_escape(""), "");
    assert_eq!(gql_escape("a\"b"), "a\\\"b");
    assert_eq!(gql_escape("a\\b"), "a\\\\b");
    assert_eq!(gql_escape("line\nbreak\ttab"), "line\\nbreak\\ttab");
    assert_eq!(gql_escape("\u{1}"), "\\u0001");
    assert_eq!(gql_escape("\u{1f}\u{7f} "), "\\u001f\u{7f} ");
    assert_eq!(gql_escape("\u{8}\u{c}\r\u{b}/"), "\\b\\f\\r\\u000b/");
    assert_eq!(gql_escape("h\u{e9}"), "h\u{e9}");
    for s in ["x\"y\\z", "\u{8}\u{c}\r", "Just Chatting", "\u{1F600}"] {
        let json = serde_json::to_string(s).unwrap();
        assert_eq!(gql_escape(s), json[1..json.len() - 1]);
    }
}

#[test]
fn clauses() {
    assert_eq!(after_clause(None), "");
    assert_eq!(after_clause(Some("")), "");
    assert_eq!(after_clause(Some("   ")), "");
    assert_eq!(after_clause(Some(" abc ")), ", after: \"abc\"");
    assert_eq!(after_clause(Some("a\"b")), ", after: \"a\\\"b\"");
    assert_eq!(languages_clause(None), "");
    assert_eq!(languages_clause(Some(&strings(&["fr"]))), ", languages: [\"fr\"]");
    assert_eq!(languages_clause(Some(&strings(&["fr", "e\"n"]))), ", languages: [\"fr\",\"e\\\"n\"]");
    assert_eq!(languages_clause(Some(&vec![])), ", languages: []");
}

#[test]
fn page_sizes_are_clamped() {
    assert_eq!(vod_page_size(0), 4);
    assert_eq!(vod_page_size(4), 4);
    assert_eq!(vod_page_size(36), 36);
    assert_eq!(vod_page_size(50), 50);
    assert_eq!(vod_page_size(51), 50);
    assert_eq!(vod_page_size(usize::MAX), 50);
    assert_eq!(live_category_page_size(3), 4);
    assert_eq!(live_category_page_size(24), 24);
    assert_eq!(live_category_page_size(49), 48);
    assert_eq!(live_page_size(0), 8);
    assert_eq!(live_page_size(8), 8);
    assert_eq!(live_page_size(24), 24);
    assert_eq!(live_page_size(48), 48);
    assert_eq!(live_page_size(100), 48);
}

#[test]
fn video_queries() {
    assert_eq!(
        game_vods_query("Just \"Chatting\"", 18, ", languages: [\"fr\"]"),
        format!("{{\"query\":\"query {{ game(name: \\\"Just \\\"Chatting\\\"\\\") {{ videos(first: 18, languages: [\"fr\"]) {{ edges {{ node {{ {FIELDS} }} }} }} }} }}\"}}")
    );
    assert_eq!(
        category_vods_query("Chess", 36, ""),
        format!("{{\"query\":\"query {{ game(name: \\\"Chess\\\") {{ videos(first: 36) {{ edges {{ cursor node {{ {FIELDS} }} }} pageInfo {{ hasNextPage }} }} }} }}\"}}")
    );
    assert_eq!(
        user_vods_query("bob"),
        format!("{{\"query\":\"query {{ user(login: \\\"bob\\\") {{ videos(first: 30) {{ edges {{ node {{ {FIELDS} }} }} }} }} }}\"}}")
    );
    assert_eq!(
        video_alias(3, "123"),
        format!("v3: video(id: \\\"123\\\") {{ {FIELDS} }}")
    );
    assert_eq!(batch_query("x y"), "{\"query\":\"query { x y }\"}");
    assert_eq!(
        vod_manifest_query("42"),
        "{\"query\":\"query { video(id: \\\"42\\\") { broadcastType, createdAt, seekPreviewsURL, owner { login } } }\"}"
    );
    assert_eq!(
        video_markers_query("42"),
        "{\"query\":\"query { video(id: \\\"42\\\") { markers { id, displayTime, description, type } } }\"}"
    );
    assert_eq!(
        video_chat_query("42", -3),
        "{\"query\":\"query { video(id: \\\"42\\\") { comments(contentOffsetSeconds: -3) { edges { node { id, commenter { displayName, login, profileImageURL(width: 50) }, message { fragments { text, emote { id, setID } } }, contentOffsetSeconds, createdAt } }, pageInfo { hasNextPage } } } }\"}"
    );
    assert!(video_chat_query("42", 125).contains("comments(contentOffsetSeconds: 125)"));
    assert!(video_chat_query("42", i64::MIN).contains("contentOffsetSeconds: -9223372036854775808)"));
}

#[test]
fn channel_queries() {
    assert_eq!(
        user_info_query("bob"),
        "{\"query\":\"query { user(login: \\\"bob\\\") { id, login, displayName, profileImageURL(width: 300) } }\"}"
    );
    assert_eq!(
        user_live_query("bob"),
        "{\"query\":\"query { user(login: \\\"bob\\\") { id login displayName profileImageURL(width: 70) stream { id title viewersCount previewImageURL(width: 640, height: 360) createdAt language game { id name boxArtURL(width: 110, height: 147) } } } }\"}"
    );
    assert_eq!(
        search_channels_query("a\"b"),
        "{\"query\":\"query { searchFor(userQuery: \\\"a\\\"b\\\", platform: \\\"web\\\") { channels { edges { item { ... on User { id, login, displayName, profileImageURL(width: 300) } } } } } }\"}"
    );
    assert_eq!(
        search_global_query("q"),
        "{\"query\":\"query { searchFor(userQuery: \\\"q\\\", platform: \\\"web\\\") { channels { edges { item { ... on User { id, login, displayName, profileImageURL(width: 300), stream { id title viewersCount previewImageURL(width: 640, height: 360) }, __typename } } } }, games { edges { item { ... on Game { id, name, boxArtURL(width: 150, height: 200), __typename } } } } } }\"}"
    );
}

#[test]
fn live_queries() {
    let node = "id title viewersCount previewImageURL(width: 640, height: 360) createdAt language broadcaster { id login displayName profileImageURL(width: 70) }";
    assert_eq!(
        live_category_query("Chess", 24, ", after: \"c\""),
        format!("{{\"query\":\"query {{ game(name: \\\"Chess\\\") {{ streams(first: 24, after: \"c\") {{ edges {{ cursor node {{ {node} }} }} pageInfo {{ hasNextPage }} }} }} }}\"}}")
    );
    assert_eq!(
        live_search_category_query("Chess", 24),
        format!("{{\"query\":\"query {{ game(name: \\\"Chess\\\") {{ streams(first: 24) {{ edges {{ cursor node {{ {node} }} }} pageInfo {{ hasNextPage }} }} }} }}\"}}")
    );
    assert_eq!(
        live_search_channel_query("Chess", 24),
        "{\"query\":\"query { searchFor(userQuery: \\\"Chess\\\", target: { index: \\\"CHANNEL\\\" }, first: 24) { results { item { ... on User { id login displayName profileImageURL(width: 70) stream { id title viewersCount previewImageURL(width: 640, height: 360) createdAt language game { id name } } } } } } }\"}"
    );
    assert_eq!(
        live_streams_query(8, ""),
        "{\"query\":\"query { streams(first: 8) { edges { cursor node { id title type viewersCount previewImageURL(width: 640, height: 360) createdAt language game { id name boxArtURL(width: 110, height: 147) } broadcaster { id login displayName profileImageURL(width: 70) } } } pageInfo { hasNextPage } } }\"}"
    );
    assert_eq!(
        top_categories_query(),
        "{\"query\":\"query { topGames(first: 5) { edges { node { id name boxArtURL(width: 80, height: 107) } } } }\"}"
    );
}

#[test]
fn cache_keys() {
    assert_eq!(live_category_cache_key("abc", None, 24), "live_cat_96354_first_24");
    assert_eq!(live_category_cache_key("abc", Some("  "), 24), "live_cat_96354_first_24");
    assert_eq!(live_category_cache_key("abc", Some(" cur "), 4), "live_cat_96354_cur_4");
    assert_eq!(live_search_cache_key("abc", 48), "live_search_96354_48");
    assert_eq!(live_streams_cache_key(8, None), "live_streams_8_first");
    assert_eq!(live_streams_cache_key(8, Some("xyz")), "live_streams_8_xyz");
    assert_eq!(user_cache_key("Bob"), "user_Bob");
    assert_eq!(user_vods_cache_key("Bob"), "vods_Bob");
    assert_eq!(live_user_cache_key("bob"), "live_user_bob");
    assert_eq!(live_status_cache_key("a|b"), format!("live_status_{}", 97 * 31 * 31 + 124 * 31 + 98));
    assert_eq!(trending_cache_key("abc"), "trending_vods_96354");
    assert_eq!(normalize_login("  BoB_1 "), "bob_1");
    assert_eq!(normalize_login(""), "");
}

#[test]
fn duplicates_are_dropped() {
    let input = vec![vod("1", "a"), vod("", "b"), vod("2", "c"), vod("1", "d"), vod("", "e"), vod("2", "f"), vod("3", "g")];
    let out = dedupe_by_id(input);
    let titles: Vec<&str> = out.iter().map(|v| v.title.as_str()).collect();
    assert_eq!(titles, vec!["a", "c", "g"]);
    assert_eq!(dedupe_by_id(Vec::<Vod>::new()), vec![]);
}

#[test]
fn game_listings_are_merged() {
    let preferred = vec![vod("1", "fr1"), vod("2", "fr2")];
    let general = vec![vod("2", "g2"), vod("3", "g3"), vod("4", "g4")];
    let out = merge_game_vods(preferred.clone(), general.clone(), 3);
    let titles: Vec<&str> = out.iter().map(|v| v.title.as_str()).collect();
    assert_eq!(titles, vec!["fr1", "fr2", "g3"]);
    assert_eq!(merge_game_vods(preferred.clone(), general.clone(), 10).len(), 4);
    assert_eq!(merge_game_vods(preferred, general, 0).len(), 0);
}

#[test]
fn live_results_are_merged_by_audience() {
    let by_category = vec![live("a", 5), live("b", 50), live("", 500), live("c", 5)];
    let by_channel = vec![live("b", 9999), live("d", 50), live("e", 7)];
    let out = merge_live_results(by_category, by_channel);
    let got: Vec<(&str, u64)> = out.iter().map(|l| (l.id.as_str(), l.viewer_count)).collect();
    assert_eq!(got, vec![("b", 50), ("d", 50), ("e", 7), ("a", 5), ("c", 5)]);
}

#[test]
fn pages_are_assembled() {
    let items = vec![live("a", 1)];
    let p = live_page(items.clone(), Some("c1".to_string()), true);
    assert_eq!(p, LiveStreamsPage { items: items.clone(), next_cursor: Some("c1".to_string()), has_more: true });
    let p = live_page(items.clone(), Some("c1".to_string()), false);
    assert_eq!(p, LiveStreamsPage { items: items.clone(), next_cursor: None, has_more: false });
    let p = live_page(items.clone(), None, true);
    assert_eq!(p, LiveStreamsPage { items: items.clone(), next_cursor: None, has_more: false });
    let p = search_page(items.clone());
    assert_eq!(p, LiveStreamsPage { items, next_cursor: None, has_more: false });
    assert_eq!(next_vod_cursor(Some("c".to_string()), true), Some("c".to_string()));
    assert_eq!(next_vod_cursor(Some("c".to_string()), false), None);
    assert_eq!(next_vod_cursor(None, true), None);
}

#[test]
fn watched_ids_are_vetted() {
    assert_eq!(
        safe_vod_ids(&strings(&[" 123 ", "", "12a", "456", "-7", "\u{661}", "0"])),
        strings(&["123", "456", "0"])
    );
    let many: Vec<String> = (0..40).map(|i| format!("{i}")).collect();
    let safe = safe_vod_ids(&many);
    assert_eq!(safe.len(), 30);
    assert_eq!(safe, many[..30].to_vec());
    assert_eq!(safe_vod_ids(&vec![]), Vec::<String>::new());
}

#[test]
fn batch_query_for_watched_videos() {
    assert_eq!(watched_metadata_query(&vec![]), None);
    assert_eq!(
        watched_metadata_query(&strings(&["11", "22"])),
        Some(format!(
            "{{\"query\":\"query {{ v0: video(id: \\\"11\\\") {{ {FIELDS} }} v1: video(id: \\\"22\\\") {{ {FIELDS} }} }}\"}}"
        ))
    );
}

#[test]
fn logins_are_vetted() {
    let re = regex::Regex::new(r"^[a-z0-9_]{2,25}$").unwrap();
    for s in [
        "",
        "a",
        "ab",
        "a_b",
        "A_b",
        "ab-c",
        "0123456789012345678901234",
        "01234567890123456789012345",
        "ab\n",
        "\u{e9}\u{e9}",
        "ab ",
    ] {
        assert_eq!(is_login_exec(s), re.is_match(s), "{s:?}");
    }
    assert_eq!(
        normalize_logins(&strings(&[" Bob ", "bob", "x", "al ice", "ALICE", "car-l", "dave_1", "Bob"])),
        strings(&["bob", "alice", "dave_1"])
    );
    let many: Vec<String> = (0..100).map(|i| format!("user{i}")).collect();
    let out = normalize_logins(&many);
    assert_eq!(out.len(), 80);
    assert_eq!(out, many[..80].to_vec());
}

#[test]
fn texts_are_sorted_and_joined() {
    let input = strings(&["b", "a", "", "ab", "B", "a", "\u{e9}", "z", "aa"]);
    let mut reference = input.clone();
    reference.sort();
    assert_eq!(sort_texts(input), reference);
    assert_eq!(sort_texts(vec![]), Vec::<String>::new());
    let pairs = [("", ""), ("", "a"), ("a", ""), ("a", "b"), ("b", "a"), ("a", "ab"), ("ab", "a"), ("\u{e9}", "z"), ("\u{ffff}", "\u{10000}"), ("x", "x")];
    for (a, b) in pairs {
        assert_eq!(text_lt_exec(a, b), a < b, "{a:?} {b:?}");
    }
    assert_eq!(join_texts(&strings(&["a", "b", "c"]), "|"), "a|b|c");
    assert_eq!(join_texts(&strings(&["a"]), "|"), "a");
    assert_eq!(join_texts(&strings(&["", ""]), ", "), ", ");
    assert_eq!(join_texts(&vec![], "|"), "");
}

#[test]
fn settings_default_to_off() {
    assert_eq!(ExperienceSettings::default(), ExperienceSettings { one_sync: false });
}
