use nosubvod::profile::channels_to_draw;
use nosubvod::store::{add_sub, add_to_watchlist, remove_from_watchlist, remove_sub, update_settings};
use nosubvod::types::{ExperienceSettings, SubEntry, WatchlistEntry};

fn watch(id: &str, added_at: u64) -> WatchlistEntry {
    WatchlistEntry {
        vod_id: id.to_string(),
        title: format!("t{id}"),
        preview_thumbnail_url: String::new(),
        length_seconds: 10,
        added_at,
    }
}

fn sub(login: &str, name: &str) -> SubEntry {
    SubEntry {
        login: login.to_string(),
        display_name: name.to_string(),
        profile_image_url: "img".to_string(),
    }
}

#[test]
fn watchlist_takes_each_video_once() {
    let (list, changed) = add_to_watchlist(vec![], watch("1", 0), 500);
    assert!(changed);
    assert_eq!(list, vec![watch("1", 500)]);
    let (list, changed) = add_to_watchlist(list, watch("2", 7), 600);
    assert!(changed);
    assert_eq!(list, vec![watch("1", 500), watch("2", 600)]);
    let (list, changed) = add_to_watchlist(list, watch("1", 7), 700);
    assert!(!changed);
    assert_eq!(list, vec![watch("1", 500), watch("2", 600)]);
}

#[test]
fn watchlist_entries_are_removed_by_video() {
    let list = vec![watch("1", 1), watch("2", 2), watch("1", 3), watch("3", 4)];
    assert_eq!(remove_from_watchlist(list.clone(), "1"), vec![watch("2", 2), watch("3", 4)]);
    assert_eq!(remove_from_watchlist(list.clone(), "9"), list);
    assert_eq!(remove_from_watchlist(vec![], "1"), vec![]);
}

#[test]
fn subscriptions_are_stored_under_normal_logins() {
    let (list, ok) = add_sub(vec![], sub("  BoB ", "Bob"));
    assert!(ok);
    assert_eq!(list, vec![sub("bob", "Bob")]);
    let (list, ok) = add_sub(list, sub("BOB", "Other"));
    assert!(ok);
    assert_eq!(list, vec![sub("bob", "Bob")]);
    let (list, ok) = add_sub(list, sub("   ", "Nobody"));
    assert!(!ok);
    assert_eq!(list, vec![sub("bob", "Bob")]);
    let (list, ok) = add_sub(list, sub("alice", "Alice"));
    assert!(ok);
    assert_eq!(list, vec![sub("bob", "Bob"), sub("alice", "Alice")]);
}

#[test]
fn subscriptions_are_removed_by_login() {
    let list = vec![sub("bob", "Bob"), sub("alice", "Alice"), sub("Carl", "Carl")];
    assert_eq!(
        remove_sub(list.clone(), " BOB "),
        vec![sub("alice", "Alice"), sub("Carl", "Carl")]
    );
    // stored logins are compared as they are
    assert_eq!(remove_sub(list.clone(), "carl"), list);
    assert_eq!(remove_sub(list.clone(), "nobody"), list);
}

#[test]
fn settings_change_only_where_named() {
    let on = ExperienceSettings { one_sync: true };
    let off = ExperienceSettings { one_sync: false };
    assert_eq!(update_settings(off.clone(), None), off);
    assert_eq!(update_settings(on.clone(), None), on);
    assert_eq!(update_settings(off.clone(), Some(true)), on);
    assert_eq!(update_settings(on.clone(), Some(false)), off);
}

#[test]
fn first_ten_subscriptions_are_drawn() {
    let subs: Vec<SubEntry> = (0..15).map(|i| sub(&format!("Chan{i}"), "x")).collect();
    let drawn = channels_to_draw(&subs);
    assert_eq!(drawn.len(), 10);
    assert_eq!(drawn[0], "Chan0");
    assert_eq!(drawn[9], "Chan9");
    assert_eq!(channels_to_draw(&subs[..3].to_vec()).len(), 3);
    assert_eq!(channels_to_draw(&vec![]).len(), 0);
}
