//! What a change does to the lists that are kept for a viewer: the
//! watch list, the subscriptions and the settings.

use crate::gql::{login_of, normalize_login};
use crate::types::{ExperienceSettings, SubEntry, WatchlistEntry};
use vstd::prelude::*;

verus! {

/// Some entry of the watch list is for the video `vod_id`.
pub open spec fn on_watchlist(list: Seq<WatchlistEntry>, vod_id: Seq<char>) -> bool {
    exists|i: int| 0 <= i < list.len() && (#[trigger] list[i]).vod_id@ == vod_id
}

/// The watch list with `entry` added at the instant `now_millis`: a
/// video that is on the list already is not added again.
pub open spec fn watchlist_plus(list: Seq<WatchlistEntry>, entry: WatchlistEntry, now_millis: u64) -> Seq<
    WatchlistEntry,
> {
    if on_watchlist(list, entry.vod_id@) {
        list
    } else {
        list.push(
            WatchlistEntry {
                vod_id: entry.vod_id,
                title: entry.title,
                preview_thumbnail_url: entry.preview_thumbnail_url,
                length_seconds: entry.length_seconds,
                added_at: now_millis,
            },
        )
    }
}

/// Adds a video to the watch list and tells whether the list changed.
pub fn add_to_watchlist(list: Vec<WatchlistEntry>, entry: WatchlistEntry, now_millis: u64) -> (r: (
    Vec<WatchlistEntry>,
    bool,
))
    ensures
        r.0@ == watchlist_plus(list@, entry, now_millis),
        r.1 == !on_watchlist(list@, entry.vod_id@),
{
    let mut items = list;
    let mut i: usize = 0;
    while i < items.len()
        invariant
            i <= items.len(),
            items@ == list@,
            forall|j: int| 0 <= j < i ==> (#[trigger] items@[j]).vod_id@ != entry.vod_id@,
        decreases items.len() - i,
    {
        if items[i].vod_id == entry.vod_id {
            assert(list@[i as int].vod_id@ == entry.vod_id@);
            return (items, false);
        }
        i += 1;
    }
    let mut added = entry;
    added.added_at = now_millis;
    items.push(added);
    (items, true)
}

/// The watch list without the entries for the video `vod_id`.
pub open spec fn watchlist_minus(list: Seq<WatchlistEntry>, vod_id: Seq<char>) -> Seq<WatchlistEntry>
    decreases list.len(),
{
    if list.len() == 0 {
        list
    } else if list.last().vod_id@ == vod_id {
        watchlist_minus(list.drop_last(), vod_id)
    } else {
        watchlist_minus(list.drop_last(), vod_id).push(list.last())
    }
}

/// Removes a video from the watch list.
pub fn remove_from_watchlist(list: Vec<WatchlistEntry>, vod_id: &str) -> (r: Vec<WatchlistEntry>)
    ensures
        r@ == watchlist_minus(list@, vod_id@),
{
    let ghost all = list@;
    let id = vod_id.to_owned();
    let mut rest = list;
    let mut kept: Vec<WatchlistEntry> = Vec::new();
    let ghost mut done: int = 0;
    assert(all.take(0) =~= Seq::<WatchlistEntry>::empty());
    while rest.len() > 0
        invariant
            0 <= done <= all.len(),
            rest@ == all.skip(done),
            id@ == vod_id@,
            kept@ == watchlist_minus(all.take(done), vod_id@),
        decreases rest@.len(),
    {
        let x = rest.remove(0);
        proof {
            assert(all.take(done + 1).drop_last() =~= all.take(done));
            assert(all.take(done + 1).last() == x);
            assert(rest@ =~= all.skip(done + 1));
            done = done + 1;
        }
        if x.vod_id != id {
            kept.push(x);
        }
    }
    assert(all.take(all.len() as int) =~= all);
    kept
}

/// Some subscription has the login `login`.
pub open spec fn subscribed_to(list: Seq<SubEntry>, login: Seq<char>) -> bool {
    exists|i: int| 0 <= i < list.len() && (#[trigger] list[i]).login@ == login
}

/// The subscriptions with `entry` added under its login, trimmed and
/// in lower case: nothing is added where that login is empty or
/// subscribed to already.
pub open spec fn subs_plus(list: Seq<SubEntry>, entry: SubEntry, login: String) -> Seq<SubEntry> {
    if login@.len() == 0 || subscribed_to(list, login@) {
        list
    } else {
        list.push(
            SubEntry {
                login,
                display_name: entry.display_name,
                profile_image_url: entry.profile_image_url,
            },
        )
    }
}

/// Adds a subscription.  The second part of the result tells whether
/// the login was one to subscribe to: it is false only for an empty
/// login.
pub fn add_sub(list: Vec<SubEntry>, entry: SubEntry) -> (r: (Vec<SubEntry>, bool))
    ensures
        r.1 == (login_of(entry.login@).len() > 0),
        exists|login: String|
            login@ == login_of(entry.login@) && r.0@ == #[trigger] subs_plus(list@, entry, login),
{
    let mut items = list;
    let login = normalize_login(entry.login.as_str());
    if login.as_str().is_empty() {
        assert(items@ == subs_plus(list@, entry, login));
        return (items, false);
    }
    let mut i: usize = 0;
    while i < items.len()
        invariant
            i <= items.len(),
            items@ == list@,
            login@.len() > 0,
            login@ == login_of(entry.login@),
            forall|j: int| 0 <= j < i ==> (#[trigger] items@[j]).login@ != login@,
        decreases items.len() - i,
    {
        if items[i].login == login {
            assert(list@[i as int].login@ == login@);
            assert(items@ == subs_plus(list@, entry, login));
            return (items, true);
        }
        i += 1;
    }
    let ghost chosen = login;
    items.push(
        SubEntry {
            login,
            display_name: entry.display_name,
            profile_image_url: entry.profile_image_url,
        },
    );
    assert(items@ == subs_plus(list@, entry, chosen));
    (items, true)
}

/// The subscriptions without those with the login `login`.
pub open spec fn subs_minus(list: Seq<SubEntry>, login: Seq<char>) -> Seq<SubEntry>
    decreases list.len(),
{
    if list.len() == 0 {
        list
    } else if list.last().login@ == login {
        subs_minus(list.drop_last(), login)
    } else {
        subs_minus(list.drop_last(), login).push(list.last())
    }
}

/// Removes the subscription to the channel `login`, which is trimmed
/// and put in lower case first.
pub fn remove_sub(list: Vec<SubEntry>, login: &str) -> (r: Vec<SubEntry>)
    ensures
        r@ == subs_minus(list@, login_of(login@)),
{
    let ghost all = list@;
    let wanted = normalize_login(login);
    let mut rest = list;
    let mut kept: Vec<SubEntry> = Vec::new();
    let ghost mut done: int = 0;
    assert(all.take(0) =~= Seq::<SubEntry>::empty());
    while rest.len() > 0
        invariant
            0 <= done <= all.len(),
            rest@ == all.skip(done),
            wanted@ == login_of(login@),
            kept@ == subs_minus(all.take(done), wanted@),
        decreases rest@.len(),
    {
        let x = rest.remove(0);
        proof {
            assert(all.take(done + 1).drop_last() =~= all.take(done));
            assert(all.take(done + 1).last() == x);
            assert(rest@ =~= all.skip(done + 1));
            done = done + 1;
        }
        if x.login != wanted {
            kept.push(x);
        }
    }
    assert(all.take(all.len() as int) =~= all);
    kept
}

/// The settings after a change: a setting that is not named stays.
pub fn update_settings(settings: ExperienceSettings, one_sync: Option<bool>) -> (r:
    ExperienceSettings)
    ensures
        r.one_sync == (match one_sync {
            Some(v) => v,
            None => settings.one_sync,
        }),
{
    match one_sync {
        Some(v) => ExperienceSettings { one_sync: v },
        None => settings,
    }
}

} // verus!
