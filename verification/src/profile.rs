//! What is read of a viewer's state for the feed: the quality of a
//! candidate, the recent history and its fingerprint, the games to
//! draw candidates from, and the share of foreign items.
//!
//! Fractions are exact: each is a numerator over a fixed scale.

use crate::civil::{age_millis, elapsed_millis_since};
use crate::encoding::{
    decimal, lowercased, normal_language, normalize_language, push_decimal, push_signed_decimal,
    signed_decimal, to_lowercase,
};
use crate::feed::{channel_of, is_french};
use crate::feed::{ranked, sort_ranked, top, Ranked};
use crate::listing::{join_texts, sort_texts, sorted_texts};
use crate::text::{append_str, chars_of, holds_text, join, string_of, text_is, texts};
use crate::types::{HistoryStamp, SubEntry, Vod};
use vstd::prelude::*;

verus! {

broadcast use vstd::string::group_string_axioms;

// ---------------------------------------------------------------------
// Quality
// ---------------------------------------------------------------------

/// The scale of the length factor.
pub const LENGTH_SCALE: u64 = 29_160_000;

/// The scale of the view factor.
pub const VIEW_SCALE: u64 = 4500;

/// The scale of the quality: the product of the two scales.
pub const QUALITY_SCALE: u64 = 131_220_000_000;

/// The length factor of a video of `secs` seconds, over
/// [`LENGTH_SCALE`]: 0.01 below one minute; from there a quadratic ramp
/// that reaches 0.18 at ten minutes; from there a straight line to 1
/// at thirty minutes; 1 above.
pub open spec fn length_factor(secs: nat) -> nat {
    if secs < 60 {
        291_600
    } else if secs < 600 {
        (291_600 + 17 * (secs - 60) * (secs - 60)) as nat
    } else if secs < 1800 {
        (5_248_800 + 19_926 * (secs - 600)) as nat
    } else {
        LENGTH_SCALE as nat
    }
}

/// The view factor of a video with `views` views, over
/// [`VIEW_SCALE`]: 0.04 without views, a straight line from there to
/// 0.5 at five views, another from 0.5 to 1 at fifty, 1 above.
pub open spec fn view_factor(views: nat) -> nat {
    if views == 0 {
        180
    } else if views < 5 {
        180 + 414 * views
    } else if views < 50 {
        (2250 + 50 * (views - 5)) as nat
    } else {
        VIEW_SCALE as nat
    }
}

/// The quality of a video, over [`QUALITY_SCALE`]: the product of its
/// length factor and its view factor.
pub open spec fn quality(secs: nat, views: nat) -> nat {
    length_factor(secs) * view_factor(views)
}

/// A video is let through when its quality is at least 0.05.
pub open spec fn passes_gate(secs: nat, views: nat) -> bool {
    20 * quality(secs, views) >= QUALITY_SCALE
}

/// The quality of a video of `length_seconds` seconds with
/// `view_count` views, over [`QUALITY_SCALE`].
pub fn quality_of(length_seconds: u64, view_count: u64) -> (q: u64)
    ensures
        q == quality(length_seconds as nat, view_count as nat),
        q <= QUALITY_SCALE,
{
    let length: u64 = if length_seconds < 60 {
        291_600
    } else if length_seconds < 600 {
        let d: u64 = length_seconds - 60;
        assert(d * d <= 540 * 540) by (nonlinear_arith)
            requires
                0 <= d <= 540,
        ;
        291_600 + 17 * (d * d)
    } else if length_seconds < 1800 {
        5_248_800 + 19_926 * (length_seconds - 600)
    } else {
        LENGTH_SCALE
    };
    let views: u64 = if view_count == 0 {
        180
    } else if view_count < 5 {
        180 + 414 * view_count
    } else if view_count < 50 {
        2250 + 50 * (view_count - 5)
    } else {
        VIEW_SCALE
    };
    assert(length * views <= 29_160_000 * 4500) by (nonlinear_arith)
        requires
            0 <= length <= 29_160_000,
            0 <= views <= 4500,
    ;
    assert(17 * ((length_seconds - 60) * (length_seconds - 60)) == 17 * (length_seconds - 60) * (
    length_seconds - 60)) by (nonlinear_arith);
    length * views
}

/// Is the video of sufficient quality?
pub fn passes_quality_gate(length_seconds: u64, view_count: u64) -> (b: bool)
    ensures
        b == passes_gate(length_seconds as nat, view_count as nat),
{
    20 * quality_of(length_seconds, view_count) >= QUALITY_SCALE
}

/// A video of less than a minute is not let through, nor is one
/// without views, whatever else is known of it; a video of at least
/// half an hour with at least fifty views has the full quality.  The
/// view factor is one half at five views and never falls as the views
/// rise.
pub proof fn lemma_quality_gate(secs: nat, views: nat)
    ensures
        quality(secs, views) <= QUALITY_SCALE,
        secs < 60 ==> !passes_gate(secs, views),
        views == 0 ==> !passes_gate(secs, views),
        secs >= 1800 && views >= 50 ==> quality(secs, views) == QUALITY_SCALE,
        2 * view_factor(5) == VIEW_SCALE,
        view_factor(views) <= view_factor(views + 1) <= view_factor(views) + 414,
{
    let l = length_factor(secs);
    let v = view_factor(views);
    if 60 <= secs < 600 {
        let d = secs - 60;
        assert(d * d <= 539 * 539) by (nonlinear_arith)
            requires
                0 <= d <= 539,
        ;
        assert(17 * d * d == 17 * (d * d)) by (nonlinear_arith);
    }
    assert(l <= 29_160_000);
    assert(v <= 4500);
    assert(l * v <= 29_160_000 * 4500) by (nonlinear_arith)
        requires
            0 <= l <= 29_160_000,
            0 <= v <= 4500,
    ;
    if secs < 60 {
        assert(l * v <= 291_600 * 4500) by (nonlinear_arith)
            requires
                l == 291_600,
                0 <= v <= 4500,
        ;
    }
    if views == 0 {
        assert(l * v <= 29_160_000 * 180) by (nonlinear_arith)
            requires
                0 <= l <= 29_160_000,
                v == 180,
        ;
    }
}

// ---------------------------------------------------------------------
// What a video counts for
// ---------------------------------------------------------------------

/// The text of an optional string.
pub open spec fn opt_text(s: Option<String>) -> Option<Seq<char>> {
    match s {
        Some(t) => Some(t@),
        None => None,
    }
}

/// `s`, unless it is empty.
pub open spec fn non_empty(s: Seq<char>) -> Option<Seq<char>> {
    if s.len() == 0 {
        None
    } else {
        Some(s)
    }
}

/// The affinities that a watched video adds to.
#[derive(Debug, Clone, PartialEq, Eq)]
pub struct WatchedKeys {
    /// The name of its game.
    pub game: Option<String>,
    /// The login of its owner, in lower case.
    pub channel: Option<String>,
    /// Its language, in normal form.
    pub language: Option<String>,
}

/// The name of the game of a video, the empty text where it has none.
pub open spec fn game_of(v: Vod) -> Seq<char> {
    match v.game {
        Some(g) => g.name@,
        None => Seq::empty(),
    }
}

/// The language of a video in normal form.
pub open spec fn language_of(v: Vod) -> Seq<char> {
    normal_language(opt_text(v.language))
}

fn kept(s: String) -> (r: Option<String>)
    ensures
        opt_text(r) == non_empty(s@),
{
    if s.as_str().is_empty() {
        None
    } else {
        Some(s)
    }
}

fn language_exec(v: &Vod) -> (l: String)
    ensures
        l@ == language_of(*v),
{
    match &v.language {
        Some(l) => normalize_language(Some(l.as_str())),
        None => normalize_language(None),
    }
}

fn game_exec(v: &Vod) -> (g: String)
    ensures
        g@ == game_of(*v),
{
    match &v.game {
        Some(g) => g.name.clone(),
        None => String::new(),
    }
}

fn channel_exec(v: &Vod) -> (c: String)
    ensures
        c@ == channel_of(*v),
{
    match &v.owner {
        Some(o) => to_lowercase(o.login.as_str()),
        None => String::new(),
    }
}

/// Tells which affinities a watched video adds to: that of its game,
/// of its channel and of its language, each only where the video has
/// one that is not empty.
pub fn watched_keys(vod: &Vod) -> (keys: WatchedKeys)
    ensures
        opt_text(keys.game) == non_empty(game_of(*vod)),
        opt_text(keys.channel) == non_empty(channel_of(*vod)),
        opt_text(keys.language) == non_empty(language_of(*vod)),
{
    WatchedKeys {
        game: kept(game_exec(vod)),
        channel: kept(channel_exec(vod)),
        language: kept(language_exec(vod)),
    }
}

/// What the score of a candidate is made from.
#[derive(Debug, Clone, PartialEq, Eq)]
pub struct Signals {
    /// Whether the candidate is of sufficient quality; a candidate that
    /// is not has its quality for a score.
    pub passes: bool,
    /// The name of its game, empty where it has none.
    pub game: String,
    /// The login of its owner in lower case, empty where it has none.
    pub channel: String,
    /// Its language, in normal form.
    pub language: String,
    /// Whether it is French.
    pub french: bool,
    /// Whether its channel is subscribed to.
    pub subscribed: bool,
    /// Its age, in milliseconds, sixty days at most.
    pub age_millis: u64,
}

/// Reads from a candidate what its score is made from, at the instant
/// `now_millis`; `subscribed` holds the logins subscribed to, in lower
/// case.
pub fn candidate_signals(vod: &Vod, subscribed: &Vec<String>, now_millis: u64) -> (s: Signals)
    ensures
        s.passes == passes_gate(vod.length_seconds as nat, vod.view_count as nat),
        s.game@ == game_of(*vod),
        s.channel@ == channel_of(*vod),
        s.language@ == language_of(*vod),
        s.french == is_french(*vod),
        s.subscribed == texts(subscribed@).contains(channel_of(*vod)),
        s.age_millis == age_millis(vod.created_at@, now_millis),
{
    let channel = channel_exec(vod);
    let language = language_exec(vod);
    let french = text_is(&chars_of(language.as_str()), "fr");
    let is_subscribed = holds_text(subscribed, &channel);
    Signals {
        passes: passes_quality_gate(vod.length_seconds, vod.view_count),
        game: game_exec(vod),
        channel,
        language,
        french,
        subscribed: is_subscribed,
        age_millis: elapsed_millis_since(vod.created_at.as_str(), now_millis),
    }
}

// ---------------------------------------------------------------------
// The share of foreign items
// ---------------------------------------------------------------------

/// The least share of foreign items, in millionths.
pub const MIN_FOREIGN_PPM: u32 = 160_000;

/// The greatest share of foreign items, in millionths.
pub const MAX_FOREIGN_PPM: u32 = 400_000;

/// The share of foreign items in the feed, in millionths: 0.16 and
/// 0.35 times the part that `foreign` has in `total`, at most 0.40;
/// 0.16 where `total` is zero.
pub open spec fn foreign_share(foreign: nat, total: nat) -> nat {
    if total == 0 {
        MIN_FOREIGN_PPM as nat
    } else {
        let raw = MIN_FOREIGN_PPM + (350_000 * foreign) / total;
        if raw > MAX_FOREIGN_PPM {
            MAX_FOREIGN_PPM as nat
        } else {
            raw as nat
        }
    }
}

/// The share of foreign items for a viewer whose affinity to
/// languages other than French is `foreign_weight` out of a total
/// affinity to languages of `total_weight`.
pub fn foreign_ratio_ppm(foreign_weight: u64, total_weight: u64) -> (ppm: u32)
    ensures
        ppm == foreign_share(foreign_weight as nat, total_weight as nat),
        MIN_FOREIGN_PPM <= ppm <= MAX_FOREIGN_PPM,
{
    if total_weight == 0 {
        return MIN_FOREIGN_PPM;
    }
    let part: u128 = (350_000 * (foreign_weight as u128)) / (total_weight as u128);
    if part > 240_000 {
        MAX_FOREIGN_PPM
    } else {
        MIN_FOREIGN_PPM + (part as u32)
    }
}

// ---------------------------------------------------------------------
// History and its fingerprint
// ---------------------------------------------------------------------

impl Ranked for HistoryStamp {
    open spec fn rank(&self) -> u64 {
        self.updated_at
    }

    fn rank_of(&self) -> (r: u64) {
        self.updated_at
    }
}

/// How many entries of the history are read.
pub const HISTORY_LIMIT: usize = 35;

/// The width of the buckets into which update times fall, in
/// milliseconds: ten minutes.
pub const UPDATE_BUCKET: u64 = 600_000;

/// The entries of the history that are read: the [`HISTORY_LIMIT`]
/// updated last, the latest first.
pub fn recent_history(history: Vec<HistoryStamp>) -> (r: Vec<HistoryStamp>)
    ensures
        r@ == top(ranked(history@), HISTORY_LIMIT as nat),
{
    let mut r = sort_ranked(history);
    if r.len() > HISTORY_LIMIT {
        r.truncate(HISTORY_LIMIT);
    }
    r
}

/// The identifiers of the videos of the entries, in order.
pub fn watched_ids(recent: &Vec<HistoryStamp>) -> (ids: Vec<String>)
    ensures
        ids@.len() == recent@.len(),
        forall|i: int| 0 <= i < ids@.len() ==> (#[trigger] ids@[i])@ == recent@[i].vod_id@,
{
    let mut ids: Vec<String> = Vec::new();
    let mut i: usize = 0;
    while i < recent.len()
        invariant
            i <= recent.len(),
            ids@.len() == i,
            forall|j: int| 0 <= j < i ==> (#[trigger] ids@[j])@ == recent@[j].vod_id@,
        decreases recent.len() - i,
    {
        ids.push(recent[i].vod_id.clone());
        i += 1;
    }
    ids
}

/// One entry as it stands in the fingerprint: identifier, position,
/// length and the bucket of the update time, separated by commas.
pub open spec fn stamp_text(e: HistoryStamp) -> Seq<char> {
    e.vod_id@ + seq![','] + signed_decimal(e.timecode as int) + seq![','] + signed_decimal(
        e.duration as int,
    ) + seq![','] + decimal((e.updated_at / UPDATE_BUCKET) as nat)
}

/// The texts of the entries.
pub open spec fn stamp_texts(recent: Seq<HistoryStamp>) -> Seq<Seq<char>> {
    recent.map_values(|e: HistoryStamp| stamp_text(e))
}

/// The logins of subscriptions, in lower case.
pub open spec fn sub_logins(subs: Seq<SubEntry>) -> Seq<Seq<char>> {
    subs.map_values(|s: SubEntry| lowercased(s.login@))
}

/// The text that tells one viewing state from another: the entries of
/// the recent history joined by `;`, then `|`, then the logins of the
/// subscriptions, sorted, joined by `,`.
pub open spec fn viewing_state_text(recent: Seq<HistoryStamp>, subs: Seq<SubEntry>) -> Seq<char> {
    join(stamp_texts(recent), seq![';']) + seq!['|'] + join(
        sorted_texts(sub_logins(subs)),
        seq![','],
    )
}

/// The logins of the subscriptions, in lower case, in order.
pub fn subscribed_logins(subs: &Vec<SubEntry>) -> (logins: Vec<String>)
    ensures
        texts(logins@) == sub_logins(subs@),
{
    let mut logins: Vec<String> = Vec::new();
    let mut i: usize = 0;
    assert(texts(logins@) =~= sub_logins(subs@).take(0));
    while i < subs.len()
        invariant
            i <= subs.len(),
            texts(logins@) == sub_logins(subs@).take(i as int),
        decreases subs.len() - i,
    {
        let ghost before = logins@;
        logins.push(to_lowercase(subs[i].login.as_str()));
        assert(texts(logins@) =~= texts(before).push(lowercased(subs@[i as int].login@)));
        assert(sub_logins(subs@).take(i + 1) =~= sub_logins(subs@).take(i as int).push(
            sub_logins(subs@)[i as int],
        ));
        assert(texts(logins@) =~= sub_logins(subs@).take(i + 1));
        i += 1;
    }
    assert(sub_logins(subs@).take(subs.len() as int) =~= sub_logins(subs@));
    logins
}

/// Writes the text of a viewing state.
pub fn viewing_state(recent: &Vec<HistoryStamp>, subs: &Vec<SubEntry>) -> (state: String)
    ensures
        state@ == viewing_state_text(recent@, subs@),
{
    let mut stamps: Vec<String> = Vec::new();
    let mut i: usize = 0;
    assert(texts(stamps@) =~= stamp_texts(recent@).take(0));
    while i < recent.len()
        invariant
            i <= recent.len(),
            texts(stamps@) == stamp_texts(recent@).take(i as int),
        decreases recent.len() - i,
    {
        let e = &recent[i];
        let mut t: Vec<char> = Vec::new();
        append_str(&mut t, e.vod_id.as_str());
        t.push(',');
        push_signed_decimal(&mut t, e.timecode);
        t.push(',');
        push_signed_decimal(&mut t, e.duration);
        t.push(',');
        push_decimal(&mut t, e.updated_at / UPDATE_BUCKET);
        assert(t@ =~= stamp_text(recent@[i as int]));
        let ghost before = stamps@;
        stamps.push(string_of(&t));
        assert(texts(stamps@) =~= texts(before).push(t@));
        assert(stamp_texts(recent@).take(i + 1) =~= stamp_texts(recent@).take(i as int).push(
            stamp_texts(recent@)[i as int],
        ));
        assert(texts(stamps@) =~= stamp_texts(recent@).take(i + 1));
        i += 1;
    }
    assert(stamp_texts(recent@).take(recent.len() as int) =~= stamp_texts(recent@));
    let logins = sort_texts(subscribed_logins(subs));
    let mut out: Vec<char> = Vec::new();
    append_str(&mut out, join_texts(&stamps, ";").as_str());
    out.push('|');
    append_str(&mut out, join_texts(&logins, ",").as_str());
    proof {
        reveal_strlit(";");
        reveal_strlit(",");
        assert(";"@ =~= seq![';']);
        assert(","@ =~= seq![',']);
        assert(out@ =~= viewing_state_text(recent@, subs@));
    }
    string_of(&out)
}

// ---------------------------------------------------------------------
// The games and channels to draw from
// ---------------------------------------------------------------------

/// How many videos of a game are asked for, in each language form.
pub const CANDIDATES_PER_GAME: usize = 18;

/// How many subscribed channels are asked for their videos.
pub const SOURCED_CHANNELS: usize = 10;

/// The logins of subscriptions, as they are stored.
pub open spec fn stored_logins(subs: Seq<SubEntry>) -> Seq<Seq<char>> {
    subs.map_values(|s: SubEntry| s.login@)
}

/// The channels whose videos are candidates: the first
/// [`SOURCED_CHANNELS`] subscriptions.
pub fn channels_to_draw(subs: &Vec<SubEntry>) -> (logins: Vec<String>)
    ensures
        texts(logins@) == top(stored_logins(subs@), SOURCED_CHANNELS as nat),
{
    let n: usize = if subs.len() > SOURCED_CHANNELS {
        SOURCED_CHANNELS
    } else {
        subs.len()
    };
    let mut logins: Vec<String> = Vec::new();
    let mut i: usize = 0;
    assert(texts(logins@) =~= stored_logins(subs@).take(0));
    while i < n
        invariant
            i <= n <= subs.len(),
            texts(logins@) == stored_logins(subs@).take(i as int),
        decreases n - i,
    {
        let ghost before = logins@;
        logins.push(subs[i].login.clone());
        assert(texts(logins@) =~= texts(before).push(subs@[i as int].login@));
        assert(stored_logins(subs@).take(i + 1) =~= stored_logins(subs@).take(i as int).push(
            stored_logins(subs@)[i as int],
        ));
        i += 1;
    }
    assert(stored_logins(subs@).take(subs.len() as int) =~= stored_logins(subs@));
    logins
}

/// A game with the viewer's affinity to it.
#[derive(Debug, Clone, PartialEq, Eq)]
pub struct GameAffinity {
    pub name: String,
    pub weight: u64,
}

impl Ranked for GameAffinity {
    open spec fn rank(&self) -> u64 {
        self.weight
    }

    fn rank_of(&self) -> (r: u64) {
        self.weight
    }
}

/// The names of games.
pub open spec fn game_names(games: Seq<GameAffinity>) -> Seq<Seq<char>> {
    games.map_values(|g: GameAffinity| g.name@)
}

/// `s` with `Just Chatting` at its end, unless it holds it already.
pub open spec fn with_default_game(s: Seq<Seq<char>>) -> Seq<Seq<char>> {
    if s.contains("Just Chatting"@) {
        s
    } else {
        s.push("Just Chatting"@)
    }
}

/// `s` without the elements that repeat the element before them.
pub open spec fn without_repeats(s: Seq<Seq<char>>) -> Seq<Seq<char>>
    decreases s.len(),
{
    if s.len() <= 1 {
        s
    } else if s.last() == s[s.len() - 2] {
        without_repeats(s.drop_last())
    } else {
        without_repeats(s.drop_last()).push(s.last())
    }
}

/// The games from which candidates are drawn: the three with the
/// greatest affinity, then `Just Chatting` unless it is among them;
/// repeats dropped; four at most.
pub open spec fn drawn_games(games: Seq<GameAffinity>) -> Seq<Seq<char>> {
    top(without_repeats(with_default_game(game_names(top(ranked(games), 3)))), 4)
}

/// Picks the games from which candidates are drawn.
pub fn top_games(games: Vec<GameAffinity>) -> (names: Vec<String>)
    ensures
        texts(names@) == drawn_games(games@),
{
    let mut best = sort_ranked(games);
    if best.len() > 3 {
        best.truncate(3);
    }
    let ghost chosen = best@;
    let mut picked: Vec<String> = Vec::new();
    let mut has_default = false;
    let ghost mut done: int = 0;
    assert(texts(picked@) =~= game_names(chosen).take(0));
    while best.len() > 0
        invariant
            0 <= done <= chosen.len(),
            best@ == chosen.skip(done),
            texts(picked@) == game_names(chosen).take(done),
            has_default == texts(picked@).contains("Just Chatting"@),
        decreases best@.len(),
    {
        let ghost old_best = best@;
        let g = best.remove(0);
        let ghost before = picked@;
        proof {
            assert(g == old_best[0]);
            assert(chosen.skip(done)[0] == chosen[done]);
        }
        if text_is(&chars_of(g.name.as_str()), "Just Chatting") {
            has_default = true;
        }
        picked.push(g.name);
        proof {
            assert(best@ =~= chosen.skip(done + 1));
            assert(texts(picked@) =~= texts(before).push(g.name@));
            assert(game_names(chosen).take(done + 1) =~= game_names(chosen).take(done).push(
                game_names(chosen)[done],
            ));
            assert(texts(picked@) =~= game_names(chosen).take(done + 1));
            if texts(picked@).contains("Just Chatting"@) {
                let k = choose|k: int|
                    0 <= k < texts(picked@).len() && texts(picked@)[k] == "Just Chatting"@;
                if k < before.len() {
                    assert(texts(before)[k] == "Just Chatting"@);
                }
            }
            if texts(before).contains("Just Chatting"@) {
                let k = choose|k: int|
                    0 <= k < texts(before).len() && texts(before)[k] == "Just Chatting"@;
                assert(texts(picked@)[k] == "Just Chatting"@);
            }
            if g.name@ == "Just Chatting"@ {
                assert(texts(picked@)[before.len() as int] == "Just Chatting"@);
            }
            done = done + 1;
        }
    }
    assert(game_names(chosen).take(chosen.len() as int) =~= game_names(chosen));
    if !has_default {
        let ghost before = picked@;
        picked.push("Just Chatting".to_owned());
        assert(texts(picked@) =~= texts(before).push("Just Chatting"@));
    }
    let ghost all = texts(picked@);
    assert(all == with_default_game(game_names(chosen)));
    let mut names: Vec<String> = Vec::new();
    let mut rest = picked;
    let mut last: Option<String> = None;
    let ghost mut seen: int = 0;
    assert(texts(names@) =~= without_repeats(all.take(0)));
    while rest.len() > 0
        invariant
            0 <= seen <= all.len(),
            texts(rest@) == all.skip(seen),
            texts(names@) == without_repeats(all.take(seen)),
            seen == 0 <==> last is None,
            last matches Some(l) ==> l@ == all[seen - 1],
        decreases rest@.len(),
    {
        let ghost old_rest = rest@;
        let x = rest.remove(0);
        let repeat = match &last {
            Some(l) => *l == x,
            None => false,
        };
        proof {
            assert(texts(old_rest).len() == old_rest.len());
            assert(seen < all.len());
            assert(texts(old_rest)[0] == x@);
            assert(all.skip(seen)[0] == x@);
            assert(rest@ =~= old_rest.skip(1));
            assert(texts(rest@) =~= texts(old_rest).skip(1));
            assert(texts(rest@) =~= all.skip(seen + 1));
            assert(all.take(seen + 1).drop_last() =~= all.take(seen));
            assert(all.take(seen + 1).last() == x@);
            if seen > 0 {
                assert(all.take(seen + 1)[seen - 1] == all[seen - 1]);
            }
        }
        if !repeat {
            let ghost before = names@;
            names.push(x.clone());
            assert(texts(names@) =~= texts(before).push(x@));
        }
        last = Some(x);
        proof {
            seen = seen + 1;
        }
    }
    assert(all.take(all.len() as int) =~= all);
    if names.len() > 4 {
        let ghost before = names@;
        names.truncate(4);
        assert(texts(names@) =~= texts(before).take(4));
    }
    names
}

} // verus!
