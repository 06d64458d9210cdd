//! The selection of a feed: candidates are ranked by score, capped per
//! channel, and interleaved by language.
//!
//! Scores are unsigned integers; only their order is read.

use crate::encoding::{lowercased, normal_language, normalize_language, to_lowercase};
use crate::text::{chars_of, holds_text, text_is, texts};
use crate::types::Vod;
use vstd::prelude::*;

verus! {

// ---------------------------------------------------------------------
// Ranking
// ---------------------------------------------------------------------

/// A thing with a rank; a higher rank comes first.
pub trait Ranked {
    /// The rank.
    spec fn rank(&self) -> u64;

    /// Reads the rank.
    fn rank_of(&self) -> (r: u64)
        ensures
            r == self.rank(),
    ;
}

/// A candidate with its score.
#[derive(Debug, Clone, PartialEq, Eq)]
pub struct ScoredVod {
    pub vod: Vod,
    pub score: u64,
}

impl Ranked for ScoredVod {
    open spec fn rank(&self) -> u64 {
        self.score
    }

    fn rank_of(&self) -> (r: u64) {
        self.score
    }
}

/// The first index at or after `from` whose element does not rank
/// above `rank`, or the length of `s`.
pub open spec fn first_not_above<T: Ranked>(s: Seq<T>, rank: u64, from: int) -> int
    decreases s.len() - from,
{
    if from < 0 || from >= s.len() {
        s.len() as int
    } else if s[from].rank() <= rank {
        from
    } else {
        first_not_above(s, rank, from + 1)
    }
}

/// `x` put into the ranked sequence `sorted`: behind everything that
/// ranks above it, in front of everything else.
pub open spec fn insert_ranked<T: Ranked>(x: T, sorted: Seq<T>) -> Seq<T> {
    sorted.insert(first_not_above(sorted, x.rank(), 0), x)
}

/// `s` in descending order of rank; elements of equal rank keep the
/// order they have in `s`.
pub open spec fn ranked<T: Ranked>(s: Seq<T>) -> Seq<T>
    decreases s.len(),
{
    if s.len() == 0 {
        s
    } else {
        insert_ranked(s[0], ranked(s.drop_first()))
    }
}

/// The first `n` elements of `s`, or all of it.
pub open spec fn top<T>(s: Seq<T>, n: nat) -> Seq<T> {
    if s.len() > n {
        s.take(n as int)
    } else {
        s
    }
}

proof fn lemma_first_not_above_bounds<T: Ranked>(s: Seq<T>, rank: u64, from: int)
    requires
        0 <= from <= s.len(),
    ensures
        from <= first_not_above(s, rank, from) <= s.len(),
        forall|k: int| from <= k < first_not_above(s, rank, from) ==> (#[trigger] s[k]).rank() > rank,
        first_not_above(s, rank, from) < s.len() ==> s[first_not_above(s, rank, from)].rank()
            <= rank,
    decreases s.len() - from,
{
    if from < s.len() && s[from].rank() > rank {
        lemma_first_not_above_bounds(s, rank, from + 1);
    }
}

/// Sorts by descending rank, keeping the order of equal ranks.
pub fn sort_ranked<T: Ranked>(items: Vec<T>) -> (r: Vec<T>)
    ensures
        r@ == ranked(items@),
{
    let ghost all = items@;
    let mut items = items;
    let mut out: Vec<T> = Vec::new();
    assert(all.skip(all.len() as int) =~= Seq::<T>::empty());
    while items.len() > 0
        invariant
            items@ == all.take(items@.len() as int),
            items@.len() <= all.len(),
            out@ == ranked(all.skip(items@.len() as int)),
        decreases items@.len(),
    {
        let ghost n = items@.len() as int;
        let x = items.pop().unwrap();
        let rank: u64 = x.rank_of();
        let mut p: usize = 0;
        while p < out.len() && out[p].rank_of() > rank
            invariant
                p <= out.len(),
                first_not_above(out@, rank, 0) == first_not_above(out@, rank, p as int),
            decreases out.len() - p,
        {
            p += 1;
        }
        proof {
            assert(all.skip(n - 1)[0] == x);
            assert(all.skip(n - 1).drop_first() =~= all.skip(n));
            assert(items@ =~= all.take(n - 1));
        }
        out.insert(p, x);
    }
    assert(all.skip(0) =~= all);
    out
}

/// How many candidates are ranked.
pub const RANKED_LIMIT: usize = 120;

/// Ranks the candidates by score, best first, and keeps the best
/// [`RANKED_LIMIT`].
pub fn rank_candidates(scored: Vec<ScoredVod>) -> (r: Vec<ScoredVod>)
    ensures
        r@ == top(ranked(scored@), RANKED_LIMIT as nat),
{
    let mut r = sort_ranked(scored);
    if r.len() > RANKED_LIMIT {
        r.truncate(RANKED_LIMIT);
    }
    r
}

// ---------------------------------------------------------------------
// The cap per channel
// ---------------------------------------------------------------------

/// The channel of a video: the login of its owner in lower case, the
/// empty text where it has no owner.
pub open spec fn channel_of(v: Vod) -> Seq<char> {
    match v.owner {
        Some(o) => lowercased(o.login@),
        None => Seq::empty(),
    }
}

/// How many videos of a channel are let through when `favoured` tells
/// whether the viewer subscribes to the channel or has watched it.
pub open spec fn slots(favoured: bool) -> nat {
    if favoured {
        3
    } else {
        2
    }
}

/// Whether the channel of `v` is favoured: it is subscribed to, or the
/// video has an owner whose channel has a recorded affinity.
pub open spec fn favoured(v: Vod, subscribed: Seq<Seq<char>>, affine: Seq<Seq<char>>) -> bool {
    subscribed.contains(channel_of(v)) || (v.owner is Some && affine.contains(channel_of(v)))
}

/// How many elements of `kept` belong to the channel `channel`.
pub open spec fn channel_count(kept: Seq<ScoredVod>, channel: Seq<char>) -> nat
    decreases kept.len(),
{
    if kept.len() == 0 {
        0
    } else {
        channel_count(kept.drop_last(), channel) + if channel_of(kept.last().vod) == channel {
            1nat
        } else {
            0nat
        }
    }
}

/// The candidates that pass the cap: going through `s` in order, a
/// candidate is kept while fewer than the slots of its channel are
/// taken by candidates kept before it.
pub open spec fn capped(s: Seq<ScoredVod>, subscribed: Seq<Seq<char>>, affine: Seq<Seq<char>>) -> Seq<
    ScoredVod,
>
    decreases s.len(),
{
    if s.len() == 0 {
        s
    } else {
        let kept = capped(s.drop_last(), subscribed, affine);
        let x = s.last();
        if channel_count(kept, channel_of(x.vod)) < slots(favoured(x.vod, subscribed, affine)) {
            kept.push(x)
        } else {
            kept
        }
    }
}

fn channel_of_exec(v: &Vod) -> (c: String)
    ensures
        c@ == channel_of(*v),
{
    match &v.owner {
        Some(o) => to_lowercase(o.login.as_str()),
        None => String::new(),
    }
}

/// Caps the number of videos per channel: three for a channel that is
/// subscribed to or has a recorded affinity, two for any other.  The
/// candidates are taken in the order given, so that with ranked
/// candidates the best of each channel stay.
pub fn cap_per_channel(scored: Vec<ScoredVod>, subscribed: &Vec<String>, affine: &Vec<String>) -> (r:
    Vec<ScoredVod>)
    ensures
        r@ == capped(scored@, texts(subscribed@), texts(affine@)),
{
    let ghost all = scored@;
    let ghost subs = texts(subscribed@);
    let ghost aff = texts(affine@);
    let mut rest = scored;
    let mut kept: Vec<ScoredVod> = Vec::new();
    let mut channels: Vec<String> = Vec::new();
    let ghost mut done: int = 0;
    assert(all.take(0) =~= Seq::<ScoredVod>::empty());
    while rest.len() > 0
        invariant
            0 <= done <= all.len(),
            rest@ == all.skip(done),
            subs == texts(subscribed@),
            aff == texts(affine@),
            kept@ == capped(all.take(done), subs, aff),
            channels@.len() == kept@.len(),
            forall|j: int|
                0 <= j < kept@.len() ==> (#[trigger] channels@[j])@ == channel_of(kept@[j].vod),
        decreases rest@.len(),
    {
        let x = rest.remove(0);
        let channel = channel_of_exec(&x.vod);
        let is_favoured = holds_text(subscribed, &channel) || (x.vod.owner.is_some() && holds_text(
            affine,
            &channel,
        ));
        let limit: usize = if is_favoured {
            3
        } else {
            2
        };
        let mut count: usize = 0;
        let mut j: usize = 0;
        assert(kept@.take(0) =~= Seq::<ScoredVod>::empty());
        while j < kept.len() && count < limit
            invariant
                j <= kept.len(),
                channels@.len() == kept@.len(),
                count <= limit <= 3,
                count == channel_count(kept@.take(j as int), channel@),
                forall|i: int|
                    0 <= i < kept@.len() ==> (#[trigger] channels@[i])@ == channel_of(kept@[i].vod),
            decreases kept.len() - j,
        {
            proof {
                assert(kept@.take(j + 1).drop_last() =~= kept@.take(j as int));
                assert(kept@.take(j + 1).last() == kept@[j as int]);
            }
            if channels[j] == channel {
                count += 1;
            }
            j += 1;
        }
        proof {
            assert(all.take(done + 1).drop_last() =~= all.take(done));
            assert(all.take(done + 1).last() == x);
            assert(rest@ =~= all.skip(done + 1));
            if count < limit {
                assert(kept@.take(j as int) =~= kept@);
            } else {
                lemma_channel_count_prefix(kept@, j as int, channel@);
            }
            done = done + 1;
        }
        if count < limit {
            kept.push(x);
            channels.push(channel);
        }
    }
    assert(all.take(all.len() as int) =~= all);
    kept
}

proof fn lemma_channel_count_prefix(kept: Seq<ScoredVod>, j: int, channel: Seq<char>)
    requires
        0 <= j <= kept.len(),
    ensures
        channel_count(kept.take(j), channel) <= channel_count(kept, channel),
    decreases kept.len() - j,
{
    if j < kept.len() {
        assert(kept.take(j + 1).drop_last() =~= kept.take(j));
        lemma_channel_count_prefix(kept, j + 1, channel);
    } else {
        assert(kept.take(j) =~= kept);
    }
}

// ---------------------------------------------------------------------
// Interleaving by language
// ---------------------------------------------------------------------

/// A video counts as French when its language, trimmed and in lower
/// case, is `fr`.
pub open spec fn is_french(v: Vod) -> bool {
    normal_language(
        match v.language {
            Some(l) => Some(l@),
            None => None,
        },
    ) == "fr"@
}

/// The candidates of `s` that are French (`french`) or that are not,
/// in the order they have in `s`.
pub open spec fn language_pool(s: Seq<ScoredVod>, french: bool) -> Seq<ScoredVod>
    decreases s.len(),
{
    if s.len() == 0 {
        s
    } else if is_french(s.last().vod) == french {
        language_pool(s.drop_last(), french).push(s.last())
    } else {
        language_pool(s.drop_last(), french)
    }
}

/// One million: the ratio of foreign items is given in millionths.
pub const RATIO_SCALE: u64 = 1_000_000;

/// The last `min(4, len)` entries of `flags` are all `lang`, and there
/// are at least `least` of them.
pub open spec fn streak(flags: Seq<bool>, lang: bool, least: int) -> bool {
    &&& flags.len() >= least
    &&& forall|i: int| 0 <= i < flags.len() && flags.len() - 4 <= i ==> flags[i] == lang
}

/// How many foreign items a feed of `len + 1` items should hold.
pub open spec fn foreign_target(len: nat, foreign_ppm: nat) -> nat {
    ((len + 1) * foreign_ppm) / (RATIO_SCALE as nat)
}

/// Whether the next item is taken from the foreign pool.  `flags`
/// tells of each item chosen so far whether it is French; `fi` and
/// `foi` count the French and the foreign items chosen.  A foreign item
/// is taken when one is left, the items chosen last (up to four) are
/// not all foreign, and either fewer foreign items were chosen than the
/// target, or no French item is left, or the last four are all French.
pub open spec fn takes_foreign(
    flags: Seq<bool>,
    fi: int,
    foi: int,
    french_len: int,
    foreign_len: int,
    foreign_ppm: nat,
) -> bool {
    &&& !streak(flags, false, 1)
    &&& foi < foreign_len
    &&& (foi < foreign_target(flags.len(), foreign_ppm) || fi >= french_len || streak(
        flags,
        true,
        4,
    ))
}

/// The items that follow in the feed once `fi` French and `foi`
/// foreign items have been chosen with the pattern `flags`: items are
/// chosen until the feed has `max` items or both pools are used up;
/// where no foreign item is to be taken the next French one is, and
/// the next foreign one where no French item is left.
pub open spec fn interleave_from(
    french: Seq<ScoredVod>,
    foreign: Seq<ScoredVod>,
    fi: int,
    foi: int,
    flags: Seq<bool>,
    foreign_ppm: nat,
    max: nat,
) -> Seq<ScoredVod>
    decreases (french.len() - fi) + (foreign.len() - foi),
{
    if flags.len() >= max || fi < 0 || foi < 0 || fi > french.len() || foi > foreign.len() || (fi
        >= french.len() && foi >= foreign.len()) {
        Seq::empty()
    } else if takes_foreign(flags, fi, foi, french.len() as int, foreign.len() as int, foreign_ppm)
        || fi >= french.len() {
        seq![foreign[foi]] + interleave_from(
            french,
            foreign,
            fi,
            foi + 1,
            flags.push(false),
            foreign_ppm,
            max,
        )
    } else {
        seq![french[fi]] + interleave_from(
            french,
            foreign,
            fi + 1,
            foi,
            flags.push(true),
            foreign_ppm,
            max,
        )
    }
}

/// The videos of scored candidates.
pub open spec fn vods_of(s: Seq<ScoredVod>) -> Seq<Vod> {
    s.map_values(|x: ScoredVod| x.vod)
}

/// The feed that is made of `candidates`: the French and the foreign
/// ones are ranked apart and then interleaved from the start.
pub open spec fn interleaved(candidates: Seq<ScoredVod>, foreign_ppm: nat, max: nat) -> Seq<Vod> {
    vods_of(
        interleave_from(
            ranked(language_pool(candidates, true)),
            ranked(language_pool(candidates, false)),
            0,
            0,
            Seq::empty(),
            foreign_ppm,
            max,
        ),
    )
}

fn is_french_exec(v: &Vod) -> (b: bool)
    ensures
        b == is_french(*v),
{
    let lang = match &v.language {
        Some(l) => normalize_language(Some(l.as_str())),
        None => normalize_language(None),
    };
    text_is(&chars_of(lang.as_str()), "fr")
}

fn streak_exec(flags: &Vec<bool>, lang: bool, least: usize) -> (b: bool)
    ensures
        b == streak(flags@, lang, least as int),
{
    if flags.len() < least {
        return false;
    }
    let from: usize = if flags.len() > 4 {
        flags.len() - 4
    } else {
        0
    };
    let mut i: usize = from;
    while i < flags.len()
        invariant
            from <= i <= flags.len(),
            from == if flags.len() > 4 {
                flags.len() - 4
            } else {
                0
            },
            forall|j: int| from <= j < i ==> flags@[j] == lang,
        decreases flags.len() - i,
    {
        if flags[i] != lang {
            return false;
        }
        i += 1;
    }
    true
}

/// Makes the feed: the candidates are parted into French and foreign
/// ones, each part ranked by score, and the two interleaved so that
/// about `foreign_ppm` millionths of the feed are foreign and neither
/// language runs on for long; the feed has at most `max_items` items.
pub fn interleave_localized_feed(candidates: Vec<ScoredVod>, foreign_ppm: u32, max_items: usize) -> (r:
    Vec<Vod>)
    ensures
        r@ == interleaved(candidates@, foreign_ppm as nat, max_items as nat),
{
    let ghost all = candidates@;
    let mut rest = candidates;
    let mut french_in: Vec<ScoredVod> = Vec::new();
    let mut foreign_in: Vec<ScoredVod> = Vec::new();
    let ghost mut done: int = 0;
    assert(all.take(0) =~= Seq::<ScoredVod>::empty());
    while rest.len() > 0
        invariant
            0 <= done <= all.len(),
            rest@ == all.skip(done),
            french_in@ == language_pool(all.take(done), true),
            foreign_in@ == language_pool(all.take(done), false),
        decreases rest@.len(),
    {
        let x = rest.remove(0);
        proof {
            assert(all.take(done + 1).drop_last() =~= all.take(done));
            assert(all.take(done + 1).last() == x);
            assert(rest@ =~= all.skip(done + 1));
            done = done + 1;
        }
        if is_french_exec(&x.vod) {
            french_in.push(x);
        } else {
            foreign_in.push(x);
        }
    }
    assert(all.take(all.len() as int) =~= all);
    let mut french = sort_ranked(french_in);
    let mut foreign = sort_ranked(foreign_in);
    let ghost fr = french@;
    let ghost fo = foreign@;
    let mut feed: Vec<Vod> = Vec::new();
    let mut flags: Vec<bool> = Vec::new();
    let ghost mut fi: int = 0;
    let ghost mut foi: int = 0;
    let mut foreign_added: u64 = 0;
    assert(french@ =~= fr.skip(0));
    assert(foreign@ =~= fo.skip(0));
    while feed.len() < max_items && (french.len() > 0 || foreign.len() > 0)
        invariant
            0 <= fi <= fr.len(),
            0 <= foi <= fo.len(),
            french@ == fr.skip(fi),
            foreign@ == fo.skip(foi),
            flags@.len() == fi + foi,
            feed@.len() == flags@.len(),
            foreign_added == foi,
            feed@ + vods_of(interleave_from(fr, fo, fi, foi, flags@, foreign_ppm as nat, max_items as nat))
                == vods_of(
                interleave_from(fr, fo, 0, 0, Seq::empty(), foreign_ppm as nat, max_items as nat),
            ),
        decreases (fr.len() - fi) + (fo.len() - foi),
    {
        let count: u128 = feed.len() as u128 + 1;
        let ppm: u128 = foreign_ppm as u128;
        assert(count * ppm <= 0x1_0000_0000_0000_0000 * 0x1_0000_0000) by (nonlinear_arith)
            requires
                0 <= count <= 0x1_0000_0000_0000_0000,
                0 <= ppm <= 0x1_0000_0000,
        ;
        let target: u128 = (count * ppm) / (RATIO_SCALE as u128);
        let take_foreign = !streak_exec(&flags, false, 1) && foreign.len() > 0 && ((
        foreign_added as u128) < target || french.len() == 0 || streak_exec(&flags, true, 4));
        let ghost before = feed@;
        let ghost old_flags = flags@;
        if take_foreign || french.len() == 0 {
            let x = foreign.remove(0);
            proof {
                assert(x == fo[foi]);
                assert(foreign@ =~= fo.skip(foi + 1));
            }
            feed.push(x.vod);
            flags.push(false);
            foreign_added += 1;
            proof {
                let tail = interleave_from(
                    fr,
                    fo,
                    fi,
                    foi + 1,
                    flags@,
                    foreign_ppm as nat,
                    max_items as nat,
                );
                assert(vods_of(seq![fo[foi]] + tail) =~= seq![fo[foi].vod] + vods_of(tail));
                assert(feed@ + vods_of(tail) =~= before + vods_of(seq![fo[foi]] + tail));
                foi = foi + 1;
            }
        } else {
            let x = french.remove(0);
            proof {
                assert(x == fr[fi]);
                assert(french@ =~= fr.skip(fi + 1));
            }
            feed.push(x.vod);
            flags.push(true);
            proof {
                let tail = interleave_from(
                    fr,
                    fo,
                    fi + 1,
                    foi,
                    flags@,
                    foreign_ppm as nat,
                    max_items as nat,
                );
                assert(vods_of(seq![fr[fi]] + tail) =~= seq![fr[fi].vod] + vods_of(tail));
                assert(feed@ + vods_of(tail) =~= before + vods_of(seq![fr[fi]] + tail));
                fi = fi + 1;
            }
        }
    }
    proof {
        assert(interleave_from(fr, fo, fi, foi, flags@, foreign_ppm as nat, max_items as nat)
            =~= Seq::<ScoredVod>::empty());
        assert(feed@ =~= vods_of(
            interleave_from(fr, fo, 0, 0, Seq::empty(), foreign_ppm as nat, max_items as nat),
        ));
    }
    feed
}

/// How many items a feed holds at most.
pub const FEED_LIMIT: usize = 40;

/// The feed for a viewer: the candidates are ranked, the best
/// [`RANKED_LIMIT`] capped per channel, and the rest interleaved by
/// language into at most [`FEED_LIMIT`] items.
pub open spec fn selected(
    candidates: Seq<ScoredVod>,
    subscribed: Seq<Seq<char>>,
    affine: Seq<Seq<char>>,
    foreign_ppm: nat,
) -> Seq<Vod> {
    interleaved(
        capped(top(ranked(candidates), RANKED_LIMIT as nat), subscribed, affine),
        foreign_ppm,
        FEED_LIMIT as nat,
    )
}

/// Selects the feed from the scored candidates.  `subscribed` holds
/// the logins of the channels subscribed to and `affine` those of the
/// channels with a recorded affinity, all in lower case.
pub fn select_feed(
    candidates: Vec<ScoredVod>,
    subscribed: &Vec<String>,
    affine: &Vec<String>,
    foreign_ppm: u32,
) -> (feed: Vec<Vod>)
    ensures
        feed@ == selected(candidates@, texts(subscribed@), texts(affine@), foreign_ppm as nat),
{
    let best = rank_candidates(candidates);
    let diverse = cap_per_channel(best, subscribed, affine);
    interleave_localized_feed(diverse, foreign_ppm, FEED_LIMIT)
}

// ---------------------------------------------------------------------
// Laws
// ---------------------------------------------------------------------

/// Ranking orders by descending rank.
pub proof fn lemma_ranked_is_sorted<T: Ranked>(s: Seq<T>)
    ensures
        ranked(s).len() == s.len(),
        forall|i: int, j: int|
            0 <= i < j < ranked(s).len() ==> (#[trigger] ranked(s)[i]).rank() >= (#[trigger] ranked(
                s,
            )[j]).rank(),
    decreases s.len(),
{
    if s.len() > 0 {
        let t = ranked(s.drop_first());
        lemma_ranked_is_sorted(s.drop_first());
        let x = s[0];
        let p = first_not_above(t, x.rank(), 0);
        lemma_first_not_above_bounds(t, x.rank(), 0);
        let r = t.insert(p, x);
        t.insert_ensures(p, x);
        assert(ranked(s) == r);
        assert forall|i: int, j: int| 0 <= i < j < r.len() implies (#[trigger] r[i]).rank() >= (
        #[trigger] r[j]).rank() by {
            if i < p {
                assert(r[i] == t[i]);
                if j < p {
                    assert(r[j] == t[j]);
                } else if j > p {
                    assert(r[j] == t[j - 1]);
                }
            } else if i == p {
                assert(r[j] == t[j - 1]);
                if p < t.len() {
                    assert(t[p].rank() <= x.rank());
                }
            } else {
                assert(r[i] == t[i - 1]);
                assert(r[j] == t[j - 1]);
            }
        }
    }
}

/// Ranking rearranges: it neither drops nor adds an element.
pub proof fn lemma_ranked_is_permutation<T: Ranked>(s: Seq<T>)
    ensures
        ranked(s).to_multiset() == s.to_multiset(),
    decreases s.len(),
{
    broadcast use vstd::seq_lib::group_to_multiset_ensures;

    if s.len() > 0 {
        let rest = s.drop_first();
        let t = ranked(rest);
        lemma_ranked_is_permutation(rest);
        lemma_ranked_is_sorted(rest);
        let x = s[0];
        let p = first_not_above(t, x.rank(), 0);
        lemma_first_not_above_bounds(t, x.rank(), 0);
        let r = t.insert(p, x);
        t.insert_ensures(p, x);
        assert(r.remove(p) =~= t);
        assert(r[p] == x);
        assert(t.to_multiset() =~= r.to_multiset().remove(x));
        assert(s.remove(0) =~= rest);
        assert(rest.to_multiset() =~= s.to_multiset().remove(x));
        assert(r.contains(x));
        assert(s.contains(x));
        assert(r.to_multiset() =~= s.to_multiset());
    } else {
        assert(ranked(s) =~= s);
    }
}

/// After the cap no channel has more than three videos, and a channel
/// that is neither subscribed to nor has a recorded affinity has no
/// more than two.
pub proof fn lemma_cap_is_respected(
    s: Seq<ScoredVod>,
    subscribed: Seq<Seq<char>>,
    affine: Seq<Seq<char>>,
    channel: Seq<char>,
)
    ensures
        channel_count(capped(s, subscribed, affine), channel) <= 3,
        !subscribed.contains(channel) && !affine.contains(channel) ==> channel_count(
            capped(s, subscribed, affine),
            channel,
        ) <= 2,
    decreases s.len(),
{
    if s.len() > 0 {
        lemma_cap_is_respected(s.drop_last(), subscribed, affine, channel);
        let kept = capped(s.drop_last(), subscribed, affine);
        let x = s.last();
        if channel_count(kept, channel_of(x.vod)) < slots(favoured(x.vod, subscribed, affine)) {
            assert(kept.push(x).drop_last() =~= kept);
            assert(kept.push(x).last() == x);
        }
    }
}

/// How many entries of `flags` are equal to `lang`.
pub open spec fn count_flags(flags: Seq<bool>, lang: bool) -> nat
    decreases flags.len(),
{
    if flags.len() == 0 {
        0
    } else {
        count_flags(flags.drop_last(), lang) + if flags.last() == lang {
            1nat
        } else {
            0nat
        }
    }
}

/// For each item of scored candidates, whether it is French.
pub open spec fn languages_of(s: Seq<ScoredVod>) -> Seq<bool> {
    s.map_values(|x: ScoredVod| is_french(x.vod))
}

/// At position `p`, a run of five items of one language ends only
/// where the pool of the other language was already used up.
pub open spec fn run_ok_at(pattern: Seq<bool>, p: int, french_len: int, foreign_len: int) -> bool {
    &&& (pattern[p - 4] && pattern[p - 3] && pattern[p - 2] && pattern[p - 1] && pattern[p])
        ==> count_flags(pattern.take(p), false) >= foreign_len
    &&& (!pattern[p - 4] && !pattern[p - 3] && !pattern[p - 2] && !pattern[p - 1] && !pattern[p])
        ==> count_flags(pattern.take(p), true) >= french_len
}

/// No run of five items of one language ends while the other pool has
/// items left.
pub open spec fn runs_ok(pattern: Seq<bool>, french_len: int, foreign_len: int) -> bool {
    forall|p: int| 4 <= p < pattern.len() ==> #[trigger] run_ok_at(pattern, p, french_len, foreign_len)
}

proof fn lemma_runs_from(
    french: Seq<ScoredVod>,
    foreign: Seq<ScoredVod>,
    fi: int,
    foi: int,
    flags: Seq<bool>,
    foreign_ppm: nat,
    max: nat,
)
    requires
        0 <= fi <= french.len(),
        0 <= foi <= foreign.len(),
        flags.len() == fi + foi,
        count_flags(flags, true) == fi,
        count_flags(flags, false) == foi,
        runs_ok(flags, french.len() as int, foreign.len() as int),
        forall|i: int| 0 <= i < french.len() ==> is_french((#[trigger] french[i]).vod),
        forall|i: int| 0 <= i < foreign.len() ==> !is_french((#[trigger] foreign[i]).vod),
    ensures
        runs_ok(
            flags + languages_of(interleave_from(french, foreign, fi, foi, flags, foreign_ppm, max)),
            french.len() as int,
            foreign.len() as int,
        ),
        flags.len() <= max ==> flags.len() + interleave_from(
            french,
            foreign,
            fi,
            foi,
            flags,
            foreign_ppm,
            max,
        ).len() <= max,
    decreases (french.len() - fi) + (foreign.len() - foi),
{
    let fl = french.len() as int;
    let xl = foreign.len() as int;
    let here = interleave_from(french, foreign, fi, foi, flags, foreign_ppm, max);
    if flags.len() >= max || (fi >= fl && foi >= xl) {
        assert(flags + languages_of(here) =~= flags);
    } else {
        let foreign_next = takes_foreign(flags, fi, foi, fl, xl, foreign_ppm) || fi >= fl;
        let lang = !foreign_next;
        let grown = flags.push(lang);
        let p = flags.len() as int;
        assert(grown.drop_last() =~= flags);
        assert(grown.take(p) =~= flags);
        assert(runs_ok(grown, fl, xl)) by {
            assert forall|q: int| 4 <= q < grown.len() implies #[trigger] run_ok_at(
                grown,
                q,
                fl,
                xl,
            ) by {
                if q < p {
                    assert(run_ok_at(flags, q, fl, xl));
                    assert(grown.take(q) =~= flags.take(q));
                } else {
                    if lang && flags[p - 4] && flags[p - 3] && flags[p - 2] && flags[p - 1] {
                        assert(streak(flags, true, 4));
                        assert(!streak(flags, false, 1));
                    }
                    if !lang && !flags[p - 1] {
                        if !flags[p - 4] && !flags[p - 3] && !flags[p - 2] {
                            assert(streak(flags, false, 1));
                        }
                    }
                }
            }
        }
        if foreign_next {
            let tail = interleave_from(french, foreign, fi, foi + 1, grown, foreign_ppm, max);
            lemma_runs_from(french, foreign, fi, foi + 1, grown, foreign_ppm, max);
            assert(languages_of(seq![foreign[foi]] + tail) =~= seq![false] + languages_of(tail));
            assert(flags + languages_of(here) =~= grown + languages_of(tail));
        } else {
            let tail = interleave_from(french, foreign, fi + 1, foi, grown, foreign_ppm, max);
            lemma_runs_from(french, foreign, fi + 1, foi, grown, foreign_ppm, max);
            assert(languages_of(seq![french[fi]] + tail) =~= seq![true] + languages_of(tail));
            assert(flags + languages_of(here) =~= grown + languages_of(tail));
        }
    }
}

proof fn lemma_pool_language(s: Seq<ScoredVod>, french: bool)
    ensures
        forall|i: int|
            0 <= i < language_pool(s, french).len() ==> is_french(
                (#[trigger] language_pool(s, french)[i]).vod,
            ) == french,
    decreases s.len(),
{
    if s.len() > 0 {
        lemma_pool_language(s.drop_last(), french);
    }
}

proof fn lemma_ranked_keeps_language(s: Seq<ScoredVod>, french: bool)
    requires
        forall|i: int| 0 <= i < s.len() ==> is_french((#[trigger] s[i]).vod) == french,
    ensures
        forall|i: int| 0 <= i < ranked(s).len() ==> is_french((#[trigger] ranked(s)[i]).vod) == french,
    decreases s.len(),
{
    if s.len() > 0 {
        let rest = s.drop_first();
        assert forall|i: int| 0 <= i < rest.len() implies is_french((#[trigger] rest[i]).vod)
            == french by {
            assert(rest[i] == s[i + 1]);
        }
        lemma_ranked_keeps_language(rest, french);
        let t = ranked(rest);
        let p = first_not_above(t, s[0].rank(), 0);
        lemma_first_not_above_bounds(t, s[0].rank(), 0);
        let r = t.insert(p, s[0]);
        t.insert_ensures(p, s[0]);
        assert forall|i: int| 0 <= i < r.len() implies is_french((#[trigger] r[i]).vod) == french by {
            if i < p {
                assert(r[i] == t[i]);
            } else if i == p {
                assert(r[i] == s[0]);
            } else {
                assert(r[i] == t[i - 1]);
            }
        }
    }
}

/// In a feed a run of five items of one language ends only where all
/// candidates of the other language stand before its last item; and
/// the feed has at most `max` items.
pub proof fn lemma_feed_runs(candidates: Seq<ScoredVod>, foreign_ppm: nat, max: nat)
    ensures
        ({
            let french = ranked(language_pool(candidates, true));
            let foreign = ranked(language_pool(candidates, false));
            let feed = interleave_from(french, foreign, 0, 0, Seq::empty(), foreign_ppm, max);
            &&& interleaved(candidates, foreign_ppm, max) == vods_of(feed)
            &&& feed.len() <= max
            &&& runs_ok(
                languages_of(feed),
                language_pool(candidates, true).len() as int,
                language_pool(candidates, false).len() as int,
            )
        }),
{
    let french = ranked(language_pool(candidates, true));
    let foreign = ranked(language_pool(candidates, false));
    lemma_pool_language(candidates, true);
    lemma_pool_language(candidates, false);
    lemma_ranked_keeps_language(language_pool(candidates, true), true);
    lemma_ranked_keeps_language(language_pool(candidates, false), false);
    lemma_ranked_is_sorted(language_pool(candidates, true));
    lemma_ranked_is_sorted(language_pool(candidates, false));
    let none = Seq::<bool>::empty();
    lemma_runs_from(french, foreign, 0, 0, none, foreign_ppm, max);
    let feed = interleave_from(french, foreign, 0, 0, none, foreign_ppm, max);
    assert(none + languages_of(feed) =~= languages_of(feed));
}

/// Ranking keeps the elements: what is in the ranked sequence is in
/// the sequence, and the other way round.
pub proof fn lemma_ranked_has_same_elements<T: Ranked>(s: Seq<T>, x: T)
    ensures
        ranked(s).contains(x) <==> s.contains(x),
{
    broadcast use vstd::seq_lib::group_to_multiset_ensures;

    lemma_ranked_is_permutation(s);
    assert(ranked(s).contains(x) <==> ranked(s).to_multiset().count(x) > 0);
    assert(s.contains(x) <==> s.to_multiset().count(x) > 0);
}

proof fn lemma_pool_is_drawn(s: Seq<ScoredVod>, french: bool, x: ScoredVod)
    requires
        language_pool(s, french).contains(x),
    ensures
        s.contains(x),
    decreases s.len(),
{
    if s.len() > 0 {
        let rest = language_pool(s.drop_last(), french);
        let i = choose|i: int| 0 <= i < language_pool(s, french).len() && language_pool(s, french)[i] == x;
        if is_french(s.last().vod) == french && i == rest.len() {
            assert(s[s.len() - 1] == x);
        } else {
            assert(rest[i] == x);
            lemma_pool_is_drawn(s.drop_last(), french, x);
            let k = choose|k: int| 0 <= k < s.drop_last().len() && s.drop_last()[k] == x;
            assert(s[k] == x);
        }
    }
}

proof fn lemma_capped_is_drawn(
    s: Seq<ScoredVod>,
    subscribed: Seq<Seq<char>>,
    affine: Seq<Seq<char>>,
    x: ScoredVod,
)
    requires
        capped(s, subscribed, affine).contains(x),
    ensures
        s.contains(x),
    decreases s.len(),
{
    if s.len() > 0 {
        let all = capped(s, subscribed, affine);
        let rest = capped(s.drop_last(), subscribed, affine);
        let i = choose|i: int| 0 <= i < all.len() && all[i] == x;
        if i == rest.len() {
            assert(s[s.len() - 1] == x);
        } else {
            assert(rest[i] == x);
            lemma_capped_is_drawn(s.drop_last(), subscribed, affine, x);
            let k = choose|k: int| 0 <= k < s.drop_last().len() && s.drop_last()[k] == x;
            assert(s[k] == x);
        }
    }
}

proof fn lemma_interleave_is_drawn(
    french: Seq<ScoredVod>,
    foreign: Seq<ScoredVod>,
    fi: int,
    foi: int,
    flags: Seq<bool>,
    foreign_ppm: nat,
    max: nat,
)
    ensures
        forall|i: int|
            0 <= i < interleave_from(french, foreign, fi, foi, flags, foreign_ppm, max).len() ==> {
                let x = #[trigger] interleave_from(french, foreign, fi, foi, flags, foreign_ppm, max)[i];
                french.contains(x) || foreign.contains(x)
            },
    decreases (french.len() - fi) + (foreign.len() - foi),
{
    let here = interleave_from(french, foreign, fi, foi, flags, foreign_ppm, max);
    if here.len() > 0 {
        let foreign_next = takes_foreign(
            flags,
            fi,
            foi,
            french.len() as int,
            foreign.len() as int,
            foreign_ppm,
        ) || fi >= french.len();
        if foreign_next {
            lemma_interleave_is_drawn(french, foreign, fi, foi + 1, flags.push(false), foreign_ppm, max);
            let tail = interleave_from(french, foreign, fi, foi + 1, flags.push(false), foreign_ppm, max);
            assert forall|i: int| 0 <= i < here.len() implies french.contains(#[trigger] here[i])
                || foreign.contains(here[i]) by {
                if i == 0 {
                    assert(foreign[foi] == here[0]);
                } else {
                    assert(here[i] == tail[i - 1]);
                }
            }
        } else {
            lemma_interleave_is_drawn(french, foreign, fi + 1, foi, flags.push(true), foreign_ppm, max);
            let tail = interleave_from(french, foreign, fi + 1, foi, flags.push(true), foreign_ppm, max);
            assert forall|i: int| 0 <= i < here.len() implies french.contains(#[trigger] here[i])
                || foreign.contains(here[i]) by {
                if i == 0 {
                    assert(french[fi] == here[0]);
                } else {
                    assert(here[i] == tail[i - 1]);
                }
            }
        }
    }
}

/// A feed holds only videos of its candidates, and no more than
/// [`FEED_LIMIT`] of them.
pub proof fn lemma_feed_is_drawn_from_candidates(
    candidates: Seq<ScoredVod>,
    subscribed: Seq<Seq<char>>,
    affine: Seq<Seq<char>>,
    foreign_ppm: nat,
)
    ensures
        selected(candidates, subscribed, affine, foreign_ppm).len() <= FEED_LIMIT,
        forall|i: int|
            0 <= i < selected(candidates, subscribed, affine, foreign_ppm).len() ==> exists|k: int|
                0 <= k < candidates.len() && (#[trigger] candidates[k]).vod == #[trigger] selected(
                    candidates,
                    subscribed,
                    affine,
                    foreign_ppm,
                )[i],
{
    let best = top(ranked(candidates), RANKED_LIMIT as nat);
    let diverse = capped(best, subscribed, affine);
    let french = ranked(language_pool(diverse, true));
    let foreign = ranked(language_pool(diverse, false));
    let feed = interleave_from(french, foreign, 0, 0, Seq::empty(), foreign_ppm, FEED_LIMIT as nat);
    let out = selected(candidates, subscribed, affine, foreign_ppm);
    lemma_feed_runs(diverse, foreign_ppm, FEED_LIMIT as nat);
    lemma_interleave_is_drawn(french, foreign, 0, 0, Seq::empty(), foreign_ppm, FEED_LIMIT as nat);
    assert(out == vods_of(feed));
    assert forall|i: int| 0 <= i < out.len() implies exists|k: int|
        0 <= k < candidates.len() && (#[trigger] candidates[k]).vod == #[trigger] out[i] by {
        let x = feed[i];
        assert(out[i] == x.vod);
        assert(french.contains(x) || foreign.contains(x));
        if french.contains(x) {
            lemma_ranked_has_same_elements(language_pool(diverse, true), x);
            lemma_pool_is_drawn(diverse, true, x);
        } else {
            lemma_ranked_has_same_elements(language_pool(diverse, false), x);
            lemma_pool_is_drawn(diverse, false, x);
        }
        lemma_capped_is_drawn(best, subscribed, affine, x);
        assert(ranked(candidates).contains(x)) by {
            let k = choose|k: int| 0 <= k < best.len() && best[k] == x;
            assert(ranked(candidates)[k] == x);
        }
        lemma_ranked_has_same_elements(candidates, x);
        let k = choose|k: int| 0 <= k < candidates.len() && candidates[k] == x;
        assert(candidates[k].vod == out[i]);
    }
}

proof fn lemma_interleave_length(
    french: Seq<ScoredVod>,
    foreign: Seq<ScoredVod>,
    fi: int,
    foi: int,
    flags: Seq<bool>,
    foreign_ppm: nat,
    max: nat,
)
    requires
        0 <= fi <= french.len(),
        0 <= foi <= foreign.len(),
        flags.len() == fi + foi,
        flags.len() <= max,
    ensures
        flags.len() + interleave_from(french, foreign, fi, foi, flags, foreign_ppm, max).len() == (
        if max < french.len() + foreign.len() {
            max as int
        } else {
            (french.len() + foreign.len()) as int
        }),
    decreases (french.len() - fi) + (foreign.len() - foi),
{
    if !(flags.len() >= max || (fi >= french.len() && foi >= foreign.len())) {
        if takes_foreign(flags, fi, foi, french.len() as int, foreign.len() as int, foreign_ppm)
            || fi >= french.len() {
            lemma_interleave_length(french, foreign, fi, foi + 1, flags.push(false), foreign_ppm, max);
        } else {
            lemma_interleave_length(french, foreign, fi + 1, foi, flags.push(true), foreign_ppm, max);
        }
    }
}

proof fn lemma_pools_part(s: Seq<ScoredVod>)
    ensures
        language_pool(s, true).len() + language_pool(s, false).len() == s.len(),
    decreases s.len(),
{
    if s.len() > 0 {
        lemma_pools_part(s.drop_last());
    }
}

/// A feed has as many items as there are candidates, but no more than
/// `max`.
pub proof fn lemma_feed_length(candidates: Seq<ScoredVod>, foreign_ppm: nat, max: nat)
    ensures
        interleaved(candidates, foreign_ppm, max).len() == if max < candidates.len() {
            max
        } else {
            candidates.len()
        },
{
    let french = ranked(language_pool(candidates, true));
    let foreign = ranked(language_pool(candidates, false));
    lemma_ranked_is_sorted(language_pool(candidates, true));
    lemma_ranked_is_sorted(language_pool(candidates, false));
    lemma_pools_part(candidates);
    lemma_interleave_length(french, foreign, 0, 0, Seq::empty(), foreign_ppm, max);
}

/// At position `p`, a run of four items of one language ends only
/// where the pool of the other language was already used up.
pub open spec fn run_of_four_ok_at(pattern: Seq<bool>, p: int, french_len: int, foreign_len: int) -> bool {
    &&& (pattern[p - 3] && pattern[p - 2] && pattern[p - 1] && pattern[p]) ==> count_flags(
        pattern.take(p),
        false,
    ) >= foreign_len
    &&& (!pattern[p - 3] && !pattern[p - 2] && !pattern[p - 1] && !pattern[p]) ==> count_flags(
        pattern.take(p),
        true,
    ) >= french_len
}

/// No run of four items of one language ends while the other pool has
/// items left.
pub open spec fn runs_of_four_ok(pattern: Seq<bool>, french_len: int, foreign_len: int) -> bool {
    forall|p: int|
        3 <= p < pattern.len() ==> #[trigger] run_of_four_ok_at(pattern, p, french_len, foreign_len)
}

/// One quarter, in millionths.
pub const QUARTER_PPM: u32 = 250_000;

/// The pattern of a feed of which a quarter is foreign, while both
/// pools have items: three French items, then a foreign one.
pub open spec fn quarter_pattern(flags: Seq<bool>) -> bool {
    forall|q: int| 0 <= q < flags.len() ==> #[trigger] flags[q] == (q % 4 != 3)
}

proof fn lemma_quarter_runs_from(
    french: Seq<ScoredVod>,
    foreign: Seq<ScoredVod>,
    fi: int,
    foi: int,
    flags: Seq<bool>,
    max: nat,
)
    requires
        0 <= fi <= french.len(),
        0 <= foi <= foreign.len(),
        flags.len() == fi + foi,
        count_flags(flags, true) == fi,
        count_flags(flags, false) == foi,
        runs_of_four_ok(flags, french.len() as int, foreign.len() as int),
        fi < french.len() && foi < foreign.len() ==> quarter_pattern(flags) && foi == flags.len() / 4,
        forall|i: int| 0 <= i < french.len() ==> is_french((#[trigger] french[i]).vod),
        forall|i: int| 0 <= i < foreign.len() ==> !is_french((#[trigger] foreign[i]).vod),
    ensures
        runs_of_four_ok(
            flags + languages_of(
                interleave_from(french, foreign, fi, foi, flags, QUARTER_PPM as nat, max),
            ),
            french.len() as int,
            foreign.len() as int,
        ),
    decreases (french.len() - fi) + (foreign.len() - foi),
{
    let fl = french.len() as int;
    let xl = foreign.len() as int;
    let ppm = QUARTER_PPM as nat;
    let here = interleave_from(french, foreign, fi, foi, flags, ppm, max);
    if flags.len() >= max || (fi >= fl && foi >= xl) {
        assert(flags + languages_of(here) =~= flags);
    } else {
        let p = flags.len() as int;
        let foreign_next = takes_foreign(flags, fi, foi, fl, xl, ppm) || fi >= fl;
        if fi < fl && foi < xl {
            assert(foreign_target(flags.len(), ppm) == (p + 1) / 4);
            assert(!streak(flags, false, 1)) by {
                if p >= 1 {
                    if flags[p - 1] {
                    } else {
                        assert((p - 1) % 4 == 3);
                        assert(flags[p - 2]);
                    }
                }
            }
            assert(!streak(flags, true, 4)) by {
                if p >= 4 {
                    let j = p - 1 - (p % 4);
                    assert(j % 4 == 3 && p - 4 <= j < p);
                    assert(!flags[j]);
                }
            }
            assert(foreign_next == (p % 4 == 3));
        }
        let lang = !foreign_next;
        let grown = flags.push(lang);
        assert(grown.drop_last() =~= flags);
        assert(grown.take(p) =~= flags);
        assert(runs_of_four_ok(grown, fl, xl)) by {
            assert forall|q: int| 3 <= q < grown.len() implies #[trigger] run_of_four_ok_at(
                grown,
                q,
                fl,
                xl,
            ) by {
                if q < p {
                    assert(run_of_four_ok_at(flags, q, fl, xl));
                    assert(grown.take(q) =~= flags.take(q));
                } else if fi < fl && foi < xl {
                    assert(quarter_pattern(grown));
                    assert(grown[p - 3] == ((p - 3) % 4 != 3));
                    assert(grown[p - 2] == ((p - 2) % 4 != 3));
                    assert(grown[p - 1] == ((p - 1) % 4 != 3));
                    assert(grown[p] == (p % 4 != 3));
                }
            }
        }
        if foreign_next {
            if fi < fl && foi + 1 < xl {
                assert(quarter_pattern(grown));
            }
            let tail = interleave_from(french, foreign, fi, foi + 1, grown, ppm, max);
            lemma_quarter_runs_from(french, foreign, fi, foi + 1, grown, max);
            assert(languages_of(seq![foreign[foi]] + tail) =~= seq![false] + languages_of(tail));
            assert(flags + languages_of(here) =~= grown + languages_of(tail));
        } else {
            if fi + 1 < fl && foi < xl {
                assert(quarter_pattern(grown));
            }
            let tail = interleave_from(french, foreign, fi + 1, foi, grown, ppm, max);
            lemma_quarter_runs_from(french, foreign, fi + 1, foi, grown, max);
            assert(languages_of(seq![french[fi]] + tail) =~= seq![true] + languages_of(tail));
            assert(flags + languages_of(here) =~= grown + languages_of(tail));
        }
    }
}

/// In a feed of which a quarter is to be foreign, a run of four items
/// of one language ends only where all candidates of the other
/// language stand before its last item: while both languages have
/// candidates left, three French items are followed by a foreign one.
pub proof fn lemma_quarter_feed_runs(candidates: Seq<ScoredVod>, max: nat)
    ensures
        ({
            let french = ranked(language_pool(candidates, true));
            let foreign = ranked(language_pool(candidates, false));
            let feed = interleave_from(
                french,
                foreign,
                0,
                0,
                Seq::empty(),
                QUARTER_PPM as nat,
                max,
            );
            &&& interleaved(candidates, QUARTER_PPM as nat, max) == vods_of(feed)
            &&& runs_of_four_ok(
                languages_of(feed),
                language_pool(candidates, true).len() as int,
                language_pool(candidates, false).len() as int,
            )
        }),
{
    let french = ranked(language_pool(candidates, true));
    let foreign = ranked(language_pool(candidates, false));
    lemma_pool_language(candidates, true);
    lemma_pool_language(candidates, false);
    lemma_ranked_keeps_language(language_pool(candidates, true), true);
    lemma_ranked_keeps_language(language_pool(candidates, false), false);
    lemma_ranked_is_sorted(language_pool(candidates, true));
    lemma_ranked_is_sorted(language_pool(candidates, false));
    let none = Seq::<bool>::empty();
    lemma_quarter_runs_from(french, foreign, 0, 0, none, max);
    let feed = interleave_from(french, foreign, 0, 0, none, QUARTER_PPM as nat, max);
    assert(none + languages_of(feed) =~= languages_of(feed));
}

} // verus!
