//! What is done to lists of videos, streams and logins around a
//! request: duplicates are dropped, streams ordered by audience, texts
//! sorted and joined, identifiers and logins vetted.


use crate::feed::{ranked, sort_ranked, top, Ranked};
use crate::gql::{
    batch_query, batch_query_text, login_of, normalize_login, video_alias, video_alias_text,
};
use crate::text::{
    append, append_str, chars_of, holds_text, join, string_of, texts, trim_ws, trim_ws_exec,
};
use crate::types::{LiveStream, LiveStreamsPage, Vod};
use vstd::prelude::*;

verus! {

broadcast use vstd::string::group_string_axioms;

// ---------------------------------------------------------------------
// Duplicates
// ---------------------------------------------------------------------

/// A thing with an identifier.
pub trait Identified {
    /// The identifier.
    spec fn ident(&self) -> Seq<char>;

    /// Reads the identifier.
    fn ident_of(&self) -> (id: &String)
        ensures
            id@ == self.ident(),
    ;
}

impl Identified for Vod {
    open spec fn ident(&self) -> Seq<char> {
        self.id@
    }

    fn ident_of(&self) -> (id: &String) {
        &self.id
    }
}

impl Identified for LiveStream {
    open spec fn ident(&self) -> Seq<char> {
        self.id@
    }

    fn ident_of(&self) -> (id: &String) {
        &self.id
    }
}

impl Ranked for LiveStream {
    open spec fn rank(&self) -> u64 {
        self.viewer_count
    }

    fn rank_of(&self) -> (r: u64) {
        self.viewer_count
    }
}

/// Some element of `kept` has the identifier `id`.
pub open spec fn has_id<T: Identified>(kept: Seq<T>, id: Seq<char>) -> bool {
    exists|i: int| 0 <= i < kept.len() && (#[trigger] kept[i]).ident() == id
}

/// The elements of `s` without duplicates: an element stays when its
/// identifier is not empty and no element kept before it has the same.
pub open spec fn first_by_id<T: Identified>(s: Seq<T>) -> Seq<T>
    decreases s.len(),
{
    if s.len() == 0 {
        s
    } else {
        let kept = first_by_id(s.drop_last());
        if s.last().ident().len() > 0 && !has_id(kept, s.last().ident()) {
            kept.push(s.last())
        } else {
            kept
        }
    }
}

/// Among the elements that stay no identifier is empty and none
/// occurs twice, and each of them is an element of `s`.
pub proof fn lemma_first_by_id_is_distinct<T: Identified>(s: Seq<T>)
    ensures
        forall|i: int| 0 <= i < first_by_id(s).len() ==> (#[trigger] first_by_id(s)[i]).ident().len() > 0,
        forall|i: int, j: int|
            0 <= i < j < first_by_id(s).len() ==> (#[trigger] first_by_id(s)[i]).ident() != (
            #[trigger] first_by_id(s)[j]).ident(),
        forall|i: int| 0 <= i < first_by_id(s).len() ==> s.contains(#[trigger] first_by_id(s)[i]),
    decreases s.len(),
{
    if s.len() > 0 {
        let rest = s.drop_last();
        lemma_first_by_id_is_distinct(rest);
        let kept = first_by_id(rest);
        let r = first_by_id(s);
        assert forall|i: int| 0 <= i < r.len() implies s.contains(#[trigger] r[i]) by {
            if i < kept.len() {
                assert(r[i] == kept[i]);
                assert(rest.contains(kept[i]));
                let k = choose|k: int| 0 <= k < rest.len() && rest[k] == kept[i];
                assert(s[k] == kept[i]);
            } else {
                assert(r[i] == s[s.len() - 1]);
            }
        }
        assert forall|i: int, j: int| 0 <= i < j < r.len() implies (#[trigger] r[i]).ident() != (
        #[trigger] r[j]).ident() by {
            if j < kept.len() {
                assert(r[i] == kept[i] && r[j] == kept[j]);
            } else {
                assert(r[i] == kept[i]);
            }
        }
    }
}

/// Drops the items without identifier and, of those that share an
/// identifier, all but the first.
pub fn dedupe_by_id<T: Identified>(items: Vec<T>) -> (r: Vec<T>)
    ensures
        r@ == first_by_id(items@),
{
    let ghost all = items@;
    let mut rest = items;
    let mut kept: Vec<T> = Vec::new();
    let ghost mut done: int = 0;
    assert(all.take(0) =~= Seq::<T>::empty());
    while rest.len() > 0
        invariant
            0 <= done <= all.len(),
            rest@ == all.skip(done),
            kept@ == first_by_id(all.take(done)),
        decreases rest@.len(),
    {
        let x = rest.remove(0);
        let mut seen = false;
        let mut j: usize = 0;
        let empty = x.ident_of().as_str().is_empty();
        while j < kept.len() && !seen
            invariant
                j <= kept.len(),
                seen ==> has_id(kept@, x.ident()),
                !seen ==> forall|i: int| 0 <= i < j ==> (#[trigger] kept@[i]).ident() != x.ident(),
            decreases kept.len() - j + if seen {
                0int
            } else {
                1int
            },
        {
            if *kept[j].ident_of() == *x.ident_of() {
                seen = true;
            } else {
                j += 1;
            }
        }
        proof {
            assert(all.take(done + 1).drop_last() =~= all.take(done));
            assert(all.take(done + 1).last() == x);
            assert(rest@ =~= all.skip(done + 1));
            done = done + 1;
        }
        if !empty && !seen {
            kept.push(x);
        }
    }
    assert(all.take(all.len() as int) =~= all);
    kept
}

/// Merges two listings of the videos of a game: the first listing goes
/// first, duplicates are dropped, and at most `first` videos stay.
pub fn merge_game_vods(preferred: Vec<Vod>, general: Vec<Vod>, first: usize) -> (r: Vec<Vod>)
    ensures
        r@ == top(first_by_id(preferred@ + general@), first as nat),
{
    let mut all = preferred;
    let mut general = general;
    all.append(&mut general);
    let mut r = dedupe_by_id(all);
    if r.len() > first {
        r.truncate(first);
    }
    r
}

/// Merges the live streams found by category and by channel: the
/// streams by category go first, duplicates are dropped, and the rest
/// is ordered by audience, the largest first.
pub fn merge_live_results(by_category: Vec<LiveStream>, by_channel: Vec<LiveStream>) -> (r: Vec<
    LiveStream,
>)
    ensures
        r@ == ranked(first_by_id(by_category@ + by_channel@)),
{
    let mut all = by_category;
    let mut by_channel = by_channel;
    all.append(&mut by_channel);
    sort_ranked(dedupe_by_id(all))
}

// ---------------------------------------------------------------------
// Pages
// ---------------------------------------------------------------------

/// Makes a page of live streams: the cursor of the last item leads on
/// only where the platform tells of a next page, and there is more
/// only where there is such a cursor.
pub fn live_page(items: Vec<LiveStream>, last_cursor: Option<String>, has_next: bool) -> (page:
    LiveStreamsPage)
    ensures
        page.items == items,
        page.next_cursor == (if has_next {
            last_cursor
        } else {
            None
        }),
        page.has_more == (has_next && last_cursor is Some),
{
    let has_more = has_next && last_cursor.is_some();
    LiveStreamsPage {
        items,
        next_cursor: if has_next {
            last_cursor
        } else {
            None
        },
        has_more,
    }
}

/// The page of a search, which has no next page.
pub fn search_page(items: Vec<LiveStream>) -> (page: LiveStreamsPage)
    ensures
        page.items == items,
        page.next_cursor is None,
        !page.has_more,
{
    LiveStreamsPage { items, next_cursor: None, has_more: false }
}

/// The cursor that leads on from a page of videos: that of the last
/// item where the platform tells of a next page.
pub fn next_vod_cursor(last_cursor: Option<String>, has_next: bool) -> (next: Option<String>)
    ensures
        next == (if has_next {
            last_cursor
        } else {
            None
        }),
{
    if has_next {
        last_cursor
    } else {
        None
    }
}

// ---------------------------------------------------------------------
// Identifiers of watched videos
// ---------------------------------------------------------------------

/// A non-empty run of ASCII digits.
pub open spec fn is_number_id(s: Seq<char>) -> bool {
    s.len() > 0 && forall|i: int| 0 <= i < s.len() ==> '0' <= #[trigger] s[i] <= '9'
}

/// How many videos are looked up at once.
pub const METADATA_LIMIT: usize = 30;

/// The identifiers that are looked up: each trimmed; those that are
/// runs of digits, in order, up to [`METADATA_LIMIT`].
pub open spec fn safe_ids(ids: Seq<Seq<char>>) -> Seq<Seq<char>>
    decreases ids.len(),
{
    if ids.len() == 0 {
        ids
    } else {
        let kept = safe_ids(ids.drop_last());
        if kept.len() < METADATA_LIMIT && is_number_id(trim_ws(ids.last())) {
            kept.push(trim_ws(ids.last()))
        } else {
            kept
        }
    }
}

fn is_number_id_exec(s: &Vec<char>) -> (b: bool)
    ensures
        b == is_number_id(s@),
{
    if s.len() == 0 {
        return false;
    }
    let mut i: usize = 0;
    while i < s.len()
        invariant
            i <= s.len(),
            forall|j: int| 0 <= j < i ==> '0' <= #[trigger] s@[j] <= '9',
        decreases s.len() - i,
    {
        if !('0' <= s[i] && s[i] <= '9') {
            return false;
        }
        i += 1;
    }
    true
}

/// Picks the identifiers that are looked up.
pub fn safe_vod_ids(vod_ids: &Vec<String>) -> (r: Vec<String>)
    ensures
        texts(r@) == safe_ids(texts(vod_ids@)),
{
    let ghost all = texts(vod_ids@);
    let mut r: Vec<String> = Vec::new();
    let mut i: usize = 0;
    assert(all.take(0) =~= Seq::<Seq<char>>::empty());
    assert(texts(r@) =~= Seq::<Seq<char>>::empty());
    while i < vod_ids.len()
        invariant
            i <= vod_ids.len(),
            all == texts(vod_ids@),
            texts(r@) == safe_ids(all.take(i as int)),
        decreases vod_ids.len() - i,
    {
        let id = trim_ws_exec(&chars_of(vod_ids[i].as_str()));
        proof {
            assert(all.take(i + 1).drop_last() =~= all.take(i as int));
            assert(all.take(i + 1).last() == vod_ids@[i as int]@);
        }
        if r.len() < METADATA_LIMIT && is_number_id_exec(&id) {
            let ghost before = r@;
            r.push(string_of(&id));
            assert(texts(r@) =~= texts(before).push(id@));
        }
        i += 1;
    }
    assert(all.take(vod_ids.len() as int) =~= all);
    r
}

/// The aliased parts of a batch query for the videos `ids`.
pub open spec fn aliases(ids: Seq<Seq<char>>) -> Seq<Seq<char>> {
    Seq::new(ids.len(), |i: int| video_alias_text(i as nat, ids[i]))
}

/// The query for the videos with the identifiers `ids`, each under the
/// alias of its position; nothing where there are none.
pub fn watched_metadata_query(ids: &Vec<String>) -> (q: Option<String>)
    ensures
        ids@.len() == 0 ==> q is None,
        ids@.len() > 0 ==> (q matches Some(text) && text@ == batch_query_text(
            join(aliases(texts(ids@)), seq![' ']),
        )),
{
    if ids.len() == 0 {
        return None;
    }
    let mut body: Vec<char> = Vec::new();
    let mut i: usize = 0;
    let ghost parts = aliases(texts(ids@));
    assert(parts.take(0) =~= Seq::<Seq<char>>::empty());
    while i < ids.len()
        invariant
            i <= ids.len(),
            parts == aliases(texts(ids@)),
            body@ == join(parts.take(i as int), seq![' ']),
        decreases ids.len() - i,
    {
        let ghost before = body@;
        if i > 0 {
            body.push(' ');
        }
        let part = video_alias(i as u64, ids[i].as_str());
        append_str(&mut body, part.as_str());
        proof {
            let grown = parts.take(i + 1);
            assert(grown.drop_last() =~= parts.take(i as int));
            assert(grown.last() == part@);
            if i > 0 {
                assert(body@ =~= before + seq![' '] + part@);
            } else {
                assert(before =~= Seq::<char>::empty());
                assert(body@ =~= part@);
            }
        }
        i += 1;
    }
    assert(parts.take(ids.len() as int) =~= parts);
    Some(batch_query(string_of(&body).as_str()))
}

// ---------------------------------------------------------------------
// Logins
// ---------------------------------------------------------------------

/// A character of a login: a lower-case ASCII letter, a digit or `_`.
pub open spec fn is_login_char(c: char) -> bool {
    ('a' <= c <= 'z') || ('0' <= c <= '9') || c == '_'
}

/// A login: from 2 to 25 login characters.
pub open spec fn is_login(s: Seq<char>) -> bool {
    2 <= s.len() <= 25 && forall|i: int| 0 <= i < s.len() ==> is_login_char(#[trigger] s[i])
}

/// Has `s` the form of a login?
pub fn is_login_exec(s: &str) -> (b: bool)
    ensures
        b == is_login(s@),
{
    let v = chars_of(s);
    if v.len() < 2 || v.len() > 25 {
        return false;
    }
    let mut i: usize = 0;
    while i < v.len()
        invariant
            i <= v.len(),
            v@ == s@,
            forall|j: int| 0 <= j < i ==> is_login_char(#[trigger] v@[j]),
        decreases v.len() - i,
    {
        let c: char = v[i];
        if !(('a' <= c && c <= 'z') || ('0' <= c && c <= '9') || c == '_') {
            assert(!is_login_char(v@[i as int]));
            return false;
        }
        i += 1;
    }
    true
}

/// How many channels are asked for their live status at once.
pub const STATUS_LIMIT: usize = 80;

/// The logins that are asked: each name trimmed and in lower case;
/// those that have the form of a login, each once, in order, up to
/// [`STATUS_LIMIT`].
pub open spec fn vetted_logins(names: Seq<Seq<char>>) -> Seq<Seq<char>>
    decreases names.len(),
{
    if names.len() == 0 {
        names
    } else {
        let kept = vetted_logins(names.drop_last());
        let login = login_of(names.last());
        if kept.len() < STATUS_LIMIT && is_login(login) && !kept.contains(login) {
            kept.push(login)
        } else {
            kept
        }
    }
}

/// Vets the names of the channels that are asked for their live status.
pub fn normalize_logins(logins: &Vec<String>) -> (r: Vec<String>)
    ensures
        texts(r@) == vetted_logins(texts(logins@)),
{
    let ghost all = texts(logins@);
    let mut r: Vec<String> = Vec::new();
    let mut i: usize = 0;
    assert(all.take(0) =~= Seq::<Seq<char>>::empty());
    assert(texts(r@) =~= Seq::<Seq<char>>::empty());
    while i < logins.len()
        invariant
            i <= logins.len(),
            all == texts(logins@),
            texts(r@) == vetted_logins(all.take(i as int)),
        decreases logins.len() - i,
    {
        let login = normalize_login(logins[i].as_str());
        proof {
            assert(all.take(i + 1).drop_last() =~= all.take(i as int));
            assert(all.take(i + 1).last() == logins@[i as int]@);
        }
        if r.len() < STATUS_LIMIT && is_login_exec(login.as_str()) && !holds_text(&r, &login) {
            let ghost before = r@;
            r.push(login);
            assert(texts(r@) =~= texts(before).push(login@));
        }
        i += 1;
    }
    assert(all.take(logins.len() as int) =~= all);
    r
}

// ---------------------------------------------------------------------
// Sorting and joining texts
// ---------------------------------------------------------------------

/// `a` comes before `b` in the order of their code points, a proper
/// prefix before what it is a prefix of.
pub open spec fn text_lt(a: Seq<char>, b: Seq<char>) -> bool
    decreases a.len(),
{
    if b.len() == 0 {
        false
    } else if a.len() == 0 {
        true
    } else if a[0] != b[0] {
        a[0] < b[0]
    } else {
        text_lt(a.drop_first(), b.drop_first())
    }
}

/// The first index at or after `from` whose text does not come before `x`.
pub open spec fn first_not_before(sorted: Seq<Seq<char>>, x: Seq<char>, from: int) -> int
    decreases sorted.len() - from,
{
    if from < 0 || from >= sorted.len() {
        sorted.len() as int
    } else if !text_lt(sorted[from], x) {
        from
    } else {
        first_not_before(sorted, x, from + 1)
    }
}

/// The texts of `s` in ascending order.
pub open spec fn sorted_texts(s: Seq<Seq<char>>) -> Seq<Seq<char>>
    decreases s.len(),
{
    if s.len() == 0 {
        s
    } else {
        let rest = sorted_texts(s.drop_first());
        rest.insert(first_not_before(rest, s[0], 0), s[0])
    }
}

/// Does `a` come before `b`?
pub fn text_lt_exec(a: &str, b: &str) -> (r: bool)
    ensures
        r == text_lt(a@, b@),
{
    let x = chars_of(a);
    let y = chars_of(b);
    let mut i: usize = 0;
    assert(x@.skip(0) =~= x@);
    assert(y@.skip(0) =~= y@);
    loop
        invariant
            i <= x.len(),
            i <= y.len(),
            x@ == a@,
            y@ == b@,
            text_lt(x@, y@) == text_lt(x@.skip(i as int), y@.skip(i as int)),
        decreases x.len() - i,
    {
        if i >= y.len() {
            return false;
        }
        if i >= x.len() {
            return true;
        }
        if x[i] != y[i] {
            return x[i] < y[i];
        }
        proof {
            assert(x@.skip(i as int).drop_first() =~= x@.skip(i + 1));
            assert(y@.skip(i as int).drop_first() =~= y@.skip(i + 1));
        }
        i += 1;
    }
}

/// Sorts texts in ascending order.
pub fn sort_texts(items: Vec<String>) -> (r: Vec<String>)
    ensures
        texts(r@) == sorted_texts(texts(items@)),
{
    let ghost all = texts(items@);
    let mut items = items;
    let mut out: Vec<String> = Vec::new();
    assert(all.skip(all.len() as int) =~= Seq::<Seq<char>>::empty());
    assert(texts(out@) =~= Seq::<Seq<char>>::empty());
    while items.len() > 0
        invariant
            texts(items@) == all.take(items@.len() as int),
            items@.len() <= all.len(),
            texts(out@) == sorted_texts(all.skip(items@.len() as int)),
        decreases items@.len(),
    {
        let ghost n = items@.len() as int;
        let ghost old_items = items@;
        let x = items.pop().unwrap();
        let mut p: usize = 0;
        while p < out.len() && text_lt_exec(out[p].as_str(), x.as_str())
            invariant
                p <= out.len(),
                first_not_before(texts(out@), x@, 0) == first_not_before(texts(out@), x@, p as int),
            decreases out.len() - p,
        {
            p += 1;
        }
        proof {
            assert(texts(old_items)[n - 1] == x@);
            assert(all.skip(n - 1)[0] == x@);
            assert(all.skip(n - 1).drop_first() =~= all.skip(n));
            assert(texts(items@) =~= all.take(n - 1));
        }
        let ghost before = out@;
        out.insert(p, x);
        assert(texts(out@) =~= texts(before).insert(p as int, x@));
    }
    assert(all.skip(0) =~= all);
    out
}

/// Joins texts with `sep` between neighbours.
pub fn join_texts(parts: &Vec<String>, sep: &str) -> (r: String)
    ensures
        r@ == join(texts(parts@), sep@),
{
    let ghost all = texts(parts@);
    let mut out: Vec<char> = Vec::new();
    let mut i: usize = 0;
    assert(all.take(0) =~= Seq::<Seq<char>>::empty());
    while i < parts.len()
        invariant
            i <= parts.len(),
            all == texts(parts@),
            out@ == join(all.take(i as int), sep@),
        decreases parts.len() - i,
    {
        let ghost before = out@;
        if i > 0 {
            append_str(&mut out, sep);
        }
        append_str(&mut out, parts[i].as_str());
        proof {
            let grown = all.take(i + 1);
            assert(grown.drop_last() =~= all.take(i as int));
            assert(grown.last() == parts@[i as int]@);
            if i > 0 {
                assert(out@ =~= before + sep@ + parts@[i as int]@);
            } else {
                assert(before =~= Seq::<char>::empty());
                assert(out@ =~= parts@[i as int]@);
            }
        }
        i += 1;
    }
    assert(all.take(parts.len() as int) =~= all);
    string_of(&out)
}

// ---------------------------------------------------------------------
// Laws
// ---------------------------------------------------------------------

/// The identifiers that are looked up are runs of digits, and there
/// are no more than [`METADATA_LIMIT`] of them.
pub proof fn lemma_safe_ids_are_safe(ids: Seq<Seq<char>>)
    ensures
        safe_ids(ids).len() <= METADATA_LIMIT,
        forall|i: int| 0 <= i < safe_ids(ids).len() ==> is_number_id(#[trigger] safe_ids(ids)[i]),
    decreases ids.len(),
{
    if ids.len() > 0 {
        lemma_safe_ids_are_safe(ids.drop_last());
    }
}

/// The logins that are asked have the form of a login, none is asked
/// twice, and there are no more than [`STATUS_LIMIT`] of them.
pub proof fn lemma_vetted_logins_are_vetted(names: Seq<Seq<char>>)
    ensures
        vetted_logins(names).len() <= STATUS_LIMIT,
        forall|i: int|
            0 <= i < vetted_logins(names).len() ==> is_login(#[trigger] vetted_logins(names)[i]),
        forall|i: int, j: int|
            0 <= i < j < vetted_logins(names).len() ==> vetted_logins(names)[i] != vetted_logins(
                names,
            )[j],
    decreases names.len(),
{
    if names.len() > 0 {
        lemma_vetted_logins_are_vetted(names.drop_last());
    }
}

proof fn lemma_text_order(a: Seq<char>, b: Seq<char>, c: Seq<char>)
    ensures
        !(text_lt(a, b) && text_lt(b, a)),
        a != b ==> text_lt(a, b) || text_lt(b, a),
        text_lt(a, b) && text_lt(b, c) ==> text_lt(a, c),
    decreases a.len(),
{
    if a.len() > 0 && b.len() > 0 {
        if a[0] == b[0] {
            if c.len() > 0 {
                lemma_text_order(a.drop_first(), b.drop_first(), c.drop_first());
            } else {
                lemma_text_order(a.drop_first(), b.drop_first(), c);
            }
            if a.drop_first() == b.drop_first() {
                assert(a =~= seq![a[0]] + a.drop_first());
                assert(b =~= seq![b[0]] + b.drop_first());
            }
        }
    } else if a.len() == 0 && b.len() == 0 {
        assert(a =~= b);
    }
}

/// Sorting puts texts in ascending order: no text comes before one
/// that stands in front of it.
pub proof fn lemma_sorted_texts_ascend(s: Seq<Seq<char>>)
    ensures
        sorted_texts(s).len() == s.len(),
        forall|i: int, j: int|
            0 <= i < j < sorted_texts(s).len() ==> !text_lt(
                #[trigger] sorted_texts(s)[j],
                #[trigger] sorted_texts(s)[i],
            ),
    decreases s.len(),
{
    if s.len() > 0 {
        let t = sorted_texts(s.drop_first());
        lemma_sorted_texts_ascend(s.drop_first());
        let x = s[0];
        let p = first_not_before(t, x, 0);
        lemma_first_not_before_bounds(t, x, 0);
        let r = t.insert(p, x);
        t.insert_ensures(p, x);
        assert(sorted_texts(s) == r);
        assert forall|i: int, j: int| 0 <= i < j < r.len() implies !text_lt(
            #[trigger] r[j],
            #[trigger] r[i],
        ) by {
            if j < p {
                assert(r[i] == t[i] && r[j] == t[j]);
            } else if j == p {
                assert(r[i] == t[i]);
                assert(text_lt(t[i], x));
                lemma_text_order(t[i], x, x);
            } else {
                assert(r[j] == t[j - 1]);
                if i < p {
                    assert(r[i] == t[i]);
                } else if i == p {
                    assert(!text_lt(t[p], x));
                    if j - 1 > p {
                        assert(!text_lt(t[j - 1], t[p]));
                    }
                    lemma_text_order(t[j - 1], x, t[p]);
                    lemma_text_order(x, t[p], x);
                } else {
                    assert(r[i] == t[i - 1]);
                }
            }
        }
    }
}

proof fn lemma_first_not_before_bounds(sorted: Seq<Seq<char>>, x: Seq<char>, from: int)
    requires
        0 <= from <= sorted.len(),
    ensures
        from <= first_not_before(sorted, x, from) <= sorted.len(),
        forall|k: int| from <= k < first_not_before(sorted, x, from) ==> text_lt(#[trigger] sorted[k], x),
        first_not_before(sorted, x, from) < sorted.len() ==> !text_lt(
            sorted[first_not_before(sorted, x, from)],
            x,
        ),
    decreases sorted.len() - from,
{
    if from < sorted.len() && text_lt(sorted[from], x) {
        lemma_first_not_before_bounds(sorted, x, from + 1);
    }
}

} // verus!
