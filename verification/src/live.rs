//! The master playlist of a live channel: the upstream playlist is
//! fetched from a signed URL, and every reference in it is replaced by
//! the proxy path of a registered target.

use crate::cache::{expiry, CacheSlot, TimedCache};
use crate::encoding::{decimal, percent_encode, push_decimal, push_percent_encoded};
use crate::registry::{
    is_proxy_token, lemma_proxy_key_is_injective, lemma_token_is_trimmed, proxy_key, proxy_path,
    proxy_path_for, register_variant_proxy_target, resolved, utf8, validated, ProxyErrorView,
    TARGET_TTL_SECS,
};
use crate::text::{
    append, append_str, chars_of, contains_in, contains_text, find_char, find_char_from, find_from,
    find_in, matches_at_exec, rfind_char, rfind_char_exec, slice_of, starts_with, string_of, texts,
    trim_end_char, trim_end_char_exec, trim_start_char, trim_start_char_exec, trim_ws, trim_ws_exec,
};
use vstd::prelude::*;

verus! {

broadcast use vstd::string::group_string_axioms;

// ---------------------------------------------------------------------
// The upstream URL
// ---------------------------------------------------------------------

/// The cache-buster is drawn below this bound.
pub const CACHE_BUSTER_BOUND: u32 = 1_000_000;

/// The URL of the upstream master playlist of a channel: the fixed
/// player parameters, the cache-buster `p`, and the signature and value
/// of the playback grant, percent-encoded.
pub open spec fn live_source(login: Seq<char>, value: Seq<char>, signature: Seq<char>, p: nat) -> Seq<
    char,
> {
    "https://usher.ttvnw.net/api/channel/hls/"@ + percent_encode(utf8(login)) + ".m3u8?"@
        + "allow_source=true&allow_audio_only=true&fast_bread=true&playlist_include_framerate=true&player_backend=mediaplayer&player=twitchweb&p="@
        + decimal(p) + "&sig="@ + percent_encode(utf8(signature)) + "&token="@ + percent_encode(
        utf8(value),
    )
}

/// Builds the URL of the upstream master playlist with the
/// cache-buster `p`.
pub fn live_source_url(channel_login: &str, value: &str, signature: &str, p: u32) -> (url: String)
    ensures
        url@ == live_source(channel_login@, value@, signature@, p as nat),
{
    let mut out: Vec<char> = Vec::new();
    append_str(&mut out, "https://usher.ttvnw.net/api/channel/hls/");
    push_percent_encoded(&mut out, channel_login);
    append_str(&mut out, ".m3u8?");
    append_str(
        &mut out,
        "allow_source=true&allow_audio_only=true&fast_bread=true&playlist_include_framerate=true&player_backend=mediaplayer&player=twitchweb&p=",
    );
    push_decimal(&mut out, p as u64);
    append_str(&mut out, "&sig=");
    push_percent_encoded(&mut out, signature);
    append_str(&mut out, "&token=");
    push_percent_encoded(&mut out, value);
    assert(out@ =~= live_source(channel_login@, value@, signature@, p as nat));
    string_of(&out)
}

/// Four bytes of a random `Uuid::new_v4`, read as a little-endian
/// number: any value may come back.
#[verifier::external_body]
fn random_u32() -> (n: u32) {
    let id = uuid::Uuid::new_v4();
    let bytes = id.as_bytes();
    u32::from_le_bytes([bytes[0], bytes[1], bytes[2], bytes[3]])
}

/// Builds the URL of the upstream master playlist with a random
/// cache-buster below [`CACHE_BUSTER_BOUND`].  The cache-buster is
/// returned beside the URL.
pub fn fresh_live_source_url(channel_login: &str, value: &str, signature: &str) -> (r: (String, u32))
    ensures
        r.1 < CACHE_BUSTER_BOUND,
        r.0@ == live_source(channel_login@, value@, signature@, r.1 as nat),
{
    let p: u32 = random_u32() % CACHE_BUSTER_BOUND;
    (live_source_url(channel_login, value, signature, p), p)
}

// ---------------------------------------------------------------------
// Absolute URLs
// ---------------------------------------------------------------------

/// `url` made absolute against `base`: a URL that begins with
/// `http://` or `https://` stands as it is; any other is put, without
/// its leading slashes, behind `base` cut before its last `/`.
pub open spec fn absolute_url(url: Seq<char>, base: Seq<char>) -> Seq<char> {
    if starts_with(url, "http://"@) || starts_with(url, "https://"@) {
        url
    } else {
        let end = match rfind_char(base, '/') {
            Some(i) => i,
            None => base.len() as int,
        };
        base.subrange(0, end) + seq!['/'] + trim_start_char(url, '/')
    }
}

fn absolute_url_exec(url: &Vec<char>, base: &Vec<char>) -> (r: Vec<char>)
    ensures
        r@ == absolute_url(url@, base@),
{
    if matches_at_exec(url, &chars_of("http://"), 0) || matches_at_exec(
        url,
        &chars_of("https://"),
        0,
    ) {
        let r = slice_of(url, 0, url.len());
        assert(r@ =~= url@);
        r
    } else {
        let end: usize = match rfind_char_exec(base, '/') {
            Some(i) => i,
            None => base.len(),
        };
        let mut r = slice_of(base, 0, end);
        r.push('/');
        let tail = trim_start_char_exec(url, '/');
        append(&mut r, &tail);
        assert(r@ =~= absolute_url(url@, base@));
        r
    }
}

/// Makes `url` absolute against `base`.
pub fn make_absolute_url(url: &str, base: &str) -> (r: String)
    ensures
        r@ == absolute_url(url@, base@),
{
    let r = absolute_url_exec(&chars_of(url), &chars_of(base));
    string_of(&r)
}

// ---------------------------------------------------------------------
// The lines of a master playlist
// ---------------------------------------------------------------------

/// What a line of a master playlist is to the rewriting.
#[derive(Debug, Clone, Copy, PartialEq, Eq, Structural)]
pub enum LineKind {
    /// A blank line, or a tag without a URI: it stands as it is.
    Verbatim,
    /// A bare reference.
    Reference,
    /// A tag with at least one `URI="`.
    Tag,
}

/// The text `URI="` that opens a URI attribute.
pub open spec fn uri_marker() -> Seq<char> {
    seq!['U', 'R', 'I', '=', '"']
}

/// A line without its carriage return and surrounding white space.
pub open spec fn master_line(piece: Seq<char>) -> Seq<char> {
    trim_ws(trim_end_char(piece, '\r'))
}

/// The kind of a line.
pub open spec fn line_kind(piece: Seq<char>) -> LineKind {
    let line = master_line(piece);
    if line.len() == 0 {
        LineKind::Verbatim
    } else if line[0] != '#' {
        LineKind::Reference
    } else if contains_text(line, uri_marker()) {
        LineKind::Tag
    } else {
        LineKind::Verbatim
    }
}

/// The next URI attribute of `line` at or after `c`: where its value
/// begins and where the closing quote stands.  An attribute that is
/// not closed does not count.
pub open spec fn next_uri(line: Seq<char>, c: int) -> Option<(int, int)> {
    match find_from(line, uri_marker(), c) {
        Some(s) => {
            let a = s + 5;
            let e = find_char_from(line, '"', a);
            if c <= s && a <= e < line.len() {
                Some((a, e))
            } else {
                None
            }
        },
        None => None,
    }
}

/// The URIs of a tag line from `c` on, made absolute against `source`.
pub open spec fn tag_refs(line: Seq<char>, source: Seq<char>, c: int) -> Seq<Seq<char>>
    decreases line.len() - c,
{
    match next_uri(line, c) {
        Some((a, e)) => seq![absolute_url(line.subrange(a, e), source)] + tag_refs(line, source, e),
        None => Seq::empty(),
    }
}

/// How many URIs a tag line holds from `c` on.
pub open spec fn tag_uri_count(line: Seq<char>, c: int) -> nat
    decreases line.len() - c,
{
    match next_uri(line, c) {
        Some((a, e)) => 1 + tag_uri_count(line, e),
        None => 0,
    }
}

/// The references of one line, absolute, in order.
pub open spec fn line_refs(piece: Seq<char>, source: Seq<char>) -> Seq<Seq<char>> {
    match line_kind(piece) {
        LineKind::Verbatim => Seq::empty(),
        LineKind::Reference => seq![absolute_url(master_line(piece), source)],
        LineKind::Tag => tag_refs(master_line(piece), source, 0),
    }
}

/// How many references one line holds.
pub open spec fn line_ref_count(piece: Seq<char>) -> nat {
    match line_kind(piece) {
        LineKind::Verbatim => 0,
        LineKind::Reference => 1,
        LineKind::Tag => tag_uri_count(master_line(piece), 0),
    }
}

/// The references of the lines of `s` from index `start` on.
pub open spec fn refs_from(s: Seq<char>, source: Seq<char>, start: int) -> Seq<Seq<char>>
    decreases s.len() - start,
{
    let e = find_char_from(s, '\n', start);
    if 0 <= start <= e < s.len() {
        line_refs(s.subrange(start, e), source) + refs_from(s, source, e + 1)
    } else {
        line_refs(s.subrange(start, s.len() as int), source)
    }
}

/// The references of a master playlist, made absolute against the URL
/// it was fetched from, in the order in which they occur.
pub open spec fn master_refs(master: Seq<char>, source: Seq<char>) -> Seq<Seq<char>> {
    refs_from(master, source, 0)
}

/// The replacement at position `k`, or `fallback` where `subs` has none.
pub open spec fn pick(subs: Seq<Seq<char>>, k: int, fallback: Seq<char>) -> Seq<char> {
    if 0 <= k < subs.len() {
        subs[k]
    } else {
        fallback
    }
}

/// A tag line from `c` on, the value of each URI attribute replaced:
/// the first by `subs[k]`, the next by `subs[k + 1]`, and so on.
pub open spec fn tag_rewrite(line: Seq<char>, c: int, subs: Seq<Seq<char>>, k: int) -> Seq<char>
    decreases line.len() - c,
{
    match next_uri(line, c) {
        Some((a, e)) => line.subrange(c, a) + pick(subs, k, line.subrange(a, e)) + tag_rewrite(
            line,
            e,
            subs,
            k + 1,
        ),
        None => line.subrange(c, line.len() as int),
    }
}

/// One line with its references replaced, the first by `subs[k]`.  A
/// verbatim line loses only its carriage return.
pub open spec fn line_rewrite(piece: Seq<char>, subs: Seq<Seq<char>>, k: int) -> Seq<char> {
    match line_kind(piece) {
        LineKind::Verbatim => trim_end_char(piece, '\r'),
        LineKind::Reference => pick(subs, k, master_line(piece)),
        LineKind::Tag => tag_rewrite(master_line(piece), 0, subs, k),
    }
}

/// The lines of `s` from index `start` on with their references
/// replaced, the first of them by `subs[k]`.
pub open spec fn rewrite_from(s: Seq<char>, subs: Seq<Seq<char>>, start: int, k: int) -> Seq<char>
    decreases s.len() - start,
{
    let e = find_char_from(s, '\n', start);
    if 0 <= start <= e < s.len() {
        line_rewrite(s.subrange(start, e), subs, k) + seq!['\n'] + rewrite_from(
            s,
            subs,
            e + 1,
            k + line_ref_count(s.subrange(start, e)),
        )
    } else {
        line_rewrite(s.subrange(start, s.len() as int), subs, k)
    }
}

/// A master playlist with its references replaced by `subs`, in the
/// order in which they occur.
pub open spec fn master_rewritten(master: Seq<char>, subs: Seq<Seq<char>>) -> Seq<char> {
    rewrite_from(master, subs, 0, 0)
}

fn uri_marker_exec() -> (m: Vec<char>)
    ensures
        m@ == uri_marker(),
{
    let m = chars_of("URI=\"");
    proof {
        reveal_strlit("URI=\"");
        assert(m@ =~= uri_marker());
    }
    m
}

/// Tells the kind of a line and gives it without its carriage return
/// and in its trimmed form.
fn read_line(piece: &Vec<char>) -> (r: (LineKind, Vec<char>, Vec<char>))
    ensures
        r.0 == line_kind(piece@),
        r.1@ == trim_end_char(piece@, '\r'),
        r.2@ == master_line(piece@),
        r.2@.len() <= piece@.len(),
        r.0 == LineKind::Reference ==> piece@.len() > 0,
{
    let stripped = trim_end_char_exec(piece, '\r');
    let line = trim_ws_exec(&stripped);
    let kind = if line.len() == 0 {
        LineKind::Verbatim
    } else if line[0] != '#' {
        LineKind::Reference
    } else if contains_in(&line, &uri_marker_exec()) {
        LineKind::Tag
    } else {
        LineKind::Verbatim
    };
    (kind, stripped, line)
}

fn next_uri_exec(line: &Vec<char>, c: usize) -> (r: Option<(usize, usize)>)
    ensures
        match r {
            Some((a, e)) => next_uri(line@, c as int) == Some((a as int, e as int)) && c + 5 <= a
                <= e < line.len(),
            None => next_uri(line@, c as int) is None,
        },
{
    let marker = uri_marker_exec();
    match find_in(line, &marker, c) {
        Some(s) => {
            let a: usize = s + 5;
            let e: usize = find_char(line, '"', a);
            if e < line.len() {
                Some((a, e))
            } else {
                None
            }
        },
        None => None,
    }
}

fn collect_tag_refs(line: &Vec<char>, source: &Vec<char>, refs: &mut Vec<String>)
    ensures
        texts(final(refs)@) == texts(old(refs)@) + tag_refs(line@, source@, 0),
{
    let mut c: usize = 0;
    loop
        invariant
            c <= line.len(),
            texts(refs@) + tag_refs(line@, source@, c as int) == texts(old(refs)@) + tag_refs(
                line@,
                source@,
                0,
            ),
        decreases line.len() - c,
    {
        match next_uri_exec(line, c) {
            Some((a, e)) => {
                let uri = slice_of(line, a, e);
                let abs = absolute_url_exec(&uri, source);
                let ghost before = refs@;
                refs.push(string_of(&abs));
                assert(texts(refs@) =~= texts(before).push(abs@));
                assert(texts(refs@) + tag_refs(line@, source@, e as int) =~= texts(before)
                    + tag_refs(line@, source@, c as int));
                c = e;
            },
            None => {
                assert(texts(refs@) =~= texts(old(refs)@) + tag_refs(line@, source@, 0));
                return ;
            },
        }
    }
}

/// Lists the references of a master playlist, made absolute against
/// the URL it was fetched from.
pub fn master_references(master: &str, source_url: &str) -> (refs: Vec<String>)
    ensures
        texts(refs@) == master_refs(master@, source_url@),
{
    let text = chars_of(master);
    let source = chars_of(source_url);
    let mut refs: Vec<String> = Vec::new();
    let mut start: usize = 0;
    assert(texts(refs@) =~= Seq::<Seq<char>>::empty());
    loop
        invariant
            start <= text.len(),
            text@ == master@,
            source@ == source_url@,
            texts(refs@) + refs_from(text@, source@, start as int) == master_refs(text@, source@),
        decreases text.len() - start,
    {
        let e: usize = find_char(&text, '\n', start);
        let piece = slice_of(&text, start, e);
        let (kind, _stripped, line) = read_line(&piece);
        let ghost before = refs@;
        match kind {
            LineKind::Verbatim => {},
            LineKind::Reference => {
                let abs = absolute_url_exec(&line, &source);
                refs.push(string_of(&abs));
                assert(texts(refs@) =~= texts(before).push(abs@));
            },
            LineKind::Tag => {
                collect_tag_refs(&line, &source, &mut refs);
            },
        }
        assert(texts(refs@) =~= texts(before) + line_refs(piece@, source@));
        if e >= text.len() {
            return refs;
        }
        assert(texts(refs@) + refs_from(text@, source@, e + 1) =~= texts(before) + refs_from(
            text@,
            source@,
            start as int,
        ));
        start = e + 1;
    }
}

fn push_pick(out: &mut Vec<char>, subs: &Vec<String>, k: usize, fallback: &Vec<char>)
    ensures
        final(out)@ == old(out)@ + pick(texts(subs@), k as int, fallback@),
{
    if k < subs.len() {
        let s = chars_of(subs[k].as_str());
        append(out, &s);
    } else {
        append(out, fallback);
    }
}

fn rewrite_tag(out: &mut Vec<char>, line: &Vec<char>, subs: &Vec<String>, k: usize) -> (next: usize)
    requires
        k + line.len() <= usize::MAX,
    ensures
        final(out)@ == old(out)@ + tag_rewrite(line@, 0, texts(subs@), k as int),
        next == k + tag_uri_count(line@, 0),
        next <= k + line.len(),
{
    let mut c: usize = 0;
    let mut n: usize = k;
    loop
        invariant
            c <= line.len(),
            k + line.len() <= usize::MAX,
            k <= n <= k + c,
            n + tag_uri_count(line@, c as int) == k + tag_uri_count(line@, 0),
            out@ + tag_rewrite(line@, c as int, texts(subs@), n as int) == old(out)@ + tag_rewrite(
                line@,
                0,
                texts(subs@),
                k as int,
            ),
        decreases line.len() - c,
    {
        let ghost before = out@;
        match next_uri_exec(line, c) {
            Some((a, e)) => {
                let head = slice_of(line, c, a);
                let uri = slice_of(line, a, e);
                append(out, &head);
                push_pick(out, subs, n, &uri);
                assert(out@ + tag_rewrite(line@, e as int, texts(subs@), n + 1) =~= before
                    + tag_rewrite(line@, c as int, texts(subs@), n as int));
                n += 1;
                c = e;
            },
            None => {
                let tail = slice_of(line, c, line.len());
                append(out, &tail);
                return n;
            },
        }
    }
}

/// Replaces the references of a master playlist by `subs`, in the
/// order in which they occur; a reference for which `subs` has no
/// element stands as it is.
pub fn substitute_references(master: &str, subs: &Vec<String>) -> (r: String)
    ensures
        r@ == master_rewritten(master@, texts(subs@)),
{
    let text = chars_of(master);
    let mut out: Vec<char> = Vec::new();
    let mut start: usize = 0;
    let mut k: usize = 0;
    loop
        invariant
            start <= text.len(),
            k <= start,
            text@ == master@,
            out@ + rewrite_from(text@, texts(subs@), start as int, k as int) == master_rewritten(
                text@,
                texts(subs@),
            ),
        decreases text.len() - start,
    {
        let e: usize = find_char(&text, '\n', start);
        let piece = slice_of(&text, start, e);
        let (kind, stripped, line) = read_line(&piece);
        let ghost before = out@;
        let next: usize = match kind {
            LineKind::Verbatim => {
                append(&mut out, &stripped);
                k
            },
            LineKind::Reference => {
                push_pick(&mut out, subs, k, &line);
                k + 1
            },
            LineKind::Tag => rewrite_tag(&mut out, &line, subs, k),
        };
        assert(out@ =~= before + line_rewrite(piece@, texts(subs@), k as int));
        assert(next == k + line_ref_count(piece@));
        if e >= text.len() {
            return string_of(&out);
        }
        out.push('\n');
        assert(out@ + rewrite_from(text@, texts(subs@), e + 1, next as int) =~= before
            + rewrite_from(text@, texts(subs@), start as int, k as int));
        k = next;
        start = e + 1;
    }
}

// ---------------------------------------------------------------------
// Registration
// ---------------------------------------------------------------------

/// What the registration of one reference leaves behind: the token
/// drawn and the entry stored under it, or nothing.
pub struct Registered {
    pub token: Seq<char>,
    pub slot: CacheSlot<String>,
}

/// `step` and `sub` are what the registration of `reference` gives.
/// Where the registry accepts the reference, an entry is stored under
/// a token: it holds the sanitized URL and expires when the time that
/// a target lives has run from some instant; the proxy path of that
/// token stands for the reference.  Where the registry refuses the
/// reference, nothing is stored and the reference stands for itself.
pub open spec fn registered_as(reference: Seq<char>, sub: Seq<char>, step: Option<Registered>) -> bool {
    match validated(reference) {
        Ok(sanitized) => step is Some && {
            let r = step->Some_0;
            &&& is_proxy_token(r.token)
            &&& sub == proxy_path(r.token)
            &&& r.slot.value@ == sanitized
            &&& exists|now: u128| r.slot.expires == #[trigger] expiry(now, TARGET_TTL_SECS)
        },
        Err(_) => step is None && sub == reference,
    }
}

/// The registry after the registrations `steps`, made one after the
/// other on `targets`: each entry is stored under the key of its
/// token, and nothing else changes.
pub open spec fn registry_after(
    targets: Map<Seq<char>, CacheSlot<String>>,
    steps: Seq<Option<Registered>>,
) -> Map<Seq<char>, CacheSlot<String>>
    decreases steps.len(),
{
    if steps.len() == 0 {
        targets
    } else {
        let before = registry_after(targets, steps.drop_last());
        match steps.last() {
            Some(r) => before.insert(proxy_key(r.token), r.slot),
            None => before,
        }
    }
}

/// `subs` and `steps` are what registering `refs` one after the other
/// gives.
pub open spec fn all_registered_as(
    refs: Seq<Seq<char>>,
    subs: Seq<Seq<char>>,
    steps: Seq<Option<Registered>>,
) -> bool {
    &&& subs.len() == refs.len()
    &&& steps.len() == refs.len()
    &&& forall|k: int| 0 <= k < refs.len() ==> registered_as(refs[k], subs[k], #[trigger] steps[k])
}

/// Registers each reference and gives what stands for it.  The
/// registry is changed by the registrations of the accepted
/// references, in order, and by nothing else.
pub fn register_references(targets: &mut TimedCache<String>, refs: &Vec<String>) -> (subs: Vec<
    String,
>)
    requires
        old(targets).wf(),
    ensures
        final(targets).wf(),
        exists|steps: Seq<Option<Registered>>|
            {
                &&& all_registered_as(texts(refs@), texts(subs@), steps)
                &&& final(targets)@ == #[trigger] registry_after(old(targets)@, steps)
            },
{
    let mut subs: Vec<String> = Vec::new();
    let ghost mut steps: Seq<Option<Registered>> = Seq::empty();
    let mut i: usize = 0;
    while i < refs.len()
        invariant
            i <= refs.len(),
            targets.wf(),
            subs@.len() == i,
            steps.len() == i,
            forall|k: int|
                0 <= k < i ==> registered_as(refs@[k]@, subs@[k]@, #[trigger] steps[k]),
            targets@ == registry_after(old(targets)@, steps),
        decreases refs.len() - i,
    {
        let ghost before = targets@;
        let ghost done = subs@;
        let ghost past = steps;
        let ghost step: Option<Registered>;
        let sub = match register_variant_proxy_target(targets, refs[i].as_str()) {
            Ok(token) => {
                let path = proxy_path_for(token.as_str());
                proof {
                    step = Some(
                        Registered { token: token@, slot: targets@[proxy_key(token@)] },
                    );
                }
                path
            },
            Err(_) => {
                proof {
                    step = None;
                }
                refs[i].clone()
            },
        };
        assert(registered_as(refs@[i as int]@, sub@, step));
        subs.push(sub);
        proof {
            steps = past.push(step);
            assert(steps.drop_last() =~= past);
            assert(steps.last() == step);
            assert(targets@ == registry_after(old(targets)@, steps));
            assert forall|k: int| 0 <= k < i + 1 implies registered_as(
                refs@[k]@,
                subs@[k]@,
                #[trigger] steps[k],
            ) by {
                if k < i {
                    assert(subs@[k] == done[k]);
                    assert(steps[k] == past[k]);
                }
            }
        }
        i += 1;
    }
    proof {
        assert(all_registered_as(texts(refs@), texts(subs@), steps)) by {
            assert forall|k: int| 0 <= k < texts(refs@).len() implies registered_as(
                texts(refs@)[k],
                texts(subs@)[k],
                #[trigger] steps[k],
            ) by {
                assert(texts(refs@)[k] == refs@[k]@);
                assert(texts(subs@)[k] == subs@[k]@);
            }
        }
    }
    subs
}

/// Rewrites the master playlist fetched from `source_url`: every
/// reference, made absolute, is registered and replaced by the proxy
/// path of its token; a reference that the registry refuses is
/// replaced by its absolute URL and leaves the registry as it is.
pub fn rewrite_master_with_proxy(
    master: &str,
    _host: &str,
    source_master_url: &str,
    targets: &mut TimedCache<String>,
) -> (r: String)
    requires
        old(targets).wf(),
    ensures
        final(targets).wf(),
        exists|subs: Seq<Seq<char>>, steps: Seq<Option<Registered>>|
            #![trigger master_rewritten(master@, subs), registry_after(old(targets)@, steps)]
            {
                &&& all_registered_as(master_refs(master@, source_master_url@), subs, steps)
                &&& master_rewritten(master@, subs) == r@
                &&& final(targets)@ == registry_after(old(targets)@, steps)
            },
{
    let refs = master_references(master, source_master_url);
    let subs = register_references(targets, &refs);
    let r = substitute_references(master, &subs);
    proof {
        let steps = choose|steps: Seq<Option<Registered>>|
            {
                &&& all_registered_as(texts(refs@), texts(subs@), steps)
                &&& targets@ == #[trigger] registry_after(old(targets)@, steps)
            };
        let chosen = texts(subs@);
        assert(all_registered_as(master_refs(master@, source_master_url@), chosen, steps));
        assert(master_rewritten(master@, chosen) == r@);
        assert(targets@ == registry_after(old(targets)@, steps));
    }
    r
}

// ---------------------------------------------------------------------
// Laws
// ---------------------------------------------------------------------

/// Registrations take no key out of the registry, and references that
/// are all refused leave it as it is.
pub proof fn lemma_registry_grows(
    targets: Map<Seq<char>, CacheSlot<String>>,
    steps: Seq<Option<Registered>>,
)
    ensures
        targets.dom().subset_of(registry_after(targets, steps).dom()),
        (forall|k: int| 0 <= k < steps.len() ==> (#[trigger] steps[k]) is None) ==> registry_after(
            targets,
            steps,
        ) == targets,
    decreases steps.len(),
{
    if steps.len() > 0 {
        let rest = steps.drop_last();
        lemma_registry_grows(targets, rest);
        if forall|k: int| 0 <= k < steps.len() ==> (#[trigger] steps[k]) is None {
            assert forall|k: int| 0 <= k < rest.len() implies (#[trigger] rest[k]) is None by {
                assert(rest[k] == steps[k]);
            }
            assert(steps[steps.len() - 1] is None);
        }
    }
}

/// A key under which no registration stored anything is held as
/// before, or not held as before.
pub proof fn lemma_other_keys_stay(
    targets: Map<Seq<char>, CacheSlot<String>>,
    steps: Seq<Option<Registered>>,
    key: Seq<char>,
)
    requires
        forall|k: int|
            0 <= k < steps.len() && (#[trigger] steps[k]) is Some ==> proxy_key(
                steps[k]->Some_0.token,
            ) != key,
    ensures
        registry_after(targets, steps).contains_key(key) <==> targets.contains_key(key),
        targets.contains_key(key) ==> registry_after(targets, steps)[key] == targets[key],
    decreases steps.len(),
{
    if steps.len() > 0 {
        let rest = steps.drop_last();
        assert forall|k: int| 0 <= k < rest.len() && (#[trigger] rest[k]) is Some implies proxy_key(
            rest[k]->Some_0.token,
        ) != key by {
            assert(rest[k] == steps[k]);
        }
        lemma_other_keys_stay(targets, rest, key);
        let last = steps[steps.len() - 1];
        if last is Some {
            assert(proxy_key(last->Some_0.token) != key);
        }
    }
}

/// A registered reference resolves: where the registration at `k`
/// stored an entry under a token and no later registration drew the
/// same token, the registry holds that entry under the token at the
/// end, so that the token resolves to the sanitized URL of the
/// reference until the entry expires.
pub proof fn lemma_registered_reference_resolves(
    targets: Map<Seq<char>, CacheSlot<String>>,
    steps: Seq<Option<Registered>>,
    k: int,
    later: u128,
)
    requires
        0 <= k < steps.len(),
        steps[k] is Some,
        is_proxy_token(steps[k]->Some_0.token),
        forall|j: int|
            k < j < steps.len() && (#[trigger] steps[j]) is Some ==> steps[j]->Some_0.token
                != steps[k]->Some_0.token,
    ensures
        registry_after(targets, steps).contains_key(proxy_key(steps[k]->Some_0.token)),
        registry_after(targets, steps)[proxy_key(steps[k]->Some_0.token)] == steps[k]->Some_0.slot,
        later < steps[k]->Some_0.slot.expires ==> resolved(
            registry_after(targets, steps),
            steps[k]->Some_0.token,
            later,
        ) == Ok::<Seq<char>, ProxyErrorView>(steps[k]->Some_0.slot.value@),
    decreases steps.len(),
{
    let token = steps[k]->Some_0.token;
    let rest = steps.drop_last();
    let last = steps[steps.len() - 1];
    if k < steps.len() - 1 {
        assert(rest[k] == steps[k]);
        assert forall|j: int| k < j < rest.len() && (#[trigger] rest[j]) is Some implies rest[j]->Some_0.token
            != rest[k]->Some_0.token by {
            assert(rest[j] == steps[j]);
        }
        lemma_registered_reference_resolves(targets, rest, k, later);
        if last is Some {
            assert(last->Some_0.token != token);
            if proxy_key(last->Some_0.token) == proxy_key(token) {
                lemma_proxy_key_is_injective(last->Some_0.token, token);
            }
        }
    }
    lemma_token_is_trimmed(token);
}

} // verus!
