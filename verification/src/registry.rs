//! The registry of proxy targets: upstream URLs are checked against an
//! allow-list, stripped of unknown query parameters and stored for a
//! short time under a random token; a token is resolved back to its URL.

use crate::cache::{expiry, live_value, CacheSlot, TimedCache};
use crate::encoding::{
    is_plain_char, lemma_plain_text_is_kept, lowercased, percent_encode, push_percent_encoded,
    to_lowercase,
};
use crate::text::{
    append, append_str, chars_of, contains_in, contains_text, ends_with, ends_with_exec, is_white_space,
    join, matches_at_exec, starts_with, string_of, text_is, trim_ws, trim_ws_exec,
};
use vstd::prelude::*;

verus! {

broadcast use vstd::string::group_string_axioms;

// ---------------------------------------------------------------------
// Errors
// ---------------------------------------------------------------------

/// Why a target was refused or a token not resolved.
#[derive(Debug)]
pub enum ProxyError {
    /// The text is no absolute URL.
    InvalidUrl,
    /// The scheme is not `https`.
    NotHttps,
    /// The host, given here in lower case, is not on the allow-list.
    DisallowedHost(String),
    /// The path is of none of the accepted forms.
    DisallowedPath,
    /// The token does not have the form of a proxy token.
    InvalidToken,
    /// No live target is stored under the token.
    NotFound,
}

/// The mathematical form of a [`ProxyError`].
pub enum ProxyErrorView {
    InvalidUrl,
    NotHttps,
    DisallowedHost(Seq<char>),
    DisallowedPath,
    InvalidToken,
    NotFound,
}

impl View for ProxyError {
    type V = ProxyErrorView;

    open spec fn view(&self) -> ProxyErrorView {
        match self {
            ProxyError::InvalidUrl => ProxyErrorView::InvalidUrl,
            ProxyError::NotHttps => ProxyErrorView::NotHttps,
            ProxyError::DisallowedHost(h) => ProxyErrorView::DisallowedHost(h@),
            ProxyError::DisallowedPath => ProxyErrorView::DisallowedPath,
            ProxyError::InvalidToken => ProxyErrorView::InvalidToken,
            ProxyError::NotFound => ProxyErrorView::NotFound,
        }
    }
}

/// The text of each error.
pub open spec fn error_text(e: ProxyErrorView) -> Seq<char> {
    match e {
        ProxyErrorView::InvalidUrl => "Invalid URL"@,
        ProxyErrorView::NotHttps => "Only HTTPS URLs are allowed"@,
        ProxyErrorView::DisallowedHost(h) => "Disallowed host: "@ + h,
        ProxyErrorView::DisallowedPath => "Disallowed target path"@,
        ProxyErrorView::InvalidToken => "Invalid variant proxy id"@,
        ProxyErrorView::NotFound => "Variant proxy target not found or expired"@,
    }
}

impl ProxyError {
    /// The message of the error.
    pub fn message(&self) -> (m: String)
        ensures
            m@ == error_text(self@),
    {
        let mut out: Vec<char> = Vec::new();
        match self {
            ProxyError::InvalidUrl => append_str(&mut out, "Invalid URL"),
            ProxyError::NotHttps => append_str(&mut out, "Only HTTPS URLs are allowed"),
            ProxyError::DisallowedHost(h) => {
                append_str(&mut out, "Disallowed host: ");
                append_str(&mut out, h.as_str());
            },
            ProxyError::DisallowedPath => append_str(&mut out, "Disallowed target path"),
            ProxyError::InvalidToken => append_str(&mut out, "Invalid variant proxy id"),
            ProxyError::NotFound => append_str(
                &mut out,
                "Variant proxy target not found or expired",
            ),
        }
        assert(out@ =~= error_text(self@));
        string_of(&out)
    }
}

// ---------------------------------------------------------------------
// The parts of a URL
// ---------------------------------------------------------------------

/// What the checks read of a parsed URL.
pub struct UrlParts {
    pub scheme: String,
    pub host: Option<String>,
    pub path: String,
    /// The name/value pairs of the query, percent-decoded, in order.
    pub query: Vec<(String, String)>,
    /// The length of the text of the URL, in bytes.
    pub serialized_len: usize,
}

/// The mathematical form of [`UrlParts`].
pub struct UrlPartsView {
    pub scheme: Seq<char>,
    pub host: Option<Seq<char>>,
    pub path: Seq<char>,
    pub query: Seq<(Seq<char>, Seq<char>)>,
    pub serialized_len: nat,
}

impl View for UrlParts {
    type V = UrlPartsView;

    open spec fn view(&self) -> UrlPartsView {
        UrlPartsView {
            scheme: self.scheme@,
            host: match self.host {
                Some(h) => Some(h@),
                None => None,
            },
            path: self.path@,
            query: self.query@.map_values(|p: (String, String)| (p.0@, p.1@)),
            serialized_len: self.serialized_len as nat,
        }
    }
}

/// The parts of the URL that `Url::parse` reads from a text, or nothing
/// where it reads none.
pub uninterp spec fn url_parts(text: Seq<char>) -> Option<UrlPartsView>;

/// The text of the URL read from `text`, its query replaced by `query`
/// (or removed).
pub uninterp spec fn url_with_query(text: Seq<char>, query: Option<Seq<char>>) -> Seq<char>;

/// The greatest offset within the text of a URL: offsets are 32 bits
/// wide.
pub const MAX_URL_OFFSET: u64 = 0xFFFF_FFFF;

/// Whether a URL of `serialized_len` bytes surely keeps within
/// [`MAX_URL_OFFSET`] when it is given a query of `query_len` bytes: the
/// new text is at most as long as the old one, a `?`, and three bytes
/// for each byte of the query, which is the most that writing a byte
/// of a query takes.
pub open spec fn query_fits(serialized_len: nat, query_len: nat) -> bool {
    serialized_len + 1 + 3 * query_len <= MAX_URL_OFFSET
}

/// `Url::parse`, with `scheme`, `host_str`, `path`, `query_pairs` and
/// the length of `as_str` of the URL it gives: the parts are a function
/// of the text alone.
#[verifier::external_body]
fn parse_url(text: &str) -> (r: Option<UrlParts>)
    ensures
        match r {
            Some(p) => url_parts(text@) == Some(p@),
            None => url_parts(text@) is None,
        },
{
    let u = reqwest::Url::parse(text).ok()?;
    Some(
        UrlParts {
            scheme: u.scheme().to_string(),
            host: u.host_str().map(|h| h.to_string()),
            path: u.path().to_string(),
            query: u.query_pairs().map(|(k, v)| (k.into_owned(), v.into_owned())).collect(),
            serialized_len: u.as_str().len(),
        },
    )
}

/// `Url::set_query` on the URL parsed from `text`, then its text: a
/// function of the two arguments.  `set_query` cuts the text before
/// the old query, writes the new one, and then asks that the length fit
/// 32 bits; the bound keeps it so.
#[verifier::external_body]
fn replace_query(text: &str, query: Option<&str>) -> (r: String)
    requires
        query matches Some(q) ==> (url_parts(text@) matches Some(parts) && query_fits(
            parts.serialized_len,
            utf8(q@).len(),
        )),
    ensures
        r@ == url_with_query(
            text@,
            match query {
                Some(q) => Some(q@),
                None => None,
            },
        ),
{
    match reqwest::Url::parse(text) {
        Ok(mut u) => {
            u.set_query(query);
            u.to_string()
        },
        Err(_) => String::new(),
    }
}

// ---------------------------------------------------------------------
// The allow-list
// ---------------------------------------------------------------------

/// A host, in lower case, is allowed when it is one of the four
/// domains or lies under one of them.
pub open spec fn host_allowed(host: Seq<char>) -> bool {
    ||| host == "ttvnw.net"@
    ||| host == "twitch.tv"@
    ||| host == "jtvnw.net"@
    ||| host == "cloudfront.net"@
    ||| ends_with(host, ".ttvnw.net"@)
    ||| ends_with(host, ".twitch.tv"@)
    ||| ends_with(host, ".jtvnw.net"@)
    ||| ends_with(host, ".cloudfront.net"@)
}

/// A path, in lower case, is allowed when it is a live playlist of the
/// channel API, begins with `/vod/` or `/chunked/`, or ends in `.m3u8`.
pub open spec fn path_allowed(path: Seq<char>) -> bool {
    ||| (contains_text(path, "/api/channel/hls/"@) && ends_with(path, ".m3u8"@))
    ||| starts_with(path, "/vod/"@)
    ||| starts_with(path, "/chunked/"@)
    ||| ends_with(path, ".m3u8"@)
}

/// The query parameters that are kept.
pub open spec fn allowed_param(name: Seq<char>) -> bool {
    ||| name == "allow_source"@
    ||| name == "allow_audio_only"@
    ||| name == "fast_bread"@
    ||| name == "playlist_include_framerate"@
    ||| name == "player_backend"@
    ||| name == "player"@
    ||| name == "p"@
    ||| name == "sig"@
    ||| name == "token"@
}

/// The UTF-8 bytes of a text.
pub open spec fn utf8(s: Seq<char>) -> Seq<u8> {
    vstd::utf8::encode_utf8(s)
}

/// One pair as it is written into a query: name and value
/// percent-encoded, `=` between them.
pub open spec fn pair_text(pair: (Seq<char>, Seq<char>)) -> Seq<char> {
    percent_encode(utf8(pair.0)) + seq!['='] + percent_encode(utf8(pair.1))
}

/// The texts of the pairs whose name is allowed, in order.
pub open spec fn kept_pairs(pairs: Seq<(Seq<char>, Seq<char>)>) -> Seq<Seq<char>>
    decreases pairs.len(),
{
    if pairs.len() == 0 {
        Seq::empty()
    } else if allowed_param(pairs.last().0) {
        kept_pairs(pairs.drop_last()).push(pair_text(pairs.last()))
    } else {
        kept_pairs(pairs.drop_last())
    }
}

/// The query that is left of `pairs`: the kept pairs joined by `&`, or
/// no query when none is kept.
pub open spec fn sanitized_query(pairs: Seq<(Seq<char>, Seq<char>)>) -> Option<Seq<char>> {
    let kept = kept_pairs(pairs);
    if kept.len() == 0 {
        None
    } else {
        Some(join(kept, seq!['&']))
    }
}

/// The verdict on the parts of a URL: the error of the first check that
/// fails (scheme, host, path), else the query to give it.
pub open spec fn checked_query(parts: UrlPartsView) -> Result<Option<Seq<char>>, ProxyErrorView> {
    let host = lowercased(
        match parts.host {
            Some(h) => h,
            None => Seq::empty(),
        },
    );
    if parts.scheme != "https"@ {
        Err(ProxyErrorView::NotHttps)
    } else if !host_allowed(host) {
        Err(ProxyErrorView::DisallowedHost(host))
    } else if !path_allowed(lowercased(parts.path)) {
        Err(ProxyErrorView::DisallowedPath)
    } else {
        Ok(sanitized_query(parts.query))
    }
}

/// The verdict on a target: its sanitized text, or why it is refused.
/// A text that is no URL is refused; so is a URL that fails a check of
/// [`checked_query`].  Any other URL is accepted, unless it is so long
/// (some four thousand million bytes) that its text with the sanitized
/// query might not keep within the 32-bit offsets of a URL: such a one
/// counts as no URL.
pub open spec fn validated(url: Seq<char>) -> Result<Seq<char>, ProxyErrorView> {
    match url_parts(url) {
        None => Err(ProxyErrorView::InvalidUrl),
        Some(parts) => match checked_query(parts) {
            Err(e) => Err(e),
            Ok(q) => if q matches Some(text) && !query_fits(
                parts.serialized_len,
                utf8(text).len(),
            ) {
                Err(ProxyErrorView::InvalidUrl)
            } else {
                Ok(url_with_query(url, q))
            },
        },
    }
}

fn host_allowed_exec(host: &Vec<char>) -> (b: bool)
    ensures
        b == host_allowed(host@),
{
    text_is(host, "ttvnw.net") || text_is(host, "twitch.tv") || text_is(host, "jtvnw.net")
        || text_is(host, "cloudfront.net") || ends_with_exec(host, &chars_of(".ttvnw.net"))
        || ends_with_exec(host, &chars_of(".twitch.tv")) || ends_with_exec(
        host,
        &chars_of(".jtvnw.net"),
    ) || ends_with_exec(host, &chars_of(".cloudfront.net"))
}

fn path_allowed_exec(path: &Vec<char>) -> (b: bool)
    ensures
        b == path_allowed(path@),
{
    let playlist = ends_with_exec(path, &chars_of(".m3u8"));
    (contains_in(path, &chars_of("/api/channel/hls/")) && playlist) || matches_at_exec(
        path,
        &chars_of("/vod/"),
        0,
    ) || matches_at_exec(path, &chars_of("/chunked/"), 0) || playlist
}

fn allowed_param_exec(name: &Vec<char>) -> (b: bool)
    ensures
        b == allowed_param(name@),
{
    text_is(name, "allow_source") || text_is(name, "allow_audio_only") || text_is(
        name,
        "fast_bread",
    ) || text_is(name, "playlist_include_framerate") || text_is(name, "player_backend")
        || text_is(name, "player") || text_is(name, "p") || text_is(name, "sig") || text_is(
        name,
        "token",
    )
}

/// Builds the query that is left of `pairs`.
fn sanitized_query_exec(pairs: &Vec<(String, String)>) -> (r: Option<String>)
    ensures
        match r {
            Some(q) => sanitized_query(pairs@.map_values(|p: (String, String)| (p.0@, p.1@)))
                == Some(q@),
            None => sanitized_query(pairs@.map_values(|p: (String, String)| (p.0@, p.1@)))
                is None,
        },
{
    let ghost all = pairs@.map_values(|p: (String, String)| (p.0@, p.1@));
    let mut out: Vec<char> = Vec::new();
    let mut kept: usize = 0;
    let mut i: usize = 0;
    assert(all.take(0) =~= Seq::<(Seq<char>, Seq<char>)>::empty());
    while i < pairs.len()
        invariant
            i <= pairs.len(),
            all == pairs@.map_values(|p: (String, String)| (p.0@, p.1@)),
            kept == kept_pairs(all.take(i as int)).len(),
            kept <= i,
            out@ == join(kept_pairs(all.take(i as int)), seq!['&']),
        decreases pairs.len() - i,
    {
        let name = chars_of(pairs[i].0.as_str());
        proof {
            assert(all.take(i + 1).drop_last() =~= all.take(i as int));
            assert(all.take(i + 1).last() == (pairs@[i as int].0@, pairs@[i as int].1@));
        }
        if allowed_param_exec(&name) {
            let ghost before = out@;
            let ghost texts = kept_pairs(all.take(i as int));
            if kept > 0 {
                out.push('&');
            }
            push_percent_encoded(&mut out, pairs[i].0.as_str());
            out.push('=');
            push_percent_encoded(&mut out, pairs[i].1.as_str());
            proof {
                let piece = pair_text(all[i as int]);
                let grown = texts.push(piece);
                assert(grown.drop_last() =~= texts);
                assert(grown.last() == piece);
                assert(kept_pairs(all.take(i + 1)) == grown);
                if kept > 0 {
                    assert(out@ =~= before + seq!['&'] + piece);
                } else {
                    assert(texts =~= Seq::<Seq<char>>::empty());
                    assert(before =~= Seq::<char>::empty());
                    assert(out@ =~= piece);
                }
            }
            kept += 1;
        }
        i += 1;
    }
    assert(all.take(pairs.len() as int) =~= all);
    if kept == 0 {
        None
    } else {
        Some(string_of(&out))
    }
}

/// Checks the parts of a URL against the allow-list, in the order
/// scheme, host, path, and gives the query that the sanitized URL gets.
pub fn sanitize_target(parts: &UrlParts) -> (r: Result<Option<String>, ProxyError>)
    ensures
        match r {
            Ok(Some(q)) => checked_query(parts@) == Ok::<Option<Seq<char>>, ProxyErrorView>(
                Some(q@),
            ),
            Ok(None) => checked_query(parts@) == Ok::<Option<Seq<char>>, ProxyErrorView>(None),
            Err(e) => checked_query(parts@) == Err::<Option<Seq<char>>, ProxyErrorView>(e@),
        },
{
    let scheme = chars_of(parts.scheme.as_str());
    if !text_is(&scheme, "https") {
        return Err(ProxyError::NotHttps);
    }
    let host = match &parts.host {
        Some(h) => to_lowercase(h.as_str()),
        None => to_lowercase(""),
    };
    proof {
        if parts.host is None {
            reveal_strlit("");
            assert(""@ =~= Seq::<char>::empty());
        }
    }
    let host_chars = chars_of(host.as_str());
    if !host_allowed_exec(&host_chars) {
        return Err(ProxyError::DisallowedHost(host));
    }
    let path = to_lowercase(parts.path.as_str());
    let path_chars = chars_of(path.as_str());
    if !path_allowed_exec(&path_chars) {
        return Err(ProxyError::DisallowedPath);
    }
    Ok(sanitized_query_exec(&parts.query))
}

/// Checks a target URL and gives its sanitized text: `https` only, an
/// allowed host, an allowed path, and of the query only the allowed
/// parameters, percent-encoded anew.
pub fn validate_variant_target_url(url: &str) -> (r: Result<String, ProxyError>)
    ensures
        match r {
            Ok(s) => validated(url@) == Ok::<Seq<char>, ProxyErrorView>(s@),
            Err(e) => validated(url@) == Err::<Seq<char>, ProxyErrorView>(e@),
        },
{
    let parts = match parse_url(url) {
        Some(p) => p,
        None => {
            return Err(ProxyError::InvalidUrl);
        },
    };
    match sanitize_target(&parts) {
        Err(e) => Err(e),
        Ok(None) => Ok(replace_query(url, None)),
        Ok(Some(q)) => {
            let needed: u128 = (parts.serialized_len as u128) + 1 + 3 * (
            q.as_str().as_bytes().len() as u128);
            if needed > MAX_URL_OFFSET as u128 {
                return Err(ProxyError::InvalidUrl);
            }
            Ok(replace_query(url, Some(q.as_str())))
        },
    }
}

// ---------------------------------------------------------------------
// Tokens
// ---------------------------------------------------------------------

/// A lower-case hexadecimal digit.
pub open spec fn is_hex_lower(c: char) -> bool {
    ('0' <= c <= '9') || ('a' <= c <= 'f')
}

/// What the position `i` of a token may hold: hyphens after the groups
/// of 8, 4, 4 and 4 digits, a version digit from 1 to 5, a variant
/// digit from `8` to `b`, hexadecimal digits elsewhere.
pub open spec fn token_char_ok(i: int, c: char) -> bool {
    if i == 8 || i == 13 || i == 18 || i == 23 {
        c == '-'
    } else if i == 14 {
        '1' <= c <= '5'
    } else if i == 19 {
        c == '8' || c == '9' || c == 'a' || c == 'b'
    } else {
        is_hex_lower(c)
    }
}

/// The form of a proxy token: a UUID in lower-case hyphenated text.
pub open spec fn is_proxy_token(s: Seq<char>) -> bool {
    s.len() == 36 && forall|i: int| 0 <= i < 36 ==> token_char_ok(i, #[trigger] s[i])
}

/// Has `s` the form of a proxy token?
pub fn is_proxy_token_exec(s: &Vec<char>) -> (b: bool)
    ensures
        b == is_proxy_token(s@),
{
    if s.len() != 36 {
        return false;
    }
    let mut i: usize = 0;
    while i < 36
        invariant
            i <= 36,
            s.len() == 36,
            forall|j: int| 0 <= j < i ==> token_char_ok(j, #[trigger] s@[j]),
        decreases 36 - i,
    {
        let c: char = s[i];
        let ok = if i == 8 || i == 13 || i == 18 || i == 23 {
            c == '-'
        } else if i == 14 {
            '1' <= c && c <= '5'
        } else if i == 19 {
            c == '8' || c == '9' || c == 'a' || c == 'b'
        } else {
            ('0' <= c && c <= '9') || ('a' <= c && c <= 'f')
        };
        if !ok {
            return false;
        }
        i += 1;
    }
    true
}

/// `Uuid::new_v4` as text: a random version-4 UUID, which `to_string`
/// writes in lower-case hexadecimal with hyphens, so that it has the
/// form of a proxy token.
#[verifier::external_body]
pub(crate) fn fresh_token() -> (t: String)
    ensures
        is_proxy_token(t@),
{
    uuid::Uuid::new_v4().to_string()
}

// ---------------------------------------------------------------------
// Storing and resolving
// ---------------------------------------------------------------------

/// How long a target stays registered, in seconds.
pub const TARGET_TTL_SECS: u64 = 300;

/// The cache key of a token.
pub open spec fn proxy_key(token: Seq<char>) -> Seq<char> {
    "variant_proxy_"@ + token
}

fn proxy_key_exec(token: &Vec<char>) -> (k: String)
    ensures
        k@ == proxy_key(token@),
{
    let mut out: Vec<char> = Vec::new();
    append_str(&mut out, "variant_proxy_");
    append(&mut out, token);
    assert(out@ =~= proxy_key(token@));
    string_of(&out)
}

/// The outcome of resolving `token` at the instant `now`: the token is
/// trimmed and must have the form of a proxy token; the target stored
/// under it is given while it has not expired.
pub open spec fn resolved(
    targets: Map<Seq<char>, CacheSlot<String>>,
    token: Seq<char>,
    now: u128,
) -> Result<Seq<char>, ProxyErrorView> {
    let t = trim_ws(token);
    if !is_proxy_token(t) {
        Err(ProxyErrorView::InvalidToken)
    } else {
        match live_value(targets, proxy_key(t), now) {
            Some(url) => Ok(url@),
            None => Err(ProxyErrorView::NotFound),
        }
    }
}

/// Stores the sanitized URL `sanitized` under `token` at the instant
/// `now`, for [`TARGET_TTL_SECS`] seconds.
pub fn store_variant_proxy_target(
    targets: &mut TimedCache<String>,
    token: &str,
    sanitized: String,
    now: u128,
)
    requires
        old(targets).wf(),
    ensures
        final(targets).wf(),
        final(targets)@ == old(targets)@.insert(
            proxy_key(token@),
            CacheSlot { value: sanitized, expires: expiry(now, TARGET_TTL_SECS) },
        ),
{
    let key = proxy_key_exec(&chars_of(token));
    targets.set_at(key.as_str(), sanitized, TARGET_TTL_SECS, now);
}

/// Registers a target: the URL is validated and its sanitized form
/// stored under a fresh token, which is returned.  A refused URL leaves
/// the registry as it was.
pub fn register_variant_proxy_target(targets: &mut TimedCache<String>, target_url: &str) -> (r:
    Result<String, ProxyError>)
    requires
        old(targets).wf(),
    ensures
        final(targets).wf(),
        match r {
            Ok(token) => {
                &&& is_proxy_token(token@)
                &&& validated(target_url@) is Ok
                &&& final(targets)@ == old(targets)@.insert(
                    proxy_key(token@),
                    final(targets)@[proxy_key(token@)],
                )
                &&& final(targets)@[proxy_key(token@)].value@ == validated(target_url@)->Ok_0
                &&& exists|now: u128|
                    final(targets)@[proxy_key(token@)].expires == #[trigger] expiry(
                        now,
                        TARGET_TTL_SECS,
                    )
            },
            Err(e) => validated(target_url@) == Err::<Seq<char>, ProxyErrorView>(e@)
                && final(targets)@ == old(targets)@,
        },
{
    let sanitized = match validate_variant_target_url(target_url) {
        Ok(s) => s,
        Err(e) => {
            return Err(e);
        },
    };
    let token = fresh_token();
    let now = targets.now();
    store_variant_proxy_target(targets, token.as_str(), sanitized, now);
    Ok(token)
}

/// `given` is the outcome `outcome` as it is handed out.
pub open spec fn resolved_as(
    outcome: Result<Seq<char>, ProxyErrorView>,
    given: Result<String, ProxyError>,
) -> bool {
    match given {
        Ok(url) => outcome == Ok::<Seq<char>, ProxyErrorView>(url@),
        Err(e) => outcome == Err::<Seq<char>, ProxyErrorView>(e@),
    }
}

/// Resolves a token at the instant `now`.
pub fn resolve_variant_proxy_target_at(targets: &TimedCache<String>, proxy_id: &str, now: u128) -> (r:
    Result<String, ProxyError>)
    requires
        targets.wf(),
    ensures
        resolved_as(resolved(targets@, proxy_id@, now), r),
{
    let normalized = trim_ws_exec(&chars_of(proxy_id));
    if !is_proxy_token_exec(&normalized) {
        return Err(ProxyError::InvalidToken);
    }
    let key = proxy_key_exec(&normalized);
    match targets.get_at(key.as_str(), now) {
        Some(url) => Ok(url),
        None => Err(ProxyError::NotFound),
    }
}

/// Resolves a token now: what `resolve_variant_proxy_target_at` gives
/// at some instant.
pub fn resolve_variant_proxy_target(targets: &TimedCache<String>, proxy_id: &str) -> (r: Result<
    String,
    ProxyError,
>)
    requires
        targets.wf(),
    ensures
        exists|now: u128| resolved_as(#[trigger] resolved(targets@, proxy_id@, now), r),
{
    let now = targets.now();
    let r = resolve_variant_proxy_target_at(targets, proxy_id, now);
    assert(resolved_as(resolved(targets@, proxy_id@, now), r));
    r
}

/// The path under which the relay serves the target of `token`.
pub open spec fn proxy_path(token: Seq<char>) -> Seq<char> {
    "/api/stream/variant.m3u8?id="@ + percent_encode(utf8(token))
}

/// Builds the path under which the relay serves the target of `token`.
pub fn proxy_path_for(token: &str) -> (p: String)
    ensures
        p@ == proxy_path(token@),
{
    let mut out: Vec<char> = Vec::new();
    append_str(&mut out, "/api/stream/variant.m3u8?id=");
    push_percent_encoded(&mut out, token);
    assert(out@ =~= proxy_path(token@));
    string_of(&out)
}

// ---------------------------------------------------------------------
// Laws
// ---------------------------------------------------------------------

/// A token has no white space at either end.
pub proof fn lemma_token_is_trimmed(token: Seq<char>)
    requires
        is_proxy_token(token),
    ensures
        trim_ws(token) == token,
{
    assert(token_char_ok(35, token[35]));
    assert(token_char_ok(0, token[0]));
    assert(!is_white_space(token.last()));
    assert(!is_white_space(token[0]));
}

/// The parts of a URL lie on the allow-list: the scheme is `https`,
/// the host is allowed and the path is allowed.
pub open spec fn parts_allowed(parts: UrlPartsView) -> bool {
    &&& parts.scheme == "https"@
    &&& host_allowed(
        lowercased(
            match parts.host {
                Some(h) => h,
                None => Seq::empty(),
            },
        ),
    )
    &&& path_allowed(lowercased(parts.path))
}

/// A text is accepted exactly when it is a URL whose parts lie on the
/// allow-list and whose text with the sanitized query keeps within the
/// offsets of a URL, which it does where there is no query to write or
/// where URL and query have no more than 2^28 bytes each; what is
/// accepted is given as the text of the URL with the sanitized query.
pub proof fn lemma_accepted_exactly_when_allowed(url: Seq<char>)
    ensures
        url_parts(url) is None ==> validated(url) is Err,
        url_parts(url) is Some ==> ({
            let parts = url_parts(url)->Some_0;
            let query = sanitized_query(parts.query);
            let fits = query is Some ==> query_fits(parts.serialized_len, utf8(query->Some_0).len());
            &&& validated(url) is Ok <==> parts_allowed(parts) && fits
            &&& validated(url) is Ok ==> validated(url) == Ok::<Seq<char>, ProxyErrorView>(
                url_with_query(url, query),
            )
            &&& query is None ==> fits
            &&& parts.serialized_len <= 0x1000_0000 && utf8(query->Some_0).len() <= 0x1000_0000
                ==> fits
        }),
{
}

/// Of the pairs of a query only those with an allowed name are kept:
/// a query without such a pair is dropped altogether.
pub proof fn lemma_query_without_allowed_names(pairs: Seq<(Seq<char>, Seq<char>)>)
    requires
        forall|i: int| 0 <= i < pairs.len() ==> !allowed_param((#[trigger] pairs[i]).0),
    ensures
        sanitized_query(pairs) is None,
    decreases pairs.len(),
{
    if pairs.len() > 0 {
        assert(!allowed_param(pairs[pairs.len() - 1].0));
        assert forall|i: int| 0 <= i < pairs.drop_last().len() implies !allowed_param(
            (#[trigger] pairs.drop_last()[i]).0,
        ) by {
            assert(pairs.drop_last()[i] == pairs[i]);
        }
        lemma_query_without_allowed_names(pairs.drop_last());
    }
}

/// Different tokens have different keys.
pub proof fn lemma_proxy_key_is_injective(a: Seq<char>, b: Seq<char>)
    requires
        proxy_key(a) == proxy_key(b),
    ensures
        a == b,
{
    let p = "variant_proxy_"@;
    assert(a =~= proxy_key(a).subrange(p.len() as int, proxy_key(a).len() as int));
    assert(b =~= proxy_key(b).subrange(p.len() as int, proxy_key(b).len() as int));
}

/// The proxy path of a token ends in the token as it is.
pub proof fn lemma_token_path(token: Seq<char>)
    requires
        is_proxy_token(token),
    ensures
        proxy_path(token) == "/api/stream/variant.m3u8?id="@ + token,
{
    assert forall|i: int| 0 <= i < token.len() implies is_plain_char(#[trigger] token[i]) by {
        assert(token_char_ok(i, token[i]));
    }
    lemma_plain_text_is_kept(token);
}

/// Resolving the token of a target gives the sanitized URL of the
/// target from the instant of its registration until its time to live
/// has run, and nothing from then on.
pub proof fn lemma_resolve_after_register(
    targets: Map<Seq<char>, CacheSlot<String>>,
    sanitized: String,
    token: Seq<char>,
    now: u128,
    later: u128,
)
    requires
        is_proxy_token(token),
    ensures
        ({
            let after = targets.insert(
                proxy_key(token),
                CacheSlot { value: sanitized, expires: expiry(now, TARGET_TTL_SECS) },
            );
            &&& later < expiry(now, TARGET_TTL_SECS) ==> resolved(after, token, later) == Ok::<
                Seq<char>,
                ProxyErrorView,
            >(sanitized@)
            &&& later >= expiry(now, TARGET_TTL_SECS) ==> resolved(after, token, later) == Err::<
                Seq<char>,
                ProxyErrorView,
            >(ProxyErrorView::NotFound)
        }),
{
    lemma_token_is_trimmed(token);
}

/// A text that has not the form of a token resolves to nothing,
/// whatever is registered.
pub proof fn lemma_malformed_token_is_refused(
    targets: Map<Seq<char>, CacheSlot<String>>,
    token: Seq<char>,
    now: u128,
)
    requires
        !is_proxy_token(trim_ws(token)),
    ensures
        resolved(targets, token, now) == Err::<Seq<char>, ProxyErrorView>(
            ProxyErrorView::InvalidToken,
        ),
{
}

} // verus!
