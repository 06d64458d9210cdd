//! The texts that are sent to the platform's GraphQL endpoint, and the
//! keys under which its answers are cached.

use crate::encoding::{
    create_simple_hash, decimal, lowercased, push_decimal, push_signed_decimal, signed_decimal,
    simple_hash, to_lowercase,
};
use crate::text::{
    append, append_str, chars_of, join, slice_of, string_of, texts, trim_ws, trim_ws_exec,
};
use vstd::prelude::*;

verus! {

broadcast use vstd::string::group_string_axioms;

// ---------------------------------------------------------------------
// JSON text
// ---------------------------------------------------------------------

/// The lower-case hexadecimal digit of `n`.
pub open spec fn hex_lower(n: int) -> char {
    if n < 10 {
        ((48 + n) as u8) as char
    } else {
        ((87 + n) as u8) as char
    }
}

/// One character as it stands in a JSON string: the double quote and
/// the backslash get a backslash in front; backspace, tab, line feed,
/// form feed and carriage return become `\b`, `\t`, `\n`, `\f` and
/// `\r`; any other character below the space becomes `\u00` and its
/// two hexadecimal digits; every other character stands as it is.
pub open spec fn json_char(c: char) -> Seq<char> {
    if c == '"' {
        seq!['\\', '"']
    } else if c == '\\' {
        seq!['\\', '\\']
    } else if c == '\u{8}' {
        seq!['\\', 'b']
    } else if c == '\t' {
        seq!['\\', 't']
    } else if c == '\n' {
        seq!['\\', 'n']
    } else if c == '\u{c}' {
        seq!['\\', 'f']
    } else if c == '\r' {
        seq!['\\', 'r']
    } else if (c as u32) < 0x20 {
        seq!['\\', 'u', '0', '0', hex_lower((c as u32 / 16) as int), hex_lower((c as u32 % 16) as int)]
    } else {
        seq![c]
    }
}

/// The characters of a text as they stand in a JSON string.
pub open spec fn json_escaped(s: Seq<char>) -> Seq<char>
    decreases s.len(),
{
    if s.len() == 0 {
        Seq::empty()
    } else {
        json_escaped(s.drop_last()) + json_char(s.last())
    }
}

/// A text as a JSON string: its characters, escaped, between double
/// quotes.
pub open spec fn json_string(s: Seq<char>) -> Seq<char> {
    seq!['"'] + json_escaped(s) + seq!['"']
}

/// A list of texts as a JSON array: the texts as JSON strings, with
/// commas between them, in square brackets.
pub open spec fn json_list(list: Seq<Seq<char>>) -> Seq<char> {
    seq!['['] + join(list.map_values(|t: Seq<char>| json_string(t)), seq![',']) + seq![']']
}

/// Whether `serde_json::to_string` gives an error for a text.
pub uninterp spec fn json_text_fails(s: Seq<char>) -> bool;

/// Whether `serde_json::to_string` gives an error for a list of texts.
pub uninterp spec fn json_list_fails(list: Seq<Seq<char>>) -> bool;

/// `serde_json::to_string` on a text.  Where it gives a text, that is
/// the JSON string of the argument: the opening quote, each run of
/// characters that need no escape as it is, each other character by
/// the table of escapes, the closing quote.  Whether it gives one is a
/// function of the argument alone.
#[verifier::external_body]
fn json_of_text(s: &str) -> (r: Option<String>)
    ensures
        match r {
            Some(t) => !json_text_fails(s@) && t@ == json_string(s@),
            None => json_text_fails(s@),
        },
{
    serde_json::to_string(s).ok()
}

/// `serde_json::to_string` on a list of texts.  Where it gives a text,
/// that is the JSON array of the JSON strings of the elements.  Whether
/// it gives one is a function of the argument alone.
#[verifier::external_body]
fn json_of_list(list: &Vec<String>) -> (r: Option<String>)
    ensures
        match r {
            Some(t) => !json_list_fails(texts(list@)) && t@ == json_list(texts(list@)),
            None => json_list_fails(texts(list@)),
        },
{
    serde_json::to_string(list).ok()
}

/// A text as it stands inside a quoted GraphQL string: its characters
/// escaped as in a JSON string; the text itself where it cannot be
/// written as JSON.
pub open spec fn escaped(s: Seq<char>) -> Seq<char> {
    if json_text_fails(s) {
        s
    } else {
        json_escaped(s)
    }
}

/// Escapes a text for use inside a quoted GraphQL string.
pub fn gql_escape(value: &str) -> (r: String)
    ensures
        r@ == escaped(value@),
{
    match json_of_text(value) {
        Some(t) => {
            let v = chars_of(t.as_str());
            let inner = slice_of(&v, 1, v.len() - 1);
            assert(inner@ =~= json_escaped(value@));
            string_of(&inner)
        },
        None => value.to_owned(),
    }
}

/// A character that stands in a JSON string as it is.
pub open spec fn is_json_plain(c: char) -> bool {
    (c as u32) >= 0x20 && c != '"' && c != '\\'
}

/// A text without quotes, backslashes and control characters is
/// escaped to itself.
pub proof fn lemma_plain_text_needs_no_escape(s: Seq<char>)
    requires
        forall|i: int| 0 <= i < s.len() ==> is_json_plain(#[trigger] s[i]),
    ensures
        json_escaped(s) == s,
        escaped(s) == s,
    decreases s.len(),
{
    if s.len() > 0 {
        assert forall|i: int| 0 <= i < s.drop_last().len() implies is_json_plain(
            #[trigger] s.drop_last()[i],
        ) by {
            assert(s.drop_last()[i] == s[i]);
        }
        lemma_plain_text_needs_no_escape(s.drop_last());
        assert(is_json_plain(s[s.len() - 1]));
        assert(json_char(s.last()) =~= seq![s.last()]);
        assert(json_escaped(s) =~= s.drop_last().push(s.last()));
        assert(s.drop_last().push(s.last()) =~= s);
    } else {
        assert(json_escaped(s) =~= s);
    }
}

/// The JSON string of a text, or the empty text where it cannot be
/// written as JSON.
pub open spec fn json_or_empty(s: Seq<char>) -> Seq<char> {
    if json_text_fails(s) {
        Seq::empty()
    } else {
        json_string(s)
    }
}

/// The clause that continues a listing behind the cursor `after`:
/// nothing where the cursor, trimmed, is empty or absent.
pub open spec fn after_clause_text(after: Option<Seq<char>>) -> Seq<char> {
    let cursor = match after {
        Some(a) => trim_ws(a),
        None => Seq::empty(),
    };
    if cursor.len() == 0 {
        Seq::empty()
    } else {
        ", after: "@ + json_or_empty(cursor)
    }
}

fn trimmed_or_empty(text: Option<&str>) -> (r: Vec<char>)
    ensures
        r@ == (match text {
            Some(a) => trim_ws(a@),
            None => Seq::empty(),
        }),
{
    match text {
        Some(a) => trim_ws_exec(&chars_of(a)),
        None => Vec::new(),
    }
}

/// Builds the clause that continues a listing behind a cursor.
pub fn after_clause(after: Option<&str>) -> (r: String)
    ensures
        r@ == after_clause_text(
            match after {
                Some(a) => Some(a@),
                None => None,
            },
        ),
{
    let cursor = trimmed_or_empty(after);
    let mut out: Vec<char> = Vec::new();
    if cursor.len() > 0 {
        append_str(&mut out, ", after: ");
        match json_of_text(string_of(&cursor).as_str()) {
            Some(t) => append_str(&mut out, t.as_str()),
            None => {},
        }
        assert(out@ =~= ", after: "@ + json_or_empty(cursor@));
    }
    string_of(&out)
}

/// The clause that restricts a listing to languages: nothing where no
/// languages are given.
pub open spec fn languages_clause_text(languages: Option<Seq<Seq<char>>>) -> Seq<char> {
    match languages {
        Some(l) => ", languages: "@ + (if json_list_fails(l) {
            Seq::empty()
        } else {
            json_list(l)
        }),
        None => Seq::empty(),
    }
}

/// Builds the clause that restricts a listing to languages.
pub fn languages_clause(languages: Option<&Vec<String>>) -> (r: String)
    ensures
        r@ == languages_clause_text(
            match languages {
                Some(l) => Some(texts(l@)),
                None => None,
            },
        ),
{
    let mut out: Vec<char> = Vec::new();
    match languages {
        Some(l) => {
            append_str(&mut out, ", languages: ");
            match json_of_list(l) {
                Some(t) => append_str(&mut out, t.as_str()),
                None => {},
            }
            assert(out@ =~= languages_clause_text(Some(texts(l@))));
        },
        None => {},
    }
    string_of(&out)
}

// ---------------------------------------------------------------------
// Page sizes
// ---------------------------------------------------------------------

/// `n` brought into the range from `low` to `high`.
pub open spec fn clamped(n: usize, low: usize, high: usize) -> usize {
    if n < low {
        low
    } else if n > high {
        high
    } else {
        n
    }
}

/// The size of a page of videos: between 4 and 50.
pub fn vod_page_size(first: usize) -> (n: usize)
    ensures
        n == clamped(first, 4, 50),
{
    if first < 4 {
        4
    } else if first > 50 {
        50
    } else {
        first
    }
}

/// The size of a page of the live streams of a category or of a
/// search: between 4 and 48.
pub fn live_category_page_size(first: usize) -> (n: usize)
    ensures
        n == clamped(first, 4, 48),
{
    if first < 4 {
        4
    } else if first > 48 {
        48
    } else {
        first
    }
}

/// The size of a page of live streams: between 8 and 48.
pub fn live_page_size(first: usize) -> (n: usize)
    ensures
        n == clamped(first, 8, 48),
{
    if first < 8 {
        8
    } else if first > 48 {
        48
    } else {
        first
    }
}

// ---------------------------------------------------------------------
// Queries
// ---------------------------------------------------------------------

/// The query for the videos of a game: the first `first`, restricted by `clause`.
pub open spec fn game_vods_query_text(game_name: Seq<char>, first: nat, clause: Seq<char>) -> Seq<char> {
    "{\"query\":\"query { game(name: \\\""@ + escaped(game_name) + "\\\") { videos(first: "@ + decimal(first) + clause + ") { edges { node { id, title, lengthSeconds, previewThumbnailURL(width: 320, height: 180), createdAt, viewCount, language, game { name }, owner { login, displayName, profileImageURL(width: 50) } } } } } }\"}"@
}

/// The query for the videos of a game: the first `first`, restricted by `clause`.
pub fn game_vods_query(game_name: &str, first: u64, clause: &str) -> (q: String)
    ensures
        q@ == game_vods_query_text(game_name@, first as nat, clause@),
{
    let mut out: Vec<char> = Vec::new();
    append_str(&mut out, "{\"query\":\"query { game(name: \\\"");
    append_str(&mut out, gql_escape(game_name).as_str());
    append_str(&mut out, "\\\") { videos(first: ");
    push_decimal(&mut out, first);
    append_str(&mut out, clause);
    append_str(&mut out, ") { edges { node { id, title, lengthSeconds, previewThumbnailURL(width: 320, height: 180), createdAt, viewCount, language, game { name }, owner { login, displayName, profileImageURL(width: 50) } } } } } }\"}");
    assert(out@ =~= game_vods_query_text(game_name@, first as nat, clause@));
    string_of(&out)
}

/// The query for one page of the videos of a category.
pub open spec fn category_vods_query_text(game_name: Seq<char>, first: nat, clause: Seq<char>) -> Seq<char> {
    "{\"query\":\"query { game(name: \\\""@ + escaped(game_name) + "\\\") { videos(first: "@ + decimal(first) + clause + ") { edges { cursor node { id, title, lengthSeconds, previewThumbnailURL(width: 320, height: 180), createdAt, viewCount, language, game { name }, owner { login, displayName, profileImageURL(width: 50) } } } pageInfo { hasNextPage } } } }\"}"@
}

/// The query for one page of the videos of a category.
pub fn category_vods_query(game_name: &str, first: u64, clause: &str) -> (q: String)
    ensures
        q@ == category_vods_query_text(game_name@, first as nat, clause@),
{
    let mut out: Vec<char> = Vec::new();
    append_str(&mut out, "{\"query\":\"query { game(name: \\\"");
    append_str(&mut out, gql_escape(game_name).as_str());
    append_str(&mut out, "\\\") { videos(first: ");
    push_decimal(&mut out, first);
    append_str(&mut out, clause);
    append_str(&mut out, ") { edges { cursor node { id, title, lengthSeconds, previewThumbnailURL(width: 320, height: 180), createdAt, viewCount, language, game { name }, owner { login, displayName, profileImageURL(width: 50) } } } pageInfo { hasNextPage } } } }\"}");
    assert(out@ =~= category_vods_query_text(game_name@, first as nat, clause@));
    string_of(&out)
}

/// One aliased video of a batch query: the alias `v` and the position, then the video by its id.
pub open spec fn video_alias_text(index: nat, id: Seq<char>) -> Seq<char> {
    "v"@ + decimal(index) + ": video(id: \\\""@ + id + "\\\") { id, title, lengthSeconds, previewThumbnailURL(width: 320, height: 180), createdAt, viewCount, language, game { name }, owner { login, displayName, profileImageURL(width: 50) } }"@
}

/// One aliased video of a batch query: the alias `v` and the position, then the video by its id.
pub fn video_alias(index: u64, id: &str) -> (q: String)
    ensures
        q@ == video_alias_text(index as nat, id@),
{
    let mut out: Vec<char> = Vec::new();
    append_str(&mut out, "v");
    push_decimal(&mut out, index);
    append_str(&mut out, ": video(id: \\\"");
    append_str(&mut out, id);
    append_str(&mut out, "\\\") { id, title, lengthSeconds, previewThumbnailURL(width: 320, height: 180), createdAt, viewCount, language, game { name }, owner { login, displayName, profileImageURL(width: 50) } }");
    assert(out@ =~= video_alias_text(index as nat, id@));
    string_of(&out)
}

/// A batch query around its aliased parts.
pub open spec fn batch_query_text(body: Seq<char>) -> Seq<char> {
    "{\"query\":\"query { "@ + body + " }\"}"@
}

/// A batch query around its aliased parts.
pub fn batch_query(body: &str) -> (q: String)
    ensures
        q@ == batch_query_text(body@),
{
    let mut out: Vec<char> = Vec::new();
    append_str(&mut out, "{\"query\":\"query { ");
    append_str(&mut out, body);
    append_str(&mut out, " }\"}");
    assert(out@ =~= batch_query_text(body@));
    string_of(&out)
}

/// The query for one page of the live streams of a category.
pub open spec fn live_category_query_text(category_name: Seq<char>, first: nat, clause: Seq<char>) -> Seq<char> {
    "{\"query\":\"query { game(name: \\\""@ + escaped(category_name) + "\\\") { streams(first: "@ + decimal(first) + clause + ") { edges { cursor node { id title viewersCount previewImageURL(width: 640, height: 360) createdAt language broadcaster { id login displayName profileImageURL(width: 70) } } } pageInfo { hasNextPage } } } }\"}"@
}

/// The query for one page of the live streams of a category.
pub fn live_category_query(category_name: &str, first: u64, clause: &str) -> (q: String)
    ensures
        q@ == live_category_query_text(category_name@, first as nat, clause@),
{
    let mut out: Vec<char> = Vec::new();
    append_str(&mut out, "{\"query\":\"query { game(name: \\\"");
    append_str(&mut out, gql_escape(category_name).as_str());
    append_str(&mut out, "\\\") { streams(first: ");
    push_decimal(&mut out, first);
    append_str(&mut out, clause);
    append_str(&mut out, ") { edges { cursor node { id title viewersCount previewImageURL(width: 640, height: 360) createdAt language broadcaster { id login displayName profileImageURL(width: 70) } } } pageInfo { hasNextPage } } } }\"}");
    assert(out@ =~= live_category_query_text(category_name@, first as nat, clause@));
    string_of(&out)
}

/// The query for the live streams of the category named like the search text.
pub open spec fn live_search_category_query_text(query: Seq<char>, first: nat) -> Seq<char> {
    "{\"query\":\"query { game(name: \\\""@ + escaped(query) + "\\\") { streams(first: "@ + decimal(first) + ") { edges { cursor node { id title viewersCount previewImageURL(width: 640, height: 360) createdAt language broadcaster { id login displayName profileImageURL(width: 70) } } } pageInfo { hasNextPage } } } }\"}"@
}

/// The query for the live streams of the category named like the search text.
pub fn live_search_category_query(query: &str, first: u64) -> (q: String)
    ensures
        q@ == live_search_category_query_text(query@, first as nat),
{
    let mut out: Vec<char> = Vec::new();
    append_str(&mut out, "{\"query\":\"query { game(name: \\\"");
    append_str(&mut out, gql_escape(query).as_str());
    append_str(&mut out, "\\\") { streams(first: ");
    push_decimal(&mut out, first);
    append_str(&mut out, ") { edges { cursor node { id title viewersCount previewImageURL(width: 640, height: 360) createdAt language broadcaster { id login displayName profileImageURL(width: 70) } } } pageInfo { hasNextPage } } } }\"}");
    assert(out@ =~= live_search_category_query_text(query@, first as nat));
    string_of(&out)
}

/// The query for the channels that match the search text, with their live streams.
pub open spec fn live_search_channel_query_text(query: Seq<char>, first: nat) -> Seq<char> {
    "{\"query\":\"query { searchFor(userQuery: \\\""@ + escaped(query) + "\\\", target: { index: \\\"CHANNEL\\\" }, first: "@ + decimal(first) + ") { results { item { ... on User { id login displayName profileImageURL(width: 70) stream { id title viewersCount previewImageURL(width: 640, height: 360) createdAt language game { id name } } } } } } }\"}"@
}

/// The query for the channels that match the search text, with their live streams.
pub fn live_search_channel_query(query: &str, first: u64) -> (q: String)
    ensures
        q@ == live_search_channel_query_text(query@, first as nat),
{
    let mut out: Vec<char> = Vec::new();
    append_str(&mut out, "{\"query\":\"query { searchFor(userQuery: \\\"");
    append_str(&mut out, gql_escape(query).as_str());
    append_str(&mut out, "\\\", target: { index: \\\"CHANNEL\\\" }, first: ");
    push_decimal(&mut out, first);
    append_str(&mut out, ") { results { item { ... on User { id login displayName profileImageURL(width: 70) stream { id title viewersCount previewImageURL(width: 640, height: 360) createdAt language game { id name } } } } } } }\"}");
    assert(out@ =~= live_search_channel_query_text(query@, first as nat));
    string_of(&out)
}

/// The query for a channel by its login.
pub open spec fn user_info_query_text(username: Seq<char>) -> Seq<char> {
    "{\"query\":\"query { user(login: \\\""@ + escaped(username) + "\\\") { id, login, displayName, profileImageURL(width: 300) } }\"}"@
}

/// The query for a channel by its login.
pub fn user_info_query(username: &str) -> (q: String)
    ensures
        q@ == user_info_query_text(username@),
{
    let mut out: Vec<char> = Vec::new();
    append_str(&mut out, "{\"query\":\"query { user(login: \\\"");
    append_str(&mut out, gql_escape(username).as_str());
    append_str(&mut out, "\\\") { id, login, displayName, profileImageURL(width: 300) } }\"}");
    assert(out@ =~= user_info_query_text(username@));
    string_of(&out)
}

/// The query for the thirty latest videos of a channel.
pub open spec fn user_vods_query_text(username: Seq<char>) -> Seq<char> {
    "{\"query\":\"query { user(login: \\\""@ + escaped(username) + "\\\") { videos(first: 30) { edges { node { id, title, lengthSeconds, previewThumbnailURL(width: 320, height: 180), createdAt, viewCount, language, game { name }, owner { login, displayName, profileImageURL(width: 50) } } } } } }\"}"@
}

/// The query for the thirty latest videos of a channel.
pub fn user_vods_query(username: &str) -> (q: String)
    ensures
        q@ == user_vods_query_text(username@),
{
    let mut out: Vec<char> = Vec::new();
    append_str(&mut out, "{\"query\":\"query { user(login: \\\"");
    append_str(&mut out, gql_escape(username).as_str());
    append_str(&mut out, "\\\") { videos(first: 30) { edges { node { id, title, lengthSeconds, previewThumbnailURL(width: 320, height: 180), createdAt, viewCount, language, game { name }, owner { login, displayName, profileImageURL(width: 50) } } } } } }\"}");
    assert(out@ =~= user_vods_query_text(username@));
    string_of(&out)
}

/// The query for the live stream of a channel.
pub open spec fn user_live_query_text(login: Seq<char>) -> Seq<char> {
    "{\"query\":\"query { user(login: \\\""@ + escaped(login) + "\\\") { id login displayName profileImageURL(width: 70) stream { id title viewersCount previewImageURL(width: 640, height: 360) createdAt language game { id name boxArtURL(width: 110, height: 147) } } } }\"}"@
}

/// The query for the live stream of a channel.
pub fn user_live_query(login: &str) -> (q: String)
    ensures
        q@ == user_live_query_text(login@),
{
    let mut out: Vec<char> = Vec::new();
    append_str(&mut out, "{\"query\":\"query { user(login: \\\"");
    append_str(&mut out, gql_escape(login).as_str());
    append_str(&mut out, "\\\") { id login displayName profileImageURL(width: 70) stream { id title viewersCount previewImageURL(width: 640, height: 360) createdAt language game { id name boxArtURL(width: 110, height: 147) } } } }\"}");
    assert(out@ =~= user_live_query_text(login@));
    string_of(&out)
}

/// The query for the channels that match a search text.
pub open spec fn search_channels_query_text(query: Seq<char>) -> Seq<char> {
    "{\"query\":\"query { searchFor(userQuery: \\\""@ + escaped(query) + "\\\", platform: \\\"web\\\") { channels { edges { item { ... on User { id, login, displayName, profileImageURL(width: 300) } } } } } }\"}"@
}

/// The query for the channels that match a search text.
pub fn search_channels_query(query: &str) -> (q: String)
    ensures
        q@ == search_channels_query_text(query@),
{
    let mut out: Vec<char> = Vec::new();
    append_str(&mut out, "{\"query\":\"query { searchFor(userQuery: \\\"");
    append_str(&mut out, gql_escape(query).as_str());
    append_str(&mut out, "\\\", platform: \\\"web\\\") { channels { edges { item { ... on User { id, login, displayName, profileImageURL(width: 300) } } } } } }\"}");
    assert(out@ =~= search_channels_query_text(query@));
    string_of(&out)
}

/// The query for the channels and games that match a search text.
pub open spec fn search_global_query_text(query: Seq<char>) -> Seq<char> {
    "{\"query\":\"query { searchFor(userQuery: \\\""@ + escaped(query) + "\\\", platform: \\\"web\\\") { channels { edges { item { ... on User { id, login, displayName, profileImageURL(width: 300), stream { id title viewersCount previewImageURL(width: 640, height: 360) }, __typename } } } }, games { edges { item { ... on Game { id, name, boxArtURL(width: 150, height: 200), __typename } } } } } }\"}"@
}

/// The query for the channels and games that match a search text.
pub fn search_global_query(query: &str) -> (q: String)
    ensures
        q@ == search_global_query_text(query@),
{
    let mut out: Vec<char> = Vec::new();
    append_str(&mut out, "{\"query\":\"query { searchFor(userQuery: \\\"");
    append_str(&mut out, gql_escape(query).as_str());
    append_str(&mut out, "\\\", platform: \\\"web\\\") { channels { edges { item { ... on User { id, login, displayName, profileImageURL(width: 300), stream { id title viewersCount previewImageURL(width: 640, height: 360) }, __typename } } } }, games { edges { item { ... on Game { id, name, boxArtURL(width: 150, height: 200), __typename } } } } } }\"}");
    assert(out@ =~= search_global_query_text(query@));
    string_of(&out)
}

/// The query for the chat of a video from the offset `offset`, in whole seconds.
pub open spec fn video_chat_query_text(vod_id: Seq<char>, offset: int) -> Seq<char> {
    "{\"query\":\"query { video(id: \\\""@ + escaped(vod_id) + "\\\") { comments(contentOffsetSeconds: "@ + signed_decimal(offset) + ") { edges { node { id, commenter { displayName, login, profileImageURL(width: 50) }, message { fragments { text, emote { id, setID } } }, contentOffsetSeconds, createdAt } }, pageInfo { hasNextPage } } } }\"}"@
}

/// The query for the chat of a video from the offset `offset`, in whole seconds.
pub fn video_chat_query(vod_id: &str, offset: i64) -> (q: String)
    ensures
        q@ == video_chat_query_text(vod_id@, offset as int),
{
    let mut out: Vec<char> = Vec::new();
    append_str(&mut out, "{\"query\":\"query { video(id: \\\"");
    append_str(&mut out, gql_escape(vod_id).as_str());
    append_str(&mut out, "\\\") { comments(contentOffsetSeconds: ");
    push_signed_decimal(&mut out, offset);
    append_str(&mut out, ") { edges { node { id, commenter { displayName, login, profileImageURL(width: 50) }, message { fragments { text, emote { id, setID } } }, contentOffsetSeconds, createdAt } }, pageInfo { hasNextPage } } } }\"}");
    assert(out@ =~= video_chat_query_text(vod_id@, offset as int));
    string_of(&out)
}

/// The query for the markers of a video.
pub open spec fn video_markers_query_text(vod_id: Seq<char>) -> Seq<char> {
    "{\"query\":\"query { video(id: \\\""@ + escaped(vod_id) + "\\\") { markers { id, displayTime, description, type } } }\"}"@
}

/// The query for the markers of a video.
pub fn video_markers_query(vod_id: &str) -> (q: String)
    ensures
        q@ == video_markers_query_text(vod_id@),
{
    let mut out: Vec<char> = Vec::new();
    append_str(&mut out, "{\"query\":\"query { video(id: \\\"");
    append_str(&mut out, gql_escape(vod_id).as_str());
    append_str(&mut out, "\\\") { markers { id, displayTime, description, type } } }\"}");
    assert(out@ =~= video_markers_query_text(vod_id@));
    string_of(&out)
}

/// The query for one page of the live streams.
pub open spec fn live_streams_query_text(first: nat, clause: Seq<char>) -> Seq<char> {
    "{\"query\":\"query { streams(first: "@ + decimal(first) + clause + ") { edges { cursor node { id title type viewersCount previewImageURL(width: 640, height: 360) createdAt language game { id name boxArtURL(width: 110, height: 147) } broadcaster { id login displayName profileImageURL(width: 70) } } } pageInfo { hasNextPage } } }\"}"@
}

/// The query for one page of the live streams.
pub fn live_streams_query(first: u64, clause: &str) -> (q: String)
    ensures
        q@ == live_streams_query_text(first as nat, clause@),
{
    let mut out: Vec<char> = Vec::new();
    append_str(&mut out, "{\"query\":\"query { streams(first: ");
    push_decimal(&mut out, first);
    append_str(&mut out, clause);
    append_str(&mut out, ") { edges { cursor node { id title type viewersCount previewImageURL(width: 640, height: 360) createdAt language game { id name boxArtURL(width: 110, height: 147) } broadcaster { id login displayName profileImageURL(width: 70) } } } pageInfo { hasNextPage } } }\"}");
    assert(out@ =~= live_streams_query_text(first as nat, clause@));
    string_of(&out)
}

/// The query for what the master playlist of a video is built from.
pub open spec fn vod_manifest_query_text(vod_id: Seq<char>) -> Seq<char> {
    "{\"query\":\"query { video(id: \\\""@ + escaped(vod_id) + "\\\") { broadcastType, createdAt, seekPreviewsURL, owner { login } } }\"}"@
}

/// The query for what the master playlist of a video is built from.
pub fn vod_manifest_query(vod_id: &str) -> (q: String)
    ensures
        q@ == vod_manifest_query_text(vod_id@),
{
    let mut out: Vec<char> = Vec::new();
    append_str(&mut out, "{\"query\":\"query { video(id: \\\"");
    append_str(&mut out, gql_escape(vod_id).as_str());
    append_str(&mut out, "\\\") { broadcastType, createdAt, seekPreviewsURL, owner { login } } }\"}");
    assert(out@ =~= vod_manifest_query_text(vod_id@));
    string_of(&out)
}

/// The query for the five categories with the most viewers.
pub open spec fn top_categories_query_text() -> Seq<char> {
    "{\"query\":\"query { topGames(first: 5) { edges { node { id name boxArtURL(width: 80, height: 107) } } } }\"}"@
}

/// The query for the five categories with the most viewers.
pub fn top_categories_query() -> (q: String)
    ensures
        q@ == top_categories_query_text(),
{
    let mut out: Vec<char> = Vec::new();
    append_str(&mut out, "{\"query\":\"query { topGames(first: 5) { edges { node { id name boxArtURL(width: 80, height: 107) } } } }\"}");
    assert(out@ =~= top_categories_query_text());
    string_of(&out)
}

// ---------------------------------------------------------------------
// Cache keys and times to live
// ---------------------------------------------------------------------

/// How long the top categories are kept, in seconds.
pub const TOP_CATEGORIES_TTL: u64 = 120;

/// How long a page of live streams is kept, in seconds.
pub const LIVE_PAGE_TTL: u64 = 25;

/// How long the result of a search for live streams is kept, in seconds.
pub const LIVE_SEARCH_TTL: u64 = 30;

/// How long the record of a channel is kept, in seconds.
pub const USER_TTL: u64 = 3600;

/// How long the videos of a channel are kept, in seconds.
pub const USER_VODS_TTL: u64 = 600;

/// How long the live stream of a channel is kept, in seconds.
pub const LIVE_USER_TTL: u64 = 20;

/// How long it is kept that a channel is not live, in seconds.
pub const OFFLINE_USER_TTL: u64 = 25;

/// How long the live status of a set of channels is kept, in seconds.
pub const LIVE_STATUS_TTL: u64 = 18;

/// How long a feed is kept, in seconds.
pub const FEED_TTL: u64 = 900;

/// The key of the top categories.
pub fn top_categories_cache_key() -> (k: String)
    ensures
        k@ == "top_live_categories"@,
{
    "top_live_categories".to_owned()
}

/// The cursor as it stands in a cache key: `first` for the first page.
pub open spec fn cursor_word(after: Option<Seq<char>>) -> Seq<char> {
    let cursor = match after {
        Some(a) => trim_ws(a),
        None => Seq::empty(),
    };
    if cursor.len() == 0 {
        "first"@
    } else {
        cursor
    }
}

fn push_cursor_word(out: &mut Vec<char>, after: Option<&str>)
    ensures
        final(out)@ == old(out)@ + cursor_word(
            match after {
                Some(a) => Some(a@),
                None => None,
            },
        ),
{
    let cursor = trimmed_or_empty(after);
    if cursor.len() == 0 {
        append_str(out, "first");
    } else {
        append(out, &cursor);
    }
}

/// The key of a page of the live streams of a category.
pub open spec fn live_category_key_text(name: Seq<char>, after: Option<Seq<char>>, first: nat) -> Seq<
    char,
> {
    "live_cat_"@ + simple_hash(name) + "_"@ + cursor_word(after) + "_"@ + decimal(first)
}

/// Builds the key of a page of the live streams of a category.
pub fn live_category_cache_key(category_name: &str, after: Option<&str>, first: u64) -> (k: String)
    ensures
        k@ == live_category_key_text(
            category_name@,
            match after {
                Some(a) => Some(a@),
                None => None,
            },
            first as nat,
        ),
{
    let mut out: Vec<char> = Vec::new();
    append_str(&mut out, "live_cat_");
    append_str(&mut out, create_simple_hash(category_name).as_str());
    append_str(&mut out, "_");
    push_cursor_word(&mut out, after);
    append_str(&mut out, "_");
    push_decimal(&mut out, first);
    assert(out@ =~= live_category_key_text(
        category_name@,
        match after {
            Some(a) => Some(a@),
            None => None,
        },
        first as nat,
    ));
    string_of(&out)
}

/// The key of a search for live streams.
pub open spec fn live_search_key_text(query: Seq<char>, first: nat) -> Seq<char> {
    "live_search_"@ + simple_hash(query) + "_"@ + decimal(first)
}

/// Builds the key of a search for live streams.
pub fn live_search_cache_key(query: &str, first: u64) -> (k: String)
    ensures
        k@ == live_search_key_text(query@, first as nat),
{
    let mut out: Vec<char> = Vec::new();
    append_str(&mut out, "live_search_");
    append_str(&mut out, create_simple_hash(query).as_str());
    append_str(&mut out, "_");
    push_decimal(&mut out, first);
    assert(out@ =~= live_search_key_text(query@, first as nat));
    string_of(&out)
}

/// The key of a page of live streams.
pub open spec fn live_streams_key_text(first: nat, after: Option<Seq<char>>) -> Seq<char> {
    "live_streams_"@ + decimal(first) + "_"@ + cursor_word(after)
}

/// Builds the key of a page of live streams.
pub fn live_streams_cache_key(first: u64, after: Option<&str>) -> (k: String)
    ensures
        k@ == live_streams_key_text(
            first as nat,
            match after {
                Some(a) => Some(a@),
                None => None,
            },
        ),
{
    let mut out: Vec<char> = Vec::new();
    append_str(&mut out, "live_streams_");
    push_decimal(&mut out, first);
    append_str(&mut out, "_");
    push_cursor_word(&mut out, after);
    assert(out@ =~= live_streams_key_text(
        first as nat,
        match after {
            Some(a) => Some(a@),
            None => None,
        },
    ));
    string_of(&out)
}

/// Puts `prefix` in front of `rest`.
pub fn prefixed(prefix: &str, rest: &str) -> (k: String)
    ensures
        k@ == prefix@ + rest@,
{
    let mut out: Vec<char> = Vec::new();
    append_str(&mut out, prefix);
    append_str(&mut out, rest);
    assert(out@ =~= prefix@ + rest@);
    string_of(&out)
}

/// The key of a channel's record: `user_` and the name as given.
pub fn user_cache_key(username: &str) -> (k: String)
    ensures
        k@ == "user_"@ + username@,
{
    prefixed("user_", username)
}

/// The key of a channel's videos: `vods_` and the name as given.
pub fn user_vods_cache_key(username: &str) -> (k: String)
    ensures
        k@ == "vods_"@ + username@,
{
    prefixed("vods_", username)
}

/// The login that a user name stands for: trimmed, in lower case.
pub open spec fn login_of(username: Seq<char>) -> Seq<char> {
    lowercased(trim_ws(username))
}

/// Brings a user name into the form of a login.
pub fn normalize_login(username: &str) -> (login: String)
    ensures
        login@ == login_of(username@),
{
    let trimmed = trim_ws_exec(&chars_of(username));
    to_lowercase(string_of(&trimmed).as_str())
}

/// The key of a channel's live stream: `live_user_` and the login.
pub fn live_user_cache_key(login: &str) -> (k: String)
    ensures
        k@ == "live_user_"@ + login@,
{
    prefixed("live_user_", login)
}

/// The key of the live status of the channels whose logins, sorted
/// and joined by `|`, are `joined`.
pub fn live_status_cache_key(joined: &str) -> (k: String)
    ensures
        k@ == "live_status_"@ + simple_hash(joined@),
{
    prefixed("live_status_", create_simple_hash(joined).as_str())
}

/// The key of the feed for the viewing state with the fingerprint
/// text `state`.
pub fn trending_cache_key(state: &str) -> (k: String)
    ensures
        k@ == "trending_vods_"@ + simple_hash(state@),
{
    prefixed("trending_vods_", create_simple_hash(state).as_str())
}

} // verus!
