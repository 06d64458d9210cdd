//! The relay of a media playlist: the body fetched from a registered
//! target is rewritten so that every reference in it is absolute.

use crate::text::{
    append, chars_of, contains_in, contains_text, find_char, find_char_from, matches_at_exec,
    replace_all, replace_all_exec, rfind_char, rfind_char_exec, slice_of, starts_with, string_of,
    trim_end_char, trim_end_char_exec,
};
use vstd::prelude::*;

verus! {

broadcast use vstd::string::group_string_axioms;

/// The directory of a URL: the URL up to and including its last `/`,
/// or the whole URL where it has none.
pub open spec fn directory_of(url: Seq<char>) -> Seq<char> {
    match rfind_char(url, '/') {
        Some(i) => url.subrange(0, i + 1),
        None => url,
    }
}

/// One line of a media playlist, rewritten against the directory
/// `base`.  A trailing carriage return is dropped.  An empty line or a
/// tag line is kept, but where a tag line holds `URI="` and no
/// `URI="http`, `base` is put behind every `URI="`.  Any other line is
/// a reference: `base` is put in front of it unless it begins with
/// `http`.
pub open spec fn relay_line(piece: Seq<char>, base: Seq<char>) -> Seq<char> {
    let l = trim_end_char(piece, '\r');
    if l.len() == 0 || l[0] == '#' {
        if contains_text(l, "URI=\""@) && !contains_text(l, "URI=\"http"@) {
            replace_all(l, "URI=\""@, "URI=\""@ + base)
        } else {
            l
        }
    } else if !starts_with(l, "http"@) {
        base + l
    } else {
        l
    }
}

/// The lines of `s` from index `start` on, each rewritten against
/// `base`, with the line feeds between them.
pub open spec fn relay_lines_from(s: Seq<char>, base: Seq<char>, start: int) -> Seq<char>
    decreases s.len() - start,
{
    let e = find_char_from(s, '\n', start);
    if 0 <= start <= e < s.len() {
        relay_line(s.subrange(start, e), base) + seq!['\n'] + relay_lines_from(s, base, e + 1)
    } else {
        relay_line(s.subrange(start, s.len() as int), base)
    }
}

/// The body of a media playlist as the relay serves it: `-unmuted`
/// becomes `-muted` throughout, then every line is rewritten against
/// the directory of the target.
pub open spec fn relayed(body: Seq<char>, target_url: Seq<char>) -> Seq<char> {
    relay_lines_from(replace_all(body, "-unmuted"@, "-muted"@), directory_of(target_url), 0)
}

fn relay_line_exec(piece: &Vec<char>, base: &Vec<char>) -> (r: Vec<char>)
    ensures
        r@ == relay_line(piece@, base@),
{
    let l = trim_end_char_exec(piece, '\r');
    if l.len() == 0 || l[0] == '#' {
        let marker = chars_of("URI=\"");
        if contains_in(&l, &marker) && !contains_in(&l, &chars_of("URI=\"http")) {
            let mut with_base = chars_of("URI=\"");
            append(&mut with_base, base);
            replace_all_exec(&l, &marker, &with_base)
        } else {
            l
        }
    } else if !matches_at_exec(&l, &chars_of("http"), 0) {
        let mut r: Vec<char> = Vec::new();
        append(&mut r, base);
        append(&mut r, &l);
        assert(r@ =~= base@ + l@);
        r
    } else {
        l
    }
}

/// Rewrites the body of the media playlist fetched from `target_url`
/// so that its references are absolute.
pub fn rewrite_variant_playlist(body: &str, target_url: &str) -> (r: String)
    ensures
        r@ == relayed(body@, target_url@),
{
    let text = replace_all_exec(&chars_of(body), &chars_of("-unmuted"), &chars_of("-muted"));
    let target = chars_of(target_url);
    let base = match rfind_char_exec(&target, '/') {
        Some(i) => slice_of(&target, 0, i + 1),
        None => slice_of(&target, 0, target.len()),
    };
    assert(base@ =~= directory_of(target_url@));
    let mut out: Vec<char> = Vec::new();
    let mut start: usize = 0;
    loop
        invariant
            start <= text.len(),
            text@ == replace_all(body@, "-unmuted"@, "-muted"@),
            base@ == directory_of(target_url@),
            out@ + relay_lines_from(text@, base@, start as int) == relay_lines_from(text@, base@, 0),
        decreases text.len() - start,
    {
        let e: usize = find_char(&text, '\n', start);
        let piece = slice_of(&text, start, e);
        let line = relay_line_exec(&piece, &base);
        let ghost before = out@;
        append(&mut out, &line);
        if e >= text.len() {
            return string_of(&out);
        }
        out.push('\n');
        assert(out@ + relay_lines_from(text@, base@, e + 1) =~= before + relay_lines_from(
            text@,
            base@,
            start as int,
        ));
        start = e + 1;
    }
}

} // verus!
