//! Number formatting, percent-encoding, the short text hash, and the
//! normal form of language codes.

use crate::text::{chars_of, string_of, trim_ws, trim_ws_exec};
use vstd::prelude::*;
use vstd::string::StringSliceAdditionalSpecFns;

verus! {

broadcast use vstd::string::group_string_axioms;

// ---------------------------------------------------------------------
// Decimal and hexadecimal digits
// ---------------------------------------------------------------------

/// The character of the decimal digit `d`.
pub open spec fn digit_char(d: int) -> char {
    ((48 + d) as u8) as char
}

/// The decimal notation of `n`, without sign or leading zeros.
pub open spec fn decimal(n: nat) -> Seq<char>
    decreases n,
{
    if n < 10 {
        seq![digit_char(n as int)]
    } else {
        decimal(n / 10).push(digit_char((n % 10) as int))
    }
}

/// The decimal notation of `i`, with `-` in front of a negative number.
pub open spec fn signed_decimal(i: int) -> Seq<char> {
    if i < 0 {
        seq!['-'] + decimal((-i) as nat)
    } else {
        decimal(i as nat)
    }
}

/// The upper-case hexadecimal digit of `n`.
pub open spec fn hex_upper(n: int) -> char {
    if n < 10 {
        ((48 + n) as u8) as char
    } else {
        ((55 + n) as u8) as char
    }
}

/// Appends the decimal notation of `n` to `out`.
pub fn push_decimal(out: &mut Vec<char>, n: u64)
    ensures
        final(out)@ == old(out)@ + decimal(n as nat),
    decreases n,
{
    if n >= 10 {
        push_decimal(out, n / 10);
    }
    let d: u8 = (n % 10) as u8;
    let ghost before = out@;
    out.push((48 + d) as char);
    assert(out@ =~= old(out)@ + decimal(n as nat)) by {
        if n >= 10 {
            assert(before == old(out)@ + decimal((n / 10) as nat));
        }
    }
}

/// Appends the decimal notation of `i` to `out`.
pub fn push_signed_decimal(out: &mut Vec<char>, i: i64)
    ensures
        final(out)@ == old(out)@ + signed_decimal(i as int),
{
    if i < 0 {
        out.push('-');
        let m: u64 = ((-(i + 1)) as u64) + 1;
        push_decimal(out, m);
        assert(out@ =~= old(out)@ + signed_decimal(i as int));
    } else {
        push_decimal(out, i as u64);
    }
}

/// The decimal notation of `n`.
pub fn decimal_string(n: u64) -> (r: String)
    ensures
        r@ == decimal(n as nat),
{
    let mut out: Vec<char> = Vec::new();
    push_decimal(&mut out, n);
    assert(out@ =~= decimal(n as nat));
    string_of(&out)
}

// ---------------------------------------------------------------------
// Percent-encoding
// ---------------------------------------------------------------------

/// Bytes that pass through percent-encoding unchanged: ASCII letters and
/// digits and `-`, `_`, `.`, `~`.
pub open spec fn is_unreserved(b: u8) -> bool {
    ||| 0x30 <= b <= 0x39
    ||| 0x41 <= b <= 0x5A
    ||| 0x61 <= b <= 0x7A
    ||| b == 0x2D
    ||| b == 0x5F
    ||| b == 0x2E
    ||| b == 0x7E
}

/// One byte, percent-encoded.
pub open spec fn percent_encode_byte(b: u8) -> Seq<char> {
    if is_unreserved(b) {
        seq![b as char]
    } else {
        seq!['%', hex_upper((b / 16) as int), hex_upper((b % 16) as int)]
    }
}

/// The bytes, each percent-encoded, in order.
pub open spec fn percent_encode(bytes: Seq<u8>) -> Seq<char>
    decreases bytes.len(),
{
    if bytes.len() == 0 {
        Seq::empty()
    } else {
        percent_encode(bytes.drop_last()) + percent_encode_byte(bytes.last())
    }
}

fn hex_upper_exec(n: u8) -> (c: char)
    requires
        n < 16,
    ensures
        c == hex_upper(n as int),
{
    if n < 10 {
        (48 + n) as char
    } else {
        (55 + n) as char
    }
}

/// Appends the percent-encoding of the UTF-8 bytes of `s` to `out`.
pub fn push_percent_encoded(out: &mut Vec<char>, s: &str)
    ensures
        final(out)@ == old(out)@ + percent_encode(s.spec_bytes()),
{
    let bytes = s.as_bytes();
    let mut i: usize = 0;
    assert(bytes@.take(0) =~= Seq::<u8>::empty());
    while i < bytes.len()
        invariant
            i <= bytes.len(),
            bytes@ == s.spec_bytes(),
            out@ == old(out)@ + percent_encode(bytes@.take(i as int)),
        decreases bytes.len() - i,
    {
        let b: u8 = bytes[i];
        let ghost before = out@;
        if (0x30 <= b && b <= 0x39) || (0x41 <= b && b <= 0x5A) || (0x61 <= b && b <= 0x7A) || b
            == 0x2D || b == 0x5F || b == 0x2E || b == 0x7E {
            out.push(b as char);
        } else {
            out.push('%');
            out.push(hex_upper_exec(b / 16));
            out.push(hex_upper_exec(b % 16));
        }
        assert(out@ =~= before + percent_encode_byte(b));
        assert(bytes@.take(i + 1).drop_last() =~= bytes@.take(i as int));
        assert(out@ =~= old(out)@ + percent_encode(bytes@.take(i + 1)));
        i += 1;
    }
    assert(bytes@.take(bytes.len() as int) =~= bytes@);
}

/// Percent-encodes `s` for use in a query string: every byte of its UTF-8
/// form that is not an ASCII letter, a digit or one of `-_.~` becomes `%`
/// and two upper-case hexadecimal digits.
pub fn urlencoding_simple(s: &str) -> (r: String)
    ensures
        r@ == percent_encode(s.spec_bytes()),
{
    let mut out: Vec<char> = Vec::new();
    push_percent_encoded(&mut out, s);
    assert(out@ =~= percent_encode(s.spec_bytes()));
    string_of(&out)
}

/// A character that percent-encoding leaves as it is.
pub open spec fn is_plain_char(c: char) -> bool {
    ('0' <= c <= '9') || ('A' <= c <= 'Z') || ('a' <= c <= 'z') || c == '-' || c == '_' || c == '.'
        || c == '~'
}

proof fn lemma_plain_bytes(bytes: Seq<u8>, chars: Seq<char>)
    requires
        bytes.len() == chars.len(),
        forall|i: int| 0 <= i < chars.len() ==> is_plain_char(#[trigger] chars[i]),
        forall|i: int| 0 <= i < chars.len() ==> chars[i] as u8 == #[trigger] bytes[i],
    ensures
        percent_encode(bytes) == chars,
    decreases bytes.len(),
{
    if bytes.len() > 0 {
        let n = bytes.len() - 1;
        lemma_plain_bytes(bytes.drop_last(), chars.drop_last());
        let c = chars[n];
        let b = bytes[n];
        assert(is_plain_char(c));
        assert(b == c as u8);
        assert(is_unreserved(b));
        assert(b as char == c);
        assert(percent_encode(bytes) =~= chars.drop_last().push(c));
        assert(chars.drop_last().push(c) =~= chars);
    } else {
        assert(percent_encode(bytes) =~= chars);
    }
}

/// Percent-encoding leaves a text of ASCII letters, digits and `-_.~`
/// as it is.
pub proof fn lemma_plain_text_is_kept(s: Seq<char>)
    requires
        forall|i: int| 0 <= i < s.len() ==> is_plain_char(#[trigger] s[i]),
    ensures
        percent_encode(vstd::utf8::encode_utf8(s)) == s,
{
    assert(vstd::utf8::is_ascii_chars(s)) by {
        assert forall|i: int| 0 <= i < s.len() implies '\0' <= #[trigger] s[i] <= '\u{7f}' by {
            assert(is_plain_char(s[i]));
        }
    }
    vstd::utf8::is_ascii_chars_encode_utf8(s);
    lemma_plain_bytes(vstd::utf8::encode_utf8(s), s);
}

// ---------------------------------------------------------------------
// The short text hash
// ---------------------------------------------------------------------

/// `x` reduced to the range of a signed 32-bit integer.
pub open spec fn wrap_i32(x: int) -> int {
    let m = x % 0x1_0000_0000;
    if m >= 0x8000_0000 {
        m - 0x1_0000_0000
    } else {
        m
    }
}

/// The rolling hash of the first `n` characters of `s`: each step
/// multiplies by 31, adds the code point and wraps to 32 bits.
pub open spec fn hash_fold(s: Seq<char>, n: int) -> int
    decreases n,
{
    if n <= 0 {
        0
    } else {
        wrap_i32(31 * hash_fold(s, n - 1) + (s[n - 1] as u32) as int)
    }
}

/// How many leading characters the hash reads.
pub const HASH_PREFIX: usize = 10000;

/// The hash of `s` as text: the absolute value of the rolling hash of
/// its first 10000 characters, in decimal.
pub open spec fn simple_hash(s: Seq<char>) -> Seq<char> {
    let n = if s.len() < HASH_PREFIX {
        s.len() as int
    } else {
        HASH_PREFIX as int
    };
    let h = hash_fold(s, n);
    decimal(
        (if h < 0 {
            -h
        } else {
            h
        }) as nat,
    )
}

/// A short decimal fingerprint of `value`.
pub fn create_simple_hash(value: &str) -> (r: String)
    ensures
        r@ == simple_hash(value@),
{
    let chars = chars_of(value);
    let n: usize = if chars.len() < HASH_PREFIX {
        chars.len()
    } else {
        HASH_PREFIX
    };
    let mut hash: i64 = 0;
    let mut i: usize = 0;
    while i < n
        invariant
            i <= n <= chars.len(),
            hash == hash_fold(chars@, i as int),
            -0x8000_0000 <= hash < 0x8000_0000,
        decreases n - i,
    {
        let c: u32 = chars[i] as u32;
        let t: i64 = 31 * hash + (c as i64);
        let u: u64 = (t + 0x10_0000_0000) as u64;
        let m: u64 = u % 0x1_0000_0000;
        assert(m as int == (t as int) % 0x1_0000_0000);
        if m >= 0x8000_0000 {
            hash = (m as i64) - 0x1_0000_0000;
        } else {
            hash = m as i64;
        }
        i += 1;
    }
    let magnitude: u64 = if hash < 0 {
        (-hash) as u64
    } else {
        hash as u64
    };
    decimal_string(magnitude)
}

// ---------------------------------------------------------------------
// Language codes
// ---------------------------------------------------------------------

/// The lower-case form that `str::to_lowercase` gives to a text.
pub uninterp spec fn lowercased(s: Seq<char>) -> Seq<char>;

/// `str::to_lowercase`: the result is the Unicode lower-case form of the
/// argument, a function of the argument alone.
#[verifier::external_body]
pub(crate) fn to_lowercase(s: &str) -> (r: String)
    ensures
        r@ == lowercased(s@),
{
    s.to_lowercase()
}

/// The normal form of a language code: white space trimmed, lower case;
/// the empty text when there is no code.
pub open spec fn normal_language(language: Option<Seq<char>>) -> Seq<char> {
    match language {
        Some(l) => lowercased(trim_ws(l)),
        None => lowercased(Seq::empty()),
    }
}

/// Brings a language code into its normal form.
pub fn normalize_language(language: Option<&str>) -> (r: String)
    ensures
        r@ == normal_language(
            match language {
                Some(l) => Some(l@),
                None => None,
            },
        ),
{
    let raw: Vec<char> = match language {
        Some(l) => chars_of(l),
        None => Vec::new(),
    };
    let trimmed = trim_ws_exec(&raw);
    proof {
        if language is None {
            assert(raw@ =~= Seq::<char>::empty());
            assert(trim_ws(raw@) =~= Seq::<char>::empty());
        }
    }
    let t = string_of(&trimmed);
    to_lowercase(t.as_str())
}

} // verus!
