//! Calls into the `url` crate and std's Unicode case mapping, behind
//! contracts that name their results.

use vstd::prelude::*;

verus! {

/// The parts of `url` as the `url` crate parses it: host (when it has
/// one), path, and query (when it has one); `None` when it does not parse.
pub uninterp spec fn url_parts_of(url: Seq<char>) -> Option<(Option<Seq<char>>, Seq<char>, Option<Seq<char>>)>;

/// The host of `url`, `None` when it does not parse or has no host.
pub open spec fn url_host_of(url: Seq<char>) -> Option<Seq<char>> {
    match url_parts_of(url) {
        Some((h, _, _)) => h,
        None => None,
    }
}

/// A parsed URL's host, path and query.
pub struct UrlParts {
    pub host: Option<String>,
    pub path: String,
    pub query: Option<String>,
}

pub open spec fn opt_string_view(o: Option<String>) -> Option<Seq<char>> {
    match o {
        Some(s) => Some(s@),
        None => None,
    }
}

/// Calls `url::Url::parse`, then `host_str`, `path` and `query` on the
/// result; claims only that the parts are a function of the text (named
/// `url_parts_of`).
#[verifier::external_body]
pub(crate) fn url_parts(url: &str) -> (r: Option<UrlParts>)
    ensures
        match r {
            Some(p) => url_parts_of(url@) == Some((opt_string_view(p.host), p.path@, opt_string_view(p.query))),
            None => url_parts_of(url@) is None,
        },
{
    url::Url::parse(url).ok().map(|u| UrlParts {
        host: u.host_str().map(|h| h.to_string()),
        path: u.path().to_string(),
        query: u.query().map(|q| q.to_string()),
    })
}

/// The host of `url`, when it parses and has one.
pub(crate) fn url_host(url: &str) -> (r: Option<String>)
    ensures
        match r {
            Some(h) => url_host_of(url@) == Some(h@),
            None => url_host_of(url@) is None,
        },
{
    match url_parts(url) {
        Some(p) => p.host,
        None => None,
    }
}

/// `href` resolved against `base` by the `url` crate, serialized; `None`
/// when either does not parse.
pub uninterp spec fn joined_url_of(base: Seq<char>, href: Seq<char>) -> Option<Seq<char>>;

/// Calls `url::Url::parse(base)`, then `Url::join(href)`, and serializes;
/// claims only that the result is a function of both texts (named
/// `joined_url_of`).
#[verifier::external_body]
pub(crate) fn url_join(base: &str, href: &str) -> (r: Option<String>)
    ensures
        match r {
            Some(u) => joined_url_of(base@, href@) == Some(u@),
            None => joined_url_of(base@, href@) is None,
        },
{
    url::Url::parse(base).and_then(|b| b.join(href)).ok().map(|u| u.to_string())
}

/// The UTF-8 encoding of one character.
pub open spec fn utf8_of(c: char) -> Seq<u8> {
    let v = c as int;
    if v < 0x80 {
        seq![v as u8]
    } else if v < 0x800 {
        seq![(0xC0 + v / 64) as u8, (0x80 + v % 64) as u8]
    } else if v < 0x10000 {
        seq![(0xE0 + v / 4096) as u8, (0x80 + (v / 64) % 64) as u8, (0x80 + v % 64) as u8]
    } else {
        seq![
            (0xF0 + v / 262144) as u8,
            (0x80 + (v / 4096) % 64) as u8,
            (0x80 + (v / 64) % 64) as u8,
            (0x80 + v % 64) as u8,
        ]
    }
}

/// The UTF-8 bytes of a text.
pub open spec fn utf8_bytes(s: Seq<char>) -> Seq<u8>
    decreases s.len(),
{
    if s.len() == 0 {
        Seq::empty()
    } else {
        utf8_bytes(s.drop_last()) + utf8_of(s.last())
    }
}

/// An uppercase hexadecimal digit.
pub open spec fn hex_upper(v: int) -> char {
    if v < 10 {
        (('0' as int) + v) as char
    } else {
        (('A' as int) + v - 10) as char
    }
}

/// One byte in `application/x-www-form-urlencoded` form: ASCII letters,
/// digits and `*-._` as they are, a space as `+`, any other byte as `%XX`.
pub open spec fn form_byte(b: u8) -> Seq<char> {
    if (97 <= b && b <= 122) || (65 <= b && b <= 90) || (48 <= b && b <= 57) || b == 42 || b == 45
        || b == 46 || b == 95 {
        seq![(b as int) as char]
    } else if b == 32 {
        seq!['+']
    } else {
        seq!['%', hex_upper(b as int / 16), hex_upper(b as int % 16)]
    }
}

/// Bytes in `application/x-www-form-urlencoded` form.
pub open spec fn form_bytes(bs: Seq<u8>) -> Seq<char>
    decreases bs.len(),
{
    if bs.len() == 0 {
        Seq::empty()
    } else {
        form_bytes(bs.drop_last()) + form_byte(bs.last())
    }
}

/// `key=value` in `application/x-www-form-urlencoded` form, each side the
/// form encoding of its UTF-8 bytes.
pub open spec fn form_pair_of(key: Seq<char>, value: Seq<char>) -> Seq<char> {
    form_bytes(utf8_bytes(key)) + seq!['='] + form_bytes(utf8_bytes(value))
}

/// Calls `url::form_urlencoded::Serializer::append_pair` on an empty
/// serializer (so no `&` separator) and `finish`: the key and the value
/// each serialized byte by byte as `form_urlencoded::byte_serialize` does,
/// joined by `=`.
#[verifier::external_body]
pub(crate) fn form_pair(key: &str, value: &str) -> (r: String)
    ensures
        r@ == form_pair_of(key@, value@),
{
    url::form_urlencoded::Serializer::new(String::new()).append_pair(key, value).finish()
}

/// `str::to_lowercase` of a text.
pub uninterp spec fn lowercase_of(s: Seq<char>) -> Seq<char>;

/// Calls `str::to_lowercase`; claims that the result is a function of the
/// text (named `lowercase_of`), and that an all-ASCII text maps character
/// by character to its ASCII lowercase.
#[verifier::external_body]
pub(crate) fn to_lowercase(s: &str) -> (r: String)
    ensures
        r@ == lowercase_of(s@),
        (forall|i: int| 0 <= i < s@.len() ==> (#[trigger] s@[i] as u32) < 128) ==> r@ == s@.map_values(
            |c: char| ascii_lower(c),
        ),
{
    s.to_lowercase()
}

/// `char::to_ascii_lowercase`: `A`-`Z` become `a`-`z`; every other
/// character is unchanged.
pub open spec fn ascii_lower(c: char) -> char {
    if 'A' <= c && c <= 'Z' {
        ((c as int) + 32) as char
    } else {
        c
    }
}

/// The characters of `char::to_lowercase(c)`.
pub uninterp spec fn char_lowercase_of(c: char) -> Seq<char>;

/// Calls `char::to_lowercase` and collects the characters it yields;
/// claims that they are a function of `c` (named `char_lowercase_of`),
/// that an ASCII character maps to its ASCII lowercase alone, and that no
/// lowercase mapping yields an ASCII capital, as the Unicode case mapping
/// that std follows gives it.
#[verifier::external_body]
pub(crate) fn char_to_lowercase(c: char) -> (r: Vec<char>)
    ensures
        r@ == char_lowercase_of(c),
        (c as u32) < 128 ==> r@ == seq![ascii_lower(c)],
        forall|k: int| 0 <= k < r@.len() ==> !('A' <= #[trigger] r@[k] && r@[k] <= 'Z'),
{
    c.to_lowercase().collect()
}

/// `char::is_alphanumeric`: the Unicode `Alphabetic` or `Numeric`
/// property.
pub uninterp spec fn alphanumeric(c: char) -> bool;

/// Calls `char::is_alphanumeric`; claims only that the answer is a
/// function of the character (named `alphanumeric`).
#[verifier::external_body]
pub(crate) fn is_alphanumeric(c: char) -> (b: bool)
    ensures
        b == alphanumeric(c),
{
    c.is_alphanumeric()
}

/// The serialization of `url` and its decoded query pairs in order, as
/// the `url` crate gives them; `None` when it does not parse.
pub uninterp spec fn parsed_url_of(url: Seq<char>) -> Option<(Seq<char>, Seq<(Seq<char>, Seq<char>)>)>;

pub open spec fn pairs_view(v: Seq<(String, String)>) -> Seq<(Seq<char>, Seq<char>)> {
    v.map_values(|p: (String, String)| (p.0@, p.1@))
}

/// Calls `url::Url::parse`, then `to_string` and `query_pairs` on the
/// result; claims only that both are a function of the text (named
/// `parsed_url_of`).
#[verifier::external_body]
pub(crate) fn parse_url(url: &str) -> (r: Option<(String, Vec<(String, String)>)>)
    ensures
        match r {
            Some((s, q)) => parsed_url_of(url@) == Some((s@, pairs_view(q@))),
            None => parsed_url_of(url@) is None,
        },
{
    let u = url::Url::parse(url).ok()?;
    let pairs = u.query_pairs().map(|(k, v)| (k.into_owned(), v.into_owned())).collect();
    Some((u.to_string(), pairs))
}

} // verus!
