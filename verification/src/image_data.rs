//! Image bytes to `data:` URIs for tools that return images to the model.

use vstd::prelude::*;
use base64::Engine;
use crate::text::push_str;

verus! {

/// `b` begins with `p`.
pub open spec fn bytes_start_with(b: Seq<u8>, p: Seq<u8>) -> bool {
    p.len() <= b.len() && b.subrange(0, p.len() as int) == p
}

pub open spec fn png_magic() -> Seq<u8> {
    seq![0x89u8, 0x50u8, 0x4eu8, 0x47u8, 0x0du8, 0x0au8, 0x1au8, 0x0au8]
}

pub open spec fn jpeg_magic() -> Seq<u8> {
    seq![0xffu8, 0xd8u8, 0xffu8]
}

/// `GIF87a`.
pub open spec fn gif87_magic() -> Seq<u8> {
    seq![0x47u8, 0x49u8, 0x46u8, 0x38u8, 0x37u8, 0x61u8]
}

/// `GIF89a`.
pub open spec fn gif89_magic() -> Seq<u8> {
    seq![0x47u8, 0x49u8, 0x46u8, 0x38u8, 0x39u8, 0x61u8]
}

/// `RIFF`.
pub open spec fn riff_magic() -> Seq<u8> {
    seq![0x52u8, 0x49u8, 0x46u8, 0x46u8]
}

/// `WEBP`.
pub open spec fn webp_tag() -> Seq<u8> {
    seq![0x57u8, 0x45u8, 0x42u8, 0x50u8]
}

/// `BM`.
pub open spec fn bmp_magic() -> Seq<u8> {
    seq![0x42u8, 0x4du8]
}

pub open spec fn png_mime() -> Seq<char> {
    seq!['i', 'm', 'a', 'g', 'e', '/', 'p', 'n', 'g']
}

pub open spec fn jpeg_mime() -> Seq<char> {
    seq!['i', 'm', 'a', 'g', 'e', '/', 'j', 'p', 'e', 'g']
}

pub open spec fn gif_mime() -> Seq<char> {
    seq!['i', 'm', 'a', 'g', 'e', '/', 'g', 'i', 'f']
}

pub open spec fn webp_mime() -> Seq<char> {
    seq!['i', 'm', 'a', 'g', 'e', '/', 'w', 'e', 'b', 'p']
}

pub open spec fn bmp_mime() -> Seq<char> {
    seq!['i', 'm', 'a', 'g', 'e', '/', 'b', 'm', 'p']
}

/// The MIME type named by the magic bytes at the start of `b`; PNG when
/// the signature is unknown.
pub open spec fn mime_of(b: Seq<u8>) -> Seq<char> {
    if bytes_start_with(b, png_magic()) {
        png_mime()
    } else if bytes_start_with(b, jpeg_magic()) {
        jpeg_mime()
    } else if bytes_start_with(b, gif87_magic()) || bytes_start_with(b, gif89_magic()) {
        gif_mime()
    } else if bytes_start_with(b, riff_magic()) && b.len() > 11 && b.subrange(8, 12) == webp_tag() {
        webp_mime()
    } else if bytes_start_with(b, bmp_magic()) {
        bmp_mime()
    } else {
        png_mime()
    }
}

/// Whether `b[at..]` begins with `p`.
fn bytes_match_at(b: &[u8], at: usize, p: &[u8]) -> (r: bool)
    ensures
        r == (at + p@.len() <= b@.len() && b@.subrange(at as int, at + p@.len()) == p@),
{
    if p.len() > b.len() || at > b.len() - p.len() {
        return false;
    }
    let mut i: usize = 0;
    while i < p.len()
        invariant
            at + p@.len() <= b@.len(),
            b@.len() == b.len(),
            p@.len() == p.len(),
            i <= p@.len(),
            forall|k: int| 0 <= k < i ==> b@[at + k] == p@[k],
        decreases p.len() - i,
    {
        assert(at + i < b@.len());
        if b[at + i] != p[i] {
            assert(b@.subrange(at as int, at + p@.len())[i as int] != p@[i as int]);
            return false;
        }
        i += 1;
    }
    assert(b@.subrange(at as int, at + p@.len()) =~= p@);
    true
}

/// The image MIME type sniffed from magic bytes, `image/png` when unknown.
pub fn sniff_mime(bytes: &[u8]) -> (m: &'static str)
    ensures
        m@ == mime_of(bytes@),
{
    let png: [u8; 8] = [0x89, 0x50, 0x4e, 0x47, 0x0d, 0x0a, 0x1a, 0x0a];
    let jpeg: [u8; 3] = [0xff, 0xd8, 0xff];
    let gif87: [u8; 6] = [0x47, 0x49, 0x46, 0x38, 0x37, 0x61];
    let gif89: [u8; 6] = [0x47, 0x49, 0x46, 0x38, 0x39, 0x61];
    let riff: [u8; 4] = [0x52, 0x49, 0x46, 0x46];
    let webp: [u8; 4] = [0x57, 0x45, 0x42, 0x50];
    let bmp: [u8; 2] = [0x42, 0x4d];
    assert(png@ =~= png_magic());
    assert(jpeg@ =~= jpeg_magic());
    assert(gif87@ =~= gif87_magic());
    assert(gif89@ =~= gif89_magic());
    assert(riff@ =~= riff_magic());
    assert(webp@ =~= webp_tag());
    assert(bmp@ =~= bmp_magic());
    proof {
        reveal_strlit("image/png");
        reveal_strlit("image/jpeg");
        reveal_strlit("image/gif");
        reveal_strlit("image/webp");
        reveal_strlit("image/bmp");
    }
    if bytes_match_at(bytes, 0, &png) {
        "image/png"
    } else if bytes_match_at(bytes, 0, &jpeg) {
        "image/jpeg"
    } else if bytes_match_at(bytes, 0, &gif87) || bytes_match_at(bytes, 0, &gif89) {
        "image/gif"
    } else if bytes_match_at(bytes, 0, &riff) && bytes.len() > 11 && bytes_match_at(bytes, 8, &webp) {
        "image/webp"
    } else if bytes_match_at(bytes, 0, &bmp) {
        "image/bmp"
    } else {
        "image/png"
    }
}

/// The character of a 6-bit value in the standard base64 alphabet
/// (`A`-`Z`, `a`-`z`, `0`-`9`, `+`, `/`).
pub open spec fn b64_digit(v: int) -> char {
    if v < 26 {
        (('A' as int) + v) as char
    } else if v < 52 {
        (('a' as int) + v - 26) as char
    } else if v < 62 {
        (('0' as int) + v - 52) as char
    } else if v == 62 {
        '+'
    } else {
        '/'
    }
}

/// The standard (padded) base64 text of a byte sequence: every group of
/// three bytes becomes four characters of six bits each; a final group of
/// one or two bytes is zero-filled and padded with `=` to four characters.
pub open spec fn base64_standard(bytes: Seq<u8>) -> Seq<char>
    decreases bytes.len(),
{
    if bytes.len() == 0 {
        Seq::empty()
    } else if bytes.len() == 1 {
        let a = bytes[0] as int;
        seq![b64_digit(a / 4), b64_digit((a % 4) * 16), '=', '=']
    } else if bytes.len() == 2 {
        let a = bytes[0] as int;
        let b = bytes[1] as int;
        seq![b64_digit(a / 4), b64_digit((a % 4) * 16 + b / 16), b64_digit((b % 16) * 4), '=']
    } else {
        let a = bytes[0] as int;
        let b = bytes[1] as int;
        let c = bytes[2] as int;
        seq![
            b64_digit(a / 4),
            b64_digit((a % 4) * 16 + b / 16),
            b64_digit((b % 16) * 4 + c / 64),
            b64_digit(c % 64),
        ] + base64_standard(bytes.subrange(3, bytes.len() as int))
    }
}

/// Calls `base64::engine::general_purpose::STANDARD.encode`, the standard
/// alphabet with `=` padding, whose output the spec above spells out.
#[verifier::external_body]
fn encode_base64(bytes: &[u8]) -> (s: String)
    ensures
        s@ == base64_standard(bytes@),
{
    base64::engine::general_purpose::STANDARD.encode(bytes)
}

pub open spec fn data_prefix() -> Seq<char> {
    seq!['d', 'a', 't', 'a', ':']
}

pub open spec fn base64_marker() -> Seq<char> {
    seq![';', 'b', 'a', 's', 'e', '6', '4', ',']
}

/// `data:<mime>;base64,<standard base64 of the bytes>`.
pub fn bytes_to_data_uri(bytes: &[u8]) -> (uri: String)
    ensures
        uri@ == data_prefix() + mime_of(bytes@) + base64_marker() + base64_standard(bytes@),
{
    let mime = sniff_mime(bytes);
    let b64 = encode_base64(bytes);
    let mut out = String::new();
    proof {
        reveal_strlit("data:");
        reveal_strlit(";base64,");
    }
    push_str(&mut out, "data:");
    push_str(&mut out, mime);
    push_str(&mut out, ";base64,");
    push_str(&mut out, b64.as_str());
    out
}

} // verus!
