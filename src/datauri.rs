//! Image files handed to the front end as `data:` URIs.

use vstd::prelude::*;
use crate::text::{ends_with, has_suffix};

verus! {

/// The standard base64 alphabet, digit value `v` at position `v`.
pub open spec fn alphabet() -> Seq<char> {
    "ABCDEFGHIJKLMNOPQRSTUVWXYZabcdefghijklmnopqrstuvwxyz0123456789+/"@
}

/// The four characters that encode up to three bytes; a group of fewer
/// than three bytes is padded with `=`.
pub open spec fn encode_group(s: Seq<u8>) -> Seq<char> {
    let b0 = s[0] as int;
    let b1 = if s.len() > 1 { s[1] as int } else { 0 };
    let b2 = if s.len() > 2 { s[2] as int } else { 0 };
    seq![
        alphabet()[b0 / 4],
        alphabet()[(b0 % 4) * 16 + b1 / 16],
        if s.len() > 1 { alphabet()[(b1 % 16) * 4 + b2 / 64] } else { '=' },
        if s.len() > 2 { alphabet()[b2 % 64] } else { '=' },
    ]
}

/// Base64 (standard alphabet, with padding) of a byte sequence.
pub open spec fn base64_spec(s: Seq<u8>) -> Seq<char>
    decreases s.len(),
{
    if s.len() == 0 {
        Seq::empty()
    } else if s.len() <= 3 {
        encode_group(s)
    } else {
        encode_group(s.take(3)) + base64_spec(s.skip(3))
    }
}

/// The MIME type of an image file, from its extension.
pub open spec fn image_mime_spec(name: Seq<char>) -> Seq<char> {
    if has_suffix(name, ".png"@) {
        "image/png"@
    } else if has_suffix(name, ".jpg"@) || has_suffix(name, ".jpeg"@) {
        "image/jpeg"@
    } else if has_suffix(name, ".gif"@) {
        "image/gif"@
    } else if has_suffix(name, ".webp"@) {
        "image/webp"@
    } else {
        "application/octet-stream"@
    }
}

pub open spec fn data_uri_spec(name: Seq<char>, bytes: Seq<u8>) -> Seq<char> {
    "data:"@ + image_mime_spec(name) + ";base64,"@ + base64_spec(bytes)
}

/// `image/png`, `image/jpeg`, `image/gif` or `image/webp` by extension,
/// `application/octet-stream` for anything else.
pub fn image_mime_type(name: &str) -> (r: &'static str)
    ensures
        r@ == image_mime_spec(name@),
{
    if ends_with(name, ".png") {
        "image/png"
    } else if ends_with(name, ".jpg") || ends_with(name, ".jpeg") {
        "image/jpeg"
    } else if ends_with(name, ".gif") {
        "image/gif"
    } else if ends_with(name, ".webp") {
        "image/webp"
    } else {
        "application/octet-stream"
    }
}

fn digit(v: u32) -> (r: &'static str)
    requires
        v < 64,
    ensures
        r@ == seq![alphabet()[v as int]],
{
    let a = "ABCDEFGHIJKLMNOPQRSTUVWXYZabcdefghijklmnopqrstuvwxyz0123456789+/";
    proof {
        reveal_strlit("ABCDEFGHIJKLMNOPQRSTUVWXYZabcdefghijklmnopqrstuvwxyz0123456789+/");
    }
    let d = a.substring_char(v as usize, v as usize + 1);
    assert(d@ =~= seq![alphabet()[v as int]]);
    d
}

/// Base64 of `bytes`, standard alphabet, padded with `=`.
pub fn base64_encode(bytes: &Vec<u8>) -> (r: String)
    ensures
        r@ == base64_spec(bytes@),
{
    let n = bytes.len();
    let mut r = String::new();
    let mut i: usize = 0;
    assert(bytes@.subrange(0, n as int) =~= bytes@);
    assert(r@ + base64_spec(bytes@) =~= base64_spec(bytes@));
    while i < n
        invariant
            n == bytes@.len(),
            i <= n,
            r@ + base64_spec(bytes@.subrange(i as int, n as int)) == base64_spec(bytes@),
        decreases n - i,
    {
        let ghost rest = bytes@.subrange(i as int, n as int);
        let ghost old_r = r@;
        let left = n - i;
        let b0 = bytes[i] as u32;
        let b1: u32 = if left > 1 { bytes[i + 1] as u32 } else { 0 };
        let b2: u32 = if left > 2 { bytes[i + 2] as u32 } else { 0 };
        let c0 = digit(b0 / 4);
        let c1 = digit((b0 % 4) * 16 + b1 / 16);
        let c2: &str = if left > 1 { digit((b1 % 16) * 4 + b2 / 64) } else { "=" };
        let c3: &str = if left > 2 { digit(b2 % 64) } else { "=" };
        r.append(c0);
        r.append(c1);
        r.append(c2);
        r.append(c3);
        let step: usize = if left > 3 { 3 } else { left };
        proof {
            let g = if rest.len() <= 3 { rest } else { rest.take(3) };
            assert(g.len() == step);
            assert(g[0] == bytes@[i as int]);
            if left > 1 {
                assert(g[1] == bytes@[i + 1]);
            }
            if left > 2 {
                assert(g[2] == bytes@[i + 2]);
            }
            let eg = encode_group(g);
            assert(c0@ =~= seq![eg[0]]);
            assert(c1@ =~= seq![eg[1]]);
            reveal_strlit("=");
            reveal_strlit("ABCDEFGHIJKLMNOPQRSTUVWXYZabcdefghijklmnopqrstuvwxyz0123456789+/");
            assert("="@ =~= seq!['=']);
            if left > 1 {
                assert(eg[2] == alphabet()[((b1 % 16) * 4 + b2 / 64) as int]);
            }
            assert(c2@ =~= seq![eg[2]]);
            if left > 2 {
                assert(eg[3] == alphabet()[(b2 % 64) as int]);
            }
            assert(c3@ =~= seq![eg[3]]);
            assert(r@ =~= old_r + eg);
            if rest.len() > 3 {
                assert(rest.skip(3) =~= bytes@.subrange(i + 3, n as int));
            } else {
                assert(bytes@.subrange(n as int, n as int) =~= Seq::<u8>::empty());
            }
            assert(old_r + base64_spec(rest) == base64_spec(bytes@));
            assert(base64_spec(rest) == encode_group(g) + base64_spec(bytes@.subrange(i + step, n as int)));
            assert(old_r + encode_group(g) + base64_spec(bytes@.subrange(i + step, n as int)) =~= old_r + (encode_group(g) + base64_spec(bytes@.subrange(i + step, n as int))));
        }
        i = i + step;
    }
    assert(bytes@.subrange(n as int, n as int) =~= Seq::<u8>::empty());
    assert(r@ + Seq::<char>::empty() =~= r@);
    r
}

/// The `data:<mime>;base64,<payload>` URI of an image file's bytes, the
/// MIME type coming from the file name's extension.
pub fn image_data_uri(name: &str, bytes: &Vec<u8>) -> (r: String)
    ensures
        r@ == data_uri_spec(name@, bytes@),
{
    let mut r = "data:".to_string();
    r.append(image_mime_type(name));
    r.append(";base64,");
    let payload = base64_encode(bytes);
    r.append(payload.as_str());
    r
}

} // verus!
