//! What the browser viewer embeds: Base64 (RFC 4648, with padding), the
//! media type of an image file read from its leading bytes, and the `data:`
//! URI made of the two.

use vstd::prelude::*;
use vstd::string::StringExecFns;

use crate::text::push_char;

verus! {

/// The Base64 alphabet: `A`–`Z`, `a`–`z`, `0`–`9`, `+`, `/` for the values 0 to 63.
pub open spec fn base64_char(v: int) -> char {
    if v < 26 {
        (65 + v) as char
    } else if v < 52 {
        (97 + (v - 26)) as char
    } else if v < 62 {
        (48 + (v - 52)) as char
    } else if v == 62 {
        '+'
    } else {
        '/'
    }
}

/// The four characters that encode a group of one to three bytes: the bytes'
/// bits read six at a time, zero-filled at the end, with one `=` for each
/// missing byte.
pub open spec fn encode_group(g: Seq<u8>) -> Seq<char> {
    let b0 = g[0] as int;
    let b1 = if g.len() > 1 { g[1] as int } else { 0 };
    let b2 = if g.len() > 2 { g[2] as int } else { 0 };
    seq![
        base64_char(b0 / 4),
        base64_char((b0 % 4) * 16 + b1 / 16),
        if g.len() > 1 { base64_char((b1 % 16) * 4 + b2 / 64) } else { '=' },
        if g.len() > 2 { base64_char(b2 % 64) } else { '=' },
    ]
}

/// Base64 of `data`: each group of three bytes, the last possibly shorter, as
/// four characters.
pub open spec fn base64_encode(data: Seq<u8>) -> Seq<char>
    decreases data.len(),
{
    if data.len() == 0 {
        seq![]
    } else if data.len() <= 3 {
        encode_group(data)
    } else {
        encode_group(data.take(3)) + base64_encode(data.skip(3))
    }
}

/// Base64 output is four characters for every started group of three bytes.
pub proof fn lemma_base64_length(data: Seq<u8>)
    ensures
        base64_encode(data).len() == 4 * ((data.len() + 2) / 3),
    decreases data.len(),
{
    if data.len() > 3 {
        lemma_base64_length(data.skip(3));
    }
}

/// Every character of Base64 output is of the alphabet or `=`, and `=` only
/// pads the end: it never comes before a character of the alphabet.
pub proof fn lemma_base64_padding_at_end(data: Seq<u8>, i: int, j: int)
    requires
        0 <= i < j < base64_encode(data).len(),
        base64_encode(data)[i] == '=',
    ensures
        base64_encode(data)[j] == '=',
    decreases data.len(),
{
    lemma_base64_length(data);
    if data.len() > 3 {
        let head = encode_group(data.take(3));
        assert(base64_encode(data) == head + base64_encode(data.skip(3)));
        if i < 4 {
            assert(head[i] != '=');
        } else {
            lemma_base64_padding_at_end(data.skip(3), i - 4, j - 4);
        }
    }
}

/// Base64 of a concatenation whose first part is whole groups of three bytes
/// is the concatenation of the two encodings.
pub proof fn lemma_base64_concat(x: Seq<u8>, y: Seq<u8>)
    requires
        x.len() % 3 == 0,
    ensures
        base64_encode(x + y) == base64_encode(x) + base64_encode(y),
    decreases x.len(),
{
    if x.len() == 0 {
        assert(x + y =~= y);
        assert(base64_encode(x) + base64_encode(y) =~= base64_encode(y));
    } else {
        let xy = x + y;
        lemma_base64_concat(x.skip(3), y);
        assert(xy.take(3) =~= x.take(3));
        assert(xy.skip(3) =~= x.skip(3) + y);
        if x.len() == 3 {
            assert(x.take(3) =~= x);
            assert(x.skip(3) =~= Seq::<u8>::empty());
            if y.len() == 0 {
                assert(xy =~= x);
                assert(base64_encode(x) + base64_encode(y) =~= base64_encode(x));
            } else {
                assert(base64_encode(x.skip(3)) =~= Seq::<char>::empty());
                assert(x.skip(3) + y =~= y);
            }
        } else {
            assert(base64_encode(x) == encode_group(x.take(3)) + base64_encode(x.skip(3)));
            assert(encode_group(x.take(3)) + (base64_encode(x.skip(3)) + base64_encode(y))
                =~= encode_group(x.take(3)) + base64_encode(x.skip(3)) + base64_encode(y));
        }
    }
}

/// The value 0 to 63 that a character of the Base64 alphabet stands for.
pub open spec fn base64_value(c: char) -> int {
    let n = c as int;
    if 65 <= n <= 90 {
        n - 65
    } else if 97 <= n <= 122 {
        n - 71
    } else if 48 <= n <= 57 {
        n + 4
    } else if c == '+' {
        62
    } else {
        63
    }
}

/// The bytes that a group of four Base64 characters stands for: three, or
/// fewer when the group ends in `=` padding.
pub open spec fn decode_group(g: Seq<char>) -> Seq<u8> {
    let v0 = base64_value(g[0]);
    let v1 = base64_value(g[1]);
    let v2 = if g[2] == '=' { 0 } else { base64_value(g[2]) };
    let v3 = if g[3] == '=' { 0 } else { base64_value(g[3]) };
    let b0 = (v0 * 4 + v1 / 16) as u8;
    let b1 = ((v1 % 16) * 16 + v2 / 4) as u8;
    let b2 = ((v2 % 4) * 64 + v3) as u8;
    if g[2] == '=' {
        seq![b0]
    } else if g[3] == '=' {
        seq![b0, b1]
    } else {
        seq![b0, b1, b2]
    }
}

/// Base64 decoding: each group of four characters back to its bytes.
pub open spec fn base64_decode(s: Seq<char>) -> Seq<u8>
    decreases s.len(),
{
    if s.len() < 4 {
        seq![]
    } else {
        decode_group(s.take(4)) + base64_decode(s.skip(4))
    }
}

proof fn lemma_base64_value_of_char(v: int)
    requires
        0 <= v < 64,
    ensures
        base64_value(base64_char(v)) == v,
        base64_char(v) != '=',
{
}

proof fn lemma_decode_encode_group(g: Seq<u8>)
    requires
        1 <= g.len() <= 3,
    ensures
        decode_group(encode_group(g)) == g,
{
    let b0 = g[0] as int;
    let b1 = if g.len() > 1 { g[1] as int } else { 0 };
    let b2 = if g.len() > 2 { g[2] as int } else { 0 };
    lemma_base64_value_of_char(b0 / 4);
    lemma_base64_value_of_char((b0 % 4) * 16 + b1 / 16);
    lemma_base64_value_of_char((b1 % 16) * 4 + b2 / 64);
    lemma_base64_value_of_char(b2 % 64);
    let e = encode_group(g);
    let d = decode_group(e);
    assert(d =~= g);
}

/// Decoding Base64 gives back the encoded bytes.
pub proof fn lemma_base64_roundtrip(data: Seq<u8>)
    ensures
        base64_decode(base64_encode(data)) == data,
    decreases data.len(),
{
    if data.len() == 0 {
    } else if data.len() <= 3 {
        let e = base64_encode(data);
        lemma_decode_encode_group(data);
        assert(e.take(4) =~= e);
        assert(e.skip(4) =~= Seq::<char>::empty());
        assert(base64_decode(e.skip(4)) =~= Seq::<u8>::empty());
        assert(decode_group(e) + Seq::<u8>::empty() =~= data);
    } else {
        let head = encode_group(data.take(3));
        let rest = base64_encode(data.skip(3));
        let e = head + rest;
        lemma_decode_encode_group(data.take(3));
        lemma_base64_roundtrip(data.skip(3));
        assert(e.take(4) =~= head);
        assert(e.skip(4) =~= rest);
        assert(data.take(3) + data.skip(3) =~= data);
    }
}

/// Different bytes never have the same Base64.
pub proof fn lemma_base64_injective(x: Seq<u8>, y: Seq<u8>)
    requires
        base64_encode(x) == base64_encode(y),
    ensures
        x == y,
{
    lemma_base64_roundtrip(x);
    lemma_base64_roundtrip(y);
}

/// A character of the standard Base64 alphabet `A`–`Z`, `a`–`z`, `0`–`9`, `+`, `/`.
pub open spec fn in_standard_alphabet(c: char) -> bool {
    ||| 'A' <= c <= 'Z'
    ||| 'a' <= c <= 'z'
    ||| '0' <= c <= '9'
    ||| c == '+'
    ||| c == '/'
}

/// The 64 values map one to one onto the standard alphabet, `+` for 62 and
/// `/` for 63.
pub proof fn lemma_base64_alphabet(v: int, w: int)
    requires
        0 <= v < 64,
        0 <= w < 64,
    ensures
        in_standard_alphabet(base64_char(v)),
        v != w ==> base64_char(v) != base64_char(w),
        base64_char(62) == '+',
        base64_char(63) == '/',
{
    lemma_base64_value_of_char(v);
    lemma_base64_value_of_char(w);
}

/// The standard Base64 alphabet in the order of the values 0 to 63.
pub const STANDARD_ALPHABET: &'static str = "ABCDEFGHIJKLMNOPQRSTUVWXYZabcdefghijklmnopqrstuvwxyz0123456789+/";

/// The character for value `v` is the `v`-th of the standard alphabet.
pub proof fn lemma_base64_char_is_standard(v: int)
    requires
        0 <= v < 64,
    ensures
        base64_char(v) == STANDARD_ALPHABET@[v],
{
    reveal_strlit("ABCDEFGHIJKLMNOPQRSTUVWXYZabcdefghijklmnopqrstuvwxyz0123456789+/");
}

/// Every character of Base64 output is of the standard alphabet or the `=` pad.
pub proof fn lemma_base64_output_chars(data: Seq<u8>)
    ensures
        forall|i: int|
            0 <= i < base64_encode(data).len() ==> in_standard_alphabet(
                #[trigger] base64_encode(data)[i],
            ) || base64_encode(data)[i] == '=',
    decreases data.len(),
{
    if data.len() > 0 {
        let g = if data.len() <= 3 { data } else { data.take(3) };
        let b0 = g[0] as int;
        let b1 = if g.len() > 1 { g[1] as int } else { 0 };
        let b2 = if g.len() > 2 { g[2] as int } else { 0 };
        lemma_base64_alphabet(b0 / 4, 0);
        lemma_base64_alphabet((b0 % 4) * 16 + b1 / 16, 0);
        lemma_base64_alphabet((b1 % 16) * 4 + b2 / 64, 0);
        lemma_base64_alphabet(b2 % 64, 0);
        let head = encode_group(g);
        assert(forall|i: int| 0 <= i < 4 ==> in_standard_alphabet(#[trigger] head[i]) || head[i] == '=');
        if data.len() > 3 {
            lemma_base64_output_chars(data.skip(3));
            let rest = base64_encode(data.skip(3));
            assert(base64_encode(data) == head + rest);
            assert forall|i: int| 0 <= i < base64_encode(data).len() implies in_standard_alphabet(
                #[trigger] base64_encode(data)[i],
            ) || base64_encode(data)[i] == '=' by {
                if i >= 4 {
                    assert(base64_encode(data)[i] == rest[i - 4]);
                }
            }
        }
    }
}

fn alphabet(v: u32) -> (c: char)
    requires
        v < 64,
    ensures
        c == base64_char(v as int),
{
    if v < 26 {
        ((65 + v) as u8) as char
    } else if v < 52 {
        ((97 + (v - 26)) as u8) as char
    } else if v < 62 {
        ((48 + (v - 52)) as u8) as char
    } else if v == 62 {
        '+'
    } else {
        '/'
    }
}

proof fn lemma_base64_step(data: Seq<u8>, i: int, j: int)
    requires
        0 <= i < j <= data.len(),
        j == if i + 3 <= data.len() { i + 3 } else { data.len() as int },
    ensures
        base64_encode(data.skip(i)) == encode_group(data.subrange(i, j)) + base64_encode(data.skip(j)),
{
    let rest = data.skip(i);
    if rest.len() <= 3 {
        assert(data.subrange(i, j) =~= rest);
        assert(data.skip(j) =~= Seq::<u8>::empty());
        assert(encode_group(rest) + Seq::<char>::empty() =~= encode_group(rest));
    } else {
        assert(rest.take(3) =~= data.subrange(i, j));
        assert(rest.skip(3) =~= data.skip(j));
    }
}

/// Standard Base64 encoding with `=` padding.
pub fn b64(data: &[u8]) -> (out: String)
    ensures
        out@ == base64_encode(data@),
        out@.len() == 4 * ((data@.len() + 2) / 3),
        forall|i: int| 0 <= i < out@.len() ==> in_standard_alphabet(#[trigger] out@[i]) || out@[i] == '=',
{
    let mut out = String::new();
    let len = data.len();
    let mut i: usize = 0;
    assert(data@.skip(0) =~= data@);
    while i < len
        invariant
            len == data@.len(),
            i <= len,
            out@ + base64_encode(data@.skip(i as int)) == base64_encode(data@),
        decreases len - i,
    {
        let rest = len - i;
        let next: usize = if rest < 3 { len } else { i + 3 };
        proof {
            lemma_base64_step(data@, i as int, next as int);
        }
        let b0 = data[i] as u32;
        let b1: u32 = if rest > 1 { data[i + 1] as u32 } else { 0 };
        let b2: u32 = if rest > 2 { data[i + 2] as u32 } else { 0 };
        let n: u32 = (b0 << 16) | (b1 << 8) | b2;
        assert((n >> 18) & 63 == b0 / 4 && (n >> 12) & 63 == (b0 % 4) * 16 + b1 / 16 && (n >> 6) & 63
            == (b1 % 16) * 4 + b2 / 64 && n & 63 == b2 % 64) by (bit_vector)
            requires
                b0 < 256,
                b1 < 256,
                b2 < 256,
                n == (b0 << 16) | (b1 << 8) | b2,
        ;
        let ghost before = out@;
        let ghost group = data@.subrange(i as int, next as int);
        push_char(&mut out, alphabet((n >> 18) & 63));
        push_char(&mut out, alphabet((n >> 12) & 63));
        push_char(&mut out, if rest > 1 { alphabet((n >> 6) & 63) } else { '=' });
        push_char(&mut out, if rest > 2 { alphabet(n & 63) } else { '=' });
        proof {
            assert(out@ =~= before + encode_group(group));
        }
        i = next;
    }
    proof {
        assert(data@.skip(len as int) =~= Seq::<u8>::empty());
        assert(out@ + Seq::<char>::empty() =~= out@);
        lemma_base64_length(data@);
        lemma_base64_output_chars(data@);
    }
    out
}


pub const MIME_PNG: &'static str = "image/png";
pub const MIME_JPEG: &'static str = "image/jpeg";
pub const MIME_GIF: &'static str = "image/gif";
pub const MIME_WEBP: &'static str = "image/webp";
pub const MIME_BMP: &'static str = "image/bmp";
pub const MIME_UNKNOWN: &'static str = "application/octet-stream";

/// `data` begins with the bytes of `prefix`.
pub open spec fn has_prefix(data: Seq<u8>, prefix: Seq<u8>) -> bool {
    prefix.len() <= data.len() && data.subrange(0, prefix.len() as int) == prefix
}

/// The media type of an image file, read from its signature: PNG, JPEG, GIF,
/// WebP (`RIFF` then `WEBP` at offset 8), BMP, else a generic byte stream.
pub open spec fn spec_sniff_mime(data: Seq<u8>) -> Seq<char> {
    if has_prefix(data, seq![0x89u8, 0x50u8, 0x4Eu8, 0x47u8]) {
        MIME_PNG@
    } else if has_prefix(data, seq![0xFFu8, 0xD8u8, 0xFFu8]) {
        MIME_JPEG@
    } else if has_prefix(data, seq![0x47u8, 0x49u8, 0x46u8, 0x38u8]) {
        MIME_GIF@
    } else if data.len() >= 12 && data.subrange(0, 4) == seq![0x52u8, 0x49u8, 0x46u8, 0x46u8]
        && data.subrange(8, 12) == seq![0x57u8, 0x45u8, 0x42u8, 0x50u8] {
        MIME_WEBP@
    } else if has_prefix(data, seq![0x42u8, 0x4Du8]) {
        MIME_BMP@
    } else {
        MIME_UNKNOWN@
    }
}

/// Whether `data[at..at + 4]` is `[p0, p1, p2, p3]`.
fn bytes4_at(data: &[u8], at: usize, p0: u8, p1: u8, p2: u8, p3: u8) -> (r: bool)
    requires
        at + 4 <= data@.len(),
    ensures
        r == (data@.subrange(at as int, at + 4) == seq![p0, p1, p2, p3]),
{
    let r = data[at] == p0 && data[at + 1] == p1 && data[at + 2] == p2 && data[at + 3] == p3;
    proof {
        if r {
            assert(data@.subrange(at as int, at + 4) =~= seq![p0, p1, p2, p3]);
        } else if data@.subrange(at as int, at + 4) == seq![p0, p1, p2, p3] {
            assert(data@.subrange(at as int, at + 4)[0] == p0);
            assert(data@.subrange(at as int, at + 4)[1] == p1);
            assert(data@.subrange(at as int, at + 4)[2] == p2);
            assert(data@.subrange(at as int, at + 4)[3] == p3);
        }
    }
    r
}

/// The media type of an image file, read from its leading bytes.
pub fn sniff_mime(data: &[u8]) -> (mime: &'static str)
    ensures
        mime@ == spec_sniff_mime(data@),
{
    let n = data.len();
    let png = n >= 4 && bytes4_at(data, 0, 0x89, 0x50, 0x4E, 0x47);
    let jpeg = n >= 3 && data[0] == 0xFF && data[1] == 0xD8 && data[2] == 0xFF;
    let gif = n >= 4 && bytes4_at(data, 0, 0x47, 0x49, 0x46, 0x38);
    let webp = n >= 12 && bytes4_at(data, 0, 0x52, 0x49, 0x46, 0x46) && bytes4_at(
        data,
        8,
        0x57,
        0x45,
        0x42,
        0x50,
    );
    let bmp = n >= 2 && data[0] == 0x42 && data[1] == 0x4D;
    proof {
        let d = data@;
        if jpeg {
            assert(d.subrange(0, 3) =~= seq![0xFFu8, 0xD8u8, 0xFFu8]);
        } else if n >= 3 && d.subrange(0, 3) == seq![0xFFu8, 0xD8u8, 0xFFu8] {
            assert(d.subrange(0, 3)[0] == 0xFF && d.subrange(0, 3)[1] == 0xD8 && d.subrange(0, 3)[2] == 0xFF);
        }
        if bmp {
            assert(d.subrange(0, 2) =~= seq![0x42u8, 0x4Du8]);
        } else if n >= 2 && d.subrange(0, 2) == seq![0x42u8, 0x4Du8] {
            assert(d.subrange(0, 2)[0] == 0x42 && d.subrange(0, 2)[1] == 0x4D);
        }
    }
    if png {
        MIME_PNG
    } else if jpeg {
        MIME_JPEG
    } else if gif {
        MIME_GIF
    } else if webp {
        MIME_WEBP
    } else if bmp {
        MIME_BMP
    } else {
        MIME_UNKNOWN
    }
}

/// A file whose bytes 0..4 are `RIFF` and bytes 8..12 are `WEBP` is WebP,
/// whatever its size field and whatever follows.
pub proof fn lemma_sniff_webp(data: Seq<u8>)
    requires
        data.len() >= 12,
        data[0] == 0x52 && data[1] == 0x49 && data[2] == 0x46 && data[3] == 0x46,
        data[8] == 0x57 && data[9] == 0x45 && data[10] == 0x42 && data[11] == 0x50,
    ensures
        spec_sniff_mime(data) == "image/webp"@,
{
    assert(data.subrange(0, 4) =~= seq![0x52u8, 0x49u8, 0x46u8, 0x46u8]);
    assert(data.subrange(8, 12) =~= seq![0x57u8, 0x45u8, 0x42u8, 0x50u8]);
    assert(!has_prefix(data, seq![0x89u8, 0x50u8, 0x4Eu8, 0x47u8])) by {
        assert(data.subrange(0, 4)[0] != 0x89u8);
    }
    assert(!has_prefix(data, seq![0xFFu8, 0xD8u8, 0xFFu8])) by {
        assert(data.subrange(0, 3)[0] != 0xFFu8);
    }
    assert(!has_prefix(data, seq![0x47u8, 0x49u8, 0x46u8, 0x38u8])) by {
        assert(data.subrange(0, 4)[0] != 0x47u8);
    }
}

/// A file that starts with the PNG signature bytes 89 50 4E 47 is PNG.
pub proof fn lemma_sniff_png(data: Seq<u8>)
    requires
        data.len() >= 4,
        data[0] == 0x89 && data[1] == 0x50 && data[2] == 0x4E && data[3] == 0x47,
    ensures
        spec_sniff_mime(data) == "image/png"@,
{
    assert(data.subrange(0, 4) =~= seq![0x89u8, 0x50u8, 0x4Eu8, 0x47u8]);
}

/// A file that starts with FF D8 FF is JPEG.
pub proof fn lemma_sniff_jpeg(data: Seq<u8>)
    requires
        data.len() >= 3,
        data[0] == 0xFF && data[1] == 0xD8 && data[2] == 0xFF,
    ensures
        spec_sniff_mime(data) == "image/jpeg"@,
{
    assert(data.subrange(0, 3) =~= seq![0xFFu8, 0xD8u8, 0xFFu8]);
    if data.len() >= 4 {
        assert(data.subrange(0, 4)[0] != 0x89u8);
    }
}

/// A file that starts with `GIF8` is GIF.
pub proof fn lemma_sniff_gif(data: Seq<u8>)
    requires
        data.len() >= 4,
        data[0] == 0x47 && data[1] == 0x49 && data[2] == 0x46 && data[3] == 0x38,
    ensures
        spec_sniff_mime(data) == "image/gif"@,
{
    assert(data.subrange(0, 4) =~= seq![0x47u8, 0x49u8, 0x46u8, 0x38u8]);
    assert(data.subrange(0, 4)[0] != 0x89u8);
    assert(data.subrange(0, 3)[0] != 0xFFu8);
}

/// A file that starts with `BM` is BMP.
pub proof fn lemma_sniff_bmp(data: Seq<u8>)
    requires
        data.len() >= 2,
        data[0] == 0x42 && data[1] == 0x4D,
    ensures
        spec_sniff_mime(data) == "image/bmp"@,
{
    assert(data.subrange(0, 2) =~= seq![0x42u8, 0x4Du8]);
    if data.len() >= 4 {
        assert(data.subrange(0, 4)[0] != 0x89u8);
        assert(data.subrange(0, 4)[0] != 0x47u8);
        assert(data.subrange(0, 4)[0] != 0x52u8);
    }
    if data.len() >= 3 {
        assert(data.subrange(0, 3)[0] != 0xFFu8);
    }
}

/// A file that starts with none of the signatures is a generic byte stream.
pub proof fn lemma_sniff_unknown(data: Seq<u8>)
    requires
        data.len() == 0 || (data[0] != 0x89 && data[0] != 0xFF && data[0] != 0x47 && data[0] != 0x52
            && data[0] != 0x42),
    ensures
        spec_sniff_mime(data) == "application/octet-stream"@,
{
    if data.len() >= 2 {
        assert(data.subrange(0, 2)[0] == data[0]);
    }
    if data.len() >= 3 {
        assert(data.subrange(0, 3)[0] == data[0]);
    }
    if data.len() >= 4 {
        assert(data.subrange(0, 4)[0] == data[0]);
    }
}

/// The `data:` URI of a file's bytes: its sniffed media type and its Base64.
pub open spec fn spec_data_uri(bytes: Seq<u8>) -> Seq<char> {
    "data:"@ + spec_sniff_mime(bytes) + ";base64,"@ + base64_encode(bytes)
}

/// A self-contained `data:` URI holding `bytes`.
pub fn data_uri(bytes: &[u8]) -> (uri: String)
    ensures
        uri@ == spec_data_uri(bytes@),
{
    let mut uri = String::from_str("data:");
    uri.append(sniff_mime(bytes));
    uri.append(";base64,");
    let encoded = b64(bytes);
    uri.append(encoded.as_str());
    uri
}
} // verus!
