//! Escaping text for JSON string literals and for URLs, and decoding URL
//! escapes.
use vstd::prelude::*;
use vstd::utf8::{decode_utf8, encode_utf8, is_ascii_chars, valid_utf8};
use crate::custom::index_of;
use crate::json::{
    byte_walk, hex_digit, json_value_start, radix16, scan_string, spec_json_string, spec_json_string_panics, unescape,
    unicode_escape, JsonScan, prepend,
};
use crate::normalize::char_width;
use crate::text::{chars_of, find, find_from, lead, matches_at, push_char, CharSet};

verus! {

// ---------------------------------------------------------------------------
// Hexadecimal digits
// ---------------------------------------------------------------------------

/// The lower-case hexadecimal digit for `d`.
pub open spec fn hex_lower(d: nat) -> char {
    if d == 0 { '0' } else if d == 1 { '1' } else if d == 2 { '2' } else if d == 3 { '3' }
    else if d == 4 { '4' } else if d == 5 { '5' } else if d == 6 { '6' } else if d == 7 { '7' }
    else if d == 8 { '8' } else if d == 9 { '9' } else if d == 10 { 'a' } else if d == 11 { 'b' }
    else if d == 12 { 'c' } else if d == 13 { 'd' } else if d == 14 { 'e' } else { 'f' }
}

/// The upper-case hexadecimal digit for `d`.
pub open spec fn hex_upper(d: nat) -> char {
    if d == 0 { '0' } else if d == 1 { '1' } else if d == 2 { '2' } else if d == 3 { '3' }
    else if d == 4 { '4' } else if d == 5 { '5' } else if d == 6 { '6' } else if d == 7 { '7' }
    else if d == 8 { '8' } else if d == 9 { '9' } else if d == 10 { 'A' } else if d == 11 { 'B' }
    else if d == 12 { 'C' } else if d == 13 { 'D' } else if d == 14 { 'E' } else { 'F' }
}

fn hex_char(d: u32, upper: bool) -> (c: char)
    requires
        d < 16,
    ensures
        upper ==> c == hex_upper(d as nat),
        !upper ==> c == hex_lower(d as nat),
{
    if d < 10 {
        if d == 0 { '0' } else if d == 1 { '1' } else if d == 2 { '2' } else if d == 3 { '3' }
        else if d == 4 { '4' } else if d == 5 { '5' } else if d == 6 { '6' } else if d == 7 { '7' }
        else if d == 8 { '8' } else { '9' }
    } else if upper {
        if d == 10 { 'A' } else if d == 11 { 'B' } else if d == 12 { 'C' } else if d == 13 { 'D' }
        else if d == 14 { 'E' } else { 'F' }
    } else {
        if d == 10 { 'a' } else if d == 11 { 'b' } else if d == 12 { 'c' } else if d == 13 { 'd' }
        else if d == 14 { 'e' } else { 'f' }
    }
}

/// The lower-case hexadecimal digit for `d`.
pub fn hex_digit_char(d: u32) -> (c: char)
    requires
        d < 16,
    ensures
        c == hex_lower(d as nat),
{
    hex_char(d, false)
}

/// The upper-case hexadecimal digit for `d`.
pub fn hex_upper_char(d: u32) -> (c: char)
    requires
        d < 16,
    ensures
        c == hex_upper(d as nat),
{
    hex_char(d, true)
}

pub proof fn lemma_hex_lower(d: nat)
    requires
        d < 16,
    ensures
        hex_digit(hex_lower(d)) == Some(d),
        char_width(hex_lower(d)) == 1,
        hex_lower(d) != '+',
{
}

pub proof fn lemma_hex_upper(d: nat)
    requires
        d < 16,
    ensures
        hex_digit(hex_upper(d)) == Some(d),
        (hex_upper(d) as u32) < 0x80,
        hex_upper(d) != '+',
        hex_upper(d) != '%',
{
}

// ---------------------------------------------------------------------------
// JSON string literals
// ---------------------------------------------------------------------------

/// How one character is written inside a JSON string literal.
pub open spec fn escape_char(c: char) -> Seq<char> {
    if c == '"' {
        seq!['\\', '"']
    } else if c == '\\' {
        seq!['\\', '\\']
    } else if c == '\n' {
        seq!['\\', 'n']
    } else if c == '\r' {
        seq!['\\', 'r']
    } else if c == '\t' {
        seq!['\\', 't']
    } else if (c as u32) < 0x20 {
        seq!['\\', 'u', '0', '0', hex_lower((c as u32 / 16) as nat), hex_lower((c as u32 % 16) as nat)]
    } else {
        seq![c]
    }
}

/// `text` written as the inside of a JSON string literal.
pub open spec fn spec_json_escape(text: Seq<char>) -> Seq<char>
    decreases text.len(),
{
    if text.len() == 0 {
        seq![]
    } else {
        escape_char(text[0]) + spec_json_escape(text.drop_first())
    }
}

proof fn lemma_json_escape_push(text: Seq<char>, c: char)
    ensures
        spec_json_escape(text.push(c)) == spec_json_escape(text) + escape_char(c),
    decreases text.len(),
{
    if text.len() == 0 {
        assert(text.push(c).drop_first() =~= text);
        assert(text.push(c)[0] == c);
        assert(spec_json_escape(text) =~= Seq::<char>::empty());
        assert(spec_json_escape(text.push(c)) =~= escape_char(c));
    } else {
        assert(text.push(c).drop_first() =~= text.drop_first().push(c));
        lemma_json_escape_push(text.drop_first(), c);
        assert(spec_json_escape(text.push(c)) =~= escape_char(text[0]) + (spec_json_escape(
            text.drop_first(),
        ) + escape_char(c)));
    }
}

fn push_escaped(out: &mut String, c: char)
    ensures
        final(out)@ == old(out)@ + escape_char(c),
{
    let ghost before = out@;
    if c == '"' {
        push_char(out, '\\');
        push_char(out, '"');
    } else if c == '\\' {
        push_char(out, '\\');
        push_char(out, '\\');
    } else if c == '\n' {
        push_char(out, '\\');
        push_char(out, 'n');
    } else if c == '\r' {
        push_char(out, '\\');
        push_char(out, 'r');
    } else if c == '\t' {
        push_char(out, '\\');
        push_char(out, 't');
    } else if (c as u32) < 0x20 {
        let code = c as u32;
        push_char(out, '\\');
        push_char(out, 'u');
        push_char(out, '0');
        push_char(out, '0');
        push_char(out, hex_char(code / 16, false));
        push_char(out, hex_char(code % 16, false));
    } else {
        push_char(out, c);
    }
    assert(out@ =~= before + escape_char(c));
}

/// `text` written as the inside of a JSON string literal: quotes,
/// backslashes, line feeds, carriage returns and tabs get a backslash, other
/// control characters a `\u00XX` escape.
pub fn json_escape(text: &str) -> (r: String)
    ensures
        r@ == spec_json_escape(text@),
{
    let v = chars_of(text);
    let mut out = String::new();
    let mut i: usize = 0;
    while i < v.len()
        invariant
            i <= v.len(),
            out@ == spec_json_escape(v@.take(i as int)),
        decreases v.len() - i,
    {
        proof {
            lemma_json_escape_push(v@.take(i as int), v@[i as int]);
            assert(v@.take(i + 1) =~= v@.take(i as int).push(v@[i as int]));
        }
        push_escaped(&mut out, v[i]);
        i += 1;
    }
    assert(v@.take(v.len() as int) =~= v@);
    out
}

proof fn lemma_escape_char_scan(c: char, rest: Seq<char>)
    ensures
        scan_string(escape_char(c) + rest) == prepend(seq![c], scan_string(rest)),
{
    let e = escape_char(c);
    let s = e + rest;
    if c == '"' || c == '\\' || c == '\n' || c == '\r' || c == '\t' {
        assert(s.skip(2) =~= rest);
        assert(unescape(s[1]) == c);
    } else if (c as u32) < 0x20 {
        let hi = (c as u32 / 16) as nat;
        let lo = (c as u32 % 16) as nat;
        lemma_hex_lower(hi);
        lemma_hex_lower(lo);
        let t = s.skip(2);
        let w = seq!['0', '0', hex_lower(hi), hex_lower(lo)];
        assert(t =~= w + rest);
        assert(t.take(4) =~= w);
        assert(t.skip(4) =~= rest);
        assert(byte_walk(t, 4) == (4nat, 4nat)) by {
            let t1 = t.drop_first();
            let t2 = t1.drop_first();
            let t3 = t2.drop_first();
            let t4 = t3.drop_first();
            assert(t1[0] == '0' && t2[0] == hex_lower(hi) && t3[0] == hex_lower(lo));
            assert(byte_walk(t4, 0) == (0nat, 0nat));
            assert(byte_walk(t3, 1) == (1nat, 1nat));
            assert(byte_walk(t2, 2) == (2nat, 2nat));
            assert(byte_walk(t1, 3) == (3nat, 3nat));
        }
        assert(w.drop_last().drop_last() =~= seq!['0', '0']);
        assert(w.drop_last() =~= seq!['0', '0', hex_lower(hi)]);
        assert(seq!['0', '0'].drop_last() =~= seq!['0']);
        assert(seq!['0'].drop_last() =~= Seq::<char>::empty());
        assert(crate::json::hex_digits_value(Seq::<char>::empty()) == Some(0nat));
        assert(crate::json::hex_digits_value(seq!['0']) == Some(0nat));
        assert(crate::json::hex_digits_value(seq!['0', '0']) == Some(0nat));
        assert(crate::json::hex_digits_value(seq!['0', '0', hex_lower(hi)]) == Some(hi));
        assert(crate::json::hex_digits_value(w) == Some((16 * hi + lo) as nat));
        assert(radix16(w) == Some((16 * hi + lo) as nat));
        assert(16 * hi + lo == c as u32) by {
            assert(c as u32 == 16 * (c as u32 / 16) + c as u32 % 16);
        }
        vstd::utf8::char_u32_cast(c, c as u32);
        assert(unicode_escape(w) =~= seq![c]);
    } else {
        assert(s.drop_first() =~= rest);
    }
}

/// Law: reading back a JSON string literal gives what was escaped, whatever
/// follows its closing quote.
pub proof fn json_escape_read_back(text: Seq<char>, rest: Seq<char>)
    ensures
        scan_string(spec_json_escape(text) + seq!['"'] + rest) == JsonScan::Done(text),
    decreases text.len(),
{
    if text.len() == 0 {
        assert(spec_json_escape(text) + seq!['"'] + rest =~= seq!['"'] + rest);
        assert(text =~= Seq::<char>::empty());
        assert((seq!['"'] + rest)[0] == '"');
    } else {
        let tail = spec_json_escape(text.drop_first()) + seq!['"'] + rest;
        assert(spec_json_escape(text) + seq!['"'] + rest =~= escape_char(text[0]) + tail);
        lemma_escape_char_scan(text[0], tail);
        json_escape_read_back(text.drop_first(), rest);
        assert(seq![text[0]] + text.drop_first() =~= text);
        assert(prepend(seq![text[0]], scan_string(tail)) == JsonScan::Done(
            seq![text[0]] + text.drop_first(),
        ));
    }
}

/// The request body `{"key":"…"}` whose one field holds `text` written as a
/// JSON string literal.
pub open spec fn one_field_body(key: Seq<char>, text: Seq<char>) -> Seq<char> {
    seq!['{', '"'] + key + seq!['"', ':', '"'] + spec_json_escape(text) + seq!['"', '}']
}

/// Law: reading the string field `key` of the body `{"key":"…"}`, whose
/// value was written with `json_escape`, gives back the text that was
/// escaped, and the reader never meets a cut escape there.
pub proof fn json_string_reads_back(key: Seq<char>, text: Seq<char>)
    ensures
        spec_json_string(one_field_body(key, text), key) == Some(text),
        !spec_json_string_panics(one_field_body(key, text), key),
{
    let body = one_field_body(key, text);
    let marker = seq!['"'] + key + seq!['"'];
    let n = key.len() as int;
    assert(body[0] == '{');
    assert(!matches_at(body, marker, 0)) by {
        if matches_at(body, marker, 0) {
            assert(body.subrange(0, marker.len() as int)[0] == body[0]);
        }
    }
    assert(body.subrange(1, 1 + marker.len() as int) =~= marker);
    assert(matches_at(body, marker, 1));
    assert(find_from(body, marker, 1) == Some(1int));
    assert(find(body, marker) == Some(1int));
    let i: int = 1 + marker.len() as int;
    assert(body.skip(i)[0] == ':');
    assert(index_of(body.skip(i), ':') == Some(0int));
    let j: int = i + 1;
    assert(body.skip(j)[0] == '"');
    assert(lead(body.skip(j), CharSet::Whitespace) == 0);
    assert(json_value_start(body, key) == Some(j));
    assert(j == n + 4);
    assert(body[j] == '"');
    assert(body.skip(j + 1) =~= spec_json_escape(text) + seq!['"'] + seq!['}']);
    json_escape_read_back(text, seq!['}']);
}

// ---------------------------------------------------------------------------
// URLs
// ---------------------------------------------------------------------------

/// Bytes that stand for themselves in a URL: ASCII letters and digits, `-`,
/// `_` and `.`.
pub open spec fn is_unreserved(b: u8) -> bool {
    (0x30 <= b <= 0x39) || (0x41 <= b <= 0x5a) || (0x61 <= b <= 0x7a) || b == 0x2d || b == 0x5f
        || b == 0x2e
}

/// How one byte is written in a URL.
pub open spec fn encode_byte(b: u8) -> Seq<char> {
    if is_unreserved(b) {
        seq![(b as u32) as char]
    } else {
        seq!['%', hex_upper((b / 16) as nat), hex_upper((b % 16) as nat)]
    }
}

/// Bytes written in a URL, one after the other.
pub open spec fn url_encode_bytes(bytes: Seq<u8>) -> Seq<char>
    decreases bytes.len(),
{
    if bytes.len() == 0 {
        seq![]
    } else {
        encode_byte(bytes[0]) + url_encode_bytes(bytes.drop_first())
    }
}

/// `text` written in a URL: its UTF-8 bytes, each unreserved one as itself,
/// the others as `%` and two upper-case hexadecimal digits.
pub open spec fn spec_url_encode(text: Seq<char>) -> Seq<char> {
    url_encode_bytes(encode_utf8(text))
}

proof fn lemma_url_encode_push(bytes: Seq<u8>, b: u8)
    ensures
        url_encode_bytes(bytes.push(b)) == url_encode_bytes(bytes) + encode_byte(b),
    decreases bytes.len(),
{
    if bytes.len() == 0 {
        assert(bytes.push(b).drop_first() =~= bytes);
        assert(bytes.push(b)[0] == b);
        assert(url_encode_bytes(bytes) =~= Seq::<char>::empty());
        assert(url_encode_bytes(bytes.push(b)) =~= encode_byte(b));
    } else {
        assert(bytes.push(b).drop_first() =~= bytes.drop_first().push(b));
        lemma_url_encode_push(bytes.drop_first(), b);
        assert(url_encode_bytes(bytes.push(b)) =~= encode_byte(bytes[0]) + (url_encode_bytes(
            bytes.drop_first(),
        ) + encode_byte(b)));
    }
}

fn is_unreserved_byte(b: u8) -> (r: bool)
    ensures
        r == is_unreserved(b),
{
    (0x30 <= b && b <= 0x39) || (0x41 <= b && b <= 0x5a) || (0x61 <= b && b <= 0x7a) || b == 0x2d
        || b == 0x5f || b == 0x2e
}

fn ascii_char(b: u8) -> (c: char)
    requires
        b < 0x80,
    ensures
        c == (b as u32) as char,
        (c as u32) == b as u32,
{
    b as char
}

/// `text` written in a URL: each UTF-8 byte that is an ASCII letter or
/// digit, `-`, `_` or `.` stands for itself, every other byte is written as
/// `%XX`.
pub fn url_encode(text: &str) -> (r: String)
    ensures
        r@ == spec_url_encode(text@),
{
    let bytes = text.as_bytes_vec();
    let mut out = String::new();
    let mut i: usize = 0;
    while i < bytes.len()
        invariant
            i <= bytes.len(),
            bytes@ == encode_utf8(text@),
            out@ == url_encode_bytes(bytes@.take(i as int)),
        decreases bytes.len() - i,
    {
        let b = bytes[i];
        let ghost before = out@;
        proof {
            lemma_url_encode_push(bytes@.take(i as int), b);
            assert(bytes@.take(i + 1) =~= bytes@.take(i as int).push(b));
        }
        if is_unreserved_byte(b) {
            push_char(&mut out, ascii_char(b));
        } else {
            push_char(&mut out, '%');
            push_char(&mut out, hex_char((b / 16) as u32, true));
            push_char(&mut out, hex_char((b % 16) as u32, true));
        }
        assert(out@ =~= before + encode_byte(b));
        i += 1;
    }
    assert(bytes@.take(bytes.len() as int) =~= bytes@);
    out
}

/// The bytes of a URL component after decoding: `%XX` gives the byte with
/// that hexadecimal value, `+` a space; a `%` whose two next bytes are not a
/// hexadecimal number stays, and those two bytes are dropped.
pub open spec fn url_decode_bytes(b: Seq<u8>) -> Seq<u8>
    decreases b.len(),
{
    if b.len() == 0 {
        seq![]
    } else if b[0] == 0x25 {
        if b.len() >= 3 {
            match radix16(seq![(b[1] as u32) as char, (b[2] as u32) as char]) {
                Some(v) => seq![v as u8] + url_decode_bytes(b.skip(3)),
                None => seq![0x25u8] + url_decode_bytes(b.skip(3)),
            }
        } else {
            seq![0x25u8]
        }
    } else if b[0] == 0x2b {
        seq![0x20u8] + url_decode_bytes(b.drop_first())
    } else {
        seq![b[0]] + url_decode_bytes(b.drop_first())
    }
}

/// The characters of `bytes`, each byte taken as a character.
fn two_char_vec(a: u8, b: u8) -> (v: Vec<char>)
    ensures
        v@ == seq![(a as u32) as char, (b as u32) as char],
{
    let mut v: Vec<char> = Vec::new();
    v.push(latin1_char(a));
    v.push(latin1_char(b));
    v
}

fn latin1_char(b: u8) -> (c: char)
    ensures
        c == (b as u32) as char,
{
    b as char
}

/// Decodes the `%XX` and `+` escapes of a URL component into bytes.
pub fn url_decode_to_bytes(text: &str) -> (r: Vec<u8>)
    ensures
        r@ == url_decode_bytes(encode_utf8(text@)),
{
    let src = text.as_bytes_vec();
    let mut out: Vec<u8> = Vec::new();
    let mut i: usize = 0;
    assert(src@.skip(0) =~= src@);
    assert(out@ + url_decode_bytes(src@) =~= url_decode_bytes(src@));
    while i < src.len()
        invariant
            i <= src.len(),
            src@ == encode_utf8(text@),
            out@ + url_decode_bytes(src@.skip(i as int)) == url_decode_bytes(src@),
        decreases src.len() - i,
    {
        let ghost s = src@.skip(i as int);
        let ghost before = out@;
        assert(s[0] == src@[i as int]);
        let byte = src[i];
        if byte == 0x25 {
            if src.len() - i > 2 {
                assert(s[1] == src@[i + 1] && s[2] == src@[i + 2]);
                assert(s.skip(3) =~= src@.skip(i + 3));
                let pair = two_char_vec(src[i + 1], src[i + 2]);
                match crate::json::parse_radix16(&pair) {
                    Some(value) => {
                        out.push(value as u8);
                    },
                    None => {
                        out.push(0x25);
                    },
                }
                assert(before + url_decode_bytes(s) =~= out@ + url_decode_bytes(src@.skip(i + 3)));
                i += 3;
            } else {
                out.push(0x25);
                assert(before + url_decode_bytes(s) =~= out@);
                assert(out@ + url_decode_bytes(src@.skip(src.len() as int)) =~= out@);
                i = src.len();
            }
        } else {
            if byte == 0x2b {
                out.push(0x20);
            } else {
                out.push(byte);
            }
            assert(s.drop_first() =~= src@.skip(i + 1));
            assert(before + url_decode_bytes(s) =~= out@ + url_decode_bytes(src@.skip(i + 1)));
            i += 1;
        }
    }
    assert(src@.skip(0) =~= src@);
    assert(out@ + url_decode_bytes(src@.skip(src.len() as int)) =~= out@);
    out
}

/// What `String::from_utf8_lossy` makes of `bytes`.
pub uninterp spec fn utf8_lossy(bytes: Seq<u8>) -> Seq<char>;

/// Calls `String::from_utf8_lossy`, which decodes UTF-8 and puts U+FFFD in
/// place of each invalid sequence; on valid UTF-8 it is the plain decoding.
/// What it gives on invalid input is left to the name.
#[verifier::external_body]
pub(crate) fn from_utf8_lossy(bytes: &Vec<u8>) -> (r: String)
    ensures
        r@ == utf8_lossy(bytes@),
        valid_utf8(bytes@) ==> r@ == decode_utf8(bytes@),
{
    String::from_utf8_lossy(bytes.as_slice()).into_owned()
}

/// Decodes a URL component: `%XX` escapes and `+` give bytes, which are
/// read as UTF-8 with U+FFFD in place of invalid sequences.
pub fn url_decode(text: &str) -> (r: String)
    ensures
        r@ == utf8_lossy(url_decode_bytes(encode_utf8(text@))),
        valid_utf8(url_decode_bytes(encode_utf8(text@))) ==> r@ == decode_utf8(
            url_decode_bytes(encode_utf8(text@)),
        ),
{
    let bytes = url_decode_to_bytes(text);
    from_utf8_lossy(&bytes)
}

/// The bytes of ASCII characters.
pub open spec fn ascii_bytes(s: Seq<char>) -> Seq<u8> {
    Seq::new(s.len(), |i: int| s[i] as u8)
}

proof fn lemma_encode_byte_ascii(b: u8)
    ensures
        is_ascii_chars(encode_byte(b)),
        forall|i: int| 0 <= i < encode_byte(b).len() ==> ((encode_byte(b)[i] as u32) as u8) as u32
            == encode_byte(b)[i] as u32,
{
    lemma_hex_upper((b / 16) as nat);
    lemma_hex_upper((b % 16) as nat);
}

proof fn lemma_url_encode_ascii(bytes: Seq<u8>)
    ensures
        is_ascii_chars(url_encode_bytes(bytes)),
    decreases bytes.len(),
{
    if bytes.len() > 0 {
        lemma_encode_byte_ascii(bytes[0]);
        lemma_url_encode_ascii(bytes.drop_first());
        let a = encode_byte(bytes[0]);
        let r = url_encode_bytes(bytes.drop_first());
        assert forall|i: int| 0 <= i < (a + r).len() implies '\0' <= #[trigger] (a + r)[i] <= '\u{7f}' by {
            if i < a.len() {
                assert((a + r)[i] == a[i]);
            } else {
                assert((a + r)[i] == r[i - a.len()]);
            }
        }
    }
}

proof fn lemma_decode_encoded(bytes: Seq<u8>, rest: Seq<u8>)
    ensures
        url_decode_bytes(ascii_bytes(url_encode_bytes(bytes)) + rest) == bytes + url_decode_bytes(rest),
    decreases bytes.len(),
{
    if bytes.len() == 0 {
        assert(ascii_bytes(url_encode_bytes(bytes)) + rest =~= rest);
    } else {
        let b = bytes[0];
        let e = encode_byte(b);
        let tail = ascii_bytes(url_encode_bytes(bytes.drop_first())) + rest;
        lemma_decode_encoded(bytes.drop_first(), rest);
        assert(ascii_bytes(url_encode_bytes(bytes)) + rest =~= ascii_bytes(e) + tail);
        let s = ascii_bytes(e) + tail;
        if is_unreserved(b) {
            assert(s[0] == b);
            assert(s.drop_first() =~= tail);
        } else {
            let hi = (b / 16) as nat;
            let lo = (b % 16) as nat;
            lemma_hex_upper(hi);
            lemma_hex_upper(lo);
            assert(s[0] == 0x25u8);
            assert(s.skip(3) =~= tail);
            let h = hex_upper(hi);
            let l = hex_upper(lo);
            assert(s[1] == h as u8 && s[2] == l as u8);
            vstd::utf8::char_u32_cast(h, h as u32);
            vstd::utf8::char_u32_cast(l, l as u32);
            assert(((s[1] as u32) as char) == h);
            assert(((s[2] as u32) as char) == l);
            let w = seq![h, l];
            assert(w.drop_last() =~= seq![h]);
            assert(seq![h].drop_last() =~= Seq::<char>::empty());
            assert(crate::json::hex_digits_value(Seq::<char>::empty()) == Some(0nat));
            assert(crate::json::hex_digits_value(seq![h]) == Some(hi));
            assert(crate::json::hex_digits_value(w) == Some((16 * hi + lo) as nat));
            assert(radix16(w) == Some((16 * hi + lo) as nat));
            assert(16 * hi + lo == b);
        }
        assert(seq![b] + (bytes.drop_first() + url_decode_bytes(rest)) =~= bytes + url_decode_bytes(
            rest,
        ));
    }
}

/// Law: decoding what `url_encode` wrote gives back the text's UTF-8
/// bytes, which decode to the text itself.
pub proof fn url_encode_decode(text: Seq<char>)
    ensures
        url_decode_bytes(encode_utf8(spec_url_encode(text))) == encode_utf8(text),
        valid_utf8(encode_utf8(text)),
        decode_utf8(encode_utf8(text)) == text,
{
    let e = spec_url_encode(text);
    lemma_url_encode_ascii(encode_utf8(text));
    vstd::utf8::is_ascii_chars_encode_utf8(e);
    assert(encode_utf8(e) =~= ascii_bytes(e));
    lemma_decode_encoded(encode_utf8(text), seq![]);
    assert(encode_utf8(text) + Seq::<u8>::empty() =~= encode_utf8(text));
    assert(ascii_bytes(e) + Seq::<u8>::empty() =~= ascii_bytes(e));
    vstd::utf8::encode_utf8_valid_utf8(text);
    vstd::utf8::encode_utf8_decode_utf8(text);
}

} // verus!
