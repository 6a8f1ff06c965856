//! Pieces of the local web server and the window: responses, download
//! names and types, file URLs, and the few settings of the window.
use vstd::prelude::*;
use vstd::utf8::encode_utf8;
use crate::decimal::{hexadecimal, hexadecimal4, push_hexadecimal, push_hexadecimal4};
use crate::escape::{hex_upper, lemma_hex_upper};
use crate::normalize::byte_len;
use crate::text::{
    chars_of, contains_seq, ends_with, is_alnum, is_cjk, owned, push_char, spec_is_alnum,
    spec_is_cjk, spec_is_control, spec_lower, strip, strip_chars, string_of, CharSet,
};

verus! {

// ---------------------------------------------------------------------------
// Responses
// ---------------------------------------------------------------------------

/// `text` as a response of type `mime`.
pub fn text(body: &str, mime: &'static str) -> (r: (u16, &'static str, Vec<u8>, Vec<String>))
    ensures
        r.0 == 200,
        r.1 == mime,
        r.2@ == encode_utf8(body@),
        r.3@.len() == 0,
{
    (200, mime, body.as_bytes_vec(), Vec::new())
}

/// An HTML page as a response.
pub fn html(body: &str) -> (r: (u16, &'static str, Vec<u8>, Vec<String>))
    ensures
        r.0 == 200,
        r.1@ == "text/html; charset=utf-8"@,
        r.2@ == encode_utf8(body@),
        r.3@.len() == 0,
{
    text(body, "text/html; charset=utf-8")
}

/// Bytes of type `mime` as a response.
pub fn binary(body: &[u8], mime: &'static str) -> (r: (u16, &'static str, Vec<u8>, Vec<String>))
    ensures
        r.0 == 200,
        r.1 == mime,
        r.2@ == body@,
        r.3@.len() == 0,
{
    let mut out: Vec<u8> = Vec::new();
    let mut i: usize = 0;
    while i < body.len()
        invariant
            i <= body@.len(),
            out@ == body@.take(i as int),
        decreases body@.len() - i,
    {
        out.push(body[i]);
        assert(body@.take(i + 1) =~= body@.take(i as int).push(body@[i as int]));
        i += 1;
    }
    assert(body@.take(body@.len() as int) =~= body@);
    (200, mime, out, Vec::new())
}

/// A JSON document as a response with `status`.
pub fn json(status: u16, body: String) -> (r: (u16, &'static str, Vec<u8>, Vec<String>))
    ensures
        r.0 == status,
        r.1@ == "application/json; charset=utf-8"@,
        r.2@ == encode_utf8(body@),
        r.3@.len() == 0,
{
    (status, "application/json; charset=utf-8", body.as_str().as_bytes_vec(), Vec::new())
}

// ---------------------------------------------------------------------------
// Downloads
// ---------------------------------------------------------------------------

/// The type of a download: a Word document for a `.docx` name in any
/// case, else PDF.
pub open spec fn spec_download_mime(filename: Seq<char>) -> Seq<char> {
    if ends_with(filename.map_values(|c: char| spec_lower(c)), ".docx"@) {
        "application/vnd.openxmlformats-officedocument.wordprocessingml.document"@
    } else {
        "application/pdf"@
    }
}

/// The content type of a download: Word for names ending in `.docx` (in any
/// case), PDF for every other.
pub fn download_mime(filename: &str) -> (r: &'static str)
    ensures
        r@ == spec_download_mime(filename@),
{
    let v = chars_of(filename);
    let lowered = crate::meaning::lower_chars(&v);
    if crate::text::chars_ends_with(&lowered, ".docx") {
        "application/vnd.openxmlformats-officedocument.wordprocessingml.document"
    } else {
        "application/pdf"
    }
}

/// `s` without every leading copy of `prefix`.
pub open spec fn strip_prefix_all(s: Seq<char>, prefix: Seq<char>) -> Seq<char>
    decreases s.len(),
{
    if prefix.len() > 0 && crate::text::starts_with(s, prefix) {
        strip_prefix_all(s.skip(prefix.len() as int), prefix)
    } else {
        s
    }
}

/// Whether a requested download name is refused: empty, longer than 200
/// bytes, with a control character, or able to leave the output folder.
pub open spec fn refused_download_name(name: Seq<char>) -> bool {
    ||| name.len() == 0
    ||| byte_len(name) > 200
    ||| (exists|k: int| 0 <= k < name.len() && spec_is_control(#[trigger] name[k]))
    ||| contains_seq(name, ".."@)
    ||| crate::text::has_char(name, '/')
    ||| crate::text::has_char(name, '\\')
}

fn strip_download_prefix(v: &Vec<char>) -> (r: Vec<char>)
    ensures
        r@ == strip_prefix_all(v@, "/download/"@),
{
    let p = chars_of("/download/");
    proof {
        reveal_strlit("/download/");
    }
    let mut start: usize = 0;
    assert(v@.skip(0) =~= v@);
    while start <= v.len() && crate::text::chars_match_at(v, &p, start)
        invariant
            start <= v.len(),
            p@ == "/download/"@,
            p@.len() == 10,
            strip_prefix_all(v@, p@) == strip_prefix_all(v@.skip(start as int), p@),
        decreases v.len() - start,
    {
        proof {
            let s = v@.skip(start as int);
            assert(s.subrange(0, 10) =~= v@.subrange(start as int, start + 10));
            assert(s.skip(10) =~= v@.skip(start + 10));
        }
        start = start + 10;
    }
    proof {
        let s = v@.skip(start as int);
        if crate::text::starts_with(s, p@) {
            assert(s.subrange(0, 10) =~= v@.subrange(start as int, start + 10));
        }
    }
    crate::custom::sub_vec(v, start, v.len())
}

/// The file name a download path asks for, decoded, where it is not
/// refused.
pub fn download_name(path: &str) -> (r: Option<String>)
    ensures
        ({
            let name = crate::escape::utf8_lossy(
                crate::escape::url_decode_bytes(encode_utf8(strip_prefix_all(path@, "/download/"@))),
            );
            &&& r matches Some(n) ==> n@ == name && !refused_download_name(name)
            &&& r is None ==> refused_download_name(name)
        }),
{
    let v = chars_of(path);
    let rest = strip_download_prefix(&v);
    let rest_text = string_of(&rest);
    let filename = crate::escape::url_decode(rest_text.as_str());
    let f = chars_of(filename.as_str());
    if f.len() == 0 || crate::normalize::utf8_len_capped(&f, 201) > 200 {
        return None;
    }
    let ghost name = crate::escape::utf8_lossy(
        crate::escape::url_decode_bytes(encode_utf8(strip_prefix_all(path@, "/download/"@))),
    );
    let mut i: usize = 0;
    while i < f.len()
        invariant
            f@ == name,
            name == crate::escape::utf8_lossy(
                crate::escape::url_decode_bytes(encode_utf8(strip_prefix_all(path@, "/download/"@))),
            ),
            i <= f.len(),
            forall|k: int| 0 <= k < i ==> !spec_is_control(#[trigger] f@[k]),
        decreases f.len() - i,
    {
        if crate::text::is_control(f[i]) {
            assert(spec_is_control(name[i as int]));
            return None;
        }
        i += 1;
    }
    if crate::text::chars_contains(&f, "..") || crate::text::chars_has(&f, '/')
        || crate::text::chars_has(&f, '\\') {
        return None;
    }
    Some(filename)
}

/// The response for a downloaded file: its bytes, its type, and the file
/// name (without quotes) for saving.
pub fn download_response(filename: &str, bytes: Vec<u8>) -> (r: (u16, &'static str, Vec<u8>, Vec<String>))
    ensures
        r.0 == 200,
        r.1@ == spec_download_mime(filename@),
        r.2@ == bytes@,
        r.3.deep_view() == seq![
            "Content-Disposition: attachment; filename=\""@ + crate::lookup::remove_char(
                filename@,
                '"',
            ) + "\""@,
        ],
{
    let mut header = owned("Content-Disposition: attachment; filename=\"");
    let v = chars_of(filename);
    let ghost before = header@;
    let mut i: usize = 0;
    while i < v.len()
        invariant
            i <= v.len(),
            header@ == before + crate::lookup::remove_char(v@.take(i as int), '"'),
        decreases v.len() - i,
    {
        assert(v@.take(i + 1).drop_last() =~= v@.take(i as int));
        if v[i] != '"' {
            push_char(&mut header, v[i]);
        }
        i += 1;
    }
    assert(v@.take(v.len() as int) =~= v@);
    crate::pronounce::push_str(&mut header, "\"");
    let mut headers: Vec<String> = Vec::new();
    headers.push(header);
    assert(headers.deep_view() =~= seq![header@]);
    (200, download_mime(filename), bytes, headers)
}

// ---------------------------------------------------------------------------
// File names and file URLs
// ---------------------------------------------------------------------------

/// Characters kept in a file name: ASCII letters and digits, CJK ideographs,
/// `_` and `-`.
pub open spec fn title_char_kept(c: char) -> bool {
    spec_is_alnum(c) || spec_is_cjk(c) || c == '_' || c == '-'
}

/// Writing a title as a file name: kept characters stay, each run of others
/// becomes one `_`.
pub open spec fn safe_state(s: Seq<char>) -> (Seq<char>, bool)
    decreases s.len(),
{
    if s.len() == 0 {
        (seq![], false)
    } else {
        let (out, last_underscore) = safe_state(s.drop_last());
        if title_char_kept(s.last()) {
            (out.push(s.last()), false)
        } else if !last_underscore {
            (out.push('_'), true)
        } else {
            (out, last_underscore)
        }
    }
}

/// A title as a file name: runs of other characters as `_`, without `_` at
/// either end, and `annotated_article` for nothing left.
pub open spec fn spec_safe_title(title: Seq<char>) -> Seq<char> {
    let t = strip(safe_state(title).0, CharSet::Underscore);
    if t.len() == 0 {
        "annotated_article"@
    } else {
        t
    }
}

proof fn lemma_safe_state_kept(s: Seq<char>)
    ensures
        forall|k: int| 0 <= k < safe_state(s).0.len() ==> title_char_kept(#[trigger] safe_state(s).0[k]),
    decreases s.len(),
{
    if s.len() > 0 {
        lemma_safe_state_kept(s.drop_last());
        let prev = safe_state(s.drop_last()).0;
        let now = safe_state(s).0;
        assert forall|k: int| 0 <= k < now.len() implies title_char_kept(#[trigger] now[k]) by {
            if k < prev.len() {
                assert(now[k] == prev[k]);
            }
        }
    }
}

/// A title as a file name: each run of characters other than ASCII letters
/// and digits, CJK ideographs, `_` and `-` becomes one `_`, and `_` at
/// either end goes; `annotated_article` where nothing is left. The name is
/// never empty and holds only kept characters.
pub fn safe_title(title: &str) -> (r: String)
    ensures
        r@ == spec_safe_title(title@),
        r@.len() > 0,
        forall|k: int| 0 <= k < r@.len() ==> title_char_kept(#[trigger] r@[k]),
{
    let v = chars_of(title);
    let mut out: Vec<char> = Vec::new();
    let mut last_underscore = false;
    let mut i: usize = 0;
    while i < v.len()
        invariant
            i <= v.len(),
            (out@, last_underscore) == safe_state(v@.take(i as int)),
        decreases v.len() - i,
    {
        assert(v@.take(i + 1).drop_last() =~= v@.take(i as int));
        let c = v[i];
        if is_alnum(c) || is_cjk(c) || c == '_' || c == '-' {
            out.push(c);
            last_underscore = false;
        } else if !last_underscore {
            out.push('_');
            last_underscore = true;
        }
        i += 1;
    }
    assert(v@.take(v.len() as int) =~= v@);
    let stripped = strip_chars(&out, CharSet::Underscore);
    proof {
        lemma_safe_state_kept(v@);
        crate::text::lemma_lead(out@, CharSet::Underscore);
        crate::text::lemma_trail(crate::text::strip_start(out@, CharSet::Underscore), CharSet::Underscore);
        assert(out@ == safe_state(v@).0);
        let a = crate::text::lead(out@, CharSet::Underscore);
        let st = crate::text::strip_start(out@, CharSet::Underscore);
        assert(st.len() == out@.len() - a);
        assert forall|k: int| 0 <= k < stripped@.len() implies title_char_kept(#[trigger] stripped@[k]) by {
            assert(stripped@[k] == st[k]);
            assert(st[k] == out@[a + k]);
        }
    }
    if stripped.len() == 0 {
        proof {
            reveal_strlit("annotated_article");
        }
        return owned("annotated_article");
    }
    string_of(&stripped)
}

/// The unique ending of a generated file's name: the low 32 bits of the
/// time in nanoseconds in hexadecimal, then the low 16 bits of a counter in
/// four hexadecimal digits.
pub open spec fn spec_unique_suffix(now_nanos: u128, counter: u64) -> Seq<char> {
    hexadecimal((now_nanos % 0x1_0000_0000) as nat) + hexadecimal4((counter % 0x1_0000) as nat)
}

/// The unique ending of a generated file's name, from the time in
/// nanoseconds and a counter.
pub fn unique_suffix(now_nanos: u128, counter: u64) -> (r: String)
    ensures
        r@ == spec_unique_suffix(now_nanos, counter),
{
    let mut out = String::new();
    push_hexadecimal(&mut out, (now_nanos % 0x1_0000_0000) as u64);
    push_hexadecimal4(&mut out, counter % 0x1_0000);
    assert(out@ =~= spec_unique_suffix(now_nanos, counter));
    out
}

/// Bytes that stand for themselves in a file URL: ASCII letters and
/// digits, `-`, `_`, `.`, `~`, `/` and `:`.
pub open spec fn file_url_unreserved(b: u8) -> bool {
    (0x30 <= b <= 0x39) || (0x41 <= b <= 0x5a) || (0x61 <= b <= 0x7a) || b == 0x2d || b == 0x5f
        || b == 0x2e || b == 0x7e || b == 0x2f || b == 0x3a
}

/// A file URL's bytes, one after the other.
pub open spec fn file_url_bytes(bytes: Seq<u8>) -> Seq<char>
    decreases bytes.len(),
{
    if bytes.len() == 0 {
        seq![]
    } else {
        let b = bytes.last();
        file_url_bytes(bytes.drop_last()) + if file_url_unreserved(b) {
            seq![(b as u32) as char]
        } else {
            seq!['%', hex_upper((b / 16) as nat), hex_upper((b % 16) as nat)]
        }
    }
}

/// The file URL of an absolute path: backslashes as slashes, the UTF-8
/// bytes that are not letters, digits or `-_.~/:` as `%XX`.
pub open spec fn spec_file_url(path: Seq<char>) -> Seq<char> {
    "file:///"@ + file_url_bytes(encode_utf8(crate::normalize::replace_char(path, '\\', '/')))
}

/// The file URL of an absolute path.
pub fn file_url(absolute_path: &str) -> (r: String)
    ensures
        r@ == spec_file_url(absolute_path@),
{
    let v = chars_of(absolute_path);
    let mut slashed: Vec<char> = Vec::new();
    let mut i: usize = 0;
    while i < v.len()
        invariant
            i <= v.len(),
            slashed@ == crate::normalize::replace_char(v@.take(i as int), '\\', '/'),
        decreases v.len() - i,
    {
        slashed.push(if v[i] == '\\' {
            '/'
        } else {
            v[i]
        });
        assert(crate::normalize::replace_char(v@.take(i + 1), '\\', '/') =~= crate::normalize::replace_char(
            v@.take(i as int),
            '\\',
            '/',
        ).push(
            if v@[i as int] == '\\' {
                '/'
            } else {
                v@[i as int]
            },
        ));
        i += 1;
    }
    assert(v@.take(v.len() as int) =~= v@);
    let text = string_of(&slashed);
    let bytes = text.as_str().as_bytes_vec();
    let mut url = owned("file:///");
    let ghost start = url@;
    let mut j: usize = 0;
    while j < bytes.len()
        invariant
            j <= bytes.len(),
            url@ == start + file_url_bytes(bytes@.take(j as int)),
        decreases bytes.len() - j,
    {
        assert(bytes@.take(j + 1).drop_last() =~= bytes@.take(j as int));
        let b = bytes[j];
        let ghost before = url@;
        if (0x30 <= b && b <= 0x39) || (0x41 <= b && b <= 0x5a) || (0x61 <= b && b <= 0x7a) || b == 0x2d
            || b == 0x5f || b == 0x2e || b == 0x7e || b == 0x2f || b == 0x3a {
            push_char(&mut url, b as char);
        } else {
            push_char(&mut url, '%');
            push_char(&mut url, crate::escape::hex_upper_char((b / 16) as u32));
            push_char(&mut url, crate::escape::hex_upper_char((b % 16) as u32));
        }
        assert(url@ =~= start + file_url_bytes(bytes@.take(j + 1)));
        j += 1;
    }
    assert(bytes@.take(bytes.len() as int) =~= bytes@);
    url
}

// ---------------------------------------------------------------------------
// The window
// ---------------------------------------------------------------------------

/// Whether the window opens the page itself: unless `--browser`,
/// `--native` or `--no-open` is given.
pub fn should_use_embedded_ui(args: &Vec<String>) -> (r: bool)
    ensures
        r == !(exists|k: int|
            0 <= k < args.deep_view().len() && (#[trigger] args.deep_view()[k] == "--browser"@
                || args.deep_view()[k] == "--native"@ || args.deep_view()[k] == "--no-open"@)),
{
    let mut i: usize = 0;
    while i < args.len()
        invariant
            i <= args.len(),
            forall|k: int|
                0 <= k < i ==> !(#[trigger] args.deep_view()[k] == "--browser"@ || args.deep_view()[k]
                    == "--native"@ || args.deep_view()[k] == "--no-open"@),
        decreases args.len() - i,
    {
        assert(args.deep_view()[i as int] == args@[i as int]@);
        let a = args[i].as_str();
        if crate::text::str_eq(a, "--browser") || crate::text::str_eq(a, "--native")
            || crate::text::str_eq(a, "--no-open") {
            return false;
        }
        i += 1;
    }
    true
}

/// The style of a push button: a visible child in the tab order, the
/// default button where asked.
pub fn button_style(default_button: bool) -> (r: u32)
    ensures
        r == 0x5001_0000u32 + (if default_button {
            1u32
        } else {
            0u32
        }),
{
    let base: u32 = 0x4000_0000 | 0x1000_0000 | 0x0001_0000;
    assert(base == 0x5001_0000) by (bit_vector)
        requires
            base == 0x4000_0000u32 | 0x1000_0000u32 | 0x0001_0000u32,
    ;
    let r = base | if default_button {
        1u32
    } else {
        0u32
    };
    assert(r == 0x5001_0000u32 + (if default_button {
        1u32
    } else {
        0u32
    })) by (bit_vector)
        requires
            base == 0x5001_0000u32,
            r == base | if default_button {
                1u32
            } else {
                0u32
            },
    ;
    r
}

/// The UTF-16 code units of a character.
pub open spec fn utf16_units(c: char) -> Seq<u16> {
    let v = c as u32;
    if v < 0x10000 {
        seq![v as u16]
    } else {
        seq![(0xD800 + (v - 0x10000) / 1024) as u16, (0xDC00 + (v - 0x10000) % 1024) as u16]
    }
}

/// The UTF-16 code units of a text.
pub open spec fn utf16_of(s: Seq<char>) -> Seq<u16>
    decreases s.len(),
{
    if s.len() == 0 {
        seq![]
    } else {
        utf16_of(s.drop_last()) + utf16_units(s.last())
    }
}

/// A text in UTF-16, ended by a zero, as the window functions take it.
pub fn wide(text: &str) -> (r: Vec<u16>)
    ensures
        r@ == utf16_of(text@).push(0),
{
    let v = chars_of(text);
    let mut out: Vec<u16> = Vec::new();
    let mut i: usize = 0;
    while i < v.len()
        invariant
            i <= v.len(),
            out@ == utf16_of(v@.take(i as int)),
        decreases v.len() - i,
    {
        assert(v@.take(i + 1).drop_last() =~= v@.take(i as int));
        let u = v[i] as u32;
        let ghost before = out@;
        if u < 0x10000 {
            out.push(u as u16);
        } else {
            out.push((0xD800 + (u - 0x10000) / 1024) as u16);
            out.push((0xDC00 + (u - 0x10000) % 1024) as u16);
        }
        assert(out@ =~= before + utf16_units(v@[i as int]));
        i += 1;
    }
    assert(v@.take(v.len() as int) =~= v@);
    out.push(0);
    out
}

} // verus!
