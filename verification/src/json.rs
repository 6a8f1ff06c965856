//! The small JSON reader of request bodies, JSON and URL escaping, and the
//! language and pronunciation preferences that a request names.
use vstd::prelude::*;
use crate::custom::{index_of, find_char, sub_vec};
use crate::normalize::{byte_len, char_width};
use crate::pronounce::push_str;
use crate::text::{
    chars_eq_str, chars_match_at, chars_starts_with, starts_with, chars_of, find, find_chars_from, is_ws, lead, lemma_lead,
    lemma_lead_skip, push_char, spec_is_ws, str_eq, string_of, CharSet, matches_at,
};

verus! {

// ---------------------------------------------------------------------------
// Hexadecimal
// ---------------------------------------------------------------------------

/// The value of a hexadecimal digit.
pub open spec fn hex_digit(c: char) -> Option<nat> {
    if '0' <= c && c <= '9' {
        Some((c as nat - '0' as nat) as nat)
    } else if 'a' <= c && c <= 'f' {
        Some((c as nat - 'a' as nat + 10) as nat)
    } else if 'A' <= c && c <= 'F' {
        Some((c as nat - 'A' as nat + 10) as nat)
    } else {
        None
    }
}

/// The value of a string of hexadecimal digits (zero for none).
pub open spec fn hex_digits_value(d: Seq<char>) -> Option<nat>
    decreases d.len(),
{
    if d.len() == 0 {
        Some(0)
    } else {
        match (hex_digits_value(d.drop_last()), hex_digit(d.last())) {
            (Some(a), Some(b)) => Some(16 * a + b),
            _ => None,
        }
    }
}

/// `from_str_radix(w, 16)` for an unsigned type: an optional `+`, then at
/// least one hexadecimal digit.
pub open spec fn radix16(w: Seq<char>) -> Option<nat> {
    if w.len() == 0 {
        None
    } else if w[0] == '+' {
        if w.len() == 1 {
            None
        } else {
            hex_digits_value(w.drop_first())
        }
    } else {
        hex_digits_value(w)
    }
}

fn hex_digit_of(c: char) -> (r: Option<u32>)
    ensures
        r matches Some(v) ==> hex_digit(c) == Some(v as nat) && v < 16,
        r is None ==> hex_digit(c) is None,
{
    if '0' <= c && c <= '9' {
        Some(c as u32 - '0' as u32)
    } else if 'a' <= c && c <= 'f' {
        Some(c as u32 - 'a' as u32 + 10)
    } else if 'A' <= c && c <= 'F' {
        Some(c as u32 - 'A' as u32 + 10)
    } else {
        None
    }
}

pub open spec fn pow16(n: nat) -> nat
    decreases n,
{
    if n == 0 {
        1
    } else {
        16 * pow16((n - 1) as nat)
    }
}

/// `from_str_radix(w, 16)` on at most four characters.
pub fn parse_radix16(w: &Vec<char>) -> (r: Option<u32>)
    requires
        w.len() <= 4,
    ensures
        r matches Some(v) ==> radix16(w@) == Some(v as nat),
        r is None ==> radix16(w@) is None,
{
    if w.len() == 0 {
        return None;
    }
    let start: usize = if w[0] == '+' {
        if w.len() == 1 {
            return None;
        }
        1
    } else {
        0
    };
    let ghost d = w@.skip(start as int);
    assert(start == 1 ==> d =~= w@.drop_first());
    assert(start == 0 ==> d =~= w@);
    assert(radix16(w@) == hex_digits_value(d));
    let mut value: u32 = 0;
    let mut i = start;
    while i < w.len()
        invariant
            start <= i <= w.len() <= 4,
            d == w@.skip(start as int),
            radix16(w@) == hex_digits_value(d),
            hex_digits_value(w@.subrange(start as int, i as int)) == Some(value as nat),
            value < pow16((i - start) as nat),
        decreases w.len() - i,
    {
        assert(w@.subrange(start as int, i + 1).drop_last() =~= w@.subrange(start as int, i as int));
        match hex_digit_of(w[i]) {
            Some(h) => {
                assert(pow16((i + 1 - start) as nat) == 16 * pow16((i - start) as nat));
                assert(pow16(4) == 65536) by {
                    reveal_with_fuel(pow16, 5);
                }
                assert(pow16((i - start) as nat) <= 4096) by {
                    reveal_with_fuel(pow16, 5);
                }
                value = value * 16 + h;
                i += 1;
            },
            None => {
                proof {
                    assert(d[(i - start) as int] == w@[i as int]);
                    lemma_hex_none(d, (i - start) as int);
                }
                return None;
            },
        }
    }
    assert(w@.subrange(start as int, w.len() as int) =~= d);
    Some(value)
}

proof fn lemma_hex_none(d: Seq<char>, i: int)
    requires
        0 <= i < d.len(),
        hex_digit(d[i]) is None,
    ensures
        hex_digits_value(d) is None,
    decreases d.len(),
{
    if i < d.len() - 1 {
        lemma_hex_none(d.drop_last(), i);
    }
}

// ---------------------------------------------------------------------------
// Reading a string field
// ---------------------------------------------------------------------------

/// How reading a JSON string went: its value, no value, or a `\u` escape whose
/// four bytes end inside a character (the reader panics on that).
pub enum JsonScan {
    Done(Seq<char>),
    Missing,
    Panic,
}

pub open spec fn prepend(p: Seq<char>, s: JsonScan) -> JsonScan {
    match s {
        JsonScan::Done(x) => JsonScan::Done(p + x),
        other => other,
    }
}

/// Walking over whole characters until `need` bytes are covered: how many
/// characters, and how many bytes they take.
pub open spec fn byte_walk(rest: Seq<char>, need: int) -> (nat, nat)
    decreases rest.len(),
{
    if need <= 0 || rest.len() == 0 {
        (0, 0)
    } else {
        let w = char_width(rest[0]);
        let (k, got) = byte_walk(rest.drop_first(), need - w);
        (k + 1, got + w)
    }
}

pub proof fn lemma_byte_walk(rest: Seq<char>, need: int)
    ensures
        byte_walk(rest, need).0 <= rest.len(),
    decreases rest.len(),
{
    if need > 0 && rest.len() > 0 {
        lemma_byte_walk(rest.drop_first(), need - char_width(rest[0]));
    }
}

/// The character that `\x` stands for in a JSON string.
pub open spec fn unescape(e: char) -> char {
    if e == 'n' {
        '\n'
    } else if e == 'r' {
        '\r'
    } else if e == 't' {
        '\t'
    } else if e == 'b' {
        '\u{8}'
    } else if e == 'f' {
        '\u{c}'
    } else {
        e
    }
}

/// What a `\uXXXX` escape gives: the character with that code, if it is one.
pub open spec fn unicode_escape(w: Seq<char>) -> Seq<char> {
    match radix16(w) {
        Some(v) => if v < 0xD800 || (0xE000 <= v && v <= 0x10FFFF) {
            seq![(v as u32) as char]
        } else {
            seq![]
        },
        None => seq![],
    }
}

/// Reading the characters of a JSON string after its opening quote.
pub open spec fn scan_string(s: Seq<char>) -> JsonScan
    decreases s.len(),
{
    if s.len() == 0 {
        JsonScan::Missing
    } else if s[0] == '"' {
        JsonScan::Done(seq![])
    } else if s[0] == '\\' {
        if s.len() == 1 {
            JsonScan::Missing
        } else {
            let rest = s.skip(2);
            if s[1] == 'u' {
                let (k, got) = byte_walk(rest, 4);
                if got < 4 {
                    scan_string(rest)
                } else if got > 4 {
                    JsonScan::Panic
                } else {
                    proof {
                        lemma_byte_walk(rest, 4);
                    }
                    prepend(unicode_escape(rest.take(k as int)), scan_string(rest.skip(k as int)))
                }
            } else {
                prepend(seq![unescape(s[1])], scan_string(rest))
            }
        }
    } else {
        prepend(seq![s[0]], scan_string(s.drop_first()))
    }
}

/// Where the value of `key` starts: after `"key"`, the next `:` and whitespace.
pub open spec fn json_value_start(body: Seq<char>, key: Seq<char>) -> Option<int> {
    let marker = seq!['"'] + key + seq!['"'];
    match find(body, marker) {
        None => None,
        Some(p) => {
            let i = p + marker.len();
            match index_of(body.skip(i), ':') {
                None => None,
                Some(c) => {
                    let j = i + c + 1;
                    Some(j + lead(body.skip(j), CharSet::Whitespace))
                },
            }
        },
    }
}

/// Reading the string field `key` of a request body.
pub open spec fn json_string_scan(body: Seq<char>, key: Seq<char>) -> JsonScan {
    match json_value_start(body, key) {
        None => JsonScan::Missing,
        Some(k) => if k < body.len() && body[k] == '"' {
            scan_string(body.skip(k + 1))
        } else {
            JsonScan::Missing
        },
    }
}

/// Whether reading the string field `key` meets a `\u` escape whose four
/// bytes end inside a character.
pub open spec fn spec_json_string_panics(body: Seq<char>, key: Seq<char>) -> bool {
    json_string_scan(body, key) is Panic
}

/// The string field `key` of a request body.
pub open spec fn spec_json_string(body: Seq<char>, key: Seq<char>) -> Option<Seq<char>> {
    match json_string_scan(body, key) {
        JsonScan::Done(x) => Some(x),
        _ => None,
    }
}

/// Calls `char::from_u32`, which gives the character with the code point `v`,
/// or `None` for a surrogate or a value above `0x10FFFF`.
#[verifier::external_body]
fn char_from_u32(v: u32) -> (r: Option<char>)
    ensures
        r is Some <==> (v < 0xD800 || (0xE000 <= v && v <= 0x10FFFF)),
        r matches Some(c) ==> c == (v as char),
{
    char::from_u32(v)
}

fn width_of(c: char) -> (w: usize)
    ensures
        w == char_width(c),
        1 <= w <= 4,
{
    let u = c as u32;
    if u < 0x80 {
        1
    } else if u < 0x800 {
        2
    } else if u < 0x10000 {
        3
    } else {
        4
    }
}

/// Skips whitespace: moves `index` past the whitespace at it.
pub fn skip_json_ws(body: &Vec<char>, index: &mut usize)
    requires
        *old(index) <= body.len(),
    ensures
        *final(index) == *old(index) + lead(body@.skip(*old(index) as int), CharSet::Whitespace),
        *final(index) <= body.len(),
{
    let from = *index;
    while *index < body.len() && is_ws(body[*index])
        invariant
            from <= *index <= body.len(),
            forall|k: int| from <= k < *index ==> spec_is_ws(#[trigger] body@[k]),
        decreases body.len() - *index,
    {
        *index += 1;
    }
    proof {
        let t = body@.skip(from as int);
        let n = *index - from;
        assert forall|k: int| 0 <= k < n implies CharSet::Whitespace.has(#[trigger] t[k]) by {
            assert(t[k] == body@[from + k]);
        }
        lemma_lead_skip(t, CharSet::Whitespace, n as int);
        assert(t.skip(n as int) =~= body@.skip(*index as int));
        if *index < body.len() {
            assert(body@.skip(*index as int)[0] == body@[*index as int]);
        }
    }
}

fn value_start(body: &Vec<char>, key: &str) -> (r: Option<usize>)
    ensures
        r matches Some(k) ==> json_value_start(body@, key@) == Some(k as int) && k <= body.len(),
        r is None ==> json_value_start(body@, key@) is None,
{
    let mut marker: Vec<char> = Vec::new();
    marker.push('"');
    let kv = chars_of(key);
    let mut t: usize = 0;
    while t < kv.len()
        invariant
            t <= kv.len(),
            marker@ == seq!['"'] + kv@.take(t as int),
        decreases kv.len() - t,
    {
        marker.push(kv[t]);
        assert(kv@.take(t + 1) =~= kv@.take(t as int).push(kv@[t as int]));
        t += 1;
    }
    marker.push('"');
    assert(kv@.take(kv.len() as int) =~= kv@);
    assert(marker@ =~= seq!['"'] + key@ + seq!['"']);
    let p = match find_chars_from(body, &marker, 0) {
        Some(p) => p,
        None => return None,
    };
    proof {
        crate::text::lemma_find_from(body@, marker@, 0);
    }
    let total = body.len();
    assert(matches_at(body@, marker@, p as int));
    let i = p + marker.len();
    let rest = sub_vec(body, i, body.len());
    assert(rest@ =~= body@.skip(i as int));
    let c = match find_char(&rest, ':') {
        Some(c) => c,
        None => return None,
    };
    let mut j = i + c + 1;
    skip_json_ws(body, &mut j);
    Some(j)
}

proof fn lemma_prepend(a: Seq<char>, b: Seq<char>, x: JsonScan)
    ensures
        prepend(a, prepend(b, x)) == prepend(a + b, x),
{
    match x {
        JsonScan::Done(y) => {
            assert(a + (b + y) =~= (a + b) + y);
        },
        _ => {},
    }
}

/// Walks whole characters from `from` until four bytes are covered or the
/// text ends.
fn walk_four_bytes(v: &Vec<char>, from: usize) -> (r: (usize, usize))
    requires
        from <= v.len(),
    ensures
        from <= r.0 <= v.len(),
        r.0 - from <= r.1 <= 7,
        byte_walk(v@.skip(from as int), 4) == ((r.0 - from) as nat, r.1 as nat),
{
    let mut j = from;
    let mut bytes: usize = 0;
    while j < v.len() && bytes < 4
        invariant
            from <= j <= v.len(),
            j - from <= bytes <= 7,
            byte_walk(v@.skip(from as int), 4).0 == (j - from) + byte_walk(
                v@.skip(j as int),
                4 - bytes,
            ).0,
            byte_walk(v@.skip(from as int), 4).1 == bytes + byte_walk(
                v@.skip(j as int),
                4 - bytes,
            ).1,
        decreases v.len() - j,
    {
        let ghost t = v@.skip(j as int);
        assert(t[0] == v@[j as int]);
        assert(t.drop_first() =~= v@.skip(j + 1));
        bytes += width_of(v[j]);
        j += 1;
    }
    assert(byte_walk(v@.skip(j as int), 4 - bytes) == (0nat, 0nat));
    (j, bytes)
}

/// What one step of reading a string gives: where reading goes on, the end
/// of the text inside an escape, or a `\u` escape cut inside a character.
pub enum EscapeStep {
    Next(usize),
    Unfinished,
    CutCharacter,
}

/// One escape sequence at `i`: appends what it stands for and says where
/// reading goes on.
fn escape_step(v: &Vec<char>, i: usize, out: &mut String) -> (r: EscapeStep)
    requires
        i < v.len(),
        v@[i as int] == '\\',
    ensures
        r is Unfinished ==> scan_string(v@.skip(i as int)) is Missing,
        r is CutCharacter ==> scan_string(v@.skip(i as int)) is Panic,
        r matches EscapeStep::Next(n) ==> i < n <= v.len() && prepend(
            old(out)@,
            scan_string(v@.skip(i as int)),
        ) == prepend(final(out)@, scan_string(v@.skip(n as int))),
{
    let ghost s = v@.skip(i as int);
    assert(s[0] == v@[i as int]);
    if i + 1 >= v.len() {
        return EscapeStep::Unfinished;
    }
    assert(s[1] == v@[i + 1]);
    let escaped = v[i + 1];
    let ghost rest = s.skip(2);
    assert(rest =~= v@.skip(i + 2));
    let ghost before = out@;
    if escaped == 'u' {
        let from = i + 2;
        let (j, bytes) = walk_four_bytes(v, from);
        if bytes < 4 {
            return EscapeStep::Next(from);
        }
        if bytes > 4 {
            return EscapeStep::CutCharacter;
        }
        let window = sub_vec(v, from, j);
        assert(window@ =~= rest.take((j - from) as int));
        assert(rest.skip((j - from) as int) =~= v@.skip(j as int));
        match parse_radix16(&window) {
            Some(value) => {
                match char_from_u32(value) {
                    Some(decoded) => push_char(out, decoded),
                    None => {},
                }
            },
            None => {},
        }
        assert(out@ == before + unicode_escape(window@));
        proof {
            lemma_prepend(before, unicode_escape(window@), scan_string(v@.skip(j as int)));
        }
        return EscapeStep::Next(j);
    }
    let c = if escaped == 'n' {
        '\n'
    } else if escaped == 'r' {
        '\r'
    } else if escaped == 't' {
        '\t'
    } else if escaped == 'b' {
        '\u{8}'
    } else if escaped == 'f' {
        '\u{c}'
    } else {
        escaped
    };
    push_char(out, c);
    assert(c == unescape(escaped));
    assert(out@ =~= before + seq![c]);
    assert(scan_string(s) == prepend(seq![c], scan_string(rest)));
    proof {
        lemma_prepend(before, seq![c], scan_string(rest));
    }
    EscapeStep::Next(i + 2)
}

/// How reading a string field went.
pub enum StringField {
    Value(String),
    Absent,
    CutCharacter,
}

/// Reads the string field `key` of a request body: what follows `"key"`, a
/// colon and whitespace, when that is a quoted string; escapes are decoded.
pub fn read_string_field(body: &str, key: &str) -> (r: StringField)
    ensures
        r matches StringField::Value(s) ==> json_string_scan(body@, key@) == JsonScan::Done(s@),
        r is Absent ==> json_string_scan(body@, key@) is Missing,
        r is CutCharacter ==> json_string_scan(body@, key@) is Panic,
{
    let v = chars_of(body);
    let k = match value_start(&v, key) {
        Some(k) => k,
        None => return StringField::Absent,
    };
    if !(k < v.len() && v[k] == '"') {
        return StringField::Absent;
    }
    let start = k + 1;
    let mut out = String::new();
    let mut i = start;
    assert(out@ + Seq::<char>::empty() =~= out@);
    loop
        invariant
            start <= i <= v.len(),
            v@ == body@,
            json_string_scan(body@, key@) == scan_string(v@.skip(start as int)),
            prepend(out@, scan_string(v@.skip(i as int))) == scan_string(v@.skip(start as int)),
        decreases v.len() - i,
    {
        let ghost s = v@.skip(i as int);
        if i >= v.len() {
            assert(s.len() == 0);
            return StringField::Absent;
        }
        assert(s[0] == v@[i as int]);
        let ch = v[i];
        if ch == '"' {
            assert(out@ + Seq::<char>::empty() =~= out@);
            return StringField::Value(out);
        }
        if ch == '\\' {
            match escape_step(&v, i, &mut out) {
                EscapeStep::Next(n) => {
                    i = n;
                },
                EscapeStep::Unfinished => {
                    return StringField::Absent;
                },
                EscapeStep::CutCharacter => {
                    return StringField::CutCharacter;
                },
            }
        } else {
            let ghost before = out@;
            push_char(&mut out, ch);
            assert(out@ =~= before + seq![ch]);
            assert(s.drop_first() =~= v@.skip(i + 1));
            proof {
                lemma_prepend(before, seq![ch], scan_string(s.drop_first()));
            }
            i += 1;
        }
    }
}

/// Whether reading the string field `key` meets a `\u` escape whose four
/// bytes end inside a character, where slicing the text would fail.
pub fn json_string_panics(body: &str, key: &str) -> (r: bool)
    ensures
        r == spec_json_string_panics(body@, key@),
{
    match read_string_field(body, key) {
        StringField::CutCharacter => true,
        _ => false,
    }
}

/// The string field `key` of a request body.
pub fn json_string(body: &str, key: &str) -> (r: Option<String>)
    requires
        !spec_json_string_panics(body@, key@),
    ensures
        r matches Some(s) ==> spec_json_string(body@, key@) == Some(s@),
        r is None ==> spec_json_string(body@, key@) is None,
{
    match read_string_field(body, key) {
        StringField::Value(s) => Some(s),
        _ => None,
    }
}

/// The boolean field `key` of a request body: `true` or `false` after the
/// key, a colon and whitespace.
pub open spec fn spec_json_bool(body: Seq<char>, key: Seq<char>) -> Option<bool> {
    match json_value_start(body, key) {
        None => None,
        Some(k) => if starts_with(body.skip(k), "true"@) {
            Some(true)
        } else if starts_with(body.skip(k), "false"@) {
            Some(false)
        } else {
            None
        },
    }
}

/// The boolean field `key` of a request body.
pub fn json_bool(body: &str, key: &str) -> (r: Option<bool>)
    ensures
        r == spec_json_bool(body@, key@),
{
    let v = chars_of(body);
    let k = match value_start(&v, key) {
        Some(k) => k,
        None => return None,
    };
    let rest = sub_vec(&v, k, v.len());
    assert(rest@ =~= body@.skip(k as int));
    if chars_starts_with(&rest, "true") {
        Some(true)
    } else if chars_starts_with(&rest, "false") {
        Some(false)
    } else {
        None
    }
}

/// Whether `needle` stands in `data` at `at`.
pub open spec fn bytes_at(data: Seq<u8>, needle: Seq<u8>, at: int) -> bool {
    0 <= at && at + needle.len() <= data.len() && data.subrange(at, at + needle.len()) == needle
}

/// The first position where `needle` stands in `data`.
pub fn find_subsequence(data: &[u8], needle: &[u8]) -> (r: Option<usize>)
    requires
        needle@.len() > 0,
    ensures
        r matches Some(i) ==> bytes_at(data@, needle@, i as int) && forall|k: int|
            0 <= k < i ==> !bytes_at(data@, needle@, k),
        r is None ==> forall|k: int| 0 <= k ==> !bytes_at(data@, needle@, k),
{
    let n = needle.len();
    let total = data.len();
    if n > total {
        return None;
    }
    let mut i: usize = 0;
    while i <= total - n
        invariant
            n == needle@.len(),
            total == data@.len(),
            n <= data@.len(),
            i <= data@.len() - n + 1,
            forall|k: int| 0 <= k < i ==> !bytes_at(data@, needle@, k),
        decreases data@.len() - i,
    {
        let mut j: usize = 0;
        let mut same = true;
        while j < n
            invariant
                n == needle@.len(),
                total == data@.len(),
                i + n <= total,
                j <= n,
                same <==> forall|t: int| 0 <= t < j ==> data@[i + t] == needle@[t],
            decreases n - j,
        {
            if data[i + j] != needle[j] {
                same = false;
            }
            j += 1;
        }
        if same {
            assert(data@.subrange(i as int, i + n) =~= needle@);
            return Some(i);
        }
        proof {
            if bytes_at(data@, needle@, i as int) {
                let t = choose|t: int| 0 <= t < n && data@[i + t] != needle@[t];
                assert(data@.subrange(i as int, i + n)[t] == data@[i + t]);
            }
        }
        i += 1;
    }
    None
}

} // verus!
