//! Normalised dictionary keys, their spelling variants and the lemmas that an
//! inflected word may come from.
use vstd::prelude::*;
use crate::text::{
    chars_ends_with, chars_has, ends_with, has_char, chars_eq, chars_of, is_alnum, is_ws, lead, lemma_lead, lemma_trail,
    lower, spec_is_alnum, spec_is_lower, spec_is_upper, spec_is_ws, spec_lower, string_of, strip, strip_chars, strip_start, trail,
    trim, trim_chars, CharSet,
};

verus! {

// ---------------------------------------------------------------------------
// normalize_key
// ---------------------------------------------------------------------------

/// Lower-cases ASCII letters, turns curly apostrophes into `'` and the Unicode
/// dashes into `-`.
pub open spec fn key_char(c: char) -> char {
    let l = spec_lower(c);
    if l == '’' || l == '‘' {
        '\''
    } else if l == '‐' || l == '‑' || l == '‒' || l == '–' || l == '—' || l == '―' {
        '-'
    } else {
        l
    }
}

/// The quotation marks that a key drops.
pub open spec fn is_quote(c: char) -> bool {
    c == '“' || c == '”' || c == '"'
}

/// `s` without the quotation marks.
pub open spec fn drop_quotes(s: Seq<char>) -> Seq<char>
    decreases s.len(),
{
    if s.len() == 0 {
        s
    } else if is_quote(s.last()) {
        drop_quotes(s.drop_last())
    } else {
        drop_quotes(s.drop_last()).push(s.last())
    }
}

/// Every run of whitespace replaced by one space; the flag tells whether the
/// last character read was whitespace.
pub open spec fn collapse_ws_state(s: Seq<char>) -> (Seq<char>, bool)
    decreases s.len(),
{
    if s.len() == 0 {
        (s, false)
    } else {
        let (out, last_space) = collapse_ws_state(s.drop_last());
        if spec_is_ws(s.last()) {
            if last_space {
                (out, true)
            } else {
                (out.push(' '), true)
            }
        } else {
            (out.push(s.last()), false)
        }
    }
}

pub open spec fn collapse_ws(s: Seq<char>) -> Seq<char> {
    collapse_ws_state(s).0
}

/// The dictionary key of a term: trimmed, lower-cased, with the quotes and
/// everything before the first and after the last ASCII lower-case letter
/// removed, and each run of whitespace made one space.
pub open spec fn spec_normalize_key(term: Seq<char>) -> Seq<char> {
    let mapped = trim(term).map_values(|c: char| key_char(c));
    trim(collapse_ws(strip(drop_quotes(mapped), CharSet::NotLower)))
}

fn map_key_chars(v: &Vec<char>) -> (r: Vec<char>)
    ensures
        r@ == v@.map_values(|c: char| key_char(c)),
{
    let mut r: Vec<char> = Vec::new();
    let mut i: usize = 0;
    while i < v.len()
        invariant
            i <= v.len(),
            r@ == v@.take(i as int).map_values(|c: char| key_char(c)),
        decreases v.len() - i,
    {
        let l = lower(v[i]);
        let c = if l == '’' || l == '‘' {
            '\''
        } else if l == '‐' || l == '‑' || l == '‒' || l == '–' || l == '—' || l == '―' {
            '-'
        } else {
            l
        };
        r.push(c);
        assert(v@.take(i + 1).map_values(|c: char| key_char(c)) =~= v@.take(i as int).map_values(
            |c: char| key_char(c),
        ).push(key_char(v@[i as int])));
        i += 1;
    }
    assert(v@.take(v.len() as int) =~= v@);
    r
}

fn remove_quotes(v: &Vec<char>) -> (r: Vec<char>)
    ensures
        r@ == drop_quotes(v@),
{
    let mut r: Vec<char> = Vec::new();
    let mut i: usize = 0;
    while i < v.len()
        invariant
            i <= v.len(),
            r@ == drop_quotes(v@.take(i as int)),
        decreases v.len() - i,
    {
        let c = v[i];
        assert(v@.take(i + 1).drop_last() =~= v@.take(i as int));
        if !(c == '“' || c == '”' || c == '"') {
            r.push(c);
        }
        i += 1;
    }
    assert(v@.take(v.len() as int) =~= v@);
    r
}

pub fn collapse_whitespace_chars(v: &Vec<char>) -> (r: Vec<char>)
    ensures
        r@ == collapse_ws(v@),
{
    let mut r: Vec<char> = Vec::new();
    let mut last_space = false;
    let mut i: usize = 0;
    while i < v.len()
        invariant
            i <= v.len(),
            (r@, last_space) == collapse_ws_state(v@.take(i as int)),
        decreases v.len() - i,
    {
        let c = v[i];
        assert(v@.take(i + 1).drop_last() =~= v@.take(i as int));
        if is_ws(c) {
            if !last_space {
                r.push(' ');
            }
            last_space = true;
        } else {
            r.push(c);
            last_space = false;
        }
        i += 1;
    }
    assert(v@.take(v.len() as int) =~= v@);
    r
}

/// The key of a term, as characters.
pub fn normalize_key_chars(v: &Vec<char>) -> (r: Vec<char>)
    ensures
        r@ == spec_normalize_key(v@),
{
    let t = trim_chars(v);
    let m = map_key_chars(&t);
    let q = remove_quotes(&m);
    let s = strip_chars(&q, CharSet::NotLower);
    let c = collapse_whitespace_chars(&s);
    trim_chars(&c)
}

// ---------------------------------------------------------------------------
// A key normalises to itself
// ---------------------------------------------------------------------------

/// A character that a key keeps as it is.
pub open spec fn key_stable(c: char) -> bool {
    key_char(c) == c && !is_quote(c)
}

pub open spec fn all_key_stable(s: Seq<char>) -> bool {
    forall|k: int| 0 <= k < s.len() ==> key_stable(#[trigger] s[k])
}

/// Whitespace stands only as single spaces.
pub open spec fn collapsed(s: Seq<char>) -> bool {
    forall|k: int|
        0 <= k < s.len() && spec_is_ws(#[trigger] s[k]) ==> s[k] == ' ' && (k + 1 < s.len() ==> !spec_is_ws(
            s[k + 1],
        ))
}

proof fn lemma_key_char_idempotent(c: char)
    ensures
        key_char(key_char(c)) == key_char(c),
{
}

proof fn lemma_drop_quotes_stable(s: Seq<char>)
    requires
        forall|k: int| 0 <= k < s.len() ==> key_char(#[trigger] s[k]) == s[k],
    ensures
        all_key_stable(drop_quotes(s)),
    decreases s.len(),
{
    if s.len() > 0 {
        lemma_drop_quotes_stable(s.drop_last());
        let d = drop_quotes(s.drop_last());
        if !is_quote(s.last()) {
            assert forall|k: int| 0 <= k < d.push(s.last()).len() implies key_stable(
                #[trigger] d.push(s.last())[k],
            ) by {
                if k < d.len() {
                    assert(d.push(s.last())[k] == d[k]);
                }
            }
        }
    }
}

proof fn lemma_drop_quotes_identity(s: Seq<char>)
    requires
        all_key_stable(s),
    ensures
        drop_quotes(s) == s,
    decreases s.len(),
{
    if s.len() > 0 {
        assert(all_key_stable(s.drop_last())) by {
            assert forall|k: int| 0 <= k < s.drop_last().len() implies key_stable(#[trigger] s.drop_last()[k]) by {
                assert(s.drop_last()[k] == s[k]);
            }
        }
        lemma_drop_quotes_identity(s.drop_last());
        assert(key_stable(s[s.len() - 1]));
        assert(s.drop_last().push(s.last()) =~= s);
    }
}

/// What the lower-case strip leaves: a piece of the text that is empty or
/// starts and ends with a lower-case letter.
proof fn lemma_strip_lower(s: Seq<char>)
    ensures
        ({
            let r = strip(s, CharSet::NotLower);
            &&& r.len() > 0 ==> spec_is_lower(r[0]) && spec_is_lower(r.last())
            &&& all_key_stable(s) ==> all_key_stable(r)
        }),
{
    let set = CharSet::NotLower;
    lemma_lead(s, set);
    let a = lead(s, set) as int;
    let u = strip_start(s, set);
    assert(u == s.skip(a));
    lemma_trail(u, set);
    let r = strip(s, set);
    assert(r == u.take(u.len() - trail(u, set)));
    if r.len() > 0 {
        assert(r[0] == u[0]);
        assert(u[0] == s[a]);
        assert(r.last() == u[u.len() - trail(u, set) - 1]);
    }
    assert(r =~= s.subrange(a, a + r.len()));
    assert forall|k: int| all_key_stable(s) && 0 <= k < r.len() implies key_stable(#[trigger] r[k]) by {
        assert(r[k] == s[a + k]);
    }
}

/// A text that is empty or starts and ends outside `set` is left as it is.
proof fn lemma_strip_identity(s: Seq<char>, set: CharSet)
    requires
        s.len() == 0 || (!set.has(s[0]) && !set.has(s.last())),
    ensures
        strip(s, set) == s,
{
    assert(lead(s, set) == 0);
    assert(s.skip(0) =~= s);
    assert(trail(s, set) == 0);
    assert(s.take(s.len() as int) =~= s);
}

proof fn lemma_collapse_shape(s: Seq<char>)
    ensures
        ({
            let (out, last_space) = collapse_ws_state(s);
            &&& collapsed(out)
            &&& last_space <==> (out.len() > 0 && spec_is_ws(out.last()))
            &&& all_key_stable(s) ==> all_key_stable(out)
            &&& s.len() > 0 && !spec_is_ws(s[0]) ==> out.len() > 0 && out[0] == s[0]
            &&& s.len() > 0 && !spec_is_ws(s.last()) ==> out.len() > 0 && out.last() == s.last()
        }),
    decreases s.len(),
{
    if s.len() > 0 {
        let prev = s.drop_last();
        lemma_collapse_shape(prev);
        let (out0, ls0) = collapse_ws_state(prev);
        let (out, ls) = collapse_ws_state(s);
        if all_key_stable(s) {
            assert(all_key_stable(prev)) by {
                assert forall|k: int| 0 <= k < prev.len() implies key_stable(#[trigger] prev[k]) by {
                    assert(prev[k] == s[k]);
                }
            }
            assert(key_stable(s[s.len() - 1]));
        }
        if prev.len() > 0 && !spec_is_ws(s[0]) {
            assert(prev[0] == s[0]);
        }
        if spec_is_ws(s.last()) {
            if !ls0 {
                let o = out0.push(' ');
                assert forall|k: int| 0 <= k < o.len() && spec_is_ws(#[trigger] o[k]) implies o[k] == ' ' && (k
                    + 1 < o.len() ==> !spec_is_ws(o[k + 1])) by {
                    if k < out0.len() {
                        assert(o[k] == out0[k]);
                        if k + 1 < out0.len() {
                            assert(o[k + 1] == out0[k + 1]);
                        }
                    }
                }
                assert forall|k: int| all_key_stable(s) && 0 <= k < o.len() implies key_stable(#[trigger] o[k]) by {
                    if k < out0.len() {
                        assert(o[k] == out0[k]);
                    }
                }
            }
        } else {
            let o = out0.push(s.last());
            assert forall|k: int| 0 <= k < o.len() && spec_is_ws(#[trigger] o[k]) implies o[k] == ' ' && (k + 1
                < o.len() ==> !spec_is_ws(o[k + 1])) by {
                assert(o[k] == out0[k]);
                if k + 1 < out0.len() {
                    assert(o[k + 1] == out0[k + 1]);
                }
            }
            assert forall|k: int| all_key_stable(s) && 0 <= k < o.len() implies key_stable(#[trigger] o[k]) by {
                if k < out0.len() {
                    assert(o[k] == out0[k]);
                }
            }
        }
    }
}

proof fn lemma_collapse_identity(s: Seq<char>)
    requires
        collapsed(s),
    ensures
        collapse_ws_state(s) == (s, s.len() > 0 && spec_is_ws(s.last())),
    decreases s.len(),
{
    if s.len() > 0 {
        let prev = s.drop_last();
        assert(collapsed(prev)) by {
            assert forall|k: int| 0 <= k < prev.len() && spec_is_ws(#[trigger] prev[k]) implies prev[k] == ' ' && (k
                + 1 < prev.len() ==> !spec_is_ws(prev[k + 1])) by {
                assert(prev[k] == s[k]);
                if k + 1 < prev.len() {
                    assert(prev[k + 1] == s[k + 1]);
                }
            }
        }
        lemma_collapse_identity(prev);
        if spec_is_ws(s.last()) && prev.len() > 0 {
            assert(spec_is_ws(s[s.len() - 2]) ==> !spec_is_ws(s[s.len() - 1]));
        }
        assert(prev.push(s.last()) =~= s);
    }
}

proof fn lemma_normalized_shape(term: Seq<char>)
    ensures
        ({
            let y = spec_normalize_key(term);
            &&& all_key_stable(y)
            &&& collapsed(y)
            &&& y.len() > 0 ==> spec_is_lower(y[0]) && spec_is_lower(y.last())
        }),
{
    let t = trim(term);
    let mapped = t.map_values(|c: char| key_char(c));
    assert forall|k: int| 0 <= k < mapped.len() implies key_char(#[trigger] mapped[k]) == mapped[k] by {
        lemma_key_char_idempotent(t[k]);
    }
    let dq = drop_quotes(mapped);
    lemma_drop_quotes_stable(mapped);
    let z = strip(dq, CharSet::NotLower);
    lemma_strip_lower(dq);
    lemma_collapse_shape(z);
    let c = collapse_ws(z);
    if c.len() > 0 {
        assert(z.len() > 0);
    }
    lemma_strip_identity(c, CharSet::Whitespace);
    assert(spec_normalize_key(term) == c);
}

/// A normalised key normalises to itself, so a key stored in the lexicon is
/// found again under its own spelling.
pub proof fn normalize_key_is_idempotent(term: Seq<char>)
    ensures
        spec_normalize_key(spec_normalize_key(term)) == spec_normalize_key(term),
{
    lemma_normalized_shape(term);
    let y = spec_normalize_key(term);
    // Each step of the second normalisation leaves `y` as it is.
    lemma_strip_identity(y, CharSet::Whitespace);
    assert(trim(y) == y);
    assert(y.map_values(|ch: char| key_char(ch)) =~= y);
    lemma_drop_quotes_identity(y);
    lemma_strip_identity(y, CharSet::NotLower);
    lemma_collapse_identity(y);
}

/// The characters a key never holds: ASCII capitals, curly or straight
/// quotation marks, and Unicode dashes.
pub open spec fn foreign_to_keys(c: char) -> bool {
    ||| spec_is_upper(c)
    ||| c == '’' || c == '‘' || c == '“' || c == '”' || c == '"'
    ||| c == '‐' || c == '‑' || c == '‒' || c == '–' || c == '—' || c == '―'
}

/// The shape of every key: empty, or starting and ending with an ASCII
/// lower-case letter; without capitals, quotation marks or Unicode dashes;
/// its only whitespace single spaces between other characters.
pub proof fn normalized_key_shape(term: Seq<char>)
    ensures
        ({
            let k = spec_normalize_key(term);
            &&& k.len() > 0 ==> spec_is_lower(k[0]) && spec_is_lower(k.last())
            &&& forall|i: int| 0 <= i < k.len() ==> !foreign_to_keys(#[trigger] k[i])
            &&& forall|i: int|
                0 <= i < k.len() && spec_is_ws(#[trigger] k[i]) ==> k[i] == ' ' && 0 < i < k.len() - 1
                    && !spec_is_ws(k[i - 1]) && !spec_is_ws(k[i + 1])
        }),
{
    lemma_normalized_shape(term);
    let k = spec_normalize_key(term);
    assert forall|i: int| 0 <= i < k.len() implies !foreign_to_keys(#[trigger] k[i]) by {
        assert(key_stable(k[i]));
    }
    assert forall|i: int| 0 <= i < k.len() && spec_is_ws(#[trigger] k[i]) implies k[i] == ' ' && 0 < i < k.len()
        - 1 && !spec_is_ws(k[i - 1]) && !spec_is_ws(k[i + 1]) by {
        assert(!spec_is_ws(k[0]));
        assert(!spec_is_ws(k[k.len() - 1]));
        if spec_is_ws(k[i - 1]) {
            assert(k[i - 1] == ' ' && (i - 1 + 1 < k.len() ==> !spec_is_ws(k[i])));
        }
    }
}


/// The dictionary key of a term: trimmed, lower-cased, with curly apostrophes
/// and Unicode dashes made ASCII, quotes dropped, cut to the span from the
/// first to the last ASCII lower-case letter, and whitespace collapsed.
pub fn normalize_key(term: &str) -> (r: String)
    ensures
        r@ == spec_normalize_key(term@),
{
    let v = chars_of(term);
    let k = normalize_key_chars(&v);
    string_of(&k)
}

// ---------------------------------------------------------------------------
// normalize_title
// ---------------------------------------------------------------------------

/// Lower-cases, keeps ASCII letters and digits and turns every run of other
/// characters into one space.
pub open spec fn title_state(s: Seq<char>) -> (Seq<char>, bool)
    decreases s.len(),
{
    if s.len() == 0 {
        (s, false)
    } else {
        let (out, last_space) = title_state(s.drop_last());
        let c = spec_lower(s.last());
        if spec_is_alnum(c) {
            (out.push(c), false)
        } else if !last_space {
            (out.push(' '), true)
        } else {
            (out, true)
        }
    }
}

pub open spec fn spec_normalize_title(text: Seq<char>) -> Seq<char> {
    trim(title_state(text).0)
}

/// A title reduced to lower-case ASCII words separated by single spaces.
pub fn normalize_title(text: &str) -> (r: String)
    ensures
        r@ == spec_normalize_title(text@),
{
    let v = chars_of(text);
    let mut out: Vec<char> = Vec::new();
    let mut last_space = false;
    let mut i: usize = 0;
    while i < v.len()
        invariant
            i <= v.len(),
            v@ == text@,
            (out@, last_space) == title_state(v@.take(i as int)),
        decreases v.len() - i,
    {
        assert(v@.take(i + 1).drop_last() =~= v@.take(i as int));
        let c = lower(v[i]);
        if is_alnum(c) {
            out.push(c);
            last_space = false;
        } else if !last_space {
            out.push(' ');
            last_space = true;
        } else {
            last_space = true;
        }
        i += 1;
    }
    assert(v@.take(v.len() as int) =~= v@);
    let t = trim_chars(&out);
    string_of(&t)
}

// ---------------------------------------------------------------------------
// key_variants
// ---------------------------------------------------------------------------

pub open spec fn replace_char(s: Seq<char>, from: char, to: char) -> Seq<char> {
    s.map_values(|c: char| if c == from { to } else { c })
}

/// `s` without hyphens and spaces.
pub open spec fn drop_joiners(s: Seq<char>) -> Seq<char>
    decreases s.len(),
{
    if s.len() == 0 {
        s
    } else if s.last() == '-' || s.last() == ' ' {
        drop_joiners(s.drop_last())
    } else {
        drop_joiners(s.drop_last()).push(s.last())
    }
}

/// Appends `item` unless it is empty or already present.
pub open spec fn add_unique(acc: Seq<Seq<char>>, item: Seq<char>) -> Seq<Seq<char>> {
    if item.len() > 0 && !acc.contains(item) {
        acc.push(item)
    } else {
        acc
    }
}

/// Appends each item of `items` in turn with `add_unique`.
pub open spec fn add_all_unique(acc: Seq<Seq<char>>, items: Seq<Seq<char>>) -> Seq<Seq<char>>
    decreases items.len(),
{
    if items.len() == 0 {
        acc
    } else {
        add_unique(add_all_unique(acc, items.drop_last()), items.last())
    }
}

/// The spellings of a key: as written, with hyphens as spaces, with spaces as
/// hyphens and with both removed; without empty or repeated ones.
pub open spec fn spec_key_variants(term: Seq<char>) -> Seq<Seq<char>> {
    let key = spec_normalize_key(term);
    add_all_unique(
        seq![],
        seq![key, replace_char(key, '-', ' '), replace_char(key, ' ', '-'), drop_joiners(key)],
    )
}

fn replace_chars(v: &Vec<char>, from: char, to: char) -> (r: Vec<char>)
    ensures
        r@ == replace_char(v@, from, to),
{
    let mut r: Vec<char> = Vec::new();
    let mut i: usize = 0;
    while i < v.len()
        invariant
            i <= v.len(),
            r@ == replace_char(v@.take(i as int), from, to),
        decreases v.len() - i,
    {
        let c = if v[i] == from {
            to
        } else {
            v[i]
        };
        r.push(c);
        assert(replace_char(v@.take(i + 1), from, to) =~= replace_char(
            v@.take(i as int),
            from,
            to,
        ).push(c));
        i += 1;
    }
    assert(v@.take(v.len() as int) =~= v@);
    r
}

fn remove_joiners(v: &Vec<char>) -> (r: Vec<char>)
    ensures
        r@ == drop_joiners(v@),
{
    let mut r: Vec<char> = Vec::new();
    let mut i: usize = 0;
    while i < v.len()
        invariant
            i <= v.len(),
            r@ == drop_joiners(v@.take(i as int)),
        decreases v.len() - i,
    {
        assert(v@.take(i + 1).drop_last() =~= v@.take(i as int));
        if !(v[i] == '-' || v[i] == ' ') {
            r.push(v[i]);
        }
        i += 1;
    }
    assert(v@.take(v.len() as int) =~= v@);
    r
}

/// Whether the strings of `list` contain `item`.
pub fn contains_string(list: &Vec<String>, item: &Vec<char>) -> (r: bool)
    ensures
        r == list.deep_view().contains(item@),
{
    let mut i: usize = 0;
    while i < list.len()
        invariant
            i <= list.len(),
            forall|k: int| 0 <= k < i ==> list.deep_view()[k] != item@,
        decreases list.len() - i,
    {
        let c = chars_of(list[i].as_str());
        if chars_eq(&c, item) {
            assert(list.deep_view()[i as int] == item@);
            return true;
        }
        i += 1;
    }
    assert forall|k: int| 0 <= k < list.deep_view().len() implies list.deep_view()[k] != item@ by {}
    false
}

/// `add_unique` on a vector of strings.
pub fn push_unique(list: &mut Vec<String>, item: &Vec<char>)
    ensures
        final(list).deep_view() == add_unique(old(list).deep_view(), item@),
{
    if item.len() > 0 && !contains_string(list, item) {
        let s = string_of(item);
        list.push(s);
        assert(list.deep_view() =~= old(list).deep_view().push(item@));
    }
}

pub proof fn lemma_add_all_unique_step(acc: Seq<Seq<char>>, items: Seq<Seq<char>>, i: int)
    requires
        0 <= i < items.len(),
    ensures
        add_all_unique(acc, items.take(i + 1)) == add_unique(
            add_all_unique(acc, items.take(i)),
            items[i],
        ),
        add_all_unique(acc, items.take(0)) == acc,
{
    assert(items.take(i + 1).drop_last() =~= items.take(i));
    assert(items.take(0) =~= Seq::<Seq<char>>::empty());
}

/// `add_all_unique` on vectors of strings.
pub fn push_all_unique(list: &mut Vec<String>, items: &Vec<String>)
    ensures
        final(list).deep_view() == add_all_unique(old(list).deep_view(), items.deep_view()),
{
    let mut i: usize = 0;
    while i < items.len()
        invariant
            i <= items.len(),
            list.deep_view() == add_all_unique(old(list).deep_view(), items.deep_view().take(i as int)),
        decreases items.len() - i,
    {
        assert(items.deep_view().take(i + 1).drop_last() =~= items.deep_view().take(i as int));
        let c = chars_of(items[i].as_str());
        push_unique(list, &c);
        i += 1;
    }
    assert(items.deep_view().take(items.len() as int) =~= items.deep_view());
}

/// The spellings of a key, from the characters of the term.
pub fn key_variants_chars(term: &Vec<char>) -> (r: Vec<String>)
    ensures
        r.deep_view() == spec_key_variants(term@),
{
    let key = normalize_key_chars(term);
    let a = replace_chars(&key, '-', ' ');
    let b = replace_chars(&key, ' ', '-');
    let c = remove_joiners(&key);
    let mut out: Vec<String> = Vec::new();
    let ghost items = seq![key@, a@, b@, c@];
    assert(out.deep_view() =~= Seq::<Seq<char>>::empty());
    proof {
        lemma_add_all_unique_step(seq![], items, 0);
    }
    push_unique(&mut out, &key);
    proof {
        lemma_add_all_unique_step(seq![], items, 1);
    }
    push_unique(&mut out, &a);
    proof {
        lemma_add_all_unique_step(seq![], items, 2);
    }
    push_unique(&mut out, &b);
    proof {
        lemma_add_all_unique_step(seq![], items, 3);
    }
    push_unique(&mut out, &c);
    assert(items.take(4) =~= items);
    out
}

/// The spellings under which a term is stored in a lexicon: its key as
/// written, with hyphens as spaces, with spaces as hyphens and with both
/// removed; none empty, none repeated, in that order.
pub fn key_variants(term: &str) -> (r: Vec<String>)
    ensures
        r.deep_view() == spec_key_variants(term@),
{
    let v = chars_of(term);
    key_variants_chars(&v)
}

// ---------------------------------------------------------------------------
// candidate_lemmas
// ---------------------------------------------------------------------------

/// The number of bytes that UTF-8 takes to encode `c`.
pub open spec fn char_width(c: char) -> nat {
    if (c as u32) < 0x80 {
        1
    } else if (c as u32) < 0x800 {
        2
    } else if (c as u32) < 0x10000 {
        3
    } else {
        4
    }
}

/// The length of the UTF-8 encoding of `s`, which is what `str::len` returns.
pub open spec fn byte_len(s: Seq<char>) -> nat
    decreases s.len(),
{
    if s.len() == 0 {
        0
    } else {
        byte_len(s.drop_last()) + char_width(s.last())
    }
}

pub open spec fn min_nat(a: nat, b: nat) -> nat {
    if a < b {
        a
    } else {
        b
    }
}

/// The stems that stripping `suffix` from `key` gives: the bare stem, and for
/// `-ing` and `-ed` also the stem with `e` and the stem without a doubled
/// final letter.
pub open spec fn suffix_candidates(
    c: Seq<Seq<char>>,
    key: Seq<char>,
    suffix: Seq<char>,
    verb: bool,
) -> Seq<Seq<char>> {
    if byte_len(key) <= suffix.len() + 2 || !ends_with(key, suffix) {
        c
    } else {
        let stem = key.take(key.len() - suffix.len());
        let c1 = c.push(stem);
        if verb {
            let c2 = c1.push(stem.push('e'));
            if stem.len() > 2 && stem[stem.len() - 1] == stem[stem.len() - 2] {
                c2.push(stem.drop_last())
            } else {
                c2
            }
        } else {
            c1
        }
    }
}

/// The plural and inflection rewrites of a key ending in `suffix`: the key
/// without the suffix followed by each of the endings.
pub open spec fn ending_candidates(
    c: Seq<Seq<char>>,
    key: Seq<char>,
    suffix: Seq<char>,
    endings: Seq<Seq<char>>,
) -> Seq<Seq<char>> {
    if ends_with(key, suffix) && byte_len(key) > 4 {
        c + endings.map_values(|e: Seq<char>| key.take(key.len() - suffix.len()) + e)
    } else {
        c
    }
}

/// The forms tried for a key, before their spellings are expanded.
pub open spec fn raw_candidates(key: Seq<char>) -> Seq<Seq<char>> {
    let c0 = seq![key];
    let c1 = if ends_with(key, "'s"@) && byte_len(key) > 2 {
        c0.push(key.take(key.len() - "'s"@.len()))
    } else {
        c0
    };
    let c2 = if has_char(key, '-') {
        c1 + spec_key_variants(key)
    } else {
        c1
    };
    let c3 = suffix_candidates(c2, key, "ing"@, true);
    let c4 = suffix_candidates(c3, key, "ed"@, true);
    let c5 = suffix_candidates(c4, key, "s"@, false);
    let c6 = suffix_candidates(c5, key, "es"@, false);
    let c7 = suffix_candidates(c6, key, "ly"@, false);
    let c8 = suffix_candidates(c7, key, "er"@, false);
    let c9 = suffix_candidates(c8, key, "est"@, false);
    let c10 = ending_candidates(c9, key, "ies"@, seq!["y"@]);
    let c11 = ending_candidates(c10, key, "ves"@, seq!["f"@, "fe"@]);
    ending_candidates(c11, key, "men"@, seq!["man"@])
}

/// The spellings of every item, in order, without repeats.
pub open spec fn ordered_variants(items: Seq<Seq<char>>) -> Seq<Seq<char>>
    decreases items.len(),
{
    if items.len() == 0 {
        seq![]
    } else {
        add_all_unique(ordered_variants(items.drop_last()), spec_key_variants(items.last()))
    }
}

pub open spec fn spec_candidate_lemmas(word: Seq<char>) -> Seq<Seq<char>> {
    ordered_variants(raw_candidates(spec_normalize_key(word)))
}

proof fn lemma_add_all_unique_prefix(acc: Seq<Seq<char>>, items: Seq<Seq<char>>)
    ensures
        acc.len() <= add_all_unique(acc, items).len(),
        forall|k: int| 0 <= k < acc.len() ==> #[trigger] add_all_unique(acc, items)[k] == acc[k],
    decreases items.len(),
{
    if items.len() > 0 {
        lemma_add_all_unique_prefix(acc, items.drop_last());
    }
}

proof fn lemma_add_all_unique_first(v: Seq<Seq<char>>)
    requires
        v.len() > 0,
        v[0].len() > 0,
    ensures
        add_all_unique(seq![], v).len() > 0,
        add_all_unique(seq![], v)[0] == v[0],
    decreases v.len(),
{
    if v.len() == 1 {
        assert(v.drop_last() =~= Seq::<Seq<char>>::empty());
        assert(add_all_unique(seq![], v.drop_last()) == Seq::<Seq<char>>::empty());
        assert(!Seq::<Seq<char>>::empty().contains(v[0]));
    } else {
        assert(v.drop_last()[0] == v[0]);
        lemma_add_all_unique_first(v.drop_last());
    }
}

proof fn lemma_ordered_variants_first(items: Seq<Seq<char>>)
    requires
        items.len() > 0,
        spec_key_variants(items[0]).len() > 0,
        spec_key_variants(items[0])[0].len() > 0,
    ensures
        ordered_variants(items).len() > 0,
        ordered_variants(items)[0] == spec_key_variants(items[0])[0],
    decreases items.len(),
{
    if items.len() == 1 {
        assert(items.drop_last() =~= Seq::<Seq<char>>::empty());
        assert(ordered_variants(items.drop_last()) == Seq::<Seq<char>>::empty());
        assert(items.last() == items[0]);
        lemma_add_all_unique_first(spec_key_variants(items[0]));
    } else {
        lemma_ordered_variants_first(items.drop_last());
        assert(items.drop_last()[0] == items[0]);
        lemma_add_all_unique_prefix(ordered_variants(items.drop_last()), spec_key_variants(items.last()));
    }
}

proof fn lemma_key_variants_first(key: Seq<char>)
    requires
        key.len() > 0,
        spec_normalize_key(key) == key,
    ensures
        spec_key_variants(key).len() > 0,
        spec_key_variants(key)[0] == key,
{
    let items = seq![key, replace_char(key, '-', ' '), replace_char(key, ' ', '-'), drop_joiners(key)];
    lemma_add_all_unique_first(items);
}

proof fn lemma_raw_candidates_first(key: Seq<char>)
    ensures
        raw_candidates(key).len() > 0,
        raw_candidates(key)[0] == key,
{
    let c0 = seq![key];
    let c1 = if ends_with(key, "'s"@) && byte_len(key) > 2 {
        c0.push(key.take(key.len() - "'s"@.len()))
    } else {
        c0
    };
    let c2 = if has_char(key, '-') {
        c1 + spec_key_variants(key)
    } else {
        c1
    };
    assert(c2[0] == key);
    let c3 = suffix_candidates(c2, key, "ing"@, true);
    let c4 = suffix_candidates(c3, key, "ed"@, true);
    let c5 = suffix_candidates(c4, key, "s"@, false);
    let c6 = suffix_candidates(c5, key, "es"@, false);
    let c7 = suffix_candidates(c6, key, "ly"@, false);
    let c8 = suffix_candidates(c7, key, "er"@, false);
    let c9 = suffix_candidates(c8, key, "est"@, false);
    assert(c3[0] == key && c4[0] == key && c5[0] == key && c6[0] == key);
    assert(c7[0] == key && c8[0] == key && c9[0] == key);
    let c10 = ending_candidates(c9, key, "ies"@, seq!["y"@]);
    let c11 = ending_candidates(c10, key, "ves"@, seq!["f"@, "fe"@]);
    assert(c10[0] == key && c11[0] == key);
    assert(raw_candidates(key) == ending_candidates(c11, key, "men"@, seq!["man"@]));
}

/// A word is looked up as itself before any lemma: its own key is its first
/// candidate whenever it has one.
pub proof fn own_key_comes_first(word: Seq<char>)
    requires
        spec_normalize_key(word).len() > 0,
    ensures
        spec_candidate_lemmas(word).len() > 0,
        spec_candidate_lemmas(word)[0] == spec_normalize_key(word),
{
    let key = spec_normalize_key(word);
    normalize_key_is_idempotent(word);
    lemma_raw_candidates_first(key);
    lemma_key_variants_first(key);
    lemma_ordered_variants_first(raw_candidates(key));
}

fn take_vec(v: &Vec<char>, n: usize) -> (r: Vec<char>)
    requires
        n <= v.len(),
    ensures
        r@ == v@.take(n as int),
{
    let mut r: Vec<char> = Vec::new();
    let mut i: usize = 0;
    while i < n
        invariant
            i <= n <= v.len(),
            r@ == v@.take(i as int),
        decreases n - i,
    {
        r.push(v[i]);
        assert(v@.take(i + 1) =~= v@.take(i as int).push(v@[i as int]));
        i += 1;
    }
    r
}

fn append_vec(a: &Vec<char>, b: &Vec<char>) -> (r: Vec<char>)
    ensures
        r@ == a@ + b@,
{
    let mut r = a.clone();
    let mut i: usize = 0;
    while i < b.len()
        invariant
            i <= b.len(),
            r@ == a@ + b@.take(i as int),
        decreases b.len() - i,
    {
        r.push(b[i]);
        assert(b@.take(i + 1) =~= b@.take(i as int).push(b@[i as int]));
        i += 1;
    }
    assert(b@.take(b.len() as int) =~= b@);
    r
}

/// `str::len` of the characters `v`, or `cap` if that is less.
pub fn utf8_len_capped(v: &Vec<char>, cap: usize) -> (n: usize)
    ensures
        n == min_nat(byte_len(v@), cap as nat),
{
    let mut n: usize = 0;
    let mut i: usize = 0;
    while i < v.len()
        invariant
            i <= v.len(),
            n == min_nat(byte_len(v@.take(i as int)), cap as nat),
        decreases v.len() - i,
    {
        assert(v@.take(i + 1).drop_last() =~= v@.take(i as int));
        let c = v[i] as u32;
        let w: usize = if c < 0x80 {
            1
        } else if c < 0x800 {
            2
        } else if c < 0x10000 {
            3
        } else {
            4
        };
        if n < cap {
            if cap - n < w {
                n = cap;
            } else {
                n = n + w;
            }
        }
        i += 1;
    }
    assert(v@.take(v.len() as int) =~= v@);
    n
}

/// Appends the string made of the characters `v`.
pub fn push_string(list: &mut Vec<String>, v: &Vec<char>)
    ensures
        final(list).deep_view() == old(list).deep_view().push(v@),
{
    let s = string_of(v);
    list.push(s);
    assert(list.deep_view() =~= old(list).deep_view().push(v@));
}

fn add_suffix_candidates(
    c: &mut Vec<String>,
    key: &Vec<char>,
    key_bytes: usize,
    suffix: &str,
    verb: bool,
)
    requires
        key_bytes == min_nat(byte_len(key@), 8),
        suffix@.len() <= 3,
    ensures
        final(c).deep_view() == suffix_candidates(old(c).deep_view(), key@, suffix@, verb),
{
    let p = chars_of(suffix);
    if key_bytes <= p.len() || key_bytes - p.len() <= 2 || !chars_ends_with(key, suffix) {
        return;
    }
    let stem = take_vec(key, key.len() - p.len());
    push_string(c, &stem);
    if verb {
        let mut with_e = stem.clone();
        with_e.push('e');
        push_string(c, &with_e);
        let n = stem.len();
        if n > 2 && stem[n - 1] == stem[n - 2] {
            let shorter = take_vec(&stem, n - 1);
            assert(shorter@ =~= stem@.drop_last());
            push_string(c, &shorter);
        }
    }
}

fn add_ending_candidates(
    c: &mut Vec<String>,
    key: &Vec<char>,
    key_bytes: usize,
    suffix: &str,
    endings: &Vec<&str>,
)
    requires
        key_bytes == min_nat(byte_len(key@), 8),
    ensures
        final(c).deep_view() == ending_candidates(
            old(c).deep_view(),
            key@,
            suffix@,
            endings@.map_values(|e: &str| e@),
        ),
{
    let ghost ends = endings@.map_values(|e: &str| e@);
    if !(chars_ends_with(key, suffix) && key_bytes > 4) {
        return;
    }
    let p = chars_of(suffix);
    let stem = take_vec(key, key.len() - p.len());
    let mut i: usize = 0;
    while i < endings.len()
        invariant
            i <= endings.len(),
            stem@ == key@.take(key@.len() - suffix@.len()),
            ends == endings@.map_values(|e: &str| e@),
            c.deep_view() == old(c).deep_view() + ends.take(i as int).map_values(
                |e: Seq<char>| key@.take(key@.len() - suffix@.len()) + e,
            ),
        decreases endings.len() - i,
    {
        let e = chars_of(endings[i]);
        let item = append_vec(&stem, &e);
        push_string(c, &item);
        assert(ends.take(i + 1).map_values(|e: Seq<char>| key@.take(key@.len() - suffix@.len()) + e)
            =~= ends.take(i as int).map_values(|e: Seq<char>| key@.take(key@.len() - suffix@.len()) + e).push(
            key@.take(key@.len() - suffix@.len()) + ends[i as int],
        ));
        i += 1;
    }
    assert(ends.take(endings.len() as int) =~= ends);
}

/// The forms tried for a key.
fn raw_candidates_of(key: &Vec<char>) -> (r: Vec<String>)
    ensures
        r.deep_view() == raw_candidates(key@),
{
    let key_bytes = utf8_len_capped(key, 8);
    let mut c: Vec<String> = Vec::new();
    assert(c.deep_view() =~= Seq::<Seq<char>>::empty());
    push_string(&mut c, key);
    assert(c.deep_view() =~= seq![key@]);
    if chars_ends_with(key, "'s") && key_bytes > 2 {
        let p = chars_of("'s");
        let stem = take_vec(key, key.len() - p.len());
        push_string(&mut c, &stem);
    }
    if chars_has(key, '-') {
        let variants = key_variants_chars(key);
        let ghost before = c.deep_view();
        let mut i: usize = 0;
        while i < variants.len()
            invariant
                i <= variants.len(),
                c.deep_view() == before + variants.deep_view().take(i as int),
            decreases variants.len() - i,
        {
            let v = chars_of(variants[i].as_str());
            push_string(&mut c, &v);
            assert(variants.deep_view().take(i + 1) =~= variants.deep_view().take(i as int).push(
                variants.deep_view()[i as int],
            ));
            i += 1;
        }
        assert(variants.deep_view().take(variants.len() as int) =~= variants.deep_view());
    }
    proof {
        reveal_strlit("ing");
        reveal_strlit("ed");
        reveal_strlit("s");
        reveal_strlit("es");
        reveal_strlit("ly");
        reveal_strlit("er");
        reveal_strlit("est");
    }
    add_suffix_candidates(&mut c, key, key_bytes, "ing", true);
    add_suffix_candidates(&mut c, key, key_bytes, "ed", true);
    add_suffix_candidates(&mut c, key, key_bytes, "s", false);
    add_suffix_candidates(&mut c, key, key_bytes, "es", false);
    add_suffix_candidates(&mut c, key, key_bytes, "ly", false);
    add_suffix_candidates(&mut c, key, key_bytes, "er", false);
    add_suffix_candidates(&mut c, key, key_bytes, "est", false);
    let ies = vec!["y"];
    assert(ies@.map_values(|e: &str| e@) =~= seq!["y"@]);
    add_ending_candidates(&mut c, key, key_bytes, "ies", &ies);
    let ves = vec!["f", "fe"];
    assert(ves@.map_values(|e: &str| e@) =~= seq!["f"@, "fe"@]);
    add_ending_candidates(&mut c, key, key_bytes, "ves", &ves);
    let men = vec!["man"];
    assert(men@.map_values(|e: &str| e@) =~= seq!["man"@]);
    add_ending_candidates(&mut c, key, key_bytes, "men", &men);
    c
}

/// The dictionary keys under which an inflected word may be found, in the
/// order in which they are tried: the word's key, its spellings, and the
/// stems that removing `'s`, `-ing`, `-ed`, `-s`, `-es`, `-ly`, `-er`,
/// `-est`, `-ies`, `-ves` and `-men` gives, each expanded to its spellings,
/// without repeats.
pub fn candidate_lemmas(word: &str) -> (r: Vec<String>)
    ensures
        r.deep_view() == spec_candidate_lemmas(word@),
{
    let w = chars_of(word);
    let key = normalize_key_chars(&w);
    let items = raw_candidates_of(&key);
    let mut ordered: Vec<String> = Vec::new();
    let mut i: usize = 0;
    while i < items.len()
        invariant
            i <= items.len(),
            ordered.deep_view() == ordered_variants(items.deep_view().take(i as int)),
        decreases items.len() - i,
    {
        assert(items.deep_view().take(i + 1).drop_last() =~= items.deep_view().take(i as int));
        let item = chars_of(items[i].as_str());
        let variants = key_variants_chars(&item);
        push_all_unique(&mut ordered, &variants);
        i += 1;
    }
    assert(items.deep_view().take(items.len() as int) =~= items.deep_view());
    ordered
}

} // verus!
