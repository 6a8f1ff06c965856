//! Short meanings cut from dictionary definitions.
use vstd::prelude::*;
use crate::lexicon::LexiconEntry;
use crate::normalize::{collapse_ws, push_string};
use crate::pronounce::{push_str, replace_pair};
use crate::text::{
    chars_contains, chars_of, chars_starts_with, contains_seq, is_cjk, is_ws, lower, push_char,
    push_chars, spec_is_cjk, spec_is_ws, spec_lower, starts_with, string_of, strip, strip_chars,
    strip_start, strip_start_chars, trim, trim_chars, CharSet, split_at_set, split_chars, has_cjk,
    chars_have_cjk,
};
use crate::custom::sub_vec;
use crate::text::lemma_lead;

verus! {

// ---------------------------------------------------------------------------
// Inflection notes
// ---------------------------------------------------------------------------

/// Whether a definition speaks of an inflected form (plural, past tense...).
pub open spec fn spec_contains_inflection_note(text: Seq<char>) -> bool {
    let l = text.map_values(|c: char| spec_lower(c));
    ||| contains_seq(l, "复数"@)
    ||| contains_seq(l, "过去式"@)
    ||| contains_seq(l, "过去分词"@)
    ||| contains_seq(l, "现在分词"@)
    ||| contains_seq(l, "第三人称"@)
    ||| contains_seq(l, "比较级"@)
    ||| contains_seq(l, "最高级"@)
    ||| contains_seq(l, "变形"@)
    ||| contains_seq(l, "形式"@)
    ||| contains_seq(l, "plural"@)
    ||| contains_seq(l, "past tense"@)
}

pub fn lower_chars(v: &Vec<char>) -> (r: Vec<char>)
    ensures
        r@ == v@.map_values(|c: char| spec_lower(c)),
{
    let mut r: Vec<char> = Vec::new();
    let mut i: usize = 0;
    while i < v.len()
        invariant
            i <= v.len(),
            r@ == v@.take(i as int).map_values(|c: char| spec_lower(c)),
        decreases v.len() - i,
    {
        r.push(lower(v[i]));
        assert(v@.take(i + 1).map_values(|c: char| spec_lower(c)) =~= v@.take(i as int).map_values(
            |c: char| spec_lower(c),
        ).push(spec_lower(v@[i as int])));
        i += 1;
    }
    assert(v@.take(v.len() as int) =~= v@);
    r
}

fn has_inflection_note(v: &Vec<char>) -> (r: bool)
    ensures
        r == spec_contains_inflection_note(v@),
{
    let l = lower_chars(v);
    chars_contains(&l, "复数") || chars_contains(&l, "过去式") || chars_contains(&l, "过去分词")
        || chars_contains(&l, "现在分词") || chars_contains(&l, "第三人称") || chars_contains(
        &l,
        "比较级",
    ) || chars_contains(&l, "最高级") || chars_contains(&l, "变形") || chars_contains(&l, "形式")
        || chars_contains(&l, "plural") || chars_contains(&l, "past tense")
}

/// Whether a definition speaks of an inflected form: plural, past tense,
/// participles, third person, comparative, superlative, or a variant form.
pub fn contains_inflection_note(text: &str) -> (r: bool)
    ensures
        r == spec_contains_inflection_note(text@),
{
    let v = chars_of(text);
    has_inflection_note(&v)
}

// ---------------------------------------------------------------------------
// Brackets
// ---------------------------------------------------------------------------

/// The text outside the brackets, and the depth of nesting at its end.
pub open spec fn bracket_state(s: Seq<char>, open: char, close: char) -> (Seq<char>, nat)
    decreases s.len(),
{
    if s.len() == 0 {
        (seq![], 0)
    } else {
        let (out, depth) = bracket_state(s.drop_last(), open, close);
        let ch = s.last();
        if ch == open {
            (out, depth + 1)
        } else if ch == close && depth > 0 {
            (out, (depth - 1) as nat)
        } else if depth == 0 {
            (out.push(ch), depth)
        } else {
            (out, depth)
        }
    }
}

pub open spec fn spec_remove_bracketed(s: Seq<char>, open: char, close: char) -> Seq<char> {
    bracket_state(s, open, close).0
}

proof fn lemma_bracket_depth(s: Seq<char>, open: char, close: char)
    ensures
        bracket_state(s, open, close).1 <= s.len(),
    decreases s.len(),
{
    if s.len() > 0 {
        lemma_bracket_depth(s.drop_last(), open, close);
    }
}

fn remove_bracketed_chars(v: &Vec<char>, open: char, close: char) -> (r: Vec<char>)
    ensures
        r@ == spec_remove_bracketed(v@, open, close),
{
    let mut depth: usize = 0;
    let mut out: Vec<char> = Vec::new();
    let mut i: usize = 0;
    while i < v.len()
        invariant
            i <= v.len(),
            (out@, depth as nat) == bracket_state(v@.take(i as int), open, close),
        decreases v.len() - i,
    {
        assert(v@.take(i + 1).drop_last() =~= v@.take(i as int));
        proof {
            lemma_bracket_depth(v@.take(i as int), open, close);
        }
        let ch = v[i];
        i += 1;
        if ch == open {
            depth += 1;
            continue;
        }
        if ch == close && depth > 0 {
            depth -= 1;
            continue;
        }
        if depth == 0 {
            out.push(ch);
        }
    }
    assert(v@.take(v.len() as int) =~= v@);
    out
}

/// The text without what stands between `open` and `close` (nested brackets
/// count; an unmatched `close` is dropped, an unmatched `open` drops the rest).
pub fn remove_bracketed(text: &str, open: char, close: char) -> (r: String)
    ensures
        r@ == spec_remove_bracketed(text@, open, close),
{
    let v = chars_of(text);
    let r = remove_bracketed_chars(&v, open, close);
    string_of(&r)
}

/// The text kept, the parenthesis being read, and whether one is open.
pub open spec fn paren_state(s: Seq<char>) -> (Seq<char>, Seq<char>, bool)
    decreases s.len(),
{
    if s.len() == 0 {
        (seq![], seq![], false)
    } else {
        let (out, buf, in_paren) = paren_state(s.drop_last());
        let ch = s.last();
        if (ch == '(' || ch == '（') && !in_paren {
            (out, seq![], true)
        } else if (ch == ')' || ch == '）') && in_paren {
            if !spec_contains_inflection_note(buf) {
                (out + seq!['（'] + buf + seq!['）'], buf, false)
            } else {
                (out, buf, false)
            }
        } else if in_paren {
            (out, buf.push(ch), in_paren)
        } else {
            (out.push(ch), buf, in_paren)
        }
    }
}

pub open spec fn spec_remove_inflection_parentheses(s: Seq<char>) -> Seq<char> {
    let (out, buf, in_paren) = paren_state(s);
    if in_paren {
        out + buf
    } else {
        out
    }
}

fn remove_inflection_parentheses_chars(v: &Vec<char>) -> (r: Vec<char>)
    ensures
        r@ == spec_remove_inflection_parentheses(v@),
{
    let mut out: Vec<char> = Vec::new();
    let mut buf: Vec<char> = Vec::new();
    let mut in_paren = false;
    let mut i: usize = 0;
    while i < v.len()
        invariant
            i <= v.len(),
            (out@, buf@, in_paren) == paren_state(v@.take(i as int)),
        decreases v.len() - i,
    {
        assert(v@.take(i + 1).drop_last() =~= v@.take(i as int));
        let ch = v[i];
        i += 1;
        if (ch == '(' || ch == '（') && !in_paren {
            in_paren = true;
            buf = Vec::new();
            assert(buf@ =~= Seq::<char>::empty());
            continue;
        }
        if (ch == ')' || ch == '）') && in_paren {
            in_paren = false;
            if !has_inflection_note(&buf) {
                let ghost before = out@;
                out.push('（');
                let mut k: usize = 0;
                while k < buf.len()
                    invariant
                        k <= buf.len(),
                        out@ == before + seq!['（'] + buf@.take(k as int),
                    decreases buf.len() - k,
                {
                    out.push(buf[k]);
                    assert(buf@.take(k + 1) =~= buf@.take(k as int).push(buf@[k as int]));
                    k += 1;
                }
                out.push('）');
                assert(buf@.take(buf.len() as int) =~= buf@);
                assert(out@ =~= before + seq!['（'] + buf@ + seq!['）']);
            }
            continue;
        }
        if in_paren {
            buf.push(ch);
        } else {
            out.push(ch);
        }
    }
    assert(v@.take(v.len() as int) =~= v@);
    if in_paren {
        let ghost before = out@;
        let mut k: usize = 0;
        while k < buf.len()
            invariant
                k <= buf.len(),
                out@ == before + buf@.take(k as int),
            decreases buf.len() - k,
        {
            out.push(buf[k]);
            assert(buf@.take(k + 1) =~= buf@.take(k as int).push(buf@[k as int]));
            k += 1;
        }
        assert(buf@.take(buf.len() as int) =~= buf@);
    }
    out
}

/// The text with the parentheses that note an inflection removed; the others
/// are kept, written as full-width parentheses.
pub fn remove_inflection_parentheses(text: &str) -> (r: String)
    ensures
        r@ == spec_remove_inflection_parentheses(text@),
{
    let v = chars_of(text);
    let r = remove_inflection_parentheses_chars(&v);
    string_of(&r)
}

// ---------------------------------------------------------------------------
// Part-of-speech prefixes
// ---------------------------------------------------------------------------

/// The part-of-speech label at the start of `lower`, in the order tried.
pub open spec fn pos_prefix(lower: Seq<char>) -> Option<Seq<char>> {
    if starts_with(lower, "adj."@) {
        Some("adj."@)
    } else if starts_with(lower, "adv."@) {
        Some("adv."@)
    } else if starts_with(lower, "prep."@) {
        Some("prep."@)
    } else if starts_with(lower, "conj."@) {
        Some("conj."@)
    } else if starts_with(lower, "pron."@) {
        Some("pron."@)
    } else if starts_with(lower, "num."@) {
        Some("num."@)
    } else if starts_with(lower, "art."@) {
        Some("art."@)
    } else if starts_with(lower, "int."@) {
        Some("int."@)
    } else if starts_with(lower, "vt."@) {
        Some("vt."@)
    } else if starts_with(lower, "vi."@) {
        Some("vi."@)
    } else if starts_with(lower, "n."@) {
        Some("n."@)
    } else if starts_with(lower, "v."@) {
        Some("v."@)
    } else if starts_with(lower, "a."@) {
        Some("a."@)
    } else {
        None
    }
}

pub proof fn lemma_pos_prefix(lower: Seq<char>)
    ensures
        pos_prefix(lower) matches Some(p) ==> p.len() > 0 && starts_with(lower, p),
{
    reveal_strlit("adj.");
    reveal_strlit("adv.");
    reveal_strlit("prep.");
    reveal_strlit("conj.");
    reveal_strlit("pron.");
    reveal_strlit("num.");
    reveal_strlit("art.");
    reveal_strlit("int.");
    reveal_strlit("vt.");
    reveal_strlit("vi.");
    reveal_strlit("n.");
    reveal_strlit("v.");
    reveal_strlit("a.");
}

/// The text with leading whitespace and part-of-speech labels (`adj.`,
/// `n.`, `vt.`...) removed, as often as they occur.
pub open spec fn spec_strip_pos_prefix(s: Seq<char>) -> Seq<char>
    decreases s.len(),
{
    let t = strip_start(s, CharSet::Whitespace);
    match pos_prefix(t.map_values(|c: char| spec_lower(c))) {
        Some(p) => {
            proof {
                lemma_lead(s, CharSet::Whitespace);
                lemma_pos_prefix(t.map_values(|c: char| spec_lower(c)));
            }
            spec_strip_pos_prefix(t.skip(p.len() as int))
        },
        None => t,
    }
}

fn pos_prefix_of(lower: &Vec<char>) -> (r: Option<&'static str>)
    ensures
        r matches Some(p) ==> pos_prefix(lower@) == Some(p@),
        r is None ==> pos_prefix(lower@) is None,
{
    if chars_starts_with(lower, "adj.") {
        Some("adj.")
    } else if chars_starts_with(lower, "adv.") {
        Some("adv.")
    } else if chars_starts_with(lower, "prep.") {
        Some("prep.")
    } else if chars_starts_with(lower, "conj.") {
        Some("conj.")
    } else if chars_starts_with(lower, "pron.") {
        Some("pron.")
    } else if chars_starts_with(lower, "num.") {
        Some("num.")
    } else if chars_starts_with(lower, "art.") {
        Some("art.")
    } else if chars_starts_with(lower, "int.") {
        Some("int.")
    } else if chars_starts_with(lower, "vt.") {
        Some("vt.")
    } else if chars_starts_with(lower, "vi.") {
        Some("vi.")
    } else if chars_starts_with(lower, "n.") {
        Some("n.")
    } else if chars_starts_with(lower, "v.") {
        Some("v.")
    } else if chars_starts_with(lower, "a.") {
        Some("a.")
    } else {
        None
    }
}

fn strip_pos_prefix_chars(v: &Vec<char>) -> (r: Vec<char>)
    ensures
        r@ == spec_strip_pos_prefix(v@),
{
    let mut text = v.clone();
    loop
        invariant
            spec_strip_pos_prefix(text@) == spec_strip_pos_prefix(v@),
        decreases text.len(),
    {
        let trimmed = strip_start_chars(&text, CharSet::Whitespace);
        let l = lower_chars(&trimmed);
        match pos_prefix_of(&l) {
            Some(p) => {
                let pv = chars_of(p);
                proof {
                    lemma_pos_prefix(l@);
                }
                proof {
                    lemma_lead(text@, CharSet::Whitespace);
                }
                text = sub_vec(&trimmed, pv.len(), trimmed.len());
                assert(text@ =~= trimmed@.skip(pv@.len() as int));
            },
            None => {
                return trimmed;
            },
        }
    }
}

/// The text with leading whitespace and part-of-speech labels removed.
pub fn strip_pos_prefix(text: &str) -> (r: String)
    ensures
        r@ == spec_strip_pos_prefix(text@),
{
    let v = chars_of(text);
    let r = strip_pos_prefix_chars(&v);
    string_of(&r)
}

// ---------------------------------------------------------------------------
// Compact meanings
// ---------------------------------------------------------------------------

/// `s` without its whitespace.
pub open spec fn drop_ws(s: Seq<char>) -> Seq<char>
    decreases s.len(),
{
    if s.len() == 0 {
        s
    } else if spec_is_ws(s.last()) {
        drop_ws(s.drop_last())
    } else {
        drop_ws(s.drop_last()).push(s.last())
    }
}

/// The first `n` characters of `s`.
pub open spec fn take_n(s: Seq<char>, n: nat) -> Seq<char> {
    if s.len() < n {
        s
    } else {
        s.take(n as int)
    }
}

/// The first piece (trimmed) that holds an ideograph.
pub open spec fn first_cjk_piece(pieces: Seq<Seq<char>>) -> Option<Seq<char>>
    decreases pieces.len(),
{
    if pieces.len() == 0 {
        None
    } else if has_cjk(strip(pieces[0], CharSet::ClauseEdge)) {
        Some(strip(pieces[0], CharSet::ClauseEdge))
    } else {
        first_cjk_piece(pieces.drop_first())
    }
}

/// The meaning that one clause gives, if any. A definition without ideographs
/// gives its first clause with whitespace collapsed, up to
/// `max(max_length, 48)` characters; otherwise a clause gives its first piece
/// with ideographs, from its first ideograph on, without whitespace, up to
/// `max_length` characters.
pub open spec fn clause_meaning(raw: Seq<char>, contains_cjk: bool, max_length: nat) -> Option<
    Seq<char>,
> {
    let clause = spec_strip_pos_prefix(trim(raw));
    if clause.len() == 0 {
        None
    } else if !contains_cjk {
        let words = trim(collapse_ws(strip(clause, CharSet::ClauseEdge)));
        if words.len() > 0 {
            Some(
                take_n(
                    words,
                    if max_length < 48 {
                        48
                    } else {
                        max_length
                    },
                ),
            )
        } else {
            None
        }
    } else if !has_cjk(clause) {
        None
    } else {
        let c = strip_start(clause, CharSet::NotCjk);
        let found = match first_cjk_piece(split_at_set(c, CharSet::PieceSep)) {
            Some(p) => p,
            None => seq![],
        };
        let result = if found.len() == 0 {
            c
        } else {
            found
        };
        let cleaned = strip(drop_ws(result), CharSet::ResultEdge);
        if cleaned.len() > 0 {
            Some(take_n(cleaned, max_length))
        } else {
            None
        }
    }
}

/// The meaning of the first clause that gives one.
pub open spec fn first_meaning(clauses: Seq<Seq<char>>, contains_cjk: bool, max_length: nat) -> Seq<
    char,
>
    decreases clauses.len(),
{
    if clauses.len() == 0 {
        seq![]
    } else {
        match clause_meaning(clauses[0], contains_cjk, max_length) {
            Some(m) => m,
            None => first_meaning(clauses.drop_first(), contains_cjk, max_length),
        }
    }
}

pub open spec fn spec_compact_translation(text: Seq<char>, max_length: nat) -> Seq<char> {
    let value = trim(replace_pair(text, '\\', 'n', seq!['\n']));
    if value.len() == 0 {
        seq![]
    } else {
        let cleaned = spec_remove_inflection_parentheses(spec_remove_bracketed(value, '[', ']'));
        first_meaning(split_at_set(cleaned, CharSet::ClauseSep), has_cjk(cleaned), max_length)
    }
}

fn drop_whitespace(v: &Vec<char>) -> (r: Vec<char>)
    ensures
        r@ == drop_ws(v@),
{
    let mut r: Vec<char> = Vec::new();
    let mut i: usize = 0;
    while i < v.len()
        invariant
            i <= v.len(),
            r@ == drop_ws(v@.take(i as int)),
        decreases v.len() - i,
    {
        assert(v@.take(i + 1).drop_last() =~= v@.take(i as int));
        if !is_ws(v[i]) {
            r.push(v[i]);
        }
        i += 1;
    }
    assert(v@.take(v.len() as int) =~= v@);
    r
}

fn take_n_chars(v: &Vec<char>, n: usize) -> (r: String)
    ensures
        r@ == take_n(v@, n as nat),
{
    let m = if v.len() < n {
        v.len()
    } else {
        n
    };
    let r = crate::text::string_of_range(v, 0, m);
    assert(v@.subrange(0, m as int) =~= take_n(v@, n as nat));
    r
}

fn first_cjk_piece_of(pieces: &Vec<Vec<char>>) -> (r: Option<Vec<char>>)
    ensures
        r matches Some(p) ==> first_cjk_piece(pieces@.map_values(|f: Vec<char>| f@)) == Some(p@),
        r is None ==> first_cjk_piece(pieces@.map_values(|f: Vec<char>| f@)) is None,
{
    let ghost ps = pieces@.map_values(|f: Vec<char>| f@);
    let mut i: usize = 0;
    assert(ps.skip(0) =~= ps);
    while i < pieces.len()
        invariant
            i <= pieces.len(),
            ps == pieces@.map_values(|f: Vec<char>| f@),
            first_cjk_piece(ps) == first_cjk_piece(ps.skip(i as int)),
        decreases pieces.len() - i,
    {
        let ghost rest = ps.skip(i as int);
        assert(rest[0] == pieces@[i as int]@);
        assert(rest.drop_first() =~= ps.skip(i + 1));
        let piece = strip_chars(&pieces[i], CharSet::ClauseEdge);
        if chars_have_cjk(&piece) {
            return Some(piece);
        }
        i += 1;
    }
    None
}

fn clause_meaning_of(raw: &Vec<char>, contains_cjk: bool, max_length: usize) -> (r: Option<String>)
    ensures
        r matches Some(m) ==> clause_meaning(raw@, contains_cjk, max_length as nat) == Some(m@),
        r is None ==> clause_meaning(raw@, contains_cjk, max_length as nat) is None,
{
    let t = trim_chars(raw);
    let clause = strip_pos_prefix_chars(&t);
    if clause.len() == 0 {
        return None;
    }
    if !contains_cjk {
        let edged = strip_chars(&clause, CharSet::ClauseEdge);
        let collapsed = crate::normalize::collapse_whitespace_chars(&edged);
        let words = trim_chars(&collapsed);
        if words.len() > 0 {
            let limit = if max_length < 48 {
                48
            } else {
                max_length
            };
            return Some(take_n_chars(&words, limit));
        }
        return None;
    }
    if !chars_have_cjk(&clause) {
        return None;
    }
    let c = strip_start_chars(&clause, CharSet::NotCjk);
    let pieces = split_chars(&c, CharSet::PieceSep);
    let found = match first_cjk_piece_of(&pieces) {
        Some(p) => p,
        None => Vec::new(),
    };
    let result = if found.len() == 0 {
        c
    } else {
        found
    };
    let no_ws = drop_whitespace(&result);
    let cleaned = strip_chars(&no_ws, CharSet::ResultEdge);
    if cleaned.len() > 0 {
        Some(take_n_chars(&cleaned, max_length))
    } else {
        None
    }
}

fn compact_chars(text: &Vec<char>, max_length: usize) -> (r: String)
    ensures
        r@ == spec_compact_translation(text@, max_length as nat),
{
    let replaced = crate::pronounce::replace_pair_with(text, '\\', 'n', "\n");
    proof {
        reveal_strlit("\n");
        assert("\n"@ =~= seq!['\n']);
    }
    let value = trim_chars(&replaced);
    if value.len() == 0 {
        return String::new();
    }
    let a = remove_bracketed_chars(&value, '[', ']');
    let cleaned = remove_inflection_parentheses_chars(&a);
    let contains_cjk = chars_have_cjk(&cleaned);
    let clauses = split_chars(&cleaned, CharSet::ClauseSep);
    let ghost cs = clauses@.map_values(|f: Vec<char>| f@);
    let mut i: usize = 0;
    assert(cs.skip(0) =~= cs);
    while i < clauses.len()
        invariant
            i <= clauses.len(),
            cs == clauses@.map_values(|f: Vec<char>| f@),
            spec_compact_translation(text@, max_length as nat) == first_meaning(
                cs,
                contains_cjk,
                max_length as nat,
            ),
            first_meaning(cs, contains_cjk, max_length as nat) == first_meaning(
                cs.skip(i as int),
                contains_cjk,
                max_length as nat,
            ),
        decreases clauses.len() - i,
    {
        let ghost rest = cs.skip(i as int);
        assert(rest[0] == clauses@[i as int]@);
        assert(rest.drop_first() =~= cs.skip(i + 1));
        if let Some(m) = clause_meaning_of(&clauses[i], contains_cjk, max_length) {
            assert(clause_meaning(rest[0], contains_cjk, max_length as nat) == Some(m@));
            assert(first_meaning(rest, contains_cjk, max_length as nat) == m@);
            return m;
        }
        i += 1;
    }
    String::new()
}

/// A short meaning cut from a dictionary definition: brackets and inflection
/// notes removed, part-of-speech labels dropped, and the first clause that
/// gives something taken. Where the definition holds ideographs, that is the
/// first piece of a clause with ideographs, without whitespace, up to
/// `max_length` characters; otherwise the first clause, up to
/// `max(max_length, 48)` characters.
pub fn compact_translation(text: &str, max_length: usize) -> (r: String)
    ensures
        r@ == spec_compact_translation(text@, max_length as nat),
{
    let v = chars_of(text);
    compact_chars(&v, max_length)
}

impl LexiconEntry {
    /// The entry's meaning, cut to ten characters.
    pub fn zh_text(&self) -> (r: String)
        ensures
            r@ == spec_compact_translation(self.zh@, 10),
    {
        compact_translation(self.zh.as_str(), 10)
    }
}

} // verus!
