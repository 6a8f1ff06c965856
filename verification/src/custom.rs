//! The reader's custom word list: annotated terms, forced terms and ignored
//! terms.
use vstd::prelude::*;
use crate::lexicon::{entry_view, EntryView, LexiconEntry};
use crate::normalize::push_string;
use crate::text::{
    chars_has, chars_of, has_char, string_of, string_of_range, trim, trim_chars,
};
use crate::tokens::{lines_of, spec_lines, spec_split_terms, split_terms};

verus! {

/// The position of the first `c` in `s`.
pub open spec fn index_of(s: Seq<char>, c: char) -> Option<int>
    decreases s.len(),
{
    if s.len() == 0 {
        None
    } else if s[0] == c {
        Some(0)
    } else {
        match index_of(s.drop_first(), c) {
            Some(i) => Some(i + 1),
            None => None,
        }
    }
}

pub proof fn lemma_index_of(s: Seq<char>, c: char)
    ensures
        index_of(s, c) matches Some(i) ==> 0 <= i < s.len() && s[i] == c && forall|k: int|
            0 <= k < i ==> s[k] != c,
        index_of(s, c) is None ==> forall|k: int| 0 <= k < s.len() ==> s[k] != c,
    decreases s.len(),
{
    if s.len() > 0 && s[0] != c {
        lemma_index_of(s.drop_first(), c);
        if let Some(i) = index_of(s.drop_first(), c) {
            assert forall|k: int| 0 <= k < i + 1 implies s[k] != c by {
                if k > 0 {
                    assert(s[k] == s.drop_first()[k - 1]);
                }
            }
        } else {
            assert forall|k: int| 0 <= k < s.len() implies s[k] != c by {
                if k > 0 {
                    assert(s[k] == s.drop_first()[k - 1]);
                }
            }
        }
    }
}

/// The position of the first `c` in `v`.
pub fn find_char(v: &Vec<char>, c: char) -> (r: Option<usize>)
    ensures
        r matches Some(i) ==> index_of(v@, c) == Some(i as int) && i < v.len(),
        r is None ==> index_of(v@, c) is None,
{
    proof {
        lemma_index_of(v@, c);
    }
    let mut i: usize = 0;
    while i < v.len()
        invariant
            i <= v.len(),
            forall|k: int| 0 <= k < i ==> v@[k] != c,
        decreases v.len() - i,
    {
        if v[i] == c {
            proof {
                lemma_index_of(v@, c);
                if let Some(j) = index_of(v@, c) {
                    assert(j == i);
                }
            }
            return Some(i);
        }
        i += 1;
    }
    None
}

/// `str::splitn(3, sep)`: at most three parts, the last holding the rest.
pub open spec fn splitn3(s: Seq<char>, sep: char) -> Seq<Seq<char>> {
    match index_of(s, sep) {
        None => seq![s],
        Some(i) => {
            let rest = s.skip(i + 1);
            match index_of(rest, sep) {
                None => seq![s.take(i), rest],
                Some(j) => seq![s.take(i), rest.take(j), rest.skip(j + 1)],
            }
        },
    }
}

/// Whether a line holds one of the separators `=`, `|` or `:`.
pub open spec fn is_rich(s: Seq<char>) -> bool {
    has_char(s, '=') || has_char(s, '|') || has_char(s, ':')
}

/// The separator of a rich line: the first of `=`, `|`, `:` that it holds.
pub open spec fn rich_separator(s: Seq<char>) -> char {
    if has_char(s, '=') {
        '='
    } else if has_char(s, '|') {
        '|'
    } else {
        ':'
    }
}

/// The trimmed parts of a rich line.
pub open spec fn rich_parts(s: Seq<char>) -> Seq<Seq<char>> {
    splitn3(s, rich_separator(s)).map_values(|p: Seq<char>| trim(p))
}

/// The ignored terms, rich lines and plain lines after reading `lines`.
pub open spec fn classify_lines(lines: Seq<Seq<char>>) -> (
    Seq<Seq<char>>,
    Seq<Seq<char>>,
    Seq<Seq<char>>,
)
    decreases lines.len(),
{
    if lines.len() == 0 {
        (seq![], seq![], seq![])
    } else {
        let (ignored, rich, plain) = classify_lines(lines.drop_last());
        let stripped = trim(lines.last());
        if stripped.len() == 0 {
            (ignored, rich, plain)
        } else if stripped[0] == '!' {
            (ignored + spec_split_terms(stripped.drop_first()), rich, plain)
        } else {
            let line = if stripped[0] == '*' {
                trim(stripped.drop_first())
            } else {
                stripped
            };
            if line.len() == 0 {
                (ignored, rich, plain)
            } else if is_rich(line) {
                (ignored, rich.push(line), plain)
            } else {
                (ignored, rich, plain.push(line))
            }
        }
    }
}

/// The entries and forced terms that the rich lines give.
pub open spec fn rich_results(rich: Seq<Seq<char>>) -> (Seq<EntryView>, Seq<Seq<char>>)
    decreases rich.len(),
{
    if rich.len() == 0 {
        (seq![], seq![])
    } else {
        let (entries, force) = rich_results(rich.drop_last());
        let parts = rich_parts(rich.last());
        if parts.len() >= 3 && parts[0].len() > 0 && parts[2].len() > 0 {
            (entries.push(EntryView { term: parts[0], ipa: parts[1], zh: parts[2], hard: true }), force)
        } else if parts.len() > 0 && parts[0].len() > 0 {
            (entries, force.push(parts[0]))
        } else {
            (entries, force)
        }
    }
}

/// The strings of `ss` joined by `sep`.
pub open spec fn join(ss: Seq<Seq<char>>, sep: Seq<char>) -> Seq<char>
    decreases ss.len(),
{
    if ss.len() == 0 {
        seq![]
    } else if ss.len() == 1 {
        ss[0]
    } else {
        join(ss.drop_last(), sep) + sep + ss.last()
    }
}

/// What a custom word list holds: the annotated entries, the terms to annotate
/// always, and the terms never to annotate.
pub open spec fn spec_parse_custom_annotations(custom: Seq<char>) -> (
    Seq<EntryView>,
    Seq<Seq<char>>,
    Seq<Seq<char>>,
) {
    let text = trim(custom);
    if text.len() == 0 {
        (seq![], seq![], seq![])
    } else {
        let (ignored, rich, plain) = classify_lines(spec_lines(text));
        let (entries, force) = rich_results(rich);
        (entries, force + spec_split_terms(join(plain, seq![' '])), ignored)
    }
}

fn splitn3_trimmed(v: &Vec<char>, sep: char) -> (r: Vec<String>)
    ensures
        r.deep_view() == splitn3(v@, sep).map_values(|p: Seq<char>| trim(p)),
{
    let mut out: Vec<String> = Vec::new();
    assert(out.deep_view() =~= Seq::<Seq<char>>::empty());
    match find_char(v, sep) {
        None => {
            let t = trim_chars(v);
            push_string(&mut out, &t);
            assert(out.deep_view() =~= splitn3(v@, sep).map_values(|p: Seq<char>| trim(p)));
        },
        Some(i) => {
            let first: Vec<char> = sub_vec(v, 0, i);
            let rest: Vec<char> = sub_vec(v, i + 1, v.len());
            assert(first@ =~= v@.take(i as int));
            assert(rest@ =~= v@.skip(i + 1));
            let t0 = trim_chars(&first);
            push_string(&mut out, &t0);
            match find_char(&rest, sep) {
                None => {
                    let t1 = trim_chars(&rest);
                    push_string(&mut out, &t1);
                },
                Some(j) => {
                    let second: Vec<char> = sub_vec(&rest, 0, j);
                    let third: Vec<char> = sub_vec(&rest, j + 1, rest.len());
                    assert(second@ =~= rest@.take(j as int));
                    assert(third@ =~= rest@.skip(j + 1));
                    let t1 = trim_chars(&second);
                    push_string(&mut out, &t1);
                    let t2 = trim_chars(&third);
                    push_string(&mut out, &t2);
                },
            }
            assert(out.deep_view() =~= splitn3(v@, sep).map_values(|p: Seq<char>| trim(p)));
        },
    }
    out
}

/// The characters `v[lo..hi]`.
pub fn sub_vec(v: &Vec<char>, lo: usize, hi: usize) -> (r: Vec<char>)
    requires
        lo <= hi <= v.len(),
    ensures
        r@ == v@.subrange(lo as int, hi as int),
{
    let mut r: Vec<char> = Vec::new();
    let mut i = lo;
    while i < hi
        invariant
            lo <= i <= hi <= v.len(),
            r@ == v@.subrange(lo as int, i as int),
        decreases hi - i,
    {
        r.push(v[i]);
        assert(v@.subrange(lo as int, i + 1) =~= v@.subrange(lo as int, i as int).push(
            v@[i as int],
        ));
        i += 1;
    }
    r
}

/// Appends the strings of `items`.
pub fn extend_strings(list: &mut Vec<String>, items: &Vec<String>)
    ensures
        final(list).deep_view() == old(list).deep_view() + items.deep_view(),
{
    let mut i: usize = 0;
    while i < items.len()
        invariant
            i <= items.len(),
            list.deep_view() == old(list).deep_view() + items.deep_view().take(i as int),
        decreases items.len() - i,
    {
        let c = chars_of(items[i].as_str());
        push_string(list, &c);
        assert(items.deep_view().take(i + 1) =~= items.deep_view().take(i as int).push(
            items.deep_view()[i as int],
        ));
        i += 1;
    }
    assert(items.deep_view().take(items.len() as int) =~= items.deep_view());
}

/// Reads a custom word list. Each line is one of: `!terms` (never annotate
/// these), `term=ipa=meaning` (or with `|` or `:`) for an annotated entry,
/// or plain terms to annotate always; a leading `*` is dropped. Rich lines
/// with an empty term or meaning only force their first part.
pub fn parse_custom_annotations(custom_text: &str) -> (r: (Vec<LexiconEntry>, Vec<String>, Vec<String>))
    ensures
        (r.0@.map_values(|e: LexiconEntry| entry_view(e)), r.1.deep_view(), r.2.deep_view())
            == spec_parse_custom_annotations(custom_text@),
{
    let mut entries: Vec<LexiconEntry> = Vec::new();
    let mut force_terms: Vec<String> = Vec::new();
    let mut ignored_terms: Vec<String> = Vec::new();
    let all = chars_of(custom_text);
    let text = trim_chars(&all);
    assert(entries@.map_values(|e: LexiconEntry| entry_view(e)) =~= Seq::<EntryView>::empty());
    assert(force_terms.deep_view() =~= Seq::<Seq<char>>::empty());
    assert(ignored_terms.deep_view() =~= Seq::<Seq<char>>::empty());
    if text.len() == 0 {
        return (entries, force_terms, ignored_terms);
    }
    let lines = lines_of(&text);
    let mut rich_lines: Vec<String> = Vec::new();
    let mut plain_chunks: Vec<String> = Vec::new();
    assert(rich_lines.deep_view() =~= Seq::<Seq<char>>::empty());
    assert(plain_chunks.deep_view() =~= Seq::<Seq<char>>::empty());
    let mut i: usize = 0;
    while i < lines.len()
        invariant
            i <= lines.len(),
            lines.deep_view() == spec_lines(text@),
            (ignored_terms.deep_view(), rich_lines.deep_view(), plain_chunks.deep_view())
                == classify_lines(lines.deep_view().take(i as int)),
        decreases lines.len() - i,
    {
        assert(lines.deep_view().take(i + 1).drop_last() =~= lines.deep_view().take(i as int));
        let line = chars_of(lines[i].as_str());
        let stripped = trim_chars(&line);
        i += 1;
        if stripped.len() == 0 {
            continue;
        }
        if stripped[0] == '!' {
            let rest = sub_vec(&stripped, 1, stripped.len());
            assert(rest@ =~= stripped@.drop_first());
            let rest_s = string_of(&rest);
            let terms = split_terms(rest_s.as_str());
            extend_strings(&mut ignored_terms, &terms);
            continue;
        }
        let body = if stripped[0] == '*' {
            let rest = sub_vec(&stripped, 1, stripped.len());
            assert(rest@ =~= stripped@.drop_first());
            trim_chars(&rest)
        } else {
            stripped
        };
        if body.len() == 0 {
            continue;
        }
        if chars_has(&body, '=') || chars_has(&body, '|') || chars_has(&body, ':') {
            push_string(&mut rich_lines, &body);
        } else {
            push_string(&mut plain_chunks, &body);
        }
    }
    assert(lines.deep_view().take(lines.len() as int) =~= lines.deep_view());
    let mut k: usize = 0;
    while k < rich_lines.len()
        invariant
            k <= rich_lines.len(),
            (entries@.map_values(|e: LexiconEntry| entry_view(e)), force_terms.deep_view())
                == rich_results(rich_lines.deep_view().take(k as int)),
        decreases rich_lines.len() - k,
    {
        assert(rich_lines.deep_view().take(k + 1).drop_last() =~= rich_lines.deep_view().take(
            k as int,
        ));
        let line = chars_of(rich_lines[k].as_str());
        let sep = if chars_has(&line, '=') {
            '='
        } else if chars_has(&line, '|') {
            '|'
        } else {
            ':'
        };
        let parts = splitn3_trimmed(&line, sep);
        if parts.len() >= 3 && !parts[0].as_str().is_empty() && !parts[2].as_str().is_empty() {
            proof {
                assert(parts.deep_view()[0] == parts@[0]@);
                assert(parts.deep_view()[1] == parts@[1]@);
                assert(parts.deep_view()[2] == parts@[2]@);
            }
            let ghost before = entries@.map_values(|e: LexiconEntry| entry_view(e));
            let entry = LexiconEntry {
                term: parts[0].clone(),
                ipa: parts[1].clone(),
                zh: parts[2].clone(),
                hard: true,
            };
            entries.push(entry);
            assert(entries@.map_values(|e: LexiconEntry| entry_view(e)) =~= before.push(
                entry_view(entry),
            ));
        } else if parts.len() > 0 && !parts[0].as_str().is_empty() {
            let first = chars_of(parts[0].as_str());
            push_string(&mut force_terms, &first);
        }
        k += 1;
    }
    assert(rich_lines.deep_view().take(rich_lines.len() as int) =~= rich_lines.deep_view());
    let joined = join_strings(&plain_chunks, ' ');
    let plain_terms = split_terms(joined.as_str());
    extend_strings(&mut force_terms, &plain_terms);
    (entries, force_terms, ignored_terms)
}

/// The strings of `list` joined by the character `sep`.
pub fn join_strings(list: &Vec<String>, sep: char) -> (r: String)
    ensures
        r@ == join(list.deep_view(), seq![sep]),
{
    let mut out = String::new();
    let mut i: usize = 0;
    assert(out@ =~= join(list.deep_view().take(0), seq![sep]));
    while i < list.len()
        invariant
            i <= list.len(),
            out@ == join(list.deep_view().take(i as int), seq![sep]),
        decreases list.len() - i,
    {
        let ghost t = list.deep_view().take(i + 1);
        assert(t.drop_last() =~= list.deep_view().take(i as int));
        if i > 0 {
            crate::text::push_char(&mut out, sep);
        } else {
            assert(out@ =~= Seq::<char>::empty());
        }
        let part = chars_of(list[i].as_str());
        crate::text::push_chars(&mut out, &part);
        assert(list.deep_view()[i as int] == part@);
        assert(out@ =~= join(t, seq![sep]));
        i += 1;
    }
    assert(list.deep_view().take(list.len() as int) =~= list.deep_view());
    out
}

} // verus!
