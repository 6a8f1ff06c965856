//! The article text of a request, XML escaping, the HTML of annotated
//! tokens, the sorted list of missing words, and the whole preview.
use vstd::prelude::*;
use crate::annotate::{
    annotate_items, annotate_tokens, annotation_context, add_entries_order, context_hard_terms,
    context_ignored, context_lexicon, item_view, items_view, make_env, AnnotationItem,
    AnnotationState, ItemView,
};
use crate::custom::{join, join_strings, spec_parse_custom_annotations};
use crate::normalize::{normalize_title, spec_normalize_title};
use crate::pronounce::push_str;
use crate::state::{AppState, profile_view};
use crate::text::{
    chars_of, owned, push_char, split_at_set, split_chars, str_eq, string_of, trim, trim_chars,
    CharSet,
};
use crate::tokens::{is_word_token, spec_is_word_token, spec_tokenize};

verus! {

// ---------------------------------------------------------------------------
// XML escaping
// ---------------------------------------------------------------------------

/// How one character is written in XML text and attributes.
pub open spec fn xml_escape_char(c: char) -> Seq<char> {
    if c == '&' {
        seq!['&', 'a', 'm', 'p', ';']
    } else if c == '<' {
        seq!['&', 'l', 't', ';']
    } else if c == '>' {
        seq!['&', 'g', 't', ';']
    } else if c == '"' {
        seq!['&', 'q', 'u', 'o', 't', ';']
    } else if c == '\'' {
        seq!['&', 'a', 'p', 'o', 's', ';']
    } else {
        seq![c]
    }
}

/// `text` with `&`, `<`, `>`, `"` and `'` written as entities.
pub open spec fn spec_xml_escape(text: Seq<char>) -> Seq<char>
    decreases text.len(),
{
    if text.len() == 0 {
        seq![]
    } else {
        spec_xml_escape(text.drop_last()) + xml_escape_char(text.last())
    }
}

/// Whether `s` holds no markup character: no `<`, `>`, `"` or `'`.
pub open spec fn markup_free(s: Seq<char>) -> bool {
    forall|k: int| 0 <= k < s.len() ==> #[trigger] s[k] != '<' && s[k] != '>' && s[k] != '"' && s[k]
        != '\''
}

proof fn lemma_xml_escape_safe(text: Seq<char>)
    ensures
        markup_free(spec_xml_escape(text)),
    decreases text.len(),
{
    if text.len() > 0 {
        lemma_xml_escape_safe(text.drop_last());
        let a = spec_xml_escape(text.drop_last());
        let b = xml_escape_char(text.last());
        assert forall|k: int| 0 <= k < (a + b).len() implies #[trigger] (a + b)[k] != '<' && (a
            + b)[k] != '>' && (a + b)[k] != '"' && (a + b)[k] != '\'' by {
            if k < a.len() {
                assert((a + b)[k] == a[k]);
            } else {
                assert((a + b)[k] == b[k - a.len()]);
            }
        }
    }
}

/// `text` with `&`, `<`, `>`, `"` and `'` written as entities; what comes
/// back holds none of `<`, `>`, `"` and `'`.
pub fn xml_escape(text: &str) -> (r: String)
    ensures
        r@ == spec_xml_escape(text@),
        markup_free(r@),
{
    let v = chars_of(text);
    let mut out = String::new();
    let mut i: usize = 0;
    while i < v.len()
        invariant
            i <= v.len(),
            out@ == spec_xml_escape(v@.take(i as int)),
        decreases v.len() - i,
    {
        assert(v@.take(i + 1).drop_last() =~= v@.take(i as int));
        let c = v[i];
        let ghost before = out@;
        if c == '&' {
            push_str(&mut out, "&amp;");
        } else if c == '<' {
            push_str(&mut out, "&lt;");
        } else if c == '>' {
            push_str(&mut out, "&gt;");
        } else if c == '"' {
            push_str(&mut out, "&quot;");
        } else if c == '\'' {
            push_str(&mut out, "&apos;");
        } else {
            push_char(&mut out, c);
        }
        proof {
            reveal_strlit("&amp;");
            reveal_strlit("&lt;");
            reveal_strlit("&gt;");
            reveal_strlit("&quot;");
            reveal_strlit("&apos;");
        }
        assert(out@ =~= before + xml_escape_char(c));
        i += 1;
    }
    assert(v@.take(v.len() as int) =~= v@);
    proof {
        lemma_xml_escape_safe(v@);
    }
    out
}

// ---------------------------------------------------------------------------
// The HTML of annotated tokens
// ---------------------------------------------------------------------------

/// The HTML of one annotated token.
pub open spec fn item_html(it: ItemView) -> Seq<char> {
    match it.annotation {
        Some(a) => {
            let class_name = if a.hard {
                "preview-token hard"@
            } else {
                "preview-token"@
            };
            "<ruby class=\""@ + class_name + "\"><span class=\"preview-base\">"@ + spec_xml_escape(
                it.text,
            ) + "</span><rt class=\"preview-rt\"><span class=\"preview-ipa\">"@ + spec_xml_escape(
                a.ipa,
            ) + "</span>"@ + (if a.zh.len() > 0 {
                "<span class=\"preview-zh\"> "@ + spec_xml_escape(a.zh) + "</span>"@
            } else {
                seq![]
            }) + "</rt></ruby>"@
        },
        None => if spec_is_word_token(it.text) {
            "<span class=\"preview-base\">"@ + spec_xml_escape(it.text) + "</span>"@
        } else {
            spec_xml_escape(it.text)
        },
    }
}

/// The HTML of annotated tokens, one after the other.
pub open spec fn items_html(items: Seq<ItemView>) -> Seq<char>
    decreases items.len(),
{
    if items.len() == 0 {
        seq![]
    } else {
        items_html(items.drop_last()) + item_html(items.last())
    }
}

fn push_item_html(html: &mut String, item: &AnnotationItem)
    ensures
        final(html)@ == old(html)@ + item_html(item_view(*item)),
{
    let ghost start = html@;
    match &item.annotation {
        Some(annotation) => {
            push_str(html, "<ruby class=\"");
            if annotation.hard {
                push_str(html, "preview-token hard");
            } else {
                push_str(html, "preview-token");
            }
            push_str(html, "\"><span class=\"preview-base\">");
            let t = xml_escape(item.text.as_str());
            push_str(html, t.as_str());
            push_str(html, "</span><rt class=\"preview-rt\"><span class=\"preview-ipa\">");
            let ipa = xml_escape(annotation.ipa.as_str());
            push_str(html, ipa.as_str());
            push_str(html, "</span>");
            let ghost mid = html@;
            if annotation.zh.as_str().unicode_len() > 0 {
                push_str(html, "<span class=\"preview-zh\"> ");
                let zh = xml_escape(annotation.zh.as_str());
                push_str(html, zh.as_str());
                push_str(html, "</span>");
            } else {
                assert(html@ =~= mid + Seq::<char>::empty());
            }
            push_str(html, "</rt></ruby>");
            assert(html@ =~= start + item_html(item_view(*item)));
        },
        None => {
            if is_word_token(item.text.as_str()) {
                push_str(html, "<span class=\"preview-base\">");
                let t = xml_escape(item.text.as_str());
                push_str(html, t.as_str());
                push_str(html, "</span>");
                assert(html@ =~= start + item_html(item_view(*item)));
            } else {
                let t = xml_escape(item.text.as_str());
                push_str(html, t.as_str());
            }
        },
    }
}

/// The HTML of annotated tokens: an annotated word becomes a `ruby` with its
/// pronunciation and, where it has one, its meaning; another word a
/// `preview-base` span; everything else escaped text.
pub fn items_to_preview_html(items: &Vec<AnnotationItem>) -> (r: String)
    ensures
        r@ == items_html(items_view(items@)),
{
    let ghost iv = items_view(items@);
    let mut html = String::new();
    let mut i: usize = 0;
    assert(iv.take(0) =~= Seq::<ItemView>::empty());
    while i < items.len()
        invariant
            i <= items.len(),
            iv == items_view(items@),
            html@ == items_html(iv.take(i as int)),
        decreases items.len() - i,
    {
        assert(iv.take(i + 1).drop_last() =~= iv.take(i as int));
        assert(iv[i as int] == item_view(items@[i as int]));
        push_item_html(&mut html, &items[i]);
        i += 1;
    }
    assert(iv.take(items.len() as int) =~= iv);
    html
}

// ---------------------------------------------------------------------------
// The article text
// ---------------------------------------------------------------------------

/// `s` with `\r\n` and then every other `\r` turned into `\n`.
pub open spec fn unify_newlines(s: Seq<char>) -> Seq<char>
    decreases s.len(),
{
    if s.len() == 0 {
        seq![]
    } else if s[0] == '\r' && s.len() > 1 && s[1] == '\n' {
        seq!['\n'] + unify_newlines(s.skip(2))
    } else if s[0] == '\r' {
        seq!['\n'] + unify_newlines(s.drop_first())
    } else {
        seq![s[0]] + unify_newlines(s.drop_first())
    }
}

/// `lines` without the blank lines at their start.
pub open spec fn drop_blank_lines(lines: Seq<Seq<char>>) -> Seq<Seq<char>>
    decreases lines.len(),
{
    if lines.len() > 0 && trim(lines[0]).len() == 0 {
        drop_blank_lines(lines.drop_first())
    } else {
        lines
    }
}

/// The article of a request: its line ends unified and the text trimmed;
/// where its first line repeats the title, that line and the blank lines
/// after it go. An empty article is refused.
pub open spec fn spec_prepare_article_text(article: Seq<char>, title: Seq<char>) -> Result<
    Seq<char>,
    Seq<char>,
> {
    let text = trim(unify_newlines(article));
    if text.len() == 0 {
        Err("文章内容不能为空。"@)
    } else if trim(title).len() == 0 {
        Ok(text)
    } else {
        let lines = drop_blank_lines(split_at_set(text, CharSet::Newline));
        if lines.len() > 0 && spec_normalize_title(lines[0]) == spec_normalize_title(trim(title)) {
            Ok(trim(join(drop_blank_lines(lines.drop_first()), seq!['\n'])))
        } else {
            Ok(text)
        }
    }
}

fn unify_newlines_chars(v: &Vec<char>) -> (r: Vec<char>)
    ensures
        r@ == unify_newlines(v@),
{
    let mut out: Vec<char> = Vec::new();
    let mut i: usize = 0;
    assert(v@.skip(0) =~= v@);
    assert(out@ + unify_newlines(v@) =~= unify_newlines(v@));
    while i < v.len()
        invariant
            i <= v.len(),
            out@ + unify_newlines(v@.skip(i as int)) == unify_newlines(v@),
        decreases v.len() - i,
    {
        let ghost s = v@.skip(i as int);
        let ghost before = out@;
        assert(s[0] == v@[i as int]);
        if v[i] == '\r' && i + 1 < v.len() && v[i + 1] == '\n' {
            assert(s[1] == v@[i + 1]);
            assert(s.skip(2) =~= v@.skip(i + 2));
            out.push('\n');
            assert(before + unify_newlines(s) =~= out@ + unify_newlines(v@.skip(i + 2)));
            i += 2;
        } else {
            assert(s.drop_first() =~= v@.skip(i + 1));
            if v[i] == '\r' {
                out.push('\n');
            } else {
                out.push(v[i]);
            }
            assert(before + unify_newlines(s) =~= out@ + unify_newlines(v@.skip(i + 1)));
            i += 1;
        }
    }
    assert(v@.skip(v.len() as int) =~= Seq::<char>::empty());
    assert(out@ + Seq::<char>::empty() =~= out@);
    out
}

fn first_filled_line(lines: &Vec<Vec<char>>, from: usize) -> (r: usize)
    requires
        from <= lines.len(),
    ensures
        from <= r <= lines.len(),
        drop_blank_lines(lines@.map_values(|f: Vec<char>| f@).skip(from as int)) == lines@.map_values(
            |f: Vec<char>| f@,
        ).skip(r as int),
{
    let ghost lv = lines@.map_values(|f: Vec<char>| f@);
    let mut i = from;
    while i < lines.len() && trim_chars(&lines[i]).len() == 0
        invariant
            from <= i <= lines.len(),
            lv == lines@.map_values(|f: Vec<char>| f@),
            drop_blank_lines(lv.skip(from as int)) == drop_blank_lines(lv.skip(i as int)),
        decreases lines.len() - i,
    {
        assert(lv.skip(i as int)[0] == lines@[i as int]@);
        assert(lv.skip(i as int).drop_first() =~= lv.skip(i + 1));
        i += 1;
    }
    if i < lines.len() {
        assert(lv.skip(i as int)[0] == lines@[i as int]@);
    }
    i
}

fn join_lines_from(lines: &Vec<Vec<char>>, from: usize) -> (r: Vec<char>)
    requires
        from <= lines.len(),
    ensures
        r@ == join(lines@.map_values(|f: Vec<char>| f@).skip(from as int), seq!['\n']),
{
    let ghost lv = lines@.map_values(|f: Vec<char>| f@).skip(from as int);
    let mut out: Vec<char> = Vec::new();
    let mut i = from;
    assert(lv.take(0) =~= Seq::<Seq<char>>::empty());
    while i < lines.len()
        invariant
            from <= i <= lines.len(),
            lv == lines@.map_values(|f: Vec<char>| f@).skip(from as int),
            out@ == join(lv.take(i - from), seq!['\n']),
        decreases lines.len() - i,
    {
        let ghost t = lv.take(i - from + 1);
        assert(t.drop_last() =~= lv.take(i - from));
        assert(t.last() == lines@[i as int]@);
        let ghost before = out@;
        if i > from {
            out.push('\n');
        }
        let mut k: usize = 0;
        let ghost mid = out@;
        while k < lines[i].len()
            invariant
                from <= i < lines.len(),
                k <= lines@[i as int]@.len(),
                out@ == mid + lines@[i as int]@.take(k as int),
            decreases lines@[i as int]@.len() - k,
        {
            out.push(lines[i][k]);
            assert(lines@[i as int]@.take(k + 1) =~= lines@[i as int]@.take(k as int).push(
                lines@[i as int]@[k as int],
            ));
            k += 1;
        }
        assert(lines@[i as int]@.take(k as int) =~= lines@[i as int]@);
        if i > from {
            assert(out@ =~= before + seq!['\n'] + lines@[i as int]@);
        } else {
            assert(t =~= seq![lines@[i as int]@]);
            assert(out@ =~= lines@[i as int]@);
        }
        i += 1;
    }
    assert(lv.take(lines.len() - from) =~= lv);
    out
}

/// The article of a request: `\r\n` and `\r` become line feeds and the text
/// is trimmed; where a title is given and the first line repeats it (as
/// `normalize_title` compares), that line and the blank lines after it are
/// dropped. An empty article is an error.
pub fn prepare_article_text(article_text: &str, title: &str) -> (r: Result<String, String>)
    ensures
        r matches Ok(t) ==> spec_prepare_article_text(article_text@, title@) == Ok::<
            Seq<char>,
            Seq<char>,
        >(t@),
        r matches Err(e) ==> spec_prepare_article_text(article_text@, title@) == Err::<
            Seq<char>,
            Seq<char>,
        >(e@),
{
    let raw = chars_of(article_text);
    let unified = unify_newlines_chars(&raw);
    let text = trim_chars(&unified);
    if text.len() == 0 {
        return Err(owned("文章内容不能为空。"));
    }
    let tv = chars_of(title);
    let t = trim_chars(&tv);
    if t.len() == 0 {
        return Ok(string_of(&text));
    }
    let lines = split_chars(&text, CharSet::Newline);
    let ghost lv = lines@.map_values(|f: Vec<char>| f@);
    assert(lv.skip(0) =~= lv);
    let first = first_filled_line(&lines, 0);
    if first < lines.len() {
        assert(lv.skip(first as int)[0] == lines@[first as int]@);
        let a = normalize_title(string_of(&lines[first]).as_str());
        let b = normalize_title(string_of(&t).as_str());
        if str_eq(a.as_str(), b.as_str()) {
            assert(lv.skip(first as int).drop_first() =~= lv.skip(first + 1));
            let next = first_filled_line(&lines, first + 1);
            let joined = join_lines_from(&lines, next);
            let trimmed = trim_chars(&joined);
            return Ok(string_of(&trimmed));
        }
    }
    Ok(string_of(&text))
}

// ---------------------------------------------------------------------------
// The missing words
// ---------------------------------------------------------------------------

/// The order of strings: character by character, a prefix first.
pub open spec fn lex_lt(a: Seq<char>, b: Seq<char>) -> bool
    decreases a.len(),
{
    if a.len() == 0 {
        b.len() > 0
    } else if b.len() == 0 {
        false
    } else if a[0] < b[0] {
        true
    } else if a[0] == b[0] {
        lex_lt(a.drop_first(), b.drop_first())
    } else {
        false
    }
}

pub proof fn lemma_lex_trans(a: Seq<char>, b: Seq<char>, c: Seq<char>)
    requires
        lex_lt(a, b),
        lex_lt(b, c),
    ensures
        lex_lt(a, c),
    decreases a.len(),
{
    if a.len() > 0 && b.len() > 0 && c.len() > 0 && a[0] == b[0] && b[0] == c[0] {
        lemma_lex_trans(a.drop_first(), b.drop_first(), c.drop_first());
    }
}

pub proof fn lemma_lex_total(a: Seq<char>, b: Seq<char>)
    ensures
        a == b || lex_lt(a, b) || lex_lt(b, a),
    decreases a.len(),
{
    if a.len() > 0 && b.len() > 0 && a[0] == b[0] {
        lemma_lex_total(a.drop_first(), b.drop_first());
        if a.drop_first() == b.drop_first() {
            assert(a =~= seq![a[0]] + a.drop_first());
            assert(b =~= seq![b[0]] + b.drop_first());
        }
    } else if a.len() == 0 && b.len() == 0 {
        assert(a =~= b);
    }
}

pub proof fn lemma_lex_irrefl(a: Seq<char>)
    ensures
        !lex_lt(a, a),
    decreases a.len(),
{
    if a.len() > 0 {
        lemma_lex_irrefl(a.drop_first());
    }
}

fn lex_less(a: &Vec<char>, b: &Vec<char>) -> (r: bool)
    ensures
        r == lex_lt(a@, b@),
{
    let mut i: usize = 0;
    assert(a@.skip(0) =~= a@);
    assert(b@.skip(0) =~= b@);
    while i < a.len() && i < b.len() && a[i] == b[i]
        invariant
            i <= a.len(),
            i <= b.len(),
            lex_lt(a@, b@) == lex_lt(a@.skip(i as int), b@.skip(i as int)),
        decreases a.len() - i,
    {
        assert(a@.skip(i as int).drop_first() =~= a@.skip(i + 1));
        assert(b@.skip(i as int).drop_first() =~= b@.skip(i + 1));
        assert(a@.skip(i as int)[0] == a@[i as int]);
        assert(b@.skip(i as int)[0] == b@[i as int]);
        i += 1;
    }
    if i < a.len() && i < b.len() {
        assert(a@.skip(i as int)[0] == a@[i as int]);
        assert(b@.skip(i as int)[0] == b@[i as int]);
        a[i] < b[i]
    } else {
        i == a.len() && i < b.len()
    }
}

/// Whether the strings of `s` come in strictly increasing order.
pub open spec fn strictly_sorted(s: Seq<Seq<char>>) -> bool {
    forall|i: int, j: int| 0 <= i < j < s.len() ==> lex_lt(#[trigger] s[i], #[trigger] s[j])
}

/// Where `x` belongs in the sorted `out`: the first place whose string is
/// not smaller.
fn insertion_point(out: &Vec<String>, x: &Vec<char>) -> (p: usize)
    ensures
        p <= out.len(),
        forall|k: int| 0 <= k < p ==> lex_lt(#[trigger] out.deep_view()[k], x@),
        p < out.len() ==> !lex_lt(out.deep_view()[p as int], x@),
{
    let mut p: usize = 0;
    while p < out.len()
        invariant
            p <= out.len(),
            forall|k: int| 0 <= k < p ==> lex_lt(#[trigger] out.deep_view()[k], x@),
        decreases out.len() - p,
    {
        let y = chars_of(out[p].as_str());
        assert(out.deep_view()[p as int] == y@);
        if !lex_less(&y, x) {
            return p;
        }
        p += 1;
    }
    p
}

/// The missing words in order: empty ones dropped, each once, sorted.
pub fn sorted_missing(missing_terms: Vec<String>) -> (r: Vec<String>)
    ensures
        strictly_sorted(r.deep_view()),
        forall|s: Seq<char>| #[trigger] r.deep_view().contains(s) <==> (missing_terms.deep_view().contains(s)
            && s.len() > 0),
{
    let ghost mv = missing_terms.deep_view();
    let mut out: Vec<String> = Vec::new();
    let mut i: usize = 0;
    while i < missing_terms.len()
        invariant
            i <= missing_terms.len(),
            mv == missing_terms.deep_view(),
            strictly_sorted(out.deep_view()),
            forall|s: Seq<char>| #[trigger] out.deep_view().contains(s) <==> (mv.take(i as int).contains(s)
                && s.len() > 0),
        decreases missing_terms.len() - i,
    {
        let ghost t0 = mv.take(i as int);
        let ghost t1 = mv.take(i + 1);
        assert(t1 =~= t0.push(mv[i as int]));
        assert(mv[i as int] == missing_terms@[i as int]@);
        let x = chars_of(missing_terms[i].as_str());
        let ghost before = out.deep_view();
        if x.len() > 0 {
            let p = insertion_point(&out, &x);
            let present = if p < out.len() {
                let y = chars_of(out[p].as_str());
                assert(out.deep_view()[p as int] == y@);
                crate::text::chars_eq(&y, &x)
            } else {
                false
            };
            if !present {
                proof {
                    if p < out.len() {
                        lemma_lex_total(before[p as int], x@);
                    }
                }
                out.insert(p, string_of(&x));
                assert(out.deep_view() =~= before.insert(p as int, x@));
                let ghost after = out.deep_view();
                assert forall|a: int, b: int| 0 <= a < b < after.len() implies lex_lt(
                    #[trigger] after[a],
                    #[trigger] after[b],
                ) by {
                    if b < p {
                        assert(after[a] == before[a] && after[b] == before[b]);
                    } else if b == p {
                        assert(after[a] == before[a]);
                    } else if a == p {
                        assert(after[b] == before[b - 1]);
                        if b - 1 > p {
                            assert(lex_lt(before[p as int], before[b - 1]));
                            lemma_lex_trans(x@, before[p as int], before[b - 1]);
                        }
                    } else if a < p {
                        assert(after[a] == before[a] && after[b] == before[b - 1]);
                        if a < b - 1 {
                        } else {
                        }
                        assert(lex_lt(before[a], x@));
                        if b - 1 == p as int {
                            lemma_lex_trans(before[a], x@, before[p as int]);
                        } else {
                            assert(lex_lt(before[a], before[b - 1]));
                        }
                    } else {
                        assert(after[a] == before[a - 1] && after[b] == before[b - 1]);
                    }
                }
                assert forall|s: Seq<char>| #[trigger] after.contains(s) <==> (t1.contains(s) && s.len()
                    > 0) by {
                    if after.contains(s) {
                        let k = choose|k: int| 0 <= k < after.len() && after[k] == s;
                        if k < p {
                            assert(before[k] == s);
                            assert(before.contains(s));
                        } else if k > p {
                            assert(before[k - 1] == s);
                            assert(before.contains(s));
                        }
                        if before.contains(s) {
                            let j = choose|j: int| 0 <= j < t0.len() && t0[j] == s;
                            assert(t1[j] == s);
                        } else {
                            assert(t1[i as int] == s);
                        }
                    }
                    if t1.contains(s) && s.len() > 0 {
                        let j = choose|j: int| 0 <= j < t1.len() && t1[j] == s;
                        if j < i {
                            assert(t0[j] == s);
                            assert(before.contains(s));
                            let k = choose|k: int| 0 <= k < before.len() && before[k] == s;
                            if k < p {
                                assert(after[k] == s);
                            } else {
                                assert(after[k + 1] == s);
                            }
                        } else {
                            assert(after[p as int] == s);
                        }
                    }
                }
            } else {
                assert forall|s: Seq<char>| #[trigger] before.contains(s) <==> (t1.contains(s) && s.len()
                    > 0) by {
                    if before.contains(s) {
                        let j = choose|j: int| 0 <= j < t0.len() && t0[j] == s;
                        assert(t1[j] == s);
                    }
                    if t1.contains(s) && s.len() > 0 {
                        let j = choose|j: int| 0 <= j < t1.len() && t1[j] == s;
                        if j < i {
                            assert(t0[j] == s);
                        } else {
                            assert(before[p as int] == s);
                        }
                    }
                }
            }
        } else {
            assert forall|s: Seq<char>| #[trigger] before.contains(s) <==> (t1.contains(s) && s.len() > 0) by {
                if before.contains(s) {
                    let j = choose|j: int| 0 <= j < t0.len() && t0[j] == s;
                    assert(t1[j] == s);
                }
                if t1.contains(s) && s.len() > 0 {
                    let j = choose|j: int| 0 <= j < t1.len() && t1[j] == s;
                    if j < i {
                        assert(t0[j] == s);
                    }
                }
            }
        }
        i += 1;
    }
    assert(mv.take(missing_terms.len() as int) =~= mv);
    out
}

// ---------------------------------------------------------------------------
// The preview
// ---------------------------------------------------------------------------

/// What a preview request asks for besides the article.
pub struct PreviewOptions<'a> {
    pub title: &'a str,
    pub custom_annotations: &'a str,
    pub annotate_unknown: bool,
    pub grade_code: &'a str,
    pub target_language: &'a str,
    pub pronunciation_scheme: &'a str,
}

/// One paragraph of the article as HTML: a blank one is an empty line.
pub open spec fn paragraph_html(
    env: crate::annotate::AnnotationEnv,
    st: AnnotationState,
    para: Seq<char>,
) -> (AnnotationState, Seq<char>) {
    let text = trim(para);
    if text.len() == 0 {
        (st, "<p class=\"preview-line preview-empty\">&nbsp;</p>"@)
    } else {
        let (s2, items) = annotate_tokens(env, st, spec_tokenize(text));
        (s2, "<p class=\"preview-line\">"@ + items_html(items) + "</p>"@)
    }
}

/// The paragraphs of the article as HTML, annotated in turn.
pub open spec fn preview_paragraphs(
    env: crate::annotate::AnnotationEnv,
    st: AnnotationState,
    paras: Seq<Seq<char>>,
) -> (AnnotationState, Seq<char>)
    decreases paras.len(),
{
    if paras.len() == 0 {
        (st, seq![])
    } else {
        let (s1, html) = preview_paragraphs(env, st, paras.drop_last());
        let (s2, part) = paragraph_html(env, s1, paras.last());
        (s2, html + part)
    }
}

/// The preview of an article: its HTML, and the words that should have
/// been annotated but could not be, before sorting.
pub open spec fn spec_preview(
    state: AppState,
    text: Seq<char>,
    title: Seq<char>,
    custom: Seq<char>,
    annotate_unknown: bool,
    profile: crate::state::ProfileView,
    known: Set<Seq<char>>,
    target_language: Seq<char>,
    scheme: Seq<char>,
) -> (Seq<char>, Seq<Seq<char>>) {
    let lex = context_lexicon(state.seed_lexicon.view_map(), custom, target_language);
    let env = make_env(
        state,
        context_hard_terms(lex, custom),
        profile,
        known,
        annotate_unknown,
        target_language == "zh-Hans"@,
        scheme,
    );
    let st0 = AnnotationState {
        lex,
        order: add_entries_order(state.seed_lexicon.key_order(), spec_parse_custom_annotations(custom).0),
        missing: seq![],
    };
    let t = trim(title);
    let (s1, head) = if t.len() > 0 {
        let (s, items) = annotate_tokens(env, st0, spec_tokenize(t));
        (s, "<p class=\"preview-line preview-title\">"@ + items_html(items) + "</p>"@)
    } else {
        (st0, seq![])
    };
    let (s2, body) = preview_paragraphs(env, s1, split_at_set(text, CharSet::Newline));
    ("<div class=\"preview-page\">"@ + head + body + "</div>"@, s2.missing)
}

/// What a preview request gives: the error of the article or of the grade,
/// or the preview's HTML with the missing words before sorting.
pub open spec fn spec_render_preview(
    state: AppState,
    article: Seq<char>,
    title: Seq<char>,
    custom: Seq<char>,
    annotate_unknown: bool,
    grade_code: Seq<char>,
    target_language: Seq<char>,
    scheme: Seq<char>,
) -> Result<(Seq<char>, Seq<Seq<char>>), Seq<char>> {
    let profile = state.chosen_profile(grade_code);
    match spec_prepare_article_text(article, title) {
        Err(e) => Err(e),
        Ok(text) => if !state.known_v().contains_key(profile.code) {
            Err("年级配置不可用。"@)
        } else {
            Ok(
                spec_preview(
                    state,
                    text,
                    title,
                    custom,
                    annotate_unknown,
                    profile,
                    state.known_v()[profile.code].union(context_ignored(custom)),
                    target_language,
                    scheme,
                ),
            )
        },
    }
}

/// Whether `sorted` holds the non-empty words of `words`, each once, in
/// order.
pub open spec fn sorts_words(sorted: Seq<Seq<char>>, words: Seq<Seq<char>>) -> bool {
    &&& strictly_sorted(sorted)
    &&& forall|s: Seq<char>| #[trigger] sorted.contains(s) <==> (words.contains(s) && s.len() > 0)
}

fn preview_paragraph(
    state: &AppState,
    para: &Vec<char>,
    lexicon: &mut crate::lexicon::Lexicon,
    hard_terms: &vstd::hash_set::StringHashSet,
    profile: &crate::state::GradeProfile,
    known_words: &crate::lookup::KnownWords,
    annotate_unknown: bool,
    missing: &mut Vec<String>,
    use_offline_translation: bool,
    scheme: &str,
    html: &mut String,
)
    requires
        state.wf(),
        old(lexicon).wf(),
    ensures
        final(lexicon).wf(),
        ({
            let env = make_env(
                *state,
                hard_terms@,
                profile_view(*profile),
                known_words.view_set(),
                annotate_unknown,
                use_offline_translation,
                scheme@,
            );
            let st = AnnotationState {
                lex: old(lexicon).view_map(),
                order: old(lexicon).key_order(),
                missing: old(missing).deep_view(),
            };
            let (s2, part) = paragraph_html(env, st, para@);
            &&& final(html)@ == old(html)@ + part
            &&& final(lexicon).view_map() == s2.lex
            &&& final(lexicon).key_order() == s2.order
            &&& final(missing).deep_view() == s2.missing
        }),
{
    let t = trim_chars(para);
    if t.len() == 0 {
        push_str(html, "<p class=\"preview-line preview-empty\">&nbsp;</p>");
    } else {
        let text = string_of(&t);
        let items = annotate_items(
            state,
            text.as_str(),
            lexicon,
            hard_terms,
            profile,
            known_words,
            annotate_unknown,
            missing,
            use_offline_translation,
            scheme,
        );
        let ghost mid = html@;
        push_str(html, "<p class=\"preview-line\">");
        let inner = items_to_preview_html(&items);
        push_str(html, inner.as_str());
        push_str(html, "</p>");
        assert(html@ =~= mid + ("<p class=\"preview-line\">"@ + inner@ + "</p>"@));
    }
}

fn preview_body(
    state: &AppState,
    text: &String,
    lexicon: &mut crate::lexicon::Lexicon,
    hard_terms: &vstd::hash_set::StringHashSet,
    profile: &crate::state::GradeProfile,
    known_words: &crate::lookup::KnownWords,
    annotate_unknown: bool,
    missing: &mut Vec<String>,
    use_offline_translation: bool,
    scheme: &str,
    html: &mut String,
)
    requires
        state.wf(),
        old(lexicon).wf(),
    ensures
        final(lexicon).wf(),
        ({
            let env = make_env(
                *state,
                hard_terms@,
                profile_view(*profile),
                known_words.view_set(),
                annotate_unknown,
                use_offline_translation,
                scheme@,
            );
            let st = AnnotationState {
                lex: old(lexicon).view_map(),
                order: old(lexicon).key_order(),
                missing: old(missing).deep_view(),
            };
            let (s2, body) = preview_paragraphs(env, st, split_at_set(text@, CharSet::Newline));
            &&& final(html)@ == old(html)@ + body
            &&& final(lexicon).view_map() == s2.lex
            &&& final(lexicon).key_order() == s2.order
            &&& final(missing).deep_view() == s2.missing
        }),
{
    let ghost env = make_env(
        *state,
        hard_terms@,
        profile_view(*profile),
        known_words.view_set(),
        annotate_unknown,
        use_offline_translation,
        scheme@,
    );
    let ghost st0 = AnnotationState {
        lex: lexicon.view_map(),
        order: lexicon.key_order(),
        missing: missing.deep_view(),
    };
    let ghost html0 = html@;
    let v = chars_of(text.as_str());
    let paras = split_chars(&v, CharSet::Newline);
    let ghost pv = paras@.map_values(|f: Vec<char>| f@);
    let mut i: usize = 0;
    assert(pv.take(0) =~= Seq::<Seq<char>>::empty());
    assert(html@ =~= html0 + Seq::<char>::empty());
    while i < paras.len()
        invariant
            i <= paras.len(),
            state.wf(),
            lexicon.wf(),
            pv == paras@.map_values(|f: Vec<char>| f@),
            pv == split_at_set(text@, CharSet::Newline),
            env == make_env(
                *state,
                hard_terms@,
                profile_view(*profile),
                known_words.view_set(),
                annotate_unknown,
                use_offline_translation,
                scheme@,
            ),
            html@ == html0 + preview_paragraphs(env, st0, pv.take(i as int)).1,
            lexicon.view_map() == preview_paragraphs(env, st0, pv.take(i as int)).0.lex,
            lexicon.key_order() == preview_paragraphs(env, st0, pv.take(i as int)).0.order,
            missing.deep_view() == preview_paragraphs(env, st0, pv.take(i as int)).0.missing,
        decreases paras.len() - i,
    {
        assert(pv.take(i + 1).drop_last() =~= pv.take(i as int));
        assert(pv[i as int] == paras@[i as int]@);
        let ghost prev = preview_paragraphs(env, st0, pv.take(i as int));
        assert(prev.0 == AnnotationState {
            lex: lexicon.view_map(),
            order: lexicon.key_order(),
            missing: missing.deep_view(),
        });
        preview_paragraph(
            state,
            &paras[i],
            lexicon,
            hard_terms,
            profile,
            known_words,
            annotate_unknown,
            missing,
            use_offline_translation,
            scheme,
            html,
        );
        proof {
            let step = paragraph_html(env, prev.0, pv[i as int]);
            assert(preview_paragraphs(env, st0, pv.take(i + 1)) == (step.0, prev.1 + step.1));
            assert(html@ =~= html0 + (prev.1 + step.1));
        }
        i += 1;
    }
    assert(pv.take(paras.len() as int) =~= pv);
}

/// The HTML preview of an article with its annotations, and the sorted
/// words that should have been annotated but could not be. The title, when
/// given, is annotated as the first line; blank paragraphs become empty
/// lines. Errors: an empty article, or a grade without a word list.
pub fn render_preview_html(state: &AppState, article_text: &str, options: PreviewOptions) -> (r: Result<
    (String, Vec<String>),
    String,
>)
    requires
        state.wf(),
        spec_prepare_article_text(article_text@, options.title@) is Err || state.has_profile(options.grade_code@)
            || state.has_profile("P4"@),
    ensures
        match spec_render_preview(
            *state,
            article_text@,
            options.title@,
            options.custom_annotations@,
            options.annotate_unknown,
            options.grade_code@,
            options.target_language@,
            options.pronunciation_scheme@,
        ) {
            Err(e) => r is Err && r->Err_0@ == e,
            Ok((html, missing)) => r is Ok && r->Ok_0.0@ == html && sorts_words(
                r->Ok_0.1.deep_view(),
                missing,
            ),
        },
{
    let article = match prepare_article_text(article_text, options.title) {
        Ok(a) => a,
        Err(e) => return Err(e),
    };
    proof {
        state.lemma_chosen_profile(options.grade_code@);
    }
    let tv = chars_of(options.title);
    let title = string_of(&trim_chars(&tv));
    let (mut lexicon, hard_terms, profile, known_words) = match annotation_context(
        state,
        options.custom_annotations,
        options.grade_code,
        options.target_language,
    ) {
        Ok(c) => c,
        Err(e) => return Err(e),
    };
    let use_offline = str_eq(options.target_language, "zh-Hans");
    let mut missing: Vec<String> = Vec::new();
    let mut html = owned("<div class=\"preview-page\">");
    let ghost st0 = AnnotationState {
        lex: lexicon.view_map(),
        order: lexicon.key_order(),
        missing: missing.deep_view(),
    };
    assert(missing.deep_view() =~= Seq::<Seq<char>>::empty());
    let ghost head_start = html@;
    let ghost env = make_env(
        *state,
        hard_terms@,
        profile_view(*profile),
        known_words.view_set(),
        options.annotate_unknown,
        options.target_language@ == "zh-Hans"@,
        options.pronunciation_scheme@,
    );
    assert(title@ == trim(options.title@));
    if title.as_str().unicode_len() > 0 {
        let items = annotate_items(
            state,
            title.as_str(),
            &mut lexicon,
            &hard_terms,
            profile,
            &known_words,
            options.annotate_unknown,
            &mut missing,
            use_offline,
            options.pronunciation_scheme,
        );
        push_str(&mut html, "<p class=\"preview-line preview-title\">");
        let inner = items_to_preview_html(&items);
        push_str(&mut html, inner.as_str());
        push_str(&mut html, "</p>");
        assert(html@ =~= head_start + ("<p class=\"preview-line preview-title\">"@ + inner@ + "</p>"@));
    } else {
        assert(html@ =~= head_start + Seq::<char>::empty());
    }
    preview_body(
        state,
        &article,
        &mut lexicon,
        &hard_terms,
        profile,
        &known_words,
        options.annotate_unknown,
        &mut missing,
        use_offline,
        options.pronunciation_scheme,
        &mut html,
    );
    push_str(&mut html, "</div>");
    let ghost final_missing = missing.deep_view();
    let sorted = sorted_missing(missing);
    proof {
        assert(known_words.view_set() == state.known_v()[profile.code@].union(
            context_ignored(options.custom_annotations@),
        ));
        let (h, m) = spec_preview(
            *state,
            article@,
            options.title@,
            options.custom_annotations@,
            options.annotate_unknown,
            profile_view(*profile),
            known_words.view_set(),
            options.target_language@,
            options.pronunciation_scheme@,
        );
        assert(html@ =~= h);
        assert(final_missing == m);
    }
    Ok((html, sorted))
}

} // verus!
