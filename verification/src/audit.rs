//! Checks of a document's layout before it is packed: counting tags, reading
//! numeric attributes, and the rules that a layout must keep.
use vstd::prelude::*;
use crate::custom::{find_char, index_of, sub_vec};
use crate::state::{parse_usize, spec_parse_usize};
use crate::text::{
    chars_contains, chars_of, contains_seq, find, find_chars_from, lemma_find_from, matches_at,
    owned,
};
use crate::tokens::concat;

verus! {

/// The number of non-overlapping occurrences of `pat`, read from the left;
/// an empty pattern matches at each of the `s.len() + 1` places.
pub open spec fn count_matches(s: Seq<char>, pat: Seq<char>) -> nat
    decreases s.len(),
{
    if pat.len() == 0 {
        s.len() + 1
    } else {
        match find(s, pat) {
            None => 0,
            Some(i) => {
                proof {
                    lemma_find_from(s, pat, 0);
                }
                1 + count_matches(s.skip(i + pat.len()), pat)
            },
        }
    }
}

/// The number of times `needle` occurs in `text`, without overlaps.
pub fn count_xml_items(text: &str, needle: &str) -> (r: usize)
    requires
        needle@.len() > 0 || text@.len() < usize::MAX,
    ensures
        r == count_matches(text@, needle@),
{
    let v = chars_of(text);
    let p = chars_of(needle);
    if p.len() == 0 {
        return v.len() + 1;
    }
    let mut count: usize = 0;
    let mut from: usize = 0;
    assert(v@.skip(0) =~= v@);
    while from <= v.len()
        invariant
            from <= v.len() + 1,
            p.len() > 0,
            v@ == text@,
            p@ == needle@,
            count <= from,
            from <= v.len() ==> count + count_matches(v@.skip(from as int), p@) == count_matches(v@, p@),
            from > v.len() ==> count == count_matches(v@, p@),
        decreases v.len() + 1 - from,
    {
        let ghost rest = v@.skip(from as int);
        match find_chars_from(&v, &p, from) {
            None => {
                proof {
                    lemma_find_from(v@, p@, from as int);
                    lemma_find_from(rest, p@, 0);
                    if let Some(k) = find(rest, p@) {
                        assert(rest.subrange(k, k + p@.len()) =~= v@.subrange(from + k, from + k + p@.len()));
                        assert(matches_at(v@, p@, from + k));
                    }
                }
                assert(find(rest, p@) is None);
                assert(count_matches(rest, p@) == 0);
                return count;
            },
            Some(i) => {
                proof {
                    lemma_find_from(v@, p@, from as int);
                    lemma_find_from(rest, p@, 0);
                    assert(rest.subrange(i - from, i - from + p@.len()) =~= v@.subrange(i as int, i + p@.len()));
                    assert(matches_at(rest, p@, i - from));
                    if let Some(k) = find(rest, p@) {
                        if k < i - from {
                            assert(rest.subrange(k, k + p@.len()) =~= v@.subrange(from + k, from + k + p@.len()));
                            assert(matches_at(v@, p@, from + k));
                        }
                        if k > i - from {
                            assert(!matches_at(rest, p@, i - from));
                        }
                    }
                    assert(find(rest, p@) == Some(i - from));
                    assert(rest.skip(i - from + p@.len()) =~= v@.skip(i + p@.len()));
                }
                count = count + 1;
                from = i + p.len();
            },
        }
    }
    count
}

/// The value of `attr` in a tag: the number between `attr="` and the next
/// quote, where there is one and it reads as a number.
pub open spec fn tag_value(tag: Seq<char>, attr: Seq<char>) -> Option<nat> {
    let pat = attr + seq!['=', '"'];
    match find(tag, pat) {
        None => None,
        Some(a) => {
            let vs = a + pat.len();
            match index_of(tag.skip(vs), '"') {
                None => None,
                Some(ve) => spec_parse_usize(tag.subrange(vs, vs + ve)),
            }
        },
    }
}

/// The values of `attr` in the tags that start with `prefix`, in order.
pub open spec fn attr_numbers(rest: Seq<char>, prefix: Seq<char>, attr: Seq<char>) -> Seq<nat>
    decreases rest.len(),
{
    match find(rest, prefix) {
        None => seq![],
        Some(ts) => {
            proof {
                lemma_find_from(rest, prefix, 0);
            }
            let r = rest.skip(ts);
            match index_of(r, '>') {
                None => seq![],
                Some(te) => {
                    proof {
                        crate::custom::lemma_index_of(r, '>');
                    }
                    let here = match tag_value(r.take(te), attr) {
                        Some(v) => seq![v],
                        None => seq![],
                    };
                    here + attr_numbers(r.skip(te + 1), prefix, attr)
                },
            }
        },
    }
}

fn tag_value_of(tag: &Vec<char>, attr: &Vec<char>) -> (r: Option<usize>)
    ensures
        r matches Some(v) ==> tag_value(tag@, attr@) == Some(v as nat),
        r is None ==> tag_value(tag@, attr@) is None,
{
    let mut pat = attr.clone();
    pat.push('=');
    pat.push('"');
    assert(pat@ =~= attr@ + seq!['=', '"']);
    let a = match find_chars_from(tag, &pat, 0) {
        Some(a) => a,
        None => return None,
    };
    proof {
        lemma_find_from(tag@, pat@, 0);
    }
    let total = tag.len();
    assert(matches_at(tag@, pat@, a as int));
    let vs = a + pat.len();
    let after = sub_vec(tag, vs, total);
    assert(after@ =~= tag@.skip(vs as int));
    let ve = match find_char(&after, '"') {
        Some(e) => e,
        None => return None,
    };
    let value = sub_vec(tag, vs, vs + ve);
    parse_usize(&value)
}

/// The values of `attr` in each tag of `xml` that starts with `tag_prefix`,
/// where the value is a number.
pub fn xml_attr_numbers(xml: &str, tag_prefix: &str, attr: &str) -> (r: Vec<usize>)
    ensures
        r@.map_values(|v: usize| v as nat) == attr_numbers(xml@, tag_prefix@, attr@),
{
    let v = chars_of(xml);
    let prefix = chars_of(tag_prefix);
    let attr_v = chars_of(attr);
    let mut values: Vec<usize> = Vec::new();
    let mut from: usize = 0;
    assert(v@.skip(0) =~= v@);
    assert(values@.map_values(|x: usize| x as nat) =~= Seq::<nat>::empty());
    loop
        invariant
            from <= v.len(),
            v@ == xml@,
            prefix@ == tag_prefix@,
            attr_v@ == attr@,
            values@.map_values(|x: usize| x as nat) + attr_numbers(v@.skip(from as int), prefix@, attr_v@)
                == attr_numbers(v@, prefix@, attr_v@),
        decreases v.len() + 1 - from,
    {
        let ghost rest = v@.skip(from as int);
        let ghost before = values@.map_values(|x: usize| x as nat);
        let ts = match find_chars_from(&v, &prefix, from) {
            Some(t) => t,
            None => {
                proof {
                    lemma_find_from(v@, prefix@, from as int);
                    lemma_find_from(rest, prefix@, 0);
                    if let Some(k) = find(rest, prefix@) {
                        assert(rest.subrange(k, k + prefix@.len()) =~= v@.subrange(
                            from + k,
                            from + k + prefix@.len(),
                        ));
                        assert(matches_at(v@, prefix@, from + k));
                    }
                    assert(before + Seq::<nat>::empty() =~= before);
                }
                return values;
            },
        };
        proof {
            lemma_find_from(v@, prefix@, from as int);
            lemma_find_from(rest, prefix@, 0);
            assert(rest.subrange(ts - from, ts - from + prefix@.len()) =~= v@.subrange(
                ts as int,
                ts + prefix@.len(),
            ));
            assert(matches_at(rest, prefix@, ts - from));
            if let Some(k) = find(rest, prefix@) {
                if k < ts - from {
                    assert(rest.subrange(k, k + prefix@.len()) =~= v@.subrange(
                        from + k,
                        from + k + prefix@.len(),
                    ));
                    assert(matches_at(v@, prefix@, from + k));
                }
            }
            assert(find(rest, prefix@) == Some(ts - from));
            assert(rest.skip(ts - from) =~= v@.skip(ts as int));
        }
        let r = sub_vec(&v, ts, v.len());
        assert(r@ =~= v@.skip(ts as int));
        let te = match find_char(&r, '>') {
            Some(e) => e,
            None => {
                assert(before + Seq::<nat>::empty() =~= before);
                return values;
            },
        };
        let tag = sub_vec(&r, 0, te);
        assert(tag@ =~= r@.take(te as int));
        match tag_value_of(&tag, &attr_v) {
            Some(n) => {
                values.push(n);
                assert(values@.map_values(|x: usize| x as nat) =~= before + seq![n as nat]);
            },
            None => {},
        }
        assert(r@.skip(te + 1) =~= v@.skip(ts + te + 1));
        proof {
            let here = match tag_value(r@.take(te as int), attr_v@) {
                Some(n) => seq![n],
                None => Seq::<nat>::empty(),
            };
            assert(before + (here + attr_numbers(v@.skip(ts + te + 1), prefix@, attr_v@)) =~= (before
                + here) + attr_numbers(v@.skip(ts + te + 1), prefix@, attr_v@));
        }
        if ts + te + 1 > v.len() {
            assert(false);
            return values;
        }
        from = ts + te + 1;
    }
}

/// What a layout check found: the number of tables (or rubies), the
/// narrowest cell and the least row (or line) height.
pub struct LayoutReport {
    pub table_count: usize,
    pub min_cell_width: usize,
    pub min_row_height: usize,
}

/// The least of `s`, or zero for none.
pub open spec fn seq_min(s: Seq<nat>) -> nat
    decreases s.len(),
{
    if s.len() == 0 {
        0
    } else if s.len() == 1 {
        s[0]
    } else {
        let m = seq_min(s.drop_last());
        if s.last() < m {
            s.last()
        } else {
            m
        }
    }
}

fn min_of(values: &Vec<usize>) -> (r: usize)
    ensures
        r as nat == seq_min(values@.map_values(|v: usize| v as nat)),
{
    let ghost vv = values@.map_values(|v: usize| v as nat);
    if values.len() == 0 {
        return 0;
    }
    let mut m = values[0];
    let mut i: usize = 1;
    assert(vv.take(1).drop_last() =~= Seq::<nat>::empty());
    while i < values.len()
        invariant
            1 <= i <= values.len(),
            vv == values@.map_values(|v: usize| v as nat),
            m as nat == seq_min(vv.take(i as int)),
        decreases values.len() - i,
    {
        assert(vv.take(i + 1).drop_last() =~= vv.take(i as int));
        if values[i] < m {
            m = values[i];
        }
        i += 1;
    }
    assert(vv.take(values.len() as int) =~= vv);
    m
}

/// The check of a document laid out with rubies: no tables, no squeezed
/// text, no empty text, each ruby with its annotation and base, and lines
/// tall enough for annotations.
pub open spec fn spec_audit_docx_ruby_layout(paragraphs: Seq<Seq<char>>) -> Result<(nat, nat, nat), Seq<char>> {
    let xml = concat(paragraphs);
    if count_matches(xml, "<w:tbl>"@) > 0 {
        Err("Layout audit failed: table layout remains in the Word body."@)
    } else if contains_seq(xml, "<w:fitText"@) {
        Err("Layout audit failed: unstable fitText layout was detected."@)
    } else if contains_seq(xml, "<w:t></w:t>"@) {
        Err("Layout audit failed: empty visible text runs were detected."@)
    } else {
        let rubies = count_matches(xml, "<w:ruby>"@);
        if rubies != count_matches(xml, "<w:rt>"@) || rubies != count_matches(xml, "<w:rubyBase>"@) {
            Err("Layout audit failed: ruby annotations are not paired with base words."@)
        } else {
            let min_line = seq_min(attr_numbers(xml, "<w:spacing"@, "w:line"@));
            if rubies > 0 && min_line < 700 {
                Err("Layout audit failed: line spacing is too small for annotations."@)
            } else {
                Ok((rubies, 0, min_line))
            }
        }
    }
}

fn concat_text(paragraphs: &Vec<String>) -> (r: String)
    ensures
        r@ == concat(paragraphs.deep_view()),
{
    crate::pronounce::join_all(paragraphs)
}

/// Checks a document laid out with rubies before it is packed.
pub fn audit_docx_ruby_layout(paragraphs: &Vec<String>) -> (r: Result<LayoutReport, String>)
    ensures
        match spec_audit_docx_ruby_layout(paragraphs.deep_view()) {
            Ok((a, b, c)) => r matches Ok(rep) && rep.table_count == a && rep.min_cell_width == b
                && rep.min_row_height == c,
            Err(e) => r matches Err(x) && x@ == e,
        },
{
    let xml = concat_text(paragraphs);
    let text = xml.as_str();
    proof {
        reveal_strlit("<w:tbl>");
    }
    let tables = count_xml_items(text, "<w:tbl>");
    if tables > 0 {
        return Err(owned("Layout audit failed: table layout remains in the Word body."));
    }
    let v = chars_of(text);
    if chars_contains(&v, "<w:fitText") {
        return Err(owned("Layout audit failed: unstable fitText layout was detected."));
    }
    if chars_contains(&v, "<w:t></w:t>") {
        return Err(owned("Layout audit failed: empty visible text runs were detected."));
    }
    proof {
        reveal_strlit("<w:ruby>");
    }
    let rubies = count_xml_items(text, "<w:ruby>");
    proof {
        reveal_strlit("<w:rt>");
    }
    let ruby_texts = count_xml_items(text, "<w:rt>");
    proof {
        reveal_strlit("<w:rubyBase>");
    }
    let ruby_bases = count_xml_items(text, "<w:rubyBase>");
    if rubies != ruby_texts || rubies != ruby_bases {
        return Err(owned("Layout audit failed: ruby annotations are not paired with base words."));
    }
    let line_heights = xml_attr_numbers(text, "<w:spacing", "w:line");
    let min_line_height = min_of(&line_heights);
    if rubies > 0 && min_line_height < 700 {
        return Err(owned("Layout audit failed: line spacing is too small for annotations."));
    }
    Ok(LayoutReport { table_count: rubies, min_cell_width: 0, min_row_height: min_line_height })
}

/// The check of a document laid out with tables: each row kept on one
/// page, no rubies or squeezed text, no empty text, no row wider than the
/// page, no cell too narrow and no row too low.
pub open spec fn spec_audit_docx_layout(paragraphs: Seq<Seq<char>>) -> Result<(nat, nat, nat), Seq<char>> {
    let xml = concat(paragraphs);
    let tables = count_matches(xml, "<w:tbl>"@);
    if tables == 0 {
        Ok((0, 0, 0))
    } else {
        let rows = count_matches(xml, "<w:tr>"@);
        if tables != rows || rows != count_matches(xml, "<w:cantSplit/>"@) {
            Err("版式体检未通过：注释行缺少分页保护。"@)
        } else if contains_seq(xml, "<w:ruby"@) || contains_seq(xml, "<w:fitText"@) {
            Err("版式体检未通过：检测到不稳定的 Word 排版结构。"@)
        } else if contains_seq(xml, "<w:t></w:t>"@) {
            Err("Layout audit failed: empty visible text runs were detected."@)
        } else if any_over(attr_numbers(xml, "<w:tblW"@, "w:w"@), 9360) {
            Err("版式体检未通过：有行宽超过页面可用宽度。"@)
        } else {
            let min_cell = seq_min(attr_numbers(xml, "<w:gridCol"@, "w:w"@));
            if min_cell > 0 && min_cell < 300 {
                Err("版式体检未通过：有词块宽度过窄，可能导致单词断开。"@)
            } else {
                let min_row = seq_min(attr_numbers(xml, "<w:trHeight"@, "w:val"@));
                if min_row > 0 && min_row < 900 {
                    Err("版式体检未通过：行高不足，可能容不下注释和英文。"@)
                } else {
                    Ok((tables, min_cell, min_row))
                }
            }
        }
    }
}

/// Whether some value of `s` exceeds `limit`.
pub open spec fn any_over(s: Seq<nat>, limit: nat) -> bool {
    exists|k: int| 0 <= k < s.len() && #[trigger] s[k] > limit
}

fn any_above(values: &Vec<usize>, limit: usize) -> (r: bool)
    ensures
        r == any_over(values@.map_values(|v: usize| v as nat), limit as nat),
{
    let mut i: usize = 0;
    while i < values.len()
        invariant
            i <= values.len(),
            forall|k: int| 0 <= k < i ==> values@[k] <= limit,
        decreases values.len() - i,
    {
        if values[i] > limit {
            assert(values@.map_values(|v: usize| v as nat)[i as int] > limit);
            return true;
        }
        i += 1;
    }
    proof {
        let vv = values@.map_values(|v: usize| v as nat);
        assert forall|k: int| 0 <= k < vv.len() implies !(#[trigger] vv[k] > limit) by {
            assert(values@[k] <= limit);
        }
    }
    false
}

/// Checks a document laid out with tables before it is packed.
pub fn audit_docx_layout(paragraphs: &Vec<String>) -> (r: Result<LayoutReport, String>)
    ensures
        match spec_audit_docx_layout(paragraphs.deep_view()) {
            Ok((a, b, c)) => r matches Ok(rep) && rep.table_count == a && rep.min_cell_width == b
                && rep.min_row_height == c,
            Err(e) => r matches Err(x) && x@ == e,
        },
{
    let xml = concat_text(paragraphs);
    let text = xml.as_str();
    proof {
        reveal_strlit("<w:tbl>");
    }
    let tables = count_xml_items(text, "<w:tbl>");
    if tables == 0 {
        return Ok(LayoutReport { table_count: 0, min_cell_width: 0, min_row_height: 0 });
    }
    proof {
        reveal_strlit("<w:tr>");
    }
    let rows = count_xml_items(text, "<w:tr>");
    proof {
        reveal_strlit("<w:cantSplit/>");
    }
    let cant_split = count_xml_items(text, "<w:cantSplit/>");
    if tables != rows || rows != cant_split {
        return Err(owned("版式体检未通过：注释行缺少分页保护。"));
    }
    let v = chars_of(text);
    if chars_contains(&v, "<w:ruby") || chars_contains(&v, "<w:fitText") {
        return Err(owned("版式体检未通过：检测到不稳定的 Word 排版结构。"));
    }
    if chars_contains(&v, "<w:t></w:t>") {
        return Err(owned("Layout audit failed: empty visible text runs were detected."));
    }
    let table_widths = xml_attr_numbers(text, "<w:tblW", "w:w");
    if any_above(&table_widths, 9360) {
        return Err(owned("版式体检未通过：有行宽超过页面可用宽度。"));
    }
    let cell_widths = xml_attr_numbers(text, "<w:gridCol", "w:w");
    let min_cell_width = min_of(&cell_widths);
    if min_cell_width > 0 && min_cell_width < 300 {
        return Err(owned("版式体检未通过：有词块宽度过窄，可能导致单词断开。"));
    }
    let row_heights = xml_attr_numbers(text, "<w:trHeight", "w:val");
    let min_row_height = min_of(&row_heights);
    if min_row_height > 0 && min_row_height < 900 {
        return Err(owned("版式体检未通过：行高不足，可能容不下注释和英文。"));
    }
    Ok(LayoutReport { table_count: tables, min_cell_width, min_row_height })
}

} // verus!
