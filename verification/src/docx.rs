//! The WordprocessingML of an annotated document: runs, ruby annotations,
//! paragraphs, and the layout checks made before a document is packed.
use vstd::prelude::*;
use crate::annotate::{item_view, items_view, parts_view, AnnotationItem, AnnotationParts, ItemView, PartsView};
use crate::decimal::{decimal, decimal_string, push_decimal};
use crate::preview::{spec_xml_escape, xml_escape};
use crate::pronounce::push_str;
use crate::text::{chars_of, push_char};

verus! {

/// The sizes a document is laid out with: the English text, the
/// pronunciation and the meaning in half points, and the page in twips.
#[derive(Clone, Copy)]
pub struct TextSizes {
    pub english_hps: usize,
    pub ipa_hps: usize,
    pub zh_hps: usize,
    pub page_width_twips: usize,
    pub page_height_twips: usize,
}

impl TextSizes {
    /// The default sizes: 13.5 point text with 6.5 point annotations on a
    /// US letter page.
    pub fn default_body() -> (r: TextSizes)
        ensures
            r.english_hps == 27,
            r.ipa_hps == 13,
            r.zh_hps == 13,
            r.page_width_twips == 12240,
            r.page_height_twips == 15840,
    {
        TextSizes {
            english_hps: 27,
            ipa_hps: 13,
            zh_hps: 13,
            page_width_twips: 12240,
            page_height_twips: 15840,
        }
    }

    /// The size of a title: nine half points above the text, between 24
    /// and 72.
    pub fn title_hps(&self) -> (r: usize)
        requires
            self.english_hps + 9 <= usize::MAX,
        ensures
            r == clamp(self.english_hps + 9, 24, 72),
    {
        let v = self.english_hps + 9;
        if v < 24 {
            24
        } else if v > 72 {
            72
        } else {
            v
        }
    }
}

pub open spec fn clamp(v: int, lo: int, hi: int) -> int {
    if v < lo {
        lo
    } else if v > hi {
        hi
    } else {
        v
    }
}

fn clamp_usize(v: usize, lo: usize, hi: usize) -> (r: usize)
    requires
        lo <= hi,
    ensures
        r == clamp(v as int, lo as int, hi as int),
{
    if v < lo {
        lo
    } else if v > hi {
        hi
    } else {
        v
    }
}

// ---------------------------------------------------------------------------
// Runs
// ---------------------------------------------------------------------------

/// The run properties: fonts, size, bold, no proofing, and a colour.
pub open spec fn spec_run_props_xml(
    size_hps: nat,
    color: Option<Seq<char>>,
    bold: bool,
    ascii_font: Seq<char>,
    east_asia_font: Seq<char>,
) -> Seq<char> {
    "<w:rPr><w:rFonts w:ascii=\""@ + spec_xml_escape(ascii_font) + "\" w:hAnsi=\""@ + spec_xml_escape(
        ascii_font,
    ) + "\" w:eastAsia=\""@ + spec_xml_escape(east_asia_font) + "\"/><w:sz w:val=\""@ + decimal(
        size_hps,
    ) + "\"/><w:szCs w:val=\""@ + decimal(size_hps) + "\"/>"@ + (if bold {
        "<w:b/><w:bCs/>"@
    } else {
        seq![]
    }) + "<w:noProof/>"@ + (match color {
        Some(c) => "<w:color w:val=\""@ + spec_xml_escape(c) + "\"/>"@,
        None => seq![],
    }) + "</w:rPr>"@
}

/// The run properties of a run: its fonts, its size in half points, bold
/// where asked, no proofing, and its colour where it has one.
pub fn run_props_xml(
    size_hps: usize,
    color: Option<&str>,
    bold: bool,
    ascii_font: &str,
    east_asia_font: &str,
) -> (r: String)
    ensures
        r@ == spec_run_props_xml(
            size_hps as nat,
            match color {
                Some(c) => Some(c@),
                None => None,
            },
            bold,
            ascii_font@,
            east_asia_font@,
        ),
{
    let mut xml = String::new();
    push_str(&mut xml, "<w:rPr><w:rFonts w:ascii=\"");
    let a = xml_escape(ascii_font);
    push_str(&mut xml, a.as_str());
    push_str(&mut xml, "\" w:hAnsi=\"");
    push_str(&mut xml, a.as_str());
    push_str(&mut xml, "\" w:eastAsia=\"");
    let e = xml_escape(east_asia_font);
    push_str(&mut xml, e.as_str());
    push_str(&mut xml, "\"/><w:sz w:val=\"");
    push_decimal(&mut xml, size_hps as u64);
    push_str(&mut xml, "\"/><w:szCs w:val=\"");
    push_decimal(&mut xml, size_hps as u64);
    push_str(&mut xml, "\"/>");
    let ghost mid = xml@;
    if bold {
        push_str(&mut xml, "<w:b/><w:bCs/>");
    } else {
        assert(xml@ =~= mid + Seq::<char>::empty());
    }
    push_str(&mut xml, "<w:noProof/>");
    let ghost mid2 = xml@;
    match color {
        Some(c) => {
            push_str(&mut xml, "<w:color w:val=\"");
            let ce = xml_escape(c);
            push_str(&mut xml, ce.as_str());
            push_str(&mut xml, "\"/>");
        },
        None => {
            assert(xml@ =~= mid2 + Seq::<char>::empty());
        },
    }
    push_str(&mut xml, "</w:rPr>");
    proof {
        let cv = match color {
            Some(c) => Some(c@),
            None => None,
        };
        assert(xml@ =~= spec_run_props_xml(size_hps as nat, cv, bold, ascii_font@, east_asia_font@));
    }
    xml
}

/// A run of text with its properties.
pub open spec fn spec_text_run_xml(
    text: Seq<char>,
    size_hps: nat,
    color: Option<Seq<char>>,
    bold: bool,
    ascii_font: Seq<char>,
    east_asia_font: Seq<char>,
) -> Seq<char> {
    "<w:r>"@ + spec_run_props_xml(size_hps, color, bold, ascii_font, east_asia_font)
        + "<w:t xml:space=\"preserve\">"@ + spec_xml_escape(text) + "</w:t></w:r>"@
}

/// A run of text, its spaces kept, with its properties.
pub fn text_run_xml(
    text: &str,
    size_hps: usize,
    color: Option<&str>,
    bold: bool,
    ascii_font: &str,
    east_asia_font: &str,
) -> (r: String)
    ensures
        r@ == spec_text_run_xml(
            text@,
            size_hps as nat,
            match color {
                Some(c) => Some(c@),
                None => None,
            },
            bold,
            ascii_font@,
            east_asia_font@,
        ),
{
    let mut xml = String::new();
    push_str(&mut xml, "<w:r>");
    let props = run_props_xml(size_hps, color, bold, ascii_font, east_asia_font);
    push_str(&mut xml, props.as_str());
    push_str(&mut xml, "<w:t xml:space=\"preserve\">");
    let t = xml_escape(text);
    push_str(&mut xml, t.as_str());
    push_str(&mut xml, "</w:t></w:r>");
    proof {
        let cv = match color {
            Some(c) => Some(c@),
            None => None,
        };
        assert(xml@ =~= spec_text_run_xml(text@, size_hps as nat, cv, bold, ascii_font@, east_asia_font@));
    }
    xml
}

// ---------------------------------------------------------------------------
// Ruby annotations
// ---------------------------------------------------------------------------

/// The size of an annotation: about half the base size, between 10 and 24
/// half points.
pub open spec fn spec_ruby_annotation_hps(base_hps: nat) -> nat {
    clamp(((base_hps * 48 + 50) / 100) as int, 10, 24) as nat
}

/// The size of the annotation above a word of `base_hps` half points.
pub fn ruby_annotation_hps(base_hps: usize) -> (r: usize)
    requires
        base_hps * 48 + 50 <= usize::MAX,
    ensures
        r == spec_ruby_annotation_hps(base_hps as nat),
{
    clamp_usize((base_hps * 48 + 50) / 100, 10, 24)
}

/// The line height for annotated text, in twips, between 700 and 1080.
pub open spec fn spec_ruby_line_height(base_hps: nat) -> nat {
    clamp((base_hps * 21 + spec_ruby_annotation_hps(base_hps) * 7 + 90) as int, 700, 1080) as nat
}

/// The line height for text of `base_hps` half points with its annotations.
pub fn ruby_line_height(base_hps: usize, sizes: TextSizes) -> (r: usize)
    requires
        base_hps * 48 + 50 <= usize::MAX,
    ensures
        r == spec_ruby_line_height(base_hps as nat),
{
    let annotation_hps = ruby_annotation_hps(base_hps);
    clamp_usize(base_hps * 21 + annotation_hps * 7 + 90, 700, 1080)
}

/// The colour of an annotation: orange for a hard term, else grey.
pub open spec fn annotation_color(hard: bool) -> Seq<char> {
    if hard {
        "B35C00"@
    } else {
        "444444"@
    }
}

/// The runs of an annotation: its pronunciation at `ipa_hps`, then its
/// meaning after a space at `zh_hps` where it has one.
pub open spec fn spec_annotation_runs(a: PartsView, ipa_hps: nat, zh_hps: nat) -> Seq<char> {
    spec_text_run_xml(a.ipa, ipa_hps, Some(annotation_color(a.hard)), a.hard, "Arial"@, "Arial"@) + (if a.zh.len()
        > 0 {
        spec_text_run_xml(
            seq![' '] + a.zh,
            zh_hps,
            Some(annotation_color(a.hard)),
            a.hard,
            "Microsoft YaHei"@,
            "Microsoft YaHei"@,
        )
    } else {
        seq![]
    })
}

/// A word with its annotation as a Word ruby.
pub open spec fn spec_ruby_run_xml(base: Seq<char>, a: PartsView, base_hps: nat) -> Seq<char> {
    let annotation_hps = spec_ruby_annotation_hps(base_hps);
    let hps_raise = clamp((base_hps + annotation_hps / 2) as int, 20, 42) as nat;
    "<w:r><w:ruby><w:rubyPr><w:rubyAlign w:val=\"center\"/><w:hps w:val=\""@ + decimal(annotation_hps)
        + "\"/><w:hpsRaise w:val=\""@ + decimal(hps_raise) + "\"/><w:hpsBaseText w:val=\""@ + decimal(
        base_hps,
    ) + "\"/><w:lid w:val=\"en-US\"/></w:rubyPr><w:rt>"@ + spec_annotation_runs(a, annotation_hps, annotation_hps)
        + "</w:rt><w:rubyBase>"@ + spec_text_run_xml(
        base,
        base_hps,
        None,
        a.hard,
        "Times New Roman"@,
        "SimSun"@,
    ) + "</w:rubyBase></w:ruby></w:r>"@
}

proof fn lemma_xml_escape_after_space(t: Seq<char>)
    ensures
        spec_xml_escape(seq![' '] + t) == seq![' '] + spec_xml_escape(t),
    decreases t.len(),
{
    let u = seq![' '] + t;
    if t.len() == 0 {
        assert(u =~= seq![' ']);
        assert(u.drop_last() =~= Seq::<char>::empty());
        assert(spec_xml_escape(u) == spec_xml_escape(u.drop_last()) + crate::preview::xml_escape_char(u.last()));
        assert(spec_xml_escape(u) =~= seq![' ']);
        assert(seq![' '] + spec_xml_escape(t) =~= seq![' ']);
    } else {
        lemma_xml_escape_after_space(t.drop_last());
        assert(u.drop_last() =~= seq![' '] + t.drop_last());
        assert(u.last() == t.last());
        assert(spec_xml_escape(u) == spec_xml_escape(u.drop_last()) + crate::preview::xml_escape_char(u.last()));
        assert(seq![' '] + spec_xml_escape(t) =~= seq![' '] + spec_xml_escape(t.drop_last()) + crate::preview::xml_escape_char(
            t.last(),
        ));
    }
}

/// Law: the ruby text (`<w:rt>`) of a word whose annotation has a meaning
/// holds the escaped pronunciation and, after it, a space and the escaped
/// meaning, so the meaning stands above the word.
pub proof fn ruby_text_shows_meaning(base: Seq<char>, a: PartsView, base_hps: nat)
    requires
        a.zh.len() > 0,
    ensures
        exists|pre: Seq<char>, rt: Seq<char>, post: Seq<char>, i: int, j: int|
            #![trigger crate::text::matches_at(rt, spec_xml_escape(a.ipa), i), crate::text::matches_at(rt, seq![' '] + spec_xml_escape(a.zh), j), pre + "<w:rt>"@ + rt + "</w:rt>"@ + post]
            spec_ruby_run_xml(base, a, base_hps) == pre + "<w:rt>"@ + rt + "</w:rt>"@ + post && 0 <= i && i
                + spec_xml_escape(a.ipa).len() <= j && crate::text::matches_at(rt, spec_xml_escape(a.ipa), i)
                && crate::text::matches_at(rt, seq![' '] + spec_xml_escape(a.zh), j),
{
    let ah = spec_ruby_annotation_hps(base_hps);
    let hps_raise = clamp((base_hps + ah / 2) as int, 20, 42) as nat;
    let color = Some(annotation_color(a.hard));
    let open_t = "<w:t xml:space=\"preserve\">"@;
    let close_t = "</w:t></w:r>"@;
    let head1 = "<w:r>"@ + spec_run_props_xml(ah, color, a.hard, "Arial"@, "Arial"@) + open_t;
    let run1 = head1 + spec_xml_escape(a.ipa) + close_t;
    let zh_text = seq![' '] + a.zh;
    let head2 = "<w:r>"@ + spec_run_props_xml(ah, color, a.hard, "Microsoft YaHei"@, "Microsoft YaHei"@) + open_t;
    let run2 = head2 + spec_xml_escape(zh_text) + close_t;
    let rt = run1 + run2;
    assert(spec_annotation_runs(a, ah, ah) == rt);
    lemma_xml_escape_after_space(a.zh);
    let i = head1.len() as int;
    let j: int = (run1.len() + head2.len()) as int;
    assert(rt.subrange(i, i + spec_xml_escape(a.ipa).len() as int) =~= spec_xml_escape(a.ipa));
    assert(crate::text::matches_at(rt, spec_xml_escape(a.ipa), i));
    assert(rt.subrange(j, j + (seq![' '] + spec_xml_escape(a.zh)).len() as int) =~= seq![' '] + spec_xml_escape(a.zh));
    assert(crate::text::matches_at(rt, seq![' '] + spec_xml_escape(a.zh), j));
    reveal_strlit("\"/><w:lid w:val=\"en-US\"/></w:rubyPr><w:rt>");
    reveal_strlit("\"/><w:lid w:val=\"en-US\"/></w:rubyPr>");
    reveal_strlit("<w:rt>");
    reveal_strlit("</w:rt><w:rubyBase>");
    reveal_strlit("</w:rt>");
    reveal_strlit("<w:rubyBase>");
    assert("\"/><w:lid w:val=\"en-US\"/></w:rubyPr><w:rt>"@ =~= "\"/><w:lid w:val=\"en-US\"/></w:rubyPr>"@ + "<w:rt>"@);
    assert("</w:rt><w:rubyBase>"@ =~= "</w:rt>"@ + "<w:rubyBase>"@);
    let pre = "<w:r><w:ruby><w:rubyPr><w:rubyAlign w:val=\"center\"/><w:hps w:val=\""@ + decimal(ah)
        + "\"/><w:hpsRaise w:val=\""@ + decimal(hps_raise) + "\"/><w:hpsBaseText w:val=\""@ + decimal(base_hps)
        + "\"/><w:lid w:val=\"en-US\"/></w:rubyPr>"@;
    let post = "<w:rubyBase>"@ + spec_text_run_xml(base, base_hps, None, a.hard, "Times New Roman"@, "SimSun"@)
        + "</w:rubyBase></w:ruby></w:r>"@;
    assert(spec_ruby_run_xml(base, a, base_hps) =~= pre + "<w:rt>"@ + rt + "</w:rt>"@ + post);
}

fn color_of(hard: bool) -> (r: &'static str)
    ensures
        r@ == annotation_color(hard),
{
    if hard {
        "B35C00"
    } else {
        "444444"
    }
}

fn annotation_runs(annotation: &AnnotationParts, ipa_hps: usize, zh_hps: usize) -> (r: String)
    ensures
        r@ == spec_annotation_runs(parts_view(*annotation), ipa_hps as nat, zh_hps as nat),
{
    let color = color_of(annotation.hard);
    let mut runs = text_run_xml(annotation.ipa.as_str(), ipa_hps, Some(color), annotation.hard, "Arial", "Arial");
    let ghost first = runs@;
    if annotation.zh.as_str().unicode_len() > 0 {
        let mut spaced = String::new();
        push_char(&mut spaced, ' ');
        push_str(&mut spaced, annotation.zh.as_str());
        assert(spaced@ =~= seq![' '] + annotation.zh@);
        let zh_run = text_run_xml(
            spaced.as_str(),
            zh_hps,
            Some(color),
            annotation.hard,
            "Microsoft YaHei",
            "Microsoft YaHei",
        );
        push_str(&mut runs, zh_run.as_str());
    } else {
        assert(runs@ =~= first + Seq::<char>::empty());
    }
    runs
}

/// A word with its annotation as a Word ruby: the annotation at about half
/// the size, raised above the word, orange and bold for a hard term.
pub fn ruby_run_xml(base: &str, annotation: &AnnotationParts, base_hps: usize) -> (r: String)
    requires
        base_hps * 48 + 50 <= usize::MAX,
    ensures
        r@ == spec_ruby_run_xml(base@, parts_view(*annotation), base_hps as nat),
{
    let annotation_hps = ruby_annotation_hps(base_hps);
    let hps_raise = clamp_usize(base_hps + annotation_hps / 2, 20, 42);
    let rt_runs = annotation_runs(annotation, annotation_hps, annotation_hps);
    let base_runs = text_run_xml(base, base_hps, None, annotation.hard, "Times New Roman", "SimSun");
    let mut xml = String::new();
    push_str(&mut xml, "<w:r><w:ruby><w:rubyPr><w:rubyAlign w:val=\"center\"/><w:hps w:val=\"");
    push_decimal(&mut xml, annotation_hps as u64);
    push_str(&mut xml, "\"/><w:hpsRaise w:val=\"");
    push_decimal(&mut xml, hps_raise as u64);
    push_str(&mut xml, "\"/><w:hpsBaseText w:val=\"");
    push_decimal(&mut xml, base_hps as u64);
    push_str(&mut xml, "\"/><w:lid w:val=\"en-US\"/></w:rubyPr><w:rt>");
    push_str(&mut xml, rt_runs.as_str());
    push_str(&mut xml, "</w:rt><w:rubyBase>");
    push_str(&mut xml, base_runs.as_str());
    push_str(&mut xml, "</w:rubyBase></w:ruby></w:r>");
    assert(xml@ =~= spec_ruby_run_xml(base@, parts_view(*annotation), base_hps as nat));
    xml
}

// ---------------------------------------------------------------------------
// Paragraphs
// ---------------------------------------------------------------------------

/// A paragraph: its alignment and spacing, lines kept together where
/// asked, then its runs.
pub open spec fn spec_docx_paragraph(
    runs: Seq<char>,
    align: Seq<char>,
    before: nat,
    after: nat,
    line_twips: nat,
    keep_lines: bool,
) -> Seq<char> {
    "<w:p><w:pPr>"@ + (if keep_lines {
        "<w:keepLines/>"@
    } else {
        seq![]
    }) + "<w:jc w:val=\""@ + spec_xml_escape(align) + "\"/><w:spacing w:before=\""@ + decimal(before)
        + "\" w:after=\""@ + decimal(after) + "\" w:line=\""@ + decimal(line_twips)
        + "\" w:lineRule=\"atLeast\"/></w:pPr>"@ + runs + "</w:p>"@
}

/// A paragraph of `runs` with its alignment, the space before and after
/// it and its least line height in twips, its lines kept together where
/// `keep_lines` is set.
pub fn docx_paragraph(
    runs: String,
    align: &str,
    before: usize,
    after: usize,
    line_twips: usize,
    keep_lines: bool,
) -> (r: String)
    ensures
        r@ == spec_docx_paragraph(runs@, align@, before as nat, after as nat, line_twips as nat, keep_lines),
{
    let mut xml = String::new();
    push_str(&mut xml, "<w:p><w:pPr>");
    let ghost mid = xml@;
    if keep_lines {
        push_str(&mut xml, "<w:keepLines/>");
    } else {
        assert(xml@ =~= mid + Seq::<char>::empty());
    }
    push_str(&mut xml, "<w:jc w:val=\"");
    let a = xml_escape(align);
    push_str(&mut xml, a.as_str());
    push_str(&mut xml, "\"/><w:spacing w:before=\"");
    push_decimal(&mut xml, before as u64);
    push_str(&mut xml, "\" w:after=\"");
    push_decimal(&mut xml, after as u64);
    push_str(&mut xml, "\" w:line=\"");
    push_decimal(&mut xml, line_twips as u64);
    push_str(&mut xml, "\" w:lineRule=\"atLeast\"/></w:pPr>");
    push_str(&mut xml, runs.as_str());
    push_str(&mut xml, "</w:p>");
    assert(xml@ =~= spec_docx_paragraph(
        runs@,
        align@,
        before as nat,
        after as nat,
        line_twips as nat,
        keep_lines,
    ));
    xml
}

/// The run of one token: a ruby for an annotated word, else plain text.
pub open spec fn item_run(it: ItemView, base_hps: nat) -> Seq<char> {
    if it.text.len() == 0 {
        seq![]
    } else {
        match it.annotation {
            Some(a) => spec_ruby_run_xml(it.text, a, base_hps),
            None => spec_text_run_xml(it.text, base_hps, None, false, "Times New Roman"@, "SimSun"@),
        }
    }
}

/// The runs of tokens, one after the other.
pub open spec fn item_runs(items: Seq<ItemView>, base_hps: nat) -> Seq<char>
    decreases items.len(),
{
    if items.len() == 0 {
        seq![]
    } else {
        item_runs(items.drop_last(), base_hps) + item_run(items.last(), base_hps)
    }
}

/// Annotated tokens as a paragraph: a title is kept together and has more
/// space after it.
pub open spec fn spec_items_to_docx_paragraph(
    items: Seq<ItemView>,
    base_hps: nat,
    align: Seq<char>,
    title: bool,
) -> Seq<char> {
    spec_docx_paragraph(
        item_runs(items, base_hps),
        align,
        0,
        if title {
            180
        } else {
            80
        },
        spec_ruby_line_height(base_hps),
        title,
    )
}

/// Annotated tokens as a paragraph of runs and rubies.
pub fn items_to_docx_paragraph(
    items: &Vec<AnnotationItem>,
    base_hps: usize,
    sizes: TextSizes,
    align: &str,
    title: bool,
) -> (r: String)
    requires
        base_hps * 48 + 50 <= usize::MAX,
    ensures
        r@ == spec_items_to_docx_paragraph(items_view(items@), base_hps as nat, align@, title),
{
    let ghost iv = items_view(items@);
    let mut runs = String::new();
    let mut i: usize = 0;
    assert(iv.take(0) =~= Seq::<ItemView>::empty());
    while i < items.len()
        invariant
            i <= items.len(),
            iv == items_view(items@),
            base_hps * 48 + 50 <= usize::MAX,
            runs@ == item_runs(iv.take(i as int), base_hps as nat),
        decreases items.len() - i,
    {
        assert(iv.take(i + 1).drop_last() =~= iv.take(i as int));
        assert(iv[i as int] == item_view(items@[i as int]));
        let item = &items[i];
        let ghost before = runs@;
        if item.text.as_str().unicode_len() == 0 {
            assert(runs@ =~= before + Seq::<char>::empty());
        } else {
            match &item.annotation {
                Some(annotation) => {
                    let r = ruby_run_xml(item.text.as_str(), annotation, base_hps);
                    push_str(&mut runs, r.as_str());
                },
                None => {
                    let r = text_run_xml(
                        item.text.as_str(),
                        base_hps,
                        None,
                        false,
                        "Times New Roman",
                        "SimSun",
                    );
                    push_str(&mut runs, r.as_str());
                },
            }
        }
        i += 1;
    }
    assert(iv.take(items.len() as int) =~= iv);
    let after: usize = if title {
        180
    } else {
        80
    };
    docx_paragraph(runs, align, 0, after, ruby_line_height(base_hps, sizes), title)
}

/// A paragraph of a table cell: centred and kept together, kept with the
/// next where asked.
pub open spec fn spec_docx_cell_paragraph(
    runs: Seq<char>,
    before: nat,
    after: nat,
    line_twips: nat,
    keep_next: bool,
) -> Seq<char> {
    "<w:p><w:pPr><w:keepLines/>"@ + (if keep_next {
        "<w:keepNext/>"@
    } else {
        seq![]
    }) + "<w:jc w:val=\"center\"/><w:spacing w:before=\""@ + decimal(before) + "\" w:after=\""@
        + decimal(after) + "\" w:line=\""@ + decimal(line_twips)
        + "\" w:lineRule=\"atLeast\"/></w:pPr>"@ + runs + "</w:p>"@
}

/// A centred paragraph of a table cell, kept together, and kept with the
/// next paragraph where `keep_next` is set.
pub fn docx_cell_paragraph(
    runs: String,
    before: usize,
    after: usize,
    line_twips: usize,
    keep_next: bool,
) -> (r: String)
    ensures
        r@ == spec_docx_cell_paragraph(runs@, before as nat, after as nat, line_twips as nat, keep_next),
{
    let mut xml = String::new();
    push_str(&mut xml, "<w:p><w:pPr><w:keepLines/>");
    let ghost mid = xml@;
    if keep_next {
        push_str(&mut xml, "<w:keepNext/>");
    } else {
        assert(xml@ =~= mid + Seq::<char>::empty());
    }
    push_str(&mut xml, "<w:jc w:val=\"center\"/><w:spacing w:before=\"");
    push_decimal(&mut xml, before as u64);
    push_str(&mut xml, "\" w:after=\"");
    push_decimal(&mut xml, after as u64);
    push_str(&mut xml, "\" w:line=\"");
    push_decimal(&mut xml, line_twips as u64);
    push_str(&mut xml, "\" w:lineRule=\"atLeast\"/></w:pPr>");
    push_str(&mut xml, runs.as_str());
    push_str(&mut xml, "</w:p>");
    assert(xml@ =~= spec_docx_cell_paragraph(runs@, before as nat, after as nat, line_twips as nat, keep_next));
    xml
}

/// The least line height of plain text, in twips, between 430 and 780.
pub fn base_line_height(base_hps: usize) -> (r: usize)
    requires
        base_hps * 14 + 110 <= usize::MAX,
    ensures
        r == clamp(base_hps * 14 + 110, 430, 780),
{
    clamp_usize(base_hps * 14 + 110, 430, 780)
}

/// A block of a laid-out line: its text, its annotation, and its width.
pub struct DocxBlock {
    pub base: String,
    pub annotation: Option<AnnotationParts>,
    pub width_twips: usize,
}

/// The run of a block's text, bold where its annotation marks a hard term.
pub fn docx_base_runs(block: &DocxBlock, base_hps: usize) -> (r: String)
    ensures
        r@ == spec_text_run_xml(
            block.base@,
            base_hps as nat,
            None,
            match block.annotation {
                Some(a) => a.hard,
                None => false,
            },
            "Times New Roman"@,
            "SimSun"@,
        ),
{
    let hard = match &block.annotation {
        Some(a) => a.hard,
        None => false,
    };
    text_run_xml(block.base.as_str(), base_hps, None, hard, "Times New Roman", "SimSun")
}

// ---------------------------------------------------------------------------
// Lines laid out as tables
// ---------------------------------------------------------------------------

/// A block as the contracts see it.
pub struct BlockView {
    pub base: Seq<char>,
    pub annotation: Option<PartsView>,
    pub width: nat,
}

pub open spec fn block_view(b: DocxBlock) -> BlockView {
    BlockView {
        base: b.base@,
        annotation: match b.annotation {
            Some(a) => Some(parts_view(a)),
            None => None,
        },
        width: b.width_twips as nat,
    }
}

pub open spec fn blocks_view(bs: Seq<DocxBlock>) -> Seq<BlockView> {
    bs.map_values(|b: DocxBlock| block_view(b))
}

/// Whether the annotation sizes can be turned into line heights.
pub open spec fn annotation_sizes_fit(sizes: TextSizes) -> bool {
    &&& sizes.ipa_hps * 13 + 100 <= usize::MAX
    &&& sizes.zh_hps * 13 + 100 <= usize::MAX
}

/// The least height of an annotation line: from the larger annotation
/// size, between 250 and 430 twips.
pub open spec fn spec_annotation_line_height(sizes: TextSizes) -> nat {
    let hps = if sizes.ipa_hps >= sizes.zh_hps {
        sizes.ipa_hps
    } else {
        sizes.zh_hps
    };
    clamp(hps * 13 + 100, 250, 430) as nat
}

/// The least height of an annotation line, in twips.
pub fn annotation_line_height(sizes: TextSizes) -> (r: usize)
    requires
        annotation_sizes_fit(sizes),
    ensures
        r == spec_annotation_line_height(sizes),
{
    let hps = if sizes.ipa_hps >= sizes.zh_hps {
        sizes.ipa_hps
    } else {
        sizes.zh_hps
    };
    clamp_usize(hps * 13 + 100, 250, 430)
}

pub open spec fn spec_base_line_height(base_hps: nat) -> nat {
    clamp((base_hps * 14 + 110) as int, 430, 780) as nat
}

/// The height of a row of annotated words: an annotation line, a text line,
/// the space after it and a margin.
pub open spec fn spec_stacked_row_height(base_hps: nat, sizes: TextSizes, after: nat) -> nat {
    spec_annotation_line_height(sizes) + spec_base_line_height(base_hps) + after + 60
}

/// The height of a row of annotated words, in twips.
pub fn stacked_row_height(base_hps: usize, sizes: TextSizes, after: usize) -> (r: usize)
    requires
        annotation_sizes_fit(sizes),
        base_hps * 14 + 110 <= usize::MAX,
        after + 1270 <= usize::MAX,
    ensures
        r == spec_stacked_row_height(base_hps as nat, sizes, after as nat),
{
    annotation_line_height(sizes) + base_line_height(base_hps) + after + 60
}

/// The runs of a block's annotation, the pronunciation and the meaning at
/// their own sizes; none for a block without one.
pub open spec fn spec_docx_annotation_runs(b: BlockView, sizes: TextSizes) -> Seq<char> {
    match b.annotation {
        Some(a) => spec_annotation_runs(a, sizes.ipa_hps as nat, sizes.zh_hps as nat),
        None => seq![],
    }
}

/// The runs of the annotation above a block.
pub fn docx_annotation_runs(block: &DocxBlock, sizes: TextSizes) -> (r: String)
    ensures
        r@ == spec_docx_annotation_runs(block_view(*block), sizes),
{
    match &block.annotation {
        Some(annotation) => annotation_runs(annotation, sizes.ipa_hps, sizes.zh_hps),
        None => String::new(),
    }
}

pub open spec fn block_hard(b: BlockView) -> bool {
    match b.annotation {
        Some(a) => a.hard,
        None => false,
    }
}

/// A table cell holding a block: its annotation paragraph where it has one,
/// then its text, which starts one annotation line lower where it has none.
pub open spec fn spec_docx_stacked_cell(b: BlockView, base_hps: nat, sizes: TextSizes, after: nat) -> Seq<char> {
    let alh = spec_annotation_line_height(sizes);
    "<w:tc><w:tcPr><w:tcW w:w=\""@ + decimal(b.width)
        + "\" w:type=\"dxa\"/><w:noWrap/><w:vAlign w:val=\"top\"/></w:tcPr>"@ + (match b.annotation {
        Some(a) => spec_docx_cell_paragraph(spec_docx_annotation_runs(b, sizes), 0, 0, alh, true),
        None => seq![],
    }) + spec_docx_cell_paragraph(
        spec_text_run_xml(b.base, base_hps, None, block_hard(b), "Times New Roman"@, "SimSun"@),
        if b.annotation is Some {
            0
        } else {
            alh
        },
        after,
        spec_base_line_height(base_hps),
        false,
    ) + "</w:tc>"@
}

/// The table cell of a block, its annotation stacked above its text.
pub fn docx_stacked_cell(block: &DocxBlock, base_hps: usize, sizes: TextSizes, after: usize) -> (r: String)
    requires
        annotation_sizes_fit(sizes),
        base_hps * 14 + 110 <= usize::MAX,
    ensures
        r@ == spec_docx_stacked_cell(block_view(*block), base_hps as nat, sizes, after as nat),
{
    let base_runs = docx_base_runs(block, base_hps);
    let alh = annotation_line_height(sizes);
    let has_annotation = block.annotation.is_some();
    let annotation = if has_annotation {
        docx_cell_paragraph(docx_annotation_runs(block, sizes), 0, 0, alh, true)
    } else {
        String::new()
    };
    let base_before = if has_annotation {
        0
    } else {
        alh
    };
    let base = docx_cell_paragraph(base_runs, base_before, after, base_line_height(base_hps), false);
    let mut xml = String::new();
    push_str(&mut xml, "<w:tc><w:tcPr><w:tcW w:w=\"");
    push_decimal(&mut xml, block.width_twips as u64);
    push_str(&mut xml, "\" w:type=\"dxa\"/><w:noWrap/><w:vAlign w:val=\"top\"/></w:tcPr>");
    push_str(&mut xml, annotation.as_str());
    push_str(&mut xml, base.as_str());
    push_str(&mut xml, "</w:tc>");
    proof {
        let b = block_view(*block);
        assert(annotation@ == (match b.annotation {
            Some(a) => spec_docx_cell_paragraph(spec_docx_annotation_runs(b, sizes), 0, 0, alh as nat, true),
            None => Seq::<char>::empty(),
        }));
        assert(xml@ =~= spec_docx_stacked_cell(b, base_hps as nat, sizes, after as nat));
    }
    xml
}

/// The total width of blocks.
pub open spec fn width_sum(bs: Seq<BlockView>) -> nat
    decreases bs.len(),
{
    if bs.len() == 0 {
        0
    } else {
        width_sum(bs.drop_last()) + bs.last().width
    }
}

/// The grid columns of a table, one per block.
pub open spec fn grid_cols(bs: Seq<BlockView>) -> Seq<char>
    decreases bs.len(),
{
    if bs.len() == 0 {
        seq![]
    } else {
        grid_cols(bs.drop_last()) + "<w:gridCol w:w=\""@ + decimal(bs.last().width) + "\"/>"@
    }
}

/// The cells of a table row, one per block.
pub open spec fn stacked_cells(bs: Seq<BlockView>, base_hps: nat, sizes: TextSizes, after: nat) -> Seq<char>
    decreases bs.len(),
{
    if bs.len() == 0 {
        seq![]
    } else {
        stacked_cells(bs.drop_last(), base_hps, sizes, after) + spec_docx_stacked_cell(
            bs.last(),
            base_hps,
            sizes,
            after,
        )
    }
}

/// A line of blocks as a borderless one-row table of fixed layout, one
/// column per block.
pub open spec fn spec_docx_line_table(
    bs: Seq<BlockView>,
    base_hps: nat,
    sizes: TextSizes,
    align: Seq<char>,
    title: bool,
) -> Seq<char> {
    let after: nat = if title {
        160
    } else {
        120
    };
    "<w:tbl><w:tblPr><w:tblW w:w=\""@ + decimal(width_sum(bs)) + "\" w:type=\"dxa\"/><w:jc w:val=\""@
        + spec_xml_escape(align)
        + "\"/><w:tblLayout w:type=\"fixed\"/><w:tblBorders><w:top w:val=\"nil\"/><w:left w:val=\"nil\"/><w:bottom w:val=\"nil\"/><w:right w:val=\"nil\"/><w:insideH w:val=\"nil\"/><w:insideV w:val=\"nil\"/></w:tblBorders><w:tblCellMar><w:top w:w=\"0\" w:type=\"dxa\"/><w:left w:w=\"45\" w:type=\"dxa\"/><w:bottom w:w=\"0\" w:type=\"dxa\"/><w:right w:w=\"45\" w:type=\"dxa\"/></w:tblCellMar></w:tblPr><w:tblGrid>"@
        + grid_cols(bs) + "</w:tblGrid><w:tr><w:trPr><w:cantSplit/><w:trHeight w:val=\""@ + decimal(
        spec_stacked_row_height(base_hps, sizes, after),
    ) + "\" w:hRule=\"atLeast\"/></w:trPr>"@ + stacked_cells(bs, base_hps, sizes, after) + "</w:tr></w:tbl>"@
}

/// A line of blocks as a one-row table: its width the blocks' widths
/// together, aligned as asked, one cell per block.
pub fn docx_line_table(
    blocks: &[DocxBlock],
    base_hps: usize,
    sizes: TextSizes,
    align: &str,
    title: bool,
) -> (r: String)
    requires
        width_sum(blocks_view(blocks@)) <= usize::MAX,
        annotation_sizes_fit(sizes),
        base_hps * 14 + 110 <= usize::MAX,
    ensures
        r@ == spec_docx_line_table(blocks_view(blocks@), base_hps as nat, sizes, align@, title),
{
    let ghost bv = blocks_view(blocks@);
    let mut table_width: usize = 0;
    let mut i: usize = 0;
    while i < blocks.len()
        invariant
            i <= blocks@.len(),
            bv == blocks_view(blocks@),
            width_sum(bv) <= usize::MAX,
            table_width == width_sum(bv.take(i as int)),
        decreases blocks@.len() - i,
    {
        assert(bv.take(i + 1).drop_last() =~= bv.take(i as int));
        proof {
            lemma_width_sum_prefix(bv, i + 1);
        }
        table_width = table_width + blocks[i].width_twips;
        i += 1;
    }
    assert(bv.take(blocks@.len() as int) =~= bv);
    let after: usize = if title {
        160
    } else {
        120
    };
    let row_height = stacked_row_height(base_hps, sizes, after);
    let mut xml = String::new();
    push_str(&mut xml, "<w:tbl><w:tblPr><w:tblW w:w=\"");
    push_decimal(&mut xml, table_width as u64);
    push_str(&mut xml, "\" w:type=\"dxa\"/><w:jc w:val=\"");
    push_str(&mut xml, xml_escape(align).as_str());
    push_str(
        &mut xml,
        "\"/><w:tblLayout w:type=\"fixed\"/><w:tblBorders><w:top w:val=\"nil\"/><w:left w:val=\"nil\"/><w:bottom w:val=\"nil\"/><w:right w:val=\"nil\"/><w:insideH w:val=\"nil\"/><w:insideV w:val=\"nil\"/></w:tblBorders><w:tblCellMar><w:top w:w=\"0\" w:type=\"dxa\"/><w:left w:w=\"45\" w:type=\"dxa\"/><w:bottom w:w=\"0\" w:type=\"dxa\"/><w:right w:w=\"45\" w:type=\"dxa\"/></w:tblCellMar></w:tblPr><w:tblGrid>",
    );
    let ghost head = xml@;
    let mut j: usize = 0;
    while j < blocks.len()
        invariant
            j <= blocks@.len(),
            bv == blocks_view(blocks@),
            xml@ == head + grid_cols(bv.take(j as int)),
        decreases blocks@.len() - j,
    {
        assert(bv.take(j + 1).drop_last() =~= bv.take(j as int));
        push_str(&mut xml, "<w:gridCol w:w=\"");
        push_decimal(&mut xml, blocks[j].width_twips as u64);
        push_str(&mut xml, "\"/>");
        assert(xml@ =~= head + grid_cols(bv.take(j + 1)));
        j += 1;
    }
    assert(bv.take(blocks@.len() as int) =~= bv);
    push_str(&mut xml, "</w:tblGrid><w:tr><w:trPr><w:cantSplit/><w:trHeight w:val=\"");
    push_decimal(&mut xml, row_height as u64);
    push_str(&mut xml, "\" w:hRule=\"atLeast\"/></w:trPr>");
    let ghost mid = xml@;
    let mut k: usize = 0;
    while k < blocks.len()
        invariant
            k <= blocks@.len(),
            bv == blocks_view(blocks@),
            annotation_sizes_fit(sizes),
            base_hps * 14 + 110 <= usize::MAX,
            xml@ == mid + stacked_cells(bv.take(k as int), base_hps as nat, sizes, after as nat),
        decreases blocks@.len() - k,
    {
        assert(bv.take(k + 1).drop_last() =~= bv.take(k as int));
        let cell = docx_stacked_cell(&blocks[k], base_hps, sizes, after);
        push_str(&mut xml, cell.as_str());
        assert(xml@ =~= mid + stacked_cells(bv.take(k + 1), base_hps as nat, sizes, after as nat));
        k += 1;
    }
    assert(bv.take(blocks@.len() as int) =~= bv);
    push_str(&mut xml, "</w:tr></w:tbl>");
    assert(xml@ =~= spec_docx_line_table(bv, base_hps as nat, sizes, align@, title));
    xml
}

proof fn lemma_width_sum_prefix(bs: Seq<BlockView>, k: int)
    requires
        0 <= k <= bs.len(),
    ensures
        width_sum(bs.take(k)) <= width_sum(bs),
    decreases bs.len() - k,
{
    if k < bs.len() {
        lemma_width_sum_prefix(bs, k + 1);
        assert(bs.take(k + 1).drop_last() =~= bs.take(k));
    } else {
        assert(bs.take(k) =~= bs);
    }
}


/// Greedy line breaking, part way: the lines closed so far, the line being
/// filled, and its width.
pub struct LineBreak {
    pub lines: Seq<Seq<BlockView>>,
    pub line: Seq<BlockView>,
    pub width: nat,
}

/// Breaks blocks into lines: a block that would take a line that already
/// has a block past `max_width` starts a new line.
pub open spec fn break_lines(bs: Seq<BlockView>, max_width: nat) -> LineBreak
    decreases bs.len(),
{
    if bs.len() == 0 {
        LineBreak { lines: seq![], line: seq![], width: 0 }
    } else {
        let st = break_lines(bs.drop_last(), max_width);
        let b = bs.last();
        if st.line.len() > 0 && st.width + b.width > max_width {
            LineBreak { lines: st.lines.push(st.line), line: seq![b], width: b.width }
        } else {
            LineBreak { lines: st.lines, line: st.line.push(b), width: st.width + b.width }
        }
    }
}

/// The lines of blocks, the last one closed where it has blocks.
pub open spec fn table_lines(bs: Seq<BlockView>, max_width: nat) -> Seq<Seq<BlockView>> {
    let st = break_lines(bs, max_width);
    if st.line.len() > 0 {
        st.lines.push(st.line)
    } else {
        st.lines
    }
}

/// The width of a line: 8600 twips for a title, 9360 for the text.
pub open spec fn line_width_limit(title: bool) -> nat {
    if title {
        8600
    } else {
        9360
    }
}

/// Lays blocks out in lines no wider than the page allows, each line a
/// table; no blocks give no tables.
pub fn tables_of_blocks(
    blocks: &Vec<DocxBlock>,
    base_hps: usize,
    sizes: TextSizes,
    align: &str,
    title: bool,
) -> (r: Vec<String>)
    requires
        width_sum(blocks_view(blocks@)) <= usize::MAX,
        annotation_sizes_fit(sizes),
        base_hps * 14 + 110 <= usize::MAX,
    ensures
        r@.len() == table_lines(blocks_view(blocks@), line_width_limit(title)).len(),
        forall|k: int|
            0 <= k < r@.len() ==> #[trigger] r@[k]@ == spec_docx_line_table(
                table_lines(blocks_view(blocks@), line_width_limit(title))[k],
                base_hps as nat,
                sizes,
                align@,
                title,
            ),
{
    let ghost bv = blocks_view(blocks@);
    let ghost max = line_width_limit(title);
    let max_width: usize = if title {
        8600
    } else {
        9360
    };
    let mut rows: Vec<String> = Vec::new();
    let mut start: usize = 0;
    let mut width: usize = 0;
    let mut i: usize = 0;
    assert(bv.subrange(0, 0) =~= Seq::<BlockView>::empty());
    assert(bv.take(0) =~= Seq::<BlockView>::empty());
    while i < blocks.len()
        invariant
            i <= blocks@.len(),
            start <= i,
            bv == blocks_view(blocks@),
            max == max_width,
            width_sum(bv) <= usize::MAX,
            annotation_sizes_fit(sizes),
            base_hps * 14 + 110 <= usize::MAX,
            break_lines(bv.take(i as int), max).line == bv.subrange(start as int, i as int),
            break_lines(bv.take(i as int), max).width == width,
            width == width_sum(bv.subrange(start as int, i as int)),
            width <= width_sum(bv.take(i as int)),
            rows@.len() == break_lines(bv.take(i as int), max).lines.len(),
            forall|k: int|
                0 <= k < rows@.len() ==> #[trigger] rows@[k]@ == spec_docx_line_table(
                    break_lines(bv.take(i as int), max).lines[k],
                    base_hps as nat,
                    sizes,
                    align@,
                    title,
                ),
        decreases blocks@.len() - i,
    {
        let ghost st = break_lines(bv.take(i as int), max);
        assert(bv.take(i + 1).drop_last() =~= bv.take(i as int));
        assert(bv.take(i + 1).last() == bv[i as int]);
        proof {
            lemma_width_sum_prefix(bv, i + 1);
            assert(width_sum(bv.take(i + 1)) == width_sum(bv.take(i as int)) + bv[i as int].width);
        }
        let w = blocks[i].width_twips;
        if start < i && width + w > max_width {
            let line = vstd::slice::slice_subrange(blocks.as_slice(), start, i);
            proof {
                assert(blocks_view(line@) =~= bv.subrange(start as int, i as int));
            }
            let table = docx_line_table(line, base_hps, sizes, align, title);
            rows.push(table);
            start = i;
            width = w;
            proof {
                assert(bv.subrange(i as int, i + 1) =~= seq![bv[i as int]]);
                assert(seq![bv[i as int]].drop_last() =~= Seq::<BlockView>::empty());
                assert(width_sum(seq![bv[i as int]]) == width_sum(Seq::<BlockView>::empty()) + bv[i as int].width);
            }
        } else {
            proof {
                assert(bv.subrange(start as int, i + 1).drop_last() =~= bv.subrange(start as int, i as int));
                assert(bv.subrange(start as int, i + 1) =~= bv.subrange(start as int, i as int).push(bv[i as int]));
            }
            width = width + w;
        }
        i += 1;
    }
    assert(bv.take(blocks@.len() as int) =~= bv);
    if start < blocks.len() {
        let line = vstd::slice::slice_subrange(blocks.as_slice(), start, blocks.len());
        proof {
            assert(blocks_view(line@) =~= bv.subrange(start as int, blocks@.len() as int));
        }
        let table = docx_line_table(line, base_hps, sizes, align, title);
        rows.push(table);
    }
    rows
}


/// What greedy line breaking keeps at every step.
proof fn lemma_break_lines(bs: Seq<BlockView>, max_width: nat)
    ensures
        ({
            let st = break_lines(bs, max_width);
            &&& st.lines.flatten() + st.line == bs
            &&& st.width == width_sum(st.line)
            &&& st.line.len() > 0 ==> (st.width <= max_width || st.line.len() == 1)
            &&& forall|k: int|
                0 <= k < st.lines.len() ==> #[trigger] st.lines[k].len() > 0 && (width_sum(st.lines[k])
                    <= max_width || st.lines[k].len() == 1)
        }),
    decreases bs.len(),
{
    if bs.len() == 0 {
        assert(Seq::<Seq<BlockView>>::empty().flatten() =~= Seq::<BlockView>::empty());
        assert(Seq::<Seq<BlockView>>::empty().flatten() + Seq::<BlockView>::empty() =~= bs);
    } else {
        let prev = bs.drop_last();
        lemma_break_lines(prev, max_width);
        let st = break_lines(prev, max_width);
        let b = bs.last();
        assert(bs =~= prev.push(b));
        assert(prev == st.lines.flatten() + st.line);
        if st.line.len() > 0 && st.width + b.width > max_width {
            st.lines.lemma_flatten_push(st.line);
            assert(st.lines.push(st.line).flatten() + seq![b] =~= bs);
            assert(seq![b].drop_last() =~= Seq::<BlockView>::empty());
            assert(width_sum(Seq::<BlockView>::empty()) == 0);
            let n = break_lines(bs, max_width);
            assert(n.width == width_sum(n.line));
            assert(n.lines.flatten() + n.line == bs);
            assert forall|k: int| 0 <= k < n.lines.len() implies #[trigger] n.lines[k].len() > 0 && (width_sum(
                n.lines[k],
            ) <= max_width || n.lines[k].len() == 1) by {
                if k < st.lines.len() {
                    assert(n.lines[k] == st.lines[k]);
                }
            }
        } else {
            assert((st.lines.flatten() + st.line).push(b) =~= st.lines.flatten() + st.line.push(b));
            assert(st.lines.flatten() + st.line.push(b) =~= bs);
            assert(st.line.push(b).drop_last() =~= st.line);
            let n = break_lines(bs, max_width);
            assert(n.lines == st.lines);
            assert(n.line == st.line.push(b));
            assert(n.width == width_sum(n.line));
            assert(n.lines.flatten() + n.line == bs);
        }
    }
}

/// Line breaking keeps every block, in order: the lines of a paragraph,
/// read one after another, are its blocks.
pub proof fn table_lines_keep_blocks(bs: Seq<BlockView>, max_width: nat)
    ensures
        table_lines(bs, max_width).flatten() == bs,
{
    lemma_break_lines(bs, max_width);
    let st = break_lines(bs, max_width);
    if st.line.len() > 0 {
        st.lines.lemma_flatten_push(st.line);
    } else {
        assert(st.lines.flatten() + st.line =~= st.lines.flatten());
    }
}

/// Every line has a block, and a line wider than the limit holds a single
/// block that is wider on its own.
pub proof fn table_lines_fit(bs: Seq<BlockView>, max_width: nat)
    ensures
        forall|k: int|
            0 <= k < table_lines(bs, max_width).len() ==> #[trigger] table_lines(bs, max_width)[k].len() > 0
                && (width_sum(table_lines(bs, max_width)[k]) <= max_width || table_lines(bs, max_width)[k].len()
                == 1),
{
    lemma_break_lines(bs, max_width);
    let st = break_lines(bs, max_width);
    let lines = table_lines(bs, max_width);
    assert forall|k: int| 0 <= k < lines.len() implies #[trigger] lines[k].len() > 0 && (width_sum(lines[k])
        <= max_width || lines[k].len() == 1) by {
        if k < st.lines.len() {
            assert(lines[k] == st.lines[k]);
        }
    }
}

} // verus!
