//! The stand-alone HTML page that is printed to PDF.
use vstd::prelude::*;
use crate::decimal::{hps_to_points, spec_hps_to_points};
use crate::docx::{clamp, TextSizes};
use crate::pronounce::push_str;

verus! {

/// The printable page of a preview: the page size and the line and word
/// spacing as CSS lengths, the text sizes in points, and the preview itself
/// as the body.
pub open spec fn spec_printable_preview_html(
    preview_html: Seq<char>,
    page_width: Seq<char>,
    page_height: Seq<char>,
    line_height: Seq<char>,
    word_spacing: Seq<char>,
    sizes: TextSizes,
) -> Seq<char> {
    let title_hps = clamp(sizes.english_hps + 9, 24, 72) as nat;
    "<!doctype html><html lang=\"zh-CN\"><head><meta charset=\"utf-8\"/><title>语界精读 PDF</title><style>@page{size:"@
        + page_width + " "@ + page_height + ";margin:0;}html,body{width:"@ + page_width + ";min-height:"@
        + page_height
        + ";margin:0;padding:0;background:white;color:#111827;}.preview-page{width:"@ + page_width
        + ";min-height:"@ + page_height
        + ";padding:0.82in;box-sizing:border-box;background:white;font-family:\"Times New Roman\",serif;font-size:"@
        + spec_hps_to_points(sizes.english_hps as nat) + "pt;line-height:"@ + line_height + ";word-spacing:"@
        + word_spacing
        + "pt;letter-spacing:0;}.preview-line{margin:0 0 9pt;white-space:pre-wrap;}.preview-title{margin:0 0 18pt;text-align:center;font-size:"@
        + spec_hps_to_points(title_hps)
        + "pt;font-weight:700;line-height:2;}.preview-empty{min-height:1.2em;}.preview-token{ruby-align:center;ruby-position:over;text-align:center;white-space:nowrap;break-inside:avoid;}.preview-rt{color:#444444;line-height:1.05;text-align:center;white-space:nowrap;}.preview-token.hard .preview-base,.preview-token.hard .preview-rt{color:#b35c00;font-weight:700;}.preview-base{line-height:1.08;}.preview-token .preview-base{font-weight:700;}.preview-ipa{font-family:Arial,sans-serif;font-size:"@
        + spec_hps_to_points(sizes.ipa_hps as nat)
        + "pt;}.preview-zh{font-family:\"Microsoft YaHei\",\"SimSun\",sans-serif;font-size:"@
        + spec_hps_to_points(sizes.zh_hps as nat) + "pt;}</style></head><body>"@ + preview_html
        + "</body></html>"@
}

/// The page that is printed to PDF: the page at the given size without
/// margins, the text in Times New Roman at the given sizes and spacing, the
/// annotations as rubies above the words, hard terms in bold orange, and
/// the preview as its body.
pub fn printable_preview_html(
    preview_html: &str,
    page_width: &str,
    page_height: &str,
    line_height: &str,
    word_spacing: &str,
    sizes: TextSizes,
) -> (r: String)
    requires
        sizes.english_hps + 9 <= usize::MAX,
    ensures
        r@ == spec_printable_preview_html(
            preview_html@,
            page_width@,
            page_height@,
            line_height@,
            word_spacing@,
            sizes,
        ),
{
    let mut out = String::new();
    push_str(
        &mut out,
        "<!doctype html><html lang=\"zh-CN\"><head><meta charset=\"utf-8\"/><title>语界精读 PDF</title><style>@page{size:",
    );
    push_str(&mut out, page_width);
    push_str(&mut out, " ");
    push_str(&mut out, page_height);
    push_str(&mut out, ";margin:0;}html,body{width:");
    push_str(&mut out, page_width);
    push_str(&mut out, ";min-height:");
    push_str(&mut out, page_height);
    push_str(&mut out, ";margin:0;padding:0;background:white;color:#111827;}.preview-page{width:");
    push_str(&mut out, page_width);
    push_str(&mut out, ";min-height:");
    push_str(&mut out, page_height);
    push_str(
        &mut out,
        ";padding:0.82in;box-sizing:border-box;background:white;font-family:\"Times New Roman\",serif;font-size:",
    );
    push_str(&mut out, hps_to_points(sizes.english_hps).as_str());
    push_str(&mut out, "pt;line-height:");
    push_str(&mut out, line_height);
    push_str(&mut out, ";word-spacing:");
    push_str(&mut out, word_spacing);
    push_str(
        &mut out,
        "pt;letter-spacing:0;}.preview-line{margin:0 0 9pt;white-space:pre-wrap;}.preview-title{margin:0 0 18pt;text-align:center;font-size:",
    );
    push_str(&mut out, hps_to_points(sizes.title_hps()).as_str());
    push_str(
        &mut out,
        "pt;font-weight:700;line-height:2;}.preview-empty{min-height:1.2em;}.preview-token{ruby-align:center;ruby-position:over;text-align:center;white-space:nowrap;break-inside:avoid;}.preview-rt{color:#444444;line-height:1.05;text-align:center;white-space:nowrap;}.preview-token.hard .preview-base,.preview-token.hard .preview-rt{color:#b35c00;font-weight:700;}.preview-base{line-height:1.08;}.preview-token .preview-base{font-weight:700;}.preview-ipa{font-family:Arial,sans-serif;font-size:",
    );
    push_str(&mut out, hps_to_points(sizes.ipa_hps).as_str());
    push_str(&mut out, "pt;}.preview-zh{font-family:\"Microsoft YaHei\",\"SimSun\",sans-serif;font-size:");
    push_str(&mut out, hps_to_points(sizes.zh_hps).as_str());
    push_str(&mut out, "pt;}</style></head><body>");
    push_str(&mut out, preview_html);
    push_str(&mut out, "</body></html>");
    assert(out@ =~= spec_printable_preview_html(
        preview_html@,
        page_width@,
        page_height@,
        line_height@,
        word_spacing@,
        sizes,
    ));
    out
}

} // verus!
