//! The decisions of the desktop window: its size and place, the layout of
//! its controls, what a command does, and the texts it shows.
use vstd::prelude::*;
use crate::decimal::{decimal, push_decimal};
use crate::pronounce::push_str;
use crate::state::{GradeProfile, ProfileView, profile_view};
use crate::text::{chars_of, owned, push_char, split_at_set, split_chars, spec_is_alpha, CharSet};

verus! {

// ---------------------------------------------------------------------------
// Size and place
// ---------------------------------------------------------------------------

/// A length in physical pixels as a length at 96 dots per inch, rounded;
/// the window's DPI is taken as at least 96 and the length as at least 1.
pub open spec fn spec_logical_length(dpi: u32, value: i32) -> int {
    let d: int = if dpi < 96 {
        96
    } else {
        dpi as int
    };
    let v: int = if value < 1 {
        1
    } else {
        value as int
    };
    (v * 96 + d / 2) / d
}

proof fn lemma_logical_fits(v: int, d: int)
    by (nonlinear_arith)
    requires
        1 <= v,
        96 <= d,
    ensures
        0 <= (v * 96 + d / 2) / d <= v,
{
    assert(v * 96 <= v * d);
    assert(v * 96 + d / 2 < (v + 1) * d);
}

fn logical_length(dpi: u32, value: i32) -> (r: i32)
    ensures
        r == spec_logical_length(dpi, value),
{
    let d: i64 = if dpi < 96 {
        96
    } else {
        dpi as i64
    };
    let v: i64 = if value < 1 {
        1
    } else {
        value as i64
    };
    proof {
        lemma_logical_fits(v as int, d as int);
        assert(v * 96 + d / 2 <= i64::MAX) by (nonlinear_arith)
            requires
                1 <= v <= i32::MAX,
                96 <= d <= u32::MAX,
        ;
    }
    let r = (v * 96 + d / 2) / d;
    r as i32
}

/// The size of the window's client area in 96-DPI pixels, from its size in
/// physical pixels and the window's DPI.
pub fn logical_client_size(dpi: u32, physical_width: i32, physical_height: i32) -> (r: (i32, i32))
    ensures
        r.0 == spec_logical_length(dpi, physical_width),
        r.1 == spec_logical_length(dpi, physical_height),
{
    (logical_length(dpi, physical_width), logical_length(dpi, physical_height))
}

pub open spec fn spec_max(a: int, b: int) -> int {
    if a >= b {
        a
    } else {
        b
    }
}

pub open spec fn spec_clamp(v: int, lo: int, hi: int) -> int {
    if v < lo {
        lo
    } else if v > hi {
        hi
    } else {
        v
    }
}

/// Where the window first opens, from the work area of the screen (left,
/// top, right, bottom) when it could be read: inside it, with a margin of a
/// thirty-second of its size on each side (16 to 48 pixels across, 16 to
/// 36 down), and at least 640 by 480; without a work area, at (50, 50),
/// 1180 by 720.
pub open spec fn spec_initial_window_bounds(work_area: Option<(i32, i32, i32, i32)>) -> (int, int, int, int) {
    match work_area {
        None => (50, 50, 1180, 720),
        Some((left, top, right, bottom)) => {
            let available_width = spec_max(right - left, 640);
            let available_height = spec_max(bottom - top, 480);
            let horizontal_margin = spec_clamp(available_width / 32, 16, 48);
            let vertical_margin = spec_clamp(available_height / 32, 16, 36);
            (
                left + horizontal_margin,
                top + vertical_margin,
                spec_max(available_width - horizontal_margin * 2, 640),
                spec_max(available_height - vertical_margin * 2, 480),
            )
        },
    }
}

/// Whether a work area can be used without overflow.
pub open spec fn work_area_fits(work_area: Option<(i32, i32, i32, i32)>) -> bool {
    match work_area {
        None => true,
        Some((left, top, right, bottom)) => {
            let w = right - left;
            let h = bottom - top;
            &&& i32::MIN <= w <= i32::MAX
            &&& i32::MIN <= h <= i32::MAX
            &&& left + spec_clamp(spec_max(w, 640) / 32, 16, 48) <= i32::MAX
            &&& top + spec_clamp(spec_max(h, 480) / 32, 16, 36) <= i32::MAX
        },
    }
}

fn clamp_i32(v: i32, lo: i32, hi: i32) -> (r: i32)
    requires
        lo <= hi,
    ensures
        r == spec_clamp(v as int, lo as int, hi as int),
{
    if v < lo {
        lo
    } else if v > hi {
        hi
    } else {
        v
    }
}

fn max_i32(a: i32, b: i32) -> (r: i32)
    ensures
        r == spec_max(a as int, b as int),
{
    if a >= b {
        a
    } else {
        b
    }
}

/// Where the window first opens, as (x, y, width, height).
pub fn initial_window_bounds(work_area: Option<(i32, i32, i32, i32)>) -> (r: (i32, i32, i32, i32))
    requires
        work_area_fits(work_area),
    ensures
        (r.0 as int, r.1 as int, r.2 as int, r.3 as int) == spec_initial_window_bounds(work_area),
{
    match work_area {
        None => (50, 50, 1180, 720),
        Some((left, top, right, bottom)) => {
            let available_width = max_i32(right - left, 640);
            let available_height = max_i32(bottom - top, 480);
            let horizontal_margin = clamp_i32(available_width / 32, 16, 48);
            let vertical_margin = clamp_i32(available_height / 32, 16, 36);
            (
                left + horizontal_margin,
                top + vertical_margin,
                max_i32(available_width - horizontal_margin * 2, 640),
                max_i32(available_height - vertical_margin * 2, 480),
            )
        },
    }
}

// ---------------------------------------------------------------------------
// Messages
// ---------------------------------------------------------------------------

/// The width and height a resize message carries in the low and high words
/// of its `lParam`.
pub fn client_size_of(l_param: isize) -> (r: (i32, i32))
    ensures
        r.0 == (l_param as u32) % 65536,
        r.1 == (l_param as u32) / 65536,
{
    let bits: u32 = l_param as u32;
    let width = bits & 0xffff;
    let height = (bits >> 16) & 0xffff;
    assert(width == bits % 65536 && height == bits / 65536) by (bit_vector)
        requires
            width == bits & 0xffff,
            height == (bits >> 16) & 0xffff,
    ;
    (width as i32, height as i32)
}

/// The control and the notification a command message carries in the low
/// and high words of its `wParam`.
pub fn command_of(w_param: usize) -> (r: (usize, usize))
    ensures
        r.0 == w_param % 65536,
        r.1 == (w_param / 65536) % 65536,
{
    let id = w_param & 0xffff;
    let code = (w_param >> 16) & 0xffff;
    assert(id == w_param % 65536 && code == (w_param / 65536) % 65536) by (bit_vector)
        requires
            id == w_param & 0xffff,
            code == (w_param >> 16) & 0xffff,
    ;
    (id, code)
}

/// What a command of the window asks for.
pub enum GuiCommand {
    InsertDemo,
    Clear,
    Generate,
    OpenFile,
    OpenFolder,
    UpdateWordCount,
    UpdateGradeHelp,
    Nothing,
}

/// What the control `id` asks for with the notification `code`: the five
/// buttons, a change of the article, a change of the grade.
pub open spec fn spec_window_command(id: usize, code: usize) -> GuiCommand {
    if id == 1001 {
        GuiCommand::InsertDemo
    } else if id == 1002 {
        GuiCommand::Clear
    } else if id == 1003 {
        GuiCommand::Generate
    } else if id == 1004 {
        GuiCommand::OpenFile
    } else if id == 1005 {
        GuiCommand::OpenFolder
    } else if id == 2001 && code == 0x0300 {
        GuiCommand::UpdateWordCount
    } else if id == 2002 {
        GuiCommand::UpdateGradeHelp
    } else {
        GuiCommand::Nothing
    }
}

/// What a command message asks the window to do.
pub fn window_command(id: usize, code: usize) -> (r: GuiCommand)
    ensures
        r == spec_window_command(id, code),
{
    if id == 1001 {
        GuiCommand::InsertDemo
    } else if id == 1002 {
        GuiCommand::Clear
    } else if id == 1003 {
        GuiCommand::Generate
    } else if id == 1004 {
        GuiCommand::OpenFile
    } else if id == 1005 {
        GuiCommand::OpenFolder
    } else if id == 2001 && code == 0x0300 {
        GuiCommand::UpdateWordCount
    } else if id == 2002 {
        GuiCommand::UpdateGradeHelp
    } else {
        GuiCommand::Nothing
    }
}

// ---------------------------------------------------------------------------
// Layout
// ---------------------------------------------------------------------------

/// A control's place: x, y, width and height.
#[derive(Clone, Copy)]
pub struct Placement {
    pub x: i32,
    pub y: i32,
    pub w: i32,
    pub h: i32,
}

/// The places of the controls of the window.
#[derive(Clone, Copy)]
pub struct ControlLayout {
    pub article_label: Placement,
    pub word_count: Placement,
    pub article: Placement,
    pub title_label: Placement,
    pub title: Placement,
    pub grade_label: Placement,
    pub grade: Placement,
    pub grade_help: Placement,
    pub custom_label: Placement,
    pub custom: Placement,
    pub unknown_check: Placement,
    pub demo: Placement,
    pub clear: Placement,
    pub generate: Placement,
    pub open_file: Placement,
    pub open_folder: Placement,
    pub status: Placement,
}

pub open spec fn at(x: int, y: int, w: int, h: int) -> Placement {
    Placement { x: x as i32, y: y as i32, w: w as i32, h: h as i32 }
}

/// The layout of a client area of `width` by `height`: the article on the
/// left, at least 420 wide, with its label and word count above; a column
/// of 350 on the right with the title, the grade and its note, the custom
/// words, the check box, the buttons and the status, from the top down.
pub open spec fn spec_control_layout(width: i32, height: i32) -> ControlLayout {
    let left_w = spec_max(width - 404, 420);
    let right_x = 36 + left_w;
    let article_h = spec_max(spec_max(height - 36, 480) - 30, 260);
    ControlLayout {
        article_label: at(18, 18, 160, 22),
        word_count: at(18 + left_w - 90, 18, 90, 22),
        article: at(18, 48, left_w, article_h),
        title_label: at(right_x, 18, 350, 22),
        title: at(right_x, 44, 350, 28),
        grade_label: at(right_x, 84, 350, 22),
        grade: at(right_x, 110, 350, 220),
        grade_help: at(right_x, 144, 350, 44),
        custom_label: at(right_x, 196, 350, 22),
        custom: at(right_x, 222, 350, 96),
        unknown_check: at(right_x, 330, 350, 38),
        demo: at(right_x, 372, 171, 34),
        clear: at(right_x + 179, 372, 171, 34),
        generate: at(right_x, 414, 350, 38),
        open_file: at(right_x, 462, 171, 34),
        open_folder: at(right_x + 179, 462, 171, 34),
        status: at(right_x, 506, 350, 120),
    }
}

fn place(x: i32, y: i32, w: i32, h: i32) -> (r: Placement)
    ensures
        r == at(x as int, y as int, w as int, h as int),
{
    Placement { x, y, w, h }
}

/// Where each control of the window goes for a client area of `width` by
/// `height`.
pub fn control_layout(width: i32, height: i32) -> (r: ControlLayout)
    requires
        width >= i32::MIN + 404,
        height >= i32::MIN + 36,
    ensures
        r == spec_control_layout(width, height),
{
    let margin: i32 = 18;
    let gap: i32 = 12;
    let right_w: i32 = 350;
    let top: i32 = 18;
    let button_h: i32 = 34;
    let label_h: i32 = 22;
    let input_h: i32 = 28;
    let left_w = max_i32(width - right_w - margin * 3, 420);
    let left_x = margin;
    let right_x = margin * 2 + left_w;
    let left_available_h = max_i32(height - top - margin, 480);
    let article_h = max_i32(left_available_h - label_h - 8, 260);
    let article_label = place(left_x, top, 160, label_h);
    let word_count = place(left_x + left_w - 90, top, 90, label_h);
    let article = place(left_x, top + label_h + 8, left_w, article_h);
    let mut y = top;
    let title_label = place(right_x, y, right_w, label_h);
    y = y + label_h + 4;
    let title = place(right_x, y, right_w, input_h);
    y = y + input_h + gap;
    let grade_label = place(right_x, y, right_w, label_h);
    y = y + label_h + 4;
    let grade = place(right_x, y, right_w, 220);
    y = y + input_h + 6;
    let grade_help = place(right_x, y, right_w, 44);
    y = y + 52;
    let custom_label = place(right_x, y, right_w, label_h);
    y = y + label_h + 4;
    let custom = place(right_x, y, right_w, 96);
    y = y + 96 + gap;
    let unknown_check = place(right_x, y, right_w, 38);
    y = y + 42;
    let half = (right_w - 8) / 2;
    let demo = place(right_x, y, half, button_h);
    let clear = place(right_x + half + 8, y, half, button_h);
    y = y + button_h + 8;
    let generate = place(right_x, y, right_w, button_h + 4);
    y = y + button_h + 14;
    let open_file = place(right_x, y, half, button_h);
    let open_folder = place(right_x + half + 8, y, half, button_h);
    y = y + button_h + 10;
    let status = place(right_x, y, right_w, 120);
    ControlLayout {
        article_label,
        word_count,
        article,
        title_label,
        title,
        grade_label,
        grade,
        grade_help,
        custom_label,
        custom,
        unknown_check,
        demo,
        clear,
        generate,
        open_file,
        open_folder,
        status,
    }
}

// ---------------------------------------------------------------------------
// Texts
// ---------------------------------------------------------------------------

/// The number of pieces between the characters that are not letters, `-`
/// or `'` that hold a letter.
pub open spec fn words_in(parts: Seq<Seq<char>>) -> nat
    decreases parts.len(),
{
    if parts.len() == 0 {
        0
    } else {
        words_in(parts.drop_last()) + if exists|k: int|
            0 <= k < parts.last().len() && spec_is_alpha(#[trigger] parts.last()[k]) {
            1nat
        } else {
            0nat
        }
    }
}

/// The number of words of an article.
pub open spec fn spec_article_word_count(text: Seq<char>) -> nat {
    words_in(split_at_set(text, CharSet::WordBreak))
}

fn has_letter(v: &Vec<char>) -> (r: bool)
    ensures
        r == exists|k: int| 0 <= k < v@.len() && spec_is_alpha(#[trigger] v@[k]),
{
    let mut i: usize = 0;
    while i < v.len()
        invariant
            i <= v@.len(),
            forall|k: int| 0 <= k < i ==> !spec_is_alpha(#[trigger] v@[k]),
        decreases v@.len() - i,
    {
        if crate::text::is_alpha(v[i]) {
            return true;
        }
        i += 1;
    }
    false
}

/// Counts the words of an article: the runs of letters, `-` and `'` that
/// hold a letter.
pub fn article_word_count(text: &str) -> (r: usize)
    ensures
        r == spec_article_word_count(text@),
{
    let v = chars_of(text);
    let parts = split_chars(&v, CharSet::WordBreak);
    let ghost pv = parts@.map_values(|f: Vec<char>| f@);
    let mut count: usize = 0;
    let mut i: usize = 0;
    while i < parts.len()
        invariant
            i <= parts@.len(),
            pv == parts@.map_values(|f: Vec<char>| f@),
            count == words_in(pv.take(i as int)),
            count <= i,
        decreases parts@.len() - i,
    {
        assert(pv.take(i + 1).drop_last() =~= pv.take(i as int));
        assert(pv.take(i + 1).last() == parts@[i as int]@);
        if has_letter(&parts[i]) {
            count = count + 1;
        }
        i += 1;
    }
    assert(pv.take(parts@.len() as int) =~= pv);
    count
}

/// The word count shown above the article.
pub fn word_count_text(text: &str) -> (r: String)
    ensures
        r@ == decimal(spec_article_word_count(text@)) + " words"@,
{
    let n = article_word_count(text);
    let mut out = String::new();
    push_decimal(&mut out, n as u64);
    push_str(&mut out, " words");
    out
}

/// The note under the grade: its estimated vocabulary, then its note.
pub open spec fn spec_grade_help_text(p: ProfileView) -> Seq<char> {
    "预估词汇量约 "@ + decimal(p.estimated_vocab) + " 词。\r\n"@ + p.note
}

/// The note shown under the chosen grade.
pub fn grade_help_text(profile: &GradeProfile) -> (r: String)
    ensures
        r@ == spec_grade_help_text(profile_view(*profile)),
{
    let mut out = owned("预估词汇量约 ");
    push_decimal(&mut out, profile.estimated_vocab as u64);
    push_str(&mut out, " 词。\r\n");
    push_str(&mut out, profile.note.as_str());
    out
}

/// The position of the first `P4` grade, or 0 where there is none.
pub fn default_grade_index(profiles: &Vec<GradeProfile>) -> (r: usize)
    ensures
        r == (if exists|k: int| 0 <= k < profiles@.len() && profiles@[k].code@ == "P4"@ {
            choose|k: int|
                0 <= k < profiles@.len() && profiles@[k].code@ == "P4"@ && forall|j: int|
                    0 <= j < k ==> profiles@[j].code@ != "P4"@
        } else {
            0
        }),
{
    let mut i: usize = 0;
    while i < profiles.len()
        invariant
            i <= profiles@.len(),
            forall|j: int| 0 <= j < i ==> profiles@[j].code@ != "P4"@,
        decreases profiles@.len() - i,
    {
        if crate::text::str_eq(profiles[i].code.as_str(), "P4") {
            proof {
                let p = |k: int|
                    0 <= k < profiles@.len() && profiles@[k].code@ == "P4"@ && forall|j: int|
                        0 <= j < k ==> profiles@[j].code@ != "P4"@;
                assert(p(i as int));
                let c = choose|k: int|
                    0 <= k < profiles@.len() && profiles@[k].code@ == "P4"@ && forall|j: int|
                        0 <= j < k ==> profiles@[j].code@ != "P4"@;
                assert(p(c));
                if c < i {
                    assert(profiles@[c].code@ != "P4"@);
                }
                if i < c {
                    assert(profiles@[i as int].code@ != "P4"@);
                }
            }
            return i;
        }
        i += 1;
    }
    0
}

/// The grade code chosen in the list: the profile at the selection (a
/// negative selection is the first), or `P4` past the end.
pub fn selected_grade_code(profiles: &Vec<GradeProfile>, selection: isize) -> (r: String)
    ensures
        ({
            let i: int = if selection >= 0 {
                selection as int
            } else {
                0
            };
            r@ == if i < profiles@.len() {
                profiles@[i].code@
            } else {
                "P4"@
            }
        }),
{
    let i: usize = if selection >= 0 {
        selection as usize
    } else {
        0
    };
    if i < profiles.len() {
        let v = chars_of(profiles[i].code.as_str());
        crate::text::string_of(&v)
    } else {
        owned("P4")
    }
}

/// The status after a PDF was made: where it is, and how many words were
/// not in the dictionary where there were any.
pub open spec fn spec_generated_status(path: Seq<char>, missing: nat) -> Seq<char> {
    if missing == 0 {
        "PDF 已生成：\r\n"@ + path
    } else {
        "PDF 已生成：\r\n"@ + path + "\r\n未收录词 "@ + decimal(missing) + " 个。"@
    }
}

/// The status shown after a PDF was made.
pub fn generated_status(path: &str, missing: usize) -> (r: String)
    ensures
        r@ == spec_generated_status(path@, missing as nat),
{
    let mut out = owned("PDF 已生成：\r\n");
    push_str(&mut out, path);
    if missing > 0 {
        push_str(&mut out, "\r\n未收录词 ");
        push_decimal(&mut out, missing as u64);
        push_str(&mut out, " 个。");
    }
    out
}

/// Whether the embedded page may open `candidate`: a blank page, or a page
/// of the local server.
pub fn allowed_navigation(candidate: &str, origin: &str) -> (r: bool)
    ensures
        r == (candidate@ == "about:blank"@ || crate::text::starts_with(candidate@, origin@)),
{
    let v = chars_of(candidate);
    crate::text::str_eq(candidate, "about:blank") || starts_with_str(&v, origin)
}

fn starts_with_str(v: &Vec<char>, prefix: &str) -> (r: bool)
    ensures
        r == crate::text::starts_with(v@, prefix@),
{
    let p = chars_of(prefix);
    if p.len() > v.len() {
        return false;
    }
    crate::text::chars_match_at(v, &p, 0)
}

/// Whether a message from the embedded page asks to open the output folder.
pub fn opens_output_folder(message: &str) -> (r: bool)
    ensures
        r == (message@ == "open-output-folder"@),
{
    crate::text::str_eq(message, "open-output-folder")
}

/// An integer in decimal, with a minus sign when negative.
pub open spec fn signed_decimal(v: int) -> Seq<char> {
    if v < 0 {
        seq!['-'] + decimal((-v) as nat)
    } else {
        decimal(v as nat)
    }
}

fn push_signed(out: &mut String, v: i32)
    ensures
        final(out)@ == old(out)@ + signed_decimal(v as int),
{
    if v < 0 {
        push_char(out, '-');
        let m: i64 = -(v as i64);
        push_decimal(out, m as u64);
    } else {
        push_decimal(out, v as u64);
    }
}

/// The script that tells the page the size of its host, in 96-DPI pixels,
/// and sets its size classes.
pub open spec fn spec_page_host_script(width: i32, height: i32) -> Seq<char> {
    "\n            (() => {\n              const width = Math.max(240, "@ + signed_decimal(width as int) + ");\n              const height = Math.max(320, "@ + signed_decimal(height as int) + ");\n              const root = document.documentElement;\n              if (!root) return;\n              root.style.setProperty(\"--host-width\", `${width}px`);\n              root.style.setProperty(\"--host-height\", `${height}px`);\n              root.classList.toggle(\"host-medium\", width <= 1100);\n              root.classList.toggle(\"host-small\", width <= 720);\n              root.classList.toggle(\"host-mobile\", width <= 480);\n              root.classList.toggle(\"host-compact-height\", height <= 720 && width > 1100);\n              window.dispatchEvent(new Event(\"resize\"));\n            })();\n            "@
}

/// The script run when the host window is resized.
pub fn page_host_script(width: i32, height: i32) -> (r: String)
    ensures
        r@ == spec_page_host_script(width, height),
{
    let mut out = owned("\n            (() => {\n              const width = Math.max(240, ");
    push_signed(&mut out, width);
    push_str(&mut out, ");\n              const height = Math.max(320, ");
    push_signed(&mut out, height);
    push_str(&mut out, ");\n              const root = document.documentElement;\n              if (!root) return;\n              root.style.setProperty(\"--host-width\", `${width}px`);\n              root.style.setProperty(\"--host-height\", `${height}px`);\n              root.classList.toggle(\"host-medium\", width <= 1100);\n              root.classList.toggle(\"host-small\", width <= 720);\n              root.classList.toggle(\"host-mobile\", width <= 480);\n              root.classList.toggle(\"host-compact-height\", height <= 720 && width > 1100);\n              window.dispatchEvent(new Event(\"resize\"));\n            })();\n            ");
    out
}

/// The script loaded with the page that defines how the host size is
/// applied and applies the first one once the page is read.
pub open spec fn spec_responsive_host_script(width: i32, height: i32) -> Seq<char> {
    "\n                window.__CIJING_SET_HOST_SIZE__ = (layoutWidth, layoutHeight) => {\n                  const width = Math.max(240, layoutWidth);\n                  const height = Math.max(320, layoutHeight);\n                  const apply = () => {\n                    const root = document.documentElement;\n                    if (!root) {\n                      requestAnimationFrame(apply);\n                      return;\n                    }\n                    root.style.setProperty(\"--host-width\", `${width}px`);\n                    root.style.setProperty(\"--host-height\", `${height}px`);\n                    root.classList.toggle(\"host-medium\", width <= 1100);\n                    root.classList.toggle(\"host-small\", width <= 720);\n                    root.classList.toggle(\"host-mobile\", width <= 480);\n                    root.classList.toggle(\"host-compact-height\", height <= 720 && width > 1100);\n                    window.dispatchEvent(new Event(\"resize\"));\n                  };\n                  apply();\n                };\n                document.addEventListener(\"DOMContentLoaded\", () => {\n                  window.__CIJING_SET_HOST_SIZE__("@ + signed_decimal(width as int) + ", "@ + signed_decimal(height as int) + ");\n                }, { once: true });\n                "@
}

/// The script loaded with the embedded page.
pub fn responsive_host_script(width: i32, height: i32) -> (r: String)
    ensures
        r@ == spec_responsive_host_script(width, height),
{
    let mut out = owned("\n                window.__CIJING_SET_HOST_SIZE__ = (layoutWidth, layoutHeight) => {\n                  const width = Math.max(240, layoutWidth);\n                  const height = Math.max(320, layoutHeight);\n                  const apply = () => {\n                    const root = document.documentElement;\n                    if (!root) {\n                      requestAnimationFrame(apply);\n                      return;\n                    }\n                    root.style.setProperty(\"--host-width\", `${width}px`);\n                    root.style.setProperty(\"--host-height\", `${height}px`);\n                    root.classList.toggle(\"host-medium\", width <= 1100);\n                    root.classList.toggle(\"host-small\", width <= 720);\n                    root.classList.toggle(\"host-mobile\", width <= 480);\n                    root.classList.toggle(\"host-compact-height\", height <= 720 && width > 1100);\n                    window.dispatchEvent(new Event(\"resize\"));\n                  };\n                  apply();\n                };\n                document.addEventListener(\"DOMContentLoaded\", () => {\n                  window.__CIJING_SET_HOST_SIZE__(");
    push_signed(&mut out, width);
    push_str(&mut out, ", ");
    push_signed(&mut out, height);
    push_str(&mut out, ");\n                }, { once: true });\n                ");
    out
}

} // verus!
