use cijing_reader::annotate::AnnotationParts;
use cijing_reader::audit::{audit_docx_layout, audit_docx_ruby_layout};
use cijing_reader::docx::{docx_line_table, tables_of_blocks, DocxBlock, TextSizes};
use cijing_reader::handlers::{generated_answer, generated_file_name};
use cijing_reader::http::{parse_request, reason_phrase, response_head, scan_request, RequestScan, ScanStep};
use cijing_reader::printable::printable_preview_html;
use cijing_reader::state::GradeProfile;
use cijing_reader::translate::translator_result;
use cijing_reader::window::{
    allowed_navigation, client_size_of, command_of, control_layout, default_grade_index, generated_status,
    grade_help_text, initial_window_bounds, logical_client_size, opens_output_folder, page_host_script,
    responsive_host_script, selected_grade_code, window_command, word_count_text, GuiCommand,
};

fn scan_all(data: &[u8]) -> ScanStep {
    scan_request(&RequestScan { header_end: None, content_length: 0 }, data)
}

#[test]
fn a_request_is_complete_once_its_body_is_in() {
    let head = b"POST /api/preview HTTP/1.1\r\nHost: x\r\ncontent-LENGTH: 5\r\n\r\n";
    let mut data = head.to_vec();
    data.extend_from_slice(b"ab");
    let scan = match scan_all(&data) {
        ScanStep::Continue(scan) => scan,
        _ => panic!("the body is not in yet"),
    };
    assert_eq!(scan.header_end, Some(head.len() - 4));
    assert_eq!(scan.content_length, 5);
    data.extend_from_slice("c中".as_bytes());
    let scan = match scan_request(&scan, &data) {
        ScanStep::Complete(scan) => scan,
        _ => panic!("the body is in"),
    };
    let (method, target, body) = parse_request(&data, &scan).ok().expect("request");
    assert_eq!(method, "POST");
    assert_eq!(target, "/api/preview");
    assert_eq!(body, "abc\u{fffd}");
}

#[test]
fn requests_over_the_limits_are_refused() {
    let big = vec![b'a'; 65537];
    assert!(matches!(scan_all(&big), ScanStep::Refused(e) if e == "HTTP 请求头过大。"));
    let head = b"POST / HTTP/1.1\r\nContent-Length: 4194305\r\n\r\n";
    assert!(matches!(scan_all(head), ScanStep::Refused(e) if e == "HTTP 请求正文过大。"));
    let unreadable = b"GET / HTTP/1.1\r\nContent-Length: lots\r\nContent-Length: 0\r\n\r\n";
    assert!(matches!(scan_all(unreadable), ScanStep::Complete(s) if s.content_length == 0));
}

#[test]
fn request_lines_default_their_parts() {
    let scan = RequestScan { header_end: None, content_length: 0 };
    assert_eq!(parse_request(b"GET /", &scan).err().as_deref(), Some("missing HTTP header"));
    let data = b"\r\n\r\nbody";
    let step = scan_all(data);
    let scan = match step {
        ScanStep::Complete(scan) => scan,
        _ => panic!("an empty head is complete"),
    };
    assert_eq!(parse_request(data, &scan).err().as_deref(), Some("missing request line"));
    let data = b"GET\r\n\r\n";
    let scan = match scan_all(data) {
        ScanStep::Complete(scan) => scan,
        _ => panic!("complete"),
    };
    let (method, target, body) = parse_request(data, &scan).ok().expect("request");
    assert_eq!((method.as_str(), target.as_str(), body.as_str()), ("GET", "/", ""));
}

#[test]
fn response_heads_carry_length_type_and_headers() {
    let head = response_head(404, "application/json; charset=utf-8", 27, &vec!["X-A: 1".to_string()]);
    assert!(head.starts_with("HTTP/1.1 404 Not Found\r\nContent-Length: 27\r\nContent-Type: application/json; charset=utf-8\r\n"));
    assert!(head.ends_with("Connection: close\r\nX-A: 1\r\n\r\n"));
    assert_eq!(reason_phrase(200), "OK");
    assert_eq!(reason_phrase(418), "Internal Server Error");
}

fn block(base: &str, width: usize, annotated: bool) -> DocxBlock {
    DocxBlock {
        base: base.to_string(),
        annotation: if annotated {
            Some(AnnotationParts { ipa: "rəʊz".to_string(), zh: "玫瑰".to_string(), hard: true })
        } else {
            None
        },
        width_twips: width,
    }
}

#[test]
fn line_tables_hold_one_cell_per_block() {
    let blocks = vec![block("rose", 900, true), block("and sun", 700, false)];
    let table = docx_line_table(&blocks, 27, TextSizes::default_body(), "left", false);
    assert!(table.starts_with("<w:tbl><w:tblPr><w:tblW w:w=\"1600\" w:type=\"dxa\"/><w:jc w:val=\"left\"/>"));
    assert_eq!(table.matches("<w:tc>").count(), 2);
    assert!(table.contains("<w:gridCol w:w=\"900\"/><w:gridCol w:w=\"700\"/>"));
    // 13 half points give a 269 twip annotation line; 27 give 488 for the text.
    assert!(table.contains("<w:trHeight w:val=\"937\" w:hRule=\"atLeast\"/>"));
    assert!(table.contains("<w:color w:val=\"B35C00\"/>"));
    assert!(table.contains(" 玫瑰"));
    assert!(table.ends_with("</w:tr></w:tbl>"));
}

#[test]
fn lines_break_before_the_block_that_would_overflow() {
    let blocks: Vec<DocxBlock> = (0..5).map(|i| block(&format!("w{i}"), 4000, false)).collect();
    let tables = tables_of_blocks(&blocks, 27, TextSizes::default_body(), "left", false);
    assert_eq!(tables.len(), 3);
    assert!(tables[0].contains("w:tblW w:w=\"8000\""));
    assert!(tables[2].contains("w:tblW w:w=\"4000\""));
    let three: Vec<DocxBlock> = (0..3).map(|i| block(&format!("t{i}"), 4000, false)).collect();
    let titled = tables_of_blocks(&three, 27, TextSizes::default_body(), "center", true);
    assert_eq!(titled.len(), 2);
    assert!(tables_of_blocks(&vec![], 27, TextSizes::default_body(), "left", false).is_empty());
    let wide = vec![block("huge", 20000, false), block("x", 600, false)];
    assert_eq!(tables_of_blocks(&wide, 27, TextSizes::default_body(), "left", false).len(), 2);
}

#[test]
fn printable_page_sets_sizes_and_body() {
    let page = printable_preview_html("<div>x</div>", "8.5in", "11in", "2.15", "0", TextSizes::default_body());
    assert!(page.starts_with("<!doctype html>"));
    assert!(page.contains("@page{size:8.5in 11in;margin:0;}"));
    assert!(page.contains("font-size:13.5pt;line-height:2.15;word-spacing:0pt;"));
    assert!(page.contains(".preview-title{margin:0 0 18pt;text-align:center;font-size:18pt;"));
    assert!(page.contains(".preview-ipa{font-family:Arial,sans-serif;font-size:6.5pt;}"));
    assert!(page.ends_with("<body><div>x</div></body></html>"));
}

#[test]
fn translator_exits_are_classified() {
    assert_eq!(translator_result(true, &b"rose\trosa\n".to_vec(), &vec![]), Ok("rose\trosa\n".to_string()));
    assert_eq!(translator_result(true, &b"  \n".to_vec(), &vec![]), Err("TRANSLATION_EMPTY".to_string()));
    assert_eq!(
        translator_result(false, &vec![], &b"RATE_LIMITED".to_vec()),
        Err("TRANSLATION_RATE_LIMITED".to_string())
    );
    assert_eq!(
        translator_result(false, &b"x RATE_LIMITED".to_vec(), &b"TRANSLATION_INCOMPLETE".to_vec()),
        Err("TRANSLATION_RATE_LIMITED".to_string())
    );
    assert_eq!(
        translator_result(false, &vec![], &b"TRANSLATION_INCOMPLETE".to_vec()),
        Err("TRANSLATION_INCOMPLETE".to_string())
    );
    assert_eq!(translator_result(false, &b"ok".to_vec(), &vec![]), Err("TRANSLATION_UNAVAILABLE".to_string()));
}

#[test]
fn window_sizes_scale_with_dpi() {
    assert_eq!(logical_client_size(96, 1200, 800), (1200, 800));
    assert_eq!(logical_client_size(144, 1200, 801), (800, 534));
    assert_eq!(logical_client_size(72, 0, -5), (1, 1));
    assert_eq!(initial_window_bounds(None), (50, 50, 1180, 720));
    assert_eq!(initial_window_bounds(Some((0, 0, 1920, 1040))), (48, 32, 1824, 976));
    assert_eq!(initial_window_bounds(Some((0, 0, 300, 200))), (20, 16, 640, 480));
}

#[test]
fn messages_split_into_words() {
    assert_eq!(client_size_of(0x0320_0500), (0x500, 0x320));
    assert_eq!(command_of(0x0300_07D1), (2001, 0x0300));
    assert!(matches!(window_command(2001, 0x0300), GuiCommand::UpdateWordCount));
    assert!(matches!(window_command(2001, 0x0100), GuiCommand::Nothing));
    assert!(matches!(window_command(1003, 0), GuiCommand::Generate));
    assert!(matches!(window_command(2002, 7), GuiCommand::UpdateGradeHelp));
}

#[test]
fn controls_keep_their_columns() {
    let layout = control_layout(1180, 760);
    assert_eq!((layout.article.x, layout.article.y, layout.article.w, layout.article.h), (18, 48, 776, 694));
    assert_eq!(layout.title.x, 812);
    assert_eq!((layout.clear.x, layout.clear.w), (991, 171));
    assert_eq!(layout.status.y, 506);
    let narrow = control_layout(300, 100);
    assert_eq!((narrow.article.w, narrow.article.h), (420, 450));
}

#[test]
fn window_texts() {
    assert_eq!(word_count_text("It's a well-known fact -- 42 times!"), "5 words");
    assert_eq!(word_count_text(""), "0 words");
    let profile = GradeProfile {
        code: "P4".to_string(),
        label: "大学".to_string(),
        estimated_vocab: 4500,
        lexicon_min_len: 8,
        unknown_min_len: 9,
        note: "学术词汇".to_string(),
    };
    assert_eq!(grade_help_text(&profile), "预估词汇量约 4500 词。\r\n学术词汇");
    let other = GradeProfile {
        code: "P1".to_string(),
        label: "小学".to_string(),
        estimated_vocab: 800,
        lexicon_min_len: 5,
        unknown_min_len: 6,
        note: String::new(),
    };
    let profiles = vec![other, profile];
    assert_eq!(default_grade_index(&profiles), 1);
    assert_eq!(default_grade_index(&vec![]), 0);
    assert_eq!(selected_grade_code(&profiles, -1), "P1");
    assert_eq!(selected_grade_code(&profiles, 1), "P4");
    assert_eq!(selected_grade_code(&profiles, 9), "P4");
    assert_eq!(generated_status("C:\\out\\a.pdf", 0), "PDF 已生成：\r\nC:\\out\\a.pdf");
    assert_eq!(generated_status("a.pdf", 3), "PDF 已生成：\r\na.pdf\r\n未收录词 3 个。");
    assert_eq!(generated_file_name("  ", "ff01", "pdf"), "annotated_article_ff01.pdf");
    assert_eq!(generated_file_name("Tea Rose", "ff01", "docx"), "Tea_Rose_ff01.docx");
}

#[test]
fn the_embedded_page_stays_on_the_local_server() {
    assert!(allowed_navigation("about:blank", "http://127.0.0.1:8765/"));
    assert!(allowed_navigation("http://127.0.0.1:8765/api", "http://127.0.0.1:8765/"));
    assert!(!allowed_navigation("https://example.com/", "http://127.0.0.1:8765/"));
    assert!(opens_output_folder("open-output-folder"));
    assert!(!opens_output_folder("open"));
    let script = page_host_script(800, -2);
    assert!(script.contains("Math.max(240, 800);"));
    assert!(script.contains("Math.max(320, -2);"));
    let init = responsive_host_script(1024, 700);
    assert!(init.contains("window.__CIJING_SET_HOST_SIZE__(1024, 700);"));
}

#[test]
fn ruby_documents_pass_or_fail_the_layout_check() {
    let fails = |xml: &str| audit_docx_ruby_layout(&vec![xml.to_string()]).err().expect("refused");
    assert_eq!(fails("<w:tbl>"), "Layout audit failed: table layout remains in the Word body.");
    assert_eq!(fails("<w:fitText w:val=\"1\"/>"), "Layout audit failed: unstable fitText layout was detected.");
    assert_eq!(fails("<w:r><w:t></w:t></w:r>"), "Layout audit failed: empty visible text runs were detected.");
    assert_eq!(fails("<w:ruby><w:rt>"), "Layout audit failed: ruby annotations are not paired with base words.");
    assert_eq!(
        fails("<w:spacing w:line=\"600\"/><w:ruby><w:rt></w:rt><w:rubyBase></w:rubyBase></w:ruby>"),
        "Layout audit failed: line spacing is too small for annotations."
    );
    let report = audit_docx_ruby_layout(&vec!["<w:p/>".to_string()]).ok().expect("plain text passes");
    assert_eq!((report.table_count, report.min_cell_width, report.min_row_height), (0, 0, 0));
    let ruby = "<w:spacing w:line=\"720\"/><w:ruby><w:rt></w:rt><w:rubyBase></w:rubyBase></w:ruby>";
    let report = audit_docx_ruby_layout(&vec![ruby.to_string(), ruby.to_string()]).ok().expect("passes");
    assert_eq!((report.table_count, report.min_row_height), (2, 720));
}

#[test]
fn table_documents_pass_or_fail_the_layout_check() {
    let blocks = vec![block("rose", 900, true), block("and sun", 700, false)];
    let table = docx_line_table(&blocks, 27, TextSizes::default_body(), "left", false);
    let report = audit_docx_layout(&vec![table]).ok().expect("a laid-out line passes");
    assert_eq!((report.table_count, report.min_cell_width, report.min_row_height), (1, 700, 937));
    let fails = |xml: &str| audit_docx_layout(&vec![xml.to_string()]).err().expect("refused");
    assert_eq!(fails("<w:tbl>"), "版式体检未通过：注释行缺少分页保护。");
    assert_eq!(
        fails("<w:tbl><w:tr><w:cantSplit/><w:tblW w:w=\"10000\"/>"),
        "版式体检未通过：有行宽超过页面可用宽度。"
    );
    assert_eq!(
        fails("<w:tbl><w:tr><w:cantSplit/><w:gridCol w:w=\"200\"/>"),
        "版式体检未通过：有词块宽度过窄，可能导致单词断开。"
    );
    assert_eq!(
        fails("<w:tbl><w:tr><w:cantSplit/><w:trHeight w:val=\"800\"/>"),
        "版式体检未通过：行高不足，可能容不下注释和英文。"
    );
    let empty = audit_docx_layout(&vec!["<w:p/>".to_string()]).ok().expect("no tables");
    assert_eq!(empty.table_count, 0);
}

#[test]
fn generated_files_are_answered_with_their_download() {
    assert_eq!(
        generated_answer("a b.pdf", Ok(3)),
        (200, "{\"ok\":true,\"filename\":\"a b.pdf\",\"downloadUrl\":\"/download/a%20b.pdf\",\"missingCount\":3}".to_string())
    );
    assert_eq!(generated_answer("a.pdf", Err("PDF \"x\"".to_string())), (400, "{\"error\":\"PDF \\\"x\\\"\"}".to_string()));
}
