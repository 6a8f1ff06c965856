use cijing_reader::decimal::{decimal_string, hps_to_points};
use cijing_reader::escape::{json_escape, url_decode, url_encode};
use cijing_reader::handlers::{route_kind, RouteKind};
use cijing_reader::json::{json_bool, json_string};
use cijing_reader::language::{builtin_translation_language, target_language_name};
use cijing_reader::preview::{prepare_article_text, sorted_missing, xml_escape};
use cijing_reader::state::AppState;
use cijing_reader::translate::{
    answer_outcome, begin_remote_translation, finish_remote_translation, plan_builtin_translation, setup_failed_outcome,
    RemoteTranslationDecision, RemoteTranslationState, TranslationPlan,
    REMOTE_TRANSLATION_COOLDOWN_MS,
};
use cijing_reader::web::{download_name, file_url, safe_title, unique_suffix};
use cijing_reader::zip::{build_docx, crc32};
use cijing_reader::docx::TextSizes;

const PROFILES: &str = "P1\t小学\t800\t5\t6\t基础\nP4\t大学\t4500\t8\t9\t学术\n";

fn load_with(profiles: &str, ecdict: &[u8], cmudict: &[u8]) -> Result<AppState, String> {
    AppState::load(profiles, "", "", "", ecdict, cmudict)
}

#[test]
fn crc32_matches_the_standard_check_value() {
    assert_eq!(crc32(b"123456789"), 0xCBF4_3926);
    assert_eq!(crc32(b""), 0);
    assert_eq!(crc32(b"a"), 0xE8B7_BE43);
}

#[test]
fn json_escape_is_read_back_by_json_string() {
    let text = "line \"one\"\nback\\slash\ttab \u{1} 中文";
    let escaped = json_escape(text);
    assert_eq!(escaped, "line \\\"one\\\"\\nback\\\\slash\\ttab \\u0001 中文");
    let body = format!("{{\"article\":\"{}\",\"other\":1}}", escaped);
    assert_eq!(json_string(&body, "article").as_deref(), Some(text));
    assert_eq!(json_string("{\"article\": 12}", "article"), None);
    assert_eq!(json_string("{}", "article"), None);
}

#[test]
fn one_field_bodies_read_back() {
    for key in ["article", "", "a\"b", "x\\y", "中文"] {
        for text in ["", "plain", "quote \" and \\ and \u{7} end", "行\n二"] {
            let body = format!("{{\"{}\":\"{}\"}}", key, json_escape(text));
            assert_eq!(json_string(&body, key).as_deref(), Some(text), "{body}");
        }
    }
}

#[test]
fn a_failed_setup_names_no_language() {
    let o = setup_failed_outcome();
    assert!(o.fallback);
    assert!(o.annotations.is_empty());
    assert!(o.actual_language.is_empty());
    assert_eq!(o.reason, "unavailable");
    assert_eq!(o.retry_after_ms, REMOTE_TRANSLATION_COOLDOWN_MS);
}

#[test]
fn json_bool_reads_literals() {
    assert_eq!(json_bool("{\"annotateUnknown\": true}", "annotateUnknown"), Some(true));
    assert_eq!(json_bool("{\"annotateUnknown\":false}", "annotateUnknown"), Some(false));
    assert_eq!(json_bool("{\"annotateUnknown\":\"yes\"}", "annotateUnknown"), None);
}

#[test]
fn url_encoding_round_trips() {
    let text = "Lesson 37/The Tea Rose 精读.docx";
    let encoded = url_encode(text);
    assert_eq!(url_encode("a b/c"), "a%20b%2Fc");
    assert!(encoded.chars().all(|c| c.is_ascii_alphanumeric() || "-_.%".contains(c)));
    assert_eq!(url_decode(&encoded), text);
    assert_eq!(url_decode("a+b%2"), "a b%");
    assert_eq!(url_decode("%zzq"), "%q");
    assert_eq!(url_decode("%+9x"), "\tx");
}

#[test]
fn xml_escape_leaves_no_markup() {
    assert_eq!(xml_escape("<a href=\"x\">Tom & Jerry's</a>"), "&lt;a href=&quot;x&quot;&gt;Tom &amp; Jerry&apos;s&lt;/a&gt;");
    assert_eq!(xml_escape("plain"), "plain");
}

#[test]
fn safe_title_keeps_letters_and_collapses_the_rest() {
    assert_eq!(safe_title("Lesson 37: The Tea Rose!"), "Lesson_37_The_Tea_Rose");
    assert_eq!(safe_title("  ***  "), "annotated_article");
    assert_eq!(safe_title("精读-课文_1"), "精读-课文_1");
}

#[test]
fn points_from_half_points() {
    assert_eq!(hps_to_points(27), "13.5");
    assert_eq!(hps_to_points(24), "12");
    assert_eq!(hps_to_points(0), "0");
    assert_eq!(decimal_string(90210), "90210");
}

#[test]
fn unique_suffix_is_hex_time_and_counter() {
    assert_eq!(unique_suffix(0x1_2345_6789, 0x1_0002), "234567890002");
    assert_eq!(unique_suffix(255, 16), "ff0010");
}

#[test]
fn file_urls_escape_bytes() {
    assert_eq!(file_url("C:\\out\\my file.pdf"), "file:///C:/out/my%20file.pdf");
    assert_eq!(file_url("/tmp/a~b.pdf"), "file:////tmp/a~b.pdf");
}

#[test]
fn download_names_cannot_leave_the_output_folder() {
    assert_eq!(download_name("/download/article.pdf").as_deref(), Some("article.pdf"));
    assert_eq!(download_name("/download/Lesson%2037.docx").as_deref(), Some("Lesson 37.docx"));
    assert_eq!(download_name("/download/..%2Fsecret.pdf"), None);
    assert_eq!(download_name("/download/a%5Cb.pdf"), None);
    assert_eq!(download_name("/download/"), None);
    assert_eq!(download_name("/download/a%0Ab.pdf"), None);
}

#[test]
fn remote_translation_state_machine() {
    let mut remote = RemoteTranslationState::new();
    assert!(matches!(begin_remote_translation(&mut remote, 1_000), RemoteTranslationDecision::Attempt));
    assert!(remote.in_flight);
    assert!(matches!(begin_remote_translation(&mut remote, 1_001), RemoteTranslationDecision::Busy));
    finish_remote_translation(&mut remote, false, 2_000);
    assert!(!remote.in_flight);
    assert_eq!(remote.cooldown_until_ms, Some(2_000 + REMOTE_TRANSLATION_COOLDOWN_MS));
    match begin_remote_translation(&mut remote, 3_000) {
        RemoteTranslationDecision::CoolingDown(ms) => assert_eq!(ms, REMOTE_TRANSLATION_COOLDOWN_MS - 1_000),
        _ => panic!("a failed request pauses the service"),
    }
    match begin_remote_translation(&mut remote, 2_000 + REMOTE_TRANSLATION_COOLDOWN_MS - 10) {
        RemoteTranslationDecision::CoolingDown(ms) => assert_eq!(ms, 1_000),
        _ => panic!("the pause lasts until its end"),
    }
    assert!(matches!(
        begin_remote_translation(&mut remote, 2_000 + REMOTE_TRANSLATION_COOLDOWN_MS),
        RemoteTranslationDecision::Attempt
    ));
    finish_remote_translation(&mut remote, true, 400_000);
    assert_eq!(remote.cooldown_until_ms, None);
    assert!(!remote.in_flight);
}

#[test]
fn loading_reports_the_first_unreadable_table() {
    let bad_vocab = load_with("P1\tx\tmany\t5\t6\tnote\n", b"", b"");
    assert_eq!(bad_vocab.err().as_deref(), Some("invalid profile vocab"));
    let none = load_with("too\tfew\tcolumns\n", b"", b"");
    assert_eq!(none.err().as_deref(), Some("missing grade profiles"));
    assert!(load_with(PROFILES, b"\xff\xfe", b"").is_err());
    assert!(load_with(PROFILES, b"", b"\xc3").is_err());
    let ok = load_with(PROFILES, b"rose\tn. \xe7\x8e\xab\xe7\x91\xb0\n", b"ROSE  R OW1 Z\n").ok().expect("tables load");
    assert_eq!(ok.profiles.len(), 2);
    assert_eq!(ok.profile("P9").code, "P4");
    assert_eq!(ok.profile("P1").code, "P1");
}

#[test]
fn routes_by_method_and_path() {
    assert!(matches!(route_kind("GET", "/"), RouteKind::Index));
    assert!(matches!(route_kind("GET", "/index.html?lang=en"), RouteKind::Index));
    assert!(matches!(route_kind("GET", "/download/a.pdf"), RouteKind::Download));
    assert!(matches!(route_kind("POST", "/api/preview"), RouteKind::Preview));
    assert!(matches!(route_kind("POST", "/"), RouteKind::NotFound));
    assert!(matches!(route_kind("PUT", "/api/preview"), RouteKind::NotFound));
}

#[test]
fn every_target_language_has_a_name() {
    for code in ["zh-Hans", "zh-Hant", "en", "ja", "ko", "es", "jv", "ps", "ku", "ht", "om", "ug"] {
        assert!(target_language_name(code).is_some(), "{code}");
        assert!(builtin_translation_language(code).is_some(), "{code}");
    }
    assert_eq!(builtin_translation_language("zh-Hans").as_deref(), Some("zh-CN"));
}

#[test]
fn articles_are_trimmed_and_titled() {
    assert!(prepare_article_text("  \r\n ", "Title").is_err());
    let text = prepare_article_text("Body\r\ntext", "").ok().expect("article");
    assert_eq!(text, "Body\ntext");
}

#[test]
fn missing_words_are_sorted_and_unique() {
    let words = vec!["rose".to_string(), "apple".to_string(), "rose".to_string(), "moon".to_string()];
    assert_eq!(sorted_missing(words), vec!["apple", "moon", "rose"]);
}

#[test]
fn docx_package_starts_with_a_local_header() {
    let bytes = build_docx(&vec![], TextSizes::default_body()).ok().expect("package");
    assert_eq!(&bytes[0..4], b"PK\x03\x04");
    let text = String::from_utf8_lossy(&bytes);
    assert!(text.contains("[Content_Types].xml"));
    assert!(text.contains("w:pgSz w:w=\"12240\" w:h=\"15840\""));
}

#[test]
fn a_whole_translation_request_ends_idle() {
    let state = load_with(PROFILES, b"", b"").expect("profiles load");
    let words = vec!["rose".to_string(), "tea".to_string()];
    match plan_builtin_translation(&state, "en", &words) {
        TranslationPlan::Settled(o) => {
            assert!(!o.fallback);
            assert_eq!(o.actual_language, "en");
            assert_eq!(o.annotations, "rose==rose\ntea==tea");
            assert!(o.warning.is_empty() && o.reason.is_empty() && o.retry_after_ms == 0);
        }
        TranslationPlan::AskService(_) => panic!("English needs no service"),
    }
    let provider = match plan_builtin_translation(&state, "fr", &words) {
        TranslationPlan::AskService(language) => language,
        TranslationPlan::Settled(_) => panic!("French asks the service"),
    };
    assert_eq!(provider, "fr");
    let mut remote = RemoteTranslationState::new();
    assert!(matches!(begin_remote_translation(&mut remote, 1_000), RemoteTranslationDecision::Attempt));
    assert!(remote.in_flight);
    let (o, succeeded) = answer_outcome(&state, "fr", Err("TRANSLATION_RATE_LIMITED".to_string()));
    assert!(o.fallback && !succeeded);
    assert!(o.annotations.is_empty() && o.actual_language.is_empty());
    assert_eq!(o.reason, "rate_limited");
    finish_remote_translation(&mut remote, succeeded, 2_000);
    assert!(!remote.in_flight);
    assert_eq!(remote.cooldown_until_ms, Some(2_000 + REMOTE_TRANSLATION_COOLDOWN_MS));
}
