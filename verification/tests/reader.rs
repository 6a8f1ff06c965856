use cijing_reader::custom::parse_custom_annotations;
use cijing_reader::annotate::annotation_context;
use cijing_reader::docx::TextSizes;
use cijing_reader::document::generate_docx;
use cijing_reader::handlers::{
    builtin_translate_answer, handle_builtin_translate, handle_dictionary, handle_preview, route_request, Route,
    TranslateStep, WebAssets,
};
use cijing_reader::json::json_string;
use cijing_reader::language::{builtin_translation_language, pronunciation_scheme, target_language, target_language_name};
use cijing_reader::lookup::{lookup_entry, lookup_generated_ipa, lookup_generated_translation};
use cijing_reader::normalize::{candidate_lemmas, normalize_key};
use cijing_reader::powershell::builtin_translation_powershell_script;
use cijing_reader::preview::{render_preview_html, PreviewOptions};
use cijing_reader::pronounce::format_pronunciation;
use cijing_reader::state::AppState;
use cijing_reader::translate::{
    begin_remote_translation, declined_outcome, plan_builtin_translation, RemoteTranslationDecision,
    RemoteTranslationState, TranslationPlan,
};
use cijing_reader::web::{download_mime, should_use_embedded_ui};
use cijing_reader::zip::build_docx;
use std::sync::OnceLock;

const PROFILES: &str = "P1\t小学\t800\t5\t6\t基础词汇\n\
P2\t初中\t1600\t6\t7\t常用词汇\n\
P3\t高中\t3000\t7\t8\t进阶词汇\n\
P4\t大学\t4500\t8\t9\t学术词汇\n";
const TIERS: &str = "P1\tthe a an and is was\nP2\tgarden flower\nP3\tglitter\n";
const BASIC: &str = "the\nand\neveryone\na\n";
const SEED: &str = "glittered\tˈɡlɪt.ərd\t闪闪发光\tfalse\nrose\trəʊz\t玫瑰\tfalse\n";
const ECDICT: &str = "beautiful\tadj. 美丽的, 美好的\nrose\tn. 玫瑰\nubiquitous\tadj. 无所不在的\n\
phenomenon\tn. 现象\nbewildered\tadj. 困惑的\n";
const CMUDICT: &str = ";;; pronunciation dictionary\n\
BEAUTIFUL  B Y UW1 T AH0 F AH0 L\n\
ROSE  R OW1 Z # flower\n\
ROSES  R OW1 Z AH0 Z\n\
UBIQUITOUS  Y UW0 B IH1 K W AH0 T AH0 S\n";
const ARTICLE: &str = "Lesson 37 The Tea Rose\n\nThe glittered rose grew in a ubiquitous garden. \
Everyone was bewildered by the beautiful phenomenon, and the rose kept its colour through the long \
summer. Children came to see it every morning and every evening, and the gardener told them the \
story of the plant, the rain and the sun.";

fn state() -> &'static AppState {
    static STATE: OnceLock<AppState> = OnceLock::new();
    STATE.get_or_init(|| {
        AppState::load(PROFILES, TIERS, BASIC, SEED, ECDICT.as_bytes(), CMUDICT.as_bytes())
            .ok()
            .expect("dictionaries should load")
    })
}

fn assets() -> WebAssets {
    WebAssets {
        index_html: "<!doctype html><script src=\"/ui-language-packs.js\"></script><script src=\"/i18n.js\"></script>"
            .to_string(),
        ui_language_packs_js: "(function (global) { global.YujieUiLanguagePacks = {\"version\":\"2-95eyir\"}; })(this);"
            .to_string(),
        i18n_js: "(function (global) { global.YujieI18n = {}; })(this);".to_string(),
        app_js: "const AUTO_TRANSLATION_CACHE_VERSION = 2;".to_string(),
        editor_tools_js: "(() => { const key = \"autoTranslationCache\"; })();".to_string(),
        styles_css: "body { margin: 0; }".to_string(),
        brand_logo_png: vec![0x89, b'P', b'N', b'G'],
        demo_text: ARTICLE.to_string(),
    }
}

fn respond(route: Route) -> (u16, &'static str, Vec<u8>, Vec<String>) {
    match route {
        Route::Respond(status, mime, body, headers) => (status, mime, body, headers),
        _ => panic!("request should be answered directly"),
    }
}

fn contains_bytes(body: &[u8], needle: &[u8]) -> bool {
    body.windows(needle.len()).any(|window| window == needle)
}

#[test]
fn normalizes_inflections_and_compound_words() {
    assert!(candidate_lemmas("studies").contains(&"study".to_string()));
    assert!(candidate_lemmas("running").contains(&"run".to_string()));
    assert_eq!(normalize_key("  Well–Known! "), "well-known");
}

#[test]
fn parses_custom_annotations_and_forced_terms() {
    let (entries, forced, ignored) = parse_custom_annotations("glittered=ˈɡlɪt.ərd=闪闪发光\n*rose\ngarden\n!beautiful");
    assert_eq!(entries.len(), 1);
    assert_eq!(entries[0].term, "glittered");
    assert!(entries[0].hard);
    assert_eq!(forced, vec!["rose", "garden"]);
    assert_eq!(ignored, vec!["beautiful"]);
}

#[test]
fn looks_up_local_dictionary_and_serves_editor_tools() {
    let (status, payload) = handle_dictionary(state(), r#"{"word":"roses"}"#);
    assert_eq!(status, 200);
    assert!(payload.contains("\"found\":true"));
    assert!(payload.contains("\"term\":\"rose\""));

    let web = assets();
    let (status, mime, body, _) = respond(route_request(state(), &web, "GET", "/editor-tools.js", ""));
    assert_eq!(status, 200);
    assert_eq!(mime, "text/javascript; charset=utf-8");
    assert!(body.starts_with(b"(() =>"));

    let (status, mime, body, _) = respond(route_request(state(), &web, "GET", "/i18n.js", ""));
    assert_eq!(status, 200);
    assert_eq!(mime, "text/javascript; charset=utf-8");
    assert!(contains_bytes(&body, b"YujieI18n"));

    let (status, mime, body, _) = respond(route_request(state(), &web, "GET", "/ui-language-packs.js", ""));
    assert_eq!(status, 200);
    assert_eq!(mime, "text/javascript; charset=utf-8");
    assert_eq!(body, web.ui_language_packs_js.as_bytes());
}

#[test]
fn removes_user_api_and_network_lexicon_entry_points() {
    let web = assets();
    for path in ["/api/ai-enhance", "/api/network-lexicon"] {
        let (status, _, _, _) = respond(route_request(state(), &web, "POST", path, "{}"));
        assert_eq!(status, 404);
    }
}

#[test]
fn validates_global_language_and_pronunciation_preferences() {
    assert_eq!(target_language_name("es"), Some("西班牙语"));
    assert_eq!(target_language_name("sw"), Some("斯瓦希里语"));
    assert_eq!(target_language_name("jv"), Some("爪哇语"));
    assert_eq!(target_language_name("ps"), Some("普什图语"));
    assert_eq!(target_language_name("ig"), Some("伊博语"));
    assert_eq!(target_language_name("not-a-language"), None);
    assert_eq!(target_language(r#"{"targetLanguage":"not-a-language"}"#), "zh-Hans");
    assert_eq!(pronunciation_scheme(r#"{"pronunciationScheme":"none"}"#), "none");
    assert_eq!(pronunciation_scheme(r#"{"pronunciationScheme":"unknown"}"#), "ipa-us");
    assert_eq!(builtin_translation_language("zh-Hant").as_deref(), Some("zh-TW"));
    assert_eq!(builtin_translation_language("pt-BR").as_deref(), Some("pt-BR"));
    assert_eq!(builtin_translation_language("jv").as_deref(), Some("jav"));
    assert_eq!(builtin_translation_language("fil").as_deref(), Some("fil"));
    assert_eq!(builtin_translation_language("not-a-language"), None);
    let translation_script = builtin_translation_powershell_script();
    assert!(translation_script.contains("__YJW_"));
    assert!(translation_script.contains("edge.microsoft.com/translate/auth"));
    assert!(translation_script.contains("api-edge.cognitive.microsofttranslator.com"));
    assert!(translation_script.contains("$offset += 25"));
    assert!(translation_script.contains("api.mymemory.translated.net/get"));
    assert!(translation_script.contains("-Method Get"));
    assert!(translation_script.contains("-Method Post"));
    assert!(translation_script.contains("-join \" | \""));
    assert!(translation_script.contains("GetByteCount($candidate) -gt 420"));
    assert!(translation_script.contains("-TimeoutSec 8"));
    assert!(translation_script.contains("RATE_LIMITED"));
    assert!(translation_script.contains("PROVIDER_UNAVAILABLE"));
    assert!(!translation_script.contains("function Process-Entries"));
    assert!(!translation_script.contains("throw $script:lastProviderError"));
}

/// Runs a translation request the way the server does, with the given
/// state of the online service at the given time.
fn translate_with(remote: &mut RemoteTranslationState, now_ms: u64, body: &str) -> (u16, String) {
    match handle_builtin_translate(state(), body) {
        TranslateStep::Answer(status, payload) => (status, payload),
        TranslateStep::Translate(target, words) => match plan_builtin_translation(state(), &target, &words) {
            TranslationPlan::Settled(outcome) => builtin_translate_answer(&outcome),
            TranslationPlan::AskService(_) => {
                let decision = begin_remote_translation(remote, now_ms);
                assert!(!matches!(decision, RemoteTranslationDecision::Attempt));
                let outcome = declined_outcome(&decision).expect("a declined request has an outcome");
                builtin_translate_answer(&outcome)
            }
        },
    }
}

#[test]
fn unavailable_target_translation_never_uses_chinese_or_leaks_script_details() {
    let now_ms: u64 = 5_000_000;
    let mut remote = RemoteTranslationState { cooldown_until_ms: Some(now_ms + 60_000), in_flight: false };
    let body = r#"{
            "article":"The ubiquitous phenomenon bewildered everyone.",
            "grade":"P1",
            "targetLanguage":"es"
        }"#;
    let (status, payload) = translate_with(&mut remote, now_ms, body);
    assert_eq!(status, 200);
    assert!(payload.contains("\"fallback\":true"));
    assert!(payload.contains("\"warning\":\"在线翻译服务正在冷却"));
    assert!(payload.contains("\"reason\":\"cooldown\""));
    assert!(payload.contains("\"actualLanguage\":\"\""));
    assert!(payload.contains("\"retryAfterMs\":"));
    assert!(payload.contains("\"annotations\":\"\""));
    assert!(!payload.contains("ECDICT"));
    assert!(payload.contains("未混入中文释义"));
    assert!(!payload.contains("translate.ps1"));
    assert!(!payload.contains("AppData"));
    assert!(!payload.contains("FullyQualifiedErrorId"));

    let mut busy = RemoteTranslationState { cooldown_until_ms: None, in_flight: true };
    let (busy_status, busy_payload) = translate_with(&mut busy, now_ms, body);
    assert_eq!(busy_status, 200);
    assert!(busy_payload.contains("\"reason\":\"busy\""));
    assert!(busy_payload.contains("\"retryAfterMs\":1500"));
}

#[test]
fn local_chinese_dictionary_still_contains_definition_and_ipa() {
    let translation = lookup_generated_translation(state(), "beautiful").expect("definition should exist");
    let ipa = lookup_generated_ipa(state(), "beautiful").expect("IPA should exist");
    assert!(translation.contains("美"));
    assert!(!ipa.is_empty());
    assert!(lookup_generated_translation(state(), "zzzxqvnonword").is_none());
}

#[test]
fn uses_only_embedded_ui_language_packs() {
    let web = assets();
    let (status, _, _, _) = respond(route_request(state(), &web, "POST", "/api/ui-language-pack", "{}"));
    assert_eq!(status, 404);
    let (status, _, _, _) = respond(route_request(state(), &web, "GET", "/api/ui-language-pack", ""));
    assert_eq!(status, 404);
}

#[test]
fn uses_embedded_fast_language_switching_paths() {
    let web = assets();
    let (status, _, page, _) = respond(route_request(state(), &web, "GET", "/", ""));
    assert_eq!(status, 200);
    assert_eq!(page, web.index_html.as_bytes());
    let (status, _, packs, _) = respond(route_request(state(), &web, "GET", "/ui-language-packs.js?v=2", ""));
    assert_eq!(status, 200);
    assert_eq!(packs, web.ui_language_packs_js.as_bytes());
    let (status, _, runtime, _) = respond(route_request(state(), &web, "GET", "/i18n.js", ""));
    assert_eq!(status, 200);
    assert_eq!(runtime, web.i18n_js.as_bytes());
    let (status, _, app, _) = respond(route_request(state(), &web, "GET", "/app.js", ""));
    assert_eq!(status, 200);
    assert_eq!(app, web.app_js.as_bytes());
}

#[test]
fn renders_every_enabled_pronunciation_scheme() {
    let source = "ˈbjutəfəl";
    let us = format_pronunciation(source, "ipa-us");
    let uk = format_pronunciation(source, "ipa-uk");
    let generic = format_pronunciation(source, "ipa");
    let friendly = format_pronunciation(source, "target-friendly");
    let syllable = format_pronunciation(source, "syllable");

    for rendered in [&us, &uk, &generic, &friendly, &syllable] {
        assert!(!rendered.is_empty());
    }
    assert_ne!(us, uk);
    assert_ne!(us, friendly);
    assert_ne!(us, syllable);
    assert!(syllable.contains('·'));
    assert_eq!(format_pronunciation(source, "none"), "");
}

#[test]
fn cmudict_comments_are_not_loaded_as_phonemes() {
    for word in ["beautiful", "rose", "roses", "ubiquitous"] {
        let variants = state().pronunciations.get(word).expect("word should have a pronunciation");
        assert!(variants.iter().flatten().all(|phone| !phone.starts_with('#')));
    }
    assert_eq!(state().pronunciations.get("rose").unwrap()[0], vec!["R", "OW1", "Z"]);
}

#[test]
fn non_chinese_preview_avoids_offline_chinese_and_can_hide_pronunciation() {
    let body = r#"{
            "article":"The glittered rose.",
            "grade":"P4",
            "customWords":"glittered==destello",
            "targetLanguage":"es",
            "pronunciationScheme":"none"
        }"#;
    let custom = json_string(body, "customWords").expect("custom words should parse");
    let (entries, _, _) = parse_custom_annotations(&custom);
    assert_eq!(entries.len(), 1);
    assert_eq!(entries[0].zh, "destello");
    let (mut lexicon, _, _, _) = annotation_context(state(), &custom, "P4", "es").ok().expect("context should build");
    let entry = lookup_entry(state(), "glittered", &mut lexicon, false, false)
        .expect("custom translation should override offline entries");
    assert_eq!(entry.zh, "destello");
    let (status, payload) = handle_preview(state(), body);
    assert_eq!(status, 200);
    assert!(payload.contains("destello"), "{payload}");
    assert!(!payload.contains("闪闪发光"));
    assert!(!payload.contains("ˈɡlɪt"));
}

#[test]
fn builds_valid_docx_package_with_requested_page_size() {
    let sizes = TextSizes { page_width_twips: 11906, page_height_twips: 16838, ..TextSizes::default_body() };
    let bytes = build_docx(&vec!["<w:p/>".to_string()], sizes).expect("DOCX should build");
    assert!(bytes.starts_with(b"PK\x03\x04"));
    let package_text = String::from_utf8_lossy(&bytes);
    assert!(package_text.contains("word/document.xml"));
    assert!(package_text.contains("w:pgSz w:w=\"11906\" w:h=\"16838\""));
}

#[test]
fn renders_safe_preview_and_generates_annotated_docx() {
    let (preview, _) = render_preview_html(
        state(),
        "The glittered rose <script>alert('x')</script>.",
        PreviewOptions {
            title: "Reading Test",
            custom_annotations: "glittered=ˈɡlɪt.ərd=闪闪发光",
            annotate_unknown: true,
            grade_code: "P4",
            target_language: "zh-Hans",
            pronunciation_scheme: "ipa-us",
        },
    )
    .ok()
    .expect("preview should render");
    assert!(preview.contains("preview-page"));
    assert!(preview.contains("preview-token"));
    assert!(!preview.contains("<script>"));
    assert!(preview.contains("&lt;"));

    let result = generate_docx(
        state(),
        ARTICLE,
        "Lesson 37 The Tea Rose",
        "glittered=ˈɡlɪt.ərd=闪闪发光",
        true,
        "P4",
        "zh-Hans",
        "ipa-us",
        TextSizes::default_body(),
    );
    let (bytes, _) = result.ok().expect("generated DOCX should build");
    assert!(bytes.len() > 1_000);
}

#[test]
fn serves_only_expected_download_types() {
    assert_eq!(download_mime("article.pdf"), "application/pdf");
    assert_eq!(
        download_mime("article.docx"),
        "application/vnd.openxmlformats-officedocument.wordprocessingml.document"
    );
}

#[test]
fn opens_embedded_ui_by_default_on_windows() {
    assert!(should_use_embedded_ui(&vec!["语界精读.exe".to_string()]));
    assert!(!should_use_embedded_ui(&vec!["语界精读.exe".to_string(), "--browser".to_string()]));
    assert!(!should_use_embedded_ui(&vec!["语界精读.exe".to_string(), "--native".to_string()]));
    assert!(!should_use_embedded_ui(&vec!["语界精读.exe".to_string(), "--no-open".to_string()]));
}
