use cijing_reader::custom::parse_custom_annotations;
use cijing_reader::lookup::{lookup_generated_ipa, lookup_generated_translation};
use cijing_reader::meaning::{compact_translation, contains_inflection_note};
use cijing_reader::normalize::{candidate_lemmas, key_variants, normalize_key, normalize_title};
use cijing_reader::pronounce::{arpabet_to_ipa, format_pronunciation};
use cijing_reader::state::AppState;
use cijing_reader::tokens::{is_word_token, tokenize};
use std::sync::OnceLock;

const PROFILES: &str = "P1\t小学\t800\t5\t6\t基础\nP2\t初中\t1600\t6\t7\t常用\nP4\t大学\t4500\t8\t9\t学术\n";
const TIERS: &str = "P1\tthe a\nP2\tgarden\tflower\n";
const ECDICT: &str = "beautiful\tadj. 美丽的, 美好的\nrose\t[网络] 玫瑰（复数 roses）；蔷薇\n\
roses\tn. rose的复数\ngone\tv. go的过去分词\ngo\tv. 去, 走\nmoon\tn. moon; the satellite\n";
const CMUDICT: &str = ";;; dictionary\nZEBRA  Z IY1 B R AH1\nZEBRA(1)  Z IY1 B R AH0\nROSE  R OW1 Z\n\
ICE  AY1 S\nCREAM  K R IY1 M\n";

fn state() -> &'static AppState {
    static STATE: OnceLock<AppState> = OnceLock::new();
    STATE.get_or_init(|| {
        AppState::load(PROFILES, TIERS, "", "", ECDICT.as_bytes(), CMUDICT.as_bytes()).ok().expect("tables load")
    })
}

fn strings(items: &[&str]) -> Vec<String> {
    items.iter().map(|item| item.to_string()).collect()
}

#[test]
fn lemmas_of_inflected_words() {
    assert_eq!(candidate_lemmas("running"), strings(&["running", "runn", "runne", "run"]));
    assert_eq!(candidate_lemmas("Studies"), strings(&["studies", "studie", "studi", "study"]));
    assert_eq!(candidate_lemmas("Mary's"), strings(&["mary's", "mary"]));
    assert_eq!(key_variants("Well-Known"), strings(&["well-known", "well known", "wellknown"]));
    assert_eq!(normalize_key("  “Ice—Cream”  "), "ice-cream");
    assert_eq!(normalize_key("42"), "");
    for raw in ["  “Ice—Cream”  ", "Well   Known!!", "‘Tis\tthe   SEASON", "x"] {
        let key = normalize_key(raw);
        assert_eq!(normalize_key(&key), key);
    }
    assert_eq!(normalize_key("Well   Known!!"), "well known");
    assert_eq!(normalize_title("Lesson 37: The Tea-Rose!"), "lesson 37 the tea rose");
}

#[test]
fn tokens_keep_every_character() {
    let tokens = tokenize("Well-known rock'n'roll, 1999!  ok-");
    assert_eq!(
        tokens,
        strings(&["Well-known", " ", "rock'n'roll", ",", " ", "1999", "!", "  ", "ok", "-"])
    );
    assert_eq!(tokens.concat(), "Well-known rock'n'roll, 1999!  ok-");
    assert!(is_word_token("rock'n'roll"));
    assert!(!is_word_token("1999"));
    assert!(!is_word_token("-ok"));
}

#[test]
fn custom_annotation_lines() {
    let (entries, forced, ignored) =
        parse_custom_annotations("rose|rəʊz|玫瑰\nfoo:bar\n*glow\nsun, moon；star\n!a b");
    assert_eq!(entries.len(), 1);
    assert_eq!((entries[0].term.as_str(), entries[0].ipa.as_str(), entries[0].zh.as_str()), ("rose", "rəʊz", "玫瑰"));
    assert!(entries[0].hard);
    assert_eq!(forced, strings(&["foo", "glow", "sun", "moon", "star"]));
    assert_eq!(ignored, strings(&["a", "b"]));
    let (entries, forced, ignored) = parse_custom_annotations("   ");
    assert!(entries.is_empty() && forced.is_empty() && ignored.is_empty());
}

#[test]
fn arpabet_becomes_ipa_with_stress_before_the_syllable() {
    let phones = strings(&["B", "Y", "UW1", "T", "AH0", "F", "AH0", "L"]);
    assert_eq!(arpabet_to_ipa(&phones), "ˈbjutəfəl");
    assert_eq!(arpabet_to_ipa(&strings(&["R", "OW1", "Z"])), "ˈroʊz");
    assert_eq!(arpabet_to_ipa(&strings(&["K", "AH2", "N", "T", "R", "IY1", "XX"])), "ˌkʌˈntri");
}

#[test]
fn pronunciation_schemes_give_exact_forms() {
    let source = "/ˈbjutəfəl/";
    assert_eq!(format_pronunciation(source, "ipa-us"), "(ˈbjutəfəl)");
    assert_eq!(format_pronunciation(source, "ipa-uk"), "(ˈbjuːtəfəl)");
    assert_eq!(format_pronunciation(source, "ipa"), "(ˈbjutəfəl)");
    assert_eq!(format_pronunciation(source, "target-friendly"), "('byootuhfuhl)");
    assert_eq!(format_pronunciation(source, "syllable"), "(ˈbju·tə·fəl)");
    assert_eq!(format_pronunciation("ˈwɝkɚ", "ipa"), "(ˈwɜrkər)");
    assert_eq!(format_pronunciation("ˈwɝkɚ", "ipa-uk"), "(ˈwɜːkə)");
    assert_eq!(format_pronunciation("[ ]", "ipa-us"), "");
}

#[test]
fn meanings_are_compacted() {
    assert_eq!(compact_translation("adj. 美丽的, 美好的", 10), "美丽的");
    assert_eq!(compact_translation("n. rose; a flower", 10), "rose");
    assert_eq!(compact_translation("[网络] 玫瑰（复数 roses）；蔷薇", 10), "玫瑰");
    assert_eq!(compact_translation("一二三四五六七八九十十一", 10), "一二三四五六七八九十");
    assert!(contains_inflection_note("Past Tense of go"));
    assert!(!contains_inflection_note("flower"));
}

#[test]
fn offline_meanings_prefer_the_word_over_its_inflection_note() {
    assert_eq!(lookup_generated_translation(state(), "beautiful").as_deref(), Some("美丽的"));
    // "roses" is only noted as a plural, and the meaning of "rose" notes a
    // plural too, so the note of the word itself is kept.
    assert_eq!(lookup_generated_translation(state(), "roses").as_deref(), Some("的复数"));
    assert_eq!(lookup_generated_translation(state(), "gone").as_deref(), Some("的过去分词"));
    assert_eq!(lookup_generated_translation(state(), "moon").as_deref(), Some("moon"));
    assert_eq!(lookup_generated_translation(state(), "zzz"), None);
}

#[test]
fn generated_pronunciations_pick_one_primary_stress() {
    assert_eq!(lookup_generated_ipa(state(), "zebra").as_deref(), Some("ˈzibrə"));
    assert_eq!(lookup_generated_ipa(state(), "roses").as_deref(), Some("ˈroʊz"));
    assert_eq!(lookup_generated_ipa(state(), "ice-cream").as_deref(), Some("ˈaɪs.ˈkrim"));
    assert_eq!(lookup_generated_ipa(state(), "ice-zzz"), None);
}

#[test]
fn known_words_add_up_by_grade() {
    let p1 = state().known_words.get("P1").expect("P1 words");
    let p2 = state().known_words.get("P2").expect("P2 words");
    let p4 = state().known_words.get("P4").expect("P4 words");
    assert!(p1.contains("the") && !p1.contains("garden"));
    assert!(p2.contains("the") && p2.contains("garden") && p2.contains("flower"));
    assert!(p4.contains("the") && p4.contains("garden"));
    assert_eq!(state().profile("P3").code, "P4");
}

#[test]
fn lookups_without_offline_meanings_leave_the_meaning_blank() {
    let mut lexicon = cijing_reader::lexicon::Lexicon::new();
    assert!(cijing_reader::lookup::lookup_entry(state(), "beautiful", &mut lexicon, false, true).is_none());
    let mut lexicon = cijing_reader::lexicon::Lexicon::new();
    let entry = cijing_reader::lookup::lookup_entry(state(), "roses", &mut lexicon, false, true)
        .expect("the pronunciation dictionary knows the word");
    assert_eq!((entry.term.as_str(), entry.ipa.as_str(), entry.zh.as_str()), ("roses", "ˈroʊz", ""));
    let mut lexicon = cijing_reader::lexicon::Lexicon::new();
    let entry = cijing_reader::lookup::lookup_entry(state(), "roses", &mut lexicon, true, false)
        .expect("the offline dictionary knows the word");
    assert_eq!((entry.ipa.as_str(), entry.zh.as_str()), ("", "的复数"));
}

#[test]
fn hard_terms_are_annotated_and_known_words_stay_plain() {
    let (_, hard, profile, known) = cijing_reader::annotate::annotation_context(state(), "*the\n!moon", "P1", "zh-Hans")
        .ok()
        .expect("context");
    let (_, no_hard, _, _) =
        cijing_reader::annotate::annotation_context(state(), "", "P1", "zh-Hans").ok().expect("context");
    let annotate = |word: &str, forced: bool| {
        let terms = if forced { &hard } else { &no_hard };
        cijing_reader::lookup::should_annotate_word(state(), word, None, terms, profile, &known)
    };
    assert!(annotate("the", true));
    assert!(!annotate("the", false));
    assert!(!annotate("moon", false));
    assert!(annotate("ubiquitous", false));
    assert!(!annotate("tiny", false));
}

#[test]
fn keys_have_the_shape_of_a_dictionary_key() {
    for raw in ["  “Ice—Cream”  ", "Well \t\n Known!!", "‘Tis the SEASON’", "42 x", "\"Quoted\" – dash", "!!"] {
        let key = normalize_key(raw);
        let chars: Vec<char> = key.chars().collect();
        if let (Some(first), Some(last)) = (chars.first(), chars.last()) {
            assert!(first.is_ascii_lowercase() && last.is_ascii_lowercase(), "{key:?}");
        }
        for (i, c) in chars.iter().enumerate() {
            assert!(!c.is_ascii_uppercase());
            assert!(!['’', '‘', '“', '”', '"', '‐', '‑', '‒', '–', '—', '―'].contains(c));
            if c.is_whitespace() {
                assert_eq!(*c, ' ');
                assert!(i > 0 && i + 1 < chars.len());
                assert!(!chars[i - 1].is_whitespace() && !chars[i + 1].is_whitespace());
            }
        }
    }
    assert_eq!(normalize_key("Well \t\n Known!!"), "well known");
    assert_eq!(normalize_key("‘Tis the SEASON’"), "tis the season");
}

#[test]
fn neighbouring_tokens_differ_in_kind() {
    let text = "Hello,  world 42abc 7 x-ray!! ";
    let tokens = tokenize(text);
    assert_eq!(tokens.concat(), text);
    for t in &tokens {
        assert!(!t.is_empty());
        let starts_alpha = t.chars().next().is_some_and(|c| c.is_ascii_alphabetic());
        assert_eq!(is_word_token(t), starts_alpha, "{t:?}");
    }
    for pair in tokens.windows(2) {
        let alpha = |t: &String| t.chars().next().is_some_and(|c| c.is_ascii_alphabetic());
        let ws = |t: &String| t.chars().all(char::is_whitespace);
        let digits = |t: &String| t.chars().all(|c| c.is_ascii_digit());
        assert!(!(alpha(&pair[0]) && alpha(&pair[1])));
        assert!(!(ws(&pair[0]) && ws(&pair[1])));
        assert!(!(digits(&pair[0]) && digits(&pair[1])));
    }
}
