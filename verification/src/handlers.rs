//! The answers of the reader's API: grade profiles, dictionary lookups,
//! previews, Word documents, and the first and last steps of the built-in
//! translation.
use vstd::prelude::*;
use crate::custom::join;
use crate::decimal::{decimal, push_decimal};
use crate::escape::{json_escape, spec_json_escape};
use crate::json::{json_bool, json_string, spec_json_bool, spec_json_string, spec_json_string_panics};
use crate::lexicon::{entry_view, EntryView};
use crate::lookup::{lookup_entry, spec_lookup_entry};
use crate::normalize::{byte_len, candidate_lemmas, spec_candidate_lemmas};
use crate::pronounce::{
    format_pronunciation, normalize_pronunciation_source, push_str, spec_format_pronunciation,
    spec_normalize_pronunciation_source,
};
use crate::state::{profile_view, AppState, ProfileView};
use crate::text::{chars_of, owned, push_char, str_eq, string_of, trim, trim_chars};

verus! {

// ---------------------------------------------------------------------------
// Grade profiles
// ---------------------------------------------------------------------------

/// One profile as JSON.
pub open spec fn profile_json(p: ProfileView) -> Seq<char> {
    "{\"code\":\""@ + spec_json_escape(p.code) + "\",\"label\":\""@ + spec_json_escape(p.label)
        + "\",\"estimated_vocab\":"@ + decimal(p.estimated_vocab) + ",\"note\":\""@ + spec_json_escape(
        p.note,
    ) + "\"}"@
}

/// The profiles as JSON, with `P4` as the default grade.
pub open spec fn spec_profiles_json(ps: Seq<ProfileView>) -> Seq<char> {
    "{\"profiles\":["@ + join(ps.map_values(|p: ProfileView| profile_json(p)), seq![','])
        + "],\"default_grade\":\"P4\"}"@
}

/// The grade profiles as JSON, with `P4` as the default grade.
pub fn profiles_json(state: &AppState) -> (r: String)
    ensures
        r@ == spec_profiles_json(state.profiles_v()),
{
    let ghost pv = state.profiles_v();
    let mut items: Vec<String> = Vec::new();
    let mut i: usize = 0;
    while i < state.profiles.len()
        invariant
            i <= state.profiles@.len(),
            pv == state.profiles_v(),
            items.deep_view() == pv.take(i as int).map_values(|p: ProfileView| profile_json(p)),
        decreases state.profiles@.len() - i,
    {
        let p = &state.profiles[i];
        let mut item = owned("{\"code\":\"");
        push_str(&mut item, json_escape(p.code.as_str()).as_str());
        push_str(&mut item, "\",\"label\":\"");
        push_str(&mut item, json_escape(p.label.as_str()).as_str());
        push_str(&mut item, "\",\"estimated_vocab\":");
        push_decimal(&mut item, p.estimated_vocab as u64);
        push_str(&mut item, ",\"note\":\"");
        push_str(&mut item, json_escape(p.note.as_str()).as_str());
        push_str(&mut item, "\"}");
        assert(pv[i as int] == profile_view(*p));
        assert(item@ =~= profile_json(pv[i as int]));
        let ghost before = items.deep_view();
        items.push(item);
        assert(items.deep_view() =~= before.push(profile_json(pv[i as int])));
        assert(pv.take(i + 1).map_values(|p: ProfileView| profile_json(p)) =~= pv.take(i as int).map_values(
            |p: ProfileView| profile_json(p),
        ).push(profile_json(pv[i as int])));
        i += 1;
    }
    assert(pv.take(state.profiles@.len() as int) =~= pv);
    let joined = crate::custom::join_strings(&items, ',');
    let mut out = owned("{\"profiles\":[");
    push_str(&mut out, joined.as_str());
    push_str(&mut out, "],\"default_grade\":\"P4\"}");
    assert(out@ =~= spec_profiles_json(pv));
    out
}

// ---------------------------------------------------------------------------
// Reading a request
// ---------------------------------------------------------------------------

/// Whether the fields a dictionary request reads can be read from `body`
/// without cutting a character: the word, the target language and the
/// pronunciation scheme.
pub open spec fn dictionary_body_clean(body: Seq<char>) -> bool {
    &&& !spec_json_string_panics(body, "word"@)
    &&& !spec_json_string_panics(body, "targetLanguage"@)
    &&& !spec_json_string_panics(body, "pronunciationScheme"@)
}

/// Whether the fields a preview or document request reads can be read from
/// `body`: the article, title, grade, custom words, target language and
/// pronunciation scheme.
pub open spec fn document_body_clean(body: Seq<char>) -> bool {
    &&& !spec_json_string_panics(body, "article"@)
    &&& !spec_json_string_panics(body, "title"@)
    &&& !spec_json_string_panics(body, "grade"@)
    &&& !spec_json_string_panics(body, "customWords"@)
    &&& !spec_json_string_panics(body, "targetLanguage"@)
    &&& !spec_json_string_panics(body, "pronunciationScheme"@)
}

/// Whether the fields a translation request reads can be read from `body`:
/// the article, grade, custom words and target language.
pub open spec fn translation_body_clean(body: Seq<char>) -> bool {
    &&& !spec_json_string_panics(body, "article"@)
    &&& !spec_json_string_panics(body, "grade"@)
    &&& !spec_json_string_panics(body, "customWords"@)
    &&& !spec_json_string_panics(body, "targetLanguage"@)
}

/// Whether a dictionary request's fields can be read.
pub fn dictionary_reads_cleanly(body: &str) -> (r: bool)
    ensures
        r == dictionary_body_clean(body@),
{
    !crate::json::json_string_panics(body, "word") && !crate::json::json_string_panics(body, "targetLanguage")
        && !crate::json::json_string_panics(body, "pronunciationScheme")
}

/// Whether a preview or document request's fields can be read.
pub fn document_reads_cleanly(body: &str) -> (r: bool)
    ensures
        r == document_body_clean(body@),
{
    !crate::json::json_string_panics(body, "article") && !crate::json::json_string_panics(body, "title")
        && !crate::json::json_string_panics(body, "grade") && !crate::json::json_string_panics(
        body,
        "customWords",
    ) && !crate::json::json_string_panics(body, "targetLanguage") && !crate::json::json_string_panics(
        body,
        "pronunciationScheme",
    )
}

/// Whether a translation request's fields can be read.
pub fn translation_reads_cleanly(body: &str) -> (r: bool)
    ensures
        r == translation_body_clean(body@),
{
    !crate::json::json_string_panics(body, "article") && !crate::json::json_string_panics(body, "grade")
        && !crate::json::json_string_panics(body, "customWords") && !crate::json::json_string_panics(
        body,
        "targetLanguage",
    )
}

/// Whether a preview can choose its grade: the article is blank, or the
/// grade asked for (`P4` by default) or else `P4` is a profile.
pub open spec fn preview_profile_ok(state: AppState, body: Seq<char>) -> bool {
    ||| trim(field_or(body, "article"@, seq![])).len() == 0
    ||| state.has_profile(field_or(body, "grade"@, "P4"@))
    ||| state.has_profile("P4"@)
}

/// Whether a translation can choose its grade: the article is blank, the
/// target is simplified Chinese, or the grade asked for or else `P4` is a
/// profile.
pub open spec fn translation_profile_ok(state: AppState, body: Seq<char>) -> bool {
    ||| trim(field_or(body, "article"@, seq![])).len() == 0
    ||| crate::language::spec_target_language(body) == "zh-Hans"@
    ||| state.has_profile(field_or(body, "grade"@, "P4"@))
    ||| state.has_profile("P4"@)
}

/// A string field, or a default where it is absent.
pub open spec fn field_or(body: Seq<char>, key: Seq<char>, default: Seq<char>) -> Seq<char> {
    match spec_json_string(body, key) {
        Some(v) => v,
        None => default,
    }
}

fn string_field_or(body: &str, key: &str, default: &str) -> (r: String)
    requires
        !spec_json_string_panics(body@, key@),
    ensures
        r@ == field_or(body@, key@, default@),
{
    match json_string(body, key) {
        Some(v) => v,
        None => owned(default),
    }
}

/// The request's choice of annotating unknown words, yes by default.
pub open spec fn annotate_unknown_of(body: Seq<char>) -> bool {
    match spec_json_bool(body, "annotateUnknown"@) {
        Some(b) => b,
        None => true,
    }
}

fn annotate_unknown_field(body: &str) -> (r: bool)
    ensures
        r == annotate_unknown_of(body@),
{
    match json_bool(body, "annotateUnknown") {
        Some(b) => b,
        None => true,
    }
}

/// An error answer.
pub open spec fn error_json(message: Seq<char>) -> Seq<char> {
    "{\"error\":\""@ + spec_json_escape(message) + "\"}"@
}

fn error_response(message: &str) -> (r: String)
    ensures
        r@ == error_json(message@),
{
    let mut out = owned("{\"error\":\"");
    push_str(&mut out, json_escape(message).as_str());
    push_str(&mut out, "\"}");
    assert(out@ =~= error_json(message@));
    out
}

// ---------------------------------------------------------------------------
// Dictionary lookups
// ---------------------------------------------------------------------------

/// `items` each once, in the order of first appearance.
pub open spec fn first_occurrences(items: Seq<Seq<char>>) -> Seq<Seq<char>>
    decreases items.len(),
{
    if items.len() == 0 {
        seq![]
    } else {
        let acc = first_occurrences(items.drop_last());
        if acc.contains(items.last()) {
            acc
        } else {
            acc.push(items.last())
        }
    }
}

/// A list of strings as JSON strings joined by commas.
pub open spec fn quoted_list(items: Seq<Seq<char>>) -> Seq<char> {
    join(items.map_values(|f: Seq<char>| seq!['"'] + spec_json_escape(f) + seq!['"']), seq![','])
}

/// The answer of a dictionary lookup: the entry's term, its pronunciation
/// in the requested scheme and its meaning, with the word's forms; or the
/// forms alone where nothing is found; an error for an empty word or one
/// longer than 120 bytes.
pub open spec fn spec_handle_dictionary(state: AppState, body: Seq<char>) -> (u16, Seq<char>) {
    let word = trim(field_or(body, "word"@, seq![]));
    let target = crate::language::spec_target_language(body);
    let scheme = crate::language::spec_pronunciation_scheme(body);
    if word.len() == 0 || byte_len(word) > 120 {
        (400, "{\"error\":\"请输入需要查询的英文单词\"}"@)
    } else {
        let forms = first_occurrences(spec_candidate_lemmas(word));
        let lex = crate::annotate::base_lexicon(state.seed_lexicon.view_map(), target);
        match spec_lookup_entry(
            state.pronunciations_v(),
            state.translations_v(),
            lex,
            word,
            target == "zh-Hans"@,
            true,
        ) {
            Some(e) => {
                let all_forms = if forms.contains(e.term) {
                    forms
                } else {
                    seq![e.term] + forms
                };
                let ipa = spec_normalize_pronunciation_source(spec_format_pronunciation(e.ipa, scheme));
                (
                    200,
                    "{\"ok\":true,\"found\":true,\"word\":\""@ + spec_json_escape(word)
                        + "\",\"term\":\""@ + spec_json_escape(e.term) + "\",\"ipa\":\""@
                        + spec_json_escape(ipa) + "\",\"definition\":\""@ + spec_json_escape(e.zh)
                        + "\",\"forms\":["@ + quoted_list(all_forms) + "]}"@,
                )
            },
            None => (
                200,
                "{\"ok\":true,\"found\":false,\"word\":\""@ + spec_json_escape(word) + "\",\"forms\":["@
                    + quoted_list(forms) + "]}"@,
            ),
        }
    }
}

fn unique_forms(cands: &Vec<String>) -> (r: Vec<String>)
    ensures
        r.deep_view() == first_occurrences(cands.deep_view()),
{
    let ghost cv = cands.deep_view();
    let mut out: Vec<String> = Vec::new();
    let mut i: usize = 0;
    assert(cv.take(0) =~= Seq::<Seq<char>>::empty());
    assert(out.deep_view() =~= Seq::<Seq<char>>::empty());
    while i < cands.len()
        invariant
            i <= cands.len(),
            cv == cands.deep_view(),
            out.deep_view() == first_occurrences(cv.take(i as int)),
        decreases cands.len() - i,
    {
        assert(cv.take(i + 1).drop_last() =~= cv.take(i as int));
        assert(cv[i as int] == cands@[i as int]@);
        let c = chars_of(cands[i].as_str());
        if !crate::normalize::contains_string(&out, &c) {
            let ghost before = out.deep_view();
            out.push(cands[i].clone());
            assert(out.deep_view() =~= before.push(c@));
        }
        i += 1;
    }
    assert(cv.take(cands.len() as int) =~= cv);
    out
}

fn quoted_forms(forms: &Vec<String>) -> (r: String)
    ensures
        r@ == quoted_list(forms.deep_view()),
{
    let ghost fv = forms.deep_view();
    let mut items: Vec<String> = Vec::new();
    let mut i: usize = 0;
    while i < forms.len()
        invariant
            i <= forms.len(),
            fv == forms.deep_view(),
            items.deep_view() == fv.take(i as int).map_values(
                |f: Seq<char>| seq!['"'] + spec_json_escape(f) + seq!['"'],
            ),
        decreases forms.len() - i,
    {
        let mut item = String::new();
        push_char(&mut item, '"');
        push_str(&mut item, json_escape(forms[i].as_str()).as_str());
        push_char(&mut item, '"');
        assert(fv[i as int] == forms@[i as int]@);
        assert(item@ =~= seq!['"'] + spec_json_escape(fv[i as int]) + seq!['"']);
        let ghost before = items.deep_view();
        let ghost iv = item@;
        items.push(item);
        assert(items.deep_view() =~= before.push(iv));
        assert(fv.take(i + 1).map_values(|f: Seq<char>| seq!['"'] + spec_json_escape(f) + seq!['"'])
            =~= fv.take(i as int).map_values(|f: Seq<char>| seq!['"'] + spec_json_escape(f) + seq!['"']).push(
            iv,
        ));
        i += 1;
    }
    assert(fv.take(forms.len() as int) =~= fv);
    crate::custom::join_strings(&items, ',')
}

/// Looks a word up for the dictionary panel: the entry of its first known
/// form (without the offline Chinese meaning unless simplified Chinese is
/// the target), its pronunciation in the requested scheme, and its forms.
pub fn handle_dictionary(state: &AppState, body: &str) -> (r: (u16, String))
    requires
        state.wf(),
        dictionary_body_clean(body@),
    ensures
        (r.0, r.1@) == spec_handle_dictionary(*state, body@),
{
    let raw_word = string_field_or(body, "word", "");
    proof {
        reveal_strlit("");
    }
    assert(raw_word@ == field_or(body@, "word"@, seq![]));
    let target_language = crate::language::target_language(body);
    let scheme = crate::language::pronunciation_scheme(body);
    let wv = chars_of(raw_word.as_str());
    let word_chars = trim_chars(&wv);
    if word_chars.len() == 0 || crate::normalize::utf8_len_capped(&word_chars, 121) > 120 {
        return (400, owned("{\"error\":\"请输入需要查询的英文单词\"}"));
    }
    let word = string_of(&word_chars);
    let cands = candidate_lemmas(word.as_str());
    let mut forms = unique_forms(&cands);
    let zh_hans = str_eq(target_language.as_str(), "zh-Hans");
    let mut lexicon = state.seed_lexicon.copy(!zh_hans);
    let entry = lookup_entry(state, word.as_str(), &mut lexicon, zh_hans, true);
    match entry {
        Some(e) => {
            let formatted = format_pronunciation(e.ipa.as_str(), scheme.as_str());
            let formatted = normalize_pronunciation_source(formatted.as_str());
            let term = chars_of(e.term.as_str());
            if !crate::normalize::contains_string(&forms, &term) {
                let ghost before = forms.deep_view();
                forms.insert(0, e.term.clone());
                assert(forms.deep_view() =~= seq![term@] + before);
            }
            let forms_json = quoted_forms(&forms);
            let mut out = owned("{\"ok\":true,\"found\":true,\"word\":\"");
            push_str(&mut out, json_escape(word.as_str()).as_str());
            push_str(&mut out, "\",\"term\":\"");
            push_str(&mut out, json_escape(e.term.as_str()).as_str());
            push_str(&mut out, "\",\"ipa\":\"");
            push_str(&mut out, json_escape(formatted.as_str()).as_str());
            push_str(&mut out, "\",\"definition\":\"");
            push_str(&mut out, json_escape(e.zh.as_str()).as_str());
            push_str(&mut out, "\",\"forms\":[");
            push_str(&mut out, forms_json.as_str());
            push_str(&mut out, "]}");
            proof {
                let ev = entry_view(e);
                let ipa = spec_normalize_pronunciation_source(spec_format_pronunciation(ev.ipa, scheme@));
                assert(formatted@ == ipa);
                assert(out@ =~= "{\"ok\":true,\"found\":true,\"word\":\""@ + spec_json_escape(word@)
                    + "\",\"term\":\""@ + spec_json_escape(ev.term) + "\",\"ipa\":\""@
                    + spec_json_escape(ipa) + "\",\"definition\":\""@ + spec_json_escape(ev.zh)
                    + "\",\"forms\":["@ + quoted_list(forms.deep_view()) + "]}"@);
            }
            (200, out)
        },
        None => {
            let forms_json = quoted_forms(&forms);
            let mut out = owned("{\"ok\":true,\"found\":false,\"word\":\"");
            push_str(&mut out, json_escape(word.as_str()).as_str());
            push_str(&mut out, "\",\"forms\":[");
            push_str(&mut out, forms_json.as_str());
            push_str(&mut out, "]}");
            assert(out@ =~= "{\"ok\":true,\"found\":false,\"word\":\""@ + spec_json_escape(word@)
                + "\",\"forms\":["@ + quoted_list(forms.deep_view()) + "]}"@);
            (200, out)
        },
    }
}

// ---------------------------------------------------------------------------
// Previews
// ---------------------------------------------------------------------------

/// The answer to a request without an article.
pub open spec fn missing_article_json() -> Seq<char> {
    "{\"error\":\"\u{8bf7}先粘贴英文文章。\"}"@
}

fn missing_article() -> (r: String)
    ensures
        r@ == missing_article_json(),
{
    owned("{\"error\":\"\u{8bf7}先粘贴英文文章。\"}")
}

/// The non-empty words among `words`, as a set.
pub open spec fn filled_words(words: Seq<Seq<char>>) -> Set<Seq<char>> {
    Set::new(|s: Seq<char>| words.contains(s) && s.len() > 0)
}

/// The number of different non-empty words among `words`.
pub open spec fn missing_count(words: Seq<Seq<char>>) -> nat {
    filled_words(words).len()
}

proof fn lemma_sorted_count(sorted: Seq<Seq<char>>, words: Seq<Seq<char>>)
    requires
        crate::preview::sorts_words(sorted, words),
    ensures
        sorted.len() == missing_count(words),
{
    assert(sorted.no_duplicates()) by {
        assert forall|i: int, j: int| 0 <= i < sorted.len() && 0 <= j < sorted.len() && i != j implies sorted[i]
            != sorted[j] by {
            if i < j {
                assert(crate::preview::lex_lt(sorted[i], sorted[j]));
                crate::preview::lemma_lex_irrefl(sorted[i]);
            } else {
                assert(crate::preview::lex_lt(sorted[j], sorted[i]));
                crate::preview::lemma_lex_irrefl(sorted[j]);
            }
        }
    }
    sorted.unique_seq_to_set();
    assert(sorted.to_set() =~= filled_words(words));
}

/// The answer of a preview request: the article is required; the title,
/// custom words, grade (`P4` by default), the choice of annotating unknown
/// words (yes by default), the target language and the pronunciation scheme
/// are read; the answer holds the preview's HTML and the number of missing
/// words, or the error.
pub open spec fn spec_handle_preview(state: AppState, body: Seq<char>) -> (u16, Seq<char>) {
    let article = field_or(body, "article"@, seq![]);
    if trim(article).len() == 0 {
        (400, missing_article_json())
    } else {
        match crate::preview::spec_render_preview(
            state,
            article,
            field_or(body, "title"@, seq![]),
            field_or(body, "customWords"@, seq![]),
            annotate_unknown_of(body),
            field_or(body, "grade"@, "P4"@),
            crate::language::spec_target_language(body),
            crate::language::spec_pronunciation_scheme(body),
        ) {
            Ok((html, missing)) => (
                200,
                "{\"ok\":true,\"html\":\""@ + spec_json_escape(html) + "\",\"missingCount\":"@ + decimal(
                    missing_count(missing),
                ) + "}"@,
            ),
            Err(e) => (400, error_json(e)),
        }
    }
}

/// Answers a preview request with the article's annotated HTML and the
/// number of words that could not be annotated.
pub fn handle_preview(state: &AppState, body: &str) -> (r: (u16, String))
    requires
        state.wf(),
        document_body_clean(body@),
        preview_profile_ok(*state, body@),
    ensures
        (r.0, r.1@) == spec_handle_preview(*state, body@),
{
    proof {
        reveal_strlit("");
    }
    let article = string_field_or(body, "article", "");
    let title = string_field_or(body, "title", "");
    let grade = string_field_or(body, "grade", "P4");
    let custom_words = string_field_or(body, "customWords", "");
    let annotate_unknown = annotate_unknown_field(body);
    let target_language = crate::language::target_language(body);
    let scheme = crate::language::pronunciation_scheme(body);
    let av = chars_of(article.as_str());
    if trim_chars(&av).len() == 0 {
        return (400, missing_article());
    }
    let options = crate::preview::PreviewOptions {
        title: title.as_str(),
        custom_annotations: custom_words.as_str(),
        annotate_unknown,
        grade_code: grade.as_str(),
        target_language: target_language.as_str(),
        pronunciation_scheme: scheme.as_str(),
    };
    match crate::preview::render_preview_html(state, article.as_str(), options) {
        Ok((html, missing)) => {
            let mut out = owned("{\"ok\":true,\"html\":\"");
            push_str(&mut out, json_escape(html.as_str()).as_str());
            push_str(&mut out, "\",\"missingCount\":");
            push_decimal(&mut out, missing.len() as u64);
            push_str(&mut out, "}");
            proof {
                let (h, m) = crate::preview::spec_render_preview(
                    *state,
                    article@,
                    title@,
                    custom_words@,
                    annotate_unknown,
                    grade@,
                    target_language@,
                    scheme@,
                )->Ok_0;
                lemma_sorted_count(missing.deep_view(), m);
                assert(out@ =~= "{\"ok\":true,\"html\":\""@ + spec_json_escape(h) + "\",\"missingCount\":"@
                    + decimal(missing_count(m)) + "}"@);
            }
            (200, out)
        },
        Err(e) => (400, error_response(e.as_str())),
    }
}

// ---------------------------------------------------------------------------
// The built-in translation, first and last steps
// ---------------------------------------------------------------------------

/// What a translation request needs: an answer now, or the words to
/// translate into the target language.
pub enum TranslateStep {
    Answer(u16, String),
    Translate(String, Vec<String>),
}

/// The answer when nothing needs translating.
pub open spec fn nothing_to_translate(language: Seq<char>) -> Seq<char> {
    "{\"ok\":true,\"annotations\":\"\",\"count\":0,\"fallback\":false,\"warning\":\"\",\"reason\":\"\",\"actualLanguage\":\""@
        + spec_json_escape(language) + "\",\"retryAfterMs\":0}"@
}

fn nothing_to_translate_answer(language: &str) -> (r: String)
    ensures
        r@ == nothing_to_translate(language@),
{
    let mut out = owned(
        "{\"ok\":true,\"annotations\":\"\",\"count\":0,\"fallback\":false,\"warning\":\"\",\"reason\":\"\",\"actualLanguage\":\"",
    );
    push_str(&mut out, json_escape(language).as_str());
    push_str(&mut out, "\",\"retryAfterMs\":0}");
    assert(out@ =~= nothing_to_translate(language@));
    out
}

/// The words a translation request asks to translate.
pub open spec fn requested_words(state: AppState, body: Seq<char>) -> Seq<Seq<char>> {
    let article = field_or(body, "article"@, seq![]);
    let custom = field_or(body, "customWords"@, seq![]);
    let profile = state.chosen_profile(field_or(body, "grade"@, "P4"@));
    let lex = crate::annotate::context_lexicon(state.seed_lexicon.view_map(), custom, "zh-Hans"@);
    let env = crate::translate::CandidateEnv {
        pron: state.pronunciations_v(),
        trs: state.translations_v(),
        basic: state.basic_words@,
        hard: crate::annotate::context_hard_terms(lex, custom),
        profile,
        known: state.known_v()[profile.code].union(crate::annotate::context_ignored(custom)),
        manual: crate::translate::manual_terms(custom),
    };
    let st0 = crate::translate::CandidateState {
        lex,
        order: crate::annotate::add_entries_order(
            state.seed_lexicon.key_order(),
            crate::custom::spec_parse_custom_annotations(custom).0,
        ),
        words: seq![],
        done: false,
    };
    crate::translate::candidate_steps(env, st0, crate::tokens::spec_tokenize(article)).words
}

/// Handles a translation request up to the translation itself: the article
/// is required; simplified Chinese needs no translation; else the words to
/// translate are chosen, and an article without such words needs none.
pub fn handle_builtin_translate(state: &AppState, body: &str) -> (r: TranslateStep)
    requires
        state.wf(),
        translation_body_clean(body@),
        translation_profile_ok(*state, body@),
    ensures
        ({
            let article = field_or(body@, "article"@, seq![]);
            let target = crate::language::spec_target_language(body@);
            let profile = state.chosen_profile(field_or(body@, "grade"@, "P4"@));
            if trim(article).len() == 0 {
                r matches TranslateStep::Answer(s, m) && s == 400 && m@ == missing_article_json()
            } else if target == "zh-Hans"@ {
                r matches TranslateStep::Answer(s, m) && s == 200 && m@ == nothing_to_translate("zh-Hans"@)
            } else if !state.known_v().contains_key(profile.code) {
                r matches TranslateStep::Answer(s, m) && s == 400 && m@ == error_json("年级配置不可用。"@)
            } else if requested_words(*state, body@).len() == 0 {
                r matches TranslateStep::Answer(s, m) && s == 200 && m@ == nothing_to_translate(target)
            } else {
                r matches TranslateStep::Translate(t, w) && t@ == target && w.deep_view() == requested_words(
                    *state,
                    body@,
                )
            }
        }),
{
    proof {
        reveal_strlit("");
    }
    let article = string_field_or(body, "article", "");
    let grade = string_field_or(body, "grade", "P4");
    let custom_words = string_field_or(body, "customWords", "");
    let target_language = crate::language::target_language(body);
    let av = chars_of(article.as_str());
    if trim_chars(&av).len() == 0 {
        return TranslateStep::Answer(400, missing_article());
    }
    if str_eq(target_language.as_str(), "zh-Hans") {
        return TranslateStep::Answer(200, nothing_to_translate_answer("zh-Hans"));
    }
    let words = match crate::translate::builtin_translation_candidates(
        state,
        article.as_str(),
        custom_words.as_str(),
        grade.as_str(),
    ) {
        Ok(w) => w,
        Err(e) => return TranslateStep::Answer(400, error_response(e.as_str())),
    };
    if words.len() == 0 {
        return TranslateStep::Answer(200, nothing_to_translate_answer(target_language.as_str()));
    }
    TranslateStep::Translate(target_language, words)
}

/// The answer of a translation request from its outcome.
pub open spec fn spec_translate_answer(o: (Seq<char>, bool, Seq<char>, Seq<char>, Seq<char>, u64)) -> Seq<char> {
    "{\"ok\":true,\"annotations\":\""@ + spec_json_escape(o.0) + "\",\"count\":"@ + decimal(
        crate::translate::count_filled(crate::tokens::spec_lines(o.0)),
    ) + ",\"fallback\":"@ + (if o.1 {
        "true"@
    } else {
        "false"@
    }) + ",\"warning\":\""@ + spec_json_escape(o.2) + "\",\"reason\":\""@ + spec_json_escape(o.3)
        + "\",\"actualLanguage\":\""@ + spec_json_escape(o.4) + "\",\"retryAfterMs\":"@ + decimal(
        o.5 as nat,
    ) + "}"@
}

/// Answers a translation request with the outcome of the translation: the
/// annotations and their number of filled lines, whether it fell back, the
/// warning and reason, the language used, and when to try again.
pub fn builtin_translate_answer(outcome: &crate::translate::BuiltinTranslationOutcome) -> (r: (u16, String))
    ensures
        r.0 == 200,
        r.1@ == spec_translate_answer(crate::translate::outcome_view(*outcome)),
{
    let count = crate::translate::count_filled_lines(outcome.annotations.as_str());
    let mut out = owned("{\"ok\":true,\"annotations\":\"");
    push_str(&mut out, json_escape(outcome.annotations.as_str()).as_str());
    push_str(&mut out, "\",\"count\":");
    push_decimal(&mut out, count as u64);
    push_str(&mut out, ",\"fallback\":");
    let ghost mid = out@;
    if outcome.fallback {
        push_str(&mut out, "true");
    } else {
        push_str(&mut out, "false");
    }
    push_str(&mut out, ",\"warning\":\"");
    push_str(&mut out, json_escape(outcome.warning.as_str()).as_str());
    push_str(&mut out, "\",\"reason\":\"");
    push_str(&mut out, json_escape(outcome.reason.as_str()).as_str());
    push_str(&mut out, "\",\"actualLanguage\":\"");
    push_str(&mut out, json_escape(outcome.actual_language.as_str()).as_str());
    push_str(&mut out, "\",\"retryAfterMs\":");
    push_decimal(&mut out, outcome.retry_after_ms);
    push_str(&mut out, "}");
    assert(out@ =~= spec_translate_answer(crate::translate::outcome_view(*outcome)));
    (200, out)
}

// ---------------------------------------------------------------------------
// Generated documents, first and last steps
// ---------------------------------------------------------------------------

/// What a document request asks for, read from its body.
pub struct GenerateRequest {
    pub article: String,
    pub title: String,
    pub grade: String,
    pub custom_words: String,
    pub annotate_unknown: bool,
    pub target_language: String,
    pub pronunciation_scheme: String,
    pub filename: String,
}

/// What a document request needs: an answer now, or the document to make.
pub enum GenerateStep {
    Answer(u16, String),
    Generate(GenerateRequest),
}

/// The name of a generated file: the title (or `annotated_article`) as a
/// file name, the unique ending, and the extension.
pub open spec fn generated_filename(title: Seq<char>, suffix: Seq<char>, extension: Seq<char>) -> Seq<char> {
    let base = if trim(title).len() == 0 {
        "annotated_article"@
    } else {
        title
    };
    crate::web::spec_safe_title(base) + seq!['_'] + suffix + seq!['.'] + extension
}

/// Whether a step reads a document request correctly.
pub open spec fn generate_step_of(body: Seq<char>, suffix: Seq<char>, extension: Seq<char>, r: GenerateStep) -> bool {
    let article = field_or(body, "article"@, seq![]);
    if trim(article).len() == 0 {
        r matches GenerateStep::Answer(s, m) && s == 400 && m@ == missing_article_json()
    } else {
        r matches GenerateStep::Generate(q) && {
            &&& q.article@ == article
            &&& q.title@ == field_or(body, "title"@, seq![])
            &&& q.grade@ == field_or(body, "grade"@, "P4"@)
            &&& q.custom_words@ == field_or(body, "customWords"@, seq![])
            &&& q.annotate_unknown == annotate_unknown_of(body)
            &&& q.target_language@ == crate::language::spec_target_language(body)
            &&& q.pronunciation_scheme@ == crate::language::spec_pronunciation_scheme(body)
            &&& q.filename@ == generated_filename(field_or(body, "title"@, seq![]), suffix, extension)
        }
    }
}

/// The name of a generated file: the title, or `annotated_article` where it
/// is blank, made safe as a file name, then `_`, the unique ending, a dot
/// and the extension.
pub fn generated_file_name(title: &str, suffix: &str, extension: &str) -> (r: String)
    ensures
        r@ == generated_filename(title@, suffix@, extension@),
{
    let tv = chars_of(title);
    let base = if trim_chars(&tv).len() == 0 {
        crate::web::safe_title("annotated_article")
    } else {
        crate::web::safe_title(title)
    };
    let mut filename = base;
    push_char(&mut filename, '_');
    push_str(&mut filename, suffix);
    push_char(&mut filename, '.');
    push_str(&mut filename, extension);
    assert(filename@ =~= generated_filename(title@, suffix@, extension@));
    filename
}

fn generation_step(body: &str, suffix: &str, extension: &str) -> (r: GenerateStep)
    requires
        document_body_clean(body@),
    ensures
        generate_step_of(body@, suffix@, extension@, r),
{
    proof {
        reveal_strlit("");
    }
    let article = string_field_or(body, "article", "");
    let title = string_field_or(body, "title", "");
    let grade = string_field_or(body, "grade", "P4");
    let custom_words = string_field_or(body, "customWords", "");
    let annotate_unknown = annotate_unknown_field(body);
    let target_language = crate::language::target_language(body);
    let scheme = crate::language::pronunciation_scheme(body);
    let av = chars_of(article.as_str());
    if trim_chars(&av).len() == 0 {
        return GenerateStep::Answer(400, missing_article());
    }
    let filename = generated_file_name(title.as_str(), suffix, extension);
    assert(article@ == field_or(body@, "article"@, seq![]));
    assert(title@ == field_or(body@, "title"@, seq![]));
    assert(grade@ == field_or(body@, "grade"@, "P4"@));
    assert(custom_words@ == field_or(body@, "customWords"@, seq![]));
    assert(trim(article@).len() != 0);
    GenerateStep::Generate(
        GenerateRequest {
            article,
            title,
            grade,
            custom_words,
            annotate_unknown,
            target_language,
            pronunciation_scheme: scheme,
            filename,
        },
    )
}

/// Reads a request for a Word document: an answer for a missing article,
/// else what to make and the file name, ending in `suffix` and `.docx`.
pub fn handle_generate_docx(body: &str, suffix: &str) -> (r: GenerateStep)
    requires
        document_body_clean(body@),
    ensures
        generate_step_of(body@, suffix@, "docx"@, r),
{
    generation_step(body, suffix, "docx")
}

/// Reads a request for a PDF document: an answer for a missing article,
/// else what to make and the file name, ending in `suffix` and `.pdf`.
pub fn handle_generate_pdf(body: &str, suffix: &str) -> (r: GenerateStep)
    requires
        document_body_clean(body@),
    ensures
        generate_step_of(body@, suffix@, "pdf"@, r),
{
    generation_step(body, suffix, "pdf")
}

/// The answer for a generated file: its name, where to download it, and
/// how many words could not be annotated; or the error.
pub open spec fn spec_generated_answer(filename: Seq<char>, result: Result<nat, Seq<char>>) -> (u16, Seq<char>) {
    match result {
        Ok(count) => (
            200,
            "{\"ok\":true,\"filename\":\""@ + spec_json_escape(filename) + "\",\"downloadUrl\":\""@
                + spec_json_escape("/download/"@ + crate::escape::spec_url_encode(filename))
                + "\",\"missingCount\":"@ + decimal(count) + "}"@,
        ),
        Err(e) => (400, error_json(e)),
    }
}

/// Answers a document request once the document is made, or could not be.
pub fn generated_answer(filename: &str, result: Result<usize, String>) -> (r: (u16, String))
    ensures
        (r.0, r.1@) == spec_generated_answer(
            filename@,
            match result {
                Ok(n) => Ok(n as nat),
                Err(e) => Err(e@),
            },
        ),
{
    match result {
        Ok(count) => {
            let mut url = owned("/download/");
            push_str(&mut url, crate::escape::url_encode(filename).as_str());
            let mut out = owned("{\"ok\":true,\"filename\":\"");
            push_str(&mut out, json_escape(filename).as_str());
            push_str(&mut out, "\",\"downloadUrl\":\"");
            push_str(&mut out, json_escape(url.as_str()).as_str());
            push_str(&mut out, "\",\"missingCount\":");
            push_decimal(&mut out, count as u64);
            push_str(&mut out, "}");
            assert(out@ =~= spec_generated_answer(filename@, Ok(count as nat)).1);
            (200, out)
        },
        Err(e) => (400, error_response(e.as_str())),
    }
}

// ---------------------------------------------------------------------------
// Routes
// ---------------------------------------------------------------------------

/// The pages and scripts the server hands out, and the demo article.
pub struct WebAssets {
    pub index_html: String,
    pub ui_language_packs_js: String,
    pub i18n_js: String,
    pub app_js: String,
    pub editor_tools_js: String,
    pub styles_css: String,
    pub brand_logo_png: Vec<u8>,
    pub demo_text: String,
}

/// What the server does with a request: answer it, or hand it to the work
/// that writes files or runs the translator.
pub enum Route {
    Respond(u16, &'static str, Vec<u8>, Vec<String>),
    GeneratePdf,
    GenerateDocx,
    BuiltinTranslate,
    Download(String),
}

/// The path of a request without its query.
pub open spec fn request_path(raw_path: Seq<char>) -> Seq<char> {
    match crate::custom::index_of(raw_path, '?') {
        Some(i) => raw_path.take(i),
        None => raw_path,
    }
}

/// The routes of the server.
pub enum RouteKind {
    Index,
    UiLanguagePacks,
    I18n,
    AppScript,
    EditorTools,
    Styles,
    Logo,
    Profiles,
    Demo,
    GeneratePdf,
    GenerateDocx,
    Preview,
    Dictionary,
    BuiltinTranslate,
    Download,
    NotFound,
}

/// Which route a method and path take.
pub open spec fn spec_route_kind(method: Seq<char>, path: Seq<char>) -> RouteKind {
    if method == "GET"@ {
        if path == "/"@ || path == "/index.html"@ {
            RouteKind::Index
        } else if path == "/ui-language-packs.js"@ {
            RouteKind::UiLanguagePacks
        } else if path == "/i18n.js"@ {
            RouteKind::I18n
        } else if path == "/app.js"@ {
            RouteKind::AppScript
        } else if path == "/editor-tools.js"@ {
            RouteKind::EditorTools
        } else if path == "/styles.css"@ {
            RouteKind::Styles
        } else if path == "/brand/logo-64.png"@ {
            RouteKind::Logo
        } else if path == "/api/profiles"@ {
            RouteKind::Profiles
        } else if path == "/api/demo"@ {
            RouteKind::Demo
        } else if crate::text::starts_with(path, "/download/"@) {
            RouteKind::Download
        } else {
            RouteKind::NotFound
        }
    } else if method == "POST"@ {
        if path == "/api/generate-pdf"@ {
            RouteKind::GeneratePdf
        } else if path == "/api/generate-docx"@ {
            RouteKind::GenerateDocx
        } else if path == "/api/preview"@ {
            RouteKind::Preview
        } else if path == "/api/dictionary"@ {
            RouteKind::Dictionary
        } else if path == "/api/builtin-translate"@ {
            RouteKind::BuiltinTranslate
        } else {
            RouteKind::NotFound
        }
    } else {
        RouteKind::NotFound
    }
}

/// Which route a request takes.
pub fn route_kind(method: &str, raw_path: &str) -> (r: RouteKind)
    ensures
        r == spec_route_kind(method@, request_path(raw_path@)),
{
    let v = chars_of(raw_path);
    let pv = match crate::custom::find_char(&v, '?') {
        Some(i) => crate::custom::sub_vec(&v, 0, i),
        None => v,
    };
    proof {
        if let Some(i) = crate::custom::index_of(raw_path@, '?') {
            assert(raw_path@.subrange(0, i) =~= raw_path@.take(i));
        }
    }
    let path = string_of(&pv);
    let p = path.as_str();
    if str_eq(method, "GET") {
        if str_eq(p, "/") || str_eq(p, "/index.html") {
            RouteKind::Index
        } else if str_eq(p, "/ui-language-packs.js") {
            RouteKind::UiLanguagePacks
        } else if str_eq(p, "/i18n.js") {
            RouteKind::I18n
        } else if str_eq(p, "/app.js") {
            RouteKind::AppScript
        } else if str_eq(p, "/editor-tools.js") {
            RouteKind::EditorTools
        } else if str_eq(p, "/styles.css") {
            RouteKind::Styles
        } else if str_eq(p, "/brand/logo-64.png") {
            RouteKind::Logo
        } else if str_eq(p, "/api/profiles") {
            RouteKind::Profiles
        } else if str_eq(p, "/api/demo") {
            RouteKind::Demo
        } else if crate::text::chars_starts_with(&pv, "/download/") {
            RouteKind::Download
        } else {
            RouteKind::NotFound
        }
    } else if str_eq(method, "POST") {
        if str_eq(p, "/api/generate-pdf") {
            RouteKind::GeneratePdf
        } else if str_eq(p, "/api/generate-docx") {
            RouteKind::GenerateDocx
        } else if str_eq(p, "/api/preview") {
            RouteKind::Preview
        } else if str_eq(p, "/api/dictionary") {
            RouteKind::Dictionary
        } else if str_eq(p, "/api/builtin-translate") {
            RouteKind::BuiltinTranslate
        } else {
            RouteKind::NotFound
        }
    } else {
        RouteKind::NotFound
    }
}

/// Whether a request can be routed without a field that cannot be read or
/// a grade that cannot be chosen: a dictionary request reads its fields, a
/// preview reads its fields and chooses its grade; other routes read no
/// field here.
pub open spec fn route_body_clean(state: AppState, method: Seq<char>, raw_path: Seq<char>, body: Seq<char>) -> bool {
    match spec_route_kind(method, request_path(raw_path)) {
        RouteKind::Dictionary => dictionary_body_clean(body),
        RouteKind::Preview => document_body_clean(body) && preview_profile_ok(state, body),
        _ => true,
    }
}

fn has_profile_exec(state: &AppState, code: &str) -> (r: bool)
    ensures
        r == state.has_profile(code@),
{
    match state.profile_index(code) {
        Some(i) => {
            proof {
                let codes = crate::state::profile_codes(state.profiles_v());
                assert(codes[i as int] == code@);
            }
            true
        },
        None => false,
    }
}

/// Whether a request meets what routing it asks (see `route_body_clean`).
pub fn route_reads_cleanly(state: &AppState, method: &str, raw_path: &str, body: &str) -> (r: bool)
    ensures
        r == route_body_clean(*state, method@, raw_path@, body@),
{
    match route_kind(method, raw_path) {
        RouteKind::Dictionary => dictionary_reads_cleanly(body),
        RouteKind::Preview => {
            if !document_reads_cleanly(body) {
                return false;
            }
            proof {
                reveal_strlit("");
            }
            let article = string_field_or(body, "article", "");
            let av = chars_of(article.as_str());
            if trim_chars(&av).len() == 0 {
                return true;
            }
            let grade = string_field_or(body, "grade", "P4");
            has_profile_exec(state, grade.as_str()) || has_profile_exec(state, "P4")
        },
        _ => true,
    }
}

/// Whether `r` answers with `status`, the type `mime` and the bytes `body`.
pub open spec fn answers(r: Route, status: u16, mime: Seq<char>, body: Seq<u8>) -> bool {
    r matches Route::Respond(s, m, b, h) && s == status && m@ == mime && b@ == body && h@.len() == 0
}

/// The demo article as JSON.
pub open spec fn demo_json(text: Seq<char>) -> Seq<char> {
    "{\"title\":\"Lesson 37 The Tea Rose\",\"text\":\""@ + spec_json_escape(text) + "\"}"@
}

/// What the server does with a request.
pub open spec fn route_does(state: AppState, assets: WebAssets, method: Seq<char>, raw_path: Seq<char>, body: Seq<char>, r: Route) -> bool {
    let js = "text/javascript; charset=utf-8"@;
    let json = "application/json; charset=utf-8"@;
    match spec_route_kind(method, request_path(raw_path)) {
        RouteKind::Index => answers(r, 200, "text/html; charset=utf-8"@, vstd::utf8::encode_utf8(assets.index_html@)),
        RouteKind::UiLanguagePacks => answers(r, 200, js, vstd::utf8::encode_utf8(assets.ui_language_packs_js@)),
        RouteKind::I18n => answers(r, 200, js, vstd::utf8::encode_utf8(assets.i18n_js@)),
        RouteKind::AppScript => answers(r, 200, js, vstd::utf8::encode_utf8(assets.app_js@)),
        RouteKind::EditorTools => answers(r, 200, js, vstd::utf8::encode_utf8(assets.editor_tools_js@)),
        RouteKind::Styles => answers(r, 200, "text/css; charset=utf-8"@, vstd::utf8::encode_utf8(assets.styles_css@)),
        RouteKind::Logo => answers(r, 200, "image/png"@, assets.brand_logo_png@),
        RouteKind::Profiles => answers(r, 200, json, vstd::utf8::encode_utf8(spec_profiles_json(state.profiles_v()))),
        RouteKind::Demo => answers(r, 200, json, vstd::utf8::encode_utf8(demo_json(assets.demo_text@))),
        RouteKind::Preview => {
            let (s, m) = spec_handle_preview(state, body);
            answers(r, s, json, vstd::utf8::encode_utf8(m))
        },
        RouteKind::Dictionary => {
            let (s, m) = spec_handle_dictionary(state, body);
            answers(r, s, json, vstd::utf8::encode_utf8(m))
        },
        RouteKind::GeneratePdf => r is GeneratePdf,
        RouteKind::GenerateDocx => r is GenerateDocx,
        RouteKind::BuiltinTranslate => r is BuiltinTranslate,
        RouteKind::Download => r matches Route::Download(p) && p@ == request_path(raw_path),
        RouteKind::NotFound => answers(r, 404, json, vstd::utf8::encode_utf8("{\"error\":\"File not found\"}"@)),
    }
}

fn respond(t: (u16, &'static str, Vec<u8>, Vec<String>)) -> (r: Route)
    ensures
        r == Route::Respond(t.0, t.1, t.2, t.3),
{
    Route::Respond(t.0, t.1, t.2, t.3)
}

/// Routes a request: pages, scripts, the logo, the profiles, the demo
/// article, previews and dictionary lookups are answered here; documents,
/// translations and downloads are handed on; everything else is not found.
pub fn route_request(state: &AppState, assets: &WebAssets, method: &str, raw_path: &str, body: &str) -> (r: Route)
    requires
        state.wf(),
        route_body_clean(*state, method@, raw_path@, body@),
    ensures
        route_does(*state, *assets, method@, raw_path@, body@, r),
{
    match route_kind(method, raw_path) {
        RouteKind::Index => respond(crate::web::html(assets.index_html.as_str())),
        RouteKind::UiLanguagePacks => respond(
            crate::web::text(assets.ui_language_packs_js.as_str(), "text/javascript; charset=utf-8"),
        ),
        RouteKind::I18n => respond(crate::web::text(assets.i18n_js.as_str(), "text/javascript; charset=utf-8")),
        RouteKind::AppScript => respond(crate::web::text(assets.app_js.as_str(), "text/javascript; charset=utf-8")),
        RouteKind::EditorTools => respond(
            crate::web::text(assets.editor_tools_js.as_str(), "text/javascript; charset=utf-8"),
        ),
        RouteKind::Styles => respond(crate::web::text(assets.styles_css.as_str(), "text/css; charset=utf-8")),
        RouteKind::Logo => respond(crate::web::binary(assets.brand_logo_png.as_slice(), "image/png")),
        RouteKind::Profiles => respond(crate::web::json(200, profiles_json(state))),
        RouteKind::Demo => {
            let mut out = owned("{\"title\":\"Lesson 37 The Tea Rose\",\"text\":\"");
            push_str(&mut out, json_escape(assets.demo_text.as_str()).as_str());
            push_str(&mut out, "\"}");
            assert(out@ =~= demo_json(assets.demo_text@));
            respond(crate::web::json(200, out))
        },
        RouteKind::Preview => {
            let (status, payload) = handle_preview(state, body);
            respond(crate::web::json(status, payload))
        },
        RouteKind::Dictionary => {
            let (status, payload) = handle_dictionary(state, body);
            respond(crate::web::json(status, payload))
        },
        RouteKind::GeneratePdf => Route::GeneratePdf,
        RouteKind::GenerateDocx => Route::GenerateDocx,
        RouteKind::BuiltinTranslate => Route::BuiltinTranslate,
        RouteKind::Download => {
            let v = chars_of(raw_path);
            let pv = match crate::custom::find_char(&v, '?') {
                Some(i) => crate::custom::sub_vec(&v, 0, i),
                None => v,
            };
            proof {
                if let Some(i) = crate::custom::index_of(raw_path@, '?') {
                    assert(raw_path@.subrange(0, i) =~= raw_path@.take(i));
                }
            }
            Route::Download(string_of(&pv))
        },
        RouteKind::NotFound => respond(crate::web::json(404, owned("{\"error\":\"File not found\"}"))),
    }
}

} // verus!
