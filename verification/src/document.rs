//! The annotated Word document of an article: its paragraphs, the layout
//! check, and the package.
use vstd::prelude::*;
use crate::annotate::{
    add_entries_order, annotate_items, annotate_tokens, annotation_context, context_hard_terms,
    context_ignored, context_lexicon, make_env, items_view, AnnotationEnv, AnnotationState,
};
use crate::audit::{audit_docx_ruby_layout, spec_audit_docx_ruby_layout};
use crate::custom::spec_parse_custom_annotations;
use crate::docx::{items_to_docx_paragraph, spec_items_to_docx_paragraph, clamp, TextSizes};
use crate::preview::{prepare_article_text, sorted_missing, sorts_words, spec_prepare_article_text};
use crate::state::{profile_view, AppState, ProfileView};
use crate::text::{chars_of, owned, split_at_set, split_chars, str_eq, string_of, trim, trim_chars, CharSet};
use crate::tokens::spec_tokenize;
use crate::zip::{build_docx, spec_build_docx};

verus! {

/// One paragraph of the article in the document: an empty paragraph for a
/// blank one.
pub open spec fn docx_paragraph_of(env: AnnotationEnv, st: AnnotationState, para: Seq<char>, base_hps: nat) -> (
    AnnotationState,
    Seq<char>,
) {
    let text = trim(para);
    if text.len() == 0 {
        (st, "<w:p/>"@)
    } else {
        let (s2, items) = annotate_tokens(env, st, spec_tokenize(text));
        (s2, spec_items_to_docx_paragraph(items, base_hps, "left"@, false))
    }
}

/// The paragraphs of the article in the document, annotated in turn.
pub open spec fn docx_paragraphs_of(
    env: AnnotationEnv,
    st: AnnotationState,
    paras: Seq<Seq<char>>,
    base_hps: nat,
) -> (AnnotationState, Seq<Seq<char>>)
    decreases paras.len(),
{
    if paras.len() == 0 {
        (st, seq![])
    } else {
        let (s1, done) = docx_paragraphs_of(env, st, paras.drop_last(), base_hps);
        let (s2, p) = docx_paragraph_of(env, s1, paras.last(), base_hps);
        (s2, done.push(p))
    }
}

/// The paragraphs of the document, the title first where there is one, and
/// the words that could not be annotated.
pub open spec fn spec_docx_content(
    state: AppState,
    text: Seq<char>,
    title: Seq<char>,
    custom: Seq<char>,
    annotate_unknown: bool,
    profile: ProfileView,
    known: Set<Seq<char>>,
    target_language: Seq<char>,
    scheme: Seq<char>,
    sizes: TextSizes,
) -> (Seq<Seq<char>>, Seq<Seq<char>>) {
    let lex = context_lexicon(state.seed_lexicon.view_map(), custom, target_language);
    let env = make_env(
        state,
        context_hard_terms(lex, custom),
        profile,
        known,
        annotate_unknown,
        target_language == "zh-Hans"@,
        scheme,
    );
    let st0 = AnnotationState {
        lex,
        order: add_entries_order(state.seed_lexicon.key_order(), spec_parse_custom_annotations(custom).0),
        missing: seq![],
    };
    let t = trim(title);
    let (s1, head) = if t.len() > 0 {
        let (s, items) = annotate_tokens(env, st0, spec_tokenize(t));
        (
            s,
            seq![
                spec_items_to_docx_paragraph(
                    items,
                    clamp(sizes.english_hps + 9, 24, 72) as nat,
                    "center"@,
                    true,
                ),
            ],
        )
    } else {
        (st0, Seq::<Seq<char>>::empty())
    };
    let (s2, body) = docx_paragraphs_of(env, s1, split_at_set(text, CharSet::Newline), sizes.english_hps as nat);
    (head + body, s2.missing)
}

/// What generating a document gives: the error of the article, the grade,
/// the layout check or the package, or the document's bytes with the
/// words that could not be annotated.
pub open spec fn spec_generate_docx(
    state: AppState,
    article: Seq<char>,
    title: Seq<char>,
    custom: Seq<char>,
    annotate_unknown: bool,
    grade_code: Seq<char>,
    target_language: Seq<char>,
    scheme: Seq<char>,
    sizes: TextSizes,
) -> Result<(Seq<u8>, Seq<Seq<char>>), Seq<char>> {
    let profile = state.chosen_profile(grade_code);
    match spec_prepare_article_text(article, title) {
        Err(e) => Err(e),
        Ok(text) => if !state.known_v().contains_key(profile.code) {
            Err("年级配置不可用。"@)
        } else {
            let (paras, missing) = spec_docx_content(
                state,
                text,
                title,
                custom,
                annotate_unknown,
                profile,
                state.known_v()[profile.code].union(context_ignored(custom)),
                target_language,
                scheme,
                sizes,
            );
            match spec_audit_docx_ruby_layout(paras) {
                Err(e) => Err(e),
                Ok(_) => match spec_build_docx(paras, sizes) {
                    Err(e) => Err(e),
                    Ok(bytes) => Ok((bytes, missing)),
                },
            }
        },
    }
}

fn docx_paragraph_step(
    state: &AppState,
    para: &Vec<char>,
    lexicon: &mut crate::lexicon::Lexicon,
    hard_terms: &vstd::hash_set::StringHashSet,
    profile: &crate::state::GradeProfile,
    known_words: &crate::lookup::KnownWords,
    annotate_unknown: bool,
    missing: &mut Vec<String>,
    use_offline_translation: bool,
    scheme: &str,
    sizes: TextSizes,
) -> (r: String)
    requires
        state.wf(),
        old(lexicon).wf(),
        sizes.english_hps * 48 + 50 <= usize::MAX,
    ensures
        final(lexicon).wf(),
        ({
            let env = make_env(
                *state,
                hard_terms@,
                profile_view(*profile),
                known_words.view_set(),
                annotate_unknown,
                use_offline_translation,
                scheme@,
            );
            let st = AnnotationState {
                lex: old(lexicon).view_map(),
                order: old(lexicon).key_order(),
                missing: old(missing).deep_view(),
            };
            let (s2, p) = docx_paragraph_of(env, st, para@, sizes.english_hps as nat);
            &&& r@ == p
            &&& final(lexicon).view_map() == s2.lex
            &&& final(lexicon).key_order() == s2.order
            &&& final(missing).deep_view() == s2.missing
        }),
{
    let t = trim_chars(para);
    if t.len() == 0 {
        return owned("<w:p/>");
    }
    let text = string_of(&t);
    let items = annotate_items(
        state,
        text.as_str(),
        lexicon,
        hard_terms,
        profile,
        known_words,
        annotate_unknown,
        missing,
        use_offline_translation,
        scheme,
    );
    items_to_docx_paragraph(&items, sizes.english_hps, sizes, "left", false)
}

fn docx_body(
    state: &AppState,
    text: &String,
    lexicon: &mut crate::lexicon::Lexicon,
    hard_terms: &vstd::hash_set::StringHashSet,
    profile: &crate::state::GradeProfile,
    known_words: &crate::lookup::KnownWords,
    annotate_unknown: bool,
    missing: &mut Vec<String>,
    use_offline_translation: bool,
    scheme: &str,
    sizes: TextSizes,
    paragraphs: &mut Vec<String>,
)
    requires
        state.wf(),
        old(lexicon).wf(),
        sizes.english_hps * 48 + 50 <= usize::MAX,
    ensures
        final(lexicon).wf(),
        ({
            let env = make_env(
                *state,
                hard_terms@,
                profile_view(*profile),
                known_words.view_set(),
                annotate_unknown,
                use_offline_translation,
                scheme@,
            );
            let st = AnnotationState {
                lex: old(lexicon).view_map(),
                order: old(lexicon).key_order(),
                missing: old(missing).deep_view(),
            };
            let (s2, body) = docx_paragraphs_of(env, st, split_at_set(text@, CharSet::Newline), sizes.english_hps as nat);
            &&& final(paragraphs).deep_view() == old(paragraphs).deep_view() + body
            &&& final(lexicon).view_map() == s2.lex
            &&& final(lexicon).key_order() == s2.order
            &&& final(missing).deep_view() == s2.missing
        }),
{
    let ghost env = make_env(
        *state,
        hard_terms@,
        profile_view(*profile),
        known_words.view_set(),
        annotate_unknown,
        use_offline_translation,
        scheme@,
    );
    let ghost st0 = AnnotationState {
        lex: lexicon.view_map(),
        order: lexicon.key_order(),
        missing: missing.deep_view(),
    };
    let ghost start = paragraphs.deep_view();
    let v = chars_of(text.as_str());
    let paras = split_chars(&v, CharSet::Newline);
    let ghost pv = paras@.map_values(|f: Vec<char>| f@);
    let mut i: usize = 0;
    assert(pv.take(0) =~= Seq::<Seq<char>>::empty());
    assert(paragraphs.deep_view() =~= start + Seq::<Seq<char>>::empty());
    while i < paras.len()
        invariant
            i <= paras.len(),
            state.wf(),
            lexicon.wf(),
            sizes.english_hps * 48 + 50 <= usize::MAX,
            pv == paras@.map_values(|f: Vec<char>| f@),
            pv == split_at_set(text@, CharSet::Newline),
            env == make_env(
                *state,
                hard_terms@,
                profile_view(*profile),
                known_words.view_set(),
                annotate_unknown,
                use_offline_translation,
                scheme@,
            ),
            paragraphs.deep_view() == start + docx_paragraphs_of(env, st0, pv.take(i as int), sizes.english_hps as nat).1,
            lexicon.view_map() == docx_paragraphs_of(env, st0, pv.take(i as int), sizes.english_hps as nat).0.lex,
            lexicon.key_order() == docx_paragraphs_of(env, st0, pv.take(i as int), sizes.english_hps as nat).0.order,
            missing.deep_view() == docx_paragraphs_of(env, st0, pv.take(i as int), sizes.english_hps as nat).0.missing,
        decreases paras.len() - i,
    {
        assert(pv.take(i + 1).drop_last() =~= pv.take(i as int));
        assert(pv[i as int] == paras@[i as int]@);
        let ghost prev = docx_paragraphs_of(env, st0, pv.take(i as int), sizes.english_hps as nat);
        assert(prev.0 == AnnotationState {
            lex: lexicon.view_map(),
            order: lexicon.key_order(),
            missing: missing.deep_view(),
        });
        let p = docx_paragraph_step(
            state,
            &paras[i],
            lexicon,
            hard_terms,
            profile,
            known_words,
            annotate_unknown,
            missing,
            use_offline_translation,
            scheme,
            sizes,
        );
        let ghost before = paragraphs.deep_view();
        let ghost pview = p@;
        paragraphs.push(p);
        proof {
            assert(paragraphs.deep_view() =~= before.push(pview));
            let step = docx_paragraph_of(env, prev.0, pv[i as int], sizes.english_hps as nat);
            assert(docx_paragraphs_of(env, st0, pv.take(i + 1), sizes.english_hps as nat) == (step.0, prev.1.push(step.1)));
            assert(paragraphs.deep_view() =~= start + prev.1.push(step.1));
        }
        i += 1;
    }
    assert(pv.take(paras.len() as int) =~= pv);
}

/// The annotated Word document of an article, with the sorted words that
/// could not be annotated: the title (where given) as a centred, larger
/// first paragraph, each line of the article as a paragraph of words with
/// their rubies, checked before it is packed. Errors: an empty article, a
/// grade without a word list, a failed layout check, a package too large.
pub fn generate_docx(
    state: &AppState,
    article_text: &str,
    title: &str,
    custom_annotations: &str,
    annotate_unknown: bool,
    grade_code: &str,
    target_language: &str,
    pronunciation_scheme: &str,
    sizes: TextSizes,
) -> (r: Result<(Vec<u8>, Vec<String>), String>)
    requires
        state.wf(),
        crate::preview::spec_prepare_article_text(article_text@, title@) is Err || state.has_profile(grade_code@)
            || state.has_profile("P4"@),
        sizes.english_hps * 48 + 50 <= usize::MAX,
    ensures
        match spec_generate_docx(
            *state,
            article_text@,
            title@,
            custom_annotations@,
            annotate_unknown,
            grade_code@,
            target_language@,
            pronunciation_scheme@,
            sizes,
        ) {
            Err(e) => r is Err && r->Err_0@ == e,
            Ok((bytes, missing)) => r is Ok && r->Ok_0.0@ == bytes && sorts_words(
                r->Ok_0.1.deep_view(),
                missing,
            ),
        },
{
    let article = match prepare_article_text(article_text, title) {
        Ok(a) => a,
        Err(e) => return Err(e),
    };
    proof {
        state.lemma_chosen_profile(grade_code@);
    }
    let tv = chars_of(title);
    let title_text = string_of(&trim_chars(&tv));
    let (mut lexicon, hard_terms, profile, known_words) = match annotation_context(
        state,
        custom_annotations,
        grade_code,
        target_language,
    ) {
        Ok(c) => c,
        Err(e) => return Err(e),
    };
    let use_offline = str_eq(target_language, "zh-Hans");
    let mut missing: Vec<String> = Vec::new();
    let mut paragraphs: Vec<String> = Vec::new();
    assert(missing.deep_view() =~= Seq::<Seq<char>>::empty());
    assert(paragraphs.deep_view() =~= Seq::<Seq<char>>::empty());
    assert(title_text@ == trim(title@));
    if title_text.as_str().unicode_len() > 0 {
        let items = annotate_items(
            state,
            title_text.as_str(),
            &mut lexicon,
            &hard_terms,
            profile,
            &known_words,
            annotate_unknown,
            &mut missing,
            use_offline,
            pronunciation_scheme,
        );
        let head = items_to_docx_paragraph(&items, sizes.title_hps(), sizes, "center", true);
        let ghost hv = head@;
        paragraphs.push(head);
        assert(paragraphs.deep_view() =~= seq![hv]);
    }
    docx_body(
        state,
        &article,
        &mut lexicon,
        &hard_terms,
        profile,
        &known_words,
        annotate_unknown,
        &mut missing,
        use_offline,
        pronunciation_scheme,
        sizes,
        &mut paragraphs,
    );
    proof {
        let (ps, m) = spec_docx_content(
            *state,
            article@,
            title@,
            custom_annotations@,
            annotate_unknown,
            profile_view(*profile),
            known_words.view_set(),
            target_language@,
            pronunciation_scheme@,
            sizes,
        );
        assert(paragraphs.deep_view() =~= ps);
        assert(missing.deep_view() == m);
    }
    match audit_docx_ruby_layout(&paragraphs) {
        Ok(_) => {},
        Err(e) => return Err(e),
    }
    let bytes = match build_docx(&paragraphs, sizes) {
        Ok(b) => b,
        Err(e) => return Err(e),
    };
    let sorted = sorted_missing(missing);
    Ok((bytes, sorted))
}

} // verus!
