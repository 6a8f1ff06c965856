//! Annotating a text: the lexicon and word lists of a request, the
//! annotation of each token, and the HTML preview.
use vstd::prelude::*;
use vstd::hash_set::StringHashSet;
use crate::custom::{join, join_strings, parse_custom_annotations, spec_parse_custom_annotations};
use crate::lexicon::{
    add_entry, add_keys, entry_view, spec_add_entry, without_meanings, EntryView, Lexicon,
    LexiconEntry,
};
use crate::lookup::{
    is_hard_word, lookup_adds, lookup_entry, should_annotate_word, spec_lookup_entry,
    spec_should_annotate_word, KnownWords, variant_keys,
};
use crate::normalize::{candidate_lemmas, key_variants, normalize_key, spec_candidate_lemmas, spec_key_variants, spec_normalize_key};
use crate::state::{AppState, GradeProfile, ProfileView, profile_view};
use crate::text::{chars_of, owned, str_eq, string_of, trim, trim_chars};

verus! {

// ---------------------------------------------------------------------------
// The lexicon and word lists of a request
// ---------------------------------------------------------------------------

/// The lexicon after adding each of `entries` in turn.
pub open spec fn add_entries(lex: Map<Seq<char>, EntryView>, entries: Seq<EntryView>) -> Map<
    Seq<char>,
    EntryView,
>
    decreases entries.len(),
{
    if entries.len() == 0 {
        lex
    } else {
        spec_add_entry(add_entries(lex, entries.drop_last()), entries.last())
    }
}

/// The key order after adding each of `entries` in turn.
pub open spec fn add_entries_order(order: Seq<Seq<char>>, entries: Seq<EntryView>) -> Seq<Seq<char>>
    decreases entries.len(),
{
    if entries.len() == 0 {
        order
    } else {
        add_keys(add_entries_order(order, entries.drop_last()), spec_key_variants(entries.last().term))
    }
}

/// The seed lexicon as a request sees it: without meanings unless the
/// target language is simplified Chinese.
pub open spec fn base_lexicon(seed: Map<Seq<char>, EntryView>, target_language: Seq<char>) -> Map<
    Seq<char>,
    EntryView,
> {
    if target_language == "zh-Hans"@ {
        seed
    } else {
        without_meanings(seed)
    }
}

/// The lexicon of a request: the seed lexicon as the target language sees
/// it, with the custom entries added.
pub open spec fn context_lexicon(
    seed: Map<Seq<char>, EntryView>,
    custom: Seq<char>,
    target_language: Seq<char>,
) -> Map<Seq<char>, EntryView> {
    add_entries(base_lexicon(seed, target_language), spec_parse_custom_annotations(custom).0)
}

/// The hard terms of a request: those of its lexicon and the spellings of
/// the custom terms to annotate always.
pub open spec fn context_hard_terms(lex: Map<Seq<char>, EntryView>, custom: Seq<char>) -> Set<Seq<char>> {
    crate::lookup::spec_extract_hard_terms(
        join(spec_parse_custom_annotations(custom).1, seq![' ']),
        lex,
    )
}

/// The words a request leaves without annotation beyond those the grade
/// knows: every spelling of the custom terms never to annotate.
pub open spec fn context_ignored(custom: Seq<char>) -> Set<Seq<char>> {
    variant_keys(spec_parse_custom_annotations(custom).2)
}

/// Whether every meaning of `lex` is blank or that of one of `entries`.
pub open spec fn meanings_from(lex: Map<Seq<char>, EntryView>, entries: Seq<EntryView>) -> bool {
    forall|k: Seq<char>|
        #[trigger] lex.contains_key(k) ==> (lex[k].zh.len() == 0 || exists|i: int|
            0 <= i < entries.len() && lex[k] == entries[i])
}

proof fn lemma_add_under_keys_meanings(
    lex: Map<Seq<char>, EntryView>,
    keys: Seq<Seq<char>>,
    entries: Seq<EntryView>,
    i: int,
)
    requires
        0 <= i < entries.len(),
        meanings_from(lex, entries),
    ensures
        meanings_from(crate::lexicon::add_under_keys(lex, keys, entries[i]), entries),
    decreases keys.len(),
{
    if keys.len() > 0 {
        lemma_add_under_keys_meanings(lex, keys.drop_last(), entries, i);
        let before = crate::lexicon::add_under_keys(lex, keys.drop_last(), entries[i]);
        let after = before.insert(keys.last(), entries[i]);
        assert forall|k: Seq<char>| #[trigger] after.contains_key(k) implies (after[k].zh.len() == 0
            || exists|j: int| 0 <= j < entries.len() && after[k] == entries[j]) by {
            if k == keys.last() {
                assert(after[k] == entries[i]);
            } else {
                assert(before.contains_key(k));
            }
        }
    }
}

proof fn lemma_add_entries_meanings(lex: Map<Seq<char>, EntryView>, entries: Seq<EntryView>, n: int)
    requires
        0 <= n <= entries.len(),
        meanings_from(lex, entries),
    ensures
        meanings_from(add_entries(lex, entries.take(n)), entries),
    decreases n,
{
    if n > 0 {
        lemma_add_entries_meanings(lex, entries, n - 1);
        assert(entries.take(n).drop_last() =~= entries.take(n - 1));
        assert(entries.take(n).last() == entries[n - 1]);
        lemma_add_under_keys_meanings(
            add_entries(lex, entries.take(n - 1)),
            spec_key_variants(entries[n - 1].term),
            entries,
            n - 1,
        );
    } else {
        assert(entries.take(0) =~= Seq::<EntryView>::empty());
    }
}

/// For any target language but simplified Chinese, the lexicon of a request
/// holds no meaning from the built-in Chinese lexicon: each entry has no
/// meaning, or is one of the user's own entries.
pub proof fn other_languages_keep_only_custom_meanings(
    seed: Map<Seq<char>, EntryView>,
    custom: Seq<char>,
    target_language: Seq<char>,
)
    requires
        target_language != "zh-Hans"@,
    ensures
        meanings_from(context_lexicon(seed, custom, target_language), spec_parse_custom_annotations(custom).0),
{
    let entries = spec_parse_custom_annotations(custom).0;
    let base = base_lexicon(seed, target_language);
    assert forall|k: Seq<char>| #[trigger] base.contains_key(k) implies (base[k].zh.len() == 0 || exists|j: int|
        0 <= j < entries.len() && base[k] == entries[j]) by {
        assert(base[k].zh == Seq::<char>::empty());
    }
    lemma_add_entries_meanings(base, entries, entries.len() as int);
    assert(entries.take(entries.len() as int) =~= entries);
}

/// A lookup that is not to use the offline dictionary gives no meaning but
/// one the lexicon already holds.
pub proof fn lookups_without_offline_meanings(
    pron: Map<Seq<char>, Seq<Seq<Seq<char>>>>,
    trs: Map<Seq<char>, Seq<char>>,
    lex: Map<Seq<char>, EntryView>,
    word: Seq<char>,
    use_pronunciation: bool,
)
    ensures
        spec_lookup_entry(pron, trs, lex, word, false, use_pronunciation) matches Some(e) ==> (e.zh.len() == 0
            || exists|k: Seq<char>| lex.contains_key(k) && lex[k].zh == e.zh),
{
    lemma_first_entry_in(lex, spec_candidate_lemmas(word));
}

proof fn lemma_first_entry_in(lex: Map<Seq<char>, EntryView>, cands: Seq<Seq<char>>)
    ensures
        crate::lookup::first_entry(lex, cands) matches Some(e) ==> exists|k: Seq<char>|
            lex.contains_key(k) && lex[k] == e,
    decreases cands.len(),
{
    if cands.len() > 0 {
        if lex.contains_key(cands[0]) {
            assert(lex[cands[0]] == lex[cands[0]]);
        } else {
            lemma_first_entry_in(lex, cands.drop_first());
        }
    }
}

fn add_all_entries(lexicon: &mut Lexicon, entries: Vec<LexiconEntry>)
    requires
        old(lexicon).wf(),
    ensures
        final(lexicon).wf(),
        final(lexicon).view_map() == add_entries(
            old(lexicon).view_map(),
            entries@.map_values(|e: LexiconEntry| entry_view(e)),
        ),
        final(lexicon).key_order() == add_entries_order(
            old(lexicon).key_order(),
            entries@.map_values(|e: LexiconEntry| entry_view(e)),
        ),
{
    let ghost ev = entries@.map_values(|e: LexiconEntry| entry_view(e));
    let mut i: usize = 0;
    assert(ev.take(0) =~= Seq::<EntryView>::empty());
    while i < entries.len()
        invariant
            i <= entries.len(),
            ev == entries@.map_values(|e: LexiconEntry| entry_view(e)),
            lexicon.wf(),
            lexicon.view_map() == add_entries(old(lexicon).view_map(), ev.take(i as int)),
            lexicon.key_order() == add_entries_order(old(lexicon).key_order(), ev.take(i as int)),
        decreases entries.len() - i,
    {
        assert(ev.take(i + 1).drop_last() =~= ev.take(i as int));
        assert(ev[i as int] == entry_view(entries@[i as int]));
        add_entry(lexicon, entries[i].duplicate());
        i += 1;
    }
    assert(ev.take(entries.len() as int) =~= ev);
}

/// The spellings of `terms`, as a set.
pub fn variant_set(terms: &Vec<String>) -> (r: StringHashSet)
    ensures
        r@ == variant_keys(terms.deep_view()),
{
    let ghost tv = terms.deep_view();
    let mut set = StringHashSet::new();
    let mut j: usize = 0;
    assert(tv.take(0) =~= Seq::<Seq<char>>::empty());
    assert(set@ =~= variant_keys(tv.take(0)));
    while j < terms.len()
        invariant
            j <= terms.len(),
            tv == terms.deep_view(),
            set@ == variant_keys(tv.take(j as int)),
        decreases terms.len() - j,
    {
        assert(tv.take(j + 1).drop_last() =~= tv.take(j as int));
        assert(tv[j as int] == terms@[j as int]@);
        let keys = key_variants(terms[j].as_str());
        let mut k: usize = 0;
        let ghost before = set@;
        while k < keys.len()
            invariant
                k <= keys.len(),
                set@ == before.union(keys.deep_view().take(k as int).to_set()),
            decreases keys.len() - k,
        {
            let ghost t0 = keys.deep_view().take(k as int);
            let ghost t1 = keys.deep_view().take(k + 1);
            assert(t1 =~= t0.push(keys@[k as int]@));
            set.insert(keys[k].clone());
            assert(set@ =~= before.union(t1.to_set())) by {
                assert forall|w: Seq<char>| t1.to_set().contains(w) <==> (t0.to_set().contains(w)
                    || w == keys@[k as int]@) by {
                    if t1.contains(w) {
                        let x = choose|x: int| 0 <= x < t1.len() && t1[x] == w;
                        if x < k {
                            assert(t0[x] == w);
                        }
                    }
                    if t0.contains(w) {
                        let x = choose|x: int| 0 <= x < t0.len() && t0[x] == w;
                        assert(t1[x] == w);
                    }
                    if w == keys@[k as int]@ {
                        assert(t1[k as int] == w);
                    }
                }
            }
            k += 1;
        }
        assert(keys.deep_view().take(keys.len() as int) =~= keys.deep_view());
        assert(set@ =~= variant_keys(tv.take(j + 1)));
        j += 1;
    }
    assert(tv.take(terms.len() as int) =~= tv);
    set
}

/// What a request annotates with: its lexicon, its hard terms, its grade
/// profile, and the words taken as known; an error where the grade has no
/// word list.
pub fn annotation_context<'a>(
    state: &'a AppState,
    custom_annotations: &str,
    grade_code: &str,
    target_language: &str,
) -> (r: Result<(Lexicon, StringHashSet, &'a GradeProfile, KnownWords<'a>), String>)
    requires
        state.wf(),
        state.has_profile(grade_code@) || state.has_profile("P4"@),
    ensures
        r matches Ok((lexicon, hard, profile, known)) ==> {
            &&& lexicon.wf()
            &&& lexicon.view_map() == context_lexicon(
                state.seed_lexicon.view_map(),
                custom_annotations@,
                target_language@,
            )
            &&& lexicon.key_order() == add_entries_order(
                state.seed_lexicon.key_order(),
                spec_parse_custom_annotations(custom_annotations@).0,
            )
            &&& hard@ == context_hard_terms(lexicon.view_map(), custom_annotations@)
            &&& state.profiles@.contains(*profile)
            &&& profile_view(*profile) == state.chosen_profile(grade_code@)
            &&& (state.has_profile(grade_code@) ==> profile.code@ == grade_code@)
            &&& (!state.has_profile(grade_code@) ==> profile.code@ == "P4"@)
            &&& state.known_v().contains_key(profile.code@)
            &&& known.view_set() == state.known_v()[profile.code@].union(
                context_ignored(custom_annotations@),
            )
        },
        r matches Err(e) ==> e@ == "年级配置不可用。"@ && !state.known_v().contains_key(
            (if state.has_profile(grade_code@) {
                grade_code@
            } else {
                "P4"@
            }),
        ),
{
    let zh_hans = str_eq(target_language, "zh-Hans");
    let mut lexicon = state.seed_lexicon.copy(!zh_hans);
    let (custom_entries, custom_force_terms, ignored_terms) = parse_custom_annotations(
        custom_annotations,
    );
    add_all_entries(&mut lexicon, custom_entries);
    let forced = join_strings(&custom_force_terms, ' ');
    let hard_terms = extract_hard_terms_of(&forced, &lexicon);
    let profile = state.profile(grade_code);
    let grade_words = match state.known_words.get(profile.code.as_str()) {
        Some(w) => w,
        None => return Err(owned("年级配置不可用。")),
    };
    let ignored = variant_set(&ignored_terms);
    Ok((lexicon, hard_terms, profile, KnownWords { grade: grade_words, ignored }))
}

fn extract_hard_terms_of(extra: &String, lexicon: &Lexicon) -> (r: StringHashSet)
    requires
        lexicon.wf(),
    ensures
        r@ == crate::lookup::spec_extract_hard_terms(extra@, lexicon.view_map()),
{
    crate::lookup::extract_hard_terms(extra.as_str(), lexicon)
}

// ---------------------------------------------------------------------------
// Annotating tokens
// ---------------------------------------------------------------------------

/// What a word is annotated with: its pronunciation and meaning as shown,
/// and whether it is a hard term.
pub struct AnnotationParts {
    pub ipa: String,
    pub zh: String,
    pub hard: bool,
}

/// A token of the text and its annotation, if it gets one.
pub struct AnnotationItem {
    pub text: String,
    pub annotation: Option<AnnotationParts>,
}

pub struct PartsView {
    pub ipa: Seq<char>,
    pub zh: Seq<char>,
    pub hard: bool,
}

pub struct ItemView {
    pub text: Seq<char>,
    pub annotation: Option<PartsView>,
}

pub open spec fn parts_view(p: AnnotationParts) -> PartsView {
    PartsView { ipa: p.ipa@, zh: p.zh@, hard: p.hard }
}

pub open spec fn item_view(it: AnnotationItem) -> ItemView {
    ItemView {
        text: it.text@,
        annotation: match it.annotation {
            Some(p) => Some(parts_view(p)),
            None => None,
        },
    }
}

pub open spec fn items_view(items: Seq<AnnotationItem>) -> Seq<ItemView> {
    items.map_values(|it: AnnotationItem| item_view(it))
}

/// What stays fixed while a text is annotated.
pub struct AnnotationEnv {
    pub pron: Map<Seq<char>, Seq<Seq<Seq<char>>>>,
    pub trs: Map<Seq<char>, Seq<char>>,
    pub basic: Set<Seq<char>>,
    pub hard: Set<Seq<char>>,
    pub profile: ProfileView,
    pub known: Set<Seq<char>>,
    pub annotate_unknown: bool,
    pub use_offline_translation: bool,
    pub scheme: Seq<char>,
}

/// What changes while a text is annotated: the lexicon, which gains the
/// entries made from the dictionaries, and the words found without
/// annotation.
pub struct AnnotationState {
    pub lex: Map<Seq<char>, EntryView>,
    pub order: Seq<Seq<char>>,
    pub missing: Seq<Seq<char>>,
}

/// Notes a word as missing, once.
pub open spec fn insert_missing(missing: Seq<Seq<char>>, key: Seq<char>) -> Seq<Seq<char>> {
    if missing.contains(key) {
        missing
    } else {
        missing.push(key)
    }
}

pub open spec fn note_missing(env: AnnotationEnv, st: AnnotationState, token: Seq<char>) -> AnnotationState {
    if env.annotate_unknown {
        AnnotationState { missing: insert_missing(st.missing, spec_normalize_key(token)), ..st }
    } else {
        st
    }
}

/// Annotating one token: punctuation and space stay as they are; a word is
/// looked up, and annotated where it should be and its entry gives a
/// pronunciation or a meaning; a word that should be annotated but cannot
/// be is noted as missing when unknown words are wanted.
#[verifier::opaque]
pub open spec fn annotate_token(env: AnnotationEnv, st: AnnotationState, token: Seq<char>) -> (
    AnnotationState,
    ItemView,
) {
    let plain = ItemView { text: token, annotation: None };
    if !crate::tokens::spec_is_word_token(token) {
        (st, plain)
    } else {
        let entry = spec_lookup_entry(
            env.pron,
            env.trs,
            st.lex,
            token,
            env.use_offline_translation,
            env.scheme != "none"@,
        );
        let st1 = if lookup_adds(st.lex, token, entry) {
            AnnotationState {
                lex: spec_add_entry(st.lex, entry.unwrap()),
                order: add_keys(st.order, spec_key_variants(token)),
                missing: st.missing,
            }
        } else {
            st
        };
        if !spec_should_annotate_word(env.basic, token, entry, env.hard, env.profile, env.known) {
            (st1, plain)
        } else {
            match entry {
                None => (note_missing(env, st1, token), plain),
                Some(e) => {
                    let ipa = crate::pronounce::spec_format_pronunciation(e.ipa, env.scheme);
                    let zh = crate::meaning::spec_compact_translation(e.zh, 10);
                    if ipa.len() == 0 && zh.len() == 0 {
                        (note_missing(env, st1, token), plain)
                    } else {
                        (
                            st1,
                            ItemView {
                                text: token,
                                annotation: Some(
                                    PartsView { ipa, zh, hard: e.hard || is_hard_word(token, env.hard) },
                                ),
                            },
                        )
                    }
                },
            }
        }
    }
}

/// Annotating tokens in turn.
pub open spec fn annotate_tokens(env: AnnotationEnv, st: AnnotationState, tokens: Seq<Seq<char>>) -> (
    AnnotationState,
    Seq<ItemView>,
)
    decreases tokens.len(),
{
    if tokens.len() == 0 {
        (st, seq![])
    } else {
        let (s1, items) = annotate_tokens(env, st, tokens.drop_last());
        let (s2, item) = annotate_token(env, s1, tokens.last());
        (s2, items.push(item))
    }
}

/// `key` is the key of a word token that was left without annotation.
pub open spec fn left_unannotated(tokens: Seq<Seq<char>>, items: Seq<ItemView>, key: Seq<char>) -> bool {
    exists|i: int|
        0 <= i < tokens.len() && i < items.len() && items[i].annotation is None
            && crate::tokens::spec_is_word_token(tokens[i]) && key == spec_normalize_key(#[trigger] tokens[i])
}

/// The words that annotating added to the missing ones, after `before`:
/// `before` stays at the front, and each added word is the key of a word
/// token that was left without annotation.
pub open spec fn missing_added_from(
    before: Seq<Seq<char>>,
    after: Seq<Seq<char>>,
    tokens: Seq<Seq<char>>,
    items: Seq<ItemView>,
) -> bool {
    &&& before.is_prefix_of(after)
    &&& forall|k: int| before.len() <= k < after.len() ==> left_unannotated(tokens, items, #[trigger] after[k])
}

/// What one annotated item may hold: the token itself, and, where it is
/// annotated, a word with a pronunciation or a meaning, and no
/// pronunciation under the scheme `none`.
pub open spec fn item_fits(env: AnnotationEnv, token: Seq<char>, item: ItemView) -> bool {
    &&& item.text == token
    &&& item.annotation matches Some(a) ==> {
        &&& crate::tokens::spec_is_word_token(token)
        &&& (a.ipa.len() > 0 || a.zh.len() > 0)
        &&& (env.scheme == "none"@ ==> a.ipa.len() == 0)
    }
}

proof fn lemma_annotate_token_shape(env: AnnotationEnv, st: AnnotationState, token: Seq<char>)
    ensures
        ({
            let (s2, item) = annotate_token(env, st, token);
            &&& item_fits(env, token, item)
            &&& s2.missing == st.missing || (env.annotate_unknown && item.annotation is None
                && crate::tokens::spec_is_word_token(token) && s2.missing == insert_missing(
                st.missing,
                spec_normalize_key(token),
            ))
        }),
{
    reveal(annotate_token);
}

/// Law: annotating a run of tokens gives one item per token, holding that
/// token; an annotated item is a word with a pronunciation or a meaning,
/// and none has a pronunciation under the scheme `none`. The missing words
/// only grow: what was there stays in front, nothing is added when unknown
/// words are not wanted, each added word is the key of a word left without
/// annotation, and no word is noted twice.
pub proof fn annotated_items_laws(env: AnnotationEnv, st: AnnotationState, tokens: Seq<Seq<char>>)
    ensures
        ({
            let (s2, items) = annotate_tokens(env, st, tokens);
            &&& items.len() == tokens.len()
            &&& forall|i: int| 0 <= i < tokens.len() ==> item_fits(env, tokens[i], #[trigger] items[i])
            &&& missing_added_from(st.missing, s2.missing, tokens, items)
            &&& !env.annotate_unknown ==> s2.missing == st.missing
            &&& st.missing.no_duplicates() ==> s2.missing.no_duplicates()
        }),
    decreases tokens.len(),
{
    if tokens.len() == 0 {
        assert(st.missing.is_prefix_of(st.missing)) by {
            assert(st.missing =~= st.missing.subrange(0, st.missing.len() as int));
        }
    } else {
        let prev = tokens.drop_last();
        annotated_items_laws(env, st, prev);
        let (s1, items1) = annotate_tokens(env, st, prev);
        let (s2, item) = annotate_token(env, s1, tokens.last());
        lemma_annotate_token_shape(env, s1, tokens.last());
        let items = items1.push(item);
        assert(annotate_tokens(env, st, tokens) == (s2, items));
        let n = tokens.len() - 1;
        assert forall|i: int| 0 <= i < tokens.len() implies item_fits(env, tokens[i], #[trigger] items[i]) by {
            if i < n {
                assert(items[i] == items1[i]);
                assert(tokens[i] == prev[i]);
            }
        }
        // The missing words of the first tokens stay in front.
        assert(s1.missing.is_prefix_of(s2.missing)) by {
            assert(s1.missing =~= s2.missing.subrange(0, s1.missing.len() as int));
        }
        assert(st.missing.is_prefix_of(s2.missing)) by {
            assert(st.missing =~= s2.missing.subrange(0, st.missing.len() as int)) by {
                assert forall|k: int| 0 <= k < st.missing.len() implies st.missing[k] == s2.missing[k] by {
                    assert(st.missing[k] == s1.missing.subrange(0, st.missing.len() as int)[k]);
                    assert(s1.missing[k] == s2.missing.subrange(0, s1.missing.len() as int)[k]);
                }
            }
        }
        assert forall|k: int| st.missing.len() <= k < s2.missing.len() implies left_unannotated(
            tokens,
            items,
            #[trigger] s2.missing[k],
        ) by {
            if k < s1.missing.len() {
                assert(s2.missing[k] == s1.missing[k]) by {
                    assert(s1.missing[k] == s2.missing.subrange(0, s1.missing.len() as int)[k]);
                }
                assert(left_unannotated(prev, items1, s1.missing[k]));
                let i = choose|i: int|
                    0 <= i < prev.len() && i < items1.len() && items1[i].annotation is None
                        && crate::tokens::spec_is_word_token(prev[i]) && s1.missing[k] == spec_normalize_key(
                        #[trigger] prev[i],
                    );
                assert(items[i] == items1[i]);
                assert(tokens[i] == prev[i]);
            } else {
                assert(s2.missing == s1.missing.push(spec_normalize_key(tokens.last())));
                assert(s2.missing[k] == spec_normalize_key(tokens[n]));
                assert(items[n] == item);
            }
        }
        assert(missing_added_from(st.missing, s2.missing, tokens, items));
        if st.missing.no_duplicates() && s2.missing != s1.missing {
            let key = spec_normalize_key(tokens.last());
            assert(!s1.missing.contains(key));
            assert(s2.missing == s1.missing.push(key));
            assert forall|a: int, b: int| 0 <= a < s2.missing.len() && 0 <= b < s2.missing.len() && a != b
                implies s2.missing[a] != s2.missing[b] by {
                if a < s1.missing.len() && b < s1.missing.len() {
                } else if a < s1.missing.len() {
                    assert(s1.missing[a] == s2.missing[a]);
                } else if b < s1.missing.len() {
                    assert(s1.missing[b] == s2.missing[b]);
                }
            }
        }
    }
}

/// The annotation setting of a request as values.
pub open spec fn make_env(
    state: AppState,
    hard_terms: Set<Seq<char>>,
    profile: ProfileView,
    known: Set<Seq<char>>,
    annotate_unknown: bool,
    use_offline_translation: bool,
    scheme: Seq<char>,
) -> AnnotationEnv {
    AnnotationEnv {
        pron: state.pronunciations_v(),
        trs: state.translations_v(),
        basic: state.basic_words@,
        hard: hard_terms,
        profile,
        known,
        annotate_unknown,
        use_offline_translation,
        scheme,
    }
}

fn note_missing_exec(missing_terms: &mut Vec<String>, token: &str)
    ensures
        final(missing_terms).deep_view() == insert_missing(
            old(missing_terms).deep_view(),
            spec_normalize_key(token@),
        ),
{
    let key = normalize_key(token);
    let kv = chars_of(key.as_str());
    if !crate::normalize::contains_string(missing_terms, &kv) {
        let ghost before = missing_terms.deep_view();
        missing_terms.push(key);
        assert(missing_terms.deep_view() =~= before.push(kv@));
    }
}

fn annotate_one(
    state: &AppState,
    token: &String,
    lexicon: &mut Lexicon,
    hard_terms: &StringHashSet,
    profile: &GradeProfile,
    known_words: &KnownWords,
    annotate_unknown: bool,
    missing_terms: &mut Vec<String>,
    use_offline_translation: bool,
    pronunciation_scheme: &str,
) -> (r: AnnotationItem)
    requires
        state.wf(),
        old(lexicon).wf(),
    ensures
        final(lexicon).wf(),
        ({
            let env = make_env(
                *state,
                hard_terms@,
                profile_view(*profile),
                known_words.view_set(),
                annotate_unknown,
                use_offline_translation,
                pronunciation_scheme@,
            );
            let st = AnnotationState {
                lex: old(lexicon).view_map(),
                order: old(lexicon).key_order(),
                missing: old(missing_terms).deep_view(),
            };
            let (s2, item) = annotate_token(env, st, token@);
            &&& item_view(r) == item
            &&& final(lexicon).view_map() == s2.lex
            &&& final(lexicon).key_order() == s2.order
            &&& final(missing_terms).deep_view() == s2.missing
        }),
{
    reveal(annotate_token);
    let word = token.as_str();
    if !crate::tokens::is_word_token(word) {
        return AnnotationItem { text: token.clone(), annotation: None };
    }
    let use_pronunciation = !str_eq(pronunciation_scheme, "none");
    let entry = lookup_entry(state, word, lexicon, use_offline_translation, use_pronunciation);
    let force = match &entry {
        Some(e) => should_annotate_word(state, word, Some(e), hard_terms, profile, known_words),
        None => should_annotate_word(state, word, None, hard_terms, profile, known_words),
    };
    if !force {
        return AnnotationItem { text: token.clone(), annotation: None };
    }
    match entry {
        None => {
            if annotate_unknown {
                note_missing_exec(missing_terms, word);
            }
            AnnotationItem { text: token.clone(), annotation: None }
        },
        Some(e) => {
            let is_hard = e.hard || crate::lookup::any_hard_candidate(word, hard_terms);
            let ipa = crate::pronounce::format_pronunciation(e.ipa.as_str(), pronunciation_scheme);
            let zh = e.zh_text();
            if ipa.as_str().unicode_len() == 0 && zh.as_str().unicode_len() == 0 {
                if annotate_unknown {
                    note_missing_exec(missing_terms, word);
                }
                return AnnotationItem { text: token.clone(), annotation: None };
            }
            AnnotationItem {
                text: token.clone(),
                annotation: Some(AnnotationParts { ipa, zh, hard: is_hard }),
            }
        },
    }
}

/// Annotates the tokens of `text` in turn: each word is looked up (which may
/// add an entry to the lexicon) and annotated where it should be; words
/// that should be annotated but cannot be are noted in `missing_terms`
/// when `annotate_unknown` is set.
pub fn annotate_items(
    state: &AppState,
    text: &str,
    lexicon: &mut Lexicon,
    hard_terms: &StringHashSet,
    profile: &GradeProfile,
    known_words: &KnownWords,
    annotate_unknown: bool,
    missing_terms: &mut Vec<String>,
    use_offline_translation: bool,
    pronunciation_scheme: &str,
) -> (r: Vec<AnnotationItem>)
    requires
        state.wf(),
        old(lexicon).wf(),
    ensures
        final(lexicon).wf(),
        ({
            let env = make_env(
                *state,
                hard_terms@,
                profile_view(*profile),
                known_words.view_set(),
                annotate_unknown,
                use_offline_translation,
                pronunciation_scheme@,
            );
            let st = AnnotationState {
                lex: old(lexicon).view_map(),
                order: old(lexicon).key_order(),
                missing: old(missing_terms).deep_view(),
            };
            let (s2, items) = annotate_tokens(env, st, crate::tokens::spec_tokenize(text@));
            &&& items_view(r@) == items
            &&& final(lexicon).view_map() == s2.lex
            &&& final(lexicon).key_order() == s2.order
            &&& final(missing_terms).deep_view() == s2.missing
        }),
{
    let ghost env = make_env(
        *state,
        hard_terms@,
        profile_view(*profile),
        known_words.view_set(),
        annotate_unknown,
        use_offline_translation,
        pronunciation_scheme@,
    );
    let ghost st0 = AnnotationState {
        lex: lexicon.view_map(),
        order: lexicon.key_order(),
        missing: missing_terms.deep_view(),
    };
    let tokens = crate::tokens::tokenize(text);
    let ghost tv = tokens.deep_view();
    let mut items: Vec<AnnotationItem> = Vec::new();
    let mut i: usize = 0;
    assert(tv.take(0) =~= Seq::<Seq<char>>::empty());
    assert(items_view(items@) =~= Seq::<ItemView>::empty());
    while i < tokens.len()
        invariant
            i <= tokens.len(),
            state.wf(),
            lexicon.wf(),
            tv == tokens.deep_view(),
            env == make_env(
                *state,
                hard_terms@,
                profile_view(*profile),
                known_words.view_set(),
                annotate_unknown,
                use_offline_translation,
                pronunciation_scheme@,
            ),
            ({
                let (s, its) = annotate_tokens(env, st0, tv.take(i as int));
                &&& items_view(items@) == its
                &&& lexicon.view_map() == s.lex
                &&& lexicon.key_order() == s.order
                &&& missing_terms.deep_view() == s.missing
            }),
        decreases tokens.len() - i,
    {
        assert(tv.take(i + 1).drop_last() =~= tv.take(i as int));
        assert(tv[i as int] == tokens@[i as int]@);
        let ghost before = items_view(items@);
        let item = annotate_one(
            state,
            &tokens[i],
            lexicon,
            hard_terms,
            profile,
            known_words,
            annotate_unknown,
            missing_terms,
            use_offline_translation,
            pronunciation_scheme,
        );
        items.push(item);
        assert(items_view(items@) =~= before.push(item_view(item)));
        i += 1;
    }
    assert(tv.take(tokens.len() as int) =~= tv);
    items
}

} // verus!
