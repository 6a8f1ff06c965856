//! Looking words up: generated pronunciations and translations from the
//! dictionaries, lexicon entries, the terms that are always annotated, and
//! the decision whether a word gets an annotation.
use vstd::prelude::*;
use vstd::hash_set::StringHashSet;
use crate::custom::{join, join_strings, index_of};
use crate::lexicon::{add_entry, add_keys, entry_view, spec_add_entry, EntryView, Lexicon, LexiconEntry};
use crate::meaning::{compact_translation, contains_inflection_note, spec_compact_translation, spec_contains_inflection_note};
use crate::normalize::{
    candidate_lemmas, key_variants, normalize_key, replace_char, spec_candidate_lemmas,
    spec_key_variants, spec_normalize_key,
};
use crate::pronounce::{arpabet_to_ipa, spec_arpabet_to_ipa};
use crate::state::{AppState, GradeProfile, ProfileView, profile_view};
use crate::text::{chars_of, chars_has, has_char, owned, string_of, split_at_set, split_chars, trim, trim_chars, CharSet};

verus! {

// ---------------------------------------------------------------------------
// Choosing a pronunciation
// ---------------------------------------------------------------------------

/// How many phones of `ph` end with `d`.
pub open spec fn stress_count(ph: Seq<Seq<char>>, d: char) -> nat
    decreases ph.len(),
{
    if ph.len() == 0 {
        0
    } else {
        stress_count(ph.drop_last(), d) + if ph.last().len() > 0 && ph.last().last() == d {
            1nat
        } else {
            0nat
        }
    }
}

pub open spec fn abs_diff(a: nat, b: nat) -> nat {
    if a >= b {
        (a - b) as nat
    } else {
        (b - a) as nat
    }
}

/// What makes a pronunciation preferred, smallest first: how far its count
/// of primary stresses is from one, its count of secondary stresses, and its
/// length.
pub open spec fn pron_score(ph: Seq<Seq<char>>) -> (nat, nat, nat) {
    (abs_diff(stress_count(ph, '1'), 1), stress_count(ph, '2'), ph.len())
}

/// Lexicographic order on scores.
pub open spec fn score_less(a: (nat, nat, nat), b: (nat, nat, nat)) -> bool {
    a.0 < b.0 || (a.0 == b.0 && (a.1 < b.1 || (a.1 == b.1 && a.2 < b.2)))
}

/// Where the first pronunciation with the smallest score stands.
pub open spec fn best_index(list: Seq<Seq<Seq<char>>>) -> int
    decreases list.len(),
{
    if list.len() <= 1 {
        0
    } else {
        let b = best_index(list.drop_last());
        if score_less(pron_score(list.last()), pron_score(list[b])) {
            list.len() - 1
        } else {
            b
        }
    }
}

fn count_ending(ph: &Vec<String>, d: char) -> (n: usize)
    ensures
        n == stress_count(ph.deep_view(), d),
{
    let ghost pv = ph.deep_view();
    let mut n: usize = 0;
    let mut i: usize = 0;
    while i < ph.len()
        invariant
            i <= ph.len(),
            pv == ph.deep_view(),
            n == stress_count(pv.take(i as int), d),
            n <= i,
        decreases ph.len() - i,
    {
        assert(pv.take(i + 1).drop_last() =~= pv.take(i as int));
        assert(pv[i as int] == ph@[i as int]@);
        let p = chars_of(ph[i].as_str());
        if p.len() > 0 && p[p.len() - 1] == d {
            n += 1;
        }
        i += 1;
    }
    assert(pv.take(ph.len() as int) =~= pv);
    n
}

fn score_of(ph: &Vec<String>) -> (r: (usize, usize, usize))
    ensures
        (r.0 as nat, r.1 as nat, r.2 as nat) == pron_score(ph.deep_view()),
{
    let primary = count_ending(ph, '1');
    let secondary = count_ending(ph, '2');
    let distance = if primary >= 1 {
        primary - 1
    } else {
        1 - primary
    };
    (distance, secondary, ph.len())
}

fn less(a: (usize, usize, usize), b: (usize, usize, usize)) -> (r: bool)
    ensures
        r == score_less((a.0 as nat, a.1 as nat, a.2 as nat), (b.0 as nat, b.1 as nat, b.2 as nat)),
{
    a.0 < b.0 || (a.0 == b.0 && (a.1 < b.1 || (a.1 == b.1 && a.2 < b.2)))
}

/// The preferred pronunciation of a word: the first with the smallest
/// score.
pub fn best_pronunciation(list: &Vec<Vec<String>>) -> (r: usize)
    requires
        list.len() > 0,
    ensures
        r as int == best_index(list.deep_view()),
        r < list.len(),
{
    let ghost lv = list.deep_view();
    let mut best: usize = 0;
    let mut best_score = score_of(&list[0]);
    let mut i: usize = 1;
    assert(lv.take(1).drop_last() =~= Seq::<Seq<Seq<char>>>::empty());
    assert(lv[0] == list@[0].deep_view());
    while i < list.len()
        invariant
            1 <= i <= list.len(),
            lv == list.deep_view(),
            best < i,
            best as int == best_index(lv.take(i as int)),
            (best_score.0 as nat, best_score.1 as nat, best_score.2 as nat) == pron_score(lv[best as int]),
        decreases list.len() - i,
    {
        assert(lv.take(i + 1).drop_last() =~= lv.take(i as int));
        assert(lv.take(i + 1)[best as int] == lv[best as int]);
        assert(lv[i as int] == list@[i as int].deep_view());
        let s = score_of(&list[i]);
        if less(s, best_score) {
            best = i;
            best_score = s;
        }
        i += 1;
    }
    assert(lv.take(list.len() as int) =~= lv);
    best
}

// ---------------------------------------------------------------------------
// Generated pronunciations
// ---------------------------------------------------------------------------

/// `s` without the character `c`.
pub open spec fn remove_char(s: Seq<char>, c: char) -> Seq<char>
    decreases s.len(),
{
    if s.len() == 0 {
        s
    } else if s.last() == c {
        remove_char(s.drop_last(), c)
    } else {
        remove_char(s.drop_last(), c).push(s.last())
    }
}

fn remove_chars(v: &Vec<char>, c: char) -> (r: Vec<char>)
    ensures
        r@ == remove_char(v@, c),
{
    let mut r: Vec<char> = Vec::new();
    let mut i: usize = 0;
    while i < v.len()
        invariant
            i <= v.len(),
            r@ == remove_char(v@.take(i as int), c),
        decreases v.len() - i,
    {
        assert(v@.take(i + 1).drop_last() =~= v@.take(i as int));
        if v[i] != c {
            r.push(v[i]);
        }
        i += 1;
    }
    assert(v@.take(v.len() as int) =~= v@);
    r
}

fn replace_chars(v: &Vec<char>, from: char, to: char) -> (r: Vec<char>)
    ensures
        r@ == replace_char(v@, from, to),
{
    let mut r: Vec<char> = Vec::new();
    let mut i: usize = 0;
    while i < v.len()
        invariant
            i <= v.len(),
            r@ == replace_char(v@.take(i as int), from, to),
        decreases v.len() - i,
    {
        r.push(if v[i] == from {
            to
        } else {
            v[i]
        });
        assert(replace_char(v@.take(i + 1), from, to) =~= replace_char(v@.take(i as int), from, to).push(
            if v@[i as int] == from {
                to
            } else {
                v@[i as int]
            },
        ));
        i += 1;
    }
    assert(v@.take(v.len() as int) =~= v@);
    r
}

/// The spellings under which a candidate is looked up in the pronunciation
/// dictionary: as it is, with spaces as hyphens, and without hyphens.
pub open spec fn spellings(c: Seq<char>) -> Seq<Seq<char>> {
    seq![c, replace_char(c, ' ', '-'), remove_char(c, '-')]
}

/// The IPA of the preferred pronunciation of `v`, where the dictionary has
/// one and it is not empty.
pub open spec fn variant_ipa(pron: Map<Seq<char>, Seq<Seq<Seq<char>>>>, v: Seq<char>) -> Option<
    Seq<char>,
> {
    if pron.contains_key(v) && pron[v].len() > 0 {
        let ipa = spec_arpabet_to_ipa(pron[v][best_index(pron[v])]);
        if ipa.len() > 0 {
            Some(ipa)
        } else {
            None
        }
    } else {
        None
    }
}

/// The first IPA found among the spellings of the candidates.
pub open spec fn first_variant_ipa(
    pron: Map<Seq<char>, Seq<Seq<Seq<char>>>>,
    cands: Seq<Seq<char>>,
) -> Option<Seq<char>>
    decreases cands.len(),
{
    if cands.len() == 0 {
        None
    } else {
        let sp = spellings(cands[0]);
        match variant_ipa(pron, sp[0]) {
            Some(x) => Some(x),
            None => match variant_ipa(pron, sp[1]) {
                Some(x) => Some(x),
                None => match variant_ipa(pron, sp[2]) {
                    Some(x) => Some(x),
                    None => first_variant_ipa(pron, cands.drop_first()),
                },
            },
        }
    }
}

/// The IPA of each part of a hyphenated key from its first pronunciation,
/// or `None` where a part has none or its IPA is empty.
pub open spec fn parts_ipa(pron: Map<Seq<char>, Seq<Seq<Seq<char>>>>, parts: Seq<Seq<char>>) -> Option<
    Seq<Seq<char>>,
>
    decreases parts.len(),
{
    if parts.len() == 0 {
        Some(seq![])
    } else if !pron.contains_key(parts[0]) || pron[parts[0]].len() == 0 {
        None
    } else {
        let ipa = spec_arpabet_to_ipa(pron[parts[0]][0]);
        if ipa.len() == 0 {
            None
        } else {
            match parts_ipa(pron, parts.drop_first()) {
                Some(rest) => Some(seq![ipa] + rest),
                None => None,
            }
        }
    }
}

/// The IPA the dictionary gives a word: that of the first candidate
/// spelling it knows, else, for a hyphenated word, the IPA of its parts
/// joined by dots.
pub open spec fn spec_lookup_generated_ipa(pron: Map<Seq<char>, Seq<Seq<Seq<char>>>>, word: Seq<char>) -> Option<
    Seq<char>,
> {
    match first_variant_ipa(pron, spec_candidate_lemmas(word)) {
        Some(x) => Some(x),
        None => {
            let key = spec_normalize_key(word);
            if has_char(key, '-') {
                match parts_ipa(pron, split_at_set(key, CharSet::Hyphen)) {
                    Some(ps) => if ps.len() > 0 {
                        Some(join(ps, seq!['.']))
                    } else {
                        None
                    },
                    None => None,
                }
            } else {
                None
            }
        },
    }
}

fn spelling_ipa(state: &AppState, v: &Vec<char>) -> (r: Option<String>)
    requires
        state.wf(),
    ensures
        r matches Some(s) ==> variant_ipa(state.pronunciations_v(), v@) == Some(s@),
        r is None ==> variant_ipa(state.pronunciations_v(), v@) is None,
{
    let key = string_of(v);
    match state.pronunciations.get(key.as_str()) {
        Some(found) => {
            if found.len() == 0 {
                return None;
            }
            let b = best_pronunciation(found);
            assert(found.deep_view()[b as int] == found@[b as int].deep_view());
            assert(found@[b as int]@.map_values(|p: String| p@) =~= found@[b as int].deep_view());
            let ipa = arpabet_to_ipa(found[b].as_slice());
            if ipa.as_str().unicode_len() == 0 {
                None
            } else {
                Some(ipa)
            }
        },
        None => None,
    }
}

fn hyphen_parts_ipa(state: &AppState, key: &Vec<char>) -> (r: Option<Vec<String>>)
    requires
        state.wf(),
    ensures
        r matches Some(ps) ==> parts_ipa(state.pronunciations_v(), split_at_set(key@, CharSet::Hyphen))
            == Some(ps.deep_view()),
        r is None ==> parts_ipa(state.pronunciations_v(), split_at_set(key@, CharSet::Hyphen)) is None,
{
    let parts = split_chars(key, CharSet::Hyphen);
    let ghost pv = parts@.map_values(|f: Vec<char>| f@);
    let ghost pron = state.pronunciations_v();
    let mut out: Vec<String> = Vec::new();
    let mut i: usize = 0;
    assert(pv.skip(0) =~= pv);
    assert(out.deep_view() =~= Seq::<Seq<char>>::empty());
    while i < parts.len()
        invariant
            i <= parts.len(),
            state.wf(),
            pron == state.pronunciations_v(),
            pv == parts@.map_values(|f: Vec<char>| f@),
            pv == split_at_set(key@, CharSet::Hyphen),
            parts_ipa(pron, pv) == (match parts_ipa(pron, pv.skip(i as int)) {
                Some(rest) => Some(out.deep_view() + rest),
                None => None::<Seq<Seq<char>>>,
            }),
        decreases parts.len() - i,
    {
        let ghost rest = pv.skip(i as int);
        assert(rest[0] == parts@[i as int]@);
        assert(rest.drop_first() =~= pv.skip(i + 1));
        let name = string_of(&parts[i]);
        let found = match state.pronunciations.get(name.as_str()) {
            Some(f) => f,
            None => return None,
        };
        if found.len() == 0 {
            return None;
        }
        assert(found.deep_view()[0] == found@[0].deep_view());
        assert(found@[0]@.map_values(|p: String| p@) =~= found@[0].deep_view());
        let ipa = arpabet_to_ipa(found[0].as_slice());
        if ipa.as_str().unicode_len() == 0 {
            return None;
        }
        let ghost before = out.deep_view();
        out.push(ipa);
        proof {
            assert(out.deep_view() =~= before.push(ipa@));
            match parts_ipa(pron, pv.skip(i + 1)) {
                Some(r2) => {
                    assert(before + (seq![ipa@] + r2) =~= out.deep_view() + r2);
                },
                None => {},
            }
        }
        i += 1;
    }
    proof {
        assert(pv.skip(parts.len() as int) =~= Seq::<Seq<char>>::empty());
        assert(out.deep_view() + Seq::<Seq<char>>::empty() =~= out.deep_view());
    }
    Some(out)
}

/// The IPA the pronunciation dictionary gives a word: the preferred
/// pronunciation of the first candidate form it knows, tried as written,
/// with spaces as hyphens and without hyphens; else, for a hyphenated word,
/// the first pronunciation of each part, joined by dots.
pub fn lookup_generated_ipa(state: &AppState, word: &str) -> (r: Option<String>)
    requires
        state.wf(),
    ensures
        r matches Some(s) ==> spec_lookup_generated_ipa(state.pronunciations_v(), word@) == Some(s@),
        r is None ==> spec_lookup_generated_ipa(state.pronunciations_v(), word@) is None,
{
    let ghost pron = state.pronunciations_v();
    let key = normalize_key(word);
    let cands = candidate_lemmas(word);
    let ghost cv = cands.deep_view();
    let mut i: usize = 0;
    assert(cv.skip(0) =~= cv);
    while i < cands.len()
        invariant
            i <= cands.len(),
            state.wf(),
            pron == state.pronunciations_v(),
            cv == cands.deep_view(),
            cv == spec_candidate_lemmas(word@),
            first_variant_ipa(pron, cv) == first_variant_ipa(pron, cv.skip(i as int)),
        decreases cands.len() - i,
    {
        let ghost rest = cv.skip(i as int);
        assert(rest[0] == cands@[i as int]@);
        assert(rest.drop_first() =~= cv.skip(i + 1));
        let c = chars_of(cands[i].as_str());
        match spelling_ipa(state, &c) {
            Some(x) => return Some(x),
            None => {},
        }
        let dashed = replace_chars(&c, ' ', '-');
        match spelling_ipa(state, &dashed) {
            Some(x) => return Some(x),
            None => {},
        }
        let joined = remove_chars(&c, '-');
        match spelling_ipa(state, &joined) {
            Some(x) => return Some(x),
            None => {},
        }
        i += 1;
    }
    assert(cv.skip(cands.len() as int) =~= Seq::<Seq<char>>::empty());
    let kv = chars_of(key.as_str());
    if chars_has(&kv, '-') {
        match hyphen_parts_ipa(state, &kv) {
            Some(parts) => {
                if parts.len() > 0 {
                    return Some(join_strings(&parts, '.'));
                }
            },
            None => {},
        }
    }
    None
}

// ---------------------------------------------------------------------------
// Generated translations
// ---------------------------------------------------------------------------

/// Reading the offline translations of the candidates in turn: the first
/// non-empty short translation whose entry is no mere inflection note, else
/// the first non-empty short translation found.
pub open spec fn scan_translations(
    trs: Map<Seq<char>, Seq<char>>,
    cands: Seq<Seq<char>>,
    found: Option<Seq<char>>,
) -> Option<Seq<char>>
    decreases cands.len(),
{
    if cands.len() == 0 {
        found
    } else if !trs.contains_key(cands[0]) {
        scan_translations(trs, cands.drop_first(), found)
    } else {
        let tr = trs[cands[0]];
        let c = spec_compact_translation(tr, 10);
        if c.len() == 0 {
            scan_translations(trs, cands.drop_first(), found)
        } else {
            let found2 = if found is None {
                Some(c)
            } else {
                found
            };
            if !spec_contains_inflection_note(tr) {
                Some(c)
            } else {
                scan_translations(trs, cands.drop_first(), found2)
            }
        }
    }
}

/// The candidate has an offline entry whose short translation is not empty.
pub open spec fn has_meaning(trs: Map<Seq<char>, Seq<char>>, c: Seq<char>) -> bool {
    trs.contains_key(c) && spec_compact_translation(trs[c], 10).len() > 0
}

/// The candidate has a short translation, and its entry is no mere note on
/// an inflection.
pub open spec fn has_plain_meaning(trs: Map<Seq<char>, Seq<char>>, c: Seq<char>) -> bool {
    has_meaning(trs, c) && !spec_contains_inflection_note(trs[c])
}

proof fn lemma_scan_translations(trs: Map<Seq<char>, Seq<char>>, cands: Seq<Seq<char>>, found: Option<Seq<char>>)
    ensures
        forall|k: int|
            0 <= k < cands.len() && has_plain_meaning(trs, #[trigger] cands[k]) && (forall|j: int|
                0 <= j < k ==> !has_plain_meaning(trs, cands[j])) ==> scan_translations(trs, cands, found)
                == Some(spec_compact_translation(trs[cands[k]], 10)),
        (forall|j: int| 0 <= j < cands.len() ==> !has_plain_meaning(trs, #[trigger] cands[j])) ==> {
            &&& found is Some ==> scan_translations(trs, cands, found) == found
            &&& found is None ==> forall|k: int|
                0 <= k < cands.len() && has_meaning(trs, #[trigger] cands[k]) && (forall|j: int|
                    0 <= j < k ==> !has_meaning(trs, cands[j])) ==> scan_translations(trs, cands, found) == Some(
                    spec_compact_translation(trs[cands[k]], 10),
                )
            &&& found is None && (forall|j: int| 0 <= j < cands.len() ==> !has_meaning(trs, #[trigger] cands[j]))
                ==> scan_translations(trs, cands, found) is None
        },
    decreases cands.len(),
{
    if cands.len() > 0 {
        let tail = cands.drop_first();
        let c0 = cands[0];
        let found2 = if has_meaning(trs, c0) && found is None {
            Some(spec_compact_translation(trs[c0], 10))
        } else {
            found
        };
        lemma_scan_translations(trs, tail, found2);
        lemma_scan_translations(trs, tail, found);
        if has_plain_meaning(trs, c0) {
            assert forall|k: int|
                0 <= k < cands.len() && has_plain_meaning(trs, #[trigger] cands[k]) && (forall|j: int|
                    0 <= j < k ==> !has_plain_meaning(trs, cands[j])) implies scan_translations(trs, cands, found)
                == Some(spec_compact_translation(trs[cands[k]], 10)) by {
                if k > 0 {
                    assert(!has_plain_meaning(trs, cands[0]));
                }
            }
        } else {
            assert(has_meaning(trs, c0) ==> scan_translations(trs, cands, found) == scan_translations(trs, tail, found2));
            assert(!has_meaning(trs, c0) ==> scan_translations(trs, cands, found) == scan_translations(trs, tail, found));
            assert(!has_meaning(trs, c0) ==> found2 == found);
            assert(scan_translations(trs, cands, found) == scan_translations(trs, tail, found2));
            assert forall|k: int|
                0 <= k < cands.len() && has_plain_meaning(trs, #[trigger] cands[k]) && (forall|j: int|
                    0 <= j < k ==> !has_plain_meaning(trs, cands[j])) implies scan_translations(trs, cands, found)
                == Some(spec_compact_translation(trs[cands[k]], 10)) by {
                assert(k > 0);
                assert(tail[k - 1] == cands[k]);
                assert forall|j: int| 0 <= j < k - 1 implies !has_plain_meaning(trs, tail[j]) by {
                    assert(tail[j] == cands[j + 1]);
                }
            }
            if forall|j: int| 0 <= j < cands.len() ==> !has_plain_meaning(trs, #[trigger] cands[j]) {
                assert forall|j: int| 0 <= j < tail.len() implies !has_plain_meaning(trs, #[trigger] tail[j]) by {
                    assert(tail[j] == cands[j + 1]);
                }
                if found is None {
                    assert forall|k: int|
                        0 <= k < cands.len() && has_meaning(trs, #[trigger] cands[k]) && (forall|j: int|
                            0 <= j < k ==> !has_meaning(trs, cands[j])) implies scan_translations(trs, cands, found)
                        == Some(spec_compact_translation(trs[cands[k]], 10)) by {
                        if k > 0 {
                            assert(!has_meaning(trs, cands[0]));
                            assert(tail[k - 1] == cands[k]);
                            assert forall|j: int| 0 <= j < k - 1 implies !has_meaning(trs, tail[j]) by {
                                assert(tail[j] == cands[j + 1]);
                            }
                        }
                    }
                    if forall|j: int| 0 <= j < cands.len() ==> !has_meaning(trs, #[trigger] cands[j]) {
                        assert(!has_meaning(trs, cands[0]));
                        assert forall|j: int| 0 <= j < tail.len() implies !has_meaning(trs, #[trigger] tail[j]) by {
                            assert(tail[j] == cands[j + 1]);
                        }
                    }
                }
            }
        }
    }
}

/// Law: the offline short translation of a word is that of the first
/// candidate form whose entry is more than a note on an inflection; when
/// every entry is such a note, it is that of the first candidate with any
/// short translation; with none, there is none.
pub proof fn offline_meaning_prefers_plain_entries(trs: Map<Seq<char>, Seq<char>>, word: Seq<char>)
    ensures
        ({
            let cands = spec_candidate_lemmas(word);
            let r = spec_lookup_generated_translation(trs, word);
            &&& forall|k: int|
                0 <= k < cands.len() && has_plain_meaning(trs, #[trigger] cands[k]) && (forall|j: int|
                    0 <= j < k ==> !has_plain_meaning(trs, cands[j])) ==> r == Some(
                    spec_compact_translation(trs[cands[k]], 10),
                )
            &&& (forall|j: int| 0 <= j < cands.len() ==> !has_plain_meaning(trs, #[trigger] cands[j])) ==> {
                &&& forall|k: int|
                    0 <= k < cands.len() && has_meaning(trs, #[trigger] cands[k]) && (forall|j: int|
                        0 <= j < k ==> !has_meaning(trs, cands[j])) ==> r == Some(
                        spec_compact_translation(trs[cands[k]], 10),
                    )
                &&& (forall|j: int| 0 <= j < cands.len() ==> !has_meaning(trs, #[trigger] cands[j])) ==> r is None
            }
        }),
{
    lemma_scan_translations(trs, spec_candidate_lemmas(word), None);
}

/// The short translation the offline dictionary gives a word.
pub open spec fn spec_lookup_generated_translation(trs: Map<Seq<char>, Seq<char>>, word: Seq<char>) -> Option<
    Seq<char>,
> {
    scan_translations(trs, spec_candidate_lemmas(word), None)
}

/// The short translation the offline dictionary gives a word: that of the
/// first candidate form it knows, where that is more than a note on an
/// inflection; else that of a later form that is no such note; else the
/// first found.
pub fn lookup_generated_translation(state: &AppState, word: &str) -> (r: Option<String>)
    ensures
        r matches Some(s) ==> spec_lookup_generated_translation(state.translations_v(), word@)
            == Some(s@),
        r is None ==> spec_lookup_generated_translation(state.translations_v(), word@) is None,
{
    let ghost trs = state.translations_v();
    let cands = candidate_lemmas(word);
    let ghost cv = cands.deep_view();
    let mut found: Option<String> = None;
    let mut i: usize = 0;
    assert(cv.skip(0) =~= cv);
    while i < cands.len()
        invariant
            i <= cands.len(),
            trs == state.translations_v(),
            cv == cands.deep_view(),
            cv == spec_candidate_lemmas(word@),
            scan_translations(trs, cv, None) == scan_translations(
                trs,
                cv.skip(i as int),
                match found {
                    Some(f) => Some(f@),
                    None => None,
                },
            ),
        decreases cands.len() - i,
    {
        let ghost rest = cv.skip(i as int);
        assert(rest[0] == cands@[i as int]@);
        assert(rest.drop_first() =~= cv.skip(i + 1));
        match state.translations.get(cands[i].as_str()) {
            None => {},
            Some(tr) => {
                let compact = compact_translation(tr.as_str(), 10);
                if compact.as_str().unicode_len() > 0 {
                    if found.is_none() {
                        found = Some(compact.clone());
                    }
                    if !contains_inflection_note(tr.as_str()) {
                        return Some(compact);
                    }
                }
            },
        }
        i += 1;
    }
    assert(cv.skip(cands.len() as int) =~= Seq::<Seq<char>>::empty());
    found
}

// ---------------------------------------------------------------------------
// Lexicon entries
// ---------------------------------------------------------------------------

/// The entry of the first candidate the lexicon holds.
pub open spec fn first_entry(lex: Map<Seq<char>, EntryView>, cands: Seq<Seq<char>>) -> Option<EntryView>
    decreases cands.len(),
{
    if cands.len() == 0 {
        None
    } else if lex.contains_key(cands[0]) {
        Some(lex[cands[0]])
    } else {
        first_entry(lex, cands.drop_first())
    }
}

pub open spec fn or_empty(o: Option<Seq<char>>) -> Seq<char> {
    match o {
        Some(x) => x,
        None => seq![],
    }
}

/// What a lookup gives a word: the first entry of its candidate forms in
/// the lexicon, with a blank pronunciation or meaning filled in from the
/// dictionaries where those are wanted; else, where the dictionaries give
/// something, a new entry for the word.
pub open spec fn spec_lookup_entry(
    pron: Map<Seq<char>, Seq<Seq<Seq<char>>>>,
    trs: Map<Seq<char>, Seq<char>>,
    lex: Map<Seq<char>, EntryView>,
    word: Seq<char>,
    use_offline_translation: bool,
    use_pronunciation: bool,
) -> Option<EntryView> {
    let gen_ipa = or_empty(spec_lookup_generated_ipa(pron, word));
    let gen_zh = or_empty(spec_lookup_generated_translation(trs, word));
    match first_entry(lex, spec_candidate_lemmas(word)) {
        Some(e) => Some(
            EntryView {
                term: e.term,
                ipa: if use_pronunciation && trim(e.ipa).len() == 0 {
                    gen_ipa
                } else {
                    e.ipa
                },
                zh: if use_offline_translation && trim(e.zh).len() == 0 {
                    gen_zh
                } else {
                    e.zh
                },
                hard: e.hard,
            },
        ),
        None => {
            let ipa = if use_pronunciation {
                gen_ipa
            } else {
                seq![]
            };
            let zh = if use_offline_translation {
                gen_zh
            } else {
                seq![]
            };
            if ipa.len() == 0 && zh.len() == 0 {
                None
            } else {
                Some(EntryView { term: word, ipa, zh, hard: false })
            }
        },
    }
}

/// Whether a lookup adds a new entry to the lexicon.
pub open spec fn lookup_adds(lex: Map<Seq<char>, EntryView>, word: Seq<char>, result: Option<EntryView>) -> bool {
    first_entry(lex, spec_candidate_lemmas(word)) is None && result is Some
}

fn generated_ipa_or_empty(state: &AppState, word: &str) -> (r: String)
    requires
        state.wf(),
    ensures
        r@ == or_empty(spec_lookup_generated_ipa(state.pronunciations_v(), word@)),
{
    match lookup_generated_ipa(state, word) {
        Some(s) => s,
        None => String::new(),
    }
}

fn generated_translation_or_empty(state: &AppState, word: &str) -> (r: String)
    ensures
        r@ == or_empty(spec_lookup_generated_translation(state.translations_v(), word@)),
{
    match lookup_generated_translation(state, word) {
        Some(s) => s,
        None => String::new(),
    }
}

fn is_blank(s: &String) -> (r: bool)
    ensures
        r == (trim(s@).len() == 0),
{
    let v = chars_of(s.as_str());
    trim_chars(&v).len() == 0
}

fn find_first_entry(lexicon: &Lexicon, cands: &Vec<String>) -> (r: Option<LexiconEntry>)
    ensures
        r matches Some(e) ==> first_entry(lexicon.view_map(), cands.deep_view()) == Some(
            entry_view(e),
        ),
        r is None ==> first_entry(lexicon.view_map(), cands.deep_view()) is None,
{
    let ghost cv = cands.deep_view();
    let mut i: usize = 0;
    assert(cv.skip(0) =~= cv);
    while i < cands.len()
        invariant
            i <= cands.len(),
            cv == cands.deep_view(),
            first_entry(lexicon.view_map(), cv) == first_entry(lexicon.view_map(), cv.skip(i as int)),
        decreases cands.len() - i,
    {
        let ghost rest = cv.skip(i as int);
        assert(rest[0] == cands@[i as int]@);
        assert(rest.drop_first() =~= cv.skip(i + 1));
        match lexicon.get(cands[i].as_str()) {
            Some(e) => return Some(e.duplicate()),
            None => {},
        }
        i += 1;
    }
    assert(cv.skip(cands.len() as int) =~= Seq::<Seq<char>>::empty());
    None
}

/// Looks a word up: the first of its candidate forms that the lexicon
/// holds, with a blank pronunciation filled from the pronunciation
/// dictionary when `use_pronunciation` is set and a blank meaning from the
/// offline dictionary when `use_offline_translation` is set. A word the
/// lexicon lacks gets a new entry where the dictionaries give it something,
/// and that entry is added to the lexicon.
pub fn lookup_entry(
    state: &AppState,
    word: &str,
    lexicon: &mut Lexicon,
    use_offline_translation: bool,
    use_pronunciation: bool,
) -> (r: Option<LexiconEntry>)
    requires
        state.wf(),
        old(lexicon).wf(),
    ensures
        final(lexicon).wf(),
        match r {
            Some(e) => spec_lookup_entry(
                state.pronunciations_v(),
                state.translations_v(),
                old(lexicon).view_map(),
                word@,
                use_offline_translation,
                use_pronunciation,
            ) == Some(entry_view(e)),
            None => spec_lookup_entry(
                state.pronunciations_v(),
                state.translations_v(),
                old(lexicon).view_map(),
                word@,
                use_offline_translation,
                use_pronunciation,
            ) is None,
        },
        ({
            let result = spec_lookup_entry(
                state.pronunciations_v(),
                state.translations_v(),
                old(lexicon).view_map(),
                word@,
                use_offline_translation,
                use_pronunciation,
            );
            if lookup_adds(old(lexicon).view_map(), word@, result) {
                &&& final(lexicon).view_map() == spec_add_entry(old(lexicon).view_map(), result.unwrap())
                &&& final(lexicon).key_order() == add_keys(
                    old(lexicon).key_order(),
                    spec_key_variants(word@),
                )
            } else {
                &&& final(lexicon).view_map() == old(lexicon).view_map()
                &&& final(lexicon).key_order() == old(lexicon).key_order()
            }
        }),
{
    let cands = candidate_lemmas(word);
    match find_first_entry(lexicon, &cands) {
        Some(entry) => {
            let mut resolved = entry;
            if use_pronunciation && is_blank(&resolved.ipa) {
                resolved.ipa = generated_ipa_or_empty(state, word);
            }
            if use_offline_translation && is_blank(&resolved.zh) {
                resolved.zh = generated_translation_or_empty(state, word);
            }
            return Some(resolved);
        },
        None => {},
    }
    let generated_ipa = if use_pronunciation {
        generated_ipa_or_empty(state, word)
    } else {
        String::new()
    };
    let translation = if use_offline_translation {
        generated_translation_or_empty(state, word)
    } else {
        String::new()
    };
    if generated_ipa.as_str().unicode_len() == 0 && translation.as_str().unicode_len() == 0 {
        return None;
    }
    let entry = LexiconEntry { term: owned(word), ipa: generated_ipa, zh: translation, hard: false };
    add_entry(lexicon, entry.duplicate());
    Some(entry)
}

// ---------------------------------------------------------------------------
// Which words get an annotation
// ---------------------------------------------------------------------------

/// The words a reader is taken to know: those of the grade, and the terms
/// the reader chose to leave without annotation.
pub struct KnownWords<'a> {
    pub grade: &'a StringHashSet,
    pub ignored: StringHashSet,
}

impl<'a> KnownWords<'a> {
    pub open spec fn view_set(&self) -> Set<Seq<char>> {
        self.grade@.union(self.ignored@)
    }

    /// Whether `word` is known.
    pub fn contains(&self, word: &str) -> (r: bool)
        ensures
            r == self.view_set().contains(word@),
    {
        self.grade.contains(word) || self.ignored.contains(word)
    }
}

/// Whether some candidate form of `word` is a hard term.
pub open spec fn is_hard_word(word: Seq<char>, hard_terms: Set<Seq<char>>) -> bool {
    exists|k: int|
        0 <= k < spec_candidate_lemmas(word).len() && hard_terms.contains(
            #[trigger] spec_candidate_lemmas(word)[k],
        )
}

/// Whether a word gets an annotation: always for a hard term; never for a
/// basic or a known word; for a word with an entry, when the entry is hard,
/// the word is long enough for the grade, is a compound, or is long and has
/// three syllables or more, and for every word at the two first grades; for
/// a word without an entry, when it is long enough for unknown words.
pub open spec fn spec_should_annotate_word(
    basic_words: Set<Seq<char>>,
    word: Seq<char>,
    entry: Option<EntryView>,
    hard_terms: Set<Seq<char>>,
    profile: ProfileView,
    known_words: Set<Seq<char>>,
) -> bool {
    let key = spec_normalize_key(word);
    let letters = crate::tokens::count_alpha(word);
    if is_hard_word(word, hard_terms) {
        true
    } else if key.len() == 0 || basic_words.contains(key) {
        false
    } else if known_words.contains(key) {
        false
    } else {
        match entry {
            Some(e) => {
                ||| e.hard
                ||| letters >= profile.lexicon_min_len
                ||| has_char(key, '-')
                ||| has_char(key, ' ')
                ||| (crate::pronounce::spec_ipa_syllable_count(e.ipa) >= 3 && letters >= (if profile.lexicon_min_len >= 7 {
                    (profile.lexicon_min_len - 2) as nat
                } else {
                    5nat
                }))
                ||| profile.code == "P1"@
                ||| profile.code == "P2"@
            },
            None => letters >= profile.unknown_min_len,
        }
    }
}

/// A hard term (one of the lexicon's, or one the user asks to annotate) is
/// annotated whatever the grade.
pub proof fn hard_terms_are_always_annotated(
    basic_words: Set<Seq<char>>,
    word: Seq<char>,
    entry: Option<EntryView>,
    hard_terms: Set<Seq<char>>,
    profile: ProfileView,
    known_words: Set<Seq<char>>,
)
    requires
        is_hard_word(word, hard_terms),
    ensures
        spec_should_annotate_word(basic_words, word, entry, hard_terms, profile, known_words),
{
}

/// A word that is basic, that the grade knows, or that the user asks to
/// leave alone is not annotated unless it is a hard term.
pub proof fn known_words_stay_plain(
    basic_words: Set<Seq<char>>,
    word: Seq<char>,
    entry: Option<EntryView>,
    hard_terms: Set<Seq<char>>,
    profile: ProfileView,
    known_words: Set<Seq<char>>,
)
    requires
        basic_words.contains(spec_normalize_key(word)) || known_words.contains(spec_normalize_key(word)),
        !is_hard_word(word, hard_terms),
    ensures
        !spec_should_annotate_word(basic_words, word, entry, hard_terms, profile, known_words),
{
}

/// A word that is neither basic nor known to the grade, and has letters to
/// make a key.
pub open spec fn open_to_annotation(word: Seq<char>, basic_words: Set<Seq<char>>, known_words: Set<Seq<char>>) -> bool {
    let key = spec_normalize_key(word);
    key.len() > 0 && !basic_words.contains(key) && !known_words.contains(key)
}

/// At the two first grades every word with a dictionary entry is annotated
/// exactly when it is a hard term or neither basic nor known, whatever its
/// length and syllables.
pub proof fn first_grades_annotate_every_entry(
    basic_words: Set<Seq<char>>,
    word: Seq<char>,
    e: EntryView,
    hard_terms: Set<Seq<char>>,
    profile: ProfileView,
    known_words: Set<Seq<char>>,
)
    requires
        profile.code == "P1"@ || profile.code == "P2"@,
    ensures
        spec_should_annotate_word(basic_words, word, Some(e), hard_terms, profile, known_words) == (is_hard_word(
            word,
            hard_terms,
        ) || open_to_annotation(word, basic_words, known_words)),
{
}

/// At any grade, a word open to annotation is annotated when its entry is
/// hard, when it has at least the grade's number of letters, or when it is
/// a compound; a word without an entry is annotated exactly when it is a
/// hard term, or open to annotation with at least the grade's number of
/// letters for unknown words.
pub proof fn grade_thresholds_decide(
    basic_words: Set<Seq<char>>,
    word: Seq<char>,
    entry: Option<EntryView>,
    hard_terms: Set<Seq<char>>,
    profile: ProfileView,
    known_words: Set<Seq<char>>,
)
    ensures
        ({
            let key = spec_normalize_key(word);
            let letters = crate::tokens::count_alpha(word);
            let r = spec_should_annotate_word(basic_words, word, entry, hard_terms, profile, known_words);
            &&& entry matches Some(e) ==> open_to_annotation(word, basic_words, known_words) && (e.hard || letters
                >= profile.lexicon_min_len || has_char(key, '-') || has_char(key, ' ')) ==> r
            &&& entry is None ==> r == (is_hard_word(word, hard_terms) || (open_to_annotation(
                word,
                basic_words,
                known_words,
            ) && letters >= profile.unknown_min_len))
        }),
{
}

fn any_hard(cands: &Vec<String>, hard_terms: &StringHashSet) -> (r: bool)
    ensures
        r == exists|k: int| 0 <= k < cands.deep_view().len() && hard_terms@.contains(
            #[trigger] cands.deep_view()[k],
        ),
{
    let mut i: usize = 0;
    while i < cands.len()
        invariant
            i <= cands.len(),
            forall|k: int| 0 <= k < i ==> !hard_terms@.contains(#[trigger] cands.deep_view()[k]),
        decreases cands.len() - i,
    {
        assert(cands.deep_view()[i as int] == cands@[i as int]@);
        if hard_terms.contains(cands[i].as_str()) {
            return true;
        }
        i += 1;
    }
    false
}

/// Whether a word gets an annotation, given its entry, the hard terms, the
/// grade and the words the reader is taken to know.
pub fn should_annotate_word(
    state: &AppState,
    word: &str,
    entry: Option<&LexiconEntry>,
    hard_terms: &StringHashSet,
    profile: &GradeProfile,
    known_words: &KnownWords,
) -> (r: bool)
    ensures
        r == spec_should_annotate_word(
            state.basic_words@,
            word@,
            match entry {
                Some(e) => Some(entry_view(*e)),
                None => None,
            },
            hard_terms@,
            profile_view(*profile),
            known_words.view_set(),
        ),
{
    let key = normalize_key(word);
    let cands = candidate_lemmas(word);
    if any_hard(&cands, hard_terms) {
        return true;
    }
    if key.as_str().unicode_len() == 0 || state.basic_words.contains(key.as_str()) {
        return false;
    }
    if known_words.contains(key.as_str()) {
        return false;
    }
    let letters = crate::tokens::alpha_len(word);
    match entry {
        Some(e) => {
            if e.hard {
                return true;
            }
            if letters >= profile.lexicon_min_len {
                return true;
            }
            let kv = chars_of(key.as_str());
            if chars_has(&kv, '-') || chars_has(&kv, ' ') {
                return true;
            }
            let floor = if profile.lexicon_min_len >= 7 {
                profile.lexicon_min_len - 2
            } else {
                5
            };
            if crate::pronounce::ipa_syllable_count(e) >= 3 && letters >= floor {
                return true;
            }
            crate::text::str_eq(profile.code.as_str(), "P1") || crate::text::str_eq(
                profile.code.as_str(),
                "P2",
            )
        },
        None => letters >= profile.unknown_min_len,
    }
}

// ---------------------------------------------------------------------------
// Hard terms
// ---------------------------------------------------------------------------

/// The spellings of the terms `terms`, all together.
pub open spec fn variant_keys(terms: Seq<Seq<char>>) -> Set<Seq<char>>
    decreases terms.len(),
{
    if terms.len() == 0 {
        Set::empty()
    } else {
        variant_keys(terms.drop_last()).union(spec_key_variants(terms.last()).to_set())
    }
}

/// The terms that are always annotated: the single-word keys of hard
/// lexicon entries, and every spelling of the terms in `extra`.
pub open spec fn spec_extract_hard_terms(extra: Seq<char>, lex: Map<Seq<char>, EntryView>) -> Set<
    Seq<char>,
> {
    Set::new(|k: Seq<char>| lex.contains_key(k) && lex[k].hard && !has_char(k, ' ')).union(
        variant_keys(crate::tokens::spec_split_terms(extra)),
    )
}

fn insert_all(set: &mut StringHashSet, items: &Vec<String>)
    ensures
        final(set)@ == old(set)@.union(items.deep_view().to_set()),
{
    let mut i: usize = 0;
    while i < items.len()
        invariant
            i <= items.len(),
            set@ == old(set)@.union(items.deep_view().take(i as int).to_set()),
        decreases items.len() - i,
    {
        let ghost t0 = items.deep_view().take(i as int);
        let ghost t1 = items.deep_view().take(i + 1);
        assert(t1 =~= t0.push(items@[i as int]@));
        set.insert(items[i].clone());
        assert(set@ =~= old(set)@.union(t1.to_set())) by {
            assert forall|w: Seq<char>| t1.to_set().contains(w) <==> (t0.to_set().contains(w) || w
                == items@[i as int]@) by {
                if t1.contains(w) {
                    let k = choose|k: int| 0 <= k < t1.len() && t1[k] == w;
                    if k < i {
                        assert(t0[k] == w);
                    }
                }
                if t0.contains(w) {
                    let k = choose|k: int| 0 <= k < t0.len() && t0[k] == w;
                    assert(t1[k] == w);
                }
                if w == items@[i as int]@ {
                    assert(t1[i as int] == w);
                }
            }
        }
        i += 1;
    }
    assert(items.deep_view().take(items.len() as int) =~= items.deep_view());
}

/// The terms that are always annotated: each single-word key of a hard
/// lexicon entry, and each spelling of each term of `extra_text`.
pub fn extract_hard_terms(extra_text: &str, lexicon: &Lexicon) -> (r: StringHashSet)
    requires
        lexicon.wf(),
    ensures
        r@ == spec_extract_hard_terms(extra_text@, lexicon.view_map()),
{
    let ghost lex = lexicon.view_map();
    let ghost order = lexicon.key_order();
    let ghost hard_keys = Set::new(
        |k: Seq<char>| lex.contains_key(k) && lex[k].hard && !has_char(k, ' '),
    );
    proof {
        lexicon.lemma_keys();
    }
    let mut hard = StringHashSet::new();
    let mut i: usize = 0;
    let n = lexicon.len();
    while i < n
        invariant
            i <= n,
            n == order.len(),
            lexicon.wf(),
            lex == lexicon.view_map(),
            order == lexicon.key_order(),
            forall|k: Seq<char>| #[trigger] lex.contains_key(k) <==> order.contains(k),
            hard_keys == Set::new(
                |k: Seq<char>| lex.contains_key(k) && lex[k].hard && !has_char(k, ' '),
            ),
            hard@ == hard_keys.intersect(order.take(i as int).to_set()),
        decreases n - i,
    {
        let key = lexicon.key_at(i);
        let ghost t0 = order.take(i as int);
        let ghost t1 = order.take(i + 1);
        assert(t1 =~= t0.push(key@));
        assert(order.contains(key@));
        match lexicon.get(key.as_str()) {
            Some(entry) => {
                let kv = chars_of(key.as_str());
                if entry.hard && !chars_has(&kv, ' ') {
                    hard.insert(key.clone());
                }
            },
            None => {},
        }
        assert(hard@ =~= hard_keys.intersect(t1.to_set())) by {
            assert forall|w: Seq<char>| t1.to_set().contains(w) <==> (t0.to_set().contains(w) || w
                == key@) by {
                if t1.contains(w) {
                    let k = choose|k: int| 0 <= k < t1.len() && t1[k] == w;
                    if k < i {
                        assert(t0[k] == w);
                    }
                }
                if t0.contains(w) {
                    let k = choose|k: int| 0 <= k < t0.len() && t0[k] == w;
                    assert(t1[k] == w);
                }
                if w == key@ {
                    assert(t1[i as int] == w);
                }
            }
        }
        i += 1;
    }
    assert(order.take(n as int) =~= order);
    assert(hard@ =~= hard_keys) by {
        assert forall|w: Seq<char>| hard_keys.contains(w) implies order.to_set().contains(w) by {
            assert(lex.contains_key(w));
        }
    }
    let terms = crate::tokens::split_terms(extra_text);
    let ghost tv = terms.deep_view();
    let mut j: usize = 0;
    assert(tv.take(0) =~= Seq::<Seq<char>>::empty());
    while j < terms.len()
        invariant
            j <= terms.len(),
            tv == terms.deep_view(),
            hard@ == hard_keys.union(variant_keys(tv.take(j as int))),
        decreases terms.len() - j,
    {
        assert(tv.take(j + 1).drop_last() =~= tv.take(j as int));
        assert(tv[j as int] == terms@[j as int]@);
        let keys = key_variants(terms[j].as_str());
        insert_all(&mut hard, &keys);
        assert(hard@ =~= hard_keys.union(variant_keys(tv.take(j + 1))));
        j += 1;
    }
    assert(tv.take(terms.len() as int) =~= tv);
    hard
}

/// Whether some candidate form of `word` is a hard term.
pub fn any_hard_candidate(word: &str, hard_terms: &StringHashSet) -> (r: bool)
    ensures
        r == is_hard_word(word@, hard_terms@),
{
    let cands = candidate_lemmas(word);
    any_hard(&cands, hard_terms)
}

} // verus!
