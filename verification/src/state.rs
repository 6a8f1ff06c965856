//! The reader's data: grade profiles, the words each grade knows, the basic
//! words, the seed lexicon, the offline dictionary and the pronunciation
//! dictionary, each read from its text.
use vstd::prelude::*;
use vstd::hash_map::StringHashMap;
use vstd::hash_set::StringHashSet;
use crate::custom::{index_of, find_char, sub_vec};
use crate::lexicon::{add_entry, add_keys, entry_view, spec_add_entry, EntryView, Lexicon, LexiconEntry};
use crate::text::{
    chars_eq_str, chars_of, chars_starts_with, owned, spec_is_digit, split_at_set, split_chars,
    starts_with, string_of, trim, trim_chars, CharSet,
};
use crate::tokens::{lines_of, spec_lines};
use vstd::utf8::{decode_utf8, valid_utf8};

verus! {

// ---------------------------------------------------------------------------
// Fields and numbers
// ---------------------------------------------------------------------------

/// The non-empty fields among `fields`.
pub open spec fn nonempty_fields(fields: Seq<Seq<char>>) -> Seq<Seq<char>>
    decreases fields.len(),
{
    if fields.len() == 0 {
        seq![]
    } else if fields.last().len() > 0 {
        nonempty_fields(fields.drop_last()).push(fields.last())
    } else {
        nonempty_fields(fields.drop_last())
    }
}

/// `str::split_whitespace`: the non-empty runs between whitespace.
pub open spec fn split_ws(s: Seq<char>) -> Seq<Seq<char>> {
    nonempty_fields(split_at_set(s, CharSet::Whitespace))
}

/// The words of `v`, split at whitespace.
pub fn split_whitespace_chars(v: &Vec<char>) -> (r: Vec<String>)
    ensures
        r.deep_view() == split_ws(v@),
{
    let fields = split_chars(v, CharSet::Whitespace);
    let ghost fv = fields@.map_values(|f: Vec<char>| f@);
    let mut out: Vec<String> = Vec::new();
    let mut i: usize = 0;
    assert(out.deep_view() =~= nonempty_fields(fv.take(0)));
    while i < fields.len()
        invariant
            i <= fields.len(),
            fv == fields@.map_values(|f: Vec<char>| f@),
            fv == split_at_set(v@, CharSet::Whitespace),
            out.deep_view() == nonempty_fields(fv.take(i as int)),
        decreases fields.len() - i,
    {
        assert(fv.take(i + 1).drop_last() =~= fv.take(i as int));
        assert(fv[i as int] == fields@[i as int]@);
        if fields[i].len() > 0 {
            let ghost before = out.deep_view();
            out.push(string_of(&fields[i]));
            assert(out.deep_view() =~= before.push(fields@[i as int]@));
        }
        i += 1;
    }
    assert(fv.take(fields.len() as int) =~= fv);
    out
}

/// The value of a string of decimal digits.
pub open spec fn digits_value(d: Seq<char>) -> nat
    decreases d.len(),
{
    if d.len() == 0 {
        0
    } else {
        10 * digits_value(d.drop_last()) + (d.last() as nat - '0' as nat) as nat
    }
}

/// Whether every character of `d` is a decimal digit.
pub open spec fn all_digits(d: Seq<char>) -> bool {
    forall|k: int| 0 <= k < d.len() ==> spec_is_digit(#[trigger] d[k])
}

/// `str::parse::<usize>`: an optional `+`, then at least one decimal digit,
/// with a value that fits.
pub open spec fn spec_parse_usize(s: Seq<char>) -> Option<nat> {
    let d = if s.len() > 0 && s[0] == '+' {
        s.drop_first()
    } else {
        s
    };
    if d.len() > 0 && all_digits(d) && digits_value(d) <= usize::MAX {
        Some(digits_value(d))
    } else {
        None
    }
}

/// Parses a decimal number that fits in `usize`.
pub fn parse_usize(v: &Vec<char>) -> (r: Option<usize>)
    ensures
        r matches Some(n) ==> spec_parse_usize(v@) == Some(n as nat),
        r is None ==> spec_parse_usize(v@) is None,
{
    let start: usize = if v.len() > 0 && v[0] == '+' {
        1
    } else {
        0
    };
    let ghost d = v@.skip(start as int);
    assert(start == 1 ==> d =~= v@.drop_first());
    assert(start == 0 ==> d =~= v@);
    if start >= v.len() {
        return None;
    }
    let ghost expected = if d.len() > 0 && all_digits(d) && digits_value(d) <= usize::MAX {
        Some(digits_value(d))
    } else {
        None
    };
    assert(spec_parse_usize(v@) == expected);
    let mut value: usize = 0;
    let mut i = start;
    while i < v.len()
        invariant
            start <= i <= v.len(),
            d == v@.skip(start as int),
            spec_parse_usize(v@) == expected,
            expected == (if d.len() > 0 && all_digits(d) && digits_value(d) <= usize::MAX {
                Some(digits_value(d))
            } else {
                None
            }),
            all_digits(v@.subrange(start as int, i as int)),
            digits_value(v@.subrange(start as int, i as int)) == value as nat,
        decreases v.len() - i,
    {
        let c = v[i];
        let ghost sub = v@.subrange(start as int, i + 1);
        assert(sub.drop_last() =~= v@.subrange(start as int, i as int));
        if !('0' <= c && c <= '9') {
            assert(d[i - start] == c);
            assert(!spec_is_digit(d[i - start]));
            return None;
        }
        let digit = (c as u32 - '0' as u32) as usize;
        if value > (usize::MAX - digit) / 10 {
            proof {
                let rest = v@.subrange(start as int, i + 1);
                assert(digits_value(rest) == 10 * value + digit);
                if all_digits(d) {
                    lemma_digits_grow(d, (i + 1 - start) as int);
                    assert(d.take((i + 1 - start) as int) =~= rest);
                }
            }
            return None;
        }
        value = value * 10 + digit;
        i += 1;
    }
    assert(v@.subrange(start as int, v.len() as int) =~= d);
    Some(value)
}

/// A longer run of digits is worth at least as much as its start.
proof fn lemma_digits_grow(d: Seq<char>, k: int)
    requires
        0 <= k <= d.len(),
        all_digits(d),
    ensures
        digits_value(d.take(k)) <= digits_value(d),
    decreases d.len() - k,
{
    if k < d.len() {
        lemma_digits_grow(d, k + 1);
        assert(d.take(k + 1).drop_last() =~= d.take(k));
        assert(digits_value(d.take(k + 1)) >= 10 * digits_value(d.take(k)));
    } else {
        assert(d.take(k) =~= d);
    }
}

// ---------------------------------------------------------------------------
// Grade profiles
// ---------------------------------------------------------------------------

/// A reading grade: its code and label, the vocabulary it assumes, and the
/// word lengths from which lexicon words and unknown words are annotated.
pub struct GradeProfile {
    pub code: String,
    pub label: String,
    pub estimated_vocab: usize,
    pub lexicon_min_len: usize,
    pub unknown_min_len: usize,
    pub note: String,
}

/// What a grade profile holds, as values.
pub struct ProfileView {
    pub code: Seq<char>,
    pub label: Seq<char>,
    pub estimated_vocab: nat,
    pub lexicon_min_len: nat,
    pub unknown_min_len: nat,
    pub note: Seq<char>,
}

pub open spec fn profile_view(p: GradeProfile) -> ProfileView {
    ProfileView {
        code: p.code@,
        label: p.label@,
        estimated_vocab: p.estimated_vocab as nat,
        lexicon_min_len: p.lexicon_min_len as nat,
        unknown_min_len: p.unknown_min_len as nat,
        note: p.note@,
    }
}

pub open spec fn profiles_view(ps: Seq<GradeProfile>) -> Seq<ProfileView> {
    ps.map_values(|p: GradeProfile| profile_view(p))
}

/// The profile on a line of at least six tab-separated columns: code,
/// label, vocabulary, lexicon length, unknown-word length and note.
pub open spec fn profile_from_cols(cols: Seq<Seq<char>>) -> Result<ProfileView, Seq<char>> {
    match spec_parse_usize(cols[2]) {
        None => Err("invalid profile vocab"@),
        Some(vocab) => match spec_parse_usize(cols[3]) {
            None => Err("invalid profile lexicon length"@),
            Some(lex) => match spec_parse_usize(cols[4]) {
                None => Err("invalid profile unknown length"@),
                Some(unknown) => Ok(
                    ProfileView {
                        code: cols[0],
                        label: cols[1],
                        estimated_vocab: vocab,
                        lexicon_min_len: lex,
                        unknown_min_len: unknown,
                        note: cols[5],
                    },
                ),
            },
        },
    }
}

/// `p` in front of what `r` holds, or the error of `r`.
pub open spec fn prepend_ok<T>(p: Seq<T>, r: Result<Seq<T>, Seq<char>>) -> Result<Seq<T>, Seq<char>> {
    match r {
        Ok(rest) => Ok(p + rest),
        Err(e) => Err(e),
    }
}

/// The profiles of `lines`; lines with fewer than six columns are skipped,
/// and the first bad number is the error.
pub open spec fn profiles_from(lines: Seq<Seq<char>>) -> Result<Seq<ProfileView>, Seq<char>>
    decreases lines.len(),
{
    if lines.len() == 0 {
        Ok(seq![])
    } else {
        let cols = split_at_set(lines[0], CharSet::Tab);
        if cols.len() < 6 {
            profiles_from(lines.drop_first())
        } else {
            match profile_from_cols(cols) {
                Err(e) => Err(e),
                Ok(p) => prepend_ok(seq![p], profiles_from(lines.drop_first())),
            }
        }
    }
}

/// The grade profiles of a profile table, or why it cannot be read.
pub open spec fn spec_load_profiles(text: Seq<char>) -> Result<Seq<ProfileView>, Seq<char>> {
    match profiles_from(spec_lines(text)) {
        Ok(ps) => if ps.len() == 0 {
            Err("missing grade profiles"@)
        } else {
            Ok(ps)
        },
        Err(e) => Err(e),
    }
}

proof fn lemma_prepend_ok<T>(a: Seq<T>, b: Seq<T>, r: Result<Seq<T>, Seq<char>>)
    ensures
        prepend_ok(a, prepend_ok(b, r)) == prepend_ok(a + b, r),
{
    match r {
        Ok(x) => {
            assert(a + (b + x) =~= (a + b) + x);
        },
        Err(_) => {},
    }
}

fn profile_from_fields(cols: &Vec<Vec<char>>) -> (r: Result<GradeProfile, String>)
    requires
        cols.len() >= 6,
    ensures
        r matches Ok(p) ==> profile_from_cols(cols@.map_values(|f: Vec<char>| f@)) == Ok::<
            ProfileView,
            Seq<char>,
        >(profile_view(p)),
        r matches Err(e) ==> profile_from_cols(cols@.map_values(|f: Vec<char>| f@)) == Err::<
            ProfileView,
            Seq<char>,
        >(e@),
{
    let ghost cv = cols@.map_values(|f: Vec<char>| f@);
    assert(cv[2] == cols@[2]@ && cv[3] == cols@[3]@ && cv[4] == cols@[4]@);
    assert(cv[0] == cols@[0]@ && cv[1] == cols@[1]@ && cv[5] == cols@[5]@);
    let vocab = match parse_usize(&cols[2]) {
        Some(n) => n,
        None => return Err(owned("invalid profile vocab")),
    };
    let lex = match parse_usize(&cols[3]) {
        Some(n) => n,
        None => return Err(owned("invalid profile lexicon length")),
    };
    let unknown = match parse_usize(&cols[4]) {
        Some(n) => n,
        None => return Err(owned("invalid profile unknown length")),
    };
    Ok(
        GradeProfile {
            code: string_of(&cols[0]),
            label: string_of(&cols[1]),
            estimated_vocab: vocab,
            lexicon_min_len: lex,
            unknown_min_len: unknown,
            note: string_of(&cols[5]),
        },
    )
}

/// Reads the grade profiles from their table: one profile per line with at
/// least six tab-separated columns; an error for a column that is not a
/// number, or for a table without profiles.
pub fn load_profiles(text: &str) -> (r: Result<Vec<GradeProfile>, String>)
    ensures
        r matches Ok(ps) ==> spec_load_profiles(text@) == Ok::<Seq<ProfileView>, Seq<char>>(
            profiles_view(ps@),
        ),
        r matches Err(e) ==> spec_load_profiles(text@) == Err::<Seq<ProfileView>, Seq<char>>(e@),
{
    let v = chars_of(text);
    let lines = lines_of(&v);
    let ghost lv = lines.deep_view();
    let mut profiles: Vec<GradeProfile> = Vec::new();
    let mut i: usize = 0;
    assert(lv.skip(0) =~= lv);
    assert(profiles_view(profiles@) =~= Seq::<ProfileView>::empty());
    assert(prepend_ok(Seq::<ProfileView>::empty(), profiles_from(lv)) == profiles_from(lv)) by {
        match profiles_from(lv) {
            Ok(x) => {
                assert(Seq::<ProfileView>::empty() + x =~= x);
            },
            Err(_) => {},
        }
    }
    while i < lines.len()
        invariant
            i <= lines.len(),
            lv == lines.deep_view(),
            lv == spec_lines(text@),
            prepend_ok(profiles_view(profiles@), profiles_from(lv.skip(i as int))) == profiles_from(
                lv,
            ),
        decreases lines.len() - i,
    {
        let ghost rest = lv.skip(i as int);
        assert(rest[0] == lines@[i as int]@);
        assert(rest.drop_first() =~= lv.skip(i + 1));
        let line = chars_of(lines[i].as_str());
        let cols = split_chars(&line, CharSet::Tab);
        if cols.len() >= 6 {
            match profile_from_fields(&cols) {
                Ok(p) => {
                    let ghost before = profiles_view(profiles@);
                    profiles.push(p);
                    assert(profiles_view(profiles@) =~= before + seq![profile_view(p)]);
                    proof {
                        lemma_prepend_ok(before, seq![profile_view(p)], profiles_from(lv.skip(i + 1)));
                    }
                },
                Err(e) => {
                    return Err(e);
                },
            }
        }
        i += 1;
    }
    assert(lv.skip(lines.len() as int) =~= Seq::<Seq<char>>::empty());
    assert(profiles_view(profiles@) + Seq::<ProfileView>::empty() =~= profiles_view(profiles@));
    if profiles.len() == 0 {
        return Err(owned("missing grade profiles"));
    }
    Ok(profiles)
}

// ---------------------------------------------------------------------------
// Grade word lists
// ---------------------------------------------------------------------------

/// The word lists of each grade code, as values.
pub open spec fn tiers_view(m: StringHashMap<Vec<String>>) -> Map<Seq<char>, Seq<Seq<char>>> {
    Map::new(|k: Seq<char>| m@.contains_key(k), |k: Seq<char>| m@[k].deep_view())
}

/// The word lists after reading `lines`: a line is a code, a tab and the
/// words, split at whitespace; a later line for a code replaces an earlier.
pub open spec fn tiers_from(lines: Seq<Seq<char>>) -> Map<Seq<char>, Seq<Seq<char>>>
    decreases lines.len(),
{
    if lines.len() == 0 {
        Map::empty()
    } else {
        let m = tiers_from(lines.drop_last());
        let line = lines.last();
        match index_of(line, '\t') {
            None => m,
            Some(i) => m.insert(line.take(i), split_ws(line.skip(i + 1))),
        }
    }
}

/// Reads the word lists of the grades: one line per grade, its code, a tab
/// and its words.
pub fn load_tiers(text: &str) -> (r: StringHashMap<Vec<String>>)
    ensures
        tiers_view(r) == tiers_from(spec_lines(text@)),
{
    let v = chars_of(text);
    let lines = lines_of(&v);
    let ghost lv = lines.deep_view();
    let mut tiers: StringHashMap<Vec<String>> = StringHashMap::new();
    let mut i: usize = 0;
    assert(tiers_view(tiers) =~= tiers_from(lv.take(0)));
    while i < lines.len()
        invariant
            i <= lines.len(),
            lv == lines.deep_view(),
            tiers_view(tiers) == tiers_from(lv.take(i as int)),
        decreases lines.len() - i,
    {
        assert(lv.take(i + 1).drop_last() =~= lv.take(i as int));
        assert(lv[i as int] == lines@[i as int]@);
        let line = chars_of(lines[i].as_str());
        match find_char(&line, '\t') {
            None => {},
            Some(t) => {
                let code = sub_vec(&line, 0, t);
                let rest = sub_vec(&line, t + 1, line.len());
                assert(code@ =~= line@.take(t as int));
                assert(rest@ =~= line@.skip(t + 1));
                let words = split_whitespace_chars(&rest);
                let ghost before = tiers_view(tiers);
                tiers.insert(string_of(&code), words);
                assert(tiers_view(tiers) =~= before.insert(code@, words.deep_view()));
            },
        }
        i += 1;
    }
    assert(lv.take(lines.len() as int) =~= lv);
    tiers
}

/// The words of a grade's list, where it has one.
pub open spec fn tier_words(tiers: Map<Seq<char>, Seq<Seq<char>>>, code: Seq<char>) -> Set<Seq<char>> {
    if tiers.contains_key(code) {
        tiers[code].to_set()
    } else {
        Set::empty()
    }
}

/// The words of the lists of the grades `codes`, all together.
pub open spec fn tier_union(codes: Seq<Seq<char>>, tiers: Map<Seq<char>, Seq<Seq<char>>>) -> Set<
    Seq<char>,
>
    decreases codes.len(),
{
    if codes.len() == 0 {
        Set::empty()
    } else {
        tier_union(codes.drop_last(), tiers).union(tier_words(tiers, codes.last()))
    }
}

/// How many grades, from the first, reach the first grade with `code`.
pub open spec fn grades_through(codes: Seq<Seq<char>>, code: Seq<char>) -> int
    decreases codes.len(),
{
    if codes.len() == 0 {
        0
    } else if codes[0] == code {
        1
    } else {
        1 + grades_through(codes.drop_first(), code)
    }
}

/// The words a grade knows: those of its own list and of the lists of the
/// grades before it.
pub open spec fn known_for(codes: Seq<Seq<char>>, tiers: Map<Seq<char>, Seq<Seq<char>>>, code: Seq<
    char,
>) -> Set<Seq<char>> {
    tier_union(codes.take(grades_through(codes, code)), tiers)
}

/// The known words of every grade, by code.
pub open spec fn known_words_map(codes: Seq<Seq<char>>, tiers: Map<Seq<char>, Seq<Seq<char>>>) -> Map<
    Seq<char>,
    Set<Seq<char>>,
> {
    Map::new(|c: Seq<char>| codes.contains(c), |c: Seq<char>| known_for(codes, tiers, c))
}

pub open spec fn known_view(m: StringHashMap<StringHashSet>) -> Map<Seq<char>, Set<Seq<char>>> {
    Map::new(|k: Seq<char>| m@.contains_key(k), |k: Seq<char>| m@[k]@)
}

pub open spec fn profile_codes(ps: Seq<ProfileView>) -> Seq<Seq<char>> {
    ps.map_values(|p: ProfileView| p.code)
}

pub proof fn lemma_grades_through(codes: Seq<Seq<char>>, code: Seq<char>, i: int)
    requires
        0 <= i < codes.len(),
        codes[i] == code,
        forall|k: int| 0 <= k < i ==> codes[k] != code,
    ensures
        grades_through(codes, code) == i + 1,
    decreases i,
{
    if i > 0 {
        lemma_grades_through(codes.drop_first(), code, i - 1);
    }
}

pub proof fn lemma_grades_through_contains(codes: Seq<Seq<char>>, code: Seq<char>)
    requires
        codes.contains(code),
    ensures
        1 <= grades_through(codes, code) <= codes.len(),
        codes[grades_through(codes, code) - 1] == code,
    decreases codes.len(),
{
    if codes[0] != code {
        let k = choose|k: int| 0 <= k < codes.len() && codes[k] == code;
        assert(codes.drop_first()[k - 1] == code);
        lemma_grades_through_contains(codes.drop_first(), code);
    }
}

proof fn lemma_tier_union_prefix(codes: Seq<Seq<char>>, tiers: Map<Seq<char>, Seq<Seq<char>>>, a: int, b: int)
    requires
        0 <= a <= b <= codes.len(),
    ensures
        tier_union(codes.take(a), tiers).subset_of(tier_union(codes.take(b), tiers)),
    decreases b - a,
{
    if a < b {
        lemma_tier_union_prefix(codes, tiers, a, b - 1);
        assert(codes.take(b).drop_last() =~= codes.take(b - 1));
    }
}

/// A grade knows every word that an earlier grade knows: the word lists
/// add up from the first grade on, so a later grade annotates no word that
/// an earlier grade would leave plain for being known.
pub proof fn known_words_grow_with_grade(
    codes: Seq<Seq<char>>,
    tiers: Map<Seq<char>, Seq<Seq<char>>>,
    i: int,
    j: int,
)
    requires
        0 <= i <= j < codes.len(),
        forall|k: int| 0 <= k < i ==> codes[k] != codes[i],
        forall|k: int| 0 <= k < j ==> codes[k] != codes[j],
    ensures
        known_for(codes, tiers, codes[i]).subset_of(known_for(codes, tiers, codes[j])),
{
    lemma_grades_through(codes, codes[i], i);
    lemma_grades_through(codes, codes[j], j);
    lemma_tier_union_prefix(codes, tiers, i + 1, j + 1);
}

/// Adds the words of one list to a set.
fn add_words(set: &mut StringHashSet, words: &Vec<String>)
    ensures
        final(set)@ == old(set)@.union(words.deep_view().to_set()),
{
    let mut i: usize = 0;
    while i < words.len()
        invariant
            i <= words.len(),
            set@ == old(set)@.union(words.deep_view().take(i as int).to_set()),
        decreases words.len() - i,
    {
        let ghost before = set@;
        set.insert(words[i].clone());
        assert(words.deep_view().take(i + 1) =~= words.deep_view().take(i as int).push(words[i as int]@));
        assert(set@ =~= old(set)@.union(words.deep_view().take(i + 1).to_set())) by {
            assert forall|w: Seq<char>| words.deep_view().take(i + 1).to_set().contains(w) <==> (
            words.deep_view().take(i as int).to_set().contains(w) || w == words[i as int]@) by {
                let t = words.deep_view().take(i + 1);
                if t.contains(w) {
                    let k = choose|k: int| 0 <= k < t.len() && t[k] == w;
                    if k < i {
                        assert(words.deep_view().take(i as int)[k] == w);
                    }
                }
                if words.deep_view().take(i as int).contains(w) {
                    let k = choose|k: int| 0 <= k < i && words.deep_view().take(i as int)[k] == w;
                    assert(t[k] == w);
                }
                if w == words[i as int]@ {
                    assert(t[i as int] == w);
                }
            }
        }
        i += 1;
    }
    assert(words.deep_view().take(words.len() as int) =~= words.deep_view());
}

/// The known words of one grade.
fn known_words_of(
    profiles: &Vec<GradeProfile>,
    tiers: &StringHashMap<Vec<String>>,
    code: &String,
) -> (r: StringHashSet)
    requires
        profile_codes(profiles_view(profiles@)).contains(code@),
    ensures
        r@ == known_for(profile_codes(profiles_view(profiles@)), tiers_view(*tiers), code@),
{
    let ghost codes = profile_codes(profiles_view(profiles@));
    let mut known = StringHashSet::new();
    let mut t: usize = 0;
    assert(codes.take(0) =~= Seq::<Seq<char>>::empty());
    loop
        invariant
            t < profiles.len(),
            codes == profile_codes(profiles_view(profiles@)),
            codes.contains(code@),
            forall|k: int| 0 <= k < t ==> codes[k] != code@,
            known@ == tier_union(codes.take(t as int), tiers_view(*tiers)),
        decreases profiles.len() - t,
    {
        assert(codes[t as int] == profiles@[t as int].code@);
        assert(codes.take(t + 1).drop_last() =~= codes.take(t as int));
        match tiers.get(profiles[t].code.as_str()) {
            Some(words) => {
                add_words(&mut known, words);
            },
            None => {},
        }
        assert(known@ =~= tier_union(codes.take(t + 1), tiers_view(*tiers)));
        if profiles[t].code == *code {
            proof {
                lemma_grades_through(codes, code@, t as int);
            }
            return known;
        }
        if t + 1 >= profiles.len() {
            proof {
                let k = choose|k: int| 0 <= k < codes.len() && codes[k] == code@;
                assert(false);
            }
            return known;
        }
        t += 1;
    }
}

/// The known words of every grade.
fn build_known_words(profiles: &Vec<GradeProfile>, tiers: &StringHashMap<Vec<String>>) -> (r:
    StringHashMap<StringHashSet>)
    ensures
        known_view(r) == known_words_map(profile_codes(profiles_view(profiles@)), tiers_view(*tiers)),
{
    let ghost codes = profile_codes(profiles_view(profiles@));
    let mut known_words: StringHashMap<StringHashSet> = StringHashMap::new();
    let mut j: usize = 0;
    assert(known_view(known_words) =~= Map::new(
        |c: Seq<char>| codes.take(0).contains(c),
        |c: Seq<char>| known_for(codes, tiers_view(*tiers), c),
    ));
    while j < profiles.len()
        invariant
            j <= profiles.len(),
            codes == profile_codes(profiles_view(profiles@)),
            known_view(known_words) == Map::new(
                |c: Seq<char>| codes.take(j as int).contains(c),
                |c: Seq<char>| known_for(codes, tiers_view(*tiers), c),
            ),
        decreases profiles.len() - j,
    {
        assert(codes[j as int] == profiles@[j as int].code@);
        let known = known_words_of(profiles, tiers, &profiles[j].code);
        let ghost before = known_view(known_words);
        known_words.insert(profiles[j].code.clone(), known);
        assert(known_view(known_words) =~= before.insert(codes[j as int], known_for(
            codes,
            tiers_view(*tiers),
            codes[j as int],
        )));
        assert(before.insert(codes[j as int], known_for(codes, tiers_view(*tiers), codes[j as int])) =~= Map::new(
            |c: Seq<char>| codes.take(j + 1).contains(c),
            |c: Seq<char>| known_for(codes, tiers_view(*tiers), c),
        )) by {
            let t1 = codes.take(j + 1);
            let t0 = codes.take(j as int);
            assert forall|c: Seq<char>| t1.contains(c) <==> (t0.contains(c) || c == codes[j as int]) by {
                if t1.contains(c) {
                    let k = choose|k: int| 0 <= k < t1.len() && t1[k] == c;
                    if k < j {
                        assert(t0[k] == c);
                    }
                }
                if t0.contains(c) {
                    let k = choose|k: int| 0 <= k < t0.len() && t0[k] == c;
                    assert(t1[k] == c);
                }
                if c == codes[j as int] {
                    assert(t1[j as int] == c);
                }
            }
        }
        j += 1;
    }
    assert(codes.take(profiles.len() as int) =~= codes);
    assert(known_view(known_words) =~= known_words_map(codes, tiers_view(*tiers)));
    known_words
}

/// The non-empty trimmed lines of `lines`.
pub open spec fn word_lines(lines: Seq<Seq<char>>) -> Set<Seq<char>>
    decreases lines.len(),
{
    if lines.len() == 0 {
        Set::empty()
    } else if trim(lines.last()).len() > 0 {
        word_lines(lines.drop_last()).insert(trim(lines.last()))
    } else {
        word_lines(lines.drop_last())
    }
}

/// Reads the basic words: one per line, trimmed, blank lines skipped.
pub fn load_basic_words(text: &str) -> (r: StringHashSet)
    ensures
        r@ == word_lines(spec_lines(text@)),
{
    let v = chars_of(text);
    let lines = lines_of(&v);
    let ghost lv = lines.deep_view();
    let mut words = StringHashSet::new();
    let mut i: usize = 0;
    assert(words@ =~= word_lines(lv.take(0)));
    while i < lines.len()
        invariant
            i <= lines.len(),
            lv == lines.deep_view(),
            words@ == word_lines(lv.take(i as int)),
        decreases lines.len() - i,
    {
        assert(lv.take(i + 1).drop_last() =~= lv.take(i as int));
        assert(lv[i as int] == lines@[i as int]@);
        let line = chars_of(lines[i].as_str());
        let t = trim_chars(&line);
        if t.len() > 0 {
            words.insert(string_of(&t));
        }
        i += 1;
    }
    assert(lv.take(lines.len() as int) =~= lv);
    words
}

// ---------------------------------------------------------------------------
// The seed lexicon
// ---------------------------------------------------------------------------

/// The entry on a seed lexicon line of at least four columns: term,
/// pronunciation, meaning and `true` for a hard term.
pub open spec fn seed_entry(cols: Seq<Seq<char>>) -> EntryView {
    EntryView { term: cols[0], ipa: cols[1], zh: cols[2], hard: cols[3] == "true"@ }
}

/// The seed lexicon after reading `lines`, with its keys in order.
pub open spec fn seed_from(lines: Seq<Seq<char>>) -> (Map<Seq<char>, EntryView>, Seq<Seq<char>>)
    decreases lines.len(),
{
    if lines.len() == 0 {
        (Map::empty(), seq![])
    } else {
        let (m, o) = seed_from(lines.drop_last());
        let cols = split_at_set(lines.last(), CharSet::Tab);
        if cols.len() >= 4 {
            let e = seed_entry(cols);
            (spec_add_entry(m, e), add_keys(o, crate::normalize::spec_key_variants(e.term)))
        } else {
            (m, o)
        }
    }
}

/// Reads the seed lexicon: one entry per line with at least four
/// tab-separated columns, stored under each spelling of its term.
pub fn load_seed_lexicon(text: &str) -> (r: Lexicon)
    ensures
        r.wf(),
        (r.view_map(), r.key_order()) == seed_from(spec_lines(text@)),
{
    let v = chars_of(text);
    let lines = lines_of(&v);
    let ghost lv = lines.deep_view();
    let mut lexicon = Lexicon::new();
    let mut i: usize = 0;
    assert(lv.take(0) =~= Seq::<Seq<char>>::empty());
    while i < lines.len()
        invariant
            i <= lines.len(),
            lv == lines.deep_view(),
            lexicon.wf(),
            (lexicon.view_map(), lexicon.key_order()) == seed_from(lv.take(i as int)),
        decreases lines.len() - i,
    {
        assert(lv.take(i + 1).drop_last() =~= lv.take(i as int));
        assert(lv[i as int] == lines@[i as int]@);
        let line = chars_of(lines[i].as_str());
        let cols = split_chars(&line, CharSet::Tab);
        let ghost cv = cols@.map_values(|f: Vec<char>| f@);
        if cols.len() >= 4 {
            assert(cv[0] == cols@[0]@ && cv[1] == cols@[1]@ && cv[2] == cols@[2]@ && cv[3]
                == cols@[3]@);
            let entry = LexiconEntry {
                term: string_of(&cols[0]),
                ipa: string_of(&cols[1]),
                zh: string_of(&cols[2]),
                hard: chars_eq_str(&cols[3], "true"),
            };
            assert(entry_view(entry) == seed_entry(cv));
            add_entry(&mut lexicon, entry);
        }
        i += 1;
    }
    assert(lv.take(lines.len() as int) =~= lv);
    lexicon
}

// ---------------------------------------------------------------------------
// The offline dictionary
// ---------------------------------------------------------------------------

/// What the error of `std::str::from_utf8` says about `bytes`.
pub uninterp spec fn utf8_error_message(bytes: Seq<u8>) -> Seq<char>;

/// Calls `std::str::from_utf8`, which accepts exactly the valid UTF-8
/// byte strings and decodes them; the message of its error is left to the
/// name.
#[verifier::external_body]
fn text_from_utf8(bytes: &[u8]) -> (r: Result<String, String>)
    ensures
        r matches Ok(s) ==> valid_utf8(bytes@) && s@ == decode_utf8(bytes@),
        r matches Err(e) ==> !valid_utf8(bytes@) && e@ == utf8_error_message(bytes@),
{
    match std::str::from_utf8(bytes) {
        Ok(text) => Ok(text.to_owned()),
        Err(error) => Err(error.to_string()),
    }
}

pub open spec fn translations_view(m: StringHashMap<String>) -> Map<Seq<char>, Seq<char>> {
    Map::new(|k: Seq<char>| m@.contains_key(k), |k: Seq<char>| m@[k]@)
}

/// The translations after reading `lines`: a word, a tab and its
/// translation; a later line for a word replaces an earlier.
pub open spec fn translations_from(lines: Seq<Seq<char>>) -> Map<Seq<char>, Seq<char>>
    decreases lines.len(),
{
    if lines.len() == 0 {
        Map::empty()
    } else {
        let m = translations_from(lines.drop_last());
        let line = lines.last();
        match index_of(line, '\t') {
            None => m,
            Some(i) => m.insert(line.take(i), line.skip(i + 1)),
        }
    }
}

/// Reads the offline dictionary from its UTF-8 bytes, or says why they are
/// not UTF-8.
pub fn load_translations(bytes: &[u8]) -> (r: Result<StringHashMap<String>, String>)
    ensures
        r matches Ok(m) ==> valid_utf8(bytes@) && translations_view(m) == translations_from(
            spec_lines(decode_utf8(bytes@)),
        ),
        r matches Err(e) ==> !valid_utf8(bytes@) && e@ == utf8_error_message(bytes@),
{
    let text = match text_from_utf8(bytes) {
        Ok(t) => t,
        Err(e) => return Err(e),
    };
    let v = chars_of(text.as_str());
    let lines = lines_of(&v);
    let ghost lv = lines.deep_view();
    let mut map: StringHashMap<String> = StringHashMap::new();
    let mut i: usize = 0;
    assert(translations_view(map) =~= translations_from(lv.take(0)));
    while i < lines.len()
        invariant
            i <= lines.len(),
            lv == lines.deep_view(),
            translations_view(map) == translations_from(lv.take(i as int)),
        decreases lines.len() - i,
    {
        assert(lv.take(i + 1).drop_last() =~= lv.take(i as int));
        assert(lv[i as int] == lines@[i as int]@);
        let line = chars_of(lines[i].as_str());
        match find_char(&line, '\t') {
            None => {},
            Some(t) => {
                let word = sub_vec(&line, 0, t);
                let rest = sub_vec(&line, t + 1, line.len());
                assert(word@ =~= line@.take(t as int));
                assert(rest@ =~= line@.skip(t + 1));
                let ghost before = translations_view(map);
                map.insert(string_of(&word), string_of(&rest));
                assert(translations_view(map) =~= before.insert(word@, rest@));
            },
        }
        i += 1;
    }
    assert(lv.take(lines.len() as int) =~= lv);
    Ok(map)
}

// ---------------------------------------------------------------------------
// The pronunciation dictionary
// ---------------------------------------------------------------------------

/// The pronunciations of each word, each a list of phones, in the order
/// the dictionary gives them.
pub struct PronunciationTable {
    index: StringHashMap<usize>,
    groups: Vec<Vec<Vec<String>>>,
}

impl PronunciationTable {
    pub closed spec fn view_map(&self) -> Map<Seq<char>, Seq<Seq<Seq<char>>>> {
        Map::new(
            |k: Seq<char>| self.index@.contains_key(k),
            |k: Seq<char>| self.groups.deep_view()[self.index@[k] as int],
        )
    }

    /// Each word has a list of its own.
    pub closed spec fn wf(&self) -> bool {
        &&& forall|k: Seq<char>| #[trigger] self.index@.contains_key(k) ==> self.index@[k] < self.groups.len()
        &&& forall|a: Seq<char>, b: Seq<char>|
            #![trigger self.index@[a], self.index@[b]]
            self.index@.contains_key(a) && self.index@.contains_key(b) && a != b ==> self.index@[a]
                != self.index@[b]
    }

    /// An empty table.
    pub fn new() -> (r: PronunciationTable)
        ensures
            r.wf(),
            r.view_map() == Map::<Seq<char>, Seq<Seq<Seq<char>>>>::empty(),
    {
        let r = PronunciationTable { index: StringHashMap::new(), groups: Vec::new() };
        assert(r.view_map() =~= Map::<Seq<char>, Seq<Seq<Seq<char>>>>::empty());
        r
    }

    /// Adds a pronunciation of `word` after those it has.
    pub fn add(&mut self, word: String, phones: Vec<String>)
        requires
            old(self).wf(),
        ensures
            final(self).wf(),
            final(self).view_map() == old(self).view_map().insert(
                word@,
                (if old(self).view_map().contains_key(word@) {
                    old(self).view_map()[word@]
                } else {
                    Seq::<Seq<Seq<char>>>::empty()
                }).push(phones.deep_view()),
            ),
    {
        let ghost old_map = self.view_map();
        let ghost old_groups = self.groups.deep_view();
        let ghost pv = phones.deep_view();
        match self.index.get(word.as_str()) {
            Some(found) => {
                let i = *found;
                assert(i < self.groups.len());
                let ghost old_inner = self.groups@[i as int];
                self.groups[i].push(phones);
                assert(self.groups.deep_view() =~= old_groups.update(i as int, old_groups[i as int].push(pv))) by {
                    assert(self.groups@[i as int].deep_view() =~= old_inner.deep_view().push(pv));
                }
                assert(self.view_map() =~= old_map.insert(word@, old_map[word@].push(pv))) by {
                    assert forall|k: Seq<char>| #[trigger] self.index@.contains_key(k) && k != word@ implies self.index@[k] != i by {
                    }
                }
            },
            None => {
                let i = self.groups.len();
                let mut group: Vec<Vec<String>> = Vec::new();
                group.push(phones);
                self.groups.push(group);
                assert(self.groups.deep_view() =~= old_groups.push(seq![pv])) by {
                    assert(self.groups@[i as int].deep_view() =~= seq![pv]);
                }
                self.index.insert(word, i);
                assert(seq![pv] =~= Seq::<Seq<Seq<char>>>::empty().push(pv));
                assert(self.view_map() =~= old_map.insert(word@, seq![pv]));
            },
        }
    }

    /// The pronunciations of `word`, if it has any.
    pub fn get(&self, word: &str) -> (r: Option<&Vec<Vec<String>>>)
        requires
            self.wf(),
        ensures
            r matches Some(g) ==> self.view_map().contains_key(word@) && g.deep_view()
                == self.view_map()[word@],
            r is None ==> !self.view_map().contains_key(word@),
    {
        match self.index.get(word) {
            Some(i) => Some(&self.groups[*i]),
            None => None,
        }
    }
}

/// The phones before the first comment, which starts with `#`.
pub open spec fn phones_before_comment(parts: Seq<Seq<char>>) -> Seq<Seq<char>>
    decreases parts.len(),
{
    if parts.len() == 0 {
        seq![]
    } else if parts[0].len() > 0 && parts[0][0] == '#' {
        seq![]
    } else {
        seq![parts[0]] + phones_before_comment(parts.drop_first())
    }
}

/// The word of a dictionary entry: lower case, without a `(n)` variant mark.
pub open spec fn dictionary_word(raw: Seq<char>) -> Seq<char> {
    let w = raw.map_values(|c: char| crate::text::spec_lower(c));
    match index_of(w, '(') {
        Some(i) => w.take(i),
        None => w,
    }
}

/// The word and phones on a line of the pronunciation dictionary; blank
/// lines, `;;;` comments and entries without a word or a phone give none.
pub open spec fn pronunciation_line(line: Seq<char>) -> Option<(Seq<char>, Seq<Seq<char>>)> {
    if trim(line).len() == 0 || starts_with(line, ";;;"@) {
        None
    } else {
        let parts = split_ws(line);
        if parts.len() == 0 {
            None
        } else {
            let word = dictionary_word(parts[0]);
            let phones = phones_before_comment(parts.drop_first());
            if word.len() > 0 && phones.len() > 0 {
                Some((word, phones))
            } else {
                None
            }
        }
    }
}

/// The pronunciations after reading `lines`.
pub open spec fn pronunciations_from(lines: Seq<Seq<char>>) -> Map<Seq<char>, Seq<Seq<Seq<char>>>>
    decreases lines.len(),
{
    if lines.len() == 0 {
        Map::empty()
    } else {
        let m = pronunciations_from(lines.drop_last());
        match pronunciation_line(lines.last()) {
            None => m,
            Some((word, phones)) => m.insert(
                word,
                (if m.contains_key(word) {
                    m[word]
                } else {
                    seq![]
                }).push(phones),
            ),
        }
    }
}

fn phones_of(parts: &Vec<String>) -> (r: Vec<String>)
    requires
        parts.len() > 0,
    ensures
        r.deep_view() == phones_before_comment(parts.deep_view().drop_first()),
{
    let ghost pv = parts.deep_view();
    let mut out: Vec<String> = Vec::new();
    let mut i: usize = 1;
    assert(pv.skip(1) =~= pv.drop_first());
    assert(out.deep_view() + phones_before_comment(pv.skip(1)) =~= phones_before_comment(
        pv.drop_first(),
    ));
    while i < parts.len()
        invariant
            1 <= i <= parts.len(),
            pv == parts.deep_view(),
            out.deep_view() + phones_before_comment(pv.skip(i as int)) == phones_before_comment(
                pv.drop_first(),
            ),
        decreases parts.len() - i,
    {
        let ghost rest = pv.skip(i as int);
        assert(rest[0] == parts@[i as int]@);
        assert(rest.drop_first() =~= pv.skip(i + 1));
        let p = chars_of(parts[i].as_str());
        if p.len() > 0 && p[0] == '#' {
            assert(out.deep_view() + phones_before_comment(rest) =~= out.deep_view());
            return out;
        }
        let ghost before = out.deep_view();
        out.push(parts[i].clone());
        assert(out.deep_view() =~= before.push(p@));
        assert(before + phones_before_comment(rest) =~= out.deep_view() + phones_before_comment(
            pv.skip(i + 1),
        ));
        i += 1;
    }
    assert(pv.skip(parts.len() as int) =~= Seq::<Seq<char>>::empty());
    assert(out.deep_view() + Seq::<Seq<char>>::empty() =~= out.deep_view());
    out
}

fn pronunciation_of_line(line: &Vec<char>) -> (r: Option<(String, Vec<String>)>)
    ensures
        r matches Some((w, p)) ==> pronunciation_line(line@) == Some((w@, p.deep_view())),
        r is None ==> pronunciation_line(line@) is None,
{
    let t = trim_chars(line);
    if t.len() == 0 || chars_starts_with(line, ";;;") {
        return None;
    }
    let parts = split_whitespace_chars(line);
    if parts.len() == 0 {
        return None;
    }
    let raw = chars_of(parts[0].as_str());
    assert(raw@ == parts.deep_view()[0]);
    let lowered = crate::meaning::lower_chars(&raw);
    let word = match find_char(&lowered, '(') {
        Some(i) => sub_vec(&lowered, 0, i),
        None => lowered,
    };
    proof {
        if let Some(i) = index_of(lowered@, '(') {
            assert(lowered@.subrange(0, i) =~= lowered@.take(i));
        }
    }
    let phones = phones_of(&parts);
    if word.len() > 0 && phones.len() > 0 {
        Some((string_of(&word), phones))
    } else {
        None
    }
}

/// Reads the pronunciation dictionary from its UTF-8 bytes: a word, then
/// its phones up to a `#` comment; `;;;` lines are comments; a word's
/// variants `word(2)` join its list.
pub fn load_pronunciations(bytes: &[u8]) -> (r: Result<PronunciationTable, String>)
    ensures
        r matches Ok(t) ==> t.wf() && valid_utf8(bytes@) && t.view_map() == pronunciations_from(
            spec_lines(decode_utf8(bytes@)),
        ),
        r matches Err(e) ==> !valid_utf8(bytes@) && e@ == utf8_error_message(bytes@),
{
    let text = match text_from_utf8(bytes) {
        Ok(t) => t,
        Err(e) => return Err(e),
    };
    let v = chars_of(text.as_str());
    let lines = lines_of(&v);
    let ghost lv = lines.deep_view();
    let mut table = PronunciationTable::new();
    let mut i: usize = 0;
    assert(table.view_map() =~= pronunciations_from(lv.take(0)));
    while i < lines.len()
        invariant
            i <= lines.len(),
            lv == lines.deep_view(),
            table.wf(),
            table.view_map() == pronunciations_from(lv.take(i as int)),
        decreases lines.len() - i,
    {
        assert(lv.take(i + 1).drop_last() =~= lv.take(i as int));
        assert(lv[i as int] == lines@[i as int]@);
        let line = chars_of(lines[i].as_str());
        match pronunciation_of_line(&line) {
            None => {},
            Some((word, phones)) => {
                table.add(word, phones);
            },
        }
        i += 1;
    }
    assert(lv.take(lines.len() as int) =~= lv);
    Ok(table)
}

/// Whether a phone is a comment, which starts with `#`.
pub open spec fn is_comment(p: Seq<char>) -> bool {
    p.len() > 0 && p[0] == '#'
}

/// Whether no phone of a pronunciation is a comment.
pub open spec fn clean_phones(ph: Seq<Seq<char>>) -> bool {
    forall|j: int| 0 <= j < ph.len() ==> !is_comment(#[trigger] ph[j])
}

/// Whether no phone of any pronunciation in `m` is a comment.
pub open spec fn clean_pronunciations(m: Map<Seq<char>, Seq<Seq<Seq<char>>>>) -> bool {
    forall|w: Seq<char>, i: int|
        #![trigger m[w][i]]
        m.contains_key(w) && 0 <= i < m[w].len() ==> clean_phones(m[w][i])
}

/// Law: no phone of the loaded dictionary is a comment, that is, none
/// starts with `#`.
pub proof fn pronunciations_hold_no_comments(lines: Seq<Seq<char>>)
    ensures
        clean_pronunciations(pronunciations_from(lines)),
    decreases lines.len(),
{
    if lines.len() > 0 {
        pronunciations_hold_no_comments(lines.drop_last());
        let m = pronunciations_from(lines.drop_last());
        match pronunciation_line(lines.last()) {
            None => {},
            Some((word, phones)) => {
                lemma_phones_no_comment(split_ws(lines.last()).drop_first());
                let old_list = if m.contains_key(word) {
                    m[word]
                } else {
                    Seq::<Seq<Seq<char>>>::empty()
                };
                let new_list = old_list.push(phones);
                let r = m.insert(word, new_list);
                assert(r == pronunciations_from(lines));
                assert forall|w: Seq<char>, i: int|
                    r.contains_key(w) && 0 <= i < r[w].len() implies clean_phones(#[trigger] r[w][i]) by {
                    if w == word {
                        if i < old_list.len() {
                            assert(new_list[i] == old_list[i]);
                            assert(m[w][i] == old_list[i]);
                        } else {
                            assert(new_list[i] == phones);
                        }
                    } else {
                        assert(r[w] == m[w]);
                        assert(m[w][i] == r[w][i]);
                    }
                }
            },
        }
    }
}

proof fn lemma_phones_no_comment(parts: Seq<Seq<char>>)
    ensures
        clean_phones(phones_before_comment(parts)),
    decreases parts.len(),
{
    if parts.len() > 0 && !is_comment(parts[0]) {
        lemma_phones_no_comment(parts.drop_first());
        let rest = phones_before_comment(parts.drop_first());
        let all = phones_before_comment(parts);
        assert forall|j: int| 0 <= j < all.len() implies !is_comment(#[trigger] all[j]) by {
            if j > 0 {
                assert(all[j] == rest[j - 1]);
            }
        }
    }
}

// ---------------------------------------------------------------------------
// The whole state
// ---------------------------------------------------------------------------

/// Everything the reader has loaded.
pub struct AppState {
    pub profiles: Vec<GradeProfile>,
    pub known_words: StringHashMap<StringHashSet>,
    pub basic_words: StringHashSet,
    pub seed_lexicon: Lexicon,
    pub translations: StringHashMap<String>,
    pub pronunciations: PronunciationTable,
}

impl AppState {
    pub open spec fn profiles_v(&self) -> Seq<ProfileView> {
        profiles_view(self.profiles@)
    }

    pub open spec fn known_v(&self) -> Map<Seq<char>, Set<Seq<char>>> {
        known_view(self.known_words)
    }

    pub open spec fn translations_v(&self) -> Map<Seq<char>, Seq<char>> {
        translations_view(self.translations)
    }

    pub open spec fn pronunciations_v(&self) -> Map<Seq<char>, Seq<Seq<Seq<char>>>> {
        self.pronunciations.view_map()
    }

    /// The seed lexicon and the pronunciation table are well formed.
    pub open spec fn wf(&self) -> bool {
        self.seed_lexicon.wf() && self.pronunciations.wf()
    }

    /// Reads every table: the grade profiles, the grade word lists, the
    /// basic words, the seed lexicon, and the offline and pronunciation
    /// dictionaries as UTF-8 bytes. The first table that cannot be read
    /// gives the error.
    pub fn load(
        profiles_tsv: &str,
        tiers_tsv: &str,
        basic_words: &str,
        seed_lexicon_tsv: &str,
        ecdict: &[u8],
        cmudict: &[u8],
    ) -> (r: Result<AppState, String>)
        ensures
            r is Ok <==> (spec_load_profiles(profiles_tsv@) is Ok && valid_utf8(ecdict@) && valid_utf8(
                cmudict@,
            )),
            r matches Err(e) ==> (match spec_load_profiles(profiles_tsv@) {
                Err(pe) => e@ == pe,
                Ok(_) => if !valid_utf8(ecdict@) {
                    e@ == utf8_error_message(ecdict@)
                } else {
                    e@ == utf8_error_message(cmudict@)
                },
            }),
            r matches Ok(st) ==> {
                &&& st.wf()
                &&& spec_load_profiles(profiles_tsv@) == Ok::<Seq<ProfileView>, Seq<char>>(
                    st.profiles_v(),
                )
                &&& st.known_v() == known_words_map(
                    profile_codes(st.profiles_v()),
                    tiers_from(spec_lines(tiers_tsv@)),
                )
                &&& st.basic_words@ == word_lines(spec_lines(basic_words@))
                &&& (st.seed_lexicon.view_map(), st.seed_lexicon.key_order()) == seed_from(
                    spec_lines(seed_lexicon_tsv@),
                )
                &&& st.translations_v() == translations_from(spec_lines(decode_utf8(ecdict@)))
                &&& st.pronunciations_v() == pronunciations_from(spec_lines(decode_utf8(cmudict@)))
            },
    {
        let profiles = match load_profiles(profiles_tsv) {
            Ok(p) => p,
            Err(e) => return Err(e),
        };
        let tiers = load_tiers(tiers_tsv);
        let known_words = build_known_words(&profiles, &tiers);
        let basic = load_basic_words(basic_words);
        let seed_lexicon = load_seed_lexicon(seed_lexicon_tsv);
        let translations = match load_translations(ecdict) {
            Ok(t) => t,
            Err(e) => return Err(e),
        };
        let pronunciations = match load_pronunciations(cmudict) {
            Ok(p) => p,
            Err(e) => return Err(e),
        };
        Ok(
            AppState {
                profiles,
                known_words,
                basic_words: basic,
                seed_lexicon,
                translations,
                pronunciations,
            },
        )
    }

    /// Whether some profile has `code`.
    pub open spec fn has_profile(&self, code: Seq<char>) -> bool {
        profile_codes(self.profiles_v()).contains(code)
    }

    /// Where the first profile with `code` stands.
    pub fn profile_index(&self, code: &str) -> (r: Option<usize>)
        ensures
            r matches Some(i) ==> i < self.profiles@.len() && self.profiles@[i as int].code@ == code@
                && forall|k: int| 0 <= k < i ==> self.profiles@[k].code@ != code@,
            r is None ==> !self.has_profile(code@),
    {
        let mut i: usize = 0;
        while i < self.profiles.len()
            invariant
                i <= self.profiles@.len(),
                forall|k: int| 0 <= k < i ==> self.profiles@[k].code@ != code@,
            decreases self.profiles.len() - i,
        {
            if crate::text::str_eq(self.profiles[i].code.as_str(), code) {
                return Some(i);
            }
            i += 1;
        }
        proof {
            let codes = profile_codes(self.profiles_v());
            if codes.contains(code@) {
                let k = choose|k: int| 0 <= k < codes.len() && codes[k] == code@;
                assert(codes[k] == self.profiles@[k].code@);
            }
        }
        None
    }

    /// The profile that a request for grade `code` gets: the first with that
    /// code, else the first `P4` profile.
    pub open spec fn chosen_profile(&self, code: Seq<char>) -> ProfileView {
        let c = if self.has_profile(code) {
            code
        } else {
            "P4"@
        };
        self.profiles_v()[grades_through(profile_codes(self.profiles_v()), c) - 1]
    }

    pub proof fn lemma_chosen_profile(&self, code: Seq<char>)
        requires
            self.has_profile(code) || self.has_profile("P4"@),
        ensures
            self.has_profile(code) ==> self.chosen_profile(code).code == code,
            !self.has_profile(code) ==> self.chosen_profile(code).code == "P4"@,
    {
        let codes = profile_codes(self.profiles_v());
        let c = if self.has_profile(code) {
            code
        } else {
            "P4"@
        };
        lemma_grades_through_contains(codes, c);
        assert(codes[grades_through(codes, c) - 1] == self.profiles_v()[grades_through(codes, c) - 1].code);
    }

    /// The profile with `code`, or the `P4` profile where there is none.
    pub fn profile(&self, code: &str) -> (r: &GradeProfile)
        requires
            self.has_profile(code@) || self.has_profile("P4"@),
        ensures
            self.has_profile(code@) ==> r.code@ == code@,
            !self.has_profile(code@) ==> r.code@ == "P4"@,
            self.profiles@.contains(*r),
            profile_view(*r) == self.chosen_profile(code@),
    {
        let ghost codes = profile_codes(self.profiles_v());
        match self.profile_index(code) {
            Some(i) => {
                assert(codes[i as int] == code@);
                proof {
                    assert forall|k: int| 0 <= k < i implies codes[k] != code@ by {
                        assert(codes[k] == self.profiles@[k].code@);
                    }
                    lemma_grades_through(codes, code@, i as int);
                }
                &self.profiles[i]
            },
            None => {
                match self.profile_index("P4") {
                    Some(i) => {
                        proof {
                            assert(codes[i as int] == "P4"@);
                            assert forall|k: int| 0 <= k < i implies codes[k] != "P4"@ by {
                                assert(codes[k] == self.profiles@[k].code@);
                            }
                            lemma_grades_through(codes, "P4"@, i as int);
                        }
                        &self.profiles[i]
                    },
                    None => {
                        assert(false);
                        &self.profiles[0]
                    },
                }
            },
        }
    }
}

} // verus!
