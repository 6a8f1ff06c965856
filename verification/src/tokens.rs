//! Splitting text into tokens, terms and lines.
use vstd::prelude::*;
use crate::normalize::push_string;
use crate::text::{
    chars_of, is_alpha, is_digit, is_ws, lead, lemma_lead, lemma_lead_skip, spec_is_alpha,
    spec_is_digit, spec_is_ws, string_of_range, trim, trim_chars, CharSet,
};

verus! {

// ---------------------------------------------------------------------------
// tokenize
// ---------------------------------------------------------------------------

/// The characters that may join the letters of one word: `-` and `'`.
pub open spec fn is_joiner(c: char) -> bool {
    c == '-' || c == '\''
}

/// How far a word that has started continues into `s`: over letters, and over
/// a joiner that a letter follows.
pub open spec fn word_run(s: Seq<char>) -> nat
    decreases s.len(),
{
    if s.len() == 0 {
        0
    } else if spec_is_alpha(s[0]) {
        1 + word_run(s.drop_first())
    } else if is_joiner(s[0]) && s.len() > 1 && spec_is_alpha(s[1]) {
        1 + word_run(s.drop_first())
    } else {
        0
    }
}

/// The length of the token at the start of a non-empty `s`: a word, a run of
/// digits, a run of whitespace, or one other character.
pub open spec fn token_len(s: Seq<char>) -> nat {
    if s.len() == 0 {
        0
    } else if spec_is_alpha(s[0]) {
        1 + word_run(s.drop_first())
    } else if spec_is_digit(s[0]) {
        1 + lead(s.drop_first(), CharSet::Digit)
    } else if spec_is_ws(s[0]) {
        1 + lead(s.drop_first(), CharSet::Whitespace)
    } else {
        1
    }
}

pub proof fn lemma_word_run(s: Seq<char>)
    ensures
        word_run(s) <= s.len(),
    decreases s.len(),
{
    if s.len() > 0 {
        lemma_word_run(s.drop_first());
    }
}

pub proof fn lemma_token_len(s: Seq<char>)
    requires
        s.len() > 0,
    ensures
        1 <= token_len(s) <= s.len(),
{
    lemma_word_run(s.drop_first());
    lemma_lead(s.drop_first(), CharSet::Digit);
    lemma_lead(s.drop_first(), CharSet::Whitespace);
}

/// The tokens of a text, from left to right.
pub open spec fn spec_tokenize(s: Seq<char>) -> Seq<Seq<char>>
    decreases s.len(),
{
    if s.len() == 0 {
        seq![]
    } else {
        proof {
            lemma_token_len(s);
        }
        seq![s.take(token_len(s) as int)] + spec_tokenize(s.skip(token_len(s) as int))
    }
}

/// The concatenation of a sequence of strings.
pub open spec fn concat(ss: Seq<Seq<char>>) -> Seq<char>
    decreases ss.len(),
{
    if ss.len() == 0 {
        seq![]
    } else {
        concat(ss.drop_last()) + ss.last()
    }
}

pub proof fn lemma_concat_append(a: Seq<Seq<char>>, b: Seq<Seq<char>>)
    ensures
        concat(a + b) == concat(a) + concat(b),
    decreases b.len(),
{
    if b.len() == 0 {
        assert(a + b =~= a);
        assert(concat(a) + concat(b) =~= concat(a));
    } else {
        lemma_concat_append(a, b.drop_last());
        assert((a + b).drop_last() =~= a + b.drop_last());
        assert(concat(a) + concat(b) =~= concat(a) + concat(b.drop_last()) + b.last());
    }
}

/// Tokenizing loses nothing: the tokens, put back together, are the text,
/// and none of them is empty.
pub proof fn lemma_tokenize_lossless(s: Seq<char>)
    ensures
        concat(spec_tokenize(s)) == s,
        forall|k: int| 0 <= k < spec_tokenize(s).len() ==> #[trigger] spec_tokenize(s)[k].len() > 0,
    decreases s.len(),
{
    if s.len() > 0 {
        lemma_token_len(s);
        let n = token_len(s) as int;
        lemma_tokenize_lossless(s.skip(n));
        lemma_concat_append(seq![s.take(n)], spec_tokenize(s.skip(n)));
        assert(concat(seq![s.take(n)]) =~= s.take(n)) by {
            assert(seq![s.take(n)].drop_last() =~= Seq::<Seq<char>>::empty());
            reveal_with_fuel(concat, 2);
        }
        assert(s.take(n) + s.skip(n) =~= s);
        let t = spec_tokenize(s);
        assert forall|k: int| 0 <= k < t.len() implies #[trigger] t[k].len() > 0 by {
            if k > 0 {
                assert(t[k] == spec_tokenize(s.skip(n))[k - 1]);
            }
        }
    } else {
        assert(concat(spec_tokenize(s)) =~= s);
    }
}

/// Tokenizing a text loses nothing: the tokens put back together are the
/// text, and no token is empty.
pub proof fn tokenize_is_lossless(text: Seq<char>)
    ensures
        concat(spec_tokenize(text)) == text,
        forall|k: int|
            0 <= k < spec_tokenize(text).len() ==> #[trigger] spec_tokenize(text)[k].len() > 0,
{
    lemma_tokenize_lossless(text);
}

fn lead_digits(v: &Vec<char>, from: usize) -> (j: usize)
    requires
        from <= v.len(),
    ensures
        from <= j <= v.len(),
        j - from == lead(v@.skip(from as int), CharSet::Digit),
{
    let mut j = from;
    while j < v.len() && is_digit(v[j])
        invariant
            from <= j <= v.len(),
            forall|k: int| from <= k < j ==> spec_is_digit(#[trigger] v@[k]),
        decreases v.len() - j,
    {
        j += 1;
    }
    proof {
        let t = v@.skip(from as int);
        assert forall|k: int| 0 <= k < j - from implies CharSet::Digit.has(#[trigger] t[k]) by {
            assert(t[k] == v@[from + k]);
        }
        lemma_lead_skip(t, CharSet::Digit, j - from);
        assert(t.skip(j - from) =~= v@.skip(j as int));
    }
    j
}

fn lead_spaces(v: &Vec<char>, from: usize) -> (j: usize)
    requires
        from <= v.len(),
    ensures
        from <= j <= v.len(),
        j - from == lead(v@.skip(from as int), CharSet::Whitespace),
{
    let mut j = from;
    while j < v.len() && is_ws(v[j])
        invariant
            from <= j <= v.len(),
            forall|k: int| from <= k < j ==> spec_is_ws(#[trigger] v@[k]),
        decreases v.len() - j,
    {
        j += 1;
    }
    proof {
        let t = v@.skip(from as int);
        assert forall|k: int| 0 <= k < j - from implies CharSet::Whitespace.has(#[trigger] t[k]) by {
            assert(t[k] == v@[from + k]);
        }
        lemma_lead_skip(t, CharSet::Whitespace, j - from);
        assert(t.skip(j - from) =~= v@.skip(j as int));
    }
    j
}

fn word_end(v: &Vec<char>, from: usize) -> (j: usize)
    requires
        from <= v.len(),
    ensures
        from <= j <= v.len(),
        j - from == word_run(v@.skip(from as int)),
{
    let mut j = from;
    loop
        invariant
            from <= j <= v.len(),
            word_run(v@.skip(from as int)) == (j - from) + word_run(v@.skip(j as int)),
        ensures
            from <= j <= v.len(),
            word_run(v@.skip(j as int)) == 0,
            word_run(v@.skip(from as int)) == (j - from) + word_run(v@.skip(j as int)),
        decreases v.len() - j,
    {
        let ghost t = v@.skip(j as int);
        if j >= v.len() {
            assert(t.len() == 0);
            break;
        }
        assert(t[0] == v@[j as int]);
        assert(t.drop_first() =~= v@.skip(j + 1));
        assert(t.len() > 1 ==> t[1] == v@[j + 1]);
        let cur = v[j];
        if is_alpha(cur) {
            j += 1;
            continue;
        }
        if cur == '-' || cur == '\'' {
            if j + 1 < v.len() && is_alpha(v[j + 1]) {
                assert(t[1] == v@[j + 1]);
                j += 1;
                continue;
            }
        }
        break;
    }
    j
}

/// The tokens of a text: words (letters, joined by `-` or `'` when a letter
/// follows), runs of digits, runs of whitespace, and single other characters.
pub fn tokenize(text: &str) -> (r: Vec<String>)
    ensures
        r.deep_view() == spec_tokenize(text@),
{
    let v = chars_of(text);
    let mut tokens: Vec<String> = Vec::new();
    let mut i: usize = 0;
    assert(v@.skip(0) =~= v@);
    assert(tokens.deep_view() =~= Seq::<Seq<char>>::empty());
    while i < v.len()
        invariant
            i <= v.len(),
            v@ == text@,
            tokens.deep_view() + spec_tokenize(v@.skip(i as int)) == spec_tokenize(v@),
        decreases v.len() - i,
    {
        let ghost t = v@.skip(i as int);
        assert(t[0] == v@[i as int]);
        assert(t.drop_first() =~= v@.skip(i + 1));
        let ch = v[i];
        let end = if is_alpha(ch) {
            word_end(&v, i + 1)
        } else if is_digit(ch) {
            lead_digits(&v, i + 1)
        } else if is_ws(ch) {
            lead_spaces(&v, i + 1)
        } else {
            i + 1
        };
        assert(end - i == token_len(t));
        let tok = string_of_range(&v, i, end);
        assert(t.take(token_len(t) as int) =~= v@.subrange(i as int, end as int));
        assert(t.skip(token_len(t) as int) =~= v@.skip(end as int));
        let ghost before = tokens.deep_view();
        tokens.push(tok);
        assert(tokens.deep_view() =~= before.push(v@.subrange(i as int, end as int)));
        assert(before + spec_tokenize(t) =~= tokens.deep_view() + spec_tokenize(
            v@.skip(end as int),
        ));
        i = end;
    }
    assert(spec_tokenize(v@.skip(i as int)) =~= Seq::<Seq<char>>::empty());
    assert(tokens.deep_view() + Seq::<Seq<char>>::empty() =~= tokens.deep_view());
    tokens
}

// ---------------------------------------------------------------------------
// is_word_token
// ---------------------------------------------------------------------------

/// Scanning state of a word token: `None` once it can no longer be a word,
/// else whether a letter was seen and whether the last character was a joiner.
pub open spec fn word_state(s: Seq<char>) -> Option<(bool, bool)>
    decreases s.len(),
{
    if s.len() == 0 {
        Some((false, false))
    } else {
        match word_state(s.drop_last()) {
            None => None,
            Some((saw_alpha, previous_sep)) => {
                let c = s.last();
                if spec_is_alpha(c) {
                    Some((true, false))
                } else if is_joiner(c) && saw_alpha && !previous_sep {
                    Some((saw_alpha, true))
                } else {
                    None
                }
            },
        }
    }
}

/// Letters, with single `-` or `'` between letters.
pub open spec fn spec_is_word_token(s: Seq<char>) -> bool {
    word_state(s) == Some((true, false))
}

/// Whether a token is a word: letters, with single `-` or `'` only between
/// letters.
pub fn is_word_token(token: &str) -> (r: bool)
    ensures
        r == spec_is_word_token(token@),
{
    let v = chars_of(token);
    let mut saw_alpha = false;
    let mut previous_sep = false;
    let mut i: usize = 0;
    while i < v.len()
        invariant
            i <= v.len(),
            v@ == token@,
            word_state(v@.take(i as int)) == Some((saw_alpha, previous_sep)),
        decreases v.len() - i,
    {
        assert(v@.take(i + 1).drop_last() =~= v@.take(i as int));
        let ch = v[i];
        if is_alpha(ch) {
            saw_alpha = true;
            previous_sep = false;
        } else if (ch == '-' || ch == '\'') && saw_alpha && !previous_sep {
            previous_sep = true;
        } else {
            proof {
                lemma_word_state_none(v@, i as int + 1);
            }
            return false;
        }
        i += 1;
    }
    assert(v@.take(v.len() as int) =~= v@);
    saw_alpha && !previous_sep
}

proof fn lemma_word_state_none(s: Seq<char>, i: int)
    requires
        0 <= i <= s.len(),
        word_state(s.take(i)) is None,
    ensures
        word_state(s) is None,
    decreases s.len() - i,
{
    if i < s.len() {
        assert(s.take(i + 1).drop_last() =~= s.take(i));
        lemma_word_state_none(s, i + 1);
    } else {
        assert(s.take(i) =~= s);
    }
}

// ---------------------------------------------------------------------------
// The shape of the tokens
// ---------------------------------------------------------------------------

/// Every character of `t` is whitespace.
pub open spec fn all_whitespace(t: Seq<char>) -> bool {
    forall|k: int| 0 <= k < t.len() ==> spec_is_ws(#[trigger] t[k])
}

/// Every character of `t` is a digit.
pub open spec fn all_digits(t: Seq<char>) -> bool {
    forall|k: int| 0 <= k < t.len() ==> spec_is_digit(#[trigger] t[k])
}

/// Within a word run, each character is a letter, or a joiner with a letter
/// after it inside the run; the run stops before a letter never.
proof fn lemma_word_run_shape(u: Seq<char>)
    ensures
        word_run(u) <= u.len(),
        forall|k: int|
            0 <= k < word_run(u) ==> spec_is_alpha(#[trigger] u[k]) || (is_joiner(u[k]) && k + 1
                < word_run(u) && spec_is_alpha(u[k + 1])),
        word_run(u) < u.len() ==> !spec_is_alpha(u[word_run(u) as int]),
    decreases u.len(),
{
    if u.len() > 0 {
        let v = u.drop_first();
        lemma_word_run_shape(v);
        if spec_is_alpha(u[0]) || (is_joiner(u[0]) && u.len() > 1 && spec_is_alpha(u[1])) {
            if !spec_is_alpha(u[0]) {
                assert(v[0] == u[1]);
                assert(word_run(v) >= 1);
            }
            assert forall|k: int| 0 <= k < word_run(u) implies spec_is_alpha(#[trigger] u[k]) || (is_joiner(u[k])
                && k + 1 < word_run(u) && spec_is_alpha(u[k + 1])) by {
                if k > 0 {
                    assert(u[k] == v[k - 1]);
                    if k + 1 < u.len() {
                        assert(u[k + 1] == v[k]);
                    }
                }
            }
            if word_run(u) < u.len() {
                assert(u[word_run(u) as int] == v[word_run(v) as int]);
            }
        }
    }
}

/// What a word token looks like: a letter first, then letters, and joiners
/// each followed by a letter.
pub open spec fn word_shape(t: Seq<char>) -> bool {
    &&& t.len() > 0
    &&& spec_is_alpha(t[0])
    &&& forall|k: int|
        1 <= k < t.len() ==> spec_is_alpha(#[trigger] t[k]) || (is_joiner(t[k]) && k + 1 < t.len()
            && spec_is_alpha(t[k + 1]))
}

proof fn lemma_word_shape_state(t: Seq<char>, i: int)
    requires
        word_shape(t),
        1 <= i <= t.len(),
    ensures
        word_state(t.take(i)) == Some((true, is_joiner(t[i - 1]))),
    decreases i,
{
    assert(t.take(i).drop_last() =~= t.take(i - 1));
    if i == 1 {
        assert(t.take(0) =~= Seq::<char>::empty());
    } else {
        lemma_word_shape_state(t, i - 1);
        if !spec_is_alpha(t[i - 1]) {
            assert(is_joiner(t[i - 1]));
            if i - 2 >= 1 {
                if is_joiner(t[i - 2]) {
                    assert(spec_is_alpha(t[i - 1]));
                }
            }
        }
    }
}

/// A token is a word exactly when it starts with a letter.
proof fn lemma_token_is_word(s: Seq<char>)
    requires
        s.len() > 0,
    ensures
        spec_is_word_token(s.take(token_len(s) as int)) <==> spec_is_alpha(s[0]),
{
    lemma_token_len(s);
    let t = s.take(token_len(s) as int);
    if spec_is_alpha(s[0]) {
        let u = s.drop_first();
        lemma_word_run_shape(u);
        assert forall|k: int| 1 <= k < t.len() implies spec_is_alpha(#[trigger] t[k]) || (is_joiner(t[k]) && k + 1
            < t.len() && spec_is_alpha(t[k + 1])) by {
            assert(t[k] == u[k - 1]);
            if k + 1 < t.len() {
                assert(t[k + 1] == u[k]);
            }
        }
        lemma_word_shape_state(t, t.len() as int);
        assert(t.take(t.len() as int) =~= t);
        if is_joiner(t[t.len() - 1]) && t.len() >= 2 {
            assert(spec_is_alpha(t[t.len() - 1]));
        }
    } else {
        let one = t.take(1);
        assert(one.drop_last() =~= Seq::<char>::empty());
        assert(word_state(one.drop_last()) == Some((false, false)));
        assert(one.last() == s[0]);
        assert(word_state(one) is None);
        lemma_word_state_none(t, 1);
    }
}

/// After a token, the next character cannot continue it: a word is not
/// followed by a letter, a whitespace run by whitespace, a digit run by a
/// digit.
proof fn lemma_token_boundary(s: Seq<char>)
    requires
        s.len() > 0,
        token_len(s) < s.len(),
    ensures
        spec_is_alpha(s[0]) ==> !spec_is_alpha(s[token_len(s) as int]),
        all_whitespace(s.take(token_len(s) as int)) ==> !spec_is_ws(s[token_len(s) as int]),
        all_digits(s.take(token_len(s) as int)) ==> !spec_is_digit(s[token_len(s) as int]),
{
    let u = s.drop_first();
    let n = token_len(s) as int;
    lemma_token_len(s);
    let t = s.take(n);
    assert(t[0] == s[0]);
    if spec_is_alpha(s[0]) {
        lemma_word_run_shape(u);
        assert(s[n] == u[n - 1]);
    } else if spec_is_digit(s[0]) {
        lemma_lead(u, CharSet::Digit);
        assert(s[n] == u[n - 1]);
    } else if spec_is_ws(s[0]) {
        lemma_lead(u, CharSet::Whitespace);
        assert(s[n] == u[n - 1]);
    }
}

proof fn lemma_tokens_alternate(s: Seq<char>)
    ensures
        ({
            let ts = spec_tokenize(s);
            &&& forall|k: int| 0 <= k < ts.len() ==> ts[k].len() > 0 && (spec_is_word_token(#[trigger] ts[k])
                <==> spec_is_alpha(ts[k][0]))
            &&& forall|k: int|
                0 <= k < ts.len() - 1 ==> !(spec_is_alpha(#[trigger] ts[k][0]) && spec_is_alpha(ts[k + 1][0]))
                    && !(all_whitespace(ts[k]) && all_whitespace(ts[k + 1])) && !(all_digits(ts[k])
                    && all_digits(ts[k + 1]))
        }),
    decreases s.len(),
{
    if s.len() > 0 {
        lemma_token_len(s);
        let n = token_len(s) as int;
        let rest = s.skip(n);
        lemma_tokens_alternate(rest);
        lemma_token_is_word(s);
        let ts = spec_tokenize(s);
        let rs = spec_tokenize(rest);
        let t = s.take(n);
        assert(ts == seq![t] + rs);
        assert(t[0] == s[0]);
        if n < s.len() {
            lemma_token_boundary(s);
            lemma_token_len(rest);
            assert(rs[0] == rest.take(token_len(rest) as int));
            assert(rs[0][0] == rest[0]);
            assert(rest[0] == s[n]);
            if all_whitespace(t) {
                assert(spec_is_ws(t[0]));
            }
            if all_digits(t) {
                assert(spec_is_digit(t[0]));
            }
            if all_whitespace(rs[0]) {
                assert(spec_is_ws(rs[0][0]));
            }
            if all_digits(rs[0]) {
                assert(spec_is_digit(rs[0][0]));
            }
        } else {
            assert(rest.len() == 0);
            assert(rs.len() == 0);
        }
        assert forall|k: int| 0 <= k < ts.len() implies ts[k].len() > 0 && (spec_is_word_token(#[trigger] ts[k])
            <==> spec_is_alpha(ts[k][0])) by {
            if k > 0 {
                assert(ts[k] == rs[k - 1]);
            }
        }
        assert forall|k: int| 0 <= k < ts.len() - 1 implies !(spec_is_alpha(#[trigger] ts[k][0]) && spec_is_alpha(
            ts[k + 1][0])) && !(all_whitespace(ts[k]) && all_whitespace(ts[k + 1])) && !(all_digits(ts[k])
            && all_digits(ts[k + 1])) by {
            if k > 0 {
                assert(ts[k] == rs[k - 1]);
                assert(ts[k + 1] == rs[k]);
            } else {
                assert(ts[1] == rs[0]);
            }
        }
    }
}

/// The tokens of a text take turns: a token is a word exactly when it starts
/// with a letter, and no two neighbouring tokens both start with a letter,
/// are both whitespace, or are both digits.
pub proof fn tokens_alternate(text: Seq<char>)
    ensures
        ({
            let ts = spec_tokenize(text);
            &&& forall|k: int| 0 <= k < ts.len() ==> ts[k].len() > 0 && (spec_is_word_token(#[trigger] ts[k])
                <==> spec_is_alpha(ts[k][0]))
            &&& forall|k: int|
                0 <= k < ts.len() - 1 ==> !(spec_is_alpha(#[trigger] ts[k][0]) && spec_is_alpha(ts[k + 1][0]))
                    && !(all_whitespace(ts[k]) && all_whitespace(ts[k + 1])) && !(all_digits(ts[k])
                    && all_digits(ts[k + 1]))
        }),
{
    lemma_tokens_alternate(text);
}

// ---------------------------------------------------------------------------
// split_terms
// ---------------------------------------------------------------------------

/// What separates custom terms: whitespace, `,`, `，`, `;` and `；`.
pub open spec fn is_term_sep(c: char) -> bool {
    spec_is_ws(c) || c == ',' || c == '，' || c == ';' || c == '；'
}

/// Appends `item` if it is not empty.
pub open spec fn add_nonempty(out: Seq<Seq<char>>, item: Seq<char>) -> Seq<Seq<char>> {
    if item.len() > 0 {
        out.push(item)
    } else {
        out
    }
}

/// The finished terms and the field being read, after reading `s`.
pub open spec fn terms_state(s: Seq<char>) -> (Seq<Seq<char>>, Seq<char>)
    decreases s.len(),
{
    if s.len() == 0 {
        (seq![], seq![])
    } else {
        let (out, cur) = terms_state(s.drop_last());
        if is_term_sep(s.last()) {
            (add_nonempty(out, trim(cur)), seq![])
        } else {
            (out, cur.push(s.last()))
        }
    }
}

/// The fields between separators, trimmed, without the empty ones.
pub open spec fn spec_split_terms(s: Seq<char>) -> Seq<Seq<char>> {
    add_nonempty(terms_state(s).0, trim(terms_state(s).1))
}

proof fn lemma_add_nonempty(out: Seq<Seq<char>>, item: Seq<char>)
    requires
        forall|k: int| 0 <= k < out.len() ==> #[trigger] out[k].len() > 0,
    ensures
        forall|k: int|
            0 <= k < add_nonempty(out, item).len() ==> #[trigger] add_nonempty(out, item)[k].len()
                > 0,
{
}

proof fn lemma_terms_state_nonempty(s: Seq<char>)
    ensures
        forall|k: int|
            0 <= k < terms_state(s).0.len() ==> #[trigger] terms_state(s).0[k].len() > 0,
    decreases s.len(),
{
    if s.len() > 0 {
        lemma_terms_state_nonempty(s.drop_last());
        let (out, cur) = terms_state(s.drop_last());
        lemma_add_nonempty(out, trim(cur));
    }
}

/// The terms of a custom word list: the fields between whitespace, commas and
/// semicolons (ASCII or full-width), trimmed, without the empty ones.
pub fn split_terms(text: &str) -> (r: Vec<String>)
    ensures
        r.deep_view() == spec_split_terms(text@),
        forall|k: int| 0 <= k < r.deep_view().len() ==> #[trigger] r.deep_view()[k].len() > 0,
{
    let v = chars_of(text);
    let mut out: Vec<String> = Vec::new();
    let mut cur: Vec<char> = Vec::new();
    let mut i: usize = 0;
    assert(out.deep_view() =~= Seq::<Seq<char>>::empty());
    while i < v.len()
        invariant
            i <= v.len(),
            v@ == text@,
            (out.deep_view(), cur@) == terms_state(v@.take(i as int)),
        decreases v.len() - i,
    {
        assert(v@.take(i + 1).drop_last() =~= v@.take(i as int));
        let c = v[i];
        if is_ws(c) || c == ',' || c == '，' || c == ';' || c == '；' {
            let t = trim_chars(&cur);
            if t.len() > 0 {
                push_string(&mut out, &t);
            }
            cur = Vec::new();
            assert(cur@ =~= Seq::<char>::empty());
        } else {
            cur.push(c);
        }
        i += 1;
    }
    assert(v@.take(v.len() as int) =~= v@);
    let t = trim_chars(&cur);
    if t.len() > 0 {
        push_string(&mut out, &t);
    }
    proof {
        lemma_terms_state_nonempty(v@);
        lemma_add_nonempty(terms_state(v@).0, trim(terms_state(v@).1));
    }
    out
}

// ---------------------------------------------------------------------------
// lines
// ---------------------------------------------------------------------------

/// `s` without one trailing carriage return.
pub open spec fn drop_cr(s: Seq<char>) -> Seq<char> {
    if s.len() > 0 && s.last() == '\r' {
        s.drop_last()
    } else {
        s
    }
}

/// The finished lines and the line being read, after reading `s`.
pub open spec fn lines_state(s: Seq<char>) -> (Seq<Seq<char>>, Seq<char>)
    decreases s.len(),
{
    if s.len() == 0 {
        (seq![], seq![])
    } else {
        let (done, cur) = lines_state(s.drop_last());
        if s.last() == '\n' {
            (done.push(drop_cr(cur)), seq![])
        } else {
            (done, cur.push(s.last()))
        }
    }
}

/// `str::lines`: the text split at `\n` or `\r\n`, with no line after a final
/// line ending.
pub open spec fn spec_lines(s: Seq<char>) -> Seq<Seq<char>> {
    let (done, cur) = lines_state(s);
    if cur.len() > 0 {
        done.push(cur)
    } else {
        done
    }
}

/// `str::lines` on characters.
pub fn lines_of(v: &Vec<char>) -> (r: Vec<String>)
    ensures
        r.deep_view() == spec_lines(v@),
{
    let mut done: Vec<String> = Vec::new();
    let mut start: usize = 0;
    let mut i: usize = 0;
    assert(done.deep_view() =~= Seq::<Seq<char>>::empty());
    while i < v.len()
        invariant
            start <= i <= v.len(),
            (done.deep_view(), v@.subrange(start as int, i as int)) == lines_state(
                v@.take(i as int),
            ),
        decreases v.len() - i,
    {
        assert(v@.take(i + 1).drop_last() =~= v@.take(i as int));
        if v[i] == '\n' {
            let end = if i > start && v[i - 1] == '\r' {
                i - 1
            } else {
                i
            };
            let line = string_of_range(v, start, end);
            let ghost before = done.deep_view();
            done.push(line);
            assert(done.deep_view() =~= before.push(v@.subrange(start as int, end as int)));
            assert(v@.subrange(start as int, end as int) =~= drop_cr(
                v@.subrange(start as int, i as int),
            ));
            start = i + 1;
            assert(v@.subrange(start as int, i + 1) =~= Seq::<char>::empty());
        } else {
            assert(v@.subrange(start as int, i + 1) =~= v@.subrange(start as int, i as int).push(
                v@[i as int],
            ));
        }
        i += 1;
    }
    assert(v@.take(v.len() as int) =~= v@);
    if start < v.len() {
        let line = string_of_range(v, start, v.len());
        let ghost before = done.deep_view();
        done.push(line);
        assert(done.deep_view() =~= before.push(v@.subrange(start as int, v.len() as int)));
    }
    done
}

// ---------------------------------------------------------------------------
// Counting and cutting
// ---------------------------------------------------------------------------

/// The number of ASCII letters in `s`.
pub open spec fn count_alpha(s: Seq<char>) -> nat
    decreases s.len(),
{
    if s.len() == 0 {
        0
    } else {
        count_alpha(s.drop_last()) + if spec_is_alpha(s.last()) {
            1nat
        } else {
            0nat
        }
    }
}

/// The number of ASCII letters in a token.
pub fn alpha_len(token: &str) -> (n: usize)
    ensures
        n == count_alpha(token@),
{
    let v = chars_of(token);
    let mut n: usize = 0;
    let mut i: usize = 0;
    while i < v.len()
        invariant
            i <= v.len(),
            v@ == token@,
            n == count_alpha(v@.take(i as int)),
            n <= i,
        decreases v.len() - i,
    {
        assert(v@.take(i + 1).drop_last() =~= v@.take(i as int));
        if is_alpha(v[i]) {
            n += 1;
        }
        i += 1;
    }
    assert(v@.take(v.len() as int) =~= v@);
    n
}

/// The first `max_length` characters of `text`.
pub fn take_chars(text: &str, max_length: usize) -> (r: String)
    ensures
        r@ == text@.take(if text@.len() < max_length { text@.len() as int } else { max_length as int }),
{
    let v = chars_of(text);
    let n = if v.len() < max_length {
        v.len()
    } else {
        max_length
    };
    let r = string_of_range(&v, 0, n);
    assert(v@.subrange(0, n as int) =~= v@.take(n as int));
    r
}

} // verus!
