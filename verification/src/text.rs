//! Character classes and the string operations that the rest of the library
//! is built from. Every string is modelled by its view, a `Seq<char>`.
use vstd::prelude::*;

verus! {

// ---------------------------------------------------------------------------
// Character classes
// ---------------------------------------------------------------------------

/// `char::is_whitespace`: the Unicode `White_Space` property.
pub open spec fn spec_is_ws(c: char) -> bool {
    ||| ('\u{9}' <= c && c <= '\u{d}')
    ||| c == ' '
    ||| c == '\u{85}'
    ||| c == '\u{a0}'
    ||| c == '\u{1680}'
    ||| ('\u{2000}' <= c && c <= '\u{200a}')
    ||| c == '\u{2028}'
    ||| c == '\u{2029}'
    ||| c == '\u{202f}'
    ||| c == '\u{205f}'
    ||| c == '\u{3000}'
}

pub open spec fn spec_is_lower(c: char) -> bool {
    'a' <= c && c <= 'z'
}

pub open spec fn spec_is_upper(c: char) -> bool {
    'A' <= c && c <= 'Z'
}

pub open spec fn spec_is_alpha(c: char) -> bool {
    spec_is_lower(c) || spec_is_upper(c)
}

pub open spec fn spec_is_digit(c: char) -> bool {
    '0' <= c && c <= '9'
}

pub open spec fn spec_is_alnum(c: char) -> bool {
    spec_is_alpha(c) || spec_is_digit(c)
}

/// `char::is_control`: the general category `Cc`.
pub open spec fn spec_is_control(c: char) -> bool {
    c <= '\u{1f}' || ('\u{7f}' <= c && c <= '\u{9f}')
}

/// Chinese, Japanese and Korean ideographs of the unified block and extension A.
pub open spec fn spec_is_cjk(c: char) -> bool {
    '\u{3400}' <= c && c <= '\u{9fff}'
}

/// `char::to_ascii_lowercase`.
pub open spec fn spec_lower(c: char) -> char {
    if spec_is_upper(c) {
        ((c as u32) + 32) as char
    } else {
        c
    }
}

pub fn is_ws(c: char) -> (r: bool)
    ensures
        r == spec_is_ws(c),
{
    ('\u{9}' <= c && c <= '\u{d}') || c == ' ' || c == '\u{85}' || c == '\u{a0}' || c
        == '\u{1680}' || ('\u{2000}' <= c && c <= '\u{200a}') || c == '\u{2028}' || c
        == '\u{2029}' || c == '\u{202f}' || c == '\u{205f}' || c == '\u{3000}'
}

pub fn is_lower(c: char) -> (r: bool)
    ensures
        r == spec_is_lower(c),
{
    'a' <= c && c <= 'z'
}

pub fn is_upper(c: char) -> (r: bool)
    ensures
        r == spec_is_upper(c),
{
    'A' <= c && c <= 'Z'
}

pub fn is_alpha(c: char) -> (r: bool)
    ensures
        r == spec_is_alpha(c),
{
    ('a' <= c && c <= 'z') || ('A' <= c && c <= 'Z')
}

pub fn is_digit(c: char) -> (r: bool)
    ensures
        r == spec_is_digit(c),
{
    '0' <= c && c <= '9'
}

pub fn is_alnum(c: char) -> (r: bool)
    ensures
        r == spec_is_alnum(c),
{
    is_alpha(c) || is_digit(c)
}

pub fn is_control(c: char) -> (r: bool)
    ensures
        r == spec_is_control(c),
{
    c <= '\u{1f}' || ('\u{7f}' <= c && c <= '\u{9f}')
}

/// Whether a character is a CJK ideograph.
pub fn is_cjk(ch: char) -> (r: bool)
    ensures
        r == spec_is_cjk(ch),
{
    '\u{3400}' <= ch && ch <= '\u{9fff}'
}

pub fn lower(c: char) -> (r: char)
    ensures
        r == spec_lower(c),
{
    if 'A' <= c && c <= 'Z' {
        let b: u8 = c as u8;
        assert(b as u32 == c as u32);
        ((b + 32) as u8) as char
    } else {
        c
    }
}

// ---------------------------------------------------------------------------
// Sets of characters used for trimming
// ---------------------------------------------------------------------------

/// A set of characters that the library trims from the ends of a string.
#[derive(Clone, Copy, PartialEq, Eq, Structural)]
pub enum CharSet {
    /// `char::is_whitespace`.
    Whitespace,
    /// `'_'`.
    Underscore,
    /// The syllable separator `'·'`.
    MiddleDot,
    /// `'('`, `'['` and `'/'`: what opens a pronunciation.
    PronOpen,
    /// `')'`, `']'` and `'/'`: what closes a pronunciation.
    PronClose,
    /// `'('`, `')'` and `' '`.
    ParenSpace,
    /// Whitespace and `" ,，、:："`.
    ClauseEdge,
    /// `" ,，、;；"`.
    ResultEdge,
    /// Every character but the ASCII lower-case letters.
    NotLower,
    /// The ASCII digits.
    Digit,
    /// Every character but the CJK ideographs.
    NotCjk,
    /// What separates the clauses of a definition: `\n`, `;`, `；` and `。`.
    ClauseSep,
    /// What separates the pieces of a clause: `,`, `，` and `、`.
    PieceSep,
    /// The tab, which separates the columns of the data files.
    Tab,
    /// The hyphen.
    Hyphen,
    /// The line feed.
    Newline,
    /// Every character but the ASCII letters, `-` and `'`: what separates
    /// the words of an article.
    WordBreak,
}

impl CharSet {
    pub open spec fn has(self, c: char) -> bool {
        match self {
            CharSet::Whitespace => spec_is_ws(c),
            CharSet::Underscore => c == '_',
            CharSet::MiddleDot => c == '·',
            CharSet::PronOpen => c == '(' || c == '[' || c == '/',
            CharSet::PronClose => c == ')' || c == ']' || c == '/',
            CharSet::ParenSpace => c == '(' || c == ')' || c == ' ',
            CharSet::ClauseEdge => spec_is_ws(c) || c == ' ' || c == ',' || c == '，' || c == '、'
                || c == ':' || c == '：',
            CharSet::ResultEdge => c == ' ' || c == ',' || c == '，' || c == '、' || c == ';' || c
                == '；',
            CharSet::NotLower => !spec_is_lower(c),
            CharSet::Digit => spec_is_digit(c),
            CharSet::NotCjk => !spec_is_cjk(c),
            CharSet::ClauseSep => c == '\n' || c == ';' || c == '；' || c == '。',
            CharSet::PieceSep => c == ',' || c == '，' || c == '、',
            CharSet::Tab => c == '\t',
            CharSet::Hyphen => c == '-',
            CharSet::Newline => c == '\n',
            CharSet::WordBreak => !spec_is_alpha(c) && c != '-' && c != '\'',
        }
    }

    pub fn contains(self, c: char) -> (r: bool)
        ensures
            r == self.has(c),
    {
        match self {
            CharSet::Whitespace => is_ws(c),
            CharSet::Underscore => c == '_',
            CharSet::MiddleDot => c == '·',
            CharSet::PronOpen => c == '(' || c == '[' || c == '/',
            CharSet::PronClose => c == ')' || c == ']' || c == '/',
            CharSet::ParenSpace => c == '(' || c == ')' || c == ' ',
            CharSet::ClauseEdge => is_ws(c) || c == ' ' || c == ',' || c == '，' || c == '、' || c
                == ':' || c == '：',
            CharSet::ResultEdge => c == ' ' || c == ',' || c == '，' || c == '、' || c == ';' || c
                == '；',
            CharSet::NotLower => !is_lower(c),
            CharSet::Digit => is_digit(c),
            CharSet::NotCjk => !is_cjk(c),
            CharSet::ClauseSep => c == '\n' || c == ';' || c == '；' || c == '。',
            CharSet::PieceSep => c == ',' || c == '，' || c == '、',
            CharSet::Tab => c == '\t',
            CharSet::Hyphen => c == '-',
            CharSet::Newline => c == '\n',
            CharSet::WordBreak => !is_alpha(c) && c != '-' && c != '\'',
        }
    }
}

/// Number of leading characters of `s` that belong to `set`.
pub open spec fn lead(s: Seq<char>, set: CharSet) -> nat
    decreases s.len(),
{
    if s.len() > 0 && set.has(s[0]) {
        1 + lead(s.drop_first(), set)
    } else {
        0
    }
}

/// Number of trailing characters of `s` that belong to `set`.
pub open spec fn trail(s: Seq<char>, set: CharSet) -> nat
    decreases s.len(),
{
    if s.len() > 0 && set.has(s.last()) {
        1 + trail(s.drop_last(), set)
    } else {
        0
    }
}

/// `str::trim_start_matches`.
pub open spec fn strip_start(s: Seq<char>, set: CharSet) -> Seq<char> {
    s.skip(lead(s, set) as int)
}

/// `str::trim_end_matches`.
pub open spec fn strip_end(s: Seq<char>, set: CharSet) -> Seq<char> {
    s.take(s.len() - trail(s, set))
}

/// `str::trim_matches`.
pub open spec fn strip(s: Seq<char>, set: CharSet) -> Seq<char> {
    strip_end(strip_start(s, set), set)
}

/// `str::trim`.
pub open spec fn trim(s: Seq<char>) -> Seq<char> {
    strip(s, CharSet::Whitespace)
}

pub proof fn lemma_lead(s: Seq<char>, set: CharSet)
    ensures
        lead(s, set) <= s.len(),
        forall|k: int| 0 <= k < lead(s, set) ==> set.has(#[trigger] s[k]),
        lead(s, set) < s.len() ==> !set.has(s[lead(s, set) as int]),
    decreases s.len(),
{
    if s.len() > 0 && set.has(s[0]) {
        lemma_lead(s.drop_first(), set);
        assert forall|k: int| 0 <= k < lead(s, set) implies set.has(#[trigger] s[k]) by {
            if k > 0 {
                assert(s[k] == s.drop_first()[k - 1]);
            }
        }
    }
}

pub proof fn lemma_trail(s: Seq<char>, set: CharSet)
    ensures
        trail(s, set) <= s.len(),
        forall|k: int| s.len() - trail(s, set) <= k < s.len() ==> set.has(#[trigger] s[k]),
        trail(s, set) < s.len() ==> !set.has(s[s.len() - trail(s, set) - 1]),
    decreases s.len(),
{
    if s.len() > 0 && set.has(s.last()) {
        lemma_trail(s.drop_last(), set);
        assert forall|k: int| s.len() - trail(s, set) <= k < s.len() implies set.has(
            #[trigger] s[k],
        ) by {
            if k < s.len() - 1 {
                assert(s[k] == s.drop_last()[k]);
            }
        }
    }
}

/// If the first `i` characters belong to the set, the leading run is `i` plus that of the rest.
pub proof fn lemma_lead_skip(s: Seq<char>, set: CharSet, i: int)
    requires
        0 <= i <= s.len(),
        forall|k: int| 0 <= k < i ==> set.has(#[trigger] s[k]),
    ensures
        lead(s, set) == i + lead(s.skip(i), set),
    decreases i,
{
    if i > 0 {
        assert(set.has(s[0]));
        lemma_lead_skip(s.drop_first(), set, i - 1);
        assert(s.drop_first().skip(i - 1) =~= s.skip(i));
    } else {
        assert(s.skip(0) =~= s);
    }
}

pub proof fn lemma_trail_take(s: Seq<char>, set: CharSet, j: int)
    requires
        0 <= j <= s.len(),
        forall|k: int| j <= k < s.len() ==> set.has(#[trigger] s[k]),
    ensures
        trail(s, set) == (s.len() - j) + trail(s.take(j), set),
    decreases s.len() - j,
{
    if j < s.len() {
        assert(set.has(s.last()));
        lemma_trail_take(s.drop_last(), set, j);
        assert(s.drop_last().take(j) =~= s.take(j));
    } else {
        assert(s.take(j) =~= s);
    }
}

// ---------------------------------------------------------------------------
// Strings and character vectors
// ---------------------------------------------------------------------------

/// Calls `String::push`, which appends the character to the end of the string.
#[verifier::external_body]
pub(crate) fn push_char(s: &mut String, c: char)
    ensures
        final(s)@ == old(s)@.push(c),
{
    s.push(c);
}

/// The characters of a string slice.
pub fn chars_of(s: &str) -> (v: Vec<char>)
    ensures
        v@ == s@,
{
    let mut v: Vec<char> = Vec::new();
    for c in it: s.chars()
        invariant
            v@ == it.seq().take(it.index() as int),
            it.seq() == s@,
    {
        v.push(c);
    }
    v
}

/// A string made of the characters `v[lo..hi]`.
pub fn string_of_range(v: &Vec<char>, lo: usize, hi: usize) -> (s: String)
    requires
        lo <= hi <= v.len(),
    ensures
        s@ == v@.subrange(lo as int, hi as int),
{
    let mut s = String::new();
    let mut i = lo;
    while i < hi
        invariant
            lo <= i <= hi <= v.len(),
            s@ == v@.subrange(lo as int, i as int),
        decreases hi - i,
    {
        push_char(&mut s, v[i]);
        assert(v@.subrange(lo as int, i + 1) =~= v@.subrange(lo as int, i as int).push(v@[i as int]));
        i += 1;
    }
    s
}

/// A string made of all the characters of `v`.
pub fn string_of(v: &Vec<char>) -> (s: String)
    ensures
        s@ == v@,
{
    let s = string_of_range(v, 0, v.len());
    assert(v@.subrange(0, v@.len() as int) =~= v@);
    s
}

/// Appends the characters of `v` to `s`.
pub fn push_chars(s: &mut String, v: &Vec<char>)
    ensures
        final(s)@ == old(s)@ + v@,
{
    let mut i: usize = 0;
    while i < v.len()
        invariant
            i <= v.len(),
            s@ == old(s)@ + v@.take(i as int),
        decreases v.len() - i,
    {
        push_char(s, v[i]);
        assert(v@.take(i + 1) =~= v@.take(i as int).push(v@[i as int]));
        i += 1;
    }
    assert(v@.take(v.len() as int) =~= v@);
}

/// Whether two character sequences are equal.
pub fn chars_eq(a: &Vec<char>, b: &Vec<char>) -> (r: bool)
    ensures
        r == (a@ == b@),
{
    if a.len() != b.len() {
        return false;
    }
    let mut i: usize = 0;
    while i < a.len()
        invariant
            a.len() == b.len(),
            i <= a.len(),
            forall|k: int| 0 <= k < i ==> a@[k] == b@[k],
        decreases a.len() - i,
    {
        if a[i] != b[i] {
            return false;
        }
        i += 1;
    }
    assert(a@ =~= b@);
    true
}

/// Whether two string slices are equal.
pub fn str_eq(a: &str, b: &str) -> (r: bool)
    ensures
        r == (a@ == b@),
{
    let va = chars_of(a);
    let vb = chars_of(b);
    chars_eq(&va, &vb)
}

/// Whether `v` holds the characters of the literal `lit` from position `at`.
pub open spec fn matches_at(s: Seq<char>, pat: Seq<char>, at: int) -> bool {
    0 <= at && at + pat.len() <= s.len() && s.subrange(at, at + pat.len()) == pat
}

pub fn chars_match_at(v: &Vec<char>, pat: &Vec<char>, at: usize) -> (r: bool)
    ensures
        r == matches_at(v@, pat@, at as int),
{
    if at > v.len() || pat.len() > v.len() - at {
        return false;
    }
    let mut i: usize = 0;
    while i < pat.len()
        invariant
            at + pat.len() <= v.len(),
            i <= pat.len(),
            forall|k: int| 0 <= k < i ==> v@[at + k] == pat@[k],
        decreases pat.len() - i,
    {
        if v[at + i] != pat[i] {
            assert(v@.subrange(at as int, at + pat.len())[i as int] != pat@[i as int]);
            return false;
        }
        i += 1;
    }
    assert(v@.subrange(at as int, at + pat.len()) =~= pat@);
    true
}

/// `s.starts_with(pat)`.
pub open spec fn starts_with(s: Seq<char>, pat: Seq<char>) -> bool {
    matches_at(s, pat, 0)
}

/// `s.ends_with(pat)`.
pub open spec fn ends_with(s: Seq<char>, pat: Seq<char>) -> bool {
    matches_at(s, pat, s.len() - pat.len())
}

pub fn chars_starts_with(v: &Vec<char>, pat: &str) -> (r: bool)
    ensures
        r == starts_with(v@, pat@),
{
    let p = chars_of(pat);
    chars_match_at(v, &p, 0)
}

pub fn chars_ends_with(v: &Vec<char>, pat: &str) -> (r: bool)
    ensures
        r == ends_with(v@, pat@),
{
    let p = chars_of(pat);
    if p.len() > v.len() {
        return false;
    }
    chars_match_at(v, &p, v.len() - p.len())
}

/// Index of the first occurrence of `pat` in `s` at or after `from`.
pub open spec fn find_from(s: Seq<char>, pat: Seq<char>, from: int) -> Option<int>
    decreases s.len() + 1 - from,
{
    if from < 0 || from + pat.len() > s.len() {
        None
    } else if matches_at(s, pat, from) {
        Some(from)
    } else {
        find_from(s, pat, from + 1)
    }
}

/// `str::find` on a pattern string.
pub open spec fn find(s: Seq<char>, pat: Seq<char>) -> Option<int> {
    find_from(s, pat, 0)
}

/// `str::contains` on a pattern string.
pub open spec fn contains_seq(s: Seq<char>, pat: Seq<char>) -> bool {
    find(s, pat) is Some
}

pub proof fn lemma_find_from(s: Seq<char>, pat: Seq<char>, from: int)
    requires
        0 <= from,
    ensures
        find_from(s, pat, from) matches Some(i) ==> from <= i && matches_at(s, pat, i) && forall|
            k: int,
        | from <= k < i ==> !matches_at(s, pat, k),
        find_from(s, pat, from) is None ==> forall|k: int| from <= k ==> !matches_at(s, pat, k),
    decreases s.len() + 1 - from,
{
    if from + pat.len() > s.len() {
    } else if matches_at(s, pat, from) {
    } else {
        lemma_find_from(s, pat, from + 1);
    }
}

pub proof fn lemma_find_from_unfold(s: Seq<char>, pat: Seq<char>, from: int, i: int)
    requires
        0 <= from <= i,
        forall|k: int| from <= k < i ==> !matches_at(s, pat, k),
    ensures
        find_from(s, pat, from) == find_from(s, pat, i),
    decreases i - from,
{
    if from < i {
        lemma_find_from_unfold(s, pat, from + 1, i);
    }
}

/// The first occurrence of `pat` in `v` at or after `from`.
pub fn find_chars_from(v: &Vec<char>, pat: &Vec<char>, from: usize) -> (r: Option<usize>)
    ensures
        r matches Some(i) ==> find_from(v@, pat@, from as int) == Some(i as int),
        r is None ==> find_from(v@, pat@, from as int) is None,
{
    if pat.len() > v.len() {
        proof {
            lemma_find_from(v@, pat@, from as int);
        }
        return None;
    }
    if pat.len() == 0 {
        if from <= v.len() {
            assert(v@.subrange(from as int, from as int) =~= pat@);
            return Some(from);
        }
        return None;
    }
    let mut i = from;
    while i <= v.len() - pat.len()
        invariant
            from <= i,
            from <= v.len() - pat.len() + 1 ==> i <= v.len() - pat.len() + 1,
            0 < pat.len() <= v.len(),
            forall|k: int| from <= k < i ==> !matches_at(v@, pat@, k),
        decreases v.len() + 1 - i,
    {
        if chars_match_at(v, pat, i) {
            proof {
                lemma_find_from_unfold(v@, pat@, from as int, i as int);
            }
            return Some(i);
        }
        i += 1;
    }
    proof {
        lemma_find_from_unfold(v@, pat@, from as int, i as int);
    }
    None
}

/// Whether `v` contains `pat`.
pub fn chars_contains(v: &Vec<char>, pat: &str) -> (r: bool)
    ensures
        r == contains_seq(v@, pat@),
{
    let p = chars_of(pat);
    find_chars_from(v, &p, 0).is_some()
}

/// Whether `s` contains the character `c`.
pub open spec fn has_char(s: Seq<char>, c: char) -> bool {
    exists|k: int| 0 <= k < s.len() && s[k] == c
}

pub fn chars_has(v: &Vec<char>, c: char) -> (r: bool)
    ensures
        r == has_char(v@, c),
{
    let mut i: usize = 0;
    while i < v.len()
        invariant
            i <= v.len(),
            forall|k: int| 0 <= k < i ==> v@[k] != c,
        decreases v.len() - i,
    {
        if v[i] == c {
            return true;
        }
        i += 1;
    }
    false
}

/// `str::trim_matches` with one of the character sets.
pub fn strip_chars(v: &Vec<char>, set: CharSet) -> (r: Vec<char>)
    ensures
        r@ == strip(v@, set),
{
    let mut i: usize = 0;
    while i < v.len() && set.contains(v[i])
        invariant
            i <= v.len(),
            forall|k: int| 0 <= k < i ==> set.has(#[trigger] v@[k]),
        decreases v.len() - i,
    {
        i += 1;
    }
    proof {
        lemma_lead_skip(v@, set, i as int);
        if i < v.len() {
            assert(v@.skip(i as int)[0] == v@[i as int]);
        }
    }
    let ghost mid = v@.skip(i as int);
    assert(strip_start(v@, set) == mid);
    let mut j: usize = v.len();
    while j > i && set.contains(v[j - 1])
        invariant
            i <= j <= v.len(),
            forall|k: int| j <= k < v.len() ==> set.has(#[trigger] v@[k]),
        decreases j,
    {
        j -= 1;
    }
    proof {
        let jj = j - i;
        assert forall|k: int| jj <= k < mid.len() implies set.has(#[trigger] mid[k]) by {
            assert(mid[k] == v@[k + i]);
        }
        lemma_trail_take(mid, set, jj as int);
        if jj > 0 {
            assert(mid.take(jj as int).last() == v@[j - 1]);
        }
    }
    let mut r: Vec<char> = Vec::new();
    let mut k = i;
    while k < j
        invariant
            i <= k <= j <= v.len(),
            r@ == v@.subrange(i as int, k as int),
        decreases j - k,
    {
        r.push(v[k]);
        assert(v@.subrange(i as int, k + 1) =~= v@.subrange(i as int, k as int).push(v@[k as int]));
        k += 1;
    }
    assert(r@ =~= mid.take(mid.len() - trail(mid, set)));
    r
}

/// `str::trim`.
pub fn trim_chars(v: &Vec<char>) -> (r: Vec<char>)
    ensures
        r@ == trim(v@),
{
    strip_chars(v, CharSet::Whitespace)
}

/// `str::trim_start_matches` with one of the character sets.
pub fn strip_start_chars(v: &Vec<char>, set: CharSet) -> (r: Vec<char>)
    ensures
        r@ == strip_start(v@, set),
{
    let mut i: usize = 0;
    while i < v.len() && set.contains(v[i])
        invariant
            i <= v.len(),
            forall|k: int| 0 <= k < i ==> set.has(#[trigger] v@[k]),
        decreases v.len() - i,
    {
        i += 1;
    }
    proof {
        lemma_lead_skip(v@, set, i as int);
        if i < v.len() {
            assert(v@.skip(i as int)[0] == v@[i as int]);
        }
    }
    let mut r: Vec<char> = Vec::new();
    let mut k = i;
    while k < v.len()
        invariant
            i <= k <= v.len(),
            r@ == v@.subrange(i as int, k as int),
        decreases v.len() - k,
    {
        r.push(v[k]);
        assert(v@.subrange(i as int, k + 1) =~= v@.subrange(i as int, k as int).push(v@[k as int]));
        k += 1;
    }
    assert(r@ =~= v@.skip(i as int));
    r
}

/// `str::trim_end_matches` with one of the character sets.
pub fn strip_end_chars(v: &Vec<char>, set: CharSet) -> (r: Vec<char>)
    ensures
        r@ == strip_end(v@, set),
{
    let mut j: usize = v.len();
    while j > 0 && set.contains(v[j - 1])
        invariant
            j <= v.len(),
            forall|k: int| j <= k < v.len() ==> set.has(#[trigger] v@[k]),
        decreases j,
    {
        j -= 1;
    }
    proof {
        lemma_trail_take(v@, set, j as int);
        if j > 0 {
            assert(v@.take(j as int).last() == v@[j - 1]);
        }
    }
    let mut r: Vec<char> = Vec::new();
    let mut k: usize = 0;
    while k < j
        invariant
            k <= j <= v.len(),
            r@ == v@.take(k as int),
        decreases j - k,
    {
        r.push(v[k]);
        assert(v@.take(k + 1) =~= v@.take(k as int).push(v@[k as int]));
        k += 1;
    }
    r
}

/// The number of times `c` occurs in `s`.
pub open spec fn count_char(s: Seq<char>, c: char) -> nat
    decreases s.len(),
{
    if s.len() == 0 {
        0
    } else {
        count_char(s.drop_last(), c) + if s.last() == c {
            1nat
        } else {
            0nat
        }
    }
}

pub fn count_chars(v: &Vec<char>, c: char) -> (n: usize)
    ensures
        n == count_char(v@, c),
{
    let mut n: usize = 0;
    let mut i: usize = 0;
    while i < v.len()
        invariant
            i <= v.len(),
            n == count_char(v@.take(i as int), c),
            n <= i,
        decreases v.len() - i,
    {
        assert(v@.take(i + 1).drop_last() =~= v@.take(i as int));
        if v[i] == c {
            n += 1;
        }
        i += 1;
    }
    assert(v@.take(v.len() as int) =~= v@);
    n
}

/// A string holding the characters of a literal.
pub fn owned(s: &str) -> (r: String)
    ensures
        r@ == s@,
{
    s.to_owned()
}

/// The finished fields and the field being read, after reading `s`.
pub open spec fn fields_state(s: Seq<char>, set: CharSet) -> (Seq<Seq<char>>, Seq<char>)
    decreases s.len(),
{
    if s.len() == 0 {
        (seq![], seq![])
    } else {
        let (done, cur) = fields_state(s.drop_last(), set);
        if set.has(s.last()) {
            (done.push(cur), seq![])
        } else {
            (done, cur.push(s.last()))
        }
    }
}

/// `str::split` at the characters of a set: the fields between them,
/// empty ones included.
pub open spec fn split_at_set(s: Seq<char>, set: CharSet) -> Seq<Seq<char>> {
    fields_state(s, set).0.push(fields_state(s, set).1)
}

/// The fields of `v` between the characters of `set`.
pub fn split_chars(v: &Vec<char>, set: CharSet) -> (r: Vec<Vec<char>>)
    ensures
        r@.map_values(|f: Vec<char>| f@) == split_at_set(v@, set),
{
    let mut done: Vec<Vec<char>> = Vec::new();
    let mut cur: Vec<char> = Vec::new();
    let mut i: usize = 0;
    assert(done@.map_values(|f: Vec<char>| f@) =~= Seq::<Seq<char>>::empty());
    while i < v.len()
        invariant
            i <= v.len(),
            (done@.map_values(|f: Vec<char>| f@), cur@) == fields_state(v@.take(i as int), set),
        decreases v.len() - i,
    {
        assert(v@.take(i + 1).drop_last() =~= v@.take(i as int));
        if set.contains(v[i]) {
            let ghost before = done@.map_values(|f: Vec<char>| f@);
            done.push(cur);
            assert(done@.map_values(|f: Vec<char>| f@) =~= before.push(cur@));
            cur = Vec::new();
            assert(cur@ =~= Seq::<char>::empty());
        } else {
            cur.push(v[i]);
        }
        i += 1;
    }
    assert(v@.take(v.len() as int) =~= v@);
    let ghost before = done@.map_values(|f: Vec<char>| f@);
    let ghost last = cur@;
    done.push(cur);
    assert(done@.map_values(|f: Vec<char>| f@) =~= before.push(last));
    done
}

/// Whether `s` holds a CJK ideograph.
pub open spec fn has_cjk(s: Seq<char>) -> bool {
    exists|k: int| 0 <= k < s.len() && spec_is_cjk(s[k])
}

pub fn chars_have_cjk(v: &Vec<char>) -> (r: bool)
    ensures
        r == has_cjk(v@),
{
    let mut i: usize = 0;
    while i < v.len()
        invariant
            i <= v.len(),
            forall|k: int| 0 <= k < i ==> !spec_is_cjk(v@[k]),
        decreases v.len() - i,
    {
        if is_cjk(v[i]) {
            return true;
        }
        i += 1;
    }
    false
}

/// Whether the characters `v` are those of the literal `lit`.
pub fn chars_eq_str(v: &Vec<char>, lit: &str) -> (r: bool)
    ensures
        r == (v@ == lit@),
{
    let w = chars_of(lit);
    chars_eq(v, &w)
}

} // verus!
