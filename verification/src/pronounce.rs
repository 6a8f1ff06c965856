//! Pronunciations: ARPAbet to IPA, and the IPA rendered in each of the
//! schemes that the reader offers.
use vstd::prelude::*;
use vstd::string::StrSliceExecFns;
use crate::text::{
    chars_of, owned, push_char, push_chars, str_eq, string_of, strip, strip_chars,
    strip_end, strip_end_chars, strip_start, strip_start_chars, trim, trim_chars, CharSet,
};
use crate::tokens::concat;
use crate::lexicon::LexiconEntry;
use crate::text::{count_char, count_chars};

verus! {

// ---------------------------------------------------------------------------
// ARPAbet
// ---------------------------------------------------------------------------

pub open spec fn is_stress_digit(c: char) -> bool {
    c == '0' || c == '1' || c == '2'
}

/// An ARPAbet phoneme split into its symbol and its stress digit.
pub open spec fn spec_split_stress(p: Seq<char>) -> (Seq<char>, Option<char>) {
    if p.len() > 0 && is_stress_digit(p.last()) {
        (p.drop_last(), Some(p.last()))
    } else {
        (p, None)
    }
}

/// Splits an ARPAbet phoneme such as `AH0` into its symbol and its stress digit.
pub fn split_arpabet_stress(phoneme: &str) -> (r: (&str, Option<char>))
    ensures
        (r.0@, r.1) == spec_split_stress(phoneme@),
{
    let v = chars_of(phoneme);
    let n = v.len();
    if n > 0 && (v[n - 1] == '0' || v[n - 1] == '1' || v[n - 1] == '2') {
        let head = phoneme.substring_char(0, n - 1);
        assert(head@ =~= phoneme@.drop_last());
        return (head, Some(v[n - 1]));
    }
    (phoneme, None)
}

/// The IPA for one ARPAbet symbol with its stress digit; empty for an unknown symbol.
pub open spec fn spec_arpa_ipa(symbol: Seq<char>, stress: Option<char>) -> Seq<char> {
    if symbol == "AH"@ && stress == Some('0') {
        "ə"@
    } else if symbol == "AH"@ {
        "ʌ"@
    } else if symbol == "ER"@ && stress == Some('0') {
        "ɚ"@
    } else if symbol == "ER"@ {
        "ɝ"@
    } else if symbol == "AA"@ {
        "ɑ"@
    } else if symbol == "AE"@ {
        "æ"@
    } else if symbol == "AO"@ {
        "ɔ"@
    } else if symbol == "AW"@ {
        "aʊ"@
    } else if symbol == "AY"@ {
        "aɪ"@
    } else if symbol == "B"@ {
        "b"@
    } else if symbol == "CH"@ {
        "tʃ"@
    } else if symbol == "D"@ {
        "d"@
    } else if symbol == "DH"@ {
        "ð"@
    } else if symbol == "EH"@ {
        "ɛ"@
    } else if symbol == "EY"@ {
        "eɪ"@
    } else if symbol == "F"@ {
        "f"@
    } else if symbol == "G"@ {
        "ɡ"@
    } else if symbol == "HH"@ {
        "h"@
    } else if symbol == "IH"@ {
        "ɪ"@
    } else if symbol == "IY"@ {
        "i"@
    } else if symbol == "JH"@ {
        "dʒ"@
    } else if symbol == "K"@ {
        "k"@
    } else if symbol == "L"@ {
        "l"@
    } else if symbol == "M"@ {
        "m"@
    } else if symbol == "N"@ {
        "n"@
    } else if symbol == "NG"@ {
        "ŋ"@
    } else if symbol == "OW"@ {
        "oʊ"@
    } else if symbol == "OY"@ {
        "ɔɪ"@
    } else if symbol == "P"@ {
        "p"@
    } else if symbol == "R"@ {
        "r"@
    } else if symbol == "S"@ {
        "s"@
    } else if symbol == "SH"@ {
        "ʃ"@
    } else if symbol == "T"@ {
        "t"@
    } else if symbol == "TH"@ {
        "θ"@
    } else if symbol == "UH"@ {
        "ʊ"@
    } else if symbol == "UW"@ {
        "u"@
    } else if symbol == "V"@ {
        "v"@
    } else if symbol == "W"@ {
        "w"@
    } else if symbol == "Y"@ {
        "j"@
    } else if symbol == "Z"@ {
        "z"@
    } else if symbol == "ZH"@ {
        "ʒ"@
    } else {
        ""@
    }
}

/// Reads an ARPAbet symbol back from its IPA.
spec fn arpa_symbol_of(ipa: Seq<char>) -> Seq<char> {
    if ipa.len() == 1 {
        let c = ipa[0];
        if c == 'ə' {
            "AH"@
        } else if c == 'ʌ' {
            "AH"@
        } else if c == 'ɚ' {
            "ER"@
        } else if c == 'ɝ' {
            "ER"@
        } else if c == 'ɑ' {
            "AA"@
        } else if c == 'æ' {
            "AE"@
        } else if c == 'ɔ' {
            "AO"@
        } else if c == 'b' {
            "B"@
        } else if c == 'd' {
            "D"@
        } else if c == 'ð' {
            "DH"@
        } else if c == 'ɛ' {
            "EH"@
        } else if c == 'f' {
            "F"@
        } else if c == 'ɡ' {
            "G"@
        } else if c == 'h' {
            "HH"@
        } else if c == 'ɪ' {
            "IH"@
        } else if c == 'i' {
            "IY"@
        } else if c == 'k' {
            "K"@
        } else if c == 'l' {
            "L"@
        } else if c == 'm' {
            "M"@
        } else if c == 'n' {
            "N"@
        } else if c == 'ŋ' {
            "NG"@
        } else if c == 'p' {
            "P"@
        } else if c == 'r' {
            "R"@
        } else if c == 's' {
            "S"@
        } else if c == 'ʃ' {
            "SH"@
        } else if c == 't' {
            "T"@
        } else if c == 'θ' {
            "TH"@
        } else if c == 'ʊ' {
            "UH"@
        } else if c == 'u' {
            "UW"@
        } else if c == 'v' {
            "V"@
        } else if c == 'w' {
            "W"@
        } else if c == 'j' {
            "Y"@
        } else if c == 'z' {
            "Z"@
        } else if c == 'ʒ' {
            "ZH"@
        } else {
            seq![]
        }
    } else if ipa.len() == 2 {
        if ipa[0] == 'a' && ipa[1] == 'ʊ' {
            "AW"@
        } else if ipa[0] == 'a' && ipa[1] == 'ɪ' {
            "AY"@
        } else if ipa[0] == 't' && ipa[1] == 'ʃ' {
            "CH"@
        } else if ipa[0] == 'e' && ipa[1] == 'ɪ' {
            "EY"@
        } else if ipa[0] == 'd' && ipa[1] == 'ʒ' {
            "JH"@
        } else if ipa[0] == 'o' && ipa[1] == 'ʊ' {
            "OW"@
        } else if ipa[0] == 'ɔ' && ipa[1] == 'ɪ' {
            "OY"@
        } else {
            seq![]
        }
    } else {
        seq![]
    }
}

proof fn lemma_arpa_symbol_read_back(symbol: Seq<char>, stress: Option<char>)
    requires
        spec_arpa_ipa(symbol, stress).len() > 0,
    ensures
        arpa_symbol_of(spec_arpa_ipa(symbol, stress)) == symbol,
{
    reveal_strlit("aɪ");
    reveal_strlit("aʊ");
    reveal_strlit("b");
    reveal_strlit("d");
    reveal_strlit("dʒ");
    reveal_strlit("eɪ");
    reveal_strlit("f");
    reveal_strlit("h");
    reveal_strlit("i");
    reveal_strlit("j");
    reveal_strlit("k");
    reveal_strlit("l");
    reveal_strlit("m");
    reveal_strlit("n");
    reveal_strlit("oʊ");
    reveal_strlit("p");
    reveal_strlit("r");
    reveal_strlit("s");
    reveal_strlit("t");
    reveal_strlit("tʃ");
    reveal_strlit("u");
    reveal_strlit("v");
    reveal_strlit("w");
    reveal_strlit("z");
    reveal_strlit("æ");
    reveal_strlit("ð");
    reveal_strlit("ŋ");
    reveal_strlit("ɑ");
    reveal_strlit("ɔ");
    reveal_strlit("ɔɪ");
    reveal_strlit("ə");
    reveal_strlit("ɚ");
    reveal_strlit("ɛ");
    reveal_strlit("ɝ");
    reveal_strlit("ɡ");
    reveal_strlit("ɪ");
    reveal_strlit("ʃ");
    reveal_strlit("ʊ");
    reveal_strlit("ʌ");
    reveal_strlit("ʒ");
    reveal_strlit("θ");
    reveal_strlit("");
}

/// Law: different ARPAbet symbols never give the same IPA, so each sound of
/// the dictionary keeps its own letter (`TH` and `DH`, `S` and `SH` stay
/// apart).
pub proof fn arpabet_symbols_stay_apart(a: Seq<char>, stress_a: Option<char>, b: Seq<char>, stress_b: Option<char>)
    requires
        spec_arpa_ipa(a, stress_a).len() > 0,
        spec_arpa_ipa(a, stress_a) == spec_arpa_ipa(b, stress_b),
    ensures
        a == b,
{
    reveal_strlit("");
    lemma_arpa_symbol_read_back(a, stress_a);
    lemma_arpa_symbol_read_back(b, stress_b);
}

/// Law: `TH` is the voiceless `θ` and `DH` the voiced `ð`, whatever the
/// stress digit.
pub proof fn dental_fricatives(stress: Option<char>)
    ensures
        spec_arpa_ipa("TH"@, stress) == seq!['θ'],
        spec_arpa_ipa("DH"@, stress) == seq!['ð'],
{
    reveal_strlit("θ");
    reveal_strlit("ð");
    reveal_strlit("TH");
    reveal_strlit("DH");
    reveal_strlit("AA");
    reveal_strlit("AE");
    reveal_strlit("AH");
    reveal_strlit("AO");
    reveal_strlit("AW");
    reveal_strlit("AY");
    reveal_strlit("B");
    reveal_strlit("CH");
    reveal_strlit("D");
    reveal_strlit("EH");
    reveal_strlit("ER");
    reveal_strlit("EY");
    reveal_strlit("F");
    reveal_strlit("G");
    reveal_strlit("HH");
    reveal_strlit("IH");
    reveal_strlit("IY");
    reveal_strlit("JH");
    reveal_strlit("K");
    reveal_strlit("L");
    reveal_strlit("M");
    reveal_strlit("N");
    reveal_strlit("NG");
    reveal_strlit("OW");
    reveal_strlit("OY");
    reveal_strlit("P");
    reveal_strlit("R");
    reveal_strlit("S");
    reveal_strlit("SH");
    reveal_strlit("T");
    reveal_strlit("UH");
    reveal_strlit("UW");
    reveal_strlit("V");
    reveal_strlit("W");
    reveal_strlit("Y");
    reveal_strlit("Z");
    reveal_strlit("ZH");
    assert("TH"@ != "AH"@) by {
        assert("TH"@[0] != "AH"@[0]);
    }
    assert("TH"@ != "ER"@) by {
        assert("TH"@[0] != "ER"@[0]);
    }
    assert("TH"@ != "AA"@) by {
        assert("TH"@[0] != "AA"@[0]);
    }
    assert("TH"@ != "AE"@) by {
        assert("TH"@[0] != "AE"@[0]);
    }
    assert("TH"@ != "AO"@) by {
        assert("TH"@[0] != "AO"@[0]);
    }
    assert("TH"@ != "AW"@) by {
        assert("TH"@[0] != "AW"@[0]);
    }
    assert("TH"@ != "AY"@) by {
        assert("TH"@[0] != "AY"@[0]);
    }
    assert("TH"@ != "B"@) by {
        assert("TH"@.len() != "B"@.len());
    }
    assert("TH"@ != "CH"@) by {
        assert("TH"@[0] != "CH"@[0]);
    }
    assert("TH"@ != "D"@) by {
        assert("TH"@.len() != "D"@.len());
    }
    assert("TH"@ != "DH"@) by {
        assert("TH"@[0] != "DH"@[0]);
    }
    assert("TH"@ != "EH"@) by {
        assert("TH"@[0] != "EH"@[0]);
    }
    assert("TH"@ != "EY"@) by {
        assert("TH"@[0] != "EY"@[0]);
    }
    assert("TH"@ != "F"@) by {
        assert("TH"@.len() != "F"@.len());
    }
    assert("TH"@ != "G"@) by {
        assert("TH"@.len() != "G"@.len());
    }
    assert("TH"@ != "HH"@) by {
        assert("TH"@[0] != "HH"@[0]);
    }
    assert("TH"@ != "IH"@) by {
        assert("TH"@[0] != "IH"@[0]);
    }
    assert("TH"@ != "IY"@) by {
        assert("TH"@[0] != "IY"@[0]);
    }
    assert("TH"@ != "JH"@) by {
        assert("TH"@[0] != "JH"@[0]);
    }
    assert("TH"@ != "K"@) by {
        assert("TH"@.len() != "K"@.len());
    }
    assert("TH"@ != "L"@) by {
        assert("TH"@.len() != "L"@.len());
    }
    assert("TH"@ != "M"@) by {
        assert("TH"@.len() != "M"@.len());
    }
    assert("TH"@ != "N"@) by {
        assert("TH"@.len() != "N"@.len());
    }
    assert("TH"@ != "NG"@) by {
        assert("TH"@[0] != "NG"@[0]);
    }
    assert("TH"@ != "OW"@) by {
        assert("TH"@[0] != "OW"@[0]);
    }
    assert("TH"@ != "OY"@) by {
        assert("TH"@[0] != "OY"@[0]);
    }
    assert("TH"@ != "P"@) by {
        assert("TH"@.len() != "P"@.len());
    }
    assert("TH"@ != "R"@) by {
        assert("TH"@.len() != "R"@.len());
    }
    assert("TH"@ != "S"@) by {
        assert("TH"@.len() != "S"@.len());
    }
    assert("TH"@ != "SH"@) by {
        assert("TH"@[0] != "SH"@[0]);
    }
    assert("TH"@ != "T"@) by {
        assert("TH"@.len() != "T"@.len());
    }
    assert("DH"@ != "AH"@) by {
        assert("DH"@[0] != "AH"@[0]);
    }
    assert("DH"@ != "ER"@) by {
        assert("DH"@[0] != "ER"@[0]);
    }
    assert("DH"@ != "AA"@) by {
        assert("DH"@[0] != "AA"@[0]);
    }
    assert("DH"@ != "AE"@) by {
        assert("DH"@[0] != "AE"@[0]);
    }
    assert("DH"@ != "AO"@) by {
        assert("DH"@[0] != "AO"@[0]);
    }
    assert("DH"@ != "AW"@) by {
        assert("DH"@[0] != "AW"@[0]);
    }
    assert("DH"@ != "AY"@) by {
        assert("DH"@[0] != "AY"@[0]);
    }
    assert("DH"@ != "B"@) by {
        assert("DH"@.len() != "B"@.len());
    }
    assert("DH"@ != "CH"@) by {
        assert("DH"@[0] != "CH"@[0]);
    }
    assert("DH"@ != "D"@) by {
        assert("DH"@.len() != "D"@.len());
    }
}

/// The IPA for one ARPAbet symbol with its stress digit; empty for an unknown symbol.
pub fn arpa_ipa(symbol: &str, stress: Option<char>) -> (r: &'static str)
    ensures
        r@ == spec_arpa_ipa(symbol@, stress),
{
    if str_eq(symbol, "AH") && stress == Some('0') {
        "ə"
    } else if str_eq(symbol, "AH") {
        "ʌ"
    } else if str_eq(symbol, "ER") && stress == Some('0') {
        "ɚ"
    } else if str_eq(symbol, "ER") {
        "ɝ"
    } else if str_eq(symbol, "AA") {
        "ɑ"
    } else if str_eq(symbol, "AE") {
        "æ"
    } else if str_eq(symbol, "AO") {
        "ɔ"
    } else if str_eq(symbol, "AW") {
        "aʊ"
    } else if str_eq(symbol, "AY") {
        "aɪ"
    } else if str_eq(symbol, "B") {
        "b"
    } else if str_eq(symbol, "CH") {
        "tʃ"
    } else if str_eq(symbol, "D") {
        "d"
    } else if str_eq(symbol, "DH") {
        "ð"
    } else if str_eq(symbol, "EH") {
        "ɛ"
    } else if str_eq(symbol, "EY") {
        "eɪ"
    } else if str_eq(symbol, "F") {
        "f"
    } else if str_eq(symbol, "G") {
        "ɡ"
    } else if str_eq(symbol, "HH") {
        "h"
    } else if str_eq(symbol, "IH") {
        "ɪ"
    } else if str_eq(symbol, "IY") {
        "i"
    } else if str_eq(symbol, "JH") {
        "dʒ"
    } else if str_eq(symbol, "K") {
        "k"
    } else if str_eq(symbol, "L") {
        "l"
    } else if str_eq(symbol, "M") {
        "m"
    } else if str_eq(symbol, "N") {
        "n"
    } else if str_eq(symbol, "NG") {
        "ŋ"
    } else if str_eq(symbol, "OW") {
        "oʊ"
    } else if str_eq(symbol, "OY") {
        "ɔɪ"
    } else if str_eq(symbol, "P") {
        "p"
    } else if str_eq(symbol, "R") {
        "r"
    } else if str_eq(symbol, "S") {
        "s"
    } else if str_eq(symbol, "SH") {
        "ʃ"
    } else if str_eq(symbol, "T") {
        "t"
    } else if str_eq(symbol, "TH") {
        "θ"
    } else if str_eq(symbol, "UH") {
        "ʊ"
    } else if str_eq(symbol, "UW") {
        "u"
    } else if str_eq(symbol, "V") {
        "v"
    } else if str_eq(symbol, "W") {
        "w"
    } else if str_eq(symbol, "Y") {
        "j"
    } else if str_eq(symbol, "Z") {
        "z"
    } else if str_eq(symbol, "ZH") {
        "ʒ"
    } else {
        ""
    }
}

/// The pieces of IPA and the position after the last vowel, after reading
/// the phonemes `ps`; a stress mark goes before the consonants that follow
/// the previous vowel.
pub open spec fn arpa_state(ps: Seq<Seq<char>>) -> (Seq<Seq<char>>, nat)
    decreases ps.len(),
{
    if ps.len() == 0 {
        (seq![], 0)
    } else {
        let (out, last_vowel_end) = arpa_state(ps.drop_last());
        let (symbol, stress) = spec_split_stress(ps.last());
        let ipa = spec_arpa_ipa(symbol, stress);
        if ipa.len() == 0 {
            (out, last_vowel_end)
        } else {
            let marked = if stress == Some('1') {
                out.insert(last_vowel_end as int, "ˈ"@)
            } else if stress == Some('2') {
                out.insert(last_vowel_end as int, "ˌ"@)
            } else {
                out
            };
            let pushed = marked.push(ipa);
            (pushed, if stress is Some {
                pushed.len()
            } else {
                last_vowel_end
            })
        }
    }
}

pub open spec fn spec_arpabet_to_ipa(ps: Seq<Seq<char>>) -> Seq<char> {
    concat(arpa_state(ps).0)
}

/// The IPA of an ARPAbet pronunciation, with stress marks placed before the
/// consonants that start the stressed syllable.
pub fn arpabet_to_ipa(phonemes: &[String]) -> (r: String)
    ensures
        r@ == spec_arpabet_to_ipa(phonemes@.map_values(|p: String| p@)),
{
    let ghost ps = phonemes@.map_values(|p: String| p@);
    let mut output: Vec<String> = Vec::new();
    let mut last_vowel_end: usize = 0;
    let mut i: usize = 0;
    assert(output.deep_view() =~= Seq::<Seq<char>>::empty());
    while i < phonemes.len()
        invariant
            i <= phonemes.len(),
            ps == phonemes@.map_values(|p: String| p@),
            (output.deep_view(), last_vowel_end as nat) == arpa_state(ps.take(i as int)),
            last_vowel_end <= output.len(),
        decreases phonemes.len() - i,
    {
        assert(ps.take(i + 1).drop_last() =~= ps.take(i as int));
        assert(ps.take(i + 1).last() == phonemes@[i as int]@);
        let (symbol, stress) = split_arpabet_stress(phonemes[i].as_str());
        let ipa = arpa_ipa(symbol, stress);
        i += 1;
        if ipa.is_empty() {
            continue;
        }
        let ghost before = output.deep_view();
        match stress {
            Some('1') => {
                output.insert(last_vowel_end, owned("ˈ"));
                assert(output.deep_view() =~= before.insert(last_vowel_end as int, "ˈ"@));
            },
            Some('2') => {
                output.insert(last_vowel_end, owned("ˌ"));
                assert(output.deep_view() =~= before.insert(last_vowel_end as int, "ˌ"@));
            },
            _ => {
                assert(output.deep_view() =~= before);
            },
        }
        let ghost marked = output.deep_view();
        output.push(owned(ipa));
        assert(output.deep_view() =~= marked.push(ipa@));
        if stress.is_some() {
            last_vowel_end = output.len();
        }
    }
    assert(ps.take(phonemes.len() as int) =~= ps);
    join_all(&output)
}

/// The concatenation of the strings of `list`.
pub fn join_all(list: &Vec<String>) -> (r: String)
    ensures
        r@ == concat(list.deep_view()),
{
    let mut out = String::new();
    let mut i: usize = 0;
    while i < list.len()
        invariant
            i <= list.len(),
            out@ == concat(list.deep_view().take(i as int)),
        decreases list.len() - i,
    {
        assert(list.deep_view().take(i + 1).drop_last() =~= list.deep_view().take(i as int));
        let part = chars_of(list[i].as_str());
        push_chars(&mut out, &part);
        i += 1;
    }
    assert(list.deep_view().take(list.len() as int) =~= list.deep_view());
    out
}

// ---------------------------------------------------------------------------
// Replacing characters
// ---------------------------------------------------------------------------

/// Every `c` in `s` replaced by `to`.
pub open spec fn replace_with(s: Seq<char>, c: char, to: Seq<char>) -> Seq<char>
    decreases s.len(),
{
    if s.len() == 0 {
        s
    } else if s.last() == c {
        replace_with(s.drop_last(), c, to) + to
    } else {
        replace_with(s.drop_last(), c, to).push(s.last())
    }
}

/// Every occurrence of the pair `a b` in `s`, read from the left, replaced by `to`.
pub open spec fn replace_pair(s: Seq<char>, a: char, b: char, to: Seq<char>) -> Seq<char>
    decreases s.len(),
{
    if s.len() == 0 {
        s
    } else if s.len() >= 2 && s[0] == a && s[1] == b {
        to + replace_pair(s.skip(2), a, b, to)
    } else {
        seq![s[0]] + replace_pair(s.drop_first(), a, b, to)
    }
}

fn replace_char_with(v: &Vec<char>, c: char, to: &str) -> (r: Vec<char>)
    ensures
        r@ == replace_with(v@, c, to@),
{
    let t = chars_of(to);
    let mut r: Vec<char> = Vec::new();
    let mut i: usize = 0;
    while i < v.len()
        invariant
            i <= v.len(),
            t@ == to@,
            r@ == replace_with(v@.take(i as int), c, to@),
        decreases v.len() - i,
    {
        assert(v@.take(i + 1).drop_last() =~= v@.take(i as int));
        if v[i] == c {
            let mut k: usize = 0;
            let ghost before = r@;
            while k < t.len()
                invariant
                    k <= t.len(),
                    r@ == before + t@.take(k as int),
                decreases t.len() - k,
            {
                r.push(t[k]);
                assert(t@.take(k + 1) =~= t@.take(k as int).push(t@[k as int]));
                k += 1;
            }
            assert(t@.take(t.len() as int) =~= t@);
        } else {
            r.push(v[i]);
        }
        i += 1;
    }
    assert(v@.take(v.len() as int) =~= v@);
    r
}

pub fn replace_pair_with(v: &Vec<char>, a: char, b: char, to: &str) -> (r: Vec<char>)
    ensures
        r@ == replace_pair(v@, a, b, to@),
{
    let t = chars_of(to);
    let mut r: Vec<char> = Vec::new();
    let mut i: usize = 0;
    assert(v@.skip(0) =~= v@);
    while i < v.len()
        invariant
            i <= v.len(),
            t@ == to@,
            r@ + replace_pair(v@.skip(i as int), a, b, to@) == replace_pair(v@, a, b, to@),
        decreases v.len() - i,
    {
        let ghost s = v@.skip(i as int);
        assert(s[0] == v@[i as int]);
        if i + 1 < v.len() && v[i] == a && v[i + 1] == b {
            assert(s[1] == v@[i + 1]);
            assert(s.skip(2) =~= v@.skip(i + 2));
            let ghost before = r@;
            let mut k: usize = 0;
            while k < t.len()
                invariant
                    k <= t.len(),
                    r@ == before + t@.take(k as int),
                decreases t.len() - k,
            {
                r.push(t[k]);
                assert(t@.take(k + 1) =~= t@.take(k as int).push(t@[k as int]));
                k += 1;
            }
            assert(t@.take(t.len() as int) =~= t@);
            assert(before + (t@ + replace_pair(v@.skip(i + 2), a, b, to@)) =~= r@ + replace_pair(
                v@.skip(i + 2),
                a,
                b,
                to@,
            ));
            i += 2;
        } else {
            assert(i + 1 < v.len() ==> s[1] == v@[i + 1]);
            assert(s.drop_first() =~= v@.skip(i + 1));
            let ghost before = r@;
            r.push(v[i]);
            assert(before + (seq![v@[i as int]] + replace_pair(v@.skip(i + 1), a, b, to@))
                =~= r@ + replace_pair(v@.skip(i + 1), a, b, to@));
            i += 1;
        }
    }
    assert(replace_pair(v@.skip(i as int), a, b, to@) =~= Seq::<char>::empty());
    assert(r@ + Seq::<char>::empty() =~= r@);
    r
}

// ---------------------------------------------------------------------------
// The schemes
// ---------------------------------------------------------------------------

/// A pronunciation without its surrounding brackets or slashes.
pub open spec fn spec_normalize_pronunciation_source(raw: Seq<char>) -> Seq<char> {
    trim(strip_end(strip_start(trim(raw), CharSet::PronOpen), CharSet::PronClose))
}

/// A pronunciation without surrounding whitespace, brackets or slashes.
pub fn normalize_pronunciation_source(raw: &str) -> (r: String)
    ensures
        r@ == spec_normalize_pronunciation_source(raw@),
{
    let v = chars_of(raw);
    let t = trim_chars(&v);
    let a = strip_start_chars(&t, CharSet::PronOpen);
    let b = strip_end_chars(&a, CharSet::PronClose);
    let c = trim_chars(&b);
    string_of(&c)
}

/// Whether a character takes a length mark in the British rendering.
pub open spec fn takes_length_mark(c: char) -> bool {
    c == 'ɑ' || c == 'u' || c == 'i'
}

/// `ɛ` written `e`, and `ɑ`, `u`, `i` followed by `ː` where it is missing.
pub open spec fn british_marks(s: Seq<char>) -> Seq<char>
    decreases s.len(),
{
    if s.len() == 0 {
        s
    } else if s[0] == 'ɛ' {
        seq!['e'] + british_marks(s.drop_first())
    } else if takes_length_mark(s[0]) && !(s.len() > 1 && s[1] == 'ː') {
        seq![s[0], 'ː'] + british_marks(s.drop_first())
    } else {
        seq![s[0]] + british_marks(s.drop_first())
    }
}

pub open spec fn spec_british_ipa_approximation(source: Seq<char>) -> Seq<char> {
    let normalized = replace_pair(
        replace_with(replace_with(source, 'ɝ', "ɜː"@), 'ɚ', "ə"@),
        'o',
        'ʊ',
        "əʊ"@,
    );
    british_marks(normalized)
}

/// An approximation of the British pronunciation of American IPA.
pub fn british_ipa_approximation(source: &str) -> (r: String)
    ensures
        r@ == spec_british_ipa_approximation(source@),
{
    let v = chars_of(source);
    let a = replace_char_with(&v, 'ɝ', "ɜː");
    let b = replace_char_with(&a, 'ɚ', "ə");
    let chars = replace_pair_with(&b, 'o', 'ʊ', "əʊ");
    let mut out = String::new();
    let mut index: usize = 0;
    assert(chars@.skip(0) =~= chars@);
    while index < chars.len()
        invariant
            index <= chars.len(),
            out@ + british_marks(chars@.skip(index as int)) == british_marks(chars@),
        decreases chars.len() - index,
    {
        let ghost s = chars@.skip(index as int);
        assert(s[0] == chars@[index as int]);
        assert(s.drop_first() =~= chars@.skip(index + 1));
        assert(s.len() > 1 ==> s[1] == chars@[index + 1]);
        let ghost before = out@;
        let ch = chars[index];
        if ch == 'ɛ' {
            push_char(&mut out, 'e');
        } else {
            push_char(&mut out, ch);
            if (ch == 'ɑ' || ch == 'u' || ch == 'i') && !(index + 1 < chars.len() && chars[index
                + 1] == 'ː') {
                push_char(&mut out, 'ː');
            }
        }
        assert(out@ + british_marks(chars@.skip(index + 1)) =~= before + british_marks(s));
        index += 1;
    }
    assert(out@ + Seq::<char>::empty() =~= out@);
    out
}

pub open spec fn spec_generic_ipa(source: Seq<char>) -> Seq<char> {
    replace_with(replace_with(source, 'ɝ', "ɜr"@), 'ɚ', "ər"@)
}

/// IPA without the r-coloured vowel letters.
pub fn generic_ipa(source: &str) -> (r: String)
    ensures
        r@ == spec_generic_ipa(source@),
{
    let v = chars_of(source);
    let a = replace_char_with(&v, 'ɝ', "ɜr");
    let b = replace_char_with(&a, 'ɚ', "ər");
    string_of(&b)
}

/// The respelling of a pair of IPA characters, if the pair has one.
pub open spec fn respell_pair(a: char, b: char) -> Option<Seq<char>> {
    if a == 't' && b == 'ʃ' {
        Some("ch"@)
    } else if a == 'd' && b == 'ʒ' {
        Some("j"@)
    } else if a == 'a' && b == 'ʊ' {
        Some("ow"@)
    } else if a == 'a' && b == 'ɪ' {
        Some("eye"@)
    } else if a == 'e' && b == 'ɪ' {
        Some("ay"@)
    } else if a == 'o' && b == 'ʊ' {
        Some("oh"@)
    } else if a == 'ɔ' && b == 'ɪ' {
        Some("oy"@)
    } else {
        None
    }
}

/// The respelling of one IPA character.
pub open spec fn respell_single(c: char) -> Seq<char> {
    if c == 'ɝ' {
        "ur"@
    } else if c == 'ɚ' {
        "er"@
    } else if c == 'ɑ' {
        "ah"@
    } else if c == 'æ' {
        seq!['a']
    } else if c == 'ɔ' {
        "aw"@
    } else if c == 'ɛ' {
        "eh"@
    } else if c == 'ɪ' {
        "ih"@
    } else if c == 'i' {
        "ee"@
    } else if c == 'ʊ' {
        seq!['u']
    } else if c == 'u' {
        "oo"@
    } else if c == 'ʌ' || c == 'ə' {
        "uh"@
    } else if c == 'θ' || c == 'ð' {
        "th"@
    } else if c == 'ʃ' {
        "sh"@
    } else if c == 'ʒ' {
        "zh"@
    } else if c == 'ŋ' {
        "ng"@
    } else if c == 'ɡ' {
        seq!['g']
    } else if c == 'j' {
        seq!['y']
    } else if c == 'ˈ' {
        seq!['\'']
    } else if c == 'ˌ' {
        seq![',']
    } else if c == '.' || c == '·' {
        seq!['-']
    } else {
        seq![c]
    }
}

/// The IPA consonants of English words, the voiced `ð` aside (it shares
/// `th` with `θ`).
pub open spec fn distinct_respelled_consonant(c: char) -> bool {
    ||| c == 'b' || c == 'd' || c == 'f' || c == 'ɡ' || c == 'h' || c == 'k' || c == 'l'
    ||| c == 'm' || c == 'n' || c == 'ŋ' || c == 'p' || c == 'r' || c == 's' || c == 'ʃ'
    ||| c == 't' || c == 'θ' || c == 'v' || c == 'w' || c == 'j' || c == 'z' || c == 'ʒ'
}

/// Reads a consonant back from its respelling.
spec fn consonant_of_respelling(t: Seq<char>) -> char {
    if t == seq!['s', 'h'] {
        'ʃ'
    } else if t == seq!['z', 'h'] {
        'ʒ'
    } else if t == seq!['t', 'h'] {
        'θ'
    } else if t == seq!['n', 'g'] {
        'ŋ'
    } else if t == seq!['g'] {
        'ɡ'
    } else if t == seq!['y'] {
        'j'
    } else if t.len() == 1 {
        t[0]
    } else {
        ' '
    }
}

proof fn lemma_respelled_consonant_read_back(c: char)
    requires
        distinct_respelled_consonant(c),
    ensures
        consonant_of_respelling(respell_single(c)) == c,
{
    reveal_strlit("sh");
    reveal_strlit("zh");
    reveal_strlit("th");
    reveal_strlit("ng");
    if c == 'ʃ' {
        assert(respell_single(c) =~= seq!['s', 'h']);
    } else if c == 'ʒ' {
        assert(respell_single(c) =~= seq!['z', 'h']);
        assert(seq!['z', 'h'] != seq!['s', 'h']) by {
            assert(seq!['z', 'h'][0] != seq!['s', 'h'][0]);
        }
    } else if c == 'θ' {
        assert(respell_single(c) =~= seq!['t', 'h']);
        assert(seq!['t', 'h'][0] != seq!['s', 'h'][0]);
        assert(seq!['t', 'h'][0] != seq!['z', 'h'][0]);
    } else if c == 'ŋ' {
        assert(respell_single(c) =~= seq!['n', 'g']);
        assert(seq!['n', 'g'][0] != seq!['s', 'h'][0]);
        assert(seq!['n', 'g'][0] != seq!['z', 'h'][0]);
        assert(seq!['n', 'g'][0] != seq!['t', 'h'][0]);
    } else {
        let t = respell_single(c);
        assert(t.len() == 1);
        assert(t != seq!['s', 'h']);
        assert(t != seq!['z', 'h']);
        assert(t != seq!['t', 'h']);
        assert(t != seq!['n', 'g']);
        if c == 'ɡ' {
            assert(t =~= seq!['g']);
        } else if c == 'j' {
            assert(t =~= seq!['y']);
            assert(seq!['y'][0] != seq!['g'][0]);
        } else {
            assert(t =~= seq![c]);
            assert(t[0] == c);
            assert(t != seq!['g']) by {
                assert(t[0] != 'g');
            }
            assert(t != seq!['y']) by {
                assert(t[0] != 'y');
            }
        }
    }
}

/// Law: in the readable respelling, two different consonants are never
/// written alike (only `θ` and `ð` share `th`), so `ship` and `sip`, or
/// `thin` and `sin`, stay apart.
pub proof fn respelled_consonants_stay_apart(a: char, b: char)
    requires
        distinct_respelled_consonant(a),
        distinct_respelled_consonant(b),
        a != b,
    ensures
        respell_single(a) != respell_single(b),
{
    lemma_respelled_consonant_read_back(a);
    lemma_respelled_consonant_read_back(b);
}

pub open spec fn spec_readable_respelling(s: Seq<char>) -> Seq<char>
    decreases s.len(),
{
    if s.len() == 0 {
        s
    } else if s.len() >= 2 && respell_pair(s[0], s[1]) is Some {
        respell_pair(s[0], s[1])->0 + spec_readable_respelling(s.skip(2))
    } else {
        respell_single(s[0]) + spec_readable_respelling(s.drop_first())
    }
}

fn respell_pair_of(a: char, b: char) -> (r: Option<&'static str>)
    ensures
        r matches Some(x) ==> respell_pair(a, b) == Some(x@),
        r is None ==> respell_pair(a, b) is None,
{
    if a == 't' && b == 'ʃ' {
        Some("ch")
    } else if a == 'd' && b == 'ʒ' {
        Some("j")
    } else if a == 'a' && b == 'ʊ' {
        Some("ow")
    } else if a == 'a' && b == 'ɪ' {
        Some("eye")
    } else if a == 'e' && b == 'ɪ' {
        Some("ay")
    } else if a == 'o' && b == 'ʊ' {
        Some("oh")
    } else if a == 'ɔ' && b == 'ɪ' {
        Some("oy")
    } else {
        None
    }
}

/// Appends the characters of a string slice.
pub fn push_str(out: &mut String, s: &str)
    ensures
        final(out)@ == old(out)@ + s@,
{
    let v = chars_of(s);
    push_chars(out, &v);
}

fn push_respelled(out: &mut String, c: char)
    ensures
        final(out)@ == old(out)@ + respell_single(c),
{
    let ghost before = out@;
    if c == 'ɝ' {
        push_str(out, "ur");
    } else if c == 'ɚ' {
        push_str(out, "er");
    } else if c == 'ɑ' {
        push_str(out, "ah");
    } else if c == 'æ' {
        push_char(out, 'a');
    } else if c == 'ɔ' {
        push_str(out, "aw");
    } else if c == 'ɛ' {
        push_str(out, "eh");
    } else if c == 'ɪ' {
        push_str(out, "ih");
    } else if c == 'i' {
        push_str(out, "ee");
    } else if c == 'ʊ' {
        push_char(out, 'u');
    } else if c == 'u' {
        push_str(out, "oo");
    } else if c == 'ʌ' || c == 'ə' {
        push_str(out, "uh");
    } else if c == 'θ' || c == 'ð' {
        push_str(out, "th");
    } else if c == 'ʃ' {
        push_str(out, "sh");
    } else if c == 'ʒ' {
        push_str(out, "zh");
    } else if c == 'ŋ' {
        push_str(out, "ng");
    } else if c == 'ɡ' {
        push_char(out, 'g');
    } else if c == 'j' {
        push_char(out, 'y');
    } else if c == 'ˈ' {
        push_char(out, '\'');
    } else if c == 'ˌ' {
        push_char(out, ',');
    } else if c == '.' || c == '·' {
        push_char(out, '-');
    } else {
        push_char(out, c);
    }
    assert(out@ =~= before + respell_single(c));
}

/// A plain-letter respelling of IPA, such as `ch` for `tʃ` and `ee` for `i`.
pub fn readable_respelling(source: &str) -> (r: String)
    ensures
        r@ == spec_readable_respelling(source@),
{
    let chars = chars_of(source);
    let mut out = String::new();
    let mut index: usize = 0;
    assert(chars@.skip(0) =~= chars@);
    while index < chars.len()
        invariant
            index <= chars.len(),
            out@ + spec_readable_respelling(chars@.skip(index as int)) == spec_readable_respelling(
                source@,
            ),
            chars@ == source@,
        decreases chars.len() - index,
    {
        let ghost s = chars@.skip(index as int);
        assert(s[0] == chars@[index as int]);
        assert(s.len() > 1 ==> s[1] == chars@[index + 1]);
        let ghost before = out@;
        let paired = if index + 1 < chars.len() {
            respell_pair_of(chars[index], chars[index + 1])
        } else {
            None
        };
        if let Some(value) = paired {
            push_str(&mut out, value);
            assert(s.skip(2) =~= chars@.skip(index + 2));
            assert(out@ + spec_readable_respelling(chars@.skip(index + 2)) =~= before
                + spec_readable_respelling(s));
            index += 2;
            continue;
        }
        push_respelled(&mut out, chars[index]);
        assert(s.drop_first() =~= chars@.skip(index + 1));
        assert(out@ + spec_readable_respelling(chars@.skip(index + 1)) =~= before
            + spec_readable_respelling(s));
        index += 1;
    }
    assert(out@ + Seq::<char>::empty() =~= out@);
    out
}

// ---------------------------------------------------------------------------
// Syllables
// ---------------------------------------------------------------------------

/// The syllable separators that a pronunciation may already hold.
pub open spec fn is_syllable_mark(c: char) -> bool {
    c == '.' || c == '·'
}

/// The characters without separators, and the positions (in those
/// characters) before which a separator stood.
pub open spec fn syllable_split(s: Seq<char>) -> (Seq<char>, Set<int>)
    decreases s.len(),
{
    if s.len() == 0 {
        (seq![], Set::empty())
    } else {
        let (chars, marks) = syllable_split(s.drop_last());
        if is_syllable_mark(s.last()) {
            (chars, marks.insert(chars.len() as int))
        } else {
            (chars.push(s.last()), marks)
        }
    }
}

pub open spec fn is_ipa_vowel(c: char) -> bool {
    c == 'a' || c == 'e' || c == 'i' || c == 'o' || c == 'u' || c == 'ɑ' || c == 'æ' || c == 'ɔ'
        || c == 'ɛ' || c == 'ɪ' || c == 'ʊ' || c == 'ʌ' || c == 'ə' || c == 'ɚ' || c == 'ɝ' || c
        == 'ɜ'
}

pub open spec fn is_diphthong(a: char, b: char) -> bool {
    (a == 'a' && b == 'ʊ') || (a == 'a' && b == 'ɪ') || (a == 'e' && b == 'ɪ') || (a == 'o' && b
        == 'ʊ') || (a == 'ɔ' && b == 'ɪ')
}

/// The vowels from position `i` on, each as the positions of its first and
/// last character (a diphthong takes two).
pub open spec fn vowel_spans_from(cs: Seq<char>, i: int) -> Seq<(int, int)>
    decreases cs.len() - i,
{
    if i < 0 || i >= cs.len() {
        seq![]
    } else if is_ipa_vowel(cs[i]) {
        let end = if i + 1 < cs.len() && is_diphthong(cs[i], cs[i + 1]) {
            i + 1
        } else {
            i
        };
        seq![(i, end)] + vowel_spans_from(cs, end + 1)
    } else {
        vowel_spans_from(cs, i + 1)
    }
}

pub open spec fn is_stress_mark(c: char) -> bool {
    c == 'ˈ' || c == 'ˌ'
}

/// The first stress mark in positions `a..b`.
pub open spec fn first_stress(cs: Seq<char>, a: int, b: int) -> Option<int>
    decreases b - a,
{
    if a >= b {
        None
    } else if is_stress_mark(cs[a]) {
        Some(a)
    } else {
        first_stress(cs, a + 1, b)
    }
}

/// The last position in `a..b` that is not a stress mark.
pub open spec fn last_non_stress(cs: Seq<char>, a: int, b: int) -> Option<int>
    decreases b - a,
{
    if a >= b {
        None
    } else if !is_stress_mark(cs[b - 1]) {
        Some(b - 1)
    } else {
        last_non_stress(cs, a, b - 1)
    }
}

/// Where a syllable break goes between two vowels: at a stress mark between
/// them, else before the last consonant between them, else before the second vowel.
pub open spec fn break_between(cs: Seq<char>, previous_end: int, next_start: int) -> int {
    match first_stress(cs, previous_end + 1, next_start) {
        Some(p) => p,
        None => match last_non_stress(cs, previous_end + 1, next_start) {
            Some(p) => p,
            None => next_start,
        },
    }
}

/// Whether a break goes before position `p`: a separator stood there, or two
/// neighbouring vowels put one there.
pub open spec fn is_break(cs: Seq<char>, marks: Set<int>, spans: Seq<(int, int)>, p: int) -> bool {
    marks.contains(p) || exists|k: int|
        0 <= k < spans.len() - 1 && #[trigger] break_between(cs, spans[k].1, spans[k + 1].0) == p
}

/// The characters with a `·` before each break (none at the start, none doubled).
pub open spec fn with_breaks(cs: Seq<char>, marks: Set<int>, spans: Seq<(int, int)>, n: int) -> Seq<char>
    decreases n,
{
    if n <= 0 {
        seq![]
    } else {
        let out = with_breaks(cs, marks, spans, n - 1);
        let idx = n - 1;
        let out1 = if is_break(cs, marks, spans, idx) && out.len() > 0 && out.last() != '·' {
            out.push('·')
        } else {
            out
        };
        out1.push(cs[idx])
    }
}

pub open spec fn spec_syllable_pronunciation(source: Seq<char>) -> Seq<char> {
    let (cs, marks) = syllable_split(source);
    let spans = vowel_spans_from(cs, 0);
    strip(with_breaks(cs, marks, spans, cs.len() as int), CharSet::MiddleDot)
}

proof fn lemma_syllable_split(s: Seq<char>)
    ensures
        forall|p: int| syllable_split(s).1.contains(p) ==> 0 <= p <= syllable_split(s).0.len(),
    decreases s.len(),
{
    if s.len() > 0 {
        lemma_syllable_split(s.drop_last());
        let (chars, marks) = syllable_split(s.drop_last());
        assert forall|p: int| syllable_split(s).1.contains(p) implies 0 <= p <= syllable_split(
            s,
        ).0.len() by {
            if is_syllable_mark(s.last()) {
                if p != chars.len() {
                    assert(marks.contains(p));
                }
            } else {
                assert(marks.contains(p));
            }
        }
    }
}

proof fn lemma_vowel_spans(cs: Seq<char>, i: int)
    requires
        0 <= i,
    ensures
        forall|k: int|
            0 <= k < vowel_spans_from(cs, i).len() ==> i <= #[trigger] vowel_spans_from(cs, i)[k].0
                <= vowel_spans_from(cs, i)[k].1 < cs.len(),
        forall|k: int|
            0 <= k < vowel_spans_from(cs, i).len() - 1 ==> #[trigger] vowel_spans_from(cs, i)[k].1
                < vowel_spans_from(cs, i)[k + 1].0,
    decreases cs.len() - i,
{
    let all = vowel_spans_from(cs, i);
    if i >= cs.len() {
        assert(all.len() == 0);
    } else if is_ipa_vowel(cs[i]) {
        let end = if i + 1 < cs.len() && is_diphthong(cs[i], cs[i + 1]) {
            i + 1
        } else {
            i
        };
        lemma_vowel_spans(cs, end + 1);
        let rest = vowel_spans_from(cs, end + 1);
        assert(all == seq![(i, end)] + rest);
        assert forall|k: int| 0 <= k < all.len() implies i <= #[trigger] all[k].0 <= all[k].1
            < cs.len() by {
            if k > 0 {
                assert(all[k] == rest[k - 1]);
            }
        }
        assert forall|k: int| 0 <= k < all.len() - 1 implies #[trigger] all[k].1 < all[k + 1].0 by {
            if k > 0 {
                assert(all[k] == rest[k - 1]);
                assert(all[k + 1] == rest[k]);
            } else {
                assert(all[1] == rest[0]);
            }
        }
    } else {
        lemma_vowel_spans(cs, i + 1);
        assert(all == vowel_spans_from(cs, i + 1));
    }
}

proof fn lemma_first_stress(cs: Seq<char>, a: int, b: int)
    ensures
        first_stress(cs, a, b) matches Some(p) ==> a <= p < b,
    decreases b - a,
{
    if a < b && !is_stress_mark(cs[a]) {
        lemma_first_stress(cs, a + 1, b);
    }
}

fn is_vowel_char(c: char) -> (r: bool)
    ensures
        r == is_ipa_vowel(c),
{
    c == 'a' || c == 'e' || c == 'i' || c == 'o' || c == 'u' || c == 'ɑ' || c == 'æ' || c == 'ɔ'
        || c == 'ɛ' || c == 'ɪ' || c == 'ʊ' || c == 'ʌ' || c == 'ə' || c == 'ɚ' || c == 'ɝ' || c
        == 'ɜ'
}

fn is_diphthong_pair(a: char, b: char) -> (r: bool)
    ensures
        r == is_diphthong(a, b),
{
    (a == 'a' && b == 'ʊ') || (a == 'a' && b == 'ɪ') || (a == 'e' && b == 'ɪ') || (a == 'o' && b
        == 'ʊ') || (a == 'ɔ' && b == 'ɪ')
}

/// The break between two vowels, computed.
fn break_position(cs: &Vec<char>, previous_end: usize, next_start: usize) -> (p: usize)
    requires
        previous_end < next_start <= cs.len(),
    ensures
        p as int == break_between(cs@, previous_end as int, next_start as int),
        p <= next_start,
{
    let mut a = previous_end + 1;
    while a < next_start
        invariant
            previous_end + 1 <= a <= next_start <= cs.len(),
            first_stress(cs@, previous_end + 1, next_start as int) == first_stress(
                cs@,
                a as int,
                next_start as int,
            ),
        decreases next_start - a,
    {
        if cs[a] == 'ˈ' || cs[a] == 'ˌ' {
            proof {
                lemma_first_stress(cs@, a as int, next_start as int);
            }
            return a;
        }
        a += 1;
    }
    let mut b = next_start;
    while b > previous_end + 1
        invariant
            previous_end + 1 <= b <= next_start <= cs.len(),
            first_stress(cs@, previous_end + 1, next_start as int) is None,
            last_non_stress(cs@, previous_end + 1, next_start as int) == last_non_stress(
                cs@,
                previous_end + 1,
                b as int,
            ),
        decreases b,
    {
        if !(cs[b - 1] == 'ˈ' || cs[b - 1] == 'ˌ') {
            return b - 1;
        }
        b -= 1;
    }
    next_start
}

/// Whether two neighbouring vowels put a break before position `p`.
pub open spec fn span_break(cs: Seq<char>, spans: Seq<(int, int)>, p: int, upto: int) -> bool {
    exists|j: int|
        0 <= j < upto && j < spans.len() - 1 && #[trigger] break_between(
            cs,
            spans[j].1,
            spans[j + 1].0,
        ) == p
}

fn split_syllable_marks(src: &Vec<char>) -> (r: (Vec<char>, Vec<bool>))
    ensures
        r.0@ == syllable_split(src@).0,
        r.1.len() == r.0.len() + 1,
        forall|p: int| 0 <= p <= r.0.len() ==> r.1@[p] == syllable_split(src@).1.contains(p),
{
    let mut chars: Vec<char> = Vec::new();
    let mut flags: Vec<bool> = Vec::new();
    flags.push(false);
    let mut i: usize = 0;
    while i < src.len()
        invariant
            i <= src.len(),
            chars@ == syllable_split(src@.take(i as int)).0,
            flags.len() == chars.len() + 1,
            forall|p: int|
                0 <= p <= chars.len() ==> flags@[p] == syllable_split(src@.take(i as int)).1.contains(p),
        decreases src.len() - i,
    {
        assert(src@.take(i + 1).drop_last() =~= src@.take(i as int));
        proof {
            lemma_syllable_split(src@.take(i as int));
        }
        let c = src[i];
        if c == '.' || c == '·' {
            let n = chars.len();
            flags.set(n, true);
        } else {
            chars.push(c);
            flags.push(false);
        }
        i += 1;
    }
    assert(src@.take(src.len() as int) =~= src@);
    (chars, flags)
}

fn vowel_spans(chars: &Vec<char>) -> (spans: Vec<(usize, usize)>)
    ensures
        spans@.map_values(|p: (usize, usize)| (p.0 as int, p.1 as int)) == vowel_spans_from(chars@, 0),
{
    let ghost cs = chars@;
    let mut spans: Vec<(usize, usize)> = Vec::new();
    let mut index: usize = 0;
    assert(spans@.map_values(|p: (usize, usize)| (p.0 as int, p.1 as int)) =~= Seq::<(int, int)>::empty());
    while index < chars.len()
        invariant
            index <= chars.len(),
            cs == chars@,
            spans@.map_values(|p: (usize, usize)| (p.0 as int, p.1 as int)) + vowel_spans_from(
                cs,
                index as int,
            ) == vowel_spans_from(cs, 0),
        decreases chars.len() - index,
    {
        let ghost before = spans@.map_values(|p: (usize, usize)| (p.0 as int, p.1 as int));
        if is_vowel_char(chars[index]) {
            let end = if index + 1 < chars.len() && is_diphthong_pair(chars[index], chars[index + 1]) {
                index + 1
            } else {
                index
            };
            spans.push((index, end));
            assert(spans@.map_values(|p: (usize, usize)| (p.0 as int, p.1 as int)) =~= before.push(
                (index as int, end as int),
            ));
            assert(before + vowel_spans_from(cs, index as int) =~= before.push((index as int, end as int))
                + vowel_spans_from(cs, end + 1));
            index = end + 1;
        } else {
            index += 1;
        }
    }
    assert(spans@.map_values(|p: (usize, usize)| (p.0 as int, p.1 as int)) + Seq::<(int, int)>::empty()
        =~= spans@.map_values(|p: (usize, usize)| (p.0 as int, p.1 as int)));
    spans
}

fn mark_breaks(chars: &Vec<char>, spans: &Vec<(usize, usize)>, flags: &mut Vec<bool>, marks: Ghost<Set<int>>)
    requires
        spans@.map_values(|p: (usize, usize)| (p.0 as int, p.1 as int)) == vowel_spans_from(chars@, 0),
        old(flags).len() == chars.len() + 1,
        forall|p: int| 0 <= p <= chars.len() ==> old(flags)@[p] == marks@.contains(p),
    ensures
        final(flags).len() == chars.len() + 1,
        forall|p: int|
            0 <= p < chars.len() ==> final(flags)@[p] == is_break(
                chars@,
                marks@,
                vowel_spans_from(chars@, 0),
                p,
            ),
{
    let ghost cs = chars@;
    let ghost sv = vowel_spans_from(cs, 0);
    proof {
        lemma_vowel_spans(cs, 0);
    }
    assert(sv.len() == spans.len());
    let mut k: usize = 0;
    while spans.len() > 0 && k < spans.len() - 1
        invariant
            cs == chars@,
            sv == vowel_spans_from(cs, 0),
            spans@.map_values(|p: (usize, usize)| (p.0 as int, p.1 as int)) == sv,
            sv.len() == spans.len(),
            forall|j: int| 0 <= j < sv.len() ==> 0 <= #[trigger] sv[j].0 <= sv[j].1 < cs.len(),
            forall|j: int| 0 <= j < sv.len() - 1 ==> #[trigger] sv[j].1 < sv[j + 1].0,
            flags.len() == chars.len() + 1,
            k <= spans.len(),
            spans.len() > 0 ==> k <= spans.len() - 1,
            forall|p: int|
                0 <= p <= chars.len() ==> flags@[p] == (marks@.contains(p) || span_break(
                    cs,
                    sv,
                    p,
                    k as int,
                )),
        decreases spans.len() - k,
    {
        assert(sv[k as int] == (spans@[k as int].0 as int, spans@[k as int].1 as int));
        assert(sv[k + 1] == (spans@[k + 1].0 as int, spans@[k + 1].1 as int));
        let previous_end = spans[k].1;
        let next_start = spans[k + 1].0;
        let b = break_position(chars, previous_end, next_start);
        let ghost old_flags = flags@;
        assert(forall|p: int| 0 <= p <= chars.len() ==> old_flags[p] == (marks@.contains(p) || span_break(cs, sv, p, k as int)));
        flags.set(b, true);
        assert forall|p: int| 0 <= p <= chars.len() implies flags@[p] == (marks@.contains(p)
            || span_break(cs, sv, p, k + 1)) by {
            if p == b {
                assert(break_between(cs, sv[k as int].1, sv[k + 1].0) == p);
                assert(span_break(cs, sv, p, k + 1));
                assert(flags@[p]);
            } else {
                assert(flags@[p] == old_flags[p]);
                assert(old_flags[p] == (marks@.contains(p) || span_break(cs, sv, p, k as int)));
                if span_break(cs, sv, p, k + 1) {
                    let j = choose|j: int|
                        0 <= j < k + 1 && j < sv.len() - 1 && #[trigger] break_between(
                            cs,
                            sv[j].1,
                            sv[j + 1].0,
                        ) == p;
                    assert(j != k);
                    assert(span_break(cs, sv, p, k as int));
                }
                if span_break(cs, sv, p, k as int) {
                    let j = choose|j: int|
                        0 <= j < k && j < sv.len() - 1 && #[trigger] break_between(
                            cs,
                            sv[j].1,
                            sv[j + 1].0,
                        ) == p;
                    assert(span_break(cs, sv, p, k + 1));
                }
            }
        }
        k += 1;
    }
    assert forall|p: int| 0 <= p < chars.len() implies flags@[p] == is_break(cs, marks@, sv, p) by {
        if exists|j: int|
            0 <= j < sv.len() - 1 && #[trigger] break_between(cs, sv[j].1, sv[j + 1].0) == p {
            let j = choose|j: int|
                0 <= j < sv.len() - 1 && #[trigger] break_between(cs, sv[j].1, sv[j + 1].0) == p;
            assert(span_break(cs, sv, p, k as int));
        }
    }
}

/// A pronunciation with `·` between its syllables: at existing separators,
/// at stress marks between vowels, and else before the last consonant
/// between two vowels.
pub fn syllable_pronunciation(source: &str) -> (r: String)
    ensures
        r@ == spec_syllable_pronunciation(source@),
{
    let src = chars_of(source);
    let (chars, mut flags) = split_syllable_marks(&src);
    let ghost cs = chars@;
    let ghost marks = syllable_split(source@).1;
    let spans = vowel_spans(&chars);
    let ghost sv = vowel_spans_from(cs, 0);
    mark_breaks(&chars, &spans, &mut flags, Ghost(marks));
    let mut out: Vec<char> = Vec::new();
    let mut idx: usize = 0;
    while idx < chars.len()
        invariant
            idx <= chars.len(),
            cs == chars@,
            flags.len() == chars.len() + 1,
            forall|p: int| 0 <= p < chars.len() ==> flags@[p] == is_break(cs, marks, sv, p),
            out@ == with_breaks(cs, marks, sv, idx as int),
        decreases chars.len() - idx,
    {
        if flags[idx] && out.len() > 0 && out[out.len() - 1] != '·' {
            out.push('·');
        }
        out.push(chars[idx]);
        idx += 1;
    }
    let t = strip_chars(&out, CharSet::MiddleDot);
    string_of(&t)
}

// ---------------------------------------------------------------------------
// Schemes
// ---------------------------------------------------------------------------

/// A pronunciation rendered in a scheme, in parentheses; empty for the
/// scheme `none` or an empty pronunciation.
pub open spec fn spec_format_pronunciation(raw: Seq<char>, scheme: Seq<char>) -> Seq<char> {
    if scheme == "none"@ {
        seq![]
    } else {
        let source = spec_normalize_pronunciation_source(raw);
        if source.len() == 0 {
            seq![]
        } else {
            let formatted = if scheme == "ipa-uk"@ {
                spec_british_ipa_approximation(source)
            } else if scheme == "ipa"@ {
                spec_generic_ipa(source)
            } else if scheme == "target-friendly"@ {
                spec_readable_respelling(source)
            } else if scheme == "syllable"@ {
                spec_syllable_pronunciation(source)
            } else {
                source
            };
            if formatted.len() == 0 {
                seq![]
            } else {
                seq!['('] + formatted + seq![')']
            }
        }
    }
}

/// The scheme `none` hides every pronunciation; any other shows it in
/// round brackets, or not at all.
pub proof fn pronunciations_are_bracketed_or_hidden(raw: Seq<char>, scheme: Seq<char>)
    ensures
        scheme == "none"@ ==> spec_format_pronunciation(raw, scheme).len() == 0,
        spec_format_pronunciation(raw, scheme).len() > 0 ==> spec_format_pronunciation(raw, scheme)[0] == '('
            && spec_format_pronunciation(raw, scheme).last() == ')',
{
}

/// A pronunciation in the scheme `ipa-us` (as given), `ipa-uk`, `ipa`,
/// `target-friendly` or `syllable`, in parentheses; empty for `none`.
pub fn format_pronunciation(raw: &str, scheme: &str) -> (r: String)
    ensures
        r@ == spec_format_pronunciation(raw@, scheme@),
{
    if str_eq(scheme, "none") {
        return String::new();
    }
    let source = normalize_pronunciation_source(raw);
    if source.as_str().is_empty() {
        return String::new();
    }
    let formatted = if str_eq(scheme, "ipa-uk") {
        british_ipa_approximation(source.as_str())
    } else if str_eq(scheme, "ipa") {
        generic_ipa(source.as_str())
    } else if str_eq(scheme, "target-friendly") {
        readable_respelling(source.as_str())
    } else if str_eq(scheme, "syllable") {
        syllable_pronunciation(source.as_str())
    } else {
        source
    };
    if formatted.as_str().is_empty() {
        return String::new();
    }
    let mut out = String::new();
    push_char(&mut out, '(');
    push_str(&mut out, formatted.as_str());
    push_char(&mut out, ')');
    assert(out@ =~= seq!['('] + formatted@ + seq![')']);
    out
}

/// The number of syllables that an entry's pronunciation marks: one more
/// than nothing, else the number of `.`, `ˈ` and `ˌ`, at least one.
pub open spec fn spec_ipa_syllable_count(ipa: Seq<char>) -> nat {
    let core = strip(ipa, CharSet::ParenSpace);
    if core.len() == 0 {
        1
    } else {
        let n = count_char(core, '.') + count_char(core, 'ˈ') + count_char(core, 'ˌ');
        if n < 1 {
            1
        } else {
            n
        }
    }
}

proof fn lemma_count_three(s: Seq<char>, a: char, b: char, c: char)
    requires
        a != b && b != c && a != c,
    ensures
        count_char(s, a) + count_char(s, b) + count_char(s, c) <= s.len(),
    decreases s.len(),
{
    if s.len() > 0 {
        lemma_count_three(s.drop_last(), a, b, c);
    }
}

/// The number of syllables that an entry's pronunciation marks, at least one.
pub fn ipa_syllable_count(entry: &LexiconEntry) -> (n: usize)
    ensures
        n == spec_ipa_syllable_count(entry.ipa@),
{
    let v = chars_of(entry.ipa.as_str());
    let core = strip_chars(&v, CharSet::ParenSpace);
    if core.len() == 0 {
        return 1;
    }
    let a = count_chars(&core, '.');
    let b = count_chars(&core, 'ˈ');
    let c = count_chars(&core, 'ˌ');
    proof {
        lemma_count_three(core@, '.', 'ˈ', 'ˌ');
    }
    let n = a + b + c;
    if n < 1 {
        1
    } else {
        n
    }
}

} // verus!
