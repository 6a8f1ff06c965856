//! Writing numbers: decimal and hexadecimal digits, and half points.
use vstd::prelude::*;
use crate::escape::hex_lower;
use crate::text::push_char;

verus! {

/// The decimal digit for `d`.
pub open spec fn digit_char(d: nat) -> char {
    if d == 0 { '0' } else if d == 1 { '1' } else if d == 2 { '2' } else if d == 3 { '3' }
    else if d == 4 { '4' } else if d == 5 { '5' } else if d == 6 { '6' } else if d == 7 { '7' }
    else if d == 8 { '8' } else { '9' }
}

/// The decimal digits of `n`, without leading zeros.
pub open spec fn decimal(n: nat) -> Seq<char>
    decreases n,
{
    if n < 10 {
        seq![digit_char(n)]
    } else {
        decimal(n / 10).push(digit_char(n % 10))
    }
}

/// The lower-case hexadecimal digits of `n`, without leading zeros.
pub open spec fn hexadecimal(n: nat) -> Seq<char>
    decreases n,
{
    if n < 16 {
        seq![hex_lower(n)]
    } else {
        hexadecimal(n / 16).push(hex_lower(n % 16))
    }
}

/// The lower-case hexadecimal digits of `n`, at least four of them.
pub open spec fn hexadecimal4(n: nat) -> Seq<char> {
    let h = hexadecimal(n);
    if h.len() >= 4 {
        h
    } else {
        Seq::new((4 - h.len()) as nat, |i: int| '0') + h
    }
}

fn digit(d: u64) -> (c: char)
    requires
        d < 10,
    ensures
        c == digit_char(d as nat),
{
    if d == 0 { '0' } else if d == 1 { '1' } else if d == 2 { '2' } else if d == 3 { '3' }
    else if d == 4 { '4' } else if d == 5 { '5' } else if d == 6 { '6' } else if d == 7 { '7' }
    else if d == 8 { '8' } else { '9' }
}

/// Appends the decimal digits of `n`.
pub fn push_decimal(out: &mut String, n: u64)
    ensures
        final(out)@ == old(out)@ + decimal(n as nat),
    decreases n,
{
    if n >= 10 {
        push_decimal(out, n / 10);
    }
    let ghost before = out@;
    push_char(out, digit(n % 10));
    assert(out@ =~= old(out)@ + decimal(n as nat));
}

/// The decimal digits of `n`.
pub fn decimal_string(n: usize) -> (r: String)
    ensures
        r@ == decimal(n as nat),
{
    let mut out = String::new();
    push_decimal(&mut out, n as u64);
    assert(out@ =~= decimal(n as nat));
    out
}

/// Appends the lower-case hexadecimal digits of `n`.
pub fn push_hexadecimal(out: &mut String, n: u64)
    ensures
        final(out)@ == old(out)@ + hexadecimal(n as nat),
    decreases n,
{
    if n >= 16 {
        push_hexadecimal(out, n / 16);
    }
    push_char(out, crate::escape::hex_digit_char((n % 16) as u32));
    assert(out@ =~= old(out)@ + hexadecimal(n as nat));
}

proof fn lemma_hexadecimal_len(n: nat)
    ensures
        hexadecimal(n).len() >= 1,
    decreases n,
{
    if n >= 16 {
        lemma_hexadecimal_len(n / 16);
    }
}

/// Appends the lower-case hexadecimal digits of `n`, padded with zeros to
/// four.
pub fn push_hexadecimal4(out: &mut String, n: u64)
    ensures
        final(out)@ == old(out)@ + hexadecimal4(n as nat),
{
    let mut digits = String::new();
    push_hexadecimal(&mut digits, n);
    let h = crate::text::chars_of(digits.as_str());
    assert(h@ =~= hexadecimal(n as nat));
    proof {
        lemma_hexadecimal_len(n as nat);
    }
    let ghost before = out@;
    if h.len() < 4 {
        let mut pad: usize = h.len();
        assert(Seq::new(0nat, |i: int| '0') =~= Seq::<char>::empty());
        assert(out@ =~= before + Seq::new((pad - h.len()) as nat, |i: int| '0'));
        while pad < 4
            invariant
                h.len() <= pad <= 4,
                out@ == before + Seq::new((pad - h.len()) as nat, |i: int| '0'),
            decreases 4 - pad,
        {
            push_char(out, '0');
            assert(Seq::new((pad + 1 - h.len()) as nat, |i: int| '0') =~= Seq::new(
                (pad - h.len()) as nat,
                |i: int| '0',
            ).push('0'));
            pad += 1;
        }
        crate::text::push_chars(out, &h);
        assert(out@ =~= before + (Seq::new((4 - h@.len()) as nat, |i: int| '0') + h@));
    } else {
        crate::text::push_chars(out, &h);
    }
}

/// Half points as points: `13` is `6.5`, `24` is `12`.
pub open spec fn spec_hps_to_points(hps: nat) -> Seq<char> {
    if hps % 2 == 0 {
        decimal(hps / 2)
    } else {
        decimal(hps / 2) + seq!['.', '5']
    }
}

/// A size in half points written in points.
pub fn hps_to_points(hps: usize) -> (r: String)
    ensures
        r@ == spec_hps_to_points(hps as nat),
{
    let mut out = decimal_string(hps / 2);
    if hps % 2 == 1 {
        push_char(&mut out, '.');
        push_char(&mut out, '5');
        assert(out@ =~= decimal((hps / 2) as nat) + seq!['.', '5']);
    }
    out
}

} // verus!
