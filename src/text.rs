//! Conversions between strings and character sequences.

use vstd::prelude::*;

verus! {

/// What `String::from_iter` builds from a sequence of characters.
pub uninterp spec fn string_of(chars: Seq<char>) -> String;

/// Relies on `str::chars`: the characters of a string, in order.
#[verifier::external_body]
pub(crate) fn chars_of(s: &str) -> (r: Vec<char>)
    ensures
        r@ == s@,
{
    s.chars().collect()
}

/// Relies on `String::from_iter`: the string holding exactly these characters.
#[verifier::external_body]
pub(crate) fn string_from_chars(chars: &Vec<char>) -> (r: String)
    ensures
        r == string_of(chars@),
        r@ == chars@,
{
    String::from_iter(chars.iter())
}

/// The ASCII code of a character that may occur in a numeral: a digit or the
/// minus sign; -1 for any other character.
pub open spec fn code_of(c: char) -> int {
    match c {
        '-' => 45,
        '0' => 48,
        '1' => 49,
        '2' => 50,
        '3' => 51,
        '4' => 52,
        '5' => 53,
        '6' => 54,
        '7' => 55,
        '8' => 56,
        '9' => 57,
        _ => -1,
    }
}

/// The code of a character, as `code_of` gives it.
pub fn numeral_code(c: char) -> (r: i8)
    ensures
        r == code_of(c),
{
    match c {
        '-' => 45,
        '0' => 48,
        '1' => 49,
        '2' => 50,
        '3' => 51,
        '4' => 52,
        '5' => 53,
        '6' => 54,
        '7' => 55,
        '8' => 56,
        '9' => 57,
        _ => -1,
    }
}

/// The codes of a text's characters.
pub open spec fn char_codes(s: Seq<char>) -> Seq<int> {
    s.map_values(|c: char| code_of(c))
}

/// The byte values of a text.
pub open spec fn byte_codes(b: Seq<u8>) -> Seq<int> {
    b.map_values(|x: u8| x as int)
}

pub open spec fn is_digit_code(c: int) -> bool {
    48 <= c <= 57
}

pub open spec fn all_digits(d: Seq<int>) -> bool {
    forall|i: int| 0 <= i < d.len() ==> is_digit_code(d[i])
}

/// The number that a sequence of decimal digits (as codes) writes.
pub open spec fn decimal_value(d: Seq<int>) -> int
    decreases d.len(),
{
    if d.len() == 0 {
        0
    } else {
        decimal_value(d.drop_last()) * 10 + (d.last() - 48)
    }
}

/// One or more decimal digits, with an optional leading minus sign.
pub open spec fn is_numeral(d: Seq<int>) -> bool {
    if d.len() > 0 && d[0] == 45 {
        d.len() >= 2 && all_digits(d.drop_first())
    } else {
        d.len() >= 1 && all_digits(d)
    }
}

/// The integer that a numeral writes.
pub open spec fn numeral_value(d: Seq<int>) -> int {
    if d.len() > 0 && d[0] == 45 {
        -decimal_value(d.drop_first())
    } else {
        decimal_value(d)
    }
}

pub open spec fn fits_i64(v: int) -> bool {
    i64::MIN <= v <= i64::MAX
}

/// Relies on `atoi::atoi::<i64>`: on a numeral it returns the value, or
/// `None` when the value does not fit in an `i64`.
#[verifier::external_body]
pub(crate) fn parse_numeral(text: &Vec<u8>) -> (r: Option<i64>)
    requires
        is_numeral(byte_codes(text@)),
    ensures
        r == (if fits_i64(numeral_value(byte_codes(text@))) {
            Some(numeral_value(byte_codes(text@)) as i64)
        } else {
            None
        }),
{
    atoi::atoi::<i64>(text.as_slice())
}

/// The bytes of a text of ASCII digits and minus signs.
pub fn numeral_bytes(s: &Vec<char>) -> (r: Vec<u8>)
    requires
        forall|i: int| 0 <= i < s@.len() ==> code_of(#[trigger] s@[i]) >= 0,
    ensures
        byte_codes(r@) == char_codes(s@),
{
    let mut r: Vec<u8> = Vec::new();
    let mut i: usize = 0;
    while i < s.len()
        invariant
            i <= s@.len(),
            forall|k: int| 0 <= k < s@.len() ==> code_of(#[trigger] s@[k]) >= 0,
            byte_codes(r@) == char_codes(s@.subrange(0, i as int)),
        decreases s.len() - i,
    {
        let c = s[i];
        let b: u8 = numeral_code(c) as u8;
        assert(b as int == code_of(c));
        let ghost old_r = r@;
        r.push(b);
        i += 1;
        assert(s@.subrange(0, i as int) =~= s@.subrange(0, i - 1).push(c));
        assert(r@ == old_r.push(b));
        assert(byte_codes(old_r.push(b)) =~= byte_codes(old_r).push(b as int));
        assert(char_codes(s@.subrange(0, i - 1).push(c)) =~= char_codes(
            s@.subrange(0, i - 1),
        ).push(code_of(c)));
        assert(byte_codes(r@) =~= char_codes(s@.subrange(0, i as int)));
    }
    assert(s@.subrange(0, i as int) =~= s@);
    r
}

/// Whether a string holds exactly the characters of a literal.
pub fn str_eq(s: &String, lit: &str) -> (r: bool)
    ensures
        r == (s@ == lit@),
{
    let t = String::from_str(lit);
    *s == t
}

} // verus!
