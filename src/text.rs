use vstd::prelude::*;

verus! {

/// An ASCII capital letter.
pub open spec fn is_upper(c: char) -> bool {
    'A' <= c && c <= 'Z'
}

/// An ASCII small letter.
pub open spec fn is_lower(c: char) -> bool {
    'a' <= c && c <= 'z'
}

/// A letter of the Latin alphabet, in either case. Every other character,
/// accented letters included, is outside the alphabet the ciphers act on.
pub open spec fn is_letter(c: char) -> bool {
    is_upper(c) || is_lower(c)
}

/// The character whose scalar value is `n`.
pub open spec fn from_code(n: int) -> char {
    (n as u32) as char
}

/// The capital form of a letter; any other character is returned as it is.
pub open spec fn upper(c: char) -> char {
    if is_lower(c) {
        from_code(c as u32 - 32)
    } else {
        c
    }
}

/// The position of a letter in the alphabet, from 0 for `A` or `a` to 25.
pub open spec fn letter_index(c: char) -> int {
    upper(c) as u32 - 'A' as u32
}

/// The first character of the alphabet that `c` belongs to.
pub open spec fn case_base(c: char) -> int {
    if is_upper(c) {
        'A' as u32 as int
    } else {
        'a' as u32 as int
    }
}

/// Whether `c` is an ASCII capital letter.
pub fn is_upper_char(c: char) -> (b: bool)
    ensures
        b == is_upper(c),
{
    'A' <= c && c <= 'Z'
}

/// Whether `c` is an ASCII small letter.
pub fn is_lower_char(c: char) -> (b: bool)
    ensures
        b == is_lower(c),
{
    'a' <= c && c <= 'z'
}

/// Whether `c` is a letter of the Latin alphabet.
pub fn is_letter_char(c: char) -> (b: bool)
    ensures
        b == is_letter(c),
{
    is_upper_char(c) || is_lower_char(c)
}

/// The position of letter `c` in the alphabet.
pub fn letter_offset(c: char) -> (r: u8)
    requires
        is_letter(c),
    ensures
        r == letter_index(c),
        r < 26,
{
    if is_upper_char(c) {
        (c as u32 - 65) as u8
    } else {
        (c as u32 - 97) as u8
    }
}

/// The capital letter at position `i` of the alphabet.
pub fn capital_at(i: u8) -> (r: char)
    requires
        i < 26,
    ensures
        r == from_code('A' as u32 + i),
        is_upper(r),
        letter_index(r) == i,
{
    let x: u8 = 65u8 + i;
    x as char
}

/// The letter at position `i` of the alphabet, in the case of letter `c`.
pub fn same_case_at(c: char, i: u8) -> (r: char)
    requires
        is_letter(c),
        i < 26,
    ensures
        r == from_code(case_base(c) + i),
        is_upper(c) ==> is_upper(r),
        is_lower(c) ==> is_lower(r),
        letter_index(r) == i,
{
    if is_upper_char(c) {
        capital_at(i)
    } else {
        let x: u8 = 97u8 + i;
        x as char
    }
}

/// Relies on `String::push`: the character is appended at the end.
#[verifier::external_body]
pub(crate) fn push_char(s: &mut String, c: char)
    ensures
        final(s)@ == old(s)@.push(c),
{
    s.push(c)
}

/// The characters of `s`, in order.
pub fn chars_of(s: &str) -> (v: Vec<char>)
    ensures
        v@ == s@,
{
    let mut v: Vec<char> = Vec::new();
    for c in it: s.chars()
        invariant
            it.seq() == s@,
            v@ == it.seq().take(it.index() as int),
    {
        v.push(c);
    }
    v
}

} // verus!
