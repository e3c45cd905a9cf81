use vstd::prelude::*;

use crate::text::{
    capital_at, case_base, chars_of, from_code, is_letter, is_letter_char, is_lower, is_upper,
    letter_index, letter_offset, push_char, same_case_at,
};
use crate::CipherError;

verus! {

/// Letter `c` moved `s` places forward within its own case, wrapping round
/// after `Z` or `z`; any other character stays.
pub open spec fn shift_char(c: char, s: int) -> char {
    if is_letter(c) {
        from_code(case_base(c) + (letter_index(c) + s) % 26)
    } else {
        c
    }
}

/// The Caesar cipher of `m` with shift `s`.
pub open spec fn caesar_text(m: Seq<char>, s: int) -> Seq<char> {
    m.map_values(|c: char| shift_char(c, s))
}

/// Letter `c` replaced by the letter at the mirrored place of the alphabet,
/// in the same case; any other character stays.
pub open spec fn mirror_char(c: char) -> char {
    if is_letter(c) {
        from_code(case_base(c) + 25 - letter_index(c))
    } else {
        c
    }
}

/// The Atbash cipher of `m`.
pub open spec fn atbash_text(m: Seq<char>) -> Seq<char> {
    m.map_values(|c: char| mirror_char(c))
}

/// The number of letters in `s`.
pub open spec fn letter_count(s: Seq<char>) -> nat
    decreases s.len(),
{
    if s.len() == 0 {
        0
    } else {
        letter_count(s.drop_last()) + if is_letter(s.last()) {
            1nat
        } else {
            0nat
        }
    }
}

/// A keyword the keyed ciphers accept: non-empty, and letters only.
pub open spec fn valid_keyword(k: Seq<char>) -> bool {
    k.len() > 0 && forall|i: int| 0 <= i < k.len() ==> is_letter(#[trigger] k[i])
}

/// Character `c` of a message under the Vigenère cipher with keyword `key`,
/// when `j` letters of the message come before it: a letter becomes the
/// capital shifted by the keyword letter at place `j`, taken cyclically; any
/// other character stays.
pub open spec fn vigenere_char(c: char, key: Seq<char>, j: int) -> char {
    if is_letter(c) {
        from_code('A' as u32 + (letter_index(c) + letter_index(key[j % key.len() as int])) % 26)
    } else {
        c
    }
}

/// The Vigenère cipher of `m` with keyword `key`.
pub open spec fn vigenere_text(m: Seq<char>, key: Seq<char>) -> Seq<char> {
    Seq::new(m.len(), |i: int| vigenere_char(m[i], key, letter_count(m.take(i)) as int))
}

/// ROT13 is the Caesar cipher with shift 13.
pub open spec fn rot13_text(m: Seq<char>) -> Seq<char> {
    caesar_text(m, 13)
}

fn shift_letter(c: char, s: u8) -> (r: char)
    requires
        s < 26,
    ensures
        r == shift_char(c, s as int),
{
    if is_letter_char(c) {
        same_case_at(c, (letter_offset(c) + s) % 26)
    } else {
        c
    }
}

fn mirror_letter(c: char) -> (r: char)
    ensures
        r == mirror_char(c),
{
    if is_letter_char(c) {
        same_case_at(c, 25 - letter_offset(c))
    } else {
        c
    }
}

/// Whether every character of `keyword` is a letter, and there is one at least.
pub fn is_valid_keyword(keyword: &Vec<char>) -> (b: bool)
    ensures
        b == valid_keyword(keyword@),
{
    if keyword.len() == 0 {
        return false;
    }
    let mut i: usize = 0;
    while i < keyword.len()
        invariant
            i <= keyword.len(),
            forall|j: int| 0 <= j < i ==> is_letter(#[trigger] keyword@[j]),
        decreases keyword.len() - i,
    {
        if !is_letter_char(keyword[i]) {
            return false;
        }
        i = i + 1;
    }
    true
}

/// Caesar cipher: each letter moves `shift` places forward within its own
/// case, wrapping round the alphabet; other characters are copied. A shift
/// of zero counts as unset and is refused.
pub fn caesar_encrypt(message: &str, shift: usize) -> (r: Result<String, CipherError>)
    ensures
        shift == 0 ==> r == Err::<String, CipherError>(CipherError::ZeroShift),
        shift != 0 ==> r is Ok && r->Ok_0@ == caesar_text(message@, (shift % 26) as int),
{
    if shift == 0 {
        return Err(CipherError::ZeroShift);
    }
    let s: u8 = (shift % 26) as u8;
    let m = chars_of(message);
    let mut result = String::new();
    let mut i: usize = 0;
    while i < m.len()
        invariant
            i <= m.len(),
            s < 26,
            result@.len() == i,
            forall|j: int| 0 <= j < i ==> result@[j] == shift_char(m@[j], s as int),
        decreases m.len() - i,
    {
        let c = shift_letter(m[i], s);
        push_char(&mut result, c);
        i = i + 1;
    }
    assert(result@ =~= caesar_text(message@, (shift % 26) as int));
    Ok(result)
}

/// ROT13: the Caesar cipher with shift 13.
pub fn rot13_encrypt(message: &str) -> (r: String)
    ensures
        r@ == rot13_text(message@),
{
    match caesar_encrypt(message, 13) {
        Ok(t) => t,
        Err(_) => String::new(),
    }
}

/// Atbash cipher: each letter becomes its mirror in the alphabet (`A` and
/// `Z`, `B` and `Y`, ...), keeping its case; other characters are copied.
pub fn atbash_encrypt(message: &str) -> (r: String)
    ensures
        r@ == atbash_text(message@),
{
    let m = chars_of(message);
    let mut result = String::new();
    let mut i: usize = 0;
    while i < m.len()
        invariant
            i <= m.len(),
            result@.len() == i,
            forall|j: int| 0 <= j < i ==> result@[j] == mirror_char(m@[j]),
        decreases m.len() - i,
    {
        let c = mirror_letter(m[i]);
        push_char(&mut result, c);
        i = i + 1;
    }
    assert(result@ =~= atbash_text(message@));
    result
}

/// Vigenère cipher: the letters of the message, counted alone, are shifted
/// in turn by the letters of the keyword, repeated as often as needed; the
/// result is in capitals. Other characters are copied and use up no keyword
/// letter. A keyword that is empty or holds anything but letters is refused.
pub fn vigenere_encrypt(message: &str, keyword: &str) -> (r: Result<String, CipherError>)
    ensures
        !valid_keyword(keyword@) ==> r == Err::<String, CipherError>(
            CipherError::EmptyOrNonAlphabeticKeyword,
        ),
        valid_keyword(keyword@) ==> r is Ok && r->Ok_0@ == vigenere_text(message@, keyword@),
{
    let key = chars_of(keyword);
    if !is_valid_keyword(&key) {
        return Err(CipherError::EmptyOrNonAlphabeticKeyword);
    }
    let m = chars_of(message);
    let mut result = String::new();
    let mut count: usize = 0;
    let mut i: usize = 0;
    while i < m.len()
        invariant
            i <= m.len(),
            count <= i,
            count == letter_count(m@.take(i as int)),
            valid_keyword(key@),
            result@.len() == i,
            forall|j: int|
                0 <= j < i ==> result@[j] == vigenere_char(
                    m@[j],
                    key@,
                    letter_count(m@.take(j)) as int,
                ),
        decreases m.len() - i,
    {
        let c = m[i];
        assert(m@.take(i + 1).drop_last() =~= m@.take(i as int));
        if is_letter_char(c) {
            let k = key[count % key.len()];
            let x = capital_at((letter_offset(c) + letter_offset(k)) % 26);
            push_char(&mut result, x);
            count = count + 1;
        } else {
            push_char(&mut result, c);
        }
        i = i + 1;
    }
    assert(result@ =~= vigenere_text(message@, keyword@));
    Ok(result)
}

/// Shifting a character by `s` and then by `26 - s` gives it back.
proof fn shift_char_round_trip(c: char, s: int)
    requires
        1 <= s <= 25,
    ensures
        shift_char(shift_char(c, s), 26 - s) == c,
{
    if is_letter(c) {
        let d = shift_char(c, s);
        assert(is_upper(c) ==> is_upper(d));
        assert(is_lower(c) ==> is_lower(d));
        assert(letter_index(d) == (letter_index(c) + s) % 26);
    }
}

/// Mirroring a character twice gives it back.
proof fn mirror_char_twice(c: char)
    ensures
        mirror_char(mirror_char(c)) == c,
{
    if is_letter(c) {
        let d = mirror_char(c);
        assert(is_upper(c) ==> is_upper(d));
        assert(is_lower(c) ==> is_lower(d));
    }
}

/// A Caesar cipher with shift `s` is undone by one with shift `26 - s`: every
/// letter comes back in its place and case, and so does every other character.
pub proof fn caesar_round_trip(m: Seq<char>, s: int)
    requires
        1 <= s <= 25,
    ensures
        caesar_text(caesar_text(m, s), 26 - s) == m,
{
    assert forall|i: int| 0 <= i < m.len() implies caesar_text(caesar_text(m, s), 26 - s)[i]
        == m[i] by {
        shift_char_round_trip(m[i], s);
    }
    assert(caesar_text(caesar_text(m, s), 26 - s) =~= m);
}

/// ROT13 applied twice gives the message back.
pub proof fn rot13_self_inverse(m: Seq<char>)
    ensures
        rot13_text(rot13_text(m)) == m,
{
    caesar_round_trip(m, 13);
}

/// Atbash applied twice gives the message back.
pub proof fn atbash_self_inverse(m: Seq<char>)
    ensures
        atbash_text(atbash_text(m)) == m,
{
    assert forall|i: int| 0 <= i < m.len() implies atbash_text(atbash_text(m))[i] == m[i] by {
        mirror_char_twice(m[i]);
    }
    assert(atbash_text(atbash_text(m)) =~= m);
}

/// The Caesar, ROT13, Atbash and Vigenère ciphers keep the length of the
/// message and copy each character outside the alphabet to its own place.
pub proof fn non_letters_kept(m: Seq<char>, s: int, key: Seq<char>)
    ensures
        caesar_text(m, s).len() == m.len(),
        rot13_text(m).len() == m.len(),
        atbash_text(m).len() == m.len(),
        vigenere_text(m, key).len() == m.len(),
        forall|i: int|
            0 <= i < m.len() && !is_letter(#[trigger] m[i]) ==> {
                &&& caesar_text(m, s)[i] == m[i]
                &&& rot13_text(m)[i] == m[i]
                &&& atbash_text(m)[i] == m[i]
                &&& vigenere_text(m, key)[i] == m[i]
            },
{
}

} // verus!
