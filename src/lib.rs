use vstd::prelude::*;

use crate::playfair::{playfair_encrypt, playfair_text};
use crate::substitution::{
    atbash_encrypt, atbash_text, caesar_encrypt, caesar_text, rot13_encrypt, rot13_text,
    valid_keyword, vigenere_encrypt, vigenere_text,
};

pub mod text;
pub mod substitution;
pub mod playfair;

verus! {

/// Why a cipher refused its parameters.
#[derive(Debug, Clone, Copy, PartialEq, Eq, Structural)]
pub enum CipherError {
    /// The keyword is empty or holds a character outside the Latin alphabet.
    EmptyOrNonAlphabeticKeyword,
    /// A Caesar shift of zero, which counts as unset.
    ZeroShift,
}

/// The ciphers on offer.
#[derive(Debug, Clone, Copy, PartialEq, Eq, Structural)]
pub enum Cipher {
    Vigenere,
    Caesar,
    Atbash,
    Rot13,
    Playfair,
}

/// What the chosen cipher makes of `message`, given the keyword and the shift;
/// each cipher reads only the parameters it needs.
pub open spec fn cipher_result(
    cipher: Cipher,
    message: Seq<char>,
    keyword: Seq<char>,
    shift: nat,
) -> Result<Seq<char>, CipherError> {
    match cipher {
        Cipher::Vigenere => if valid_keyword(keyword) {
            Ok(vigenere_text(message, keyword))
        } else {
            Err(CipherError::EmptyOrNonAlphabeticKeyword)
        },
        Cipher::Caesar => if shift == 0 {
            Err(CipherError::ZeroShift)
        } else {
            Ok(caesar_text(message, (shift % 26) as int))
        },
        Cipher::Atbash => Ok(atbash_text(message)),
        Cipher::Rot13 => Ok(rot13_text(message)),
        Cipher::Playfair => if valid_keyword(keyword) {
            Ok(playfair_text(message, keyword))
        } else {
            Err(CipherError::EmptyOrNonAlphabeticKeyword)
        },
    }
}

/// Runs the chosen cipher on `message`.
pub fn encrypt(
    cipher: Cipher,
    message: &str,
    keyword: &str,
    shift: usize,
) -> (r: Result<String, CipherError>)
    ensures
        match (r, cipher_result(cipher, message@, keyword@, shift as nat)) {
            (Ok(t), Ok(u)) => t@ == u,
            (Err(e), Err(f)) => e == f,
            _ => false,
        },
{
    match cipher {
        Cipher::Vigenere => vigenere_encrypt(message, keyword),
        Cipher::Caesar => caesar_encrypt(message, shift),
        Cipher::Atbash => Ok(atbash_encrypt(message)),
        Cipher::Rot13 => Ok(rot13_encrypt(message)),
        Cipher::Playfair => playfair_encrypt(message, keyword),
    }
}

} // verus!
