use cipher_machine::playfair::{
    create_playfair_matrix, find_position, playfair_encrypt, prepare_playfair_message,
};
use cipher_machine::substitution::{
    atbash_encrypt, caesar_encrypt, is_valid_keyword, rot13_encrypt, vigenere_encrypt,
};
use cipher_machine::{encrypt, Cipher, CipherError};

fn square_rows(keyword: &str) -> Vec<String> {
    let sq = create_playfair_matrix(keyword);
    (0..5).map(|r| (0..5).map(|c| sq.at(r, c)).collect()).collect()
}

#[test]
fn caesar_shifts_by_three() {
    assert_eq!(caesar_encrypt("Hello, World!", 3), Ok("Khoor, Zruog!".to_string()));
}

#[test]
fn caesar_wraps_round_the_alphabet() {
    assert_eq!(caesar_encrypt("xyz XYZ", 3), Ok("abc ABC".to_string()));
}

#[test]
fn caesar_zero_shift_is_refused() {
    assert_eq!(caesar_encrypt("Hello", 0), Err(CipherError::ZeroShift));
    assert_eq!(caesar_encrypt("", 0), Err(CipherError::ZeroShift));
}

#[test]
fn caesar_empty_message_is_empty() {
    assert_eq!(caesar_encrypt("", 5), Ok(String::new()));
}

#[test]
fn caesar_shift_of_twenty_six_keeps_the_text() {
    assert_eq!(caesar_encrypt("Hello", 26), Ok("Hello".to_string()));
    assert_eq!(caesar_encrypt("Hello", 29), Ok("Khoor".to_string()));
}

#[test]
fn caesar_round_trip_by_complement() {
    let m = "The quick brown Fox, 42 jumps!";
    for s in 1..=25usize {
        let once = caesar_encrypt(m, s).unwrap();
        assert_eq!(caesar_encrypt(&once, 26 - s), Ok(m.to_string()));
    }
}

#[test]
fn caesar_leaves_accented_letters() {
    assert_eq!(caesar_encrypt("café", 1), Ok("dbgé".to_string()));
}

#[test]
fn rot13_example() {
    assert_eq!(rot13_encrypt("Hello"), "Uryyb");
}

#[test]
fn rot13_twice_restores() {
    let m = "Hello, World! 123";
    assert_eq!(rot13_encrypt(&rot13_encrypt(m)), m);
}

#[test]
fn atbash_example() {
    assert_eq!(atbash_encrypt("Attack"), "Zggzxp");
    assert_eq!(atbash_encrypt("Hello, World!"), "Svool, Dliow!");
}

#[test]
fn atbash_twice_restores() {
    let m = "Mirror, mirror: 7 Zebras";
    assert_eq!(atbash_encrypt(&atbash_encrypt(m)), m);
}

#[test]
fn non_letters_stay_in_place() {
    let m = "a1 b2, c3! é";
    let c = caesar_encrypt(m, 4).unwrap();
    let a = atbash_encrypt(m);
    let r = rot13_encrypt(m);
    let v = vigenere_encrypt(m, "key").unwrap();
    for out in [c, a, r, v] {
        let orig: Vec<char> = m.chars().collect();
        let got: Vec<char> = out.chars().collect();
        assert_eq!(orig.len(), got.len());
        for (x, y) in orig.iter().zip(got.iter()) {
            if !x.is_ascii_alphabetic() {
                assert_eq!(x, y);
            }
        }
    }
}

#[test]
fn vigenere_example() {
    assert_eq!(
        vigenere_encrypt("ATTACKATDAWN", "LEMON"),
        Ok("LXFOPVEFRNHR".to_string())
    );
}

#[test]
fn vigenere_skips_non_letters_and_uppercases() {
    assert_eq!(
        vigenere_encrypt("attack at dawn", "lemon"),
        Ok("LXFOPV EF RNHR".to_string())
    );
}

#[test]
fn vigenere_refuses_bad_keywords() {
    let bad = CipherError::EmptyOrNonAlphabeticKeyword;
    assert_eq!(vigenere_encrypt("ATTACK", ""), Err(bad));
    assert_eq!(vigenere_encrypt("ATTACK", "LEM0N"), Err(bad));
    assert_eq!(vigenere_encrypt("ATTACK", "2"), Err(bad));
    assert_eq!(vigenere_encrypt("ATTACK", "le mon"), Err(bad));
    assert_eq!(vigenere_encrypt("ATTACK", "lémon"), Err(bad));
}

#[test]
fn keyword_validity() {
    assert!(is_valid_keyword(&"Lemon".chars().collect()));
    assert!(!is_valid_keyword(&Vec::new()));
    assert!(!is_valid_keyword(&"a-b".chars().collect()));
}

#[test]
fn key_square_for_keyword() {
    assert_eq!(
        square_rows("KEYWORD"),
        vec!["KEYWO", "RDABC", "FGHIL", "MNPQS", "TUVXZ"]
    );
}

#[test]
fn key_square_drops_repeats_and_j() {
    assert_eq!(
        square_rows("jellyfish"),
        vec!["ELYFI", "SHABC", "DGKMN", "OPQRT", "UVWXZ"]
    );
}

#[test]
fn key_square_for_monarchy() {
    assert_eq!(
        square_rows("MONARCHY"),
        vec!["MONAR", "CHYBD", "EFGIK", "LPQST", "UVWXZ"]
    );
}

#[test]
fn positions_in_the_key_square() {
    let sq = create_playfair_matrix("KEYWORD");
    assert_eq!(find_position('K', &sq), (0, 0));
    assert_eq!(find_position('A', &sq), (1, 2));
    assert_eq!(find_position('Z', &sq), (4, 4));
    assert_eq!(find_position('J', &sq), (0, 0));
}

#[test]
fn preparation_splits_doubles() {
    assert_eq!(prepare_playfair_message("hello"), "HELXLO".chars().collect::<Vec<_>>());
    assert_eq!(prepare_playfair_message("INSTRUMENTS"), "INSTRUMENTSX".chars().collect::<Vec<_>>());
    assert_eq!(prepare_playfair_message("a1 b!"), "AB".chars().collect::<Vec<_>>());
    assert_eq!(prepare_playfair_message(""), Vec::<char>::new());
}

#[test]
fn preparation_of_a_triple() {
    assert_eq!(prepare_playfair_message("AAA"), "AXAXAX".chars().collect::<Vec<_>>());
    assert_eq!(prepare_playfair_message("BAAAB"), "BAAXAB".chars().collect::<Vec<_>>());
}

#[test]
fn playfair_monarchy_instruments() {
    assert_eq!(
        playfair_encrypt("INSTRUMENTS", "MONARCHY"),
        Ok("GATLMZCLRQXA".to_string())
    );
}

#[test]
fn playfair_strips_non_letters() {
    assert_eq!(
        playfair_encrypt("Instru-ments 4 you!", "monarchy"),
        playfair_encrypt("INSTRUMENTSYOU", "MONARCHY")
    );
    assert_eq!(
        playfair_encrypt("in struments", "monarchy"),
        Ok("GATLMZCLRQXA".to_string())
    );
}

#[test]
fn playfair_triple_letters() {
    assert_eq!(playfair_encrypt("AAA", "MONARCHY"), Ok("BABABA".to_string()));
}

#[test]
fn playfair_refuses_bad_keywords() {
    let bad = CipherError::EmptyOrNonAlphabeticKeyword;
    assert_eq!(playfair_encrypt("HELLO", ""), Err(bad));
    assert_eq!(playfair_encrypt("HELLO", "MON4RCHY"), Err(bad));
}

#[test]
fn playfair_empty_message() {
    assert_eq!(playfair_encrypt("", "MONARCHY"), Ok(String::new()));
    assert_eq!(playfair_encrypt("123 !", "MONARCHY"), Ok(String::new()));
}

#[test]
fn dispatch_runs_the_chosen_cipher() {
    assert_eq!(encrypt(Cipher::Caesar, "abc", "", 1), Ok("bcd".to_string()));
    assert_eq!(encrypt(Cipher::Caesar, "abc", "", 0), Err(CipherError::ZeroShift));
    assert_eq!(encrypt(Cipher::Atbash, "Attack", "x1", 0), Ok("Zggzxp".to_string()));
    assert_eq!(encrypt(Cipher::Rot13, "Hello", "", 0), Ok("Uryyb".to_string()));
    assert_eq!(
        encrypt(Cipher::Vigenere, "ATTACKATDAWN", "LEMON", 0),
        Ok("LXFOPVEFRNHR".to_string())
    );
    assert_eq!(
        encrypt(Cipher::Playfair, "INSTRUMENTS", "MONARCHY", 0),
        Ok("GATLMZCLRQXA".to_string())
    );
    assert_eq!(
        encrypt(Cipher::Playfair, "x", "", 3),
        Err(CipherError::EmptyOrNonAlphabeticKeyword)
    );
}
