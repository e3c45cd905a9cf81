use vstd::prelude::*;

use crate::substitution::{is_valid_keyword, valid_keyword};
use crate::text::{
    capital_at, chars_of, from_code, is_letter, is_letter_char, is_upper, letter_index,
    letter_offset, push_char, upper,
};
use crate::CipherError;

verus! {

/// The capitals from `A` to `Z`.
pub open spec fn alphabet() -> Seq<char> {
    Seq::new(26, |i: int| from_code('A' as u32 + i))
}

/// The capitals of the letters of `k`, each at its first occurrence, with `J`
/// left out: the cells of the key square that the keyword fills.
pub open spec fn key_letters(k: Seq<char>) -> Seq<char>
    decreases k.len(),
{
    if k.len() == 0 {
        Seq::empty()
    } else {
        let p = key_letters(k.drop_last());
        let c = upper(k.last());
        if is_letter(k.last()) && c != 'J' && !p.contains(c) {
            p.push(c)
        } else {
            p
        }
    }
}

/// A capital that may still go into a key square that begins with `p`.
pub open spec fn unused_letter(p: Seq<char>, c: char) -> bool {
    c != 'J' && !p.contains(c)
}

/// The test for a capital that may still go into a key square that begins with `p`.
pub open spec fn unused_in(p: Seq<char>) -> spec_fn(char) -> bool {
    |c: char| unused_letter(p, c)
}

/// The key square of keyword `k`, row by row: the keyword's letters, then the
/// rest of the alphabet in order, `J` always left out.
pub open spec fn key_square(k: Seq<char>) -> Seq<char> {
    let p = key_letters(k);
    p + alphabet().filter(unused_in(p))
}

/// The letters a key square is made of: the capitals other than `J`.
pub open spec fn square_letter(c: char) -> bool {
    is_upper(c) && c != 'J'
}

/// A 5×5 Playfair key square, held row by row.
pub struct KeySquare {
    cells: Vec<char>,
}

impl View for KeySquare {
    type V = Seq<char>;

    closed spec fn view(&self) -> Seq<char> {
        self.cells@
    }
}

impl KeySquare {
    /// 25 cells, each a capital other than `J`, no two alike.
    pub open spec fn wf(&self) -> bool {
        &&& self@.len() == 25
        &&& self@.no_duplicates()
        &&& forall|i: int| 0 <= i < 25 ==> square_letter(#[trigger] self@[i])
    }

    /// The letter in row `row` and column `col`.
    pub fn at(&self, row: usize, col: usize) -> (r: char)
        requires
            self.wf(),
            row < 5,
            col < 5,
        ensures
            r == self@[5 * row + col],
    {
        self.cells[5 * row + col]
    }
}

/// The capitals other than `J`, in order.
spec fn square_alphabet() -> Seq<char> {
    Seq::new(25, |i: int| if i < 9 { alphabet()[i] } else { alphabet()[i + 1] })
}

/// What a sequence holds after a push.
proof fn push_contains(s: Seq<char>, x: char, y: char)
    ensures
        s.push(x).contains(y) == (s.contains(y) || x == y),
{
    if s.contains(y) {
        let i = choose|i: int| 0 <= i < s.len() && s[i] == y;
        assert(s.push(x)[i] == y);
    }
    if x == y {
        assert(s.push(x)[s.len() as int] == y);
    }
    if s.push(x).contains(y) {
        let i = choose|i: int| 0 <= i < s.len() + 1 && s.push(x)[i] == y;
        if i < s.len() {
            assert(s[i] == y);
        }
    }
}

/// A sequence of distinct square letters that holds every one of them has 25 of them.
proof fn full_square_len(s: Seq<char>)
    requires
        s.no_duplicates(),
        forall|i: int| 0 <= i < s.len() ==> square_letter(#[trigger] s[i]),
        forall|c: char| square_letter(c) ==> s.contains(c),
    ensures
        s.len() == 25,
{
    let a = square_alphabet();
    assert forall|i: int, j: int| 0 <= i < j < 25 implies a[i] != a[j] by {
        assert(letter_index(a[i]) < letter_index(a[j]));
    }
    assert(a.no_duplicates());
    assert forall|c: char| s.to_set().contains(c) <==> a.to_set().contains(c) by {
        if square_letter(c) {
            let n = letter_index(c);
            assert(from_code('A' as u32 + n) == c);
            if n < 9 {
                assert(a[n] == c);
            } else {
                assert(a[n - 1] == c);
            }
        }
        if a.contains(c) {
            let i = choose|i: int| 0 <= i < 25 && a[i] == c;
            assert(square_letter(a[i]));
        }
    }
    assert(s.to_set() =~= a.to_set());
    s.unique_seq_to_set();
    a.unique_seq_to_set();
}

/// Builds the key square of `keyword`: its letters in capitals, first
/// occurrences only and `J` left out, fill the cells row by row; the rest of
/// the alphabet but `J` follows in order.
pub fn create_playfair_matrix(keyword: &str) -> (sq: KeySquare)
    ensures
        sq.wf(),
        sq@ == key_square(keyword@),
{
    let k = chars_of(keyword);
    let mut used: Vec<bool> = Vec::new();
    let mut n: usize = 0;
    while n < 26
        invariant
            n <= 26,
            used@.len() == n,
            forall|j: int| 0 <= j < n ==> !used@[j],
        decreases 26 - n,
    {
        used.push(false);
        n = n + 1;
    }
    let mut cells: Vec<char> = Vec::new();
    let mut i: usize = 0;
    while i < k.len()
        invariant
            i <= k.len(),
            used@.len() == 26,
            cells@ == key_letters(k@.take(i as int)),
            cells@.no_duplicates(),
            forall|j: int| 0 <= j < cells@.len() ==> square_letter(#[trigger] cells@[j]),
            forall|j: int| 0 <= j < 26 ==> used@[j] == cells@.contains(#[trigger] alphabet()[j]),
        decreases k.len() - i,
    {
        let c = k[i];
        assert(k@.take(i + 1).drop_last() =~= k@.take(i as int));
        assert(k@.take(i + 1).last() == c);
        if is_letter_char(c) {
            let pos = letter_offset(c);
            let u = capital_at(pos);
            assert(u == upper(c));
            assert(alphabet()[pos as int] == u);
            if !used[pos as usize] && u != 'J' {
                let ghost before = cells@;
                used.set(pos as usize, true);
                cells.push(u);
                assert forall|j: int| 0 <= j < 26 implies used@[j] == cells@.contains(
                    #[trigger] alphabet()[j],
                ) by {
                    push_contains(before, u, alphabet()[j]);
                    assert(letter_index(alphabet()[j]) == j);
                }
            }
        }
        i = i + 1;
    }
    assert(k@.take(k@.len() as int) =~= k@);
    let ghost p = cells@;
    let mut i: usize = 0;
    while i < 26
        invariant
            i <= 26,
            used@.len() == 26,
            p == key_letters(k@),
            p.no_duplicates(),
            forall|j: int| 0 <= j < p.len() ==> square_letter(#[trigger] p[j]),
            forall|j: int| 0 <= j < 26 ==> used@[j] == p.contains(#[trigger] alphabet()[j]),
            cells@ == p + alphabet().take(i as int).filter(unused_in(p)),
            cells@.no_duplicates(),
            forall|j: int| 0 <= j < cells@.len() ==> square_letter(#[trigger] cells@[j]),
            forall|j: int| p.len() <= j < cells@.len() ==> letter_index(#[trigger] cells@[j]) < i,
            forall|c: char|
                square_letter(c) && letter_index(c) < i ==> #[trigger] cells@.contains(c),
        decreases 26 - i,
    {
        let c = capital_at(i as u8);
        assert(alphabet()[i as int] == c);
        assert(alphabet().take(i + 1) =~= alphabet().take(i as int).push(c));
        let ghost before = cells@;
        let ghost rest = alphabet().take(i as int).filter(unused_in(p));
        if c != 'J' && !used[i] {
            assert(!before.contains(c)) by {
                if before.contains(c) {
                    let j = choose|j: int| 0 <= j < before.len() && before[j] == c;
                    if j < p.len() {
                        assert(p[j] == c);
                    }
                }
            }
            cells.push(c);
            assert(cells@ =~= p + rest.push(c));
        }
        proof {
            alphabet().take(i as int).lemma_filter_push(c, unused_in(p));
        }
        assert forall|d: char| square_letter(d) && letter_index(d) < i + 1 implies #[trigger]
            cells@.contains(d) by {
            push_contains(before, c, d);
            if letter_index(d) == i {
                assert(from_code('A' as u32 + letter_index(d)) == d);
                if p.contains(d) {
                    let j = choose|j: int| 0 <= j < p.len() && p[j] == d;
                    assert(before[j] == d);
                }
            }
        }
        i = i + 1;
    }
    assert(alphabet().take(26) =~= alphabet());
    proof {
        full_square_len(cells@);
    }
    KeySquare { cells }
}

/// The letters of `m`, in capitals, everything else dropped.
pub open spec fn upper_letters(m: Seq<char>) -> Seq<char>
    decreases m.len(),
{
    if m.len() == 0 {
        Seq::empty()
    } else if is_letter(m.last()) {
        upper_letters(m.drop_last()).push(upper(m.last()))
    } else {
        upper_letters(m.drop_last())
    }
}

/// `s` read in pairs from the front: a pair of two equal letters gets an `X`
/// after its first letter, and the pairing goes on from its second letter.
pub open spec fn split_doubles(s: Seq<char>) -> Seq<char>
    decreases s.len(),
{
    if s.len() < 2 {
        s
    } else if s[0] == s[1] {
        seq![s[0], 'X'] + split_doubles(s.drop_first())
    } else {
        seq![s[0], s[1]] + split_doubles(s.subrange(2, s.len() as int))
    }
}

/// The digraph sequence of message `m`: its letters in capitals, doubles
/// split by `X`, and one more `X` where the length would be odd.
pub open spec fn prepared(m: Seq<char>) -> Seq<char> {
    let s = split_doubles(upper_letters(m));
    if s.len() % 2 == 1 {
        s.push('X')
    } else {
        s
    }
}

/// Prepares a message for Playfair: its letters in capitals, anything else
/// dropped; then, pair by pair, an `X` between two equal letters of a pair,
/// and a final `X` where the length is odd.
pub fn prepare_playfair_message(message: &str) -> (r: Vec<char>)
    ensures
        r@ == prepared(message@),
        r@.len() % 2 == 0,
{
    let m = chars_of(message);
    let mut v: Vec<char> = Vec::new();
    let mut i: usize = 0;
    while i < m.len()
        invariant
            i <= m.len(),
            v@ == upper_letters(m@.take(i as int)),
        decreases m.len() - i,
    {
        let c = m[i];
        assert(m@.take(i + 1).drop_last() =~= m@.take(i as int));
        if is_letter_char(c) {
            v.push(capital_at(letter_offset(c)));
        }
        i = i + 1;
    }
    assert(m@.take(m@.len() as int) =~= m@);
    let ghost letters = v@;
    let mut i: usize = 0;
    assert(v@.skip(0) =~= letters);
    assert(v@.take(0) + split_doubles(letters) =~= split_doubles(letters));
    while v.len() - i >= 2
        invariant
            i <= v@.len(),
            v@.take(i as int) + split_doubles(v@.skip(i as int)) == split_doubles(letters),
        decreases v@.len() - i,
    {
        let ghost w = v@.skip(i as int);
        if v[i] == v[i + 1] {
            assert(w.drop_first() =~= v@.skip(i + 1));
            v.insert(i + 1, 'X');
            assert(v@.skip(i + 2) =~= w.drop_first());
            assert(v@.take(i + 2) =~= v@.take(i as int) + seq![w[0], 'X']);
        } else {
            assert(w.subrange(2, w.len() as int) =~= v@.skip(i + 2));
            assert(v@.take(i + 2) =~= v@.take(i as int) + seq![w[0], w[1]]);
        }
        i = i + 2;
    }
    assert(v@ =~= v@.take(i as int) + v@.skip(i as int));
    if v.len() % 2 != 0 {
        v.push('X');
    }
    v
}

/// Where `c` stands in `sq`, counted row by row from 0; 0 where it is absent.
pub open spec fn index_in(sq: Seq<char>, c: char) -> int {
    if sq.contains(c) {
        choose|i: int| 0 <= i < sq.len() && sq[i] == c
    } else {
        0
    }
}

/// The row and column of `c` in the key square, found by a scan row by row;
/// row 0 and column 0 where `c` is not in it (as for `J`).
pub fn find_position(c: char, square: &KeySquare) -> (r: (usize, usize))
    requires
        square.wf(),
    ensures
        r.0 == index_in(square@, c) / 5,
        r.1 == index_in(square@, c) % 5,
{
    let mut row: usize = 0;
    while row < 5
        invariant
            square.wf(),
            row <= 5,
            forall|j: int| 0 <= j < 5 * row ==> square@[j] != c,
        decreases 5 - row,
    {
        let mut col: usize = 0;
        while col < 5
            invariant
                square.wf(),
                row < 5,
                col <= 5,
                forall|j: int| 0 <= j < 5 * row + col ==> square@[j] != c,
            decreases 5 - col,
        {
            if square.at(row, col) == c {
                proof {
                    let i = index_in(square@, c);
                    assert(square@[i] == c);
                    assert(i == 5 * row + col) by {
                        assert(square@[5 * row + col] == c);
                    }
                }
                return (row, col);
            }
            col = col + 1;
        }
        row = row + 1;
    }
    (0, 0)
}

/// The two letters that the pair `a`, `b` becomes under key square `sq`:
/// in one row, each letter's right neighbour; in one column, each letter's
/// neighbour below, both wrapping round; otherwise each letter takes the
/// column of the other and keeps its row.
pub open spec fn substitute_pair(sq: Seq<char>, a: char, b: char) -> Seq<char> {
    let (row_a, col_a) = (index_in(sq, a) / 5, index_in(sq, a) % 5);
    let (row_b, col_b) = (index_in(sq, b) / 5, index_in(sq, b) % 5);
    if row_a == row_b {
        seq![sq[5 * row_a + (col_a + 1) % 5], sq[5 * row_b + (col_b + 1) % 5]]
    } else if col_a == col_b {
        seq![sq[5 * ((row_a + 1) % 5) + col_a], sq[5 * ((row_b + 1) % 5) + col_b]]
    } else {
        seq![sq[5 * row_a + col_b], sq[5 * row_b + col_a]]
    }
}

/// The pairs of `s`, from the front, each replaced under key square `sq`.
pub open spec fn substitute_digraphs(sq: Seq<char>, s: Seq<char>) -> Seq<char>
    decreases s.len(),
{
    if s.len() < 2 {
        Seq::empty()
    } else {
        substitute_pair(sq, s[0], s[1]) + substitute_digraphs(sq, s.subrange(2, s.len() as int))
    }
}

/// The Playfair cipher of message `m` with keyword `k`.
pub open spec fn playfair_text(m: Seq<char>, k: Seq<char>) -> Seq<char> {
    substitute_digraphs(key_square(k), prepared(m))
}

/// The place of any character in a key square is one of its 25 cells.
proof fn cell_in_range(sq: Seq<char>, c: char)
    requires
        sq.len() == 25,
    ensures
        0 <= index_in(sq, c) < 25,
{
}

/// The pair `a`, `b` replaced under the key square.
fn encode_pair(matrix: &KeySquare, a: char, b: char) -> (r: (char, char))
    requires
        matrix.wf(),
    ensures
        seq![r.0, r.1] == substitute_pair(matrix@, a, b),
        is_upper(r.0),
        is_upper(r.1),
{
    let (row_a, col_a) = find_position(a, matrix);
    let (row_b, col_b) = find_position(b, matrix);
    proof {
        cell_in_range(matrix@, a);
        cell_in_range(matrix@, b);
    }
    let (x, y) = if row_a == row_b {
        (matrix.at(row_a, (col_a + 1) % 5), matrix.at(row_b, (col_b + 1) % 5))
    } else if col_a == col_b {
        (matrix.at((row_a + 1) % 5, col_a), matrix.at((row_b + 1) % 5, col_b))
    } else {
        (matrix.at(row_a, col_b), matrix.at(row_b, col_a))
    };
    assert(seq![x, y] =~= substitute_pair(matrix@, a, b));
    (x, y)
}

/// Playfair cipher: the message's letters, prepared in pairs, are replaced
/// pair by pair through the key square of `keyword`. The result holds
/// capitals only, and an even number of them. A keyword that is empty or
/// holds anything but letters is refused.
pub fn playfair_encrypt(message: &str, keyword: &str) -> (r: Result<String, CipherError>)
    ensures
        !valid_keyword(keyword@) ==> r == Err::<String, CipherError>(
            CipherError::EmptyOrNonAlphabeticKeyword,
        ),
        valid_keyword(keyword@) ==> r is Ok && r->Ok_0@ == playfair_text(message@, keyword@),
        r is Ok ==> r->Ok_0@.len() % 2 == 0,
        r is Ok ==> forall|i: int| 0 <= i < r->Ok_0@.len() ==> is_upper(#[trigger] r->Ok_0@[i]),
{
    let key = chars_of(keyword);
    if !is_valid_keyword(&key) {
        return Err(CipherError::EmptyOrNonAlphabeticKeyword);
    }
    let matrix = create_playfair_matrix(keyword);
    let message = prepare_playfair_message(message);
    let ghost sq = matrix@;
    let mut result = String::new();
    let mut i: usize = 0;
    assert(message@.subrange(0, message@.len() as int) =~= message@);
    assert(result@ + substitute_digraphs(sq, message@) =~= substitute_digraphs(sq, message@));
    while i < message.len()
        invariant
            matrix.wf(),
            sq == matrix@,
            i <= message@.len(),
            i % 2 == 0,
            message@.len() % 2 == 0,
            result@.len() == i,
            result@ + substitute_digraphs(sq, message@.subrange(i as int, message@.len() as int))
                == substitute_digraphs(sq, message@),
            forall|j: int| 0 <= j < result@.len() ==> is_upper(#[trigger] result@[j]),
        decreases message@.len() - i,
    {
        let a = message[i];
        let b = message[i + 1];
        let ghost rest = message@.subrange(i as int, message@.len() as int);
        let ghost before = result@;
        assert(rest.subrange(2, rest.len() as int) =~= message@.subrange(
            i + 2,
            message@.len() as int,
        ));
        i = i + 2;
        let (x, y) = encode_pair(&matrix, a, b);
        push_char(&mut result, x);
        push_char(&mut result, y);
        assert(result@ =~= before + seq![x, y]);
        assert(before + substitute_digraphs(sq, rest) =~= result@ + substitute_digraphs(
            sq,
            message@.subrange(i as int, message@.len() as int),
        ));
    }
    assert(message@.subrange(i as int, message@.len() as int) =~= Seq::<char>::empty());
    assert(result@ + Seq::<char>::empty() =~= result@);
    Ok(result)
}

/// Taking the letters of letters alone changes nothing.
proof fn upper_letters_idempotent(m: Seq<char>)
    ensures
        upper_letters(upper_letters(m)) == upper_letters(m),
    decreases m.len(),
{
    if m.len() > 0 {
        upper_letters_idempotent(m.drop_last());
        let u = upper_letters(m.drop_last());
        if is_letter(m.last()) {
            assert(u.push(upper(m.last())).drop_last() =~= u);
        }
    }
}

/// Playfair strips the characters outside the alphabet before it encodes:
/// the message's letters alone, in capitals, give the same result, made of
/// capitals only.
pub proof fn playfair_ignores_non_letters(m: Seq<char>, k: Seq<char>)
    ensures
        playfair_text(m, k) == playfair_text(upper_letters(m), k),
        forall|i: int| 0 <= i < upper_letters(m).len() ==> is_upper(#[trigger] upper_letters(m)[i]),
    decreases m.len(),
{
    upper_letters_idempotent(m);
    if m.len() > 0 {
        playfair_ignores_non_letters(m.drop_last(), k);
        let u = upper_letters(m.drop_last());
        if is_letter(m.last()) {
            assert forall|i: int| 0 <= i < upper_letters(m).len() implies is_upper(
                #[trigger] upper_letters(m)[i],
            ) by {
                if i < u.len() {
                    assert(upper_letters(m)[i] == u[i]);
                }
            }
        }
    }
}

} // verus!
