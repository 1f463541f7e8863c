//! Character-level helpers: ASCII case folding and conversions between
//! strings and character vectors.
//!
//! Case-insensitive matching is defined by lowercasing both the pattern and
//! the scanned line. Folding is ASCII-only: `'A'..='Z'` map to `'a'..='z'`,
//! every other character is left unchanged, so folding always preserves
//! length and character positions. This keeps match offsets on the folded
//! text valid for the original text.

use vstd::prelude::*;
use vstd::string::StrSliceExecFns;

verus! {

/// ASCII-lowercase one character.
pub open spec fn fold_char(c: char) -> char {
    if 'A' <= c && c <= 'Z' {
        ((c as u32) + 32) as char
    } else {
        c
    }
}

/// ASCII-lowercase a sequence of characters, position by position.
pub open spec fn fold_seq(s: Seq<char>) -> Seq<char> {
    s.map_values(|c: char| fold_char(c))
}

/// Folding is idempotent on characters: a folded character is never an
/// uppercase ASCII letter.
pub proof fn lemma_fold_char_idempotent(c: char)
    ensures
        fold_char(fold_char(c)) == fold_char(c),
{
}

/// Folding is idempotent on sequences.
pub proof fn lemma_fold_seq_idempotent(s: Seq<char>)
    ensures
        fold_seq(fold_seq(s)) == fold_seq(s),
{
    assert(fold_seq(fold_seq(s)) =~= fold_seq(s)) by {
        assert forall|i: int| 0 <= i < s.len() implies fold_seq(fold_seq(s))[i] == fold_seq(s)[i] by {
            lemma_fold_char_idempotent(s[i]);
        }
    }
}

/// Compare two characters up to ASCII case.
pub fn chars_fold_eq(a: char, b: char) -> (r: bool)
    ensures
        r == (fold_char(a) == fold_char(b)),
{
    let x = a as u32;
    let y = b as u32;
    if x == y {
        true
    } else if 65 <= x && x <= 90 {
        x + 32 == y
    } else if 65 <= y && y <= 90 {
        y + 32 == x
    } else {
        false
    }
}

/// ASCII-lowercase one character, executably.
pub fn fold_char_exec(c: char) -> (r: char)
    ensures
        r == fold_char(c),
{
    match c {
        'A' => 'a',
        'B' => 'b',
        'C' => 'c',
        'D' => 'd',
        'E' => 'e',
        'F' => 'f',
        'G' => 'g',
        'H' => 'h',
        'I' => 'i',
        'J' => 'j',
        'K' => 'k',
        'L' => 'l',
        'M' => 'm',
        'N' => 'n',
        'O' => 'o',
        'P' => 'p',
        'Q' => 'q',
        'R' => 'r',
        'S' => 's',
        'T' => 't',
        'U' => 'u',
        'V' => 'v',
        'W' => 'w',
        'X' => 'x',
        'Y' => 'y',
        'Z' => 'z',
        _ => c,
    }
}

/// Relies on `String::push`: appends exactly the given character at the end.
#[verifier::external_body]
fn string_push(s: &mut String, c: char)
    ensures
        final(s)@ == old(s)@.push(c),
{
    s.push(c);
}

/// The characters of a string as a vector, for O(1) indexed access.
pub fn chars_vec(s: &str) -> (r: Vec<char>)
    ensures
        r@ == s@,
{
    let n = s.unicode_len();
    let mut r: Vec<char> = Vec::new();
    let mut i: usize = 0;
    while i < n
        invariant
            n == s@.len(),
            i <= n,
            r@ == s@.take(i as int),
        decreases n - i,
    {
        let c = s.get_char(i);
        r.push(c);
        proof {
            assert(s@.take(i + 1) =~= s@.take(i as int).push(s@[i as int]));
        }
        i = i + 1;
    }
    proof {
        assert(r@ =~= s@);
    }
    r
}

/// ASCII-lowercase a whole string.
pub fn lower_string(s: &str) -> (r: String)
    ensures
        r@ == fold_seq(s@),
{
    let n = s.unicode_len();
    let mut r = String::new();
    let mut i: usize = 0;
    while i < n
        invariant
            n == s@.len(),
            i <= n,
            r@ == fold_seq(s@).take(i as int),
        decreases n - i,
    {
        let c = s.get_char(i);
        let fc = fold_char_exec(c);
        string_push(&mut r, fc);
        proof {
            assert(fold_seq(s@).take(i + 1) =~= fold_seq(s@).take(i as int).push(fold_char(s@[i as int])));
        }
        i = i + 1;
    }
    proof {
        assert(r@ =~= fold_seq(s@));
    }
    r
}

} // verus!
