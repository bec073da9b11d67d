//! The Morse alphabet: letters, digits and the ITU punctuation heard on air.

use vstd::prelude::*;
use crate::snapshot::chars_eq;
use crate::textual::{is_ascii_alnum, is_ascii_digit, is_ascii_upper, str_to_chars, to_upper, upper};

verus! {

/// The character of a 1-element dit/dah pattern, if any.
pub open spec fn morse_char_one(code: Seq<char>) -> Option<char> {
    if code == seq!['.'] {
        Some('E')
    } else if code == seq!['-'] {
        Some('T')
    } else {
        None
    }
}

/// The character of a 2-element dit/dah pattern, if any.
pub open spec fn morse_char_two(code: Seq<char>) -> Option<char> {
    if code == seq!['.', '-'] {
        Some('A')
    } else if code == seq!['.', '.'] {
        Some('I')
    } else if code == seq!['-', '-'] {
        Some('M')
    } else if code == seq!['-', '.'] {
        Some('N')
    } else {
        None
    }
}

/// The character of a 3-element dit/dah pattern, if any.
pub open spec fn morse_char_three(code: Seq<char>) -> Option<char> {
    if code == seq!['-', '.', '.'] {
        Some('D')
    } else if code == seq!['-', '-', '.'] {
        Some('G')
    } else if code == seq!['-', '.', '-'] {
        Some('K')
    } else if code == seq!['-', '-', '-'] {
        Some('O')
    } else if code == seq!['.', '-', '.'] {
        Some('R')
    } else if code == seq!['.', '.', '.'] {
        Some('S')
    } else if code == seq!['.', '.', '-'] {
        Some('U')
    } else if code == seq!['.', '-', '-'] {
        Some('W')
    } else {
        None
    }
}

/// The character of a 4-element dit/dah pattern, if any.
pub open spec fn morse_char_four(code: Seq<char>) -> Option<char> {
    if code == seq!['-', '.', '.', '.'] {
        Some('B')
    } else if code == seq!['-', '.', '-', '.'] {
        Some('C')
    } else if code == seq!['.', '.', '-', '.'] {
        Some('F')
    } else if code == seq!['.', '.', '.', '.'] {
        Some('H')
    } else if code == seq!['.', '-', '-', '-'] {
        Some('J')
    } else if code == seq!['.', '-', '.', '.'] {
        Some('L')
    } else if code == seq!['.', '-', '-', '.'] {
        Some('P')
    } else if code == seq!['-', '-', '.', '-'] {
        Some('Q')
    } else if code == seq!['.', '.', '.', '-'] {
        Some('V')
    } else if code == seq!['-', '.', '.', '-'] {
        Some('X')
    } else if code == seq!['-', '.', '-', '-'] {
        Some('Y')
    } else if code == seq!['-', '-', '.', '.'] {
        Some('Z')
    } else {
        None
    }
}

/// The character of a 5-element dit/dah pattern, if any.
pub open spec fn morse_char_five(code: Seq<char>) -> Option<char> {
    if code == seq!['.', '-', '-', '-', '-'] {
        Some('1')
    } else if code == seq!['.', '.', '-', '-', '-'] {
        Some('2')
    } else if code == seq!['.', '.', '.', '-', '-'] {
        Some('3')
    } else if code == seq!['.', '.', '.', '.', '-'] {
        Some('4')
    } else if code == seq!['.', '.', '.', '.', '.'] {
        Some('5')
    } else if code == seq!['-', '.', '.', '.', '.'] {
        Some('6')
    } else if code == seq!['-', '-', '.', '.', '.'] {
        Some('7')
    } else if code == seq!['-', '-', '-', '.', '.'] {
        Some('8')
    } else if code == seq!['-', '-', '-', '-', '.'] {
        Some('9')
    } else if code == seq!['-', '-', '-', '-', '-'] {
        Some('0')
    } else if code == seq!['-', '.', '.', '-', '.'] {
        Some('/')
    } else if code == seq!['-', '.', '-', '-', '.'] {
        Some('(')
    } else if code == seq!['.', '-', '.', '.', '.'] {
        Some('&')
    } else if code == seq!['-', '.', '.', '.', '-'] {
        Some('=')
    } else if code == seq!['.', '-', '.', '-', '.'] {
        Some('+')
    } else {
        None
    }
}

/// The character of a 6-element dit/dah pattern, if any.
pub open spec fn morse_char_six(code: Seq<char>) -> Option<char> {
    if code == seq!['.', '-', '.', '-', '.', '-'] {
        Some('.')
    } else if code == seq!['-', '-', '.', '.', '-', '-'] {
        Some(',')
    } else if code == seq!['.', '.', '-', '-', '.', '.'] {
        Some('?')
    } else if code == seq!['.', '-', '-', '-', '-', '.'] {
        Some('\'')
    } else if code == seq!['-', '.', '-', '.', '-', '-'] {
        Some('!')
    } else if code == seq!['-', '.', '-', '-', '.', '-'] {
        Some(')')
    } else if code == seq!['-', '-', '-', '.', '.', '.'] {
        Some(':')
    } else if code == seq!['-', '.', '-', '.', '-', '.'] {
        Some(';')
    } else if code == seq!['-', '.', '.', '.', '.', '-'] {
        Some('-')
    } else if code == seq!['.', '.', '-', '-', '.', '-'] {
        Some('_')
    } else if code == seq!['.', '-', '.', '.', '-', '.'] {
        Some('"')
    } else if code == seq!['.', '-', '-', '.', '-', '.'] {
        Some('@')
    } else {
        None
    }
}

/// The character of a 7-element dit/dah pattern, if any.
pub open spec fn morse_char_seven(code: Seq<char>) -> Option<char> {
    if code == seq!['.', '.', '.', '-', '.', '.', '-'] {
        Some('$')
    } else {
        None
    }
}

/// The character that the dit/dah pattern `code` stands for, if any.
pub open spec fn morse_char(code: Seq<char>) -> Option<char> {
    if code.len() == 1 {
        morse_char_one(code)
    } else if code.len() == 2 {
        morse_char_two(code)
    } else if code.len() == 3 {
        morse_char_three(code)
    } else if code.len() == 4 {
        morse_char_four(code)
    } else if code.len() == 5 {
        morse_char_five(code)
    } else if code.len() == 6 {
        morse_char_six(code)
    } else if code.len() == 7 {
        morse_char_seven(code)
    } else {
        None
    }
}

/// The dit/dah pattern of an upper-case letter or a digit; empty for any
/// other character.
pub open spec fn morse_code(c: char) -> Seq<char> {
    if c == 'A' {
        seq!['.', '-']
    } else if c == 'B' {
        seq!['-', '.', '.', '.']
    } else if c == 'C' {
        seq!['-', '.', '-', '.']
    } else if c == 'D' {
        seq!['-', '.', '.']
    } else if c == 'E' {
        seq!['.']
    } else if c == 'F' {
        seq!['.', '.', '-', '.']
    } else if c == 'G' {
        seq!['-', '-', '.']
    } else if c == 'H' {
        seq!['.', '.', '.', '.']
    } else if c == 'I' {
        seq!['.', '.']
    } else if c == 'J' {
        seq!['.', '-', '-', '-']
    } else if c == 'K' {
        seq!['-', '.', '-']
    } else if c == 'L' {
        seq!['.', '-', '.', '.']
    } else if c == 'M' {
        seq!['-', '-']
    } else if c == 'N' {
        seq!['-', '.']
    } else if c == 'O' {
        seq!['-', '-', '-']
    } else if c == 'P' {
        seq!['.', '-', '-', '.']
    } else if c == 'Q' {
        seq!['-', '-', '.', '-']
    } else if c == 'R' {
        seq!['.', '-', '.']
    } else if c == 'S' {
        seq!['.', '.', '.']
    } else if c == 'T' {
        seq!['-']
    } else if c == 'U' {
        seq!['.', '.', '-']
    } else if c == 'V' {
        seq!['.', '.', '.', '-']
    } else if c == 'W' {
        seq!['.', '-', '-']
    } else if c == 'X' {
        seq!['-', '.', '.', '-']
    } else if c == 'Y' {
        seq!['-', '.', '-', '-']
    } else if c == 'Z' {
        seq!['-', '-', '.', '.']
    } else if c == '0' {
        seq!['-', '-', '-', '-', '-']
    } else if c == '1' {
        seq!['.', '-', '-', '-', '-']
    } else if c == '2' {
        seq!['.', '.', '-', '-', '-']
    } else if c == '3' {
        seq!['.', '.', '.', '-', '-']
    } else if c == '4' {
        seq!['.', '.', '.', '.', '-']
    } else if c == '5' {
        seq!['.', '.', '.', '.', '.']
    } else if c == '6' {
        seq!['-', '.', '.', '.', '.']
    } else if c == '7' {
        seq!['-', '-', '.', '.', '.']
    } else if c == '8' {
        seq!['-', '-', '-', '.', '.']
    } else if c == '9' {
        seq!['-', '-', '-', '-', '.']
    } else {
        seq![]
    }
}

/// The number of elements (dits and dahs) in the Morse code of an ASCII
/// letter (either case) or digit.
pub open spec fn element_count(c: char) -> Option<usize> {
    let u = upper(c);
    if u == 'A' {
        Some(2usize)
    } else if u == 'B' {
        Some(4usize)
    } else if u == 'C' {
        Some(4usize)
    } else if u == 'D' {
        Some(3usize)
    } else if u == 'E' {
        Some(1usize)
    } else if u == 'F' {
        Some(4usize)
    } else if u == 'G' {
        Some(3usize)
    } else if u == 'H' {
        Some(4usize)
    } else if u == 'I' {
        Some(2usize)
    } else if u == 'J' {
        Some(4usize)
    } else if u == 'K' {
        Some(3usize)
    } else if u == 'L' {
        Some(4usize)
    } else if u == 'M' {
        Some(2usize)
    } else if u == 'N' {
        Some(2usize)
    } else if u == 'O' {
        Some(3usize)
    } else if u == 'P' {
        Some(4usize)
    } else if u == 'Q' {
        Some(4usize)
    } else if u == 'R' {
        Some(3usize)
    } else if u == 'S' {
        Some(3usize)
    } else if u == 'T' {
        Some(1usize)
    } else if u == 'U' {
        Some(3usize)
    } else if u == 'V' {
        Some(4usize)
    } else if u == 'W' {
        Some(3usize)
    } else if u == 'X' {
        Some(4usize)
    } else if u == 'Y' {
        Some(4usize)
    } else if u == 'Z' {
        Some(4usize)
    } else if is_ascii_digit(u) {
        Some(5usize)
    } else {
        None
    }
}

fn morse_one_to_char(code: &[char]) -> (r: Option<char>)
    requires
        code@.len() == 1,
    ensures
        r == morse_char_one(code@),
{
    assert(code@ =~= seq![code@[0]]);
    if code[0] == '.' {
        Some('E')
    } else if code[0] == '-' {
        Some('T')
    } else {
        None
    }
}

fn morse_two_to_char(code: &[char]) -> (r: Option<char>)
    requires
        code@.len() == 2,
    ensures
        r == morse_char_two(code@),
{
    if chars_eq(code, &['.', '-']) {
        Some('A')
    } else if chars_eq(code, &['.', '.']) {
        Some('I')
    } else if chars_eq(code, &['-', '-']) {
        Some('M')
    } else if chars_eq(code, &['-', '.']) {
        Some('N')
    } else {
        None
    }
}

fn morse_three_to_char(code: &[char]) -> (r: Option<char>)
    requires
        code@.len() == 3,
    ensures
        r == morse_char_three(code@),
{
    if chars_eq(code, &['-', '.', '.']) {
        Some('D')
    } else if chars_eq(code, &['-', '-', '.']) {
        Some('G')
    } else if chars_eq(code, &['-', '.', '-']) {
        Some('K')
    } else if chars_eq(code, &['-', '-', '-']) {
        Some('O')
    } else if chars_eq(code, &['.', '-', '.']) {
        Some('R')
    } else if chars_eq(code, &['.', '.', '.']) {
        Some('S')
    } else if chars_eq(code, &['.', '.', '-']) {
        Some('U')
    } else if chars_eq(code, &['.', '-', '-']) {
        Some('W')
    } else {
        None
    }
}

fn morse_four_to_char(code: &[char]) -> (r: Option<char>)
    requires
        code@.len() == 4,
    ensures
        r == morse_char_four(code@),
{
    if chars_eq(code, &['-', '.', '.', '.']) {
        Some('B')
    } else if chars_eq(code, &['-', '.', '-', '.']) {
        Some('C')
    } else if chars_eq(code, &['.', '.', '-', '.']) {
        Some('F')
    } else if chars_eq(code, &['.', '.', '.', '.']) {
        Some('H')
    } else if chars_eq(code, &['.', '-', '-', '-']) {
        Some('J')
    } else if chars_eq(code, &['.', '-', '.', '.']) {
        Some('L')
    } else if chars_eq(code, &['.', '-', '-', '.']) {
        Some('P')
    } else if chars_eq(code, &['-', '-', '.', '-']) {
        Some('Q')
    } else if chars_eq(code, &['.', '.', '.', '-']) {
        Some('V')
    } else if chars_eq(code, &['-', '.', '.', '-']) {
        Some('X')
    } else if chars_eq(code, &['-', '.', '-', '-']) {
        Some('Y')
    } else if chars_eq(code, &['-', '-', '.', '.']) {
        Some('Z')
    } else {
        None
    }
}

fn morse_five_to_char(code: &[char]) -> (r: Option<char>)
    requires
        code@.len() == 5,
    ensures
        r == morse_char_five(code@),
{
    if chars_eq(code, &['.', '-', '-', '-', '-']) {
        Some('1')
    } else if chars_eq(code, &['.', '.', '-', '-', '-']) {
        Some('2')
    } else if chars_eq(code, &['.', '.', '.', '-', '-']) {
        Some('3')
    } else if chars_eq(code, &['.', '.', '.', '.', '-']) {
        Some('4')
    } else if chars_eq(code, &['.', '.', '.', '.', '.']) {
        Some('5')
    } else if chars_eq(code, &['-', '.', '.', '.', '.']) {
        Some('6')
    } else if chars_eq(code, &['-', '-', '.', '.', '.']) {
        Some('7')
    } else if chars_eq(code, &['-', '-', '-', '.', '.']) {
        Some('8')
    } else if chars_eq(code, &['-', '-', '-', '-', '.']) {
        Some('9')
    } else if chars_eq(code, &['-', '-', '-', '-', '-']) {
        Some('0')
    } else if chars_eq(code, &['-', '.', '.', '-', '.']) {
        Some('/')
    } else if chars_eq(code, &['-', '.', '-', '-', '.']) {
        Some('(')
    } else if chars_eq(code, &['.', '-', '.', '.', '.']) {
        Some('&')
    } else if chars_eq(code, &['-', '.', '.', '.', '-']) {
        Some('=')
    } else if chars_eq(code, &['.', '-', '.', '-', '.']) {
        Some('+')
    } else {
        None
    }
}

fn morse_six_to_char(code: &[char]) -> (r: Option<char>)
    requires
        code@.len() == 6,
    ensures
        r == morse_char_six(code@),
{
    if chars_eq(code, &['.', '-', '.', '-', '.', '-']) {
        Some('.')
    } else if chars_eq(code, &['-', '-', '.', '.', '-', '-']) {
        Some(',')
    } else if chars_eq(code, &['.', '.', '-', '-', '.', '.']) {
        Some('?')
    } else if chars_eq(code, &['.', '-', '-', '-', '-', '.']) {
        Some('\'')
    } else if chars_eq(code, &['-', '.', '-', '.', '-', '-']) {
        Some('!')
    } else if chars_eq(code, &['-', '.', '-', '-', '.', '-']) {
        Some(')')
    } else if chars_eq(code, &['-', '-', '-', '.', '.', '.']) {
        Some(':')
    } else if chars_eq(code, &['-', '.', '-', '.', '-', '.']) {
        Some(';')
    } else if chars_eq(code, &['-', '.', '.', '.', '.', '-']) {
        Some('-')
    } else if chars_eq(code, &['.', '.', '-', '-', '.', '-']) {
        Some('_')
    } else if chars_eq(code, &['.', '-', '.', '.', '-', '.']) {
        Some('"')
    } else if chars_eq(code, &['.', '-', '-', '.', '-', '.']) {
        Some('@')
    } else {
        None
    }
}

fn morse_seven_to_char(code: &[char]) -> (r: Option<char>)
    requires
        code@.len() == 7,
    ensures
        r == morse_char_seven(code@),
{
    if chars_eq(code, &['.', '.', '.', '-', '.', '.', '-']) {
        Some('$')
    } else {
        None
    }
}

/// The character that the dit/dah pattern `code` stands for, if any.
pub fn morse_chars_to_char(code: &[char]) -> (r: Option<char>)
    ensures
        r == morse_char(code@),
{
    if code.len() == 1 {
        morse_one_to_char(code)
    } else if code.len() == 2 {
        morse_two_to_char(code)
    } else if code.len() == 3 {
        morse_three_to_char(code)
    } else if code.len() == 4 {
        morse_four_to_char(code)
    } else if code.len() == 5 {
        morse_five_to_char(code)
    } else if code.len() == 6 {
        morse_six_to_char(code)
    } else if code.len() == 7 {
        morse_seven_to_char(code)
    } else {
        None
    }
}

/// Decodes one Morse letter written with `.` and `-` (`"-.-"` is `K`);
/// `None` for a pattern outside the alphabet.
pub fn morse_to_char(s: &str) -> (r: Option<char>)
    ensures
        r == morse_char(s@),
{
    let v = str_to_chars(s);
    morse_chars_to_char(v.as_slice())
}

/// The Morse code of an upper-case letter or a digit, written with `.` and
/// `-`; the empty string for any other character.
pub fn char_to_morse(c: char) -> (r: &'static str)
    ensures
        r@ == morse_code(c),
{
    if c == 'A' {
        proof {
            reveal_strlit(".-");
        }
        ".-"
    } else if c == 'B' {
        proof {
            reveal_strlit("-...");
        }
        "-..."
    } else if c == 'C' {
        proof {
            reveal_strlit("-.-.");
        }
        "-.-."
    } else if c == 'D' {
        proof {
            reveal_strlit("-..");
        }
        "-.."
    } else if c == 'E' {
        proof {
            reveal_strlit(".");
        }
        "."
    } else if c == 'F' {
        proof {
            reveal_strlit("..-.");
        }
        "..-."
    } else if c == 'G' {
        proof {
            reveal_strlit("--.");
        }
        "--."
    } else if c == 'H' {
        proof {
            reveal_strlit("....");
        }
        "...."
    } else if c == 'I' {
        proof {
            reveal_strlit("..");
        }
        ".."
    } else if c == 'J' {
        proof {
            reveal_strlit(".---");
        }
        ".---"
    } else if c == 'K' {
        proof {
            reveal_strlit("-.-");
        }
        "-.-"
    } else if c == 'L' {
        proof {
            reveal_strlit(".-..");
        }
        ".-.."
    } else if c == 'M' {
        proof {
            reveal_strlit("--");
        }
        "--"
    } else if c == 'N' {
        proof {
            reveal_strlit("-.");
        }
        "-."
    } else if c == 'O' {
        proof {
            reveal_strlit("---");
        }
        "---"
    } else if c == 'P' {
        proof {
            reveal_strlit(".--.");
        }
        ".--."
    } else if c == 'Q' {
        proof {
            reveal_strlit("--.-");
        }
        "--.-"
    } else if c == 'R' {
        proof {
            reveal_strlit(".-.");
        }
        ".-."
    } else if c == 'S' {
        proof {
            reveal_strlit("...");
        }
        "..."
    } else if c == 'T' {
        proof {
            reveal_strlit("-");
        }
        "-"
    } else if c == 'U' {
        proof {
            reveal_strlit("..-");
        }
        "..-"
    } else if c == 'V' {
        proof {
            reveal_strlit("...-");
        }
        "...-"
    } else if c == 'W' {
        proof {
            reveal_strlit(".--");
        }
        ".--"
    } else if c == 'X' {
        proof {
            reveal_strlit("-..-");
        }
        "-..-"
    } else if c == 'Y' {
        proof {
            reveal_strlit("-.--");
        }
        "-.--"
    } else if c == 'Z' {
        proof {
            reveal_strlit("--..");
        }
        "--.."
    } else if c == '0' {
        proof {
            reveal_strlit("-----");
        }
        "-----"
    } else if c == '1' {
        proof {
            reveal_strlit(".----");
        }
        ".----"
    } else if c == '2' {
        proof {
            reveal_strlit("..---");
        }
        "..---"
    } else if c == '3' {
        proof {
            reveal_strlit("...--");
        }
        "...--"
    } else if c == '4' {
        proof {
            reveal_strlit("....-");
        }
        "....-"
    } else if c == '5' {
        proof {
            reveal_strlit(".....");
        }
        "....."
    } else if c == '6' {
        proof {
            reveal_strlit("-....");
        }
        "-...."
    } else if c == '7' {
        proof {
            reveal_strlit("--...");
        }
        "--..."
    } else if c == '8' {
        proof {
            reveal_strlit("---..");
        }
        "---.."
    } else if c == '9' {
        proof {
            reveal_strlit("----.");
        }
        "----."
    } else {
        proof {
            reveal_strlit("");
        }
        ""
    }
}

/// The number of elements (dits and dahs) in the Morse code of an ASCII
/// letter (either case) or digit; `None` for any other character.
pub fn morse_element_count(ch: char) -> (r: Option<usize>)
    ensures
        r == element_count(ch),
{
    let u = to_upper(ch);
    if u == 'A' {
        Some(2)
    } else if u == 'B' {
        Some(4)
    } else if u == 'C' {
        Some(4)
    } else if u == 'D' {
        Some(3)
    } else if u == 'E' {
        Some(1)
    } else if u == 'F' {
        Some(4)
    } else if u == 'G' {
        Some(3)
    } else if u == 'H' {
        Some(4)
    } else if u == 'I' {
        Some(2)
    } else if u == 'J' {
        Some(4)
    } else if u == 'K' {
        Some(3)
    } else if u == 'L' {
        Some(4)
    } else if u == 'M' {
        Some(2)
    } else if u == 'N' {
        Some(2)
    } else if u == 'O' {
        Some(3)
    } else if u == 'P' {
        Some(4)
    } else if u == 'Q' {
        Some(4)
    } else if u == 'R' {
        Some(3)
    } else if u == 'S' {
        Some(3)
    } else if u == 'T' {
        Some(1)
    } else if u == 'U' {
        Some(3)
    } else if u == 'V' {
        Some(4)
    } else if u == 'W' {
        Some(3)
    } else if u == 'X' {
        Some(4)
    } else if u == 'Y' {
        Some(4)
    } else if u == 'Z' {
        Some(4)
    } else if '0' <= u && u <= '9' {
        Some(5)
    } else {
        None
    }
}

/// Decoding the Morse code of an upper-case letter or a digit gives the
/// character back.
pub proof fn lemma_morse_round_trip(c: char)
    requires
        is_ascii_upper(c) || is_ascii_digit(c),
    ensures
        morse_char(morse_code(c)) == Some(c),
{
    if c == 'A' {
        assert(morse_char(morse_code(c)) == Some('A'));
    } else if c == 'B' {
        assert(morse_char(morse_code(c)) == Some('B'));
    } else if c == 'C' {
        assert(morse_char(morse_code(c)) == Some('C'));
    } else if c == 'D' {
        assert(morse_char(morse_code(c)) == Some('D'));
    } else if c == 'E' {
        assert(morse_char(morse_code(c)) == Some('E'));
    } else if c == 'F' {
        assert(morse_char(morse_code(c)) == Some('F'));
    } else if c == 'G' {
        assert(morse_char(morse_code(c)) == Some('G'));
    } else if c == 'H' {
        assert(morse_char(morse_code(c)) == Some('H'));
    } else if c == 'I' {
        assert(morse_char(morse_code(c)) == Some('I'));
    } else if c == 'J' {
        assert(morse_char(morse_code(c)) == Some('J'));
    } else if c == 'K' {
        assert(morse_char(morse_code(c)) == Some('K'));
    } else if c == 'L' {
        assert(morse_char(morse_code(c)) == Some('L'));
    } else if c == 'M' {
        assert(morse_char(morse_code(c)) == Some('M'));
    } else if c == 'N' {
        assert(morse_char(morse_code(c)) == Some('N'));
    } else if c == 'O' {
        assert(morse_char(morse_code(c)) == Some('O'));
    } else if c == 'P' {
        assert(morse_char(morse_code(c)) == Some('P'));
    } else if c == 'Q' {
        assert(morse_char(morse_code(c)) == Some('Q'));
    } else if c == 'R' {
        assert(morse_char(morse_code(c)) == Some('R'));
    } else if c == 'S' {
        assert(morse_char(morse_code(c)) == Some('S'));
    } else if c == 'T' {
        assert(seq!['-'][0] != seq!['.'][0]);
        assert(morse_char(morse_code(c)) == Some('T'));
    } else if c == 'U' {
        assert(morse_char(morse_code(c)) == Some('U'));
    } else if c == 'V' {
        assert(morse_char(morse_code(c)) == Some('V'));
    } else if c == 'W' {
        assert(morse_char(morse_code(c)) == Some('W'));
    } else if c == 'X' {
        assert(morse_char(morse_code(c)) == Some('X'));
    } else if c == 'Y' {
        assert(morse_char(morse_code(c)) == Some('Y'));
    } else if c == 'Z' {
        assert(morse_char(morse_code(c)) == Some('Z'));
    } else if c == '0' {
        assert(morse_char(morse_code(c)) == Some('0'));
    } else if c == '1' {
        assert(morse_char(morse_code(c)) == Some('1'));
    } else if c == '2' {
        assert(morse_char(morse_code(c)) == Some('2'));
    } else if c == '3' {
        assert(morse_char(morse_code(c)) == Some('3'));
    } else if c == '4' {
        assert(morse_char(morse_code(c)) == Some('4'));
    } else if c == '5' {
        assert(morse_char(morse_code(c)) == Some('5'));
    } else if c == '6' {
        assert(morse_char(morse_code(c)) == Some('6'));
    } else if c == '7' {
        assert(morse_char(morse_code(c)) == Some('7'));
    } else if c == '8' {
        assert(morse_char(morse_code(c)) == Some('8'));
    } else if c == '9' {
        assert(morse_char(morse_code(c)) == Some('9'));
    }
}

/// The element count of an ASCII letter or digit is the length of its Morse
/// code (upper-case for letters).
pub proof fn lemma_element_count_is_code_length(c: char)
    requires
        is_ascii_alnum(c),
    ensures
        element_count(c) == Some(morse_code(upper(c)).len() as usize),
{
}

/// The ITU Morse code of a punctuation mark heard on air; empty for any
/// other character.
pub open spec fn punctuation_code(c: char) -> Seq<char> {
    if c == '/' {
        seq!['-', '.', '.', '-', '.']
    } else if c == '(' {
        seq!['-', '.', '-', '-', '.']
    } else if c == '&' {
        seq!['.', '-', '.', '.', '.']
    } else if c == '=' {
        seq!['-', '.', '.', '.', '-']
    } else if c == '+' {
        seq!['.', '-', '.', '-', '.']
    } else if c == '.' {
        seq!['.', '-', '.', '-', '.', '-']
    } else if c == ',' {
        seq!['-', '-', '.', '.', '-', '-']
    } else if c == '?' {
        seq!['.', '.', '-', '-', '.', '.']
    } else if c == '\'' {
        seq!['.', '-', '-', '-', '-', '.']
    } else if c == '!' {
        seq!['-', '.', '-', '.', '-', '-']
    } else if c == ')' {
        seq!['-', '.', '-', '-', '.', '-']
    } else if c == ':' {
        seq!['-', '-', '-', '.', '.', '.']
    } else if c == ';' {
        seq!['-', '.', '-', '.', '-', '.']
    } else if c == '-' {
        seq!['-', '.', '.', '.', '.', '-']
    } else if c == '_' {
        seq!['.', '.', '-', '-', '.', '-']
    } else if c == '"' {
        seq!['.', '-', '.', '.', '-', '.']
    } else if c == '@' {
        seq!['.', '-', '-', '.', '-', '.']
    } else if c == '$' {
        seq!['.', '.', '.', '-', '.', '.', '-']
    } else {
        seq![]
    }
}

/// Decoding the Morse code of a punctuation mark gives the mark back: the
/// decode table agrees with the ITU codes of `/`, `=`, `?`, `.`, `,` and the
/// other marks it knows.
pub proof fn lemma_punctuation_round_trip(c: char)
    requires
        punctuation_code(c).len() > 0,
    ensures
        morse_char(punctuation_code(c)) == Some(c),
{
    if c == '/' {
        assert(morse_char(punctuation_code(c)) == Some('/'));
    } else if c == '(' {
        assert(morse_char(punctuation_code(c)) == Some('('));
    } else if c == '&' {
        assert(morse_char(punctuation_code(c)) == Some('&'));
    } else if c == '=' {
        assert(morse_char(punctuation_code(c)) == Some('='));
    } else if c == '+' {
        assert(morse_char(punctuation_code(c)) == Some('+'));
    } else if c == '.' {
        assert(morse_char(punctuation_code(c)) == Some('.'));
    } else if c == ',' {
        assert(morse_char(punctuation_code(c)) == Some(','));
    } else if c == '?' {
        assert(morse_char(punctuation_code(c)) == Some('?'));
    } else if c == '\'' {
        assert(morse_char(punctuation_code(c)) == Some('\''));
    } else if c == '!' {
        assert(morse_char(punctuation_code(c)) == Some('!'));
    } else if c == ')' {
        assert(morse_char(punctuation_code(c)) == Some(')'));
    } else if c == ':' {
        assert(morse_char(punctuation_code(c)) == Some(':'));
    } else if c == ';' {
        assert(morse_char(punctuation_code(c)) == Some(';'));
    } else if c == '-' {
        assert(morse_char(punctuation_code(c)) == Some('-'));
    } else if c == '_' {
        assert(morse_char(punctuation_code(c)) == Some('_'));
    } else if c == '"' {
        assert(morse_char(punctuation_code(c)) == Some('"'));
    } else if c == '@' {
        assert(morse_char(punctuation_code(c)) == Some('@'));
    } else if c == '$' {
        assert(morse_char(punctuation_code(c)) == Some('$'));
    }
}

} // verus!
