//! The text grammar of squares and plys: two algebraic squares, file letter
//! then rank digit, in either case and with white space anywhere.

use vstd::prelude::*;

use crate::board::Pos;

verus! {

/// Whether `c` is white space: a character with Unicode's `White_Space`
/// property.
pub open spec fn is_space(c: char) -> bool {
    ||| '\u{9}' <= c <= '\u{d}'
    ||| c == ' '
    ||| c == '\u{85}'
    ||| c == '\u{a0}'
    ||| c == '\u{1680}'
    ||| '\u{2000}' <= c <= '\u{200a}'
    ||| c == '\u{2028}'
    ||| c == '\u{2029}'
    ||| c == '\u{202f}'
    ||| c == '\u{205f}'
    ||| c == '\u{3000}'
}

/// The test that keeps the characters that are not white space.
pub open spec fn is_ink() -> spec_fn(char) -> bool {
    |c: char| !is_space(c)
}

/// The text with all white space taken out.
pub open spec fn without_spaces(text: Seq<char>) -> Seq<char> {
    text.filter(is_ink())
}

/// The file that a letter names, `a` to `h` in either case.
pub open spec fn file_of(c: char) -> Option<i32> {
    if c == 'a' || c == 'A' {
        Some(0i32)
    } else if c == 'b' || c == 'B' {
        Some(1i32)
    } else if c == 'c' || c == 'C' {
        Some(2i32)
    } else if c == 'd' || c == 'D' {
        Some(3i32)
    } else if c == 'e' || c == 'E' {
        Some(4i32)
    } else if c == 'f' || c == 'F' {
        Some(5i32)
    } else if c == 'g' || c == 'G' {
        Some(6i32)
    } else if c == 'h' || c == 'H' {
        Some(7i32)
    } else {
        None
    }
}

/// The rank that a digit names, `1` to `8`.
pub open spec fn rank_of(c: char) -> Option<i32> {
    if c == '1' {
        Some(0i32)
    } else if c == '2' {
        Some(1i32)
    } else if c == '3' {
        Some(2i32)
    } else if c == '4' {
        Some(3i32)
    } else if c == '5' {
        Some(4i32)
    } else if c == '6' {
        Some(5i32)
    } else if c == '7' {
        Some(6i32)
    } else if c == '8' {
        Some(7i32)
    } else {
        None
    }
}

/// The square that a file letter and a rank digit name.
pub open spec fn square_of(letter: char, digit: char) -> Option<Pos> {
    match (file_of(letter), rank_of(digit)) {
        (Some(file), Some(rank)) => Some(Pos { rank, file }),
        _ => None,
    }
}

/// The two squares that a ply text names: once white space is taken out,
/// its first four characters are a file letter, a rank digit, a file letter
/// and a rank digit. What follows them is not looked at.
pub open spec fn squares_of(text: Seq<char>) -> Option<(Pos, Pos)> {
    let ink = without_spaces(text);
    if ink.len() < 4 {
        None
    } else {
        match (square_of(ink[0], ink[1]), square_of(ink[2], ink[3])) {
            (Some(origin), Some(destination)) => Some((origin, destination)),
            _ => None,
        }
    }
}

/// A square named by text is a square of the board.
pub proof fn lemma_square_of_is_playable(letter: char, digit: char)
    ensures
        square_of(letter, digit) matches Some(pos) ==> pos.is_playable(),
{
}

/// Whether `c` is white space.
pub fn is_whitespace(c: char) -> (space: bool)
    ensures
        space == is_space(c),
{
    ('\u{9}' <= c && c <= '\u{d}') || c == ' ' || c == '\u{85}' || c == '\u{a0}' || c
        == '\u{1680}' || ('\u{2000}' <= c && c <= '\u{200a}') || c == '\u{2028}' || c
        == '\u{2029}' || c == '\u{202f}' || c == '\u{205f}' || c == '\u{3000}'
}

/// The characters of a string.
pub fn chars_of(text: &str) -> (chars: Vec<char>)
    ensures
        chars@ == text@,
{
    let mut chars: Vec<char> = Vec::new();
    for c in it: text.chars()
        invariant
            chars@ == it.seq().take(it.index() as int),
            it.seq() == text@,
    {
        chars.push(c);
    }
    chars
}

/// Reads a file letter.
pub fn read_file(c: char) -> (file: Option<i32>)
    ensures
        file == file_of(c),
{
    match c {
        'a' | 'A' => Some(0),
        'b' | 'B' => Some(1),
        'c' | 'C' => Some(2),
        'd' | 'D' => Some(3),
        'e' | 'E' => Some(4),
        'f' | 'F' => Some(5),
        'g' | 'G' => Some(6),
        'h' | 'H' => Some(7),
        _ => None,
    }
}

/// Reads a rank digit.
pub fn read_rank(c: char) -> (rank: Option<i32>)
    ensures
        rank == rank_of(c),
{
    match c {
        '1' => Some(0),
        '2' => Some(1),
        '3' => Some(2),
        '4' => Some(3),
        '5' => Some(4),
        '6' => Some(5),
        '7' => Some(6),
        '8' => Some(7),
        _ => None,
    }
}

/// Reads a square from its file letter and rank digit.
pub fn read_square(letter: char, digit: char) -> (square: Option<Pos>)
    ensures
        square == square_of(letter, digit),
{
    match read_file(letter) {
        Some(file) => match read_rank(digit) {
            Some(rank) => Some(Pos { rank, file }),
            None => None,
        },
        None => None,
    }
}

/// The first `limit` characters of `text` that are not white space, or all
/// of them if there are fewer.
pub fn first_ink(text: &Vec<char>, limit: usize) -> (ink: Vec<char>)
    ensures
        ink@ == without_spaces(text@).take(
            if without_spaces(text@).len() < limit {
                without_spaces(text@).len() as int
            } else {
                limit as int
            },
        ),
{
    let ghost keep = is_ink();
    let mut ink: Vec<char> = Vec::new();
    let mut i: usize = 0;
    proof {
        reveal(Seq::filter);
        assert(text@.take(0) =~= Seq::<char>::empty());
    }
    while i < text.len() && ink.len() < limit
        invariant
            i <= text.len(),
            keep == is_ink(),
            ink@ == text@.take(i as int).filter(keep),
            ink.len() <= limit,
        decreases text.len() - i,
    {
        let c = text[i];
        proof {
            assert(text@.take(i + 1) =~= text@.take(i as int).push(c));
            text@.take(i as int).lemma_filter_push(c, keep);
        }
        if !is_whitespace(c) {
            ink.push(c);
        }
        i += 1;
    }
    proof {
        let all = without_spaces(text@);
        assert(text@ =~= text@.take(i as int) + text@.skip(i as int));
        Seq::filter_distributes_over_add(text@.take(i as int), text@.skip(i as int), keep);
        assert(all == ink@ + text@.skip(i as int).filter(keep));
        if i == text.len() {
            assert(text@.skip(i as int) =~= Seq::<char>::empty());
            assert(all =~= ink@);
            assert(all.take(all.len() as int) =~= all);
        } else {
            assert(ink.len() == limit);
            assert(all.take(limit as int) =~= ink@);
        }
    }
    ink
}

} // verus!
