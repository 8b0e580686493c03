//! Versions as text: what a string reads as, and what a version is written as.
//!
//! A version is written as its numbers with a `.` between them, and after the
//! last number the mark of its stage, if it has one: `rc`, `b`, `a` or `dev`,
//! with the number of the pre-release behind it.

use crate::ansible::version::Stage;
use crate::ansible::version::VersionView;
use vstd::prelude::*;

verus! {

/// `c` is one of the ten decimal digits.
pub open spec fn is_digit(c: char) -> bool {
    '0' <= c && c <= '9'
}

/// The number a decimal digit stands for.
pub open spec fn digit_value(c: char) -> int {
    c as u32 - '0' as u32
}

/// The decimal digit for a number below ten.
pub open spec fn digit_char(d: int) -> char {
    if d == 0 {
        '0'
    } else if d == 1 {
        '1'
    } else if d == 2 {
        '2'
    } else if d == 3 {
        '3'
    } else if d == 4 {
        '4'
    } else if d == 5 {
        '5'
    } else if d == 6 {
        '6'
    } else if d == 7 {
        '7'
    } else if d == 8 {
        '8'
    } else {
        '9'
    }
}

/// Every character of `s` is a decimal digit.
pub open spec fn all_digits(s: Seq<char>) -> bool {
    forall|i: int| 0 <= i < s.len() ==> is_digit(#[trigger] s[i])
}

/// The number that a run of decimal digits stands for.
pub open spec fn decimal_value(s: Seq<char>) -> nat
    decreases s.len(),
{
    if s.len() == 0 {
        0
    } else {
        (10 * decimal_value(s.drop_last()) + digit_value(s.last())) as nat
    }
}

/// The largest number that a version holds.
pub open spec fn max_number() -> int {
    255
}

/// What `s` reads as a number: one or more decimal digits that stand for at
/// most 255, and nothing else. Zeros before the number are read with it; a
/// sign is not.
pub open spec fn parse_number(s: Seq<char>) -> Option<u8> {
    if s.len() > 0 && all_digits(s) && decimal_value(s) <= max_number() {
        Some(decimal_value(s) as u8)
    } else {
        None
    }
}

/// Where `c` first stands in `s`; the length of `s` where it does not occur.
pub open spec fn first_index(s: Seq<char>, c: char) -> nat
    decreases s.len(),
{
    if s.len() == 0 || s[0] == c {
        0
    } else {
        1 + first_index(s.skip(1), c)
    }
}

/// The pieces of `s` between the occurrences of `sep`. There is always at
/// least one piece, and a piece may be empty.
pub open spec fn split(s: Seq<char>, sep: char) -> Seq<Seq<char>>
    decreases s.len(),
{
    let at = first_index(s, sep);
    if at >= s.len() {
        seq![s]
    } else {
        seq![s.take(at as int)] + split(s.skip(at as int + 1), sep)
    }
}

/// Where `p` first occurs in `s` as a run of characters, if it does.
pub open spec fn find(s: Seq<char>, p: Seq<char>) -> Option<int>
    decreases s.len(),
{
    if p.is_prefix_of(s) {
        Some(0)
    } else if s.len() == 0 {
        None
    } else {
        match find(s.skip(1), p) {
            Some(at) => Some(at + 1),
            None => None,
        }
    }
}

/// The mark of a release candidate.
pub open spec fn rc_mark() -> Seq<char> {
    seq!['r', 'c']
}

/// The mark of a beta.
pub open spec fn b_mark() -> Seq<char> {
    seq!['b']
}

/// The mark of an alpha.
pub open spec fn a_mark() -> Seq<char> {
    seq!['a']
}

/// The mark of a development snapshot.
pub open spec fn dev_mark() -> Seq<char> {
    seq!['d', 'e', 'v']
}

/// The numbers on both sides of the first `mark` in `input`: all that stands
/// before it and all that stands behind it. Both must read as numbers.
pub open spec fn numbers_around(input: Seq<char>, mark: Seq<char>) -> Option<(u8, u8)> {
    match find(input, mark) {
        Some(at) => match (
            parse_number(input.take(at)),
            parse_number(input.skip(at + mark.len())),
        ) {
            (Some(number), Some(release)) => Some((number, release)),
            _ => None,
        },
        None => None,
    }
}

/// The last piece of a version with a `0` put before it where it does not
/// begin with a digit: a stage that stands alone, as in `2.7.0.dev0`, is read
/// as the stage of a number 0.
pub open spec fn with_leading_number(piece: Seq<char>) -> Seq<char> {
    if piece.len() > 0 && is_digit(piece[0]) {
        piece
    } else {
        seq!['0'] + piece
    }
}

/// What the last piece of a version reads as: its number and the stage.
///
/// A piece that is a number is that number of a final release. Otherwise the
/// piece holds a mark, looked for in the order `rc`, `b`, `a`, `dev`, with the
/// number before it and the number of the pre-release after it.
pub open spec fn parse_last(piece: Seq<char>) -> Option<(u8, Stage)> {
    let input = with_leading_number(piece);
    if parse_number(piece) is Some {
        Some((parse_number(piece).unwrap(), Stage::GA))
    } else if find(input, rc_mark()) is Some {
        match numbers_around(input, rc_mark()) {
            Some((number, release)) => Some((number, Stage::RC(release))),
            None => None,
        }
    } else if find(input, b_mark()) is Some {
        match numbers_around(input, b_mark()) {
            Some((number, release)) => Some((number, Stage::B(release))),
            None => None,
        }
    } else if find(input, a_mark()) is Some {
        match numbers_around(input, a_mark()) {
            Some((number, release)) => Some((number, Stage::A(release))),
            None => None,
        }
    } else if find(input, dev_mark()) is Some {
        match numbers_around(input, dev_mark()) {
            Some((number, release)) => Some((number, Stage::Dev(release))),
            None => None,
        }
    } else {
        None
    }
}

/// Every piece reads as a number.
pub open spec fn all_numbers(pieces: Seq<Seq<char>>) -> bool {
    forall|i: int| 0 <= i < pieces.len() ==> parse_number(#[trigger] pieces[i]) is Some
}

/// The numbers that the pieces read as.
pub open spec fn numbers_of(pieces: Seq<Seq<char>>) -> Seq<u8> {
    Seq::new(pieces.len(), |i: int| parse_number(pieces[i]).unwrap())
}

/// What a string reads as a version, if it is one.
///
/// The string is cut at every `.`. Each piece but the last is a number; the
/// last piece gives the last number and the stage.
pub open spec fn parse_version(s: Seq<char>) -> Option<VersionView> {
    let pieces = split(s, '.');
    let leading = pieces.drop_last();
    match parse_last(pieces.last()) {
        Some((number, stage)) => if all_numbers(leading) {
            Some(VersionView { numbers: numbers_of(leading).push(number), stage })
        } else {
            None
        },
        None => None,
    }
}

/// A number in decimal digits, without zeros before it.
pub open spec fn display_number(n: u8) -> Seq<char> {
    let v = n as int;
    if v < 10 {
        seq![digit_char(v)]
    } else if v < 100 {
        seq![digit_char(v / 10), digit_char(v % 10)]
    } else {
        seq![digit_char(v / 100), digit_char((v / 10) % 10), digit_char(v % 10)]
    }
}

/// What is written after the last number for a stage.
pub open spec fn display_stage(stage: Stage) -> Seq<char> {
    match stage {
        Stage::GA => Seq::empty(),
        Stage::RC(n) => rc_mark() + display_number(n),
        Stage::B(n) => b_mark() + display_number(n),
        Stage::A(n) => a_mark() + display_number(n),
        Stage::Dev(n) => dev_mark() + display_number(n),
    }
}

/// The numbers in decimal with a `.` between one and the next.
pub open spec fn display_numbers(numbers: Seq<u8>) -> Seq<char>
    decreases numbers.len(),
{
    if numbers.len() == 0 {
        Seq::empty()
    } else if numbers.len() == 1 {
        display_number(numbers[0])
    } else {
        display_number(numbers[0]) + seq!['.'] + display_numbers(numbers.skip(1))
    }
}

/// What a version is written as.
pub open spec fn display_version(v: VersionView) -> Seq<char> {
    display_numbers(v.numbers) + display_stage(v.stage)
}

} // verus!

verus! {

/// A number as a version is written with: decimal digits that stand for at
/// most 255, with no zero before them.
pub open spec fn is_plain_number(s: Seq<char>) -> bool {
    &&& s.len() > 0
    &&& all_digits(s)
    &&& (s.len() == 1 || s[0] != '0')
    &&& decimal_value(s) <= max_number()
}

/// What a version is written with for its stage: nothing, or one of the marks
/// `rc`, `b`, `a` and `dev` with a number behind it.
pub open spec fn is_stage_text(s: Seq<char>) -> bool {
    ||| s.len() == 0
    ||| rc_mark().is_prefix_of(s) && is_plain_number(s.skip(2))
    ||| b_mark().is_prefix_of(s) && is_plain_number(s.skip(1))
    ||| a_mark().is_prefix_of(s) && is_plain_number(s.skip(1))
    ||| dev_mark().is_prefix_of(s) && is_plain_number(s.skip(3))
}

/// How many decimal digits `s` begins with.
pub open spec fn leading_digits(s: Seq<char>) -> nat
    decreases s.len(),
{
    if s.len() > 0 && is_digit(s[0]) {
        1 + leading_digits(s.skip(1))
    } else {
        0
    }
}

/// The last piece of a version as it is written: a number, then the stage.
pub open spec fn is_last_piece(s: Seq<char>) -> bool {
    let n = leading_digits(s) as int;
    is_plain_number(s.take(n)) && is_stage_text(s.skip(n))
}

/// The strings that versions are written as: numbers with a `.` between one
/// and the next, and the stage behind the last.
pub open spec fn is_version_text(s: Seq<char>) -> bool {
    let pieces = split(s, '.');
    &&& forall|i: int| 0 <= i < pieces.len() - 1 ==> is_plain_number(#[trigger] pieces[i])
    &&& is_last_piece(pieces.last())
}

} // verus!
