//! What is written is read back: the laws that tie `parse_version` and
//! `display_version` together.

use crate::ansible::parse::lemma_find_from;
use crate::ansible::parse::lemma_first_index;
use crate::ansible::parse::lemma_split_len;
use crate::ansible::text::all_digits;
use crate::ansible::text::all_numbers;
use crate::ansible::text::a_mark;
use crate::ansible::text::b_mark;
use crate::ansible::text::decimal_value;
use crate::ansible::text::dev_mark;
use crate::ansible::text::digit_char;
use crate::ansible::text::digit_value;
use crate::ansible::text::display_number;
use crate::ansible::text::display_numbers;
use crate::ansible::text::display_stage;
use crate::ansible::text::display_version;
use crate::ansible::text::find;
use crate::ansible::text::first_index;
use crate::ansible::text::is_digit;
use crate::ansible::text::is_last_piece;
use crate::ansible::text::is_plain_number;
use crate::ansible::text::is_version_text;
use crate::ansible::text::leading_digits;
use crate::ansible::text::numbers_of;
use crate::ansible::text::parse_last;
use crate::ansible::text::parse_number;
use crate::ansible::text::parse_version;
use crate::ansible::text::rc_mark;
use crate::ansible::text::split;
use crate::ansible::text::with_leading_number;
use crate::ansible::version::Stage;
use crate::ansible::version::VersionView;
use vstd::prelude::*;

verus! {

/// The ten digits and the numbers below ten stand for each other.
pub proof fn lemma_digits()
    ensures
        forall|d: int|
            0 <= d <= 9 ==> is_digit(#[trigger] digit_char(d)) && digit_value(digit_char(d)) == d,
        forall|c: char|
            is_digit(c) ==> 0 <= #[trigger] digit_value(c) <= 9 && digit_char(digit_value(c)) == c,
{
}

/// The value of one, two and three digits.
proof fn lemma_decimal_value_short(s: Seq<char>)
    requires
        all_digits(s),
    ensures
        s.len() == 1 ==> decimal_value(s) == digit_value(s[0]) as nat,
        s.len() == 2 ==> decimal_value(s) == (10 * digit_value(s[0]) + digit_value(s[1])) as nat,
        s.len() == 3 ==> decimal_value(s) == (100 * digit_value(s[0]) + 10 * digit_value(s[1])
            + digit_value(s[2])) as nat,
{
    reveal_with_fuel(decimal_value, 4);
    lemma_digits();
    if s.len() == 1 {
        assert(s.drop_last().len() == 0);
        assert(is_digit(s[0]));
    } else if s.len() == 2 {
        assert(s.drop_last().drop_last().len() == 0);
        assert(s.drop_last().last() == s[0]);
        assert(is_digit(s[0]) && is_digit(s[1]));
    } else if s.len() == 3 {
        assert(s.drop_last().drop_last().drop_last().len() == 0);
        assert(s.drop_last().last() == s[1]);
        assert(s.drop_last().drop_last().last() == s[0]);
        assert(is_digit(s[0]) && is_digit(s[1]) && is_digit(s[2]));
    }
}

/// A number is written in plain digits that stand for it.
pub proof fn lemma_display_number(n: u8)
    ensures
        is_plain_number(display_number(n)),
        decimal_value(display_number(n)) == n,
        parse_number(display_number(n)) == Some(n),
        1 <= display_number(n).len() <= 3,
{
    lemma_digits();
    let d = display_number(n);
    let v = n as int;
    assert(0 <= v / 100 <= 2 && 0 <= (v / 10) % 10 <= 9 && 0 <= v % 10 <= 9 && 0 <= v / 10 <= 25);
    assert(v == 100 * (v / 100) + 10 * ((v / 10) % 10) + v % 10);
    assert forall|i: int| 0 <= i < d.len() implies is_digit(#[trigger] d[i]) by {}
    lemma_decimal_value_short(d);
}

/// Four digits or more, the first of them not a zero, stand for a thousand
/// at the least.
proof fn lemma_long_numbers(s: Seq<char>)
    requires
        all_digits(s),
        s.len() >= 4,
        s[0] != '0',
    ensures
        decimal_value(s) >= 1000,
    decreases s.len(),
{
    lemma_digits();
    let shorter = s.drop_last();
    assert(all_digits(shorter)) by {
        assert forall|i: int| 0 <= i < shorter.len() implies is_digit(#[trigger] shorter[i]) by {
            assert(shorter[i] == s[i]);
        }
    }
    assert(is_digit(s[s.len() - 1]));
    if s.len() == 4 {
        lemma_decimal_value_short(shorter);
        assert(is_digit(shorter[0]) && is_digit(shorter[1]) && is_digit(shorter[2]));
        assert(shorter[0] == s[0]);
        assert(digit_value(s[0]) >= 1);
    } else {
        assert(shorter[0] == s[0]);
        lemma_long_numbers(shorter);
    }
}

/// Plain digits are what the number they stand for is written as.
pub proof fn lemma_plain_number(s: Seq<char>)
    requires
        is_plain_number(s),
    ensures
        display_number(decimal_value(s) as u8) == s,
        parse_number(s) == Some(decimal_value(s) as u8),
{
    lemma_digits();
    if s.len() >= 4 {
        lemma_long_numbers(s);
    }
    lemma_decimal_value_short(s);
    assert forall|i: int| 0 <= i < s.len() implies is_digit(s[i]) by {}
    let v = decimal_value(s) as int;
    if s.len() == 1 {
        assert(is_digit(s[0]));
    } else if s.len() == 2 {
        assert(is_digit(s[0]) && is_digit(s[1]));
        assert(v / 10 == digit_value(s[0]) && v % 10 == digit_value(s[1]));
    } else {
        assert(is_digit(s[0]) && is_digit(s[1]) && is_digit(s[2]));
        assert(v / 100 == digit_value(s[0]) && (v / 10) % 10 == digit_value(s[1]) && v % 10
            == digit_value(s[2]));
    }
    assert(display_number(v as u8) =~= s);
}

} // verus!

verus! {

/// A text in which the first character of `p` does not stand does not hold `p`.
proof fn lemma_find_none(s: Seq<char>, p: Seq<char>)
    requires
        p.len() > 0,
        forall|i: int| 0 <= i < s.len() ==> s[i] != p[0],
    ensures
        find(s, p) is None,
    decreases s.len(),
{
    if p.is_prefix_of(s) {
        assert(s.subrange(0, p.len() as int)[0] == p[0]);
    }
    if s.len() > 0 {
        assert forall|i: int| 0 <= i < s.skip(1).len() implies s.skip(1)[i] != p[0] by {
            assert(s.skip(1)[i] == s[i + 1]);
        }
        lemma_find_none(s.skip(1), p);
    }
}

/// Behind a text in which the first character of `p` does not stand, `p` is
/// found at once.
proof fn lemma_find_behind(head: Seq<char>, p: Seq<char>, tail: Seq<char>)
    requires
        p.len() > 0,
        forall|i: int| 0 <= i < head.len() ==> head[i] != p[0],
    ensures
        find(head + (p + tail), p) == Some(head.len() as int),
{
    let s = head + (p + tail);
    assert forall|j: int| 0 <= j < head.len() implies !p.is_prefix_of(#[trigger] s.skip(j)) by {
        if p.is_prefix_of(s.skip(j)) {
            assert(s.skip(j).subrange(0, p.len() as int)[0] == p[0]);
            assert(s.skip(j)[0] == head[j]);
        }
    }
    lemma_find_from(s, p, head.len() as int);
    assert(s.skip(head.len() as int).subrange(0, p.len() as int) =~= p);
}

/// Digits, a mark and what follows it: the whole is no number, it begins
/// with a digit, and the mark is found behind the digits.
proof fn lemma_marked_piece(d: Seq<char>, mark: Seq<char>, e: Seq<char>)
    requires
        d.len() > 0,
        all_digits(d),
        mark.len() > 0,
        !is_digit(mark[0]),
    ensures
        ({
            let piece = d + (mark + e);
            &&& parse_number(piece) is None
            &&& with_leading_number(piece) == piece
            &&& find(piece, mark) == Some(d.len() as int)
            &&& piece.take(d.len() as int) == d
            &&& piece.skip(d.len() as int + mark.len()) == e
        }),
{
    let piece = d + (mark + e);
    assert(is_digit(d[0]));
    assert(piece[0] == d[0]);
    assert(piece[d.len() as int] == mark[0]);
    assert(!all_digits(piece));
    assert forall|i: int| 0 <= i < d.len() implies d[i] != mark[0] by {
        assert(is_digit(d[i]));
    }
    lemma_find_behind(d, mark, e);
    assert(piece.take(d.len() as int) =~= d);
    assert(piece.skip(d.len() as int + mark.len()) =~= e);
}

/// Digits, a mark and digits again hold no mark that begins with a
/// character which is no digit and does not stand in the mark.
proof fn lemma_marked_piece_lacks(d: Seq<char>, mark: Seq<char>, e: Seq<char>, other: Seq<char>)
    requires
        all_digits(d),
        all_digits(e),
        other.len() > 0,
        !is_digit(other[0]),
        forall|i: int| 0 <= i < mark.len() ==> mark[i] != other[0],
    ensures
        find(d + (mark + e), other) is None,
{
    let piece = d + (mark + e);
    assert forall|i: int| 0 <= i < piece.len() implies piece[i] != other[0] by {
        if i < d.len() {
            assert(piece[i] == d[i] && is_digit(d[i]));
        } else if i < d.len() + mark.len() {
            assert(piece[i] == mark[i - d.len()]);
        } else {
            assert(piece[i] == e[i - d.len() - mark.len()] && is_digit(e[i - d.len() - mark.len()]));
        }
    }
    lemma_find_none(piece, other);
}

/// What is written for a last number and a release candidate reads as them.
proof fn lemma_parse_last_rc(n: u8, k: u8)
    ensures
        parse_last(display_number(n) + display_stage(Stage::RC(k))) == Some((n, Stage::RC(k))),
{
    lemma_display_number(n);
    lemma_display_number(k);
    lemma_marked_piece(display_number(n), rc_mark(), display_number(k));
}

/// What is written for a last number and a beta reads as them.
proof fn lemma_parse_last_b(n: u8, k: u8)
    ensures
        parse_last(display_number(n) + display_stage(Stage::B(k))) == Some((n, Stage::B(k))),
{
    lemma_display_number(n);
    lemma_display_number(k);
    lemma_marked_piece(display_number(n), b_mark(), display_number(k));
    lemma_marked_piece_lacks(display_number(n), b_mark(), display_number(k), rc_mark());
}

/// What is written for a last number and a alpha reads as them.
proof fn lemma_parse_last_a(n: u8, k: u8)
    ensures
        parse_last(display_number(n) + display_stage(Stage::A(k))) == Some((n, Stage::A(k))),
{
    lemma_display_number(n);
    lemma_display_number(k);
    lemma_marked_piece(display_number(n), a_mark(), display_number(k));
    lemma_marked_piece_lacks(display_number(n), a_mark(), display_number(k), rc_mark());
    lemma_marked_piece_lacks(display_number(n), a_mark(), display_number(k), b_mark());
}

/// What is written for a last number and a development snapshot reads as them.
proof fn lemma_parse_last_dev(n: u8, k: u8)
    ensures
        parse_last(display_number(n) + display_stage(Stage::Dev(k))) == Some((n, Stage::Dev(k))),
{
    lemma_display_number(n);
    lemma_display_number(k);
    lemma_marked_piece(display_number(n), dev_mark(), display_number(k));
    lemma_marked_piece_lacks(display_number(n), dev_mark(), display_number(k), rc_mark());
    lemma_marked_piece_lacks(display_number(n), dev_mark(), display_number(k), b_mark());
    lemma_marked_piece_lacks(display_number(n), dev_mark(), display_number(k), a_mark());
}

/// What is written for the last number and the stage reads as that number
/// and that stage.
pub proof fn lemma_parse_last_display(n: u8, stage: Stage)
    ensures
        parse_last(display_number(n) + display_stage(stage)) == Some((n, stage)),
{
    match stage {
        Stage::GA => {
            lemma_display_number(n);
            assert(display_number(n) + display_stage(stage) =~= display_number(n));
        },
        Stage::RC(k) => lemma_parse_last_rc(n, k),
        Stage::B(k) => lemma_parse_last_b(n, k),
        Stage::A(k) => lemma_parse_last_a(n, k),
        Stage::Dev(k) => lemma_parse_last_dev(n, k),
    }
}

} // verus!

verus! {

/// `parse_version`, piece by piece from the left: a string without a `.` is
/// a last piece; any other is a number, a `.` and a version.
pub proof fn lemma_parse_version_step(s: Seq<char>)
    ensures
        first_index(s, '.') >= s.len() ==> parse_version(s) == match parse_last(s) {
            Some((n, stage)) => Some(VersionView { numbers: seq![n], stage }),
            None => None,
        },
        first_index(s, '.') < s.len() ==> parse_version(s) == match (
            parse_number(s.take(first_index(s, '.') as int)),
            parse_version(s.skip(first_index(s, '.') as int + 1)),
        ) {
            (Some(n), Some(rest)) => Some(
                VersionView { numbers: seq![n] + rest.numbers, stage: rest.stage },
            ),
            _ => None,
        },
{
    let at = first_index(s, '.') as int;
    let pieces = split(s, '.');
    if at >= s.len() {
        assert(pieces.drop_last() =~= Seq::<Seq<char>>::empty());
        match parse_last(s) {
            Some((n, stage)) => {
                assert(numbers_of(pieces.drop_last()).push(n) =~= seq![n]);
            },
            None => {},
        }
    } else {
        let head = s.take(at);
        let rest = s.skip(at + 1);
        let others = split(rest, '.');
        lemma_split_len(rest, '.');
        assert(pieces =~= seq![head] + others);
        assert(pieces.last() == others.last());
        let leading = pieces.drop_last();
        let rest_leading = others.drop_last();
        assert(leading =~= seq![head] + rest_leading);
        assert(leading[0] == head);
        assert forall|i: int| 0 <= i < rest_leading.len() implies rest_leading[i] == leading[i + 1] by {}
        if all_numbers(leading) {
            assert(parse_number(leading[0]) is Some);
            assert forall|i: int| 0 <= i < rest_leading.len() implies parse_number(
                #[trigger] rest_leading[i],
            ) is Some by {
                assert(parse_number(leading[i + 1]) is Some);
            }
        }
        if parse_number(head) is Some && all_numbers(rest_leading) {
            assert forall|i: int| 0 <= i < leading.len() implies parse_number(
                #[trigger] leading[i],
            ) is Some by {
                if i > 0 {
                    assert(leading[i] == rest_leading[i - 1]);
                }
            }
            assert(numbers_of(leading) =~= seq![parse_number(head).unwrap()] + numbers_of(
                rest_leading,
            ));
            match parse_last(others.last()) {
                Some((n, stage)) => {
                    assert(numbers_of(leading).push(n) =~= seq![parse_number(head).unwrap()]
                        + numbers_of(rest_leading).push(n));
                },
                None => {},
            }
        }
    }
}

/// `is_version_text`, piece by piece from the left.
pub proof fn lemma_version_text_step(s: Seq<char>)
    ensures
        first_index(s, '.') >= s.len() ==> is_version_text(s) == is_last_piece(s),
        first_index(s, '.') < s.len() ==> is_version_text(s) == (is_plain_number(
            s.take(first_index(s, '.') as int),
        ) && is_version_text(s.skip(first_index(s, '.') as int + 1))),
{
    let at = first_index(s, '.') as int;
    let pieces = split(s, '.');
    if at < s.len() {
        let head = s.take(at);
        let rest = s.skip(at + 1);
        let others = split(rest, '.');
        lemma_split_len(rest, '.');
        assert(pieces =~= seq![head] + others);
        assert(pieces.last() == others.last());
        assert(pieces[0] == head);
        if is_version_text(s) {
            assert forall|i: int| 0 <= i < others.len() - 1 implies is_plain_number(
                #[trigger] others[i],
            ) by {
                assert(others[i] == pieces[i + 1]);
            }
        }
        if is_plain_number(head) && is_version_text(rest) {
            assert forall|i: int| 0 <= i < pieces.len() - 1 implies is_plain_number(
                #[trigger] pieces[i],
            ) by {
                if i > 0 {
                    assert(pieces[i] == others[i - 1]);
                }
            }
        }
    }
}

/// How far the digits at the start of a text go.
proof fn lemma_leading_digits(s: Seq<char>, k: int)
    requires
        0 <= k <= s.len(),
        forall|i: int| 0 <= i < k ==> is_digit(s[i]),
        k == s.len() || !is_digit(s[k]),
    ensures
        leading_digits(s) == k,
    decreases k,
{
    if k > 0 {
        lemma_leading_digits(s.skip(1), k - 1);
    }
}

/// A number, a mark and a number again, as a text: where the digits end, and
/// that no `.` stands in it.
proof fn lemma_marked_text(n: u8, mark: Seq<char>, k: u8)
    requires
        mark.len() > 0,
        forall|i: int| 0 <= i < mark.len() ==> !is_digit(#[trigger] mark[i]) && mark[i] != '.',
    ensures
        ({
            let d = display_number(n);
            let t = mark + display_number(k);
            let piece = d + t;
            &&& leading_digits(piece) == d.len()
            &&& piece.take(d.len() as int) == d
            &&& piece.skip(d.len() as int) == t
            &&& mark.is_prefix_of(t)
            &&& t.skip(mark.len() as int) == display_number(k)
            &&& forall|i: int| 0 <= i < piece.len() ==> piece[i] != '.'
        }),
{
    let d = display_number(n);
    let e = display_number(k);
    let t = mark + e;
    let piece = d + t;
    lemma_display_number(n);
    lemma_display_number(k);
    assert forall|i: int| 0 <= i < d.len() implies is_digit(piece[i]) by {
        assert(piece[i] == d[i] && is_digit(d[i]));
    }
    assert(piece[d.len() as int] == mark[0]);
    lemma_leading_digits(piece, d.len() as int);
    assert(piece.take(d.len() as int) =~= d);
    assert(piece.skip(d.len() as int) =~= t);
    assert(t.subrange(0, mark.len() as int) =~= mark);
    assert(t.skip(mark.len() as int) =~= e);
    assert forall|i: int| 0 <= i < piece.len() implies piece[i] != '.' by {
        if i < d.len() {
            assert(piece[i] == d[i] && is_digit(d[i]));
        } else if i < d.len() + mark.len() {
            assert(piece[i] == mark[i - d.len()]);
        } else {
            assert(piece[i] == e[i - d.len() - mark.len()] && is_digit(e[i - d.len() - mark.len()]));
        }
    }
}

/// What is written for the last number and the stage is a last piece, and
/// has no `.` in it.
proof fn lemma_last_piece_display(n: u8, stage: Stage)
    ensures
        is_last_piece(display_number(n) + display_stage(stage)),
        forall|i: int|
            0 <= i < (display_number(n) + display_stage(stage)).len() ==> (display_number(n)
                + display_stage(stage))[i] != '.',
{
    let d = display_number(n);
    let piece = d + display_stage(stage);
    lemma_display_number(n);
    match stage {
        Stage::GA => {
            assert(piece =~= d);
            assert forall|i: int| 0 <= i < d.len() implies is_digit(d[i]) by {}
            lemma_leading_digits(piece, d.len() as int);
            assert(piece.take(d.len() as int) =~= d);
            assert(piece.skip(d.len() as int).len() == 0);
        },
        Stage::RC(k) => {
            lemma_display_number(k);
            lemma_marked_text(n, rc_mark(), k);
        },
        Stage::B(k) => {
            lemma_display_number(k);
            lemma_marked_text(n, b_mark(), k);
        },
        Stage::A(k) => {
            lemma_display_number(k);
            lemma_marked_text(n, a_mark(), k);
        },
        Stage::Dev(k) => {
            lemma_display_number(k);
            lemma_marked_text(n, dev_mark(), k);
        },
    }
}

/// No more digits stand at the start of a text than the text is long.
proof fn lemma_leading_digits_bound(s: Seq<char>)
    ensures
        leading_digits(s) <= s.len(),
    decreases s.len(),
{
    if s.len() > 0 && is_digit(s[0]) {
        lemma_leading_digits_bound(s.skip(1));
    }
}

/// A last piece is what some number and some stage are written as.
proof fn lemma_last_piece_written(s: Seq<char>) -> (r: (u8, Stage))
    requires
        is_last_piece(s),
    ensures
        s == display_number(r.0) + display_stage(r.1),
{
    let k = leading_digits(s) as int;
    let head = s.take(k);
    let t = s.skip(k);
    lemma_leading_digits_bound(s);
    lemma_plain_number(head);
    let n = decimal_value(head) as u8;
    assert(s =~= head + t);
    if t.len() == 0 {
        assert(s =~= display_number(n) + display_stage(Stage::GA));
        (n, Stage::GA)
    } else if rc_mark().is_prefix_of(t) && is_plain_number(t.skip(2)) {
        lemma_plain_number(t.skip(2));
        let release = decimal_value(t.skip(2)) as u8;
        assert(t =~= t.subrange(0, 2) + t.skip(2));
        (n, Stage::RC(release))
    } else if b_mark().is_prefix_of(t) && is_plain_number(t.skip(1)) {
        lemma_plain_number(t.skip(1));
        let release = decimal_value(t.skip(1)) as u8;
        assert(t =~= t.subrange(0, 1) + t.skip(1));
        (n, Stage::B(release))
    } else if a_mark().is_prefix_of(t) && is_plain_number(t.skip(1)) {
        lemma_plain_number(t.skip(1));
        let release = decimal_value(t.skip(1)) as u8;
        assert(t =~= t.subrange(0, 1) + t.skip(1));
        (n, Stage::A(release))
    } else {
        lemma_plain_number(t.skip(3));
        let release = decimal_value(t.skip(3)) as u8;
        assert(t =~= t.subrange(0, 3) + t.skip(3));
        (n, Stage::Dev(release))
    }
}

/// What a version is written as reads as that version.
pub proof fn lemma_display_then_parse(v: VersionView)
    requires
        v.numbers.len() > 0,
    ensures
        parse_version(display_version(v)) == Some(v),
        is_version_text(display_version(v)),
    decreases v.numbers.len(),
{
    let s = display_version(v);
    let n = v.numbers[0];
    let d = display_number(n);
    lemma_display_number(n);
    lemma_parse_version_step(s);
    lemma_version_text_step(s);
    if v.numbers.len() == 1 {
        assert(s =~= d + display_stage(v.stage));
        lemma_last_piece_display(n, v.stage);
        lemma_first_index(s, '.', s.len() as int);
        lemma_parse_last_display(n, v.stage);
        assert(v.numbers =~= seq![n]);
    } else {
        let rest = VersionView { numbers: v.numbers.skip(1), stage: v.stage };
        assert(s =~= d + seq!['.'] + display_version(rest));
        assert forall|j: int| 0 <= j < d.len() implies s[j] != '.' by {
            assert(s[j] == d[j] && is_digit(d[j]));
        }
        assert(s[d.len() as int] == '.');
        lemma_first_index(s, '.', d.len() as int);
        assert(s.take(d.len() as int) =~= d);
        assert(s.skip(d.len() as int + 1) =~= display_version(rest));
        lemma_display_then_parse(rest);
        assert(seq![n] + rest.numbers =~= v.numbers);
    }
}

/// Round trip: a string that is written as versions are reads as a version,
/// and that version is written as the string.
///
/// This leaves out what `parse_version` reads and `display_version` does not
/// write: a stage that stands alone behind a `.`, and needless zeros before a
/// number. By `lemma_round_trip_only` it leaves out nothing else.
pub proof fn lemma_round_trip(s: Seq<char>)
    requires
        is_version_text(s),
    ensures
        parse_version(s) is Some,
        display_version(parse_version(s).unwrap()) == s,
    decreases s.len(),
{
    let at = first_index(s, '.') as int;
    lemma_parse_version_step(s);
    lemma_version_text_step(s);
    if at >= s.len() {
        let (n, stage) = lemma_last_piece_written(s);
        lemma_parse_last_display(n, stage);
        assert(display_numbers(seq![n]) == display_number(n));
    } else {
        let head = s.take(at);
        let rest = s.skip(at + 1);
        lemma_plain_number(head);
        let n = decimal_value(head) as u8;
        lemma_round_trip(rest);
        let v = parse_version(rest).unwrap();
        let numbers = seq![n] + v.numbers;
        assert(v.numbers.len() > 0);
        assert(numbers.skip(1) =~= v.numbers);
        assert(numbers[0] == n);
        lemma_first_index_found(s, '.');
        assert(s =~= head + seq!['.'] + rest);
    }
}

/// Only a string that is written as versions are comes back as it was
/// written.
pub proof fn lemma_round_trip_only(s: Seq<char>)
    requires
        parse_version(s) is Some,
        display_version(parse_version(s).unwrap()) == s,
    ensures
        is_version_text(s),
{
    lemma_display_then_parse(parse_version(s).unwrap());
}

/// Where `first_index` is less than the length, the character stands there.
proof fn lemma_first_index_found(s: Seq<char>, c: char)
    ensures
        first_index(s, c) <= s.len(),
        first_index(s, c) < s.len() ==> s[first_index(s, c) as int] == c,
    decreases s.len(),
{
    if s.len() > 0 && s[0] != c {
        lemma_first_index_found(s.skip(1), c);
    }
}

} // verus!
