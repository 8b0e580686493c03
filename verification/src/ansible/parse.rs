//! Reading a version from the characters of a string.

use crate::ansible::text::all_digits;
use crate::ansible::text::all_numbers;
use crate::ansible::text::a_mark;
use crate::ansible::text::b_mark;
use crate::ansible::text::decimal_value;
use crate::ansible::text::dev_mark;
use crate::ansible::text::digit_value;
use crate::ansible::text::find;
use crate::ansible::text::first_index;
use crate::ansible::text::is_digit;
use crate::ansible::text::numbers_of;
use crate::ansible::text::parse_last;
use crate::ansible::text::parse_number;
use crate::ansible::text::parse_version;
use crate::ansible::text::rc_mark;
use crate::ansible::text::split;
use crate::ansible::text::with_leading_number;
use crate::ansible::version::Stage;
use crate::ansible::version::Version;
use vstd::prelude::*;

verus! {

/// The characters of a string, one by one.
pub fn chars_of(s: &str) -> (chars: Vec<char>)
    ensures
        chars@ == s@,
{
    let mut chars: Vec<char> = Vec::new();
    for c in it: s.chars()
        invariant
            chars@ == it.seq().take(it.index()),
            it.seq() == s@,
    {
        chars.push(c);
    }
    chars
}

/// The number a character stands for, where it is a decimal digit.
pub fn digit_of(c: char) -> (d: Option<u8>)
    ensures
        d is Some <==> is_digit(c),
        d is Some ==> d.unwrap() == digit_value(c) && d.unwrap() < 10,
{
    if '0' <= c && c <= '9' {
        Some((c as u32 - '0' as u32) as u8)
    } else {
        None
    }
}

/// A run of digits stands for at least as much as any run it begins with.
pub proof fn lemma_decimal_value_grows(s: Seq<char>, k: int)
    requires
        0 <= k <= s.len(),
        all_digits(s),
    ensures
        decimal_value(s.take(k)) <= decimal_value(s),
    decreases s.len() - k,
{
    if k == s.len() {
        assert(s.take(k) =~= s);
    } else {
        assert(all_digits(s.drop_last())) by {
            assert forall|i: int| 0 <= i < s.drop_last().len() implies is_digit(
                #[trigger] s.drop_last()[i],
            ) by {
                assert(s.drop_last()[i] == s[i]);
            }
        }
        lemma_decimal_value_grows(s.drop_last(), k);
        assert(s.drop_last().take(k) =~= s.take(k));
        assert(is_digit(s[s.len() - 1]));
    }
}

/// The number that the characters from `from` up to `to` read as.
pub fn read_number(chars: &Vec<char>, from: usize, to: usize) -> (number: Option<u8>)
    requires
        from <= to <= chars.len(),
    ensures
        number == parse_number(chars@.subrange(from as int, to as int)),
{
    let ghost digits = chars@.subrange(from as int, to as int);
    if from == to {
        return None;
    }
    let mut i: usize = from;
    let mut value: u16 = 0;
    while i < to
        invariant
            from <= i <= to <= chars.len(),
            digits == chars@.subrange(from as int, to as int),
            all_digits(digits.take(i - from)),
            value == decimal_value(digits.take(i - from)),
            value <= 255,
        decreases to - i,
    {
        let ghost before = digits.take(i - from);
        let ghost now = digits.take(i + 1 - from);
        assert(now.drop_last() =~= before);
        assert(now.last() == chars[i as int]);
        match digit_of(chars[i]) {
            None => {
                assert(!is_digit(digits[i - from]));
                return None;
            },
            Some(d) => {
                value = value * 10 + d as u16;
                assert(all_digits(now)) by {
                    assert forall|j: int| 0 <= j < now.len() implies is_digit(#[trigger] now[j]) by {
                        if j < now.len() - 1 {
                            assert(now[j] == before[j]);
                        }
                    }
                }
                assert(value == decimal_value(now));
                if value > 255 {
                    proof {
                        if all_digits(digits) {
                            lemma_decimal_value_grows(digits, i + 1 - from);
                        }
                    }
                    return None;
                }
            },
        }
        i = i + 1;
    }
    assert(digits.take(i - from) =~= digits);
    Some(value as u8)
}

/// `first_index` is the place before which the character does not stand and
/// at which it does, or the end.
pub proof fn lemma_first_index(s: Seq<char>, c: char, k: int)
    requires
        0 <= k <= s.len(),
        forall|j: int| 0 <= j < k ==> s[j] != c,
        k == s.len() || s[k] == c,
    ensures
        first_index(s, c) == k,
    decreases k,
{
    if k > 0 {
        lemma_first_index(s.skip(1), c, k - 1);
    }
}

/// The place of the first `c` among the characters from `from` up to `to`, or
/// `to` where there is none.
pub fn find_char(chars: &Vec<char>, from: usize, to: usize, c: char) -> (at: usize)
    requires
        from <= to <= chars.len(),
    ensures
        from <= at <= to,
        at - from == first_index(chars@.subrange(from as int, to as int), c),
{
    let mut at: usize = from;
    while at < to && chars[at] != c
        invariant
            from <= at <= to <= chars.len(),
            forall|j: int| from <= j < at ==> chars[j] != c,
        decreases to - at,
    {
        at = at + 1;
    }
    proof {
        lemma_first_index(chars@.subrange(from as int, to as int), c, at - from);
    }
    at
}

/// Whether `mark` stands in `hay` at `at`.
fn stands_at(hay: &Vec<char>, at: usize, mark: &Vec<char>) -> (r: bool)
    requires
        at <= hay.len(),
    ensures
        r == mark@.is_prefix_of(hay@.skip(at as int)),
{
    if mark.len() > hay.len() - at {
        return false;
    }
    let mut i: usize = 0;
    while i < mark.len()
        invariant
            i <= mark.len() <= hay.len() - at,
            forall|j: int| 0 <= j < i ==> mark[j] == hay[at + j],
        decreases mark.len() - i,
    {
        if mark[i] != hay[at + i] {
            assert(hay@.skip(at as int).subrange(0, mark.len() as int)[i as int] != mark[i as int]);
            return false;
        }
        i = i + 1;
    }
    assert(mark@ =~= hay@.skip(at as int).subrange(0, mark.len() as int));
    true
}

/// Where `p` stands nowhere before `k`, it first occurs where it first occurs
/// from `k` on.
pub proof fn lemma_find_from(s: Seq<char>, p: Seq<char>, k: int)
    requires
        0 <= k <= s.len(),
        forall|j: int| 0 <= j < k ==> !p.is_prefix_of(#[trigger] s.skip(j)),
    ensures
        find(s, p) == match find(s.skip(k), p) {
            Some(at) => Some(at + k),
            None => None,
        },
    decreases k,
{
    if k == 0 {
        assert(s.skip(0) =~= s);
    } else {
        assert(s.skip(0) =~= s);
        assert(!p.is_prefix_of(s));
        assert forall|j: int| 0 <= j < k - 1 implies !p.is_prefix_of(#[trigger] s.skip(1).skip(j)) by {
            assert(s.skip(1).skip(j) =~= s.skip(j + 1));
        }
        lemma_find_from(s.skip(1), p, k - 1);
        assert(s.skip(1).skip(k - 1) =~= s.skip(k));
    }
}

/// Where `mark` first occurs in `hay`, if it does.
pub fn find_mark(hay: &Vec<char>, mark: &Vec<char>) -> (at: Option<usize>)
    ensures
        match at {
            Some(i) => find(hay@, mark@) == Some(i as int) && i + mark.len() <= hay.len(),
            None => find(hay@, mark@) is None,
        },
{
    let mut i: usize = 0;
    while i < hay.len()
        invariant
            i <= hay.len(),
            forall|j: int| 0 <= j < i ==> !mark@.is_prefix_of(#[trigger] hay@.skip(j)),
        decreases hay.len() - i,
    {
        if stands_at(hay, i, mark) {
            proof {
                lemma_find_from(hay@, mark@, i as int);
            }
            return Some(i);
        }
        i = i + 1;
    }
    proof {
        lemma_find_from(hay@, mark@, i as int);
    }
    if stands_at(hay, i, mark) {
        Some(i)
    } else {
        None
    }
}

} // verus!

verus! {

/// The numbers before and behind the mark of length `mark_len` that stands
/// at `at` in `input`.
fn read_around(input: &Vec<char>, at: usize, mark_len: usize) -> (r: Option<(u8, u8)>)
    requires
        at + mark_len <= input.len(),
    ensures
        r == match (parse_number(input@.take(at as int)), parse_number(input@.skip(at + mark_len))) {
            (Some(number), Some(release)) => Some((number, release)),
            _ => None,
        },
{
    assert(input@.take(at as int) =~= input@.subrange(0, at as int));
    assert(input@.skip(at + mark_len) =~= input@.subrange(at + mark_len, input.len() as int));
    match read_number(input, 0, at) {
        None => None,
        Some(number) => match read_number(input, at + mark_len, input.len()) {
            None => None,
            Some(release) => Some((number, release)),
        },
    }
}

/// The characters from `from` on, with a `0` before them where they do not
/// begin with a digit.
fn last_piece(chars: &Vec<char>, from: usize) -> (input: Vec<char>)
    requires
        from <= chars.len(),
    ensures
        input@ == with_leading_number(chars@.skip(from as int)),
{
    let mut input: Vec<char> = Vec::new();
    if !(from < chars.len() && digit_of(chars[from]).is_some()) {
        input.push('0');
    }
    let ghost head = input@;
    let mut i: usize = from;
    while i < chars.len()
        invariant
            from <= i <= chars.len(),
            input@ == head + chars@.subrange(from as int, i as int),
        decreases chars.len() - i,
    {
        input.push(chars[i]);
        assert(chars@.subrange(from as int, i as int).push(chars[i as int]) =~= chars@.subrange(
            from as int,
            i + 1,
        ));
        i = i + 1;
    }
    assert(chars@.subrange(from as int, i as int) =~= chars@.skip(from as int));
    assert(input@ =~= with_leading_number(chars@.skip(from as int)));
    input
}

/// What the characters from `from` on read as the last piece of a version.
pub fn read_last(chars: &Vec<char>, from: usize) -> (r: Option<(u8, Stage)>)
    requires
        from <= chars.len(),
    ensures
        r == parse_last(chars@.skip(from as int)),
{
    assert(chars@.skip(from as int) =~= chars@.subrange(from as int, chars.len() as int));
    // A piece that is a number all through belongs to a final release.
    if let Some(number) = read_number(chars, from, chars.len()) {
        return Some((number, Stage::GA));
    }
    let input = last_piece(chars, from);
    let rc: Vec<char> = vec!['r', 'c'];
    let b: Vec<char> = vec!['b'];
    let a: Vec<char> = vec!['a'];
    let dev: Vec<char> = vec!['d', 'e', 'v'];
    assert(rc@ =~= rc_mark() && b@ =~= b_mark() && a@ =~= a_mark() && dev@ =~= dev_mark());
    if let Some(at) = find_mark(&input, &rc) {
        match read_around(&input, at, rc.len()) {
            Some((number, release)) => Some((number, Stage::RC(release))),
            None => None,
        }
    } else if let Some(at) = find_mark(&input, &b) {
        match read_around(&input, at, b.len()) {
            Some((number, release)) => Some((number, Stage::B(release))),
            None => None,
        }
    } else if let Some(at) = find_mark(&input, &a) {
        match read_around(&input, at, a.len()) {
            Some((number, release)) => Some((number, Stage::A(release))),
            None => None,
        }
    } else if let Some(at) = find_mark(&input, &dev) {
        match read_around(&input, at, dev.len()) {
            Some((number, release)) => Some((number, Stage::Dev(release))),
            None => None,
        }
    } else {
        None
    }
}

/// A string has at least one piece.
pub proof fn lemma_split_len(s: Seq<char>, sep: char)
    ensures
        split(s, sep).len() >= 1,
    decreases s.len(),
{
    let at = first_index(s, sep);
    if at < s.len() {
        lemma_split_len(s.skip(at as int + 1), sep);
    }
}

/// What the characters read as a version, if they are one.
pub fn read_version(chars: &Vec<char>) -> (r: Option<Version>)
    ensures
        match r {
            Some(v) => parse_version(chars@) == Some(v@),
            None => parse_version(chars@) is None,
        },
{
    let mut numbers: Vec<u8> = Vec::new();
    let mut start: usize = 0;
    let ghost mut done: Seq<Seq<char>> = Seq::empty();
    assert(chars@.skip(0) =~= chars@);
    loop
        invariant
            start <= chars.len(),
            split(chars@, '.') == done + split(chars@.skip(start as int), '.'),
            all_numbers(done),
            numbers@ == numbers_of(done),
        ensures
            first_index(chars@.skip(start as int), '.') == chars@.skip(start as int).len(),
        decreases chars.len() - start,
    {
        let ghost rest = chars@.skip(start as int);
        assert(rest =~= chars@.subrange(start as int, chars.len() as int));
        let dot: usize = find_char(chars, start, chars.len(), '.');
        if dot == chars.len() {
            break ;
        }
        let ghost piece = rest.take(dot - start);
        let ghost after = rest.skip(dot - start + 1);
        assert(piece =~= chars@.subrange(start as int, dot as int));
        assert(after =~= chars@.skip(dot + 1));
        assert(split(rest, '.') == seq![piece] + split(after, '.'));
        proof {
            lemma_split_len(after, '.');
        }
        let ghost pieces = split(chars@, '.');
        assert(pieces =~= done.push(piece) + split(after, '.'));
        match read_number(chars, start, dot) {
            None => {
                assert(pieces.drop_last()[done.len() as int] == piece);
                return None;
            },
            Some(number) => {
                numbers.push(number);
                proof {
                    assert(numbers_of(done.push(piece)) =~= numbers_of(done).push(number));
                    done = done.push(piece);
                }
            },
        }
        start = dot + 1;
    }
    let ghost last = chars@.skip(start as int);
    assert(last =~= chars@.subrange(start as int, chars.len() as int));
    assert(split(last, '.') == seq![last]);
    assert(split(chars@, '.') =~= done.push(last));
    assert(split(chars@, '.').drop_last() =~= done);
    match read_last(chars, start) {
        None => None,
        Some((number, stage)) => {
            numbers.push(number);
            Some(Version { numbers, stage })
        },
    }
}

} // verus!
