//! Writing a version as text.

use crate::ansible::text::a_mark;
use crate::ansible::text::b_mark;
use crate::ansible::text::dev_mark;
use crate::ansible::text::digit_char;
use crate::ansible::text::display_number;
use crate::ansible::text::display_numbers;
use crate::ansible::text::display_stage;
use crate::ansible::text::rc_mark;
use crate::ansible::version::Stage;
use vstd::prelude::*;
use vstd::string::StringExecFns;

verus! {

/// The decimal digit for a number below ten, as a string of one character.
fn digit_text(d: u8) -> (text: &'static str)
    requires
        d < 10,
    ensures
        text@ == seq![digit_char(d as int)],
{
    proof {
        reveal_strlit("0");
        reveal_strlit("1");
        reveal_strlit("2");
        reveal_strlit("3");
        reveal_strlit("4");
        reveal_strlit("5");
        reveal_strlit("6");
        reveal_strlit("7");
        reveal_strlit("8");
        reveal_strlit("9");
    }
    let text = if d == 0 {
        "0"
    } else if d == 1 {
        "1"
    } else if d == 2 {
        "2"
    } else if d == 3 {
        "3"
    } else if d == 4 {
        "4"
    } else if d == 5 {
        "5"
    } else if d == 6 {
        "6"
    } else if d == 7 {
        "7"
    } else if d == 8 {
        "8"
    } else {
        "9"
    };
    assert(text@ =~= seq![digit_char(d as int)]);
    text
}

/// Writes a number in decimal at the end of `out`.
pub fn write_number(out: &mut String, n: u8)
    ensures
        final(out)@ == old(out)@ + display_number(n),
{
    if n >= 100 {
        out.append(digit_text(n / 100));
    }
    if n >= 10 {
        out.append(digit_text((n / 10) % 10));
    }
    out.append(digit_text(n % 10));
    assert(out@ =~= old(out)@ + display_number(n));
}

/// Writes the mark of a stage and the number of the pre-release at the end of
/// `out`; nothing for a final release.
pub fn write_stage(out: &mut String, stage: Stage)
    ensures
        final(out)@ == old(out)@ + display_stage(stage),
{
    proof {
        reveal_strlit("rc");
        reveal_strlit("b");
        reveal_strlit("a");
        reveal_strlit("dev");
    }
    match stage {
        Stage::GA => {},
        Stage::RC(n) => {
            out.append("rc");
            assert("rc"@ =~= rc_mark());
            write_number(out, n);
        },
        Stage::A(n) => {
            out.append("a");
            assert("a"@ =~= a_mark());
            write_number(out, n);
        },
        Stage::B(n) => {
            out.append("b");
            assert("b"@ =~= b_mark());
            write_number(out, n);
        },
        Stage::Dev(n) => {
            out.append("dev");
            assert("dev"@ =~= dev_mark());
            write_number(out, n);
        },
    }
    assert(out@ =~= old(out)@ + display_stage(stage));
}

/// One more number at the end is written after a `.`, unless it is the first.
pub proof fn lemma_display_numbers_push(numbers: Seq<u8>, n: u8)
    ensures
        display_numbers(numbers.push(n)) == if numbers.len() == 0 {
            display_number(n)
        } else {
            display_numbers(numbers) + seq!['.'] + display_number(n)
        },
    decreases numbers.len(),
{
    let all = numbers.push(n);
    if numbers.len() == 0 {
    } else {
        assert(all.skip(1) =~= numbers.skip(1).push(n));
        lemma_display_numbers_push(numbers.skip(1), n);
        if numbers.len() == 1 {
            assert(display_numbers(numbers.skip(1)) =~= Seq::<char>::empty());
        }
        assert(display_numbers(all) =~= display_numbers(numbers) + seq!['.'] + display_number(n));
    }
}

/// Writes the numbers in decimal, with a `.` between one and the next, at the
/// end of `out`.
pub fn write_numbers(out: &mut String, numbers: &Vec<u8>)
    ensures
        final(out)@ == old(out)@ + display_numbers(numbers@),
{
    let mut i: usize = 0;
    assert(numbers@.take(0) =~= Seq::<u8>::empty());
    assert(out@ =~= old(out)@ + display_numbers(numbers@.take(0)));
    while i < numbers.len()
        invariant
            i <= numbers.len(),
            out@ == old(out)@ + display_numbers(numbers@.take(i as int)),
        decreases numbers.len() - i,
    {
        proof {
            reveal_strlit(".");
            assert("."@ =~= seq!['.']);
            lemma_display_numbers_push(numbers@.take(i as int), numbers[i as int]);
            assert(numbers@.take(i as int).push(numbers[i as int]) =~= numbers@.take(i + 1));
        }
        if i > 0 {
            out.append(".");
        }
        write_number(out, numbers[i]);
        i = i + 1;
        assert(out@ =~= old(out)@ + display_numbers(numbers@.take(i as int)));
    }
    assert(numbers@.take(i as int) =~= numbers@);
}

} // verus!
