use releasible::ansible::order::compare_numbers;
use releasible::ansible::order::trimmed_len;
use releasible::ansible::parse::chars_of;
use releasible::ansible::parse::digit_of;
use releasible::ansible::parse::find_char;
use releasible::ansible::parse::find_mark;
use releasible::ansible::parse::read_last;
use releasible::ansible::parse::read_number;
use releasible::ansible::parse::read_version;
use releasible::ansible::write::write_number;
use releasible::ansible::write::write_numbers;
use releasible::ansible::write::write_stage;
use releasible::ansible::Stage;

fn chars(text: &str) -> Vec<char> {
    text.chars().collect()
}

fn number(text: &str) -> Option<u8> {
    let c = chars(text);
    read_number(&c, 0, c.len())
}

#[test]
fn chars_of_a_string() {
    assert_eq!(chars_of(""), Vec::<char>::new());
    assert_eq!(chars_of("2.7"), vec!['2', '.', '7']);
    assert_eq!(chars_of("a\u{e9}\u{ff13}z"), vec!['a', '\u{e9}', '\u{ff13}', 'z']);
}

#[test]
fn digits() {
    assert_eq!(digit_of('0'), Some(0));
    assert_eq!(digit_of('5'), Some(5));
    assert_eq!(digit_of('9'), Some(9));
    assert_eq!(digit_of('/'), None);
    assert_eq!(digit_of(':'), None);
    assert_eq!(digit_of('a'), None);
    assert_eq!(digit_of('+'), None);
    assert_eq!(digit_of('\u{0663}'), None);
}

#[test]
fn numbers_are_digits_up_to_255() {
    for text in [
        "0", "7", "10", "99", "100", "255", "256", "260", "300", "1000", "007", "0255", "0256",
        "", "-", "-0", "-1", "1 ", " 1", "1a", "a", "0x10", "1_0", "1.0", "\u{0663}",
        "1\u{0663}", "00000000000000000000000000000001", "4294967296", "18446744073709551616",
    ] {
        assert_eq!(number(text), text.parse::<u8>().ok(), "{:?}", text);
    }
    for n in 0..=255u8 {
        assert_eq!(number(&n.to_string()), Some(n));
        assert_eq!(number(&format!("00{}", n)), Some(n));
    }
    // A sign is no part of a number.
    for text in ["+0", "+7", "+255", "+256", "+", "++1", "+-1", "1+", "-+1"] {
        assert_eq!(number(text), None, "{:?}", text);
    }
}

#[test]
fn numbers_in_the_middle() {
    let c = chars("2.10.3rc1");
    assert_eq!(read_number(&c, 0, 1), Some(2));
    assert_eq!(read_number(&c, 2, 4), Some(10));
    assert_eq!(read_number(&c, 5, 6), Some(3));
    assert_eq!(read_number(&c, 8, 9), Some(1));
    assert_eq!(read_number(&c, 5, 9), None);
    assert_eq!(read_number(&c, 1, 4), None);
    assert_eq!(read_number(&c, 3, 3), None);
    assert_eq!(read_number(&c, 9, 9), None);
}

#[test]
fn first_dot() {
    let c = chars("2.10.3");
    assert_eq!(find_char(&c, 0, c.len(), '.'), 1);
    assert_eq!(find_char(&c, 1, c.len(), '.'), 1);
    assert_eq!(find_char(&c, 2, c.len(), '.'), 4);
    assert_eq!(find_char(&c, 5, c.len(), '.'), 6);
    assert_eq!(find_char(&c, 6, c.len(), '.'), 6);
    assert_eq!(find_char(&c, 2, 4, '.'), 4);
    assert_eq!(find_char(&c, 0, c.len(), 'x'), 6);
}

#[test]
fn first_mark() {
    let find = |hay: &str, mark: &str| find_mark(&chars(hay), &chars(mark));
    assert_eq!(find("3rc1", "rc"), Some(1));
    assert_eq!(find("3rc1rc2", "rc"), Some(1));
    assert_eq!(find("rc", "rc"), Some(0));
    assert_eq!(find("3rrc1", "rc"), Some(2));
    assert_eq!(find("3r1c", "rc"), None);
    assert_eq!(find("3cr1", "rc"), None);
    assert_eq!(find("10dev2", "dev"), Some(2));
    assert_eq!(find("10de", "dev"), None);
    assert_eq!(find("", "a"), None);
    assert_eq!(find("a", "a"), Some(0));
    assert_eq!(find("bbba", "a"), Some(3));
    assert_eq!(find("abc", ""), Some(0));
    assert_eq!(find("", ""), Some(0));
    for (hay, mark) in [("3rc1", "rc"), ("aaab", "ab"), ("abab", "ba"), ("xyz", "q"), ("dev", "dev")] {
        assert_eq!(find(hay, mark), hay.find(mark));
    }
}

#[test]
fn last_pieces() {
    let last = |text: &str| read_last(&chars(text), 0);
    assert_eq!(last("3"), Some((3, Stage::GA)));
    assert_eq!(last("3rc1"), Some((3, Stage::RC(1))));
    assert_eq!(last("3b2"), Some((3, Stage::B(2))));
    assert_eq!(last("3a4"), Some((3, Stage::A(4))));
    assert_eq!(last("3dev5"), Some((3, Stage::Dev(5))));
    assert_eq!(last("dev5"), Some((0, Stage::Dev(5))));
    assert_eq!(last("rc5"), Some((0, Stage::RC(5))));
    assert_eq!(last(""), None);
    assert_eq!(last("3rc"), None);
    assert_eq!(last("3rc1rc"), None);
    assert_eq!(last("3rc1rc2"), None);
    assert_eq!(last("3rcrc1"), None);
    assert_eq!(last("3x1"), None);
    assert_eq!(last("+3rc1"), None);
    assert_eq!(last("+3"), None);
    assert_eq!(last("3rc+1"), None);
    let c = chars("2.10.3b7");
    assert_eq!(read_last(&c, 5), Some((3, Stage::B(7))));
    assert_eq!(read_last(&c, 6), Some((0, Stage::B(7))));
    assert_eq!(read_last(&c, 7), Some((7, Stage::GA)));
    assert_eq!(read_last(&c, 8), None);
    assert_eq!(read_last(&c, 0), None);
}

#[test]
fn versions_from_characters() {
    let v = read_version(&chars("2.10.3rc1")).unwrap();
    assert_eq!(v.numbers, vec![2, 10, 3]);
    assert_eq!(v.stage, Stage::RC(1));
    assert!(read_version(&chars("2.10.3rc")).is_none());
    assert!(read_version(&chars("")).is_none());
}

#[test]
fn trailing_zeros() {
    assert_eq!(trimmed_len(&vec![]), 0);
    assert_eq!(trimmed_len(&vec![0]), 0);
    assert_eq!(trimmed_len(&vec![0, 0, 0]), 0);
    assert_eq!(trimmed_len(&vec![2, 7, 0]), 2);
    assert_eq!(trimmed_len(&vec![2, 7, 0, 0]), 2);
    assert_eq!(trimmed_len(&vec![2, 0, 7]), 3);
    assert_eq!(trimmed_len(&vec![0, 0, 1, 0]), 3);
}

#[test]
fn numbers_compare() {
    assert_eq!(compare_numbers(&vec![2, 12, 0], &vec![2, 11, 99]), 1);
    assert_eq!(compare_numbers(&vec![2, 11, 99], &vec![2, 12, 0]), -1);
    assert_eq!(compare_numbers(&vec![2, 7, 0], &vec![2, 7, 0, 0]), 0);
    assert_eq!(compare_numbers(&vec![2, 7], &vec![2, 7, 1]), -1);
    assert_eq!(compare_numbers(&vec![2, 7, 0, 1], &vec![2, 7]), 1);
    assert_eq!(compare_numbers(&vec![], &vec![0, 0]), 0);
    assert_eq!(compare_numbers(&vec![], &vec![0, 1]), -1);
    assert_eq!(compare_numbers(&vec![1], &vec![]), 1);
    assert_eq!(compare_numbers(&vec![3], &vec![2, 255, 255]), 1);
}

#[test]
fn writing_appends() {
    let mut out = String::from("v");
    write_number(&mut out, 7);
    assert_eq!(out, "v7");
    write_number(&mut out, 42);
    assert_eq!(out, "v742");
    write_number(&mut out, 205);
    assert_eq!(out, "v742205");
    write_number(&mut out, 0);
    assert_eq!(out, "v7422050");
    write_number(&mut out, 100);
    assert_eq!(out, "v7422050100");
    write_stage(&mut out, Stage::GA);
    assert_eq!(out, "v7422050100");
    write_stage(&mut out, Stage::Dev(10));
    assert_eq!(out, "v7422050100dev10");
    let mut out = String::from(">");
    write_numbers(&mut out, &vec![]);
    assert_eq!(out, ">");
    write_numbers(&mut out, &vec![9]);
    assert_eq!(out, ">9");
    write_numbers(&mut out, &vec![2, 10, 0]);
    assert_eq!(out, ">92.10.0");
}
