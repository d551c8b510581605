use alias_launcher::session::{parent_pid, second_word_of};
use alias_launcher::text::{chars_of, copy_range, is_digit, is_whitespace, parse_u32, starts_with};

fn chars(s: &str) -> Vec<char> {
    s.chars().collect()
}

const STATUS: &str = "Name:\tbash\nUmask:\t0022\nState:\tS (sleeping)\nTgid:\t4321\nNgid:\t0\nPid:\t4321\nPPid:\t1234\nTracerPid:\t0\nUid:\t1000\t1000\t1000\t1000\n";

#[test]
fn parent_pid_of_a_status_text() {
    assert_eq!(parent_pid(STATUS), Some(1234));
}

#[test]
fn parent_pid_without_the_line_is_none() {
    assert_eq!(parent_pid("Name:\tbash\nPid:\t4321\n"), None);
    assert_eq!(parent_pid(""), None);
    assert_eq!(parent_pid("\n\n"), None);
}

#[test]
fn parent_pid_line_may_be_first_or_last() {
    assert_eq!(parent_pid("PPid:\t7\nName:\tx\n"), Some(7));
    assert_eq!(parent_pid("Name:\tx\nPPid: 8"), Some(8));
    assert_eq!(parent_pid("PPid: 9"), Some(9));
}

#[test]
fn parent_pid_reads_the_first_such_line_only() {
    assert_eq!(parent_pid("PPid:\t11\nPPid:\t22\n"), Some(11));
    assert_eq!(parent_pid("PPid:\tnone\nPPid:\t22\n"), None);
    assert_eq!(parent_pid("PPid:\nPPid:\t22\n"), None);
}

#[test]
fn parent_pid_tag_must_begin_the_line() {
    assert_eq!(parent_pid("Name:\tPPid: 5\n"), None);
    assert_eq!(parent_pid(" PPid:\t5\n"), None);
    assert_eq!(parent_pid("Name:\tPPid: 5\nPPid:\t6\n"), Some(6));
}

#[test]
fn parent_pid_needs_white_space_behind_the_tag() {
    assert_eq!(parent_pid("PPid:77\n"), None);
    assert_eq!(parent_pid("PPid:77 88\n"), Some(88));
}

#[test]
fn parent_pid_takes_the_second_word() {
    assert_eq!(parent_pid("PPid:   \t 31   32\n"), Some(31));
    assert_eq!(parent_pid("PPid:\u{a0}33\n"), Some(33));
}

#[test]
fn parent_pid_with_carriage_returns() {
    assert_eq!(parent_pid("Name:\tx\r\nPPid:\t55\r\nPid:\t1\r\n"), Some(55));
}

#[test]
fn parent_pid_number_must_fit() {
    assert_eq!(parent_pid("PPid:\t4294967295\n"), Some(u32::MAX));
    assert_eq!(parent_pid("PPid:\t4294967296\n"), None);
    assert_eq!(parent_pid("PPid:\t99999999999999999999999\n"), None);
    assert_eq!(parent_pid("PPid:\t-1\n"), None);
    assert_eq!(parent_pid("PPid:\t12a\n"), None);
    assert_eq!(parent_pid("PPid:\t+12\n"), Some(12));
    assert_eq!(parent_pid("PPid:\t0\n"), Some(0));
}

#[test]
fn parent_pid_agrees_with_the_line_by_line_reading() {
    let texts = [
        STATUS,
        "PPid:\t1\n",
        "a\nb\nPPid: 3 4\n",
        "PPid:x\nPPid: 3\n",
        "x\r\nPPid:\t+9\r\n",
        "PPid: 007",
        "no such line",
    ];
    for text in texts {
        let mut expected = None;
        for line in text.lines() {
            if line.starts_with("PPid:") {
                expected = line.split_whitespace().nth(1).and_then(|w| w.parse::<u32>().ok());
                break;
            }
        }
        assert_eq!(parent_pid(text), expected);
    }
}

#[test]
fn second_word_of_a_line() {
    assert_eq!(second_word_of(&chars("PPid:\t1234")), Some(chars("1234")));
    assert_eq!(second_word_of(&chars("  a   bc  d ")), Some(chars("bc")));
    assert_eq!(second_word_of(&chars("a b")), Some(chars("b")));
}

#[test]
fn second_word_of_a_line_with_fewer_words() {
    assert_eq!(second_word_of(&chars("")), None);
    assert_eq!(second_word_of(&chars("   ")), None);
    assert_eq!(second_word_of(&chars("one")), None);
    assert_eq!(second_word_of(&chars("  one  ")), None);
}

#[test]
fn parse_u32_reads_what_the_standard_parser_reads() {
    let tokens = [
        "", "+", "-", "0", "00", "+0", "-0", "7", "+7", "++7", "42", "0042", "4294967295",
        "4294967296", "+4294967295", "42949672950", "1e3", "12 ", " 12", "1_000", "0x10",
        "٣", "12345678901234567890",
    ];
    for token in tokens {
        assert_eq!(parse_u32(&chars(token)), token.parse::<u32>().ok());
    }
}

#[test]
fn parse_u32_exact_values() {
    assert_eq!(parse_u32(&chars("1234")), Some(1234));
    assert_eq!(parse_u32(&chars("+56")), Some(56));
    assert_eq!(parse_u32(&chars("4294967295")), Some(4294967295));
    assert_eq!(parse_u32(&chars("4294967296")), None);
    assert_eq!(parse_u32(&chars("")), None);
    assert_eq!(parse_u32(&chars("+")), None);
}

#[test]
fn is_whitespace_is_the_unicode_property() {
    for code in 0..=0x10FFFFu32 {
        if let Some(c) = char::from_u32(code) {
            assert_eq!(is_whitespace(c), c.is_whitespace());
        }
    }
}

#[test]
fn is_digit_is_ascii_digit() {
    for code in 0..=0x10FFFFu32 {
        if let Some(c) = char::from_u32(code) {
            assert_eq!(is_digit(c), c.is_ascii_digit());
        }
    }
}

#[test]
fn chars_of_a_string() {
    assert_eq!(chars_of("añ→b"), vec!['a', 'ñ', '→', 'b']);
    assert_eq!(chars_of(""), Vec::<char>::new());
}

#[test]
fn copy_range_of_characters() {
    let text = chars("abcdef");
    assert_eq!(copy_range(&text, 1, 4), chars("bcd"));
    assert_eq!(copy_range(&text, 0, 6), text);
    assert_eq!(copy_range(&text, 3, 3), Vec::<char>::new());
}

#[test]
fn starts_with_a_prefix() {
    assert!(starts_with(&chars("PPid:\t1"), &chars("PPid:")));
    assert!(starts_with(&chars("PPid:"), &chars("PPid:")));
    assert!(starts_with(&chars("abc"), &chars("")));
    assert!(!starts_with(&chars("PPid"), &chars("PPid:")));
    assert!(!starts_with(&chars("Pid:\t1"), &chars("PPid:")));
    assert!(!starts_with(&chars(""), &chars("P")));
}
