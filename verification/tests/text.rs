use carokia::emotion::mood_label;
use carokia::text::{
    chars_of, decimal_chars, find_seq, lines_of, parse_usize, split_on_char, trim_chars,
};
use carokia::types::{BrainError, ObjectKind, Priority, ThreatLevel};

fn s(v: &[char]) -> String {
    v.iter().collect()
}

#[test]
fn trim_and_split() {
    assert_eq!(s(&trim_chars(&chars_of(" \t a b \u{3000}"))), "a b");
    let pieces = split_on_char(&chars_of("a,,b"), ',');
    let texts: Vec<String> = pieces.iter().map(|p| s(p)).collect();
    assert_eq!(texts, vec!["a", "", "b"]);
}

#[test]
fn lines_like_str_lines() {
    for text in ["a\r\nb\n", "a\n\nb", "", "\n", "x\r", "one"] {
        let ls: Vec<String> = lines_of(&chars_of(text)).iter().map(|l| s(l)).collect();
        let expected: Vec<String> = text.lines().map(|l| l.to_string()).collect();
        assert_eq!(ls, expected, "for {:?}", text);
    }
}

#[test]
fn decimal_digits() {
    assert_eq!(s(&decimal_chars(0)), "0");
    assert_eq!(s(&decimal_chars(1280)), "1280");
    assert_eq!(s(&decimal_chars(u64::MAX)), u64::MAX.to_string());
}

#[test]
fn parse_usize_like_str_parse() {
    for text in ["0", "42", "+7", "", "+", "-1", "1a", "007", "18446744073709551615", "18446744073709551616"] {
        let expected = text.parse::<usize>().ok();
        assert_eq!(parse_usize(&chars_of(text)), expected, "for {:?}", text);
    }
}

#[test]
fn find_first_occurrence() {
    assert_eq!(find_seq(&chars_of("abcabc"), &chars_of("ca")), Some(2));
    assert_eq!(find_seq(&chars_of("abc"), &chars_of("x")), None);
    assert_eq!(find_seq(&chars_of("abc"), &chars_of("")), Some(0));
}

#[test]
fn ranks_and_labels() {
    assert_eq!(Priority::Low.rank(), 0);
    assert_eq!(Priority::Critical.rank(), 3);
    assert_eq!(ThreatLevel::Suspicious.rank(), 1);
    assert_eq!(ObjectKind::Obstacle.symbol(), 'O');
    assert_eq!(ObjectKind::Target.symbol(), 'T');
    assert_eq!(ObjectKind::Person { name: None, is_known: false }.symbol(), 'P');
}

#[test]
fn error_descriptions() {
    assert_eq!(
        BrainError::Planner("x".to_string()).describe(),
        "Planner could not decompose goal: x"
    );
    assert_eq!(BrainError::Io("disk".to_string()).describe(), "I/O error: disk");
}

#[test]
fn mood_labels() {
    assert_eq!(mood_label(false, false, false), "neutral");
    assert_eq!(mood_label(true, false, false), "content");
    assert_eq!(mood_label(true, false, true), "excited");
    assert_eq!(mood_label(false, true, false), "melancholy");
    assert_eq!(mood_label(false, true, true), "anxious");
}
