use track_extract::geometry::{Point, Rectangle};
use track_extract::parse::find_track_number;
use track_extract::text::{is_number, RecognizedLine};

fn line(text: &str) -> RecognizedLine {
    RecognizedLine { text: String::from(text), words: vec![] }
}

fn line_with_words(text: &str, words: Vec<Rectangle>) -> RecognizedLine {
    RecognizedLine { text: String::from(text), words }
}

fn rect(x1: usize, y1: usize, x2: usize, y2: usize) -> Rectangle {
    Rectangle {
        top_left: Point { x: x1, y: y1 },
        bottom_right: Point { x: x2, y: y2 },
    }
}

#[test]
fn keyword_line_matches() {
    let lines = vec![line("Sendungsnummer: 12345678901234")];
    let m = find_track_number(&lines).unwrap();
    assert_eq!(m.track_number, "12345678901234");
    assert!(m.rect.is_none());
}

#[test]
fn match_reports_first_word_rect() {
    let lines = vec![line_with_words(
        "Sendungsnummer: 12345678901234",
        vec![rect(1, 2, 3, 4), rect(5, 6, 7, 8)],
    )];
    let m = find_track_number(&lines).unwrap();
    assert_eq!(m.track_number, "12345678901234");
    assert_eq!(m.rect, Some(rect(1, 2, 3, 4)));
}

#[test]
fn continuation_line_matches() {
    let lines = vec![
        line("Sendungsnummer 12345678901234"),
        line_with_words("12345678901234", vec![rect(9, 9, 10, 10)]),
    ];
    let m = find_track_number(&lines).unwrap();
    assert_eq!(m.track_number, "12345678901234");
    assert_eq!(m.rect, Some(rect(9, 9, 10, 10)));
}

#[test]
fn wrong_length_aborts_scanning() {
    let lines = vec![
        line("Sendungsnummer: 1234"),
        line("Sendungsnummer: 12345678901234"),
    ];
    assert!(find_track_number(&lines).is_none());
}

#[test]
fn continuation_not_numeric_no_match() {
    let lines = vec![
        line("Sendungsnummer 12345678901234"),
        line("abcdefghijk"),
        line("Sendungsnummer: 12345678901234"),
    ];
    assert!(find_track_number(&lines).is_none());
}

#[test]
fn continuation_accepts_any_numeric_length() {
    let lines = vec![line("Sendungsnummer xyzw"), line("123456789")];
    let m = find_track_number(&lines).unwrap();
    assert_eq!(m.track_number, "123456789");
}

#[test]
fn short_lines_are_skipped() {
    let lines = vec![line("1234567"), line("Sendungsnummer: 12345678901234")];
    let m = find_track_number(&lines).unwrap();
    assert_eq!(m.track_number, "12345678901234");
}

#[test]
fn short_line_skipped_while_awaiting() {
    let lines = vec![
        line("Sendungsnummer abc"),
        line("1234567"),
        line("12345678901234"),
    ];
    let m = find_track_number(&lines).unwrap();
    assert_eq!(m.track_number, "12345678901234");
}

#[test]
fn empty_tokens_are_discarded() {
    let lines = vec![line("Sendungsnummer::12345678901234")];
    let m = find_track_number(&lines).unwrap();
    assert_eq!(m.track_number, "12345678901234");
}

#[test]
fn three_tokens_go_to_continuation() {
    let lines = vec![line("Sendungsnummer:123:456"), line("12345678901234")];
    let m = find_track_number(&lines).unwrap();
    assert_eq!(m.track_number, "12345678901234");
}

#[test]
fn value_is_trimmed() {
    let lines = vec![line("Sendungsnummer:   12345678901234   ")];
    let m = find_track_number(&lines).unwrap();
    assert_eq!(m.track_number, "12345678901234");
}

#[test]
fn non_digit_fourteen_goes_to_continuation() {
    let lines = vec![line("Sendungsnummer: 1234567890123X"), line("12345678901234")];
    let m = find_track_number(&lines).unwrap();
    assert_eq!(m.track_number, "12345678901234");
}

#[test]
fn no_keyword_no_match() {
    let lines = vec![line("hello world line"), line("12345678901234")];
    assert!(find_track_number(&lines).is_none());
}

#[test]
fn no_lines_no_match() {
    let lines: Vec<RecognizedLine> = vec![];
    assert!(find_track_number(&lines).is_none());
}

#[test]
fn is_number_accepts_only_decimal_digits() {
    assert!(is_number("12345678901234"));
    assert!(is_number("0"));
    assert!(!is_number(""));
    assert!(!is_number("123a"));
    assert!(!is_number(" 123"));
    assert!(!is_number("12.3"));
    assert!(!is_number("-123"));
}
