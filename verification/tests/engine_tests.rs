use sp::highlight::highlight_capture;
use sp::matching::{search_regex, Match, Pattern, PatternError};
use sp::process::{process_line, process_lines};

const DECO_ON: &str = "\u{1b}[38;2;112;110;255m";
const DECO_OFF: &str = "\u{1b}[39m";

fn pattern(src: &str) -> Pattern {
    Pattern::new(src).expect("pattern should compile")
}

fn utf8(bytes: Vec<u8>) -> String {
    String::from_utf8(bytes).expect("output should be valid text")
}

fn strip_decoration(rendered: &str) -> String {
    rendered.replace(DECO_ON, "").replace(DECO_OFF, "")
}

#[test]
fn highlights_single_match() {
    let p = pattern("test");
    let out = process_line("This is a test", &p, false).expect("line should be kept");
    let expected = format!("This is a {}test{}", DECO_ON, DECO_OFF);
    assert_eq!(utf8(out), expected);
}

#[test]
fn filter_mode_keeps_only_matching_lines() {
    let p = pattern("test");
    let lines = vec![
        "first test".to_string(),
        "second nothing".to_string(),
        "third test".to_string(),
    ];
    let out = process_lines(&lines, &p, true);
    let rendered: Vec<String> = out.into_iter().map(utf8).collect();
    let expected = vec![
        format!("first {}test{}", DECO_ON, DECO_OFF),
        format!("third {}test{}", DECO_ON, DECO_OFF),
    ];
    assert_eq!(rendered, expected);
}

#[test]
fn finds_two_matches_at_expected_offsets() {
    let p = pattern("test");
    let line = "test, with a lot of testing";
    let captures = search_regex(line, &p);
    assert_eq!(captures.len(), 2);
    assert_eq!(captures[0].start, 0);
    assert_eq!(captures[0].end, 4);
    assert_eq!(captures[1].start, 20);
    assert_eq!(captures[1].end, 24);
    assert_eq!(captures[0].text, b"test".to_vec());
    assert_eq!(captures[1].text, b"test".to_vec());
}

#[test]
fn empty_input_yields_no_output_lines() {
    let p = pattern("test");
    let out = process_lines(&Vec::new(), &p, false);
    assert!(out.is_empty());
    let out = process_lines(&Vec::new(), &p, true);
    assert!(out.is_empty());
}

#[test]
fn unterminated_class_is_an_invalid_pattern() {
    assert!(matches!(Pattern::new("["), Err(PatternError::InvalidPattern)));
    assert!(Pattern::new("[").is_err());
}

#[test]
fn no_match_line_passes_through_unchanged() {
    let p = pattern("absent");
    let out = process_line("nothing here", &p, false).expect("line should be kept");
    assert_eq!(utf8(out), "nothing here");
}

#[test]
fn no_match_line_is_suppressed_in_filter_mode() {
    let p = pattern("absent");
    assert_eq!(process_line("nothing here", &p, true), None);
}

#[test]
fn render_of_empty_match_set_is_identity_or_nothing() {
    let no_matches: Vec<Match> = Vec::new();
    assert_eq!(highlight_capture(b"some line", &no_matches, true), None);
    assert_eq!(highlight_capture(b"some line", &no_matches, false), Some(b"some line".to_vec()));
}

#[test]
fn render_with_matches_is_some_in_filter_mode() {
    let p = pattern("line");
    let captures = search_regex("some line", &p);
    assert!(captures.len() > 0);
    let out = highlight_capture(b"some line", &captures, true).expect("line should be kept");
    assert_eq!(utf8(out), format!("some {}line{}", DECO_ON, DECO_OFF));
}

#[test]
fn stripping_decoration_restores_the_line() {
    let p = pattern("t[ae]st");
    for line in ["a test and a tast", "tast", "no hit at all", "", "t\u{e9}st t\u{e9}st"] {
        let out = process_line(line, &p, false).expect("line should be kept");
        assert_eq!(strip_decoration(&utf8(out)), line);
    }
}

#[test]
fn multibyte_text_keeps_byte_offsets() {
    let p = pattern("t\u{e9}st");
    let line = "h\u{e9}llo t\u{e9}st";
    let captures = search_regex(line, &p);
    assert_eq!(captures.len(), 1);
    assert_eq!(captures[0].start, 7);
    assert_eq!(captures[0].end, 12);
    assert_eq!(captures[0].text, "t\u{e9}st".as_bytes().to_vec());
}

#[test]
fn scan_yields_ordered_non_overlapping_spans() {
    let p = pattern("aa?");
    let captures = search_regex("aaa b aa", &p);
    assert!(captures.len() > 1);
    for w in captures.windows(2) {
        assert!(w[0].end <= w[1].start);
        assert!(w[0].start < w[1].start);
    }
    for m in &captures {
        assert!(m.start <= m.end);
        assert!(m.end <= "aaa b aa".len());
    }
}

#[test]
fn adjacent_matches_are_all_found() {
    let p = pattern("ab");
    let captures = search_regex("ababab", &p);
    assert_eq!(captures.len(), 3);
    assert_eq!((captures[0].start, captures[0].end), (0, 2));
    assert_eq!((captures[1].start, captures[1].end), (2, 4));
    assert_eq!((captures[2].start, captures[2].end), (4, 6));
}

#[test]
fn adjacent_matches_render_back_to_back() {
    let p = pattern("ab");
    let out = process_line("ababab", &p, false).expect("line should be kept");
    let one = format!("{}ab{}", DECO_ON, DECO_OFF);
    assert_eq!(utf8(out), format!("{}{}{}", one, one, one));
}

#[test]
fn match_at_line_start_renders_without_leading_gap() {
    let p = pattern("test");
    let out = process_line("test, with a lot of testing", &p, false).expect("line should be kept");
    let expected = format!("{}test{}, with a lot of {}test{}ing", DECO_ON, DECO_OFF, DECO_ON, DECO_OFF);
    assert_eq!(utf8(out), expected);
}

#[test]
fn sequential_processing_keeps_input_order() {
    let p = pattern("x");
    let lines = vec!["c x".to_string(), "a x".to_string(), "b x".to_string()];
    let out = process_lines(&lines, &p, false);
    let rendered: Vec<String> = out.into_iter().map(|b| strip_decoration(&utf8(b))).collect();
    assert_eq!(rendered, lines);
}
