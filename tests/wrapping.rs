use ttfwrap::words::{split_words, white_space};
use ttfwrap::{calibrate, wrap_text, Font, GlyphMetrics, TextWrapper, WidthTable, WrapError};

fn table() -> WidthTable {
    WidthTable::new(vec![('0', 10), ('a', 4), ('b', 4), ('c', 4), (' ', 4)])
}

fn wrapper() -> TextWrapper<WidthTable> {
    TextWrapper::new("memory".to_string(), table(), "0".to_string()).unwrap()
}

fn lines(v: &[&str]) -> Vec<String> {
    v.iter().map(|s| s.to_string()).collect()
}

#[test]
fn base_unit_is_reference_advance() {
    let w = wrapper();
    assert_eq!(w.base_unit(), 10);
    assert!(w.base_unit() > 0);
}

#[test]
fn three_words_at_three_characters() {
    let w = wrapper();
    let max_width = (3.0f64 * w.base_unit() as f64).floor() as u32;
    assert_eq!(max_width, 30);
    assert_eq!(w.wrap(max_width, "aa bb cc"), lines(&["aa bb", "cc"]));
}

#[test]
fn two_character_reference_is_invalid() {
    let r = TextWrapper::new("memory".to_string(), table(), "ab".to_string());
    assert!(matches!(r, Err(WrapError::InvalidConfiguration)));
}

#[test]
fn empty_reference_is_invalid() {
    let r = TextWrapper::new("memory".to_string(), table(), String::new());
    assert!(matches!(r, Err(WrapError::InvalidConfiguration)));
}

#[test]
fn combining_sequence_is_one_grapheme() {
    let t = WidthTable::new(vec![('e', 7)]);
    let w = TextWrapper::new("memory".to_string(), t, "e\u{301}".to_string()).unwrap();
    assert_eq!(w.base_unit(), 7);
}

#[test]
fn missing_reference_glyph_is_unsupported() {
    let t = WidthTable::new(vec![('a', 4)]);
    let r = TextWrapper::new("memory".to_string(), t, "0".to_string());
    assert!(matches!(r, Err(WrapError::UnsupportedReferenceCharacter)));
}

#[test]
fn zero_width_reference_is_unsupported() {
    let t = WidthTable::new(vec![('0', 0)]);
    let r = TextWrapper::new("memory".to_string(), t, "0".to_string());
    assert!(matches!(r, Err(WrapError::UnsupportedReferenceCharacter)));
}

#[test]
fn grapheme_count_is_checked_first() {
    let t = WidthTable::new(vec![('0', 10)]);
    let r = TextWrapper::with_grapheme_count("memory".to_string(), t, "0".to_string(), 2);
    assert!(matches!(r, Err(WrapError::InvalidConfiguration)));
    let t = WidthTable::new(vec![('0', 10)]);
    let r = TextWrapper::with_grapheme_count("memory".to_string(), t, "0".to_string(), 1);
    assert_eq!(r.unwrap().base_unit(), 10);
}

#[test]
fn calibrate_reports_each_case() {
    let t = table();
    assert_eq!(calibrate(&t, "0"), Ok(10));
    assert_eq!(calibrate(&t, "a"), Ok(4));
    assert_eq!(calibrate(&t, "z"), Err(WrapError::UnsupportedReferenceCharacter));
    assert_eq!(calibrate(&t, ""), Err(WrapError::InvalidConfiguration));
}

#[test]
fn blank_text_has_no_lines() {
    let w = wrapper();
    assert!(w.wrap(30, "").is_empty());
    assert!(w.wrap(30, "   \t\n  \r\n").is_empty());
    assert!(w.wrap(0, "\u{a0}\u{3000}").is_empty());
}

#[test]
fn fitting_text_is_one_normalized_line() {
    let w = wrapper();
    assert_eq!(w.wrap(1000, "  aa \t bb\n\ncc  "), lines(&["aa bb cc"]));
}

#[test]
fn rewrapping_gives_same_lines() {
    let w = wrapper();
    let text = " aa bbb  c\taaaa b cc  abcabc a ";
    for max in [0u32, 5, 12, 20, 30, 45, 100] {
        let first = w.wrap(max, text);
        let again = w.wrap(max, &first.join(" "));
        assert_eq!(first, again);
    }
}

#[test]
fn wider_lines_never_add_lines() {
    let w = wrapper();
    let text = "aa b ccc aaaa bb c abcabc aa bb cc a b c";
    let mut previous = usize::MAX;
    for max in 0u32..120 {
        let n = w.wrap(max, text).len();
        assert!(n <= previous);
        previous = n;
    }
}

#[test]
fn wide_word_has_its_own_line() {
    let w = wrapper();
    assert_eq!(
        w.wrap(12, "a aaaaaaaaaa b"),
        lines(&["a", "aaaaaaaaaa", "b"])
    );
    assert_eq!(w.wrap(12, "aaaaaaaaaa"), lines(&["aaaaaaaaaa"]));
}

#[test]
fn zero_width_puts_each_word_on_a_line() {
    let w = wrapper();
    assert_eq!(w.wrap(0, "aa b c"), lines(&["aa", "b", "c"]));
}

#[test]
fn exact_fit_stays_on_the_line() {
    let w = wrapper();
    assert_eq!(w.wrap(20, "aa bb"), lines(&["aa bb"]));
    assert_eq!(w.wrap(19, "aa bb"), lines(&["aa", "bb"]));
}

#[test]
fn unknown_characters_have_no_width() {
    let w = wrapper();
    assert_eq!(w.wrap(12, "xyz aa"), lines(&["xyz aa"]));
    assert_eq!(w.wrap(11, "xyz aa"), lines(&["xyz", "aa"]));
}

#[test]
fn wrap_text_measures_with_the_table() {
    let t = table();
    assert_eq!(wrap_text(&t, 20, "ab ab ab"), lines(&["ab ab", "ab"]));
    assert_eq!(wrap_text(&t, 16, "ab ab ab"), lines(&["ab", "ab", "ab"]));
    assert_eq!(wrap_text(&t, 12, "é ab"), lines(&["é ab"]));
    assert_eq!(wrap_text(&t, 11, "é ab"), lines(&["é", "ab"]));
}

#[test]
fn first_table_entry_wins() {
    let t = WidthTable::new(vec![('a', 3), ('a', 9)]);
    assert_eq!(t.advance('a'), Some(3));
    assert_eq!(t.advance('b'), None);
}

#[test]
fn malformed_font_fails_to_load() {
    let r = Font::parse(vec![1, 2, 3, 4]);
    assert!(matches!(r, Err(WrapError::FontLoad(_))));
    let r = Font::parse(Vec::new());
    assert!(matches!(r, Err(WrapError::FontLoad(_))));
}

#[test]
fn describe_names_path_and_reference() {
    let w = TextWrapper::new("fonts/a \"b\".ttf".to_string(), table(), "0".to_string()).unwrap();
    assert_eq!(
        w.describe(),
        "TextWrapper font_path=\"fonts/a \\\"b\\\".ttf\" base_character=\"0\""
    );
}

#[test]
fn words_split_on_white_space() {
    let chars: Vec<char> = " ab\t c\u{2003}de ".chars().collect();
    let ws = split_words(&chars);
    assert_eq!(ws, vec![vec!['a', 'b'], vec!['c'], vec!['d', 'e']]);
    assert!(white_space('\u{85}'));
    assert!(!white_space('x'));
    assert!(!white_space('\u{200b}'));
}

#[test]
fn reference_is_checked_without_a_font() {
    assert_eq!(ttfwrap::check_reference_character("0"), Ok(()));
    assert_eq!(ttfwrap::check_reference_character("\u{1f44d}\u{1f3fd}"), Ok(()));
    assert_eq!(
        ttfwrap::check_reference_character("ab"),
        Err(WrapError::InvalidConfiguration)
    );
    assert_eq!(
        ttfwrap::check_reference_character(""),
        Err(WrapError::InvalidConfiguration)
    );
}
