use reformat::case::CaseFormat;
use reformat::date::{date_of_days, is_leap_year, utc_date_text};
use reformat::endings::LineEnding;
use reformat::indent::IndentStyle;
use reformat::lines::{first_terminator, split_lines};
use reformat::rename::TimestampFormat;

fn collect(text: &str) -> Vec<(String, String)> {
    split_lines(text)
}

fn pairs(expected: &[(&str, &str)]) -> Vec<(String, String)> {
    expected.iter().map(|(b, t)| (b.to_string(), t.to_string())).collect()
}

/// The defining property: splitting and rejoining is the identity.
fn assert_roundtrip(text: &str) {
    let joined: String = split_lines(text)
        .into_iter()
        .flat_map(|(b, t)| [b, t])
        .collect::<Vec<_>>()
        .concat();
    assert_eq!(joined, text, "round trip changed the input");
}

#[test]
fn test_camel_split() {
    let words = CaseFormat::CamelCase.split_words("firstName");
    assert_eq!(words, vec!["first", "name"]);
}

#[test]
fn test_snake_split() {
    let words = CaseFormat::SnakeCase.split_words("first_name");
    assert_eq!(words, vec!["first", "name"]);
}

#[test]
fn test_camel_join() {
    let words = vec!["first".to_string(), "name".to_string()];
    assert_eq!(CaseFormat::CamelCase.join_words(&words, "", ""), "firstName");
}

#[test]
fn test_snake_join() {
    let words = vec!["first".to_string(), "name".to_string()];
    assert_eq!(CaseFormat::SnakeCase.join_words(&words, "", ""), "first_name");
}

#[test]
fn test_with_prefix_suffix() {
    let words = vec!["first".to_string(), "name".to_string()];
    assert_eq!(
        CaseFormat::SnakeCase.join_words(&words, "old_", "_v1"),
        "old_first_name_v1"
    );
}

#[test]
fn test_camel_to_snake() {
    let words = CaseFormat::CamelCase.split_words("firstName");
    assert_eq!(words, vec!["first", "name"]);
    assert_eq!(CaseFormat::SnakeCase.join_words(&words, "", ""), "first_name");
}

#[test]
fn test_snake_to_camel() {
    let words = CaseFormat::SnakeCase.split_words("first_name");
    assert_eq!(words, vec!["first", "name"]);
    assert_eq!(CaseFormat::CamelCase.join_words(&words, "", ""), "firstName");
}

#[test]
fn test_pascal_to_kebab() {
    let words = CaseFormat::PascalCase.split_words("FirstName");
    assert_eq!(words, vec!["first", "name"]);
    assert_eq!(CaseFormat::KebabCase.join_words(&words, "", ""), "first-name");
}

#[test]
fn test_kebab_to_screaming_snake() {
    let words = CaseFormat::KebabCase.split_words("first-name");
    assert_eq!(words, vec!["first", "name"]);
    assert_eq!(
        CaseFormat::ScreamingSnakeCase.join_words(&words, "", ""),
        "FIRST_NAME"
    );
}

#[test]
fn test_camel_pattern_match() {
    let pattern = regex::Regex::new(CaseFormat::CamelCase.pattern()).unwrap();
    assert!(pattern.is_match("firstName"));
    assert!(pattern.is_match("myVariableName"));
    assert!(!pattern.is_match("firstname"));
    assert!(!pattern.is_match("FirstName"));
}

#[test]
fn test_pascal_pattern_match() {
    let pattern = regex::Regex::new(CaseFormat::PascalCase.pattern()).unwrap();
    assert!(pattern.is_match("FirstName"));
    assert!(pattern.is_match("MyVariableName"));
    assert!(!pattern.is_match("firstName"));
    assert!(!pattern.is_match("FIRSTNAME"));
}

#[test]
fn test_snake_pattern_match() {
    let pattern = regex::Regex::new(CaseFormat::SnakeCase.pattern()).unwrap();
    assert!(pattern.is_match("first_name"));
    assert!(pattern.is_match("my_variable_name"));
    assert!(!pattern.is_match("firstname"));
    assert!(!pattern.is_match("FIRST_NAME"));
}

#[test]
fn test_parse_line_ending() {
    assert_eq!(LineEnding::parse("lf"), Some(LineEnding::Lf));
    assert_eq!(LineEnding::parse("LF"), Some(LineEnding::Lf));
    assert_eq!(LineEnding::parse("unix"), Some(LineEnding::Lf));
    assert_eq!(LineEnding::parse("crlf"), Some(LineEnding::Crlf));
    assert_eq!(LineEnding::parse("CRLF"), Some(LineEnding::Crlf));
    assert_eq!(LineEnding::parse("windows"), Some(LineEnding::Crlf));
    assert_eq!(LineEnding::parse("cr"), Some(LineEnding::Cr));
    assert_eq!(LineEnding::parse("mac"), Some(LineEnding::Cr));
    assert_eq!(LineEnding::parse("bogus"), None);
}

#[test]
fn test_parse_indent_style() {
    assert_eq!(IndentStyle::parse("spaces"), Some(IndentStyle::Spaces));
    assert_eq!(IndentStyle::parse("space"), Some(IndentStyle::Spaces));
    assert_eq!(IndentStyle::parse("tabs"), Some(IndentStyle::Tabs));
    assert_eq!(IndentStyle::parse("tab"), Some(IndentStyle::Tabs));
    assert_eq!(IndentStyle::parse("bogus"), None);
}

#[test]
fn test_lf() {
    assert_eq!(collect("a\nb\n"), pairs(&[("a", "\n"), ("b", "\n")]));
    assert_roundtrip("a\nb\n");
}

#[test]
fn test_crlf() {
    assert_eq!(collect("a\r\nb\r\n"), pairs(&[("a", "\r\n"), ("b", "\r\n")]));
    assert_roundtrip("a\r\nb\r\n");
}

#[test]
fn test_lone_cr() {
    assert_eq!(collect("a\rb\r"), pairs(&[("a", "\r"), ("b", "\r")]));
    assert_roundtrip("a\rb\r");
}

#[test]
fn test_mixed() {
    assert_eq!(
        collect("a\r\nb\nc\rd"),
        pairs(&[("a", "\r\n"), ("b", "\n"), ("c", "\r"), ("d", "")])
    );
    assert_roundtrip("a\r\nb\nc\rd");
}

#[test]
fn test_no_final_terminator() {
    assert_eq!(collect("a\nb"), pairs(&[("a", "\n"), ("b", "")]));
    assert_roundtrip("a\nb");
}

#[test]
fn test_empty_and_blank_lines() {
    assert_eq!(collect(""), pairs(&[]));
    assert_eq!(collect("\n"), pairs(&[("", "\n")]));
    assert_eq!(collect("a\n\nb"), pairs(&[("a", "\n"), ("", "\n"), ("b", "")]));
    assert_roundtrip("");
    assert_roundtrip("\n");
    assert_roundtrip("a\n\nb");
}

#[test]
fn test_first_terminator() {
    assert_eq!(first_terminator("a\r\nb\n"), "\r\n");
    assert_eq!(first_terminator("a\rb"), "\r");
    assert_eq!(first_terminator("a\nb\r\n"), "\n");
    assert_eq!(first_terminator("no terminator"), "\n");
}

#[test]
fn test_multibyte_content_roundtrips() {
    assert_roundtrip("caf\u{e9}\r\nna\u{ef}ve\n\u{4e2d}\u{6587}");
}

#[test]
fn leap_years_follow_the_gregorian_rule() {
    assert!(is_leap_year(2000));
    assert!(is_leap_year(2024));
    assert!(!is_leap_year(1900));
    assert!(!is_leap_year(2023));
}

#[test]
fn days_since_the_epoch_become_calendar_dates() {
    assert_eq!(date_of_days(0), (1970, 1, 1));
    assert_eq!(date_of_days(59), (1970, 3, 1));
    assert_eq!(date_of_days(10957 + 31 + 28), (2000, 2, 29));
    assert_eq!(date_of_days(19737), (2024, 1, 15));
    assert_eq!(date_of_days(47541 - 1), (2100, 2, 28));
    assert_eq!(date_of_days(47541), (2100, 3, 1));
}

#[test]
fn a_file_time_is_rendered_as_its_utc_date() {
    let secs = 19737 * 86400 + 23 * 3600;
    assert_eq!(utc_date_text(secs, TimestampFormat::Long).as_deref(), Some("20240115"));
    assert_eq!(utc_date_text(secs, TimestampFormat::Short).as_deref(), Some("240115"));
    assert_eq!(utc_date_text(secs, TimestampFormat::Omit), None);
    assert_eq!(utc_date_text(0, TimestampFormat::Long).as_deref(), Some("19700101"));
    assert_eq!(utc_date_text(86400 * 3, TimestampFormat::Short).as_deref(), Some("700104"));
}

#[test]
fn identifiers_split_and_join_back_to_themselves() {
    let cases = [
        (CaseFormat::CamelCase, "firstName2Go"),
        (CaseFormat::PascalCase, "FirstName"),
        (CaseFormat::SnakeCase, "first_name_2"),
        (CaseFormat::ScreamingSnakeCase, "FIRST_NAME"),
        (CaseFormat::KebabCase, "first-name"),
        (CaseFormat::ScreamingKebabCase, "FIRST-NAME-9"),
    ];
    for (format, text) in cases {
        let words = format.split_words(text);
        assert!(words.iter().all(|w| !w.is_empty() && *w == w.to_lowercase()));
        assert_eq!(format.join_words(&words, "", ""), text);
    }
}
