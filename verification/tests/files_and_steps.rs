use std::path::Path;

use reformat::changes::{to_slash, ChangeRecord};
use reformat::endings::{EndingsNormalizer, EndingsOptions, LineEnding};
use reformat::group::{FileGrouper, GroupOptions};
use reformat::indent::IndentStyle;
use reformat::step::{apply_to_bytes, matches_extension, within_depth, ContentStep, FileTarget};
use reformat::style::{FileStyle, StyleStep};
use reformat::walk::{is_excluded, DEFAULT_SKIP_DIRS};
use reformat::whitespace::{WhitespaceCleaner, WhitespaceOptions};

struct Upper;
impl ContentStep for Upper {
    fn name(&self) -> &'static str {
        "upper"
    }
    fn accepts(&self, file: &FileTarget) -> bool {
        matches_extension(&file.path, &[".txt"])
    }
    fn transform(&self, text: &str, _: &FileTarget) -> Option<(String, usize)> {
        let up = text.to_uppercase();
        (up != text).then_some((up, 1))
    }
    fn describe(&self, _: usize, dry_run: bool) -> String {
        if dry_run { "Would upper" } else { "Uppered" }.to_string()
    }
    fn transform_bytes(&self, _: &[u8], _: &FileTarget) -> Option<(Vec<u8>, usize)> {
        None
    }
    fn supports_bytes(&self) -> bool {
        false
    }
}

struct Exclaim;
impl ContentStep for Exclaim {
    fn name(&self) -> &'static str {
        "exclaim"
    }
    fn accepts(&self, _: &FileTarget) -> bool {
        true
    }
    fn transform(&self, text: &str, _: &FileTarget) -> Option<(String, usize)> {
        if text.ends_with('!') {
            None
        } else {
            Some((format!("{}!", text), 1))
        }
    }
    fn describe(&self, _: usize, _: bool) -> String {
        "Exclaimed".to_string()
    }
    fn transform_bytes(&self, _: &[u8], _: &FileTarget) -> Option<(Vec<u8>, usize)> {
        None
    }
    fn supports_bytes(&self) -> bool {
        false
    }
}

#[test]
fn test_matches_extension_normalises() {
    let p = "a/b.PY";
    assert!(matches_extension(p, &["py"]));
    assert!(matches_extension(p, &[".py"]));
    assert!(matches_extension(p, &[".Py"]));
    assert!(!matches_extension(p, &[".rs"]));
    assert!(matches_extension(p, &[] as &[&str]));
    assert!(!matches_extension("Makefile", &[".py"]));
}

#[test]
fn test_apply_to_bytes_touches_no_file() {
    let target = FileTarget::file("does/not/exist.txt");
    let (out, units) = apply_to_bytes(&[&Upper, &Exclaim], &target, b"hi", false);
    assert_eq!(out, b"HI!");
    assert_eq!(units, [1, 1]);

    let other = FileTarget::file("x.md");
    let (out, units) = apply_to_bytes(&[&Upper], &other, b"hi", false);
    assert_eq!((out, units), (b"hi".to_vec(), vec![0]), "not accepted");

    let (out, _) = apply_to_bytes(&[&Upper], &target, b"a\0b", false);
    assert_eq!(out, b"a\0b", "binary input passes through");
}

#[test]
fn content_that_is_not_utf8_reaches_only_byte_steps() {
    let endings = EndingsNormalizer::new(EndingsOptions {
        style: LineEnding::Lf,
        file_extensions: Vec::new(),
        recursive: true,
        dry_run: false,
    });
    let target = FileTarget::file("notes.txt");
    let input: &[u8] = b"a\xff\r\nb\r\n";
    let (out, units) = apply_to_bytes(&[&Upper, &endings], &target, input, false);
    assert_eq!(out, b"a\xff\nb\n");
    assert_eq!(units, [0, 2]);

    let (out, units) = apply_to_bytes(&[&Upper, &endings], &target, b"a\r\nb", false);
    assert_eq!(out, b"A\nB");
    assert_eq!(units, [1, 1]);
}

#[test]
fn test_non_recursive_depth() {
    let t = |depth| FileTarget {
        path: "x".to_string(),
        root: ".".to_string(),
        depth,
    };
    assert!(within_depth(&t(0), false));
    assert!(within_depth(&t(1), false));
    assert!(!within_depth(&t(2), false));
    assert!(within_depth(&t(2), true));
}

#[test]
fn test_to_slash_uses_forward_slashes() {
    let joined = Path::new("wbs").join("a.tmpl");
    assert_eq!(reformat::walk::to_slash(joined.to_str().unwrap()), "wbs/a.tmpl");
    assert_eq!(reformat::walk::to_slash("a.tmpl"), "a.tmpl");
}

#[test]
fn test_hidden_component_is_excluded() {
    assert!(is_excluded("/a/.git/config", &DEFAULT_SKIP_DIRS));
    assert!(is_excluded(".hidden.txt", &DEFAULT_SKIP_DIRS));
    assert!(is_excluded("a/.cache/b.txt", &DEFAULT_SKIP_DIRS));
}

#[test]
fn test_build_directories_are_excluded() {
    for dir in DEFAULT_SKIP_DIRS {
        let p = format!("project/{}/file.txt", dir);
        assert!(is_excluded(&p, &DEFAULT_SKIP_DIRS), "{} should be excluded", dir);
    }
}

#[test]
fn test_dot_components_are_not_hidden() {
    assert!(!is_excluded("./src/main.rs", &DEFAULT_SKIP_DIRS));
    assert!(!is_excluded(".", &DEFAULT_SKIP_DIRS));
    assert!(!is_excluded("../sibling/a.txt", &DEFAULT_SKIP_DIRS));
    assert!(!is_excluded("./a.txt", &DEFAULT_SKIP_DIRS));
}

#[test]
fn test_ordinary_paths_are_included() {
    assert!(!is_excluded("/home/u/proj/src/a.rs", &DEFAULT_SKIP_DIRS));
    assert!(!is_excluded("a.txt", &DEFAULT_SKIP_DIRS));
    assert!(!is_excluded("src/target.rs", &DEFAULT_SKIP_DIRS));
}

#[test]
fn test_custom_skip_list() {
    let skip = ["fixtures".to_string()];
    assert!(is_excluded("t/fixtures/a.txt", &skip));
    assert!(!is_excluded("t/cases/a.txt", &skip));
}

#[test]
fn test_change_record_creation() {
    let record = ChangeRecord::new("group", "/tmp/test");
    assert_eq!(record.operation, "group");
    assert!(record.changes.is_empty());
}

#[test]
fn test_add_changes() {
    let mut record = ChangeRecord::new("group", "/tmp/test");
    record.add_directory_created("wbs");
    record.add_file_moved("wbs_create.tmpl", "wbs/create.tmpl");

    assert_eq!(record.len(), 2);
    assert!(!record.is_empty());
}

#[test]
fn test_file_moves() {
    let mut record = ChangeRecord::new("group", "/tmp/test");
    record.add_directory_created("wbs");
    record.add_file_moved("wbs_create.tmpl", "wbs/create.tmpl");
    record.add_file_moved("wbs_delete.tmpl", "wbs/delete.tmpl");

    let moves = record.file_moves();
    assert_eq!(moves.len(), 2);
    assert_eq!(moves[0], ("wbs_create.tmpl", "wbs/create.tmpl"));
}

#[test]
fn test_recorded_paths_use_forward_slashes() {
    let mut record = ChangeRecord::new("group", "/tmp/test");
    let from = Path::new("t").join("wbs_a.tmpl");
    let to = Path::new("wbs").join("a.tmpl");
    record.add_file_moved(from.to_str().unwrap(), to.to_str().unwrap());
    assert_eq!(record.file_moves()[0], ("t/wbs_a.tmpl", "wbs/a.tmpl"));
}

#[test]
fn test_to_slash() {
    assert_eq!(to_slash("/abs/wbs/a.tmpl"), "/abs/wbs/a.tmpl");
    let expected = if std::path::MAIN_SEPARATOR == '\\' {
        "wbs/a.tmpl"
    } else {
        "wbs\\a.tmpl"
    };
    assert_eq!(to_slash("wbs\\a.tmpl"), expected);
}

#[test]
fn test_extract_prefix() {
    let grouper = FileGrouper::with_defaults();

    assert_eq!(grouper.extract_prefix("wbs_create.tmpl"), Some("wbs".to_string()));
    assert_eq!(
        grouper.extract_prefix("work_package_list.tmpl"),
        Some("work".to_string())
    );
    assert_eq!(grouper.extract_prefix("noprefix.txt"), None);
    assert_eq!(grouper.extract_prefix("_leadingunderscore.txt"), None);
    assert_eq!(grouper.extract_prefix("trailing_"), None);
}

#[test]
fn test_extract_prefix_custom_separator() {
    let mut options = GroupOptions::default();
    options.separator = '-';
    let grouper = FileGrouper::new(options);

    assert_eq!(grouper.extract_prefix("wbs-create.tmpl"), Some("wbs".to_string()));
    assert_eq!(grouper.extract_prefix("wbs_create.tmpl"), None);
}

#[test]
fn test_strip_prefix_from_name() {
    let grouper = FileGrouper::with_defaults();

    assert_eq!(grouper.strip_prefix_from_name("wbs_create.tmpl", "wbs"), "create.tmpl");
    assert_eq!(
        grouper.strip_prefix_from_name("work_package_list.tmpl", "work"),
        "package_list.tmpl"
    );
}

#[test]
fn test_extract_prefix_from_suffix() {
    let mut options = GroupOptions::default();
    options.from_suffix = true;
    let grouper = FileGrouper::new(options);

    assert_eq!(
        grouper.extract_prefix("activity_relationships_list.tmpl"),
        Some("activity_relationships".to_string())
    );
    assert_eq!(grouper.extract_prefix("a_b_c.txt"), Some("a_b".to_string()));
    assert_eq!(grouper.extract_prefix("single_part.txt"), Some("single".to_string()));
    assert_eq!(grouper.extract_prefix("noseparator.txt"), None);
}

fn run(style: FileStyle, text: &str) -> String {
    let step = StyleStep::new(move |_: &str| style.clone(), true);
    let target = FileTarget::file("x.txt");
    step.transform(text, &target)
        .map(|(s, _)| s)
        .unwrap_or_else(|| text.to_string())
}

#[test]
fn test_empty_style_accepts_nothing() {
    let step = StyleStep::new(|_: &str| FileStyle::default(), true);
    assert!(!step.accepts(&FileTarget::file("a.rs")));
}

#[test]
fn test_any_file_with_a_style_is_accepted() {
    let step = StyleStep::new(
        |_: &str| FileStyle {
            trim_trailing_whitespace: true,
            ..Default::default()
        },
        true,
    );
    assert!(step.accepts(&FileTarget::file("Makefile")));
    assert!(step.accepts(&FileTarget::file(".env")));
}

#[test]
fn test_trim_and_final_newline() {
    let style = FileStyle {
        trim_trailing_whitespace: true,
        insert_final_newline: true,
        ..Default::default()
    };
    assert_eq!(run(style, "a  \nb"), "a\nb\n");
}

#[test]
fn test_final_newline_takes_target_line_ending() {
    let style = FileStyle {
        insert_final_newline: true,
        end_of_line: Some(LineEnding::Crlf),
        ..Default::default()
    };
    assert_eq!(run(style, "a\nb"), "a\r\nb\r\n");
}

#[test]
fn test_indent_is_applied_only_when_set() {
    let tabs = FileStyle {
        indent: Some((IndentStyle::Tabs, 4)),
        ..Default::default()
    };
    assert_eq!(run(tabs, "    x\n"), "\tx\n");
    let trim_only = FileStyle {
        trim_trailing_whitespace: true,
        ..Default::default()
    };
    assert_eq!(run(trim_only, "    x  \n"), "    x\n");
}

fn clean_text(options: WhitespaceOptions, text: &str) -> String {
    let target = FileTarget::file("x.txt");
    WhitespaceCleaner::new(options)
        .transform(text, &target)
        .map(|(s, _)| s)
        .unwrap_or_else(|| text.to_string())
}

#[test]
fn test_end_of_file_options_are_off_by_default() {
    let o = WhitespaceOptions::default();
    assert_eq!(clean_text(o.clone(), "a\n\n\n"), "a\n\n\n");
    assert_eq!(clean_text(o, "a"), "a");
}

#[test]
fn test_insert_final_newline_uses_the_file_terminator() {
    let o = WhitespaceOptions {
        insert_final_newline: true,
        ..Default::default()
    };
    assert_eq!(clean_text(o.clone(), "a\nb"), "a\nb\n");
    assert_eq!(clean_text(o.clone(), "a\r\nb"), "a\r\nb\r\n");
    assert_eq!(clean_text(o.clone(), "a"), "a\n");
    assert_eq!(clean_text(o.clone(), "a\n"), "a\n");
    assert_eq!(clean_text(o, ""), "", "an empty file stays empty");
}

#[test]
fn test_trim_trailing_blank_lines() {
    let o = WhitespaceOptions {
        trim_trailing_blank_lines: true,
        ..Default::default()
    };
    assert_eq!(clean_text(o.clone(), "a\n\n\n"), "a\n");
    assert_eq!(clean_text(o.clone(), "a\r\n  \r\n\r\n"), "a\r\n");
    assert_eq!(clean_text(o.clone(), "a\n\nb\n"), "a\n\nb\n");
    assert_eq!(clean_text(o, "  \n\n"), "");
}

#[test]
fn test_end_of_file_options_combined() {
    let o = WhitespaceOptions {
        insert_final_newline: true,
        trim_trailing_blank_lines: true,
        ..Default::default()
    };
    assert_eq!(clean_text(o.clone(), "a  \n\n   "), "a\n");
    assert_eq!(clean_text(o, "a\nb  "), "a\nb\n");
}

#[test]
fn splitting_from_the_suffix_names_files_by_their_suffix() {
    let grouper = FileGrouper::new(GroupOptions {
        from_suffix: true,
        ..GroupOptions::default()
    });
    assert_eq!(grouper.extract_prefix("a_b_c.txt"), Some("a_b".to_string()));
    assert_eq!(grouper.target_name("a_b_c.txt", "a_b"), "c.txt");
    assert_eq!(grouper.target_name("a_b_d.txt", "a_b"), "d.txt");
}

#[test]
fn combined_processing_applies_emojis_then_whitespace() {
    let processor = reformat::combined::CombinedProcessor::with_defaults();
    let (first, second) = processor.content_steps();
    assert_eq!(first.name(), "emojis");
    assert_eq!(second.name(), "clean");
}

#[test]
fn an_empty_style_changes_no_text() {
    let step = StyleStep::new(|_: &str| FileStyle::default(), true);
    let target = FileTarget::file("a.txt");
    for text in ["", "x  \r\n", "\tb\rc", "no newline  "] {
        assert_eq!(step.transform(text, &target), None);
    }
}

#[test]
fn a_diff_shows_carriage_returns() {
    let text = reformat::pipeline::diff_text("f.txt", b"a\r\nb\n", b"a\nb\n");
    assert!(text.contains("--- a/f.txt"));
    assert!(text.contains("+++ b/f.txt"));
    assert!(text.contains("-a\\r"));
    assert!(text.contains("+a\n"));
    assert_eq!(reformat::pipeline::show_cr("x\ry\r\n"), "x\\ry\\r\n");
}
