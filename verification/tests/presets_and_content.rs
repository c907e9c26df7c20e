use reformat::case::CaseFormat;
use reformat::command::{ensure_clean, get_preset, is_hidden_name};
use reformat::config::{
    parse_case_format, validate_steps, ConvertConfig, GroupConfig, IndentConfig, Preset,
    RenameConfig, ReplacePatternEntry,
};
use reformat::converter::{build_source_pattern, CaseConverter, ConvertOptions};
use reformat::emoji::{EmojiOptions, EmojiTransformer};
use reformat::header::{HeaderManager, HeaderOptions};
use reformat::matching::split_at_spans;
use reformat::refs::{FixRecord, ReferenceFix, ReferenceFixer, ReferenceScanner, ScanOptions};
use reformat::rename::{CaseTransform, SpaceReplace};
use reformat::replace::{ContentReplacer, ReplaceOptions, ReplacePattern};
use reformat::step::{ContentStep, FileTarget};

#[test]
fn test_validate_steps_valid() {
    let steps = vec!["rename".to_string(), "emojis".to_string(), "clean".to_string()];
    assert!(validate_steps("test", &steps).is_ok());
}

#[test]
fn test_validate_steps_invalid() {
    let steps = vec!["rename".to_string(), "bogus".to_string()];
    let err = validate_steps("test", &steps).unwrap_err();
    assert!(err.to_string().contains("unknown step 'bogus'"));
}

#[test]
fn test_parse_case_format() {
    assert_eq!(parse_case_format("camel"), Some(CaseFormat::CamelCase));
    assert_eq!(parse_case_format("camelCase"), Some(CaseFormat::CamelCase));
    assert_eq!(parse_case_format("pascal"), Some(CaseFormat::PascalCase));
    assert_eq!(parse_case_format("snake"), Some(CaseFormat::SnakeCase));
    assert_eq!(parse_case_format("screaming_snake"), Some(CaseFormat::ScreamingSnakeCase));
    assert_eq!(parse_case_format("kebab"), Some(CaseFormat::KebabCase));
    assert_eq!(parse_case_format("screaming_kebab"), Some(CaseFormat::ScreamingKebabCase));
    assert_eq!(parse_case_format("unknown"), None);
}

#[test]
fn test_replace_prefix_halves_must_be_paired() {
    let convert = ConvertConfig {
        from_format: Some("camel".to_string()),
        to_format: Some("snake".to_string()),
        replace_prefix_from: Some("I".to_string()),
        ..Default::default()
    };
    let err = convert.to_options(false).unwrap_err().to_string();
    assert!(err.contains("replace_prefix_to"), "got: {}", err);
}

#[test]
fn test_literal_and_ignore_case_patterns() {
    let entry = |find: &str, replace: &str, literal, ignore_case| ReplacePatternEntry {
        find: find.to_string(),
        replace: replace.to_string(),
        literal,
        ignore_case,
    };
    let apply = |e: ReplacePatternEntry, text: &str| {
        let p = e.to_pattern();
        regex::Regex::new(&p.find)
            .unwrap()
            .replace_all(text, p.replace.as_str())
            .into_owned()
    };

    assert_eq!(apply(entry("a.b(", "$1 x", true, false), "a.b( axb("), "$1 x axb(");
    assert_eq!(apply(entry("todo", "DONE", false, true), "TODO todo"), "DONE DONE");
    assert_eq!(apply(entry("f(", "g(", true, true), "F(1)"), "g(1)");
}

#[test]
fn test_unknown_enum_value_is_rejected() {
    let rename = RenameConfig {
        case_transform: Some("lowercse".to_string()),
        ..Default::default()
    };
    let err = rename.parse_case_transform().unwrap_err().to_string();
    assert!(err.contains("lowercse"), "got: {}", err);
    assert!(err.contains("Valid values"), "got: {}", err);
}

fn config_with(name: &str, steps: &[&str]) -> Vec<(String, Preset)> {
    vec![(
        name.to_string(),
        Preset {
            steps: steps.iter().map(|s| s.to_string()).collect(),
            ..Default::default()
        },
    )]
}

#[test]
fn test_get_preset_found() {
    let config = config_with("code", &["rename", "clean"]);
    let preset = get_preset(&config, "code").unwrap();
    assert_eq!(preset.steps, vec!["rename", "clean"]);
}

#[test]
fn test_get_preset_not_found() {
    let config = config_with("code", &["clean"]);
    let err = get_preset(&config, "missing").unwrap_err();
    assert!(err.to_string().contains("preset 'missing' not found"));
    assert!(err.to_string().contains("code"));
}

#[test]
fn test_get_preset_invalid_step() {
    let config = config_with("bad", &["clean", "nope"]);
    let err = get_preset(&config, "bad").unwrap_err();
    assert!(err.to_string().contains("unknown step 'nope'"));
}

#[test]
fn test_source_pattern_without_affixes_is_unchanged() {
    assert_eq!(
        build_source_pattern(CaseFormat::CamelCase, [None, None], [None, None]),
        CaseFormat::CamelCase.pattern()
    );
}

#[test]
fn test_task_emojis_survive_when_not_replaced() {
    let options = EmojiOptions {
        replace_task_emojis: false,
        ..Default::default()
    };
    let target = FileTarget::file("x.md");
    let text = "done \u{2705}\u{FE0F} red \u{1F534} launch \u{1F680}\n";
    let out = EmojiTransformer::new(options)
        .transform(text, &target)
        .map(|(s, _)| s)
        .unwrap_or_else(|| text.to_string());
    assert_eq!(out, "done \u{2705}\u{FE0F} red \u{1F534} launch \n");
}

fn apply_header(text: &str, header: &str) -> String {
    let manager = HeaderManager::new(HeaderOptions {
        text: header.to_string(),
        ..Default::default()
    })
    .unwrap();
    let target = FileTarget::file("x.rs");
    manager
        .transform(text, &target)
        .map(|(s, _)| s)
        .unwrap_or_else(|| text.to_string())
}

#[test]
fn test_header_goes_after_byte_order_mark() {
    let out = apply_header("\u{FEFF}int x;\n", "// H");
    assert_eq!(out, "\u{FEFF}// H\n\nint x;\n");
    assert_eq!(apply_header(&out, "// H"), out, "a second run must change nothing");
}

#[test]
fn test_header_uses_file_line_terminator() {
    let out = apply_header("int x;\r\nint y;\r\n", "// A\n// B");
    assert_eq!(out, "// A\r\n// B\r\n\r\nint x;\r\nint y;\r\n");
    assert_eq!(apply_header(&out, "// A\n// B"), out, "a second run must change nothing");
}

#[test]
fn test_shebang_without_trailing_newline() {
    assert_eq!(apply_header("#!/bin/sh", "# H"), "#!/bin/sh\n# H\n\n");
}

#[test]
fn test_invalid_regex() {
    let options = ReplaceOptions {
        patterns: vec![ReplacePattern {
            find: "[invalid".to_string(),
            replace: "x".to_string(),
        }],
        ..Default::default()
    };
    let result = ContentReplacer::new(options);
    assert!(result.is_err());
    assert!(result.unwrap_err().to_string().contains("invalid regex"));
}

// Further scenarios of the library's behaviour.

fn emoji_text(text: &str) -> String {
    let target = FileTarget::file("t.md");
    EmojiTransformer::with_defaults()
        .transform(text, &target)
        .map(|(s, _)| s)
        .unwrap_or_else(|| text.to_string())
}

#[test]
fn zwj_sequences_leave_no_debris() {
    let family = "\u{1F468}\u{200D}\u{1F469}\u{200D}\u{1F467}";
    let out = emoji_text(&format!("family {} end\n", family));
    assert_eq!(out, "family  end\n");
}

#[test]
fn keycaps_skin_tones_and_text_symbols() {
    assert_eq!(emoji_text("keycap 1\u{FE0F}\u{20E3} end\n"), "keycap  end\n");
    assert_eq!(emoji_text("wave \u{1F44B}\u{1F3FD} end\n"), "wave  end\n");
    let cards = "cards \u{2660} \u{2665} notes \u{266A} end\n";
    assert_eq!(emoji_text(cards), cards);
    assert_eq!(emoji_text("play \u{26BD} fly \u{2708} end\n"), "play  fly  end\n");
    assert_eq!(emoji_text("family \u{200D}\u{200D} end\n"), "family  end\n");
    assert_eq!(emoji_text("- \u{2714}\u{FE0F} done\n"), "- [x] done\n");
}

#[test]
fn emoji_transform_settles_after_one_run() {
    let once = emoji_text("\u{2B50} \u{1F7E1}\u{1F680}\u{200D}x \u{1F534}\u{FE0F}\n");
    assert_eq!(once, "[+] [yellow]x [red]\n");
    let target = FileTarget::file("t.md");
    assert!(EmojiTransformer::with_defaults().transform(&once, &target).is_none());
}

#[test]
fn emoji_counts_every_match() {
    let target = FileTarget::file("t.md");
    let (_, n) = EmojiTransformer::with_defaults()
        .transform("\u{2705} a \u{1F680} b \u{1F680}", &target)
        .unwrap();
    assert_eq!(n, 3);
}

#[test]
fn header_replaces_an_older_year_in_place() {
    let manager = HeaderManager::with_year(
        HeaderOptions {
            text: "// Copyright {year} TestCorp".to_string(),
            update_year: true,
            ..Default::default()
        },
        "2031",
    );
    let target = FileTarget::file("x.rs");
    let (out, n) = manager
        .transform("// Copyright 1999 TestCorp\n\nfn main() {}\n", &target)
        .unwrap();
    assert_eq!(out, "// Copyright 2031 TestCorp\n\nfn main() {}\n");
    assert_eq!(n, 1);
    assert!(manager.transform(&out, &target).is_none());
}

#[test]
fn header_is_inserted_after_a_shebang_and_not_matched_mid_file() {
    let body = "fn main() {}\n\nconst F: &str = \"// Copyright 2020 TestCorp\";\n";
    let out = apply_header(body, "// Copyright 2026 TestCorp");
    assert!(out.starts_with("// Copyright 2026 TestCorp\n\n"));
    assert!(out.contains("// Copyright 2020 TestCorp\";"));
    let py = apply_header("#!/usr/bin/env python\nprint('hello')\n", "# H");
    assert_eq!(py, "#!/usr/bin/env python\n# H\n\nprint('hello')\n");
}

#[test]
fn replacer_applies_patterns_in_order_and_counts() {
    let options = ReplaceOptions {
        patterns: vec![
            ReplacePattern {
                find: r"[a-z]+(\d+)".to_string(),
                replace: "num_$1".to_string(),
            },
            ReplacePattern {
                find: "num_1".to_string(),
                replace: "one".to_string(),
            },
        ],
        ..Default::default()
    };
    let replacer = ContentReplacer::new(options).unwrap();
    let target = FileTarget::file("a.txt");
    let (out, n) = replacer.transform("foo1 bar22 baz\n", &target).unwrap();
    assert_eq!(out, "one num_22 baz\n");
    assert_eq!(n, 3);
    assert!(replacer.transform("nothing here\n", &target).is_none());
}

#[test]
fn converter_handles_affixes_and_counts_identifiers() {
    let converter = CaseConverter::new(ConvertOptions {
        strip_prefix: Some("m_".to_string()),
        ..ConvertOptions::new(CaseFormat::CamelCase, CaseFormat::SnakeCase)
    })
    .unwrap();
    let target = FileTarget::file("a.py");
    let (out, n) = converter
        .transform("m_userName = 1\nplainName = 2\nkeep = 3\n", &target)
        .unwrap();
    assert_eq!(out, "user_name = 1\nplain_name = 2\nkeep = 3\n");
    assert_eq!(n, 2);
    assert_eq!(converter.convert("myValue"), "my_value");
}

#[test]
fn a_text_is_cut_at_byte_ranges() {
    let (pieces, tail) = split_at_spans("ab cd ef", &[(0, 2), (3, 5)]);
    assert_eq!(
        pieces,
        vec![
            (String::new(), "ab".to_string()),
            (" ".to_string(), "cd".to_string()),
        ]
    );
    assert_eq!(tail, " ef");
    let (pieces, tail) = split_at_spans("\u{e9}t\u{e9}", &[(2, 3)]);
    assert_eq!(pieces, vec![("\u{e9}".to_string(), "t".to_string())]);
    assert_eq!(tail, "\u{e9}");
    let (pieces, tail) = split_at_spans("\u{e9}x", &[(1, 3)]);
    assert_eq!(pieces, vec![(String::new(), String::new())]);
    assert_eq!(tail, "");
    assert_eq!(split_at_spans("plain", &[]), (Vec::new(), "plain".to_string()));
}

#[test]
fn converter_reassembles_the_pieces_of_a_search() {
    let converter =
        CaseConverter::new(ConvertOptions::new(CaseFormat::CamelCase, CaseFormat::SnakeCase)).unwrap();
    let pieces = vec![
        ("let ".to_string(), "userName".to_string()),
        (" = ".to_string(), "count".to_string()),
        ("; ".to_string(), "maxValue".to_string()),
    ];
    let (out, changed) = converter.convert_matches(&pieces, ";\n");
    assert_eq!(out, "let user_name = count; max_value;\n");
    assert_eq!(changed, 2);
    assert_eq!(converter.convert_matches(&[], "rest"), ("rest".to_string(), 0));
}

#[test]
fn converter_rejects_an_invalid_glob_or_filter() {
    let bad_filter = CaseConverter::new(ConvertOptions {
        word_filter: Some("(".to_string()),
        ..ConvertOptions::new(CaseFormat::CamelCase, CaseFormat::SnakeCase)
    });
    assert!(bad_filter.is_err());
    let glob = CaseConverter::new(ConvertOptions {
        glob: Some("*.py".to_string()),
        ..ConvertOptions::new(CaseFormat::CamelCase, CaseFormat::SnakeCase)
    })
    .unwrap();
    assert!(glob.matches_glob("src/a.py", "src"));
    assert!(!glob.matches_glob("src/a.rs", "src"));
}

#[test]
fn config_errors_name_the_setting() {
    let group = GroupConfig {
        separator: Some("ab".to_string()),
        ..Default::default()
    };
    assert_eq!(
        group.to_options(false).unwrap_err().to_string(),
        "group.separator must be a single character, got 'ab'"
    );
    let suffix = GroupConfig {
        from_suffix: Some(true),
        ..Default::default()
    };
    let o = suffix.to_options(true).unwrap();
    assert!(o.from_suffix && o.strip_prefix && o.dry_run);
    let indent = IndentConfig {
        width: Some(0),
        ..Default::default()
    };
    assert_eq!(
        indent.to_options(false).unwrap_err().to_string(),
        "indent.width must be greater than 0"
    );
    let rename = RenameConfig {
        replace_prefix: Some(vec!["a".to_string()]),
        ..Default::default()
    };
    assert_eq!(
        rename.to_options(false).unwrap_err().to_string(),
        "rename.replace_prefix expects exactly 2 values, got 1"
    );
    let ok = RenameConfig {
        case_transform: Some("none".to_string()),
        space_replace: Some("hyphen".to_string()),
        ..Default::default()
    }
    .to_options(false)
    .unwrap();
    assert_eq!(ok.case_transform, CaseTransform::Keep);
    assert_eq!(ok.space_replace, SpaceReplace::Hyphen);
}

#[test]
fn missing_preset_lists_none_when_empty() {
    let config: Vec<(String, Preset)> = Vec::new();
    assert_eq!(
        get_preset(&config, "x").unwrap_err().to_string(),
        "preset 'x' not found in reformat.json. Available presets: (none)"
    );
}

#[test]
fn dirty_tree_is_refused_with_a_sorted_listing() {
    let status: Vec<String> = (0..12).rev().map(|i| format!(" M f{:02}", i)).collect();
    assert!(ensure_clean("group", &status, true).is_ok());
    assert!(ensure_clean("group", &[], false).is_ok());
    let msg = ensure_clean("group", &status, false).unwrap_err().to_string();
    assert!(msg.starts_with("group would modify files with uncommitted changes:\n   M f00\n"));
    assert!(msg.contains("  ... and 2 more\nCommit or stash them first"));
    assert!(!msg.contains("f11"));
    assert!(is_hidden_name("a/.env"));
    assert!(!is_hidden_name("a/env"));
}

fn fix(file: &str, offset: usize, old: &str, new: &str) -> ReferenceFix {
    ReferenceFix {
        file: file.to_string(),
        line: 1,
        column: offset + 1,
        offset: Some(offset),
        context: String::new(),
        old_reference: old.to_string(),
        new_reference: new.to_string(),
    }
}

#[test]
fn scanner_reports_only_standalone_references() {
    let scanner = ReferenceScanner::new(
        vec![("user_list.tmpl".to_string(), "user/list.tmpl".to_string())],
        ScanOptions::default(),
    )
    .unwrap();
    let content = [
        "render(\"user_list.tmpl\")\n",
        "// see also super_user_list.tmpl elsewhere\n",
        "load(\"user_list.tmpl.bak\")\n",
        "use(\"tmpl/user_list.tmpl\")\n",
    ]
    .concat();
    let fixes = scanner.scan_content("app.go", &content);
    assert_eq!(fixes.len(), 2);
    assert_eq!((fixes[0].line, fixes[0].column, fixes[0].offset), (1, 9, Some(8)));
    assert_eq!(fixes[0].context, "render(\"user_list.tmpl\")");
    assert_eq!(fixes[1].line, 4);
    assert_eq!(fixes[1].new_reference, "user/list.tmpl");
}

#[test]
fn scanner_reads_characters_around_a_match_by_byte_position() {
    let scanner = ReferenceScanner::new(
        vec![("a.txt".to_string(), "x/a.txt".to_string())],
        ScanOptions::default(),
    )
    .unwrap();
    let content = "\u{e9}a.txt\n\u{4e2d} a.txt \u{e9}\n";
    let fixes = scanner.scan_content("notes.md", content);
    assert_eq!(fixes.len(), 1);
    assert_eq!((fixes[0].line, fixes[0].column, fixes[0].offset), (2, 5, Some(12)));
    assert_eq!(fixes[0].context, "\u{4e2d} a.txt \u{e9}");
}

#[test]
fn fixes_are_made_for_standalone_matches_only() {
    let scanner = ReferenceScanner::new(
        vec![("a.txt".to_string(), "x/a.txt".to_string())],
        ScanOptions::default(),
    )
    .unwrap();
    let content = "open(\"a.txt\") xa.txt\n  a.txt\n";
    let fixes = scanner.fixes_for_matches("f.go", content, &[(0, 6, 11), (0, 15, 20), (0, 23, 28)]);
    assert_eq!(fixes.len(), 2);
    assert_eq!((fixes[0].line, fixes[0].column, fixes[0].offset), (1, 7, Some(6)));
    assert_eq!(fixes[0].context, "open(\"a.txt\") xa.txt");
    assert_eq!(fixes[0].new_reference, "x/a.txt");
    assert_eq!((fixes[1].line, fixes[1].column, fixes[1].offset), (2, 3, Some(23)));
    assert_eq!(fixes[1].context, "a.txt");
    assert!(scanner.fixes_for_matches("f.go", content, &[]).is_empty());
}

#[test]
fn applying_fixes_is_positional_and_checked() {
    let content = "open(\"a.txt\") and a.txt\n";
    let outcome = ReferenceFixer::fix_content(content, &[fix("f", 6, "a.txt", "x/a.txt")]);
    assert_eq!(outcome.content, b"open(\"x/a.txt\") and a.txt\n");
    assert_eq!((outcome.replaced, outcome.skipped, outcome.modified), (1, 0, true));
    let again = std::str::from_utf8(&outcome.content).unwrap();
    let second = ReferenceFixer::fix_content(again, &[fix("f", 6, "a.txt", "x/a.txt")]);
    assert_eq!((second.replaced, second.skipped, second.modified), (0, 1, false));
    let overlap = ReferenceFixer::fix_content(
        "abcdef",
        &[fix("f", 0, "abc", "X"), fix("f", 1, "bcd", "Y")],
    );
    assert_eq!(overlap.content, b"aYef");
    assert_eq!((overlap.replaced, overlap.skipped), (1, 1));
}

#[test]
fn a_line_and_column_fix_applies_once() {
    let mut f = fix("f", 0, "a.txt", "x/a.txt");
    f.offset = None;
    f.line = 2;
    f.column = 7;
    let content = "first\nopen(\"a.txt\")\n";
    let outcome = ReferenceFixer::fix_content(content, std::slice::from_ref(&f));
    assert_eq!(outcome.content, b"first\nopen(\"x/a.txt\")\n");
    assert_eq!((outcome.replaced, outcome.skipped, outcome.modified), (1, 0, true));
    let again = std::str::from_utf8(&outcome.content).unwrap();
    let second = ReferenceFixer::fix_content(again, std::slice::from_ref(&f));
    assert_eq!(second.content, again.as_bytes());
    assert_eq!((second.replaced, second.skipped, second.modified), (0, 1, false));
}

#[test]
fn fixes_are_sorted_deduplicated_and_grouped() {
    let mut a = fix("b.go", 5, "x", "y");
    a.line = 2;
    let b = fix("a.go", 3, "x", "y");
    let c = fix("a.go", 3, "x", "y");
    let d = fix("a.go", 1, "x", "z");
    let sorted = reformat::refs::finish_fixes(&[a, b, c, d]);
    let order: Vec<(String, usize)> = sorted.iter().map(|f| (f.file.clone(), f.column)).collect();
    assert_eq!(
        order,
        vec![("a.go".to_string(), 2), ("a.go".to_string(), 4), ("b.go".to_string(), 6)]
    );
    let mut record = FixRecord::new("changes.json", &["src".to_string()]);
    record.fixes = sorted;
    assert_eq!(record.len(), 3);
    let groups = ReferenceFixer::group_by_file(&record);
    assert_eq!(groups.len(), 2);
    assert_eq!(groups[0].0, "a.go");
    assert_eq!(groups[0].1.len(), 2);
    let lines = ReferenceFixer::dry_run(&record);
    assert_eq!(lines[0], "a.go:1: 'x' -> 'z'");
}

#[test]
fn a_literal_pattern_escapes_every_meta_character() {
    let entry = ReplacePatternEntry {
        find: "a.b*(c)-d~e#f".to_string(),
        replace: "$1".to_string(),
        literal: true,
        ignore_case: false,
    };
    let p = entry.to_pattern();
    assert_eq!(p.find, "a\\.b\\*\\(c\\)\\-d\\~e\\#f");
    assert_eq!(p.replace, "$$1");
}

#[test]
fn a_header_manager_compiles_its_detector() {
    let manager = HeaderManager::new(HeaderOptions {
        text: "// Copyright 2020 (c) Example+Co\n// All rights reserved".to_string(),
        ..Default::default()
    });
    assert!(manager.is_ok());
}
