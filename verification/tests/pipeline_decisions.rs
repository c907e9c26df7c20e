use reformat::config::{
    ConvertConfig, EmojiConfig, EndingsConfig, HeaderConfig, IndentConfig, Preset, ReplaceConfig,
};
use reformat::group::GroupStats;
use reformat::pipeline::{
    any_needs_clean_tree, applied_report, batch_recursive, build_content_step, check_default_args,
    check_editorconfig_args, check_job_source, check_stdin_steps, chosen, command_nothing,
    command_summary, content_run_end, default_preset, default_report, exit_status, finish,
    fix_preview, group_target, header_text, is_content_step, is_yes, job_label, needs_clean_tree,
    outcome_line, pair_replace_patterns, parse_scan_dirs, preset_of, presets_listing,
    scope_overlap, selected_format, starts_with_path, stdin_reply, step_recursive,
    widen_extensions_for_include, BuiltStep, Execution, Recursion, RunFlags, StdinReply,
    StepOutcome,
};
use reformat::refs::{ApplyResult, FixRecord, ReferenceFix};
use reformat::rename::RenameStats;
use reformat::text::split_on;
use reformat::lines::SplitLines;
use reformat::walk::{include_entry, DEFAULT_SKIP_DIRS};
use reformat::endings::LineEnding;
use reformat::indent::IndentStyle;
use reformat::style::{style_from_properties, EditorProperties};

fn strings(v: &[&str]) -> Vec<String> {
    v.iter().map(|s| s.to_string()).collect()
}

fn fix(file: &str, line: usize, old: &str, new: &str) -> ReferenceFix {
    ReferenceFix {
        file: file.to_string(),
        line,
        column: 1,
        offset: None,
        context: String::new(),
        old_reference: old.to_string(),
        new_reference: new.to_string(),
    }
}

#[test]
fn run_flags_decide_writing_and_prefix() {
    let plain = RunFlags::default();
    assert!(plain.writes());
    assert!(!plain.stdout_is_data());
    assert_eq!(plain.prefix(), "");

    let dry = RunFlags { dry_run: true, ..Default::default() };
    assert!(!dry.writes());
    assert_eq!(dry.prefix(), "[DRY-RUN] ");

    let diff = RunFlags { diff: true, ..Default::default() };
    assert!(!diff.writes());
    assert!(diff.stdout_is_data());

    let stdin = RunFlags { stdin_filename: Some("a.rs".to_string()), ..Default::default() };
    assert!(stdin.writes());
    assert!(stdin.stdout_is_data());
}

#[test]
fn recursion_is_on_unless_switched_off() {
    assert!(Recursion { recursive: false, no_recursive: false }.enabled());
    assert!(Recursion { recursive: true, no_recursive: false }.enabled());
    assert!(!Recursion { recursive: false, no_recursive: true }.enabled());
}

#[test]
fn selected_format_takes_first_flag() {
    assert_eq!(selected_format(true, false, false, false, false), "camel");
    assert_eq!(selected_format(false, true, false, false, false), "pascal");
    assert_eq!(selected_format(false, false, true, false, false), "snake");
    assert_eq!(selected_format(false, false, false, true, false), "screaming_snake");
    assert_eq!(selected_format(false, false, false, false, true), "kebab");
    assert_eq!(selected_format(false, false, false, false, false), "screaming_kebab");
}

#[test]
fn chosen_name_is_the_first_set_flag() {
    let names = ["lowercase", "uppercase", "capitalize"];
    assert_eq!(chosen(&[false, true, true], &names), Some("uppercase"));
    assert_eq!(chosen(&[false, false, false], &names), None);
    assert_eq!(chosen(&[true, false, false], &names), Some("lowercase"));
}

#[test]
fn review_steps_need_a_clean_tree() {
    for step in ["rename", "group", "convert", "replace"] {
        assert!(needs_clean_tree(step), "{}", step);
    }
    for step in ["emojis", "clean", "endings", "indent", "header", "editorconfig"] {
        assert!(!needs_clean_tree(step), "{}", step);
    }
    assert!(any_needs_clean_tree(&strings(&["clean", "replace"])));
    assert!(!any_needs_clean_tree(&strings(&["clean", "emojis"])));
}

#[test]
fn content_steps_are_batched_between_path_steps() {
    assert!(is_content_step("clean"));
    assert!(!is_content_step("rename"));
    assert!(!is_content_step("group"));
    let steps = strings(&["emojis", "clean", "rename", "endings", "group"]);
    assert_eq!(content_run_end(&steps, 0), 2);
    assert_eq!(content_run_end(&steps, 3), 4);
    assert_eq!(content_run_end(&steps, 5), 5);
    let all = strings(&["emojis", "clean"]);
    assert_eq!(content_run_end(&all, 0), 2);
}

#[test]
fn step_recursion_defaults_to_on() {
    let mut preset = preset_of("clean");
    assert!(step_recursive(&preset, "clean"));
    assert!(step_recursive(&preset, "group"));
    preset.emojis = Some(EmojiConfig { recursive: Some(false), ..Default::default() });
    assert!(!step_recursive(&preset, "emojis"));
    let steps = strings(&["emojis", "clean"]);
    assert!(batch_recursive(&preset, &steps, 0, 2));
    assert!(!batch_recursive(&preset, &steps, 0, 1));
}

#[test]
fn default_preset_runs_emojis_then_clean() {
    let p = default_preset(false);
    assert_eq!(p.steps, strings(&["emojis", "clean"]));
    assert_eq!(p.emojis.as_ref().unwrap().recursive, Some(false));
    assert_eq!(p.clean.as_ref().unwrap().recursive, Some(false));
    assert!(p.rename.is_none() && p.convert.is_none() && p.header.is_none());
}

#[test]
fn widening_gives_empty_extension_lists_once() {
    let mut p = preset_of("clean");
    p.convert = Some(ConvertConfig {
        file_extensions: Some(strings(&[".py"])),
        ..Default::default()
    });
    widen_extensions_for_include(&mut p);
    assert_eq!(p.emojis.as_ref().unwrap().file_extensions, Some(Vec::new()));
    assert_eq!(p.clean.as_ref().unwrap().file_extensions, Some(Vec::new()));
    assert_eq!(p.endings.as_ref().unwrap().file_extensions, Some(Vec::new()));
    assert_eq!(p.indent.as_ref().unwrap().file_extensions, Some(Vec::new()));
    assert_eq!(p.rename.as_ref().unwrap().file_extensions, Some(Vec::new()));
    assert_eq!(p.convert.as_ref().unwrap().file_extensions, Some(strings(&[".py"])));
    assert!(p.replace.is_none());
    assert!(p.header.is_none());

    let before = format!("{:?}", p);
    widen_extensions_for_include(&mut p);
    assert_eq!(format!("{:?}", p), before);
}

#[test]
fn building_steps_reports_missing_settings() {
    let p = preset_of("convert");
    let err = build_content_step(&p, "convert", false, "job").err().unwrap();
    assert_eq!(
        err.to_string(),
        "job: 'convert' step requires a [convert] config with from_format and to_format"
    );
    let err = build_content_step(&p, "replace", false, "job").err().unwrap();
    assert_eq!(err.to_string(), "job: 'replace' step requires a [replace] config with patterns");
    let err = build_content_step(&p, "header", false, "job").err().unwrap();
    assert_eq!(err.to_string(), "job: 'header' step requires a [header] config with text");

    let mut q = preset_of("header");
    q.header = Some(HeaderConfig::default());
    let err = build_content_step(&q, "header", false, "job").err().unwrap();
    assert_eq!(err.to_string(), "header.text is missing");
    q.replace = Some(ReplaceConfig::default());
    let err = build_content_step(&q, "replace", false, "job").err().unwrap();
    assert_eq!(err.to_string(), "replace.patterns is missing");
    q.indent = Some(IndentConfig { width: Some(0), ..Default::default() });
    let err = build_content_step(&q, "indent", false, "job").err().unwrap();
    assert_eq!(err.to_string(), "indent.width must be greater than 0");
}

#[test]
fn building_steps_with_defaults() {
    let p = preset_of("clean");
    for step in ["emojis", "clean", "endings", "indent"] {
        let built = build_content_step(&p, step, true, "job").ok().unwrap();
        let s = built.as_step().unwrap();
        assert_eq!(s.name(), step);
    }
    match build_content_step(&p, "editorconfig", false, "job").ok().unwrap() {
        BuiltStep::Editorconfig { indent, recursive } => {
            assert!(!indent);
            assert!(recursive);
        }
        _ => panic!("expected the editorconfig step"),
    }
}

#[test]
fn stdin_refuses_path_steps() {
    assert!(check_stdin_steps("job", &strings(&["emojis", "clean"])).is_ok());
    let err = check_stdin_steps("job", &strings(&["clean", "rename", "group"])).unwrap_err();
    assert_eq!(
        err.to_string(),
        "job: the rename step renames or moves files, so it cannot read stdin"
    );
    let err = check_stdin_steps("job", &strings(&["clean", "bogus"])).unwrap_err();
    assert!(err.to_string().starts_with("preset 'job': unknown step 'bogus'"));
}

#[test]
fn group_takes_one_path() {
    let one = strings(&["src"]);
    assert_eq!(group_target("job", &one).ok().unwrap(), "src");
    let two = strings(&["a", "b"]);
    assert_eq!(
        group_target("job", &two).unwrap_err().to_string(),
        "job: the group step takes exactly one directory, got 2 paths"
    );
    assert_eq!(
        group_target("job", &[]).unwrap_err().to_string(),
        "job: the group step takes exactly one directory, got 0 paths"
    );
}

#[test]
fn replace_arguments_pair_in_order() {
    let find = strings(&["a", "b"]);
    let with = strings(&["x", "y"]);
    let entries = pair_replace_patterns(&find, &with, true, false).ok().unwrap();
    assert_eq!(entries.len(), 2);
    assert_eq!(entries[1].find, "b");
    assert_eq!(entries[1].replace, "y");
    assert!(entries[0].literal);
    assert!(!entries[0].ignore_case);
    let err = pair_replace_patterns(&find, &strings(&["x"]), false, false).unwrap_err();
    assert_eq!(
        err.to_string(),
        "--find was given 2 time(s) and --replace-with 1; they pair in order"
    );
}

#[test]
fn header_text_turns_backslash_n_into_newlines() {
    assert_eq!(header_text("// A\\n// B"), "// A\n// B");
    assert_eq!(header_text("plain"), "plain");
}

#[test]
fn yes_answers() {
    assert!(is_yes("y"));
    assert!(is_yes(" YES \n"));
    assert!(is_yes("Yes"));
    assert!(!is_yes(""));
    assert!(!is_yes("no"));
    assert!(!is_yes("yeah"));
}

#[test]
fn scan_directories_from_an_answer() {
    assert_eq!(parse_scan_dirs("\n", "dir"), strings(&["dir"]));
    assert_eq!(parse_scan_dirs(" src , docs\n", "dir"), strings(&["src", "docs"]));
    assert_eq!(parse_scan_dirs("a,,b", "dir"), strings(&["a", "", "b"]));
}

#[test]
fn split_keeps_empty_pieces() {
    assert_eq!(split_on("a,b,,c", ','), strings(&["a", "b", "", "c"]));
    assert_eq!(split_on("", ','), strings(&[""]));
    assert_eq!(split_on(",", ','), strings(&["", ""]));
}

#[test]
fn scope_overlap_warnings() {
    assert!(starts_with_path("/w/src/a", "/w/src"));
    assert!(!starts_with_path("/w/srcx", "/w/src"));
    let m = scope_overlap("/w", "/w/templates", ".", "templates").unwrap();
    assert!(m.starts_with("Warning: --scope '.' contains the target directory 'templates'\n"));
    assert!(m.ends_with("(e.g., --scope ./src)."));
    let m = scope_overlap("/w/templates/x", "/w/templates", "x", "templates").unwrap();
    assert!(m.starts_with("Warning: --scope 'x' is inside the target directory 'templates'.\n"));
    assert!(scope_overlap("/w/src", "/w/templates", "src", "templates").is_none());
}

#[test]
fn fix_preview_shows_ten_and_counts_the_rest() {
    let mut record = FixRecord::new("changes.json", &[]);
    for i in 0..12 {
        record.fixes.push(fix("a.html", i + 1, "old.tmpl", "new/old.tmpl"));
    }
    let lines = fix_preview(&record);
    assert_eq!(lines.len(), 11);
    assert_eq!(lines[0], "  a.html:1: 'old.tmpl' -> 'new/old.tmpl'");
    assert_eq!(lines[9], "  a.html:10: 'old.tmpl' -> 'new/old.tmpl'");
    assert_eq!(lines[10], "  ... and 2 more (see fixes.json)");

    record.fixes.truncate(3);
    assert_eq!(fix_preview(&record).len(), 3);
}

#[test]
fn presets_are_listed_in_name_order() {
    let mut b = preset_of("clean");
    b.steps.push("emojis".to_string());
    let a = Preset { steps: strings(&["rename"]), ..Default::default() };
    let config = vec![("zeta".to_string(), b), ("alpha".to_string(), a)];
    assert_eq!(
        presets_listing("reformat.json", &config),
        "reformat.json:\n  alpha: rename\n  zeta: clean, emojis\n"
    );
    assert_eq!(presets_listing("x.json", &[]), "x.json:\n");
}

#[test]
fn command_summaries_in_each_steps_words() {
    assert_eq!(command_summary("convert", 2, 5), "Converted 5 identifier(s) in 2 file(s)");
    assert_eq!(command_summary("clean", 1, 3), "Cleaned 3 lines in 1 file(s)");
    assert_eq!(command_summary("emojis", 1, 4), "Transformed emojis in 1 file(s) (4 changes)");
    assert_eq!(command_summary("rename", 3, 0), "Renamed 3 file(s)");
    assert_eq!(command_summary("endings", 2, 7), "Normalized 7 ending(s) in 2 file(s)");
    assert_eq!(command_summary("indent", 2, 9), "Normalized 9 line(s) in 2 file(s)");
    assert_eq!(command_summary("replace", 1, 2), "Made 2 replacement(s) in 1 file(s)");
    assert_eq!(command_summary("header", 4, 4), "Updated headers in 4 file(s)");
    assert_eq!(
        command_summary("editorconfig", 1, 6),
        "Applied EditorConfig to 1 file(s) (6 changes)"
    );
    assert_eq!(command_nothing("clean"), "No files needed cleaning");
    assert_eq!(command_nothing("replace"), "No files matched the pattern");
    assert_eq!(command_nothing("editorconfig"), "All files already match .editorconfig");
}

#[test]
fn pipeline_lines_per_outcome() {
    let counted = StepOutcome::Counted { files: 2, units: 5 };
    assert_eq!(outcome_line("[DRY-RUN] ", "clean", &counted), "[DRY-RUN]   clean: 2 file(s), 5 change(s)");
    let none = StepOutcome::Counted { files: 0, units: 0 };
    assert_eq!(outcome_line("", "indent", &none), "  indent: nothing to do");
    let renamed = StepOutcome::Renamed(RenameStats { renamed: 3, skipped: 0, errors: Vec::new() });
    assert_eq!(outcome_line("", "rename", &renamed), "  rename: 3 file(s) renamed");
    let grouped = StepOutcome::Grouped(GroupStats { dirs_created: 1, files_moved: 4, files_renamed: 0 });
    assert_eq!(outcome_line("", "group", &grouped), "  group: 1 dir(s) created, 4 file(s) moved");
    assert_eq!(counted.files(), 2);
    assert_eq!(counted.counted(), (2, 5));
    assert_eq!(grouped.files(), 4);
}

#[test]
fn default_command_report() {
    assert_eq!(default_report("", 0, 0, 0, 0), strings(&["No files needed processing"]));
    assert_eq!(
        default_report("[DRY-RUN] ", 1, 2, 3, 4),
        strings(&[
            "[DRY-RUN] Processed files:",
            "  - Emoji transformations: 1 file(s) (2 changes)",
            "  - Whitespace cleaned: 3 file(s) (4 lines)",
        ])
    );
    assert_eq!(
        default_report("", 0, 0, 3, 4),
        strings(&["Processed files:", "  - Whitespace cleaned: 3 file(s) (4 lines)"])
    );
}

#[test]
fn finishing_a_run() {
    let changed = Execution {
        outcomes: vec![("clean".to_string(), StepOutcome::Counted { files: 1, units: 1 })],
        errors: Vec::new(),
    };
    let check = RunFlags { check: true, ..Default::default() };
    assert_eq!(finish(&changed, &check).ok(), Some(true));
    assert_eq!(finish(&changed, &RunFlags::default()).ok(), Some(false));
    let quiet = Execution {
        outcomes: vec![("clean".to_string(), StepOutcome::Counted { files: 0, units: 0 })],
        errors: Vec::new(),
    };
    assert_eq!(finish(&quiet, &check).ok(), Some(false));
    let failed = Execution { outcomes: Vec::new(), errors: strings(&["a: bad", "b: bad"]) };
    assert_eq!(
        finish(&failed, &check).unwrap_err().to_string(),
        "2 file(s) could not be processed"
    );
}

#[test]
fn stdin_replies_and_exit_status() {
    let diff = RunFlags { diff: true, ..Default::default() };
    assert_eq!(stdin_reply(&diff, true), StdinReply::Diff);
    assert_eq!(stdin_reply(&diff, false), StdinReply::Silent);
    let check = RunFlags { check: true, ..Default::default() };
    assert_eq!(stdin_reply(&check, true), StdinReply::Silent);
    assert_eq!(stdin_reply(&RunFlags::default(), false), StdinReply::Content);
    assert_eq!(exit_status(Some(false)), 0);
    assert_eq!(exit_status(Some(true)), 1);
    assert_eq!(exit_status(None), 2);
}

#[test]
fn argument_checks() {
    assert!(check_default_args(0, true).is_ok());
    assert_eq!(
        check_default_args(0, false).unwrap_err().to_string(),
        "no command or path specified. Use --help for usage information."
    );
    assert!(check_job_source("-", false).is_ok());
    assert!(check_job_source("job.json", true).is_ok());
    assert!(check_job_source("-", true).is_err());
    assert_eq!(job_label("-"), "stdin");
    assert_eq!(job_label("job.json"), "job.json");
    assert!(check_editorconfig_args(false).is_ok());
    assert!(check_editorconfig_args(true).is_err());
}

#[test]
fn applying_fixes_report() {
    let result = ApplyResult {
        files_modified: 2,
        references_fixed: 3,
        references_skipped: 0,
        errors: Vec::new(),
    };
    assert_eq!(applied_report(&result), strings(&["\nFixed 3 reference(s) in 2 file(s)."]));
    let stale = ApplyResult { references_skipped: 1, ..result };
    let lines = applied_report(&stale);
    assert_eq!(lines.len(), 2);
    assert!(lines[1].starts_with("Skipped 1 reference(s): the recorded text no longer matches"));
}

#[test]
fn split_lines_one_at_a_time() {
    let mut lines = SplitLines::new("a\r\nb\nc");
    assert_eq!(lines.next(), Some(("a".to_string(), "\r\n".to_string())));
    assert_eq!(lines.next(), Some(("b".to_string(), "\n".to_string())));
    assert_eq!(lines.next(), Some(("c".to_string(), "".to_string())));
    assert_eq!(lines.next(), None);
    assert_eq!(SplitLines::new("").next(), None);
}

#[test]
fn walk_entries_prune_hidden_and_build_directories() {
    assert!(include_entry(Some(".hidden-root"), 0, &DEFAULT_SKIP_DIRS));
    assert!(!include_entry(Some(".git"), 0, &DEFAULT_SKIP_DIRS));
    assert!(!include_entry(Some(".cache"), 1, &DEFAULT_SKIP_DIRS));
    assert!(!include_entry(Some("node_modules"), 2, &DEFAULT_SKIP_DIRS));
    assert!(include_entry(Some("src"), 1, &DEFAULT_SKIP_DIRS));
    assert!(!include_entry(None, 1, &DEFAULT_SKIP_DIRS));
}

#[test]
fn editorconfig_properties_give_a_style() {
    let props = EditorProperties {
        trim_trailing_whitespace: Some(true),
        insert_final_newline: Some(false),
        end_of_line: Some(LineEnding::Crlf),
        indent_style: Some(IndentStyle::Spaces),
        tab_width: Some(2),
    };
    let style = style_from_properties(&props, true);
    assert!(style.trim_trailing_whitespace);
    assert!(!style.insert_final_newline);
    assert_eq!(style.end_of_line, Some(LineEnding::Crlf));
    assert_eq!(style.indent, Some((IndentStyle::Spaces, 2)));
    assert_eq!(style_from_properties(&props, false).indent, None);
    let zero = EditorProperties { tab_width: Some(0), ..props };
    assert_eq!(style_from_properties(&zero, true).indent, None);
    assert!(style_from_properties(&EditorProperties::default(), true).is_empty());
}

#[test]
fn test_cli_endings_rejects_unknown_style() {
    let mut p = preset_of("endings");
    p.endings = Some(EndingsConfig {
        style: Some("nonsense".to_string()),
        ..Default::default()
    });
    let err = build_content_step(&p, "endings", false, "endings").err();
    assert!(err.is_some(), "an unknown style should fail");
    assert_eq!(
        err.unwrap().to_string(),
        "unknown endings.style 'nonsense'. Valid values: lf, crlf, cr"
    );
}

#[test]
fn test_cli_indent_rejects_unknown_style() {
    let mut p = preset_of("indent");
    p.indent = Some(IndentConfig {
        style: Some("nonsense".to_string()),
        ..Default::default()
    });
    let err = build_content_step(&p, "indent", false, "indent").err();
    assert!(err.is_some(), "an unknown style should fail");
    assert_eq!(
        err.unwrap().to_string(),
        "unknown indent.style 'nonsense'. Valid values: spaces, tabs"
    );
}

#[test]
fn test_read_normalizes_windows_separators() {
    let mut record = FixRecord::new("changes.json", &[]);
    record.fixes.push(ReferenceFix {
        file: "main.go".to_string(),
        line: 1,
        column: 7,
        offset: Some(6),
        context: r#"load("wbs_a.tmpl")"#.to_string(),
        old_reference: "wbs_a.tmpl".to_string(),
        new_reference: "wbs\\a.tmpl".to_string(),
    });
    record.normalize_separators();
    let expected = if std::path::MAIN_SEPARATOR == '\\' {
        "wbs/a.tmpl"
    } else {
        "wbs\\a.tmpl"
    };
    assert_eq!(record.fixes[0].new_reference, expected);
}
