use lint_core::analyzer::{create_linter, lint_file};
use lint_core::cache::IncrementalCache;
use lint_core::orchestrator::{
    create_reporter, lint_files, member_should_check, process_file, report_surface_diagnostics,
    AnyReporter, LintReporterKind,
};
use lint_core::rules::{
    get_config_rules_err_empty, get_configured_rules, get_default_tags, rule_codes,
    ConfigFileInfo, LintRulesConfig,
};

fn codes_of(rules: &lint_core::rules::ConfiguredRules) -> Vec<String> {
    rule_codes(&rules.rules)
        .into_iter()
        .map(|b| String::from_utf8(b).unwrap())
        .collect()
}

#[test]
fn recommended_rules_when_no_tags_in_config() {
    let rules_config = LintRulesConfig {
        exclude: Some(vec![b"no-debugger".to_vec()]),
        included: None,
        tags: None,
    };
    let rules = get_configured_rules(rules_config, None);
    let mut rule_names = codes_of(&rules);
    rule_names.sort();
    let mut recommended_rule_names = deno_lint::rules::recommended_rules(
        deno_lint::rules::get_all_rules(),
    )
    .into_iter()
    .map(|r| r.code().to_string())
    .filter(|n| n != "no-debugger")
    .collect::<Vec<_>>();
    recommended_rule_names.sort();
    assert_eq!(rule_names, recommended_rule_names);
}

#[test]
fn default_tags_add_jsr_for_packages() {
    let plain = get_default_tags(None);
    assert_eq!(plain, vec![b"recommended".to_vec()]);
    let cfg = ConfigFileInfo {
        is_package: true,
        has_workspaces: false,
    };
    let pkg = get_default_tags(Some(&cfg));
    assert_eq!(pkg, vec![b"recommended".to_vec(), b"jsr".to_vec()]);
}

#[test]
fn no_slow_types_is_implied_and_excludable() {
    let cfg = ConfigFileInfo {
        is_package: true,
        has_workspaces: false,
    };
    let implied = get_configured_rules(
        LintRulesConfig {
            tags: None,
            exclude: None,
            included: None,
        },
        Some(&cfg),
    );
    assert!(implied.no_slow_types);
    let excluded = get_configured_rules(
        LintRulesConfig {
            tags: None,
            exclude: Some(vec![b"no-slow-types".to_vec()]),
            included: None,
        },
        Some(&cfg),
    );
    assert!(!excluded.no_slow_types);
    let none = get_configured_rules(
        LintRulesConfig {
            tags: None,
            exclude: None,
            included: None,
        },
        None,
    );
    assert!(!none.no_slow_types);
}

#[test]
fn empty_rule_selection_is_a_setup_error() {
    let r = get_config_rules_err_empty(
        LintRulesConfig {
            tags: Some(Vec::new()),
            exclude: None,
            included: None,
        },
        None,
    );
    match r {
        Err(e) => assert_eq!(e.message(), b"No rules have been configured".to_vec()),
        Ok(_) => panic!("an empty tag list selects no rules"),
    }
}

#[test]
fn fingerprint_is_sorted_and_marks_the_surface_check() {
    let cfg = ConfigFileInfo {
        is_package: true,
        has_workspaces: true,
    };
    let rules = get_configured_rules(
        LintRulesConfig {
            tags: None,
            exclude: None,
            included: None,
        },
        Some(&cfg),
    );
    let state = rules.incremental_cache_state();
    let mut sorted_codes = rule_codes(&rules.rules);
    sorted_codes.sort();
    assert_eq!(state.len(), sorted_codes.len() + 1);
    assert_eq!(state[..sorted_codes.len()], sorted_codes[..]);
    assert_eq!(state.last().unwrap(), &b"no-slow-types".to_vec());
}

fn no_window_rules() -> lint_core::rules::ConfiguredRules {
    get_configured_rules(
        LintRulesConfig {
            tags: Some(Vec::new()),
            exclude: None,
            included: Some(vec![b"no-window".to_vec()]),
        },
        None,
    )
}

#[test]
fn analysis_reports_the_included_rule() {
    let rules = no_window_rules();
    assert_eq!(codes_of(&rules), vec!["no-window".to_string()]);
    let linter = create_linter(rules.rules);
    let out = lint_file(
        &linter,
        &b"file:///foo.ts".to_vec(),
        &b"window.fetch();\n".to_vec(),
        false,
    )
    .expect("analysis succeeds");
    assert!(!out.changed);
    assert_eq!(out.diagnostics.len(), 1);
    let d = &out.diagnostics[0];
    assert_eq!(d.code, b"no-window".to_vec());
    assert_eq!(d.specifier, b"file:///foo.ts".to_vec());
    assert!(d.range.is_some());
    assert!(!d.fixes.is_empty());
}

#[test]
fn fix_mode_rewrites_to_convergence() {
    let rules = no_window_rules();
    let linter = create_linter(rules.rules);
    let out = lint_file(
        &linter,
        &b"file:///foo.ts".to_vec(),
        &b"window.fetch();\n".to_vec(),
        true,
    )
    .expect("analysis succeeds");
    assert!(out.changed);
    assert_eq!(out.iterations, 1);
    assert!(!out.warned);
    assert_eq!(out.text, b"globalThis.fetch();\n".to_vec());
    assert_eq!(out.diagnostics.len(), 0);
}

#[test]
fn clean_file_converges_without_edits() {
    let rules = no_window_rules();
    let linter = create_linter(rules.rules);
    let out = lint_file(
        &linter,
        &b"file:///foo.ts".to_vec(),
        &b"globalThis.fetch();\n".to_vec(),
        true,
    )
    .expect("analysis succeeds");
    assert!(!out.changed);
    assert_eq!(out.iterations, 0);
    assert_eq!(out.diagnostics.len(), 0);
}

#[test]
fn failed_file_is_isolated_and_clean_sibling_is_cached() {
    let rules = no_window_rules();
    let linter = create_linter(rules.rules);
    let state = vec![b"no-window".to_vec()];
    let mut cache = IncrementalCache::new(state);
    let mut reporter = create_reporter(LintReporterKind::Json);
    let bad_spec = b"file:///bad.ts".to_vec();
    let bad_content = b"const = ;;;(".to_vec();
    let good_spec = b"file:///good.ts".to_vec();
    let good_content = b"globalThis.fetch();\n".to_vec();

    let bad = process_file(&linter, &mut cache, &mut reporter, &bad_spec, &bad_content, false);
    let good = process_file(
        &linter,
        &mut cache,
        &mut reporter,
        &good_spec,
        &good_content,
        false,
    );

    assert!(bad.handled.errored);
    assert!(!bad.handled.success);
    assert!(good.handled.success);
    // the failure did not stop the sibling: its clean result is recorded
    assert!(cache.is_file_same(&good_spec, &good_content));
    assert!(!cache.is_file_same(&bad_spec, &bad_content));
    // overall success reflects the error flag
    let any_error = !bad.handled.success || !good.handled.success;
    assert!(any_error);
    match reporter {
        AnyReporter::Json(j) => {
            assert_eq!(j.errors.len(), 1);
            assert_eq!(j.errors[0].file_path, bad_spec);
            assert_eq!(j.diagnostics.len(), 0);
        }
        _ => panic!("expected the machine-readable sink"),
    }
}

#[test]
fn end_to_end_fix_run_over_two_files() {
    let rules = no_window_rules();
    let state = rules.incremental_cache_state();
    let linter = create_linter(rules.rules);
    let mut cache = IncrementalCache::new(state);
    let mut reporter = create_reporter(LintReporterKind::Json);
    let foo_spec = b"file:///foo.ts".to_vec();
    let foo_content = b"window.fetch();\n".to_vec();
    let bar_spec = b"file:///bar.ts".to_vec();
    let bar_content = b"globalThis.console.log(2);\n".to_vec();

    let foo = process_file(&linter, &mut cache, &mut reporter, &foo_spec, &foo_content, true);
    let bar = process_file(&linter, &mut cache, &mut reporter, &bar_spec, &bar_content, true);

    // foo was rewritten once and fully resolved, so its entry holds the new text
    assert!(!foo.skipped);
    assert!(foo.handled.changed);
    assert_eq!(foo.handled.text, b"globalThis.fetch();\n".to_vec());
    assert!(foo.handled.success);
    assert!(cache.is_file_same(&foo_spec, &b"globalThis.fetch();\n".to_vec()));
    // bar was clean from the start
    assert!(!bar.skipped);
    assert!(!bar.handled.changed);
    assert!(bar.handled.success);
    assert!(cache.is_file_same(&bar_spec, &bar_content));
    // the sink saw no diagnostics, and the run succeeds
    match reporter {
        AnyReporter::Json(j) => {
            let closed = j.close();
            assert_eq!(closed.diagnostics.len(), 0);
            assert_eq!(closed.errors.len(), 0);
        }
        _ => panic!("expected the machine-readable sink"),
    }
    assert!(foo.handled.success && bar.handled.success);
}

#[test]
fn cached_file_is_skipped_entirely() {
    let rules = no_window_rules();
    let linter = create_linter(rules.rules);
    let mut cache = IncrementalCache::new(vec![b"no-window".to_vec()]);
    let spec = b"file:///foo.ts".to_vec();
    let content = b"globalThis.fetch();\n".to_vec();
    cache.update_file(&spec, &content);
    let mut reporter = create_reporter(LintReporterKind::Json);
    let out = process_file(&linter, &mut cache, &mut reporter, &spec, &content, false);
    assert!(out.skipped);
    assert!(out.handled.success);
    assert_eq!(out.handled.found, 0);
}

#[test]
fn workspace_member_checked_only_when_entry_point_requested() {
    let exports = vec![b"file:///mod.ts".to_vec(), b"file:///extra.ts".to_vec()];
    let requested = vec![b"file:///other.ts".to_vec(), b"file:///extra.ts".to_vec()];
    assert!(member_should_check(&exports, &requested));
    let unrelated = vec![b"file:///nope.ts".to_vec()];
    assert!(!member_should_check(&exports, &unrelated));
}

#[test]
fn surface_diagnostics_raise_the_error_flag() {
    let mut reporter = create_reporter(LintReporterKind::Compact);
    let (raised, emitted) = report_surface_diagnostics(&mut reporter, Vec::new());
    assert!(!raised);
    assert!(emitted.is_empty());
    let d = lint_core::diagnostics::SurfaceDiagnostic {
        specifier: b"file:///mod.ts".to_vec(),
        message: b"slow type".to_vec(),
        hint: None,
        level: lint_core::diagnostics::Level::Error,
        range: None,
        text: Vec::new(),
    };
    let (raised, emitted) = report_surface_diagnostics(&mut reporter, vec![d]);
    assert!(raised);
    assert_eq!(
        emitted,
        vec![b"file:///mod.ts: slow type (no-slow-types)".to_vec()]
    );
}

#[test]
fn applied_fix_error_message_is_distinct() {
    let e = lint_core::analyzer::FileError::AppliedFixInvalid(b"boom".to_vec());
    assert_eq!(
        e.message(),
        b"An applied lint fix caused a syntax error. Please report this bug.".to_vec()
    );
    let a = lint_core::analyzer::FileError::Analysis(b"could not parse".to_vec());
    assert_eq!(a.message(), b"could not parse".to_vec());
}

#[test]
fn lint_files_aggregates_the_error_flag() {
    let rules = no_window_rules();
    let linter = create_linter(rules.rules);
    let mut cache = IncrementalCache::new(vec![b"no-window".to_vec()]);
    let mut reporter = create_reporter(LintReporterKind::Compact);
    let (ok, outcomes) = lint_files(
        &linter,
        &mut cache,
        &mut reporter,
        vec![
            (b"file:///a.ts".to_vec(), b"globalThis.fetch();\n".to_vec()),
            (b"file:///b.ts".to_vec(), b"window.fetch();\n".to_vec()),
        ],
        false,
    );
    assert!(!ok);
    assert_eq!(outcomes.len(), 2);
    assert!(outcomes[0].handled.success);
    assert!(!outcomes[1].handled.success);
    assert_eq!(outcomes[1].handled.found, 1);
    let all_clean = lint_files(
        &linter,
        &mut cache,
        &mut reporter,
        vec![(b"file:///a.ts".to_vec(), b"globalThis.fetch();\n".to_vec())],
        false,
    );
    assert!(all_clean.0);
    // the clean file from the first batch is now skipped from the cache
    assert!(all_clean.1[0].skipped);
}

#[test]
fn run_fails_when_surface_check_raises() {
    let mut reporter = create_reporter(LintReporterKind::Compact);
    let d = lint_core::diagnostics::SurfaceDiagnostic {
        specifier: b"file:///mod.ts".to_vec(),
        message: b"slow type".to_vec(),
        hint: None,
        level: lint_core::diagnostics::Level::Error,
        range: None,
        text: Vec::new(),
    };
    let (raised, _) = report_surface_diagnostics(&mut reporter, vec![d]);
    let (_, success) = lint_core::orchestrator::finish_run(reporter, 0, true, raised);
    assert!(!success);

    let clean = create_reporter(LintReporterKind::Compact);
    let (_, ok) = lint_core::orchestrator::finish_run(clean, 1, true, false);
    assert!(ok);
}

