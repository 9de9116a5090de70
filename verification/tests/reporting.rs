use lint_core::diagnostics::{FileDiagnostic, Level, LintOrCliDiagnostic, SurfaceDiagnostic};
use lint_core::orchestrator::{create_reporter, AnyReporter, LintReporterKind};
use lint_core::positions::{line_and_column_index, JsonDiagnosticLintPosition};
use lint_core::reporters::{
    sort_diagnostics, CompactLintReporter, JsonLintDiagnostic, JsonLintDiagnosticRange,
    JsonLintReporter, PrettyLintReporter,
};

fn plain_diag(
    specifier: &[u8],
    code: &[u8],
    message: &[u8],
    range: Option<(usize, usize)>,
) -> FileDiagnostic {
    FileDiagnostic {
        specifier: specifier.to_vec(),
        code: code.to_vec(),
        message: message.to_vec(),
        hint: None,
        level: Level::Error,
        range,
        fixes: Vec::new(),
    }
}

fn record(filename: &[u8], line: usize, col: usize) -> JsonLintDiagnostic {
    JsonLintDiagnostic {
        filename: filename.to_vec(),
        range: Some(JsonLintDiagnosticRange {
            start: JsonDiagnosticLintPosition {
                line,
                col,
                byte_pos: 0,
            },
            end: JsonDiagnosticLintPosition {
                line,
                col: col + 1,
                byte_pos: 1,
            },
        }),
        message: b"m".to_vec(),
        code: b"c".to_vec(),
        hint: None,
    }
}

fn record_no_range(filename: &[u8], message: &[u8]) -> JsonLintDiagnostic {
    JsonLintDiagnostic {
        filename: filename.to_vec(),
        range: None,
        message: message.to_vec(),
        code: b"c".to_vec(),
        hint: None,
    }
}

fn same_record(a: &JsonLintDiagnostic, b: &JsonLintDiagnostic) -> bool {
    a.filename == b.filename
        && a.range == b.range
        && a.message == b.message
        && a.code == b.code
        && a.hint == b.hint
}

#[test]
fn sort_diagnostics_orders_by_file_line_col() {
    let out = sort_diagnostics(vec![
        record(b"file:///b.ts", 1, 0),
        record(b"file:///a.ts", 2, 5),
        record(b"file:///a.ts", 2, 1),
        record_no_range(b"file:///a.ts", b"whole file"),
        record(b"file:///a.ts", 1, 9),
    ]);
    let filenames: Vec<&[u8]> = out.iter().map(|d| d.filename.as_slice()).collect();
    assert_eq!(
        filenames,
        vec![
            b"file:///a.ts".as_slice(),
            b"file:///a.ts".as_slice(),
            b"file:///a.ts".as_slice(),
            b"file:///a.ts".as_slice(),
            b"file:///b.ts".as_slice(),
        ]
    );
    assert_eq!(out[0].range.as_ref().unwrap().start.line, 1);
    assert_eq!(out[1].range.as_ref().unwrap().start.col, 1);
    assert_eq!(out[2].range.as_ref().unwrap().start.col, 5);
    // a location sorts before no location within the same file
    assert!(out[3].range.is_none());
}

#[test]
fn machine_error_records_sort_on_close() {
    let mut one = JsonLintReporter::new();
    let mut two = JsonLintReporter::new();
    let b_path = b"file:///b.ts".to_vec();
    let a_path = b"file:///a.ts".to_vec();
    let msg = b"boom".to_vec();
    one.visit_error(&b_path, &msg);
    one.visit_error(&a_path, &msg);
    two.visit_error(&a_path, &msg);
    two.visit_error(&b_path, &msg);
    let one = one.close();
    let two = two.close();
    assert_eq!(one.errors.len(), 2);
    assert_eq!(one.errors[0].file_path, a_path);
    assert_eq!(one.errors[1].file_path, b_path);
    assert_eq!(two.errors[0].file_path, a_path);
    assert_eq!(two.errors[1].file_path, b_path);
}

#[test]
fn machine_output_is_deterministic_across_interleavings() {
    // Two workers' records arrive in different interleavings; per-file
    // order is fixed. The closed documents must agree.
    let a1 = record(b"file:///a.ts", 1, 0);
    let mut a2 = record(b"file:///a.ts", 1, 0); // comparator tie with a1
    a2.message = b"m2".to_vec(); // but a distinct record
    let b1 = record(b"file:///b.ts", 9, 9);
    let mut first = JsonLintReporter::new();
    let mut second = JsonLintReporter::new();
    let wrap = |d: &JsonLintDiagnostic| JsonLintDiagnostic {
        filename: d.filename.clone(),
        range: d.range,
        message: d.message.clone(),
        code: d.code.clone(),
        hint: d.hint.clone(),
    };
    first.diagnostics.push(wrap(&a1));
    first.diagnostics.push(wrap(&b1));
    first.diagnostics.push(wrap(&a2));
    second.diagnostics.push(wrap(&b1));
    second.diagnostics.push(wrap(&a1));
    second.diagnostics.push(wrap(&a2));
    let one = first.close();
    let two = second.close();
    assert_eq!(one.diagnostics.len(), two.diagnostics.len());
    for (x, y) in one.diagnostics.iter().zip(two.diagnostics.iter()) {
        assert!(same_record(x, y));
    }
}

#[test]
fn compact_line_shows_one_indexed_line_and_zero_indexed_col() {
    let text = b"ab\ncdef".to_vec();
    let d = plain_diag(b"file:///x.ts", b"no-var", b"found it", Some((5, 6)));
    let mut reporter = CompactLintReporter::new();
    let chunk = reporter.visit_diagnostic(&LintOrCliDiagnostic::Lint(d, text));
    assert_eq!(
        chunk,
        b"file:///x.ts: line 2, col 2 - found it (no-var)".to_vec()
    );
    assert_eq!(reporter.lint_count, 1);
}

#[test]
fn compact_line_without_location() {
    let d = plain_diag(b"file:///x.ts", b"no-var", b"whole file", None);
    let mut reporter = CompactLintReporter::new();
    let chunk = reporter.visit_diagnostic(&LintOrCliDiagnostic::Lint(d, b"".to_vec()));
    assert_eq!(chunk, b"file:///x.ts: whole file (no-var)".to_vec());
}

#[test]
fn pretty_reporter_counts_fixable_diagnostics() {
    let mut fixable = plain_diag(b"file:///x.ts", b"no-var", b"var is banned", Some((0, 3)));
    fixable.fixes = vec![lint_core::diagnostics::CandidateFix {
        edits: vec![lint_core::edits::TextEdit {
            start: 0,
            end: 3,
            replacement: b"let".to_vec(),
        }],
    }];
    let plain = plain_diag(b"file:///x.ts", b"eqeqeq", b"use ===", Some((4, 5)));
    let mut reporter = PrettyLintReporter::new();
    reporter.visit_diagnostic(&LintOrCliDiagnostic::Lint(fixable, b"var x = 1;".to_vec()));
    reporter.visit_diagnostic(&LintOrCliDiagnostic::Lint(plain, b"var x = 1;".to_vec()));
    assert_eq!(reporter.lint_count, 2);
    assert_eq!(reporter.fixable_diagnostics, 1);
    let summary = reporter.close(3);
    assert_eq!(
        summary,
        b"Found 2 problems (1 fixable via --fix)\nChecked 3 files".to_vec()
    );
}

#[test]
fn close_summary_singular_forms() {
    let mut reporter = CompactLintReporter::new();
    let d = plain_diag(b"file:///x.ts", b"c", b"m", None);
    reporter.visit_diagnostic(&LintOrCliDiagnostic::Lint(d, b"".to_vec()));
    assert_eq!(
        reporter.close(1),
        b"Found 1 problem\nChecked 1 file".to_vec()
    );
}

#[test]
fn surface_diagnostics_report_under_the_synthetic_code() {
    let d = SurfaceDiagnostic {
        specifier: b"file:///mod.ts".to_vec(),
        message: b"missing explicit return type".to_vec(),
        hint: Some(b"add a type annotation".to_vec()),
        level: Level::Error,
        range: None,
        text: Vec::new(),
    };
    let mut reporter = create_reporter(LintReporterKind::Json);
    let emitted = reporter.visit_diagnostic(&LintOrCliDiagnostic::FastCheck(d));
    assert!(emitted.is_none());
    match reporter {
        AnyReporter::Json(j) => {
            assert_eq!(j.diagnostics.len(), 1);
            assert_eq!(j.diagnostics[0].code, b"no-slow-types".to_vec());
            assert!(j.diagnostics[0].range.is_none());
        }
        _ => panic!("expected the machine-readable sink"),
    }
}

#[test]
fn positions_count_lines_and_character_columns() {
    // "é" is two bytes but one character: the column advances once.
    let text = "a\u{e9}b\ncd".as_bytes().to_vec();
    assert_eq!(text.len(), 7);
    let p = line_and_column_index(&text, 4);
    assert_eq!(p.line_index, 0);
    assert_eq!(p.column_index, 3);
    let q = line_and_column_index(&text, 6);
    assert_eq!(q.line_index, 1);
    assert_eq!(q.column_index, 1);
    let pos = JsonDiagnosticLintPosition::new(6, q);
    assert_eq!(pos.line, 2);
    assert_eq!(pos.col, 1);
    assert_eq!(pos.byte_pos, 6);
}
