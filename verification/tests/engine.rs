use lint_core::cache::IncrementalCache;
use lint_core::convergence::{compute_fix_batch, fix_step, FixDecision};
use lint_core::diagnostics::{CandidateFix, FileDiagnostic, Level};
use lint_core::edits::TextEdit;

fn edit(start: usize, end: usize, replacement: &[u8]) -> TextEdit {
    TextEdit {
        start,
        end,
        replacement: replacement.to_vec(),
    }
}

fn diag_with_fix(edits: Vec<TextEdit>) -> FileDiagnostic {
    FileDiagnostic {
        specifier: b"file:///a.ts".to_vec(),
        code: b"synthetic".to_vec(),
        message: b"synthetic finding".to_vec(),
        hint: None,
        level: Level::Error,
        range: Some((0, 1)),
        fixes: vec![CandidateFix { edits }],
    }
}

#[test]
fn overlap_policy_drops_conflicting_edit() {
    let text = b"0123456789ABC".to_vec();
    let diags = vec![diag_with_fix(vec![
        edit(0, 5, b"a"),
        edit(3, 8, b"b"),
        edit(10, 12, b"c"),
    ])];
    let out = compute_fix_batch(&text, &diags);
    // [3,8) overlaps [0,5) and is dropped; [0,5) and [10,12) survive.
    assert_eq!(out, Some(b"a56789cC".to_vec()));
}

#[test]
fn overlap_policy_keeps_edits_sorted_by_start() {
    let text = b"hello world".to_vec();
    let diags = vec![diag_with_fix(vec![edit(6, 11, b"there"), edit(0, 5, b"bye")])];
    let out = compute_fix_batch(&text, &diags);
    assert_eq!(out, Some(b"bye there".to_vec()));
}

#[test]
fn no_diagnostics_no_edits() {
    let text = b"anything".to_vec();
    let diags: Vec<FileDiagnostic> = Vec::new();
    assert_eq!(compute_fix_batch(&text, &diags), None);
    match fix_step(&text, &diags, 0) {
        FixDecision::Converged => {}
        _ => panic!("expected convergence on a clean analysis"),
    }
}

#[test]
fn unfixable_diagnostics_converge_immediately() {
    let text = b"anything".to_vec();
    let mut d = diag_with_fix(Vec::new());
    d.fixes = Vec::new();
    let diags = vec![d];
    assert_eq!(compute_fix_batch(&text, &diags), None);
}

#[test]
fn out_of_bounds_edits_are_dropped() {
    let text = b"short".to_vec();
    let diags = vec![diag_with_fix(vec![edit(2, 99, b"x")])];
    assert_eq!(compute_fix_batch(&text, &diags), None);
}

#[test]
fn bounded_convergence_stops_after_five_applied_iterations() {
    // A synthetic rule whose fix never resolves the triggering condition:
    // every re-analysis reports the same fixable finding again.
    let mut text = b"xy".to_vec();
    let mut applied = 0u64;
    loop {
        let diags = vec![diag_with_fix(vec![edit(0, 1, b"x")])];
        match fix_step(&text, &diags, applied) {
            FixDecision::Apply(new_text) => {
                text = new_text;
                applied += 1;
            }
            FixDecision::CapReached => {
                break;
            }
            FixDecision::Converged => panic!("synthetic rule should never converge"),
        }
    }
    assert_eq!(applied, 5);
    assert_eq!(text, b"xy".to_vec());
}

#[test]
fn cache_skips_same_content_and_invalidates_on_rule_change() {
    let fingerprint = vec![b"no-var".to_vec(), b"no-slow-types".to_vec()];
    let mut run1 = IncrementalCache::new(fingerprint.clone());
    let path = b"file:///a.ts".to_vec();
    let content = b"let x = 1;".to_vec();
    let gone = b"file:///gone.ts".to_vec();
    assert!(!run1.is_file_same(&path, &content));
    run1.update_file(&path, &content);
    run1.update_file(&gone, &content);
    assert!(run1.is_file_same(&path, &content));

    // Run N+1, unchanged rule set and targets: the clean file is skipped;
    // the record of a file no longer among the targets is dropped.
    let targets = vec![path.clone(), b"file:///b.ts".to_vec()];
    let run2 = IncrementalCache::from_previous(fingerprint.clone(), &targets, run1);
    assert!(run2.is_file_same(&path, &content));
    assert!(!run2.is_file_same(&path, &b"let x = 2;".to_vec()));
    assert!(!run2.is_file_same(&gone, &content));

    // Changing one enabled rule code invalidates the skip for all files.
    let other = vec![b"eqeqeq".to_vec(), b"no-slow-types".to_vec()];
    let run3 = IncrementalCache::from_previous(other, &targets, run2);
    assert!(!run3.is_file_same(&path, &content));
}
