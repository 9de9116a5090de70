//! The analysis orchestrator's per-unit flow.
//!
//! One reporting sink serves the whole run; concurrent workers serialize
//! their visits around it. For each target file: consult the cache gateway
//! and skip a known-clean file outright; otherwise analyze (with the fix
//! loop when fix mode is on), report the resulting diagnostics in a
//! deterministic per-file order, and record the file clean when it ended
//! clean. A file's failure is isolated: it raises the run's error flag and
//! is reported, but sibling files are untouched. The workspace-level task
//! feeds its surface diagnostics into the same sink.

use vstd::prelude::*;

use crate::analyzer::FileError;
use crate::analyzer::LintedFile;
use crate::analyzer::lint_file;
use crate::cache::IncrementalCache;
use crate::cache::bytes_eq;
use crate::cache::cache_has;
use crate::cache::entry_views;
use crate::diagnostics::FileDiagnostic;
use crate::diagnostics::LintOrCliDiagnostic;
use crate::diagnostics::SurfaceDiagnostic;
use crate::diagnostics::copy_bytes;
use crate::reporters::CompactLintReporter;
use crate::reporters::JsonLintDiagnostic;
use crate::reporters::JsonLintReporter;
use crate::reporters::PrettyLintReporter;
use crate::reporters::compact_line;
use crate::reporters::err_path_views;
use crate::reporters::error_chunk;
use crate::reporters::json_record_of;
use crate::reporters::jdiag_views;
use crate::reporters::pretty_chunk;
use crate::reporters::sat_inc;
use crate::sorting::stable_sorted;
use crate::reporters::summary_bytes;
use crate::sorting::SortKey;
use crate::sorting::SortKeyExec;
use crate::sorting::sort_by_order;
use crate::reporters::lemma_lint_chunks_depend_on_views;
use crate::textorder::byte_views;
use crate::textorder::bytes_cmp3;
use crate::textorder::lex_le;
use crate::textorder::lemma_lex_le_antisym;
use crate::textorder::lemma_lex_le_total;
use crate::textorder::lemma_lex_le_trans;

verus! {

/// Per-file visit order: file identity, then range start; a diagnostic
/// with a range before one without.
impl SortKey for FileDiagnostic {
    open spec fn le(self, other: Self) -> bool {
        if self.specifier@ == other.specifier@ {
            match (self.range, other.range) {
                (Option::Some(a), Option::Some(b)) => a.0 <= b.0,
                (Option::Some(_), Option::None) => true,
                (Option::None, Option::Some(_)) => false,
                (Option::None, Option::None) => true,
            }
        } else {
            lex_le(self.specifier@, other.specifier@)
        }
    }

    proof fn lemma_le_total(a: Self, b: Self) {
        if a.specifier@ != b.specifier@ {
            lemma_lex_le_total(a.specifier@, b.specifier@);
        }
    }

    proof fn lemma_le_trans(a: Self, b: Self, c: Self) {
        if a.specifier@ != b.specifier@ && b.specifier@ != c.specifier@ {
            lemma_lex_le_trans(a.specifier@, b.specifier@, c.specifier@);
            if a.specifier@ == c.specifier@ {
                lemma_lex_le_antisym(a.specifier@, b.specifier@);
            }
        }
    }
}

impl SortKeyExec for FileDiagnostic {
    fn le_exec(&self, other: &Self) -> (r: bool) {
        let c = bytes_cmp3(&self.specifier, &other.specifier);
        if c < 0 {
            true
        } else if c > 0 {
            false
        } else {
            match (&self.range, &other.range) {
                (Option::Some(a), Option::Some(b)) => a.0 <= b.0,
                (Option::Some(_), Option::None) => true,
                (Option::None, Option::Some(_)) => false,
                (Option::None, Option::None) => true,
            }
        }
    }
}

/// Which output strategy a run uses.
#[derive(PartialEq, Eq, Structural, Clone, Copy, Debug)]
pub enum LintReporterKind {
    Pretty,
    Json,
    Compact,
}

/// The run's single reporting sink: one of the three strategies.
pub enum AnyReporter {
    Pretty(PrettyLintReporter),
    Compact(CompactLintReporter),
    Json(JsonLintReporter),
}

/// Builds the sink for the selected strategy, with fresh state.
pub fn create_reporter(kind: LintReporterKind) -> (r: AnyReporter)
    ensures
        kind is Pretty ==> (r matches AnyReporter::Pretty(p) && p.lint_count == 0
            && p.fixable_diagnostics == 0),
        kind is Compact ==> (r matches AnyReporter::Compact(c) && c.lint_count == 0),
        kind is Json ==> (r matches AnyReporter::Json(j) && j.diagnostics@.len() == 0
            && j.errors@.len() == 0),
{
    match kind {
        LintReporterKind::Pretty => AnyReporter::Pretty(PrettyLintReporter::new()),
        LintReporterKind::Json => AnyReporter::Json(JsonLintReporter::new()),
        LintReporterKind::Compact => AnyReporter::Compact(CompactLintReporter::new()),
    }
}

impl AnyReporter {
    /// Serializes one diagnostic into the sink; the returned chunk, if any,
    /// is printed immediately in arrival order.
    pub fn visit_diagnostic(&mut self, d: &LintOrCliDiagnostic) -> (emit: Option<Vec<u8>>)
        ensures
            (*old(self)) matches AnyReporter::Pretty(p) ==> ((*final(self)) matches AnyReporter::Pretty(
                q,
            ) && q.lint_count == sat_inc(p.lint_count) && q.fixable_diagnostics == (
            if d.spec_fixable() {
                sat_inc(p.fixable_diagnostics)
            } else {
                p.fixable_diagnostics
            }) && (emit matches Option::Some(c) && c@ == pretty_chunk(*d))),
            (*old(self)) matches AnyReporter::Compact(p) ==> ((*final(self))
                matches AnyReporter::Compact(q) && q.lint_count == sat_inc(p.lint_count) && (
            emit matches Option::Some(c) && c@ == compact_line(*d))),
            (*old(self)) matches AnyReporter::Json(j) ==> ((*final(self)) matches AnyReporter::Json(j2)
                && jdiag_views(j2.diagnostics@) == jdiag_views(j.diagnostics@).push(
                json_record_of(*d),
            ) && j2.errors@ == j.errors@ && emit is None),
    {
        match self {
            AnyReporter::Pretty(p) => Option::Some(p.visit_diagnostic(d)),
            AnyReporter::Compact(c) => Option::Some(c.visit_diagnostic(d)),
            AnyReporter::Json(j) => {
                j.visit_diagnostic(d);
                Option::None
            },
        }
    }

    /// Serializes one failed file into the sink.
    pub fn visit_error(&mut self, file_path: &Vec<u8>, message: &Vec<u8>) -> (emit: Option<
        Vec<u8>>)
        ensures
            (*old(self)) matches AnyReporter::Pretty(p) ==> ((*final(self)) matches AnyReporter::Pretty(
                q,
            ) && q.lint_count == p.lint_count && q.fixable_diagnostics == p.fixable_diagnostics
                && (emit matches Option::Some(c) && c@ == error_chunk(file_path@, message@))),
            (*old(self)) matches AnyReporter::Compact(p) ==> ((*final(self))
                matches AnyReporter::Compact(q) && q.lint_count == p.lint_count && (
            emit matches Option::Some(c) && c@ == error_chunk(file_path@, message@))),
            (*old(self)) matches AnyReporter::Json(j) ==> ((*final(self)) matches AnyReporter::Json(j2)
                && j2.diagnostics@ == j.diagnostics@ && j2.errors@.len() == j.errors@.len() + 1
                && j2.errors@.last().file_path@ == file_path@ && j2.errors@.last().message@
                == message@ && j2.errors@.take(j.errors@.len() as int) == j.errors@
                && err_path_views(j2.errors@) == err_path_views(j.errors@).push(file_path@)
                && emit is None),
    {
        match self {
            AnyReporter::Pretty(p) => Option::Some(p.visit_error(file_path, message)),
            AnyReporter::Compact(c) => Option::Some(c.visit_error(file_path, message)),
            AnyReporter::Json(j) => {
                j.visit_error(file_path, message);
                Option::None
            },
        }
    }

    /// Finalizes the sink once all tasks are done: a textual summary for the
    /// human formats, the deterministically ordered document for the
    /// machine format.
    pub fn close(self, check_count: usize) -> (out: RunOutput)
        ensures
            self matches AnyReporter::Pretty(p) ==> (out.machine is None && out.text@
                == summary_bytes(
                p.lint_count as int,
                p.fixable_diagnostics as int,
                true,
                check_count as int,
            )),
            self matches AnyReporter::Compact(c) ==> (out.machine is None && out.text@
                == summary_bytes(c.lint_count as int, 0, false, check_count as int)),
            self matches AnyReporter::Json(j) ==> (out.text@.len() == 0 && (out.machine
                matches Option::Some(m) && m.diagnostics@ == stable_sorted(j.diagnostics@)
                && m.errors@ == stable_sorted(j.errors@))),
    {
        match self {
            AnyReporter::Pretty(p) => RunOutput { text: p.close(check_count), machine: Option::None },
            AnyReporter::Compact(c) => RunOutput {
                text: c.close(check_count),
                machine: Option::None,
            },
            AnyReporter::Json(j) => RunOutput { text: Vec::new(), machine: Option::Some(j.close()) },
        }
    }
}

/// What closing the sink hands back: text to print for the human formats,
/// the ordered document for the machine format.
pub struct RunOutput {
    pub text: Vec<u8>,
    pub machine: Option<JsonLintReporter>,
}

/// What handling one file's analysis result produced.
pub struct HandledLint {
    /// The file ended clean: analyzable and with zero diagnostics.
    pub success: bool,
    /// Diagnostics reported for the file.
    pub found: usize,
    /// The file failed to analyze.
    pub errored: bool,
    /// Chunks for the caller to print, in arrival order.
    pub emitted: Vec<Vec<u8>>,
    /// The file's current text after convergence.
    pub text: Vec<u8>,
    /// The text was rewritten and must be persisted by the caller.
    pub changed: bool,
    /// The fix loop hit its iteration cap; warn loudly.
    pub warned: bool,
}


/// A counter after `k` saturating increments.
pub open spec fn sat_add(n: u64, k: int) -> u64
    decreases k,
{
    if k <= 0 {
        n
    } else {
        sat_inc(sat_add(n, k - 1))
    }
}

/// How many diagnostics carry at least one candidate fix.
pub open spec fn fixable_in(ds: Seq<FileDiagnostic>) -> int
    decreases ds.len(),
{
    if ds.len() == 0 {
        0
    } else {
        fixable_in(ds.drop_last()) + if ds.last().fixes.len() > 0 {
            1 as int
        } else {
            0 as int
        }
    }
}

proof fn lemma_fixable_in_bounds(ds: Seq<FileDiagnostic>)
    ensures
        0 <= fixable_in(ds) <= ds.len(),
    decreases ds.len(),
{
    if ds.len() > 0 {
        lemma_fixable_in_bounds(ds.drop_last());
    }
}

/// The per-file diagnostics wrapped for the sink, each carrying the
/// analyzed text.
pub open spec fn lint_wrapped(ds: Seq<FileDiagnostic>, text: Vec<u8>) -> Seq<LintOrCliDiagnostic> {
    Seq::new(ds.len(), |i: int| LintOrCliDiagnostic::Lint(ds[i], text))
}

/// The surface diagnostics wrapped for the sink.
pub open spec fn surface_wrapped(ds: Seq<SurfaceDiagnostic>) -> Seq<LintOrCliDiagnostic> {
    Seq::new(ds.len(), |i: int| LintOrCliDiagnostic::FastCheck(ds[i]))
}

/// The machine-readable records of a diagnostic sequence, in order.
pub open spec fn records_of(ds: Seq<LintOrCliDiagnostic>) -> Seq<crate::reporters::JsonDiagView> {
    Seq::new(ds.len(), |i: int| json_record_of(ds[i]))
}

/// The verbose sink's renderings of a diagnostic sequence, in order.
pub open spec fn pretty_chunks_of(ds: Seq<LintOrCliDiagnostic>) -> Seq<Seq<u8>> {
    Seq::new(ds.len(), |i: int| pretty_chunk(ds[i]))
}

/// The compact sink's lines of a diagnostic sequence, in order.
pub open spec fn compact_lines_of(ds: Seq<LintOrCliDiagnostic>) -> Seq<Seq<u8>> {
    Seq::new(ds.len(), |i: int| compact_line(ds[i]))
}

/// Feeds one file's analysis result into the sink: its diagnostics in the
/// deterministic per-file order, or its failure through the error path.
#[verifier::rlimit(60)]
pub fn handle_lint_result(
    reporter: &mut AnyReporter,
    specifier: &Vec<u8>,
    content: &Vec<u8>,
    result: Result<LintedFile, FileError>,
) -> (r: HandledLint)
    ensures
        r.errored == (result is Err),
        r.success == (!r.errored && r.found == 0),
        result matches Ok(out) ==> r.found == out.diagnostics@.len() && r.text@ == out.text@
            && r.changed == out.changed && r.warned == out.warned,
        result matches Err(_) ==> r.text@ == content@ && !r.changed && !r.warned && r.found == 0,
        // the machine sink buffers exactly the sorted records
        result matches Ok(out) ==> ((*old(reporter)) matches AnyReporter::Json(j) ==> ((*final(reporter)) matches AnyReporter::Json(j2) && jdiag_views(j2.diagnostics@) == jdiag_views(
            j.diagnostics@,
        ) + records_of(lint_wrapped(stable_sorted(out.diagnostics@), out.text)) && j2.errors@
            == j.errors@ && r.emitted@.len() == 0)),
        // the human sinks emit one rendered chunk per diagnostic, in the
        // sorted order, and count what they saw
        result matches Ok(out) ==> ((*old(reporter)) matches AnyReporter::Pretty(p) ==> ((*final(reporter)) matches AnyReporter::Pretty(q) && q.lint_count == sat_add(
            p.lint_count,
            out.diagnostics@.len() as int,
        ) && q.fixable_diagnostics == sat_add(
            p.fixable_diagnostics,
            fixable_in(stable_sorted(out.diagnostics@)),
        ) && byte_views(r.emitted@) == pretty_chunks_of(
            lint_wrapped(stable_sorted(out.diagnostics@), out.text),
        ))),
        result matches Ok(out) ==> ((*old(reporter)) matches AnyReporter::Compact(p) ==> ((*final(reporter)) matches AnyReporter::Compact(q) && q.lint_count == sat_add(
            p.lint_count,
            out.diagnostics@.len() as int,
        ) && byte_views(r.emitted@) == compact_lines_of(
            lint_wrapped(stable_sorted(out.diagnostics@), out.text),
        ))),
        // a failed file goes through the error path alone
        r.errored ==> ((*old(reporter)) matches AnyReporter::Json(j) ==> ((*final(reporter))
            matches AnyReporter::Json(j2) && j2.errors@.len() == j.errors@.len() + 1
            && j2.errors@.last().file_path@ == specifier@ && j2.errors@.take(
            j.errors@.len() as int,
        ) == j.errors@ && err_path_views(j2.errors@) == err_path_views(j.errors@).push(specifier@)
            && j2.diagnostics@ == j.diagnostics@ && r.emitted@.len() == 0)),
        result matches Err(e) ==> ((*old(reporter)) matches AnyReporter::Pretty(p) ==> ((*final(reporter)) matches AnyReporter::Pretty(q) && q.lint_count == p.lint_count
            && q.fixable_diagnostics == p.fixable_diagnostics && byte_views(r.emitted@) == seq![
            error_chunk(specifier@, e.spec_message()),
        ])),
        result matches Err(e) ==> ((*old(reporter)) matches AnyReporter::Compact(p) ==> ((*final(reporter)) matches AnyReporter::Compact(q) && q.lint_count == p.lint_count && byte_views(
            r.emitted@,
        ) == seq![error_chunk(specifier@, e.spec_message())])),
        !r.errored ==> ((*old(reporter)) matches AnyReporter::Json(j) ==> ((*final(reporter))
            matches AnyReporter::Json(j2) && j2.errors@ == j.errors@)),
{
    match result {
        Result::Ok(out) => {
            let ghost sorted_spec = stable_sorted(out.diagnostics@);
            let LintedFile { text, diagnostics, iterations: _, warned, changed } = out;
            let diag_count = diagnostics.len();
            let ghost n = diagnostics@.len();
            let ghost visited = lint_wrapped(sorted_spec, text);
            proof {
                assert(n == diag_count);
                crate::sorting::lemma_stable_sorted_ensures(out.diagnostics@);
            }
            let mut sorted = sort_by_order(diagnostics);
            let mut emitted: Vec<Vec<u8>> = Vec::new();
            let mut found: usize = 0;
            proof {
                assert(sorted@ =~= sorted_spec.skip(0));
                assert(byte_views(emitted@) =~= Seq::<Seq<u8>>::empty());
                assert(records_of(visited.take(0)) =~= Seq::<crate::reporters::JsonDiagView>::empty());
                assert(pretty_chunks_of(visited.take(0)) =~= Seq::<Seq<u8>>::empty());
                assert(compact_lines_of(visited.take(0)) =~= Seq::<Seq<u8>>::empty());
            }
            while sorted.len() > 0
                invariant
                    n <= usize::MAX,
                    sorted_spec.len() == n,
                    visited == lint_wrapped(sorted_spec, text),
                    visited.len() == n,
                    found + sorted@.len() == n,
                    sorted@ == sorted_spec.skip(found as int),
                    (*old(reporter)) matches AnyReporter::Json(j) ==> ((*reporter)
                        matches AnyReporter::Json(j2) && jdiag_views(j2.diagnostics@)
                        == jdiag_views(j.diagnostics@) + records_of(visited.take(found as int))
                        && j2.errors@ == j.errors@ && emitted@.len() == 0),
                    (*old(reporter)) matches AnyReporter::Pretty(p) ==> ((*reporter)
                        matches AnyReporter::Pretty(q) && q.lint_count == sat_add(
                        p.lint_count,
                        found as int,
                    )),
                    (*old(reporter)) matches AnyReporter::Pretty(p) ==> ((*reporter)
                        matches AnyReporter::Pretty(q) && q.fixable_diagnostics == sat_add(
                        p.fixable_diagnostics,
                        fixable_in(sorted_spec.take(found as int)),
                    )),
                    (*old(reporter)) matches AnyReporter::Pretty(p) ==> ((*reporter)
                        matches AnyReporter::Pretty(q) && byte_views(emitted@)
                        == pretty_chunks_of(visited.take(found as int))),
                    (*old(reporter)) matches AnyReporter::Compact(p) ==> ((*reporter)
                        matches AnyReporter::Compact(q) && q.lint_count == sat_add(
                        p.lint_count,
                        found as int,
                    ) && byte_views(emitted@) == compact_lines_of(visited.take(found as int))),
                decreases sorted@.len(),
            {
                let ghost k = found as int;
                proof {
                    assert(sorted@[0] == sorted_spec[k]);
                    assert(sorted@.drop_first() =~= sorted_spec.skip(k + 1));
                }
                let d = sorted.remove(0);
                let tcopy = copy_bytes(&text);
                let ghost tcopy_spec = tcopy;
                let wrapped = LintOrCliDiagnostic::Lint(d, tcopy);
                proof {
                    lemma_lint_chunks_depend_on_views(d, tcopy_spec, text);
                    assert(visited[k] == LintOrCliDiagnostic::Lint(sorted_spec[k], text));
                    assert(json_record_of(wrapped) == json_record_of(visited[k]));
                    assert(pretty_chunk(wrapped) == pretty_chunk(visited[k]));
                    assert(compact_line(wrapped) == compact_line(visited[k]));
                    assert(visited.take(k + 1) =~= visited.take(k).push(visited[k]));
                    assert(sorted_spec.take(k + 1).drop_last() =~= sorted_spec.take(k));
                    assert(sorted_spec.take(k + 1).last() == sorted_spec[k]);
                    assert(fixable_in(sorted_spec.take(k + 1)) == fixable_in(sorted_spec.take(k))
                        + (if sorted_spec[k].fixes.len() > 0 {
                        1 as int
                    } else {
                        0 as int
                    }));
                    assert forall|n0: u64| sat_add(n0, k + 1) == sat_inc(#[trigger] sat_add(n0, k)) by {}
                    assert forall|n0: u64|
                        #[trigger] sat_add(n0, fixable_in(sorted_spec.take(k + 1))) == (
                        if sorted_spec[k].fixes.len() > 0 {
                            sat_inc(sat_add(n0, fixable_in(sorted_spec.take(k))))
                        } else {
                            sat_add(n0, fixable_in(sorted_spec.take(k)))
                        }) by {
                        lemma_fixable_in_bounds(sorted_spec.take(k));
                    }
                    assert(records_of(visited.take(k + 1)) =~= records_of(visited.take(k)).push(
                        json_record_of(visited[k]),
                    ));
                    assert(pretty_chunks_of(visited.take(k + 1)) =~= pretty_chunks_of(
                        visited.take(k),
                    ).push(pretty_chunk(visited[k])));
                    assert(compact_lines_of(visited.take(k + 1)) =~= compact_lines_of(
                        visited.take(k),
                    ).push(compact_line(visited[k])));
                }
                let ghost prev_emitted = emitted@;
                match reporter.visit_diagnostic(&wrapped) {
                    Option::Some(chunk) => {
                        let ghost cv = chunk@;
                        emitted.push(chunk);
                        proof {
                            assert(byte_views(emitted@) =~= byte_views(prev_emitted).push(cv));
                        }
                    },
                    Option::None => {},
                }
                found = found + 1;
            }
            proof {
                assert(sorted_spec.take(n as int) =~= sorted_spec);
                assert(visited.take(n as int) =~= visited);
            }
            let success = found == 0;
            HandledLint { success, found, errored: false, emitted, text, changed, warned }
        },
        Result::Err(e) => {
            let msg = e.message();
            let mut emitted: Vec<Vec<u8>> = Vec::new();
            match reporter.visit_error(specifier, &msg) {
                Option::Some(chunk) => {
                    let ghost cv = chunk@;
                    emitted.push(chunk);
                    proof {
                        assert(byte_views(emitted@) =~= seq![cv]);
                    }
                },
                Option::None => {},
            }
            HandledLint {
                success: false,
                found: 0,
                errored: true,
                emitted,
                text: copy_bytes(content),
                changed: false,
                warned: false,
            }
        },
    }
}

/// What processing one target file produced.
pub struct FileOutcome {
    /// The cache knew this content clean: analysis was skipped entirely.
    pub skipped: bool,
    pub handled: HandledLint,
}

/// The per-file flow of the file pool: consult the cache gateway, skip a
/// known-clean file, otherwise analyze (with the fix loop when `fix` is
/// on), report through the shared sink, and record the file clean exactly
/// when it ended clean. A failure here is this file's alone.
pub fn process_file(
    linter: &deno_lint::linter::Linter,
    cache: &mut IncrementalCache,
    reporter: &mut AnyReporter,
    specifier: &Vec<u8>,
    content: &Vec<u8>,
    fix: bool,
) -> (r: FileOutcome)
    ensures
        r.skipped == cache_has(entry_views(old(cache).entries@), specifier@, content@),
        r.skipped ==> *final(cache) == *old(cache) && *final(reporter) == *old(reporter)
            && r.handled.success && !r.handled.errored && r.handled.found == 0
            && !r.handled.changed,
        final(cache).state@ == old(cache).state@,
        (!r.skipped && r.handled.success) ==> entry_views(final(cache).entries@) == entry_views(
            old(cache).entries@,
        ).push((specifier@, r.handled.text@)),
        (!r.skipped && !r.handled.success) ==> final(cache).entries@ == old(cache).entries@,
        r.handled.success == (!r.handled.errored && r.handled.found == 0),
        // what reached the sink, counted: the file's diagnostics and, on a
        // failure, one error record naming it; earlier records untouched
        (*old(reporter)) matches AnyReporter::Json(j) ==> ((*final(reporter))
            matches AnyReporter::Json(j2) && j2.diagnostics@.len() == j.diagnostics@.len()
            + r.handled.found),
        (*old(reporter)) matches AnyReporter::Json(j) ==> ((*final(reporter))
            matches AnyReporter::Json(j2) && (forall|i: int|
            0 <= i < j.diagnostics@.len() ==> jdiag_views(j2.diagnostics@)[i] == jdiag_views(
                j.diagnostics@,
            )[i])),
        (*old(reporter)) matches AnyReporter::Json(j) ==> ((*final(reporter))
            matches AnyReporter::Json(j2) && j2.errors@.len() == j.errors@.len() + (
        if r.handled.errored {
            1 as int
        } else {
            0 as int
        })),
        (*old(reporter)) matches AnyReporter::Json(j) ==> ((*final(reporter))
            matches AnyReporter::Json(j2) && (forall|i: int|
            0 <= i < j.errors@.len() ==> j2.errors@[i] == j.errors@[i]) && (r.handled.errored
            ==> j2.errors@.last().file_path@ == specifier@) && err_path_views(j2.errors@)
            == err_path_views(j.errors@) + (if r.handled.errored {
            seq![specifier@]
        } else {
            Seq::<Seq<u8>>::empty()
        })),
        (*old(reporter)) matches AnyReporter::Json(_) ==> r.handled.emitted@.len() == 0,
        (*old(reporter)) matches AnyReporter::Pretty(p) ==> ((*final(reporter))
            matches AnyReporter::Pretty(q) && q.lint_count == sat_add(
            p.lint_count,
            r.handled.found as int,
        )),
        (*old(reporter)) matches AnyReporter::Pretty(_) ==> r.handled.emitted@.len() == (
        if r.handled.errored {
            1 as int
        } else {
            r.handled.found as int
        }),
        (*old(reporter)) matches AnyReporter::Compact(p) ==> ((*final(reporter))
            matches AnyReporter::Compact(q) && q.lint_count == sat_add(
            p.lint_count,
            r.handled.found as int,
        )),
        (*old(reporter)) matches AnyReporter::Compact(_) ==> r.handled.emitted@.len() == (
        if r.handled.errored {
            1 as int
        } else {
            r.handled.found as int
        }),
{
    if cache.is_file_same(specifier, content) {
        proof {
            assert forall|n0: u64| #[trigger] sat_add(n0, 0) == n0 by {}
            assert forall|a: Seq<Seq<u8>>| #[trigger] (a + Seq::<Seq<u8>>::empty()) == a by {
                assert(a + Seq::<Seq<u8>>::empty() =~= a);
            }
        }
        return FileOutcome {
            skipped: true,
            handled: HandledLint {
                success: true,
                found: 0,
                errored: false,
                emitted: Vec::new(),
                text: copy_bytes(content),
                changed: false,
                warned: false,
            },
        };
    }
    let result = lint_file(linter, specifier, content, fix);
    let ghost gresult = result;
    let handled = handle_lint_result(reporter, specifier, content, result);
    proof {
        assert forall|n0: u64| #[trigger] sat_add(n0, 0) == n0 by {}
        assert(byte_views(handled.emitted@).len() == handled.emitted@.len());
        assert forall|s: Seq<JsonLintDiagnostic>| (#[trigger] jdiag_views(s)).len() == s.len() by {}
        assert forall|a: Seq<Seq<u8>>, x: Seq<u8>| #[trigger] a.push(x) == a + seq![x] by {
            assert(a.push(x) =~= a + seq![x]);
        }
        assert forall|a: Seq<Seq<u8>>| #[trigger] (a + Seq::<Seq<u8>>::empty()) == a by {
            assert(a + Seq::<Seq<u8>>::empty() =~= a);
        }
        match gresult {
            Result::Ok(out) => {
                crate::sorting::lemma_stable_sorted_ensures(out.diagnostics@);
                assert(lint_wrapped(stable_sorted(out.diagnostics@), out.text).len()
                    == out.diagnostics@.len());
                assert(records_of(lint_wrapped(stable_sorted(out.diagnostics@), out.text)).len()
                    == out.diagnostics@.len());
                assert(pretty_chunks_of(
                    lint_wrapped(stable_sorted(out.diagnostics@), out.text),
                ).len() == out.diagnostics@.len());
                assert(compact_lines_of(
                    lint_wrapped(stable_sorted(out.diagnostics@), out.text),
                ).len() == out.diagnostics@.len());
            },
            Result::Err(_) => {},
        }
    }
    if handled.success {
        cache.update_file(specifier, &handled.text);
    }
    FileOutcome { skipped: false, handled }
}

/// Whether a workspace member is being checked this run: one of its
/// declared public entry points is among the requested files.
pub fn member_should_check(export_urls: &Vec<Vec<u8>>, requested: &Vec<Vec<u8>>) -> (r: bool)
    ensures
        r == exists|i: int, j: int|
            0 <= i < export_urls@.len() && 0 <= j < requested@.len()
                && export_urls@[i]@ == requested@[j]@,
{
    let mut i: usize = 0;
    while i < export_urls.len()
        invariant
            i <= export_urls@.len(),
            forall|k: int, j: int|
                0 <= k < i && 0 <= j < requested@.len() ==> (#[trigger] export_urls@[k])@
                    != (#[trigger] requested@[j])@,
        decreases export_urls@.len() - i,
    {
        let mut j: usize = 0;
        while j < requested.len()
            invariant
                i < export_urls@.len(),
                j <= requested@.len(),
                forall|l: int|
                    0 <= l < j ==> export_urls@[i as int]@ != (#[trigger] requested@[l])@,
            decreases requested@.len() - j,
        {
            if bytes_eq(&export_urls[i], &requested[j]) {
                return true;
            }
            j = j + 1;
        }
        i = i + 1;
    }
    false
}

/// Feeds one member's surface diagnostics into the shared sink, each in
/// order; the run's error flag is raised exactly when any were found.
pub fn report_surface_diagnostics(reporter: &mut AnyReporter, diags: Vec<SurfaceDiagnostic>) -> (r:
    (bool, Vec<Vec<u8>>))
    ensures
        r.0 == (diags@.len() > 0),
        (*old(reporter)) matches AnyReporter::Json(j) ==> ((*final(reporter))
            matches AnyReporter::Json(j2) && jdiag_views(j2.diagnostics@) == jdiag_views(
            j.diagnostics@,
        ) + records_of(surface_wrapped(diags@)) && j2.errors@ == j.errors@ && r.1@.len() == 0),
        (*old(reporter)) matches AnyReporter::Pretty(p) ==> ((*final(reporter))
            matches AnyReporter::Pretty(q) && q.lint_count == sat_add(
            p.lint_count,
            diags@.len() as int,
        ) && q.fixable_diagnostics == p.fixable_diagnostics && byte_views(r.1@)
            == pretty_chunks_of(surface_wrapped(diags@))),
        (*old(reporter)) matches AnyReporter::Compact(p) ==> ((*final(reporter))
            matches AnyReporter::Compact(q) && q.lint_count == sat_add(
            p.lint_count,
            diags@.len() as int,
        ) && byte_views(r.1@) == compact_lines_of(surface_wrapped(diags@))),
{
    let ghost src = diags@;
    let ghost all = surface_wrapped(src);
    let ghost n = src.len();
    let raised = diags.len() > 0;
    let mut emitted: Vec<Vec<u8>> = Vec::new();
    let mut rest = diags;
    let ghost mut k: int = 0;
    proof {
        assert(rest@ =~= src.skip(0));
        assert(byte_views(emitted@) =~= Seq::<Seq<u8>>::empty());
        assert(records_of(all.take(0)) =~= Seq::<crate::reporters::JsonDiagView>::empty());
        assert(pretty_chunks_of(all.take(0)) =~= Seq::<Seq<u8>>::empty());
        assert(compact_lines_of(all.take(0)) =~= Seq::<Seq<u8>>::empty());
    }
    while rest.len() > 0
        invariant
            0 <= k,
            k + rest@.len() == n,
            all == surface_wrapped(src),
            all.len() == n,
            rest@ == src.skip(k),
            (*old(reporter)) matches AnyReporter::Json(j) ==> ((*reporter)
                matches AnyReporter::Json(j2) && jdiag_views(j2.diagnostics@) == jdiag_views(
                j.diagnostics@,
            ) + records_of(all.take(k)) && j2.errors@ == j.errors@ && emitted@.len() == 0),
            (*old(reporter)) matches AnyReporter::Pretty(p) ==> ((*reporter)
                matches AnyReporter::Pretty(q) && q.lint_count == sat_add(p.lint_count, k)
                && q.fixable_diagnostics == p.fixable_diagnostics && byte_views(emitted@)
                == pretty_chunks_of(all.take(k))),
            (*old(reporter)) matches AnyReporter::Compact(p) ==> ((*reporter)
                matches AnyReporter::Compact(q) && q.lint_count == sat_add(p.lint_count, k)
                && byte_views(emitted@) == compact_lines_of(all.take(k))),
        decreases rest@.len(),
    {
        proof {
            assert(rest@[0] == src[k]);
            assert(rest@.drop_first() =~= src.skip(k + 1));
        }
        let d = rest.remove(0);
        let wrapped = LintOrCliDiagnostic::FastCheck(d);
        proof {
            assert(wrapped == all[k]);
            assert(all.take(k + 1) =~= all.take(k).push(all[k]));
            assert(records_of(all.take(k + 1)) =~= records_of(all.take(k)).push(
                json_record_of(all[k]),
            ));
            assert(pretty_chunks_of(all.take(k + 1)) =~= pretty_chunks_of(all.take(k)).push(
                pretty_chunk(all[k]),
            ));
            assert(compact_lines_of(all.take(k + 1)) =~= compact_lines_of(all.take(k)).push(
                compact_line(all[k]),
            ));
            assert forall|n0: u64| sat_add(n0, k + 1) == sat_inc(#[trigger] sat_add(n0, k)) by {}
        }
        let ghost prev_emitted = emitted@;
        match reporter.visit_diagnostic(&wrapped) {
            Option::Some(chunk) => {
                let ghost cv = chunk@;
                emitted.push(chunk);
                proof {
                    assert(byte_views(emitted@) =~= byte_views(prev_emitted).push(cv));
                }
            },
            Option::None => {},
        }
        proof {
            k = k + 1;
        }
    }
    proof {
        assert(all.take(n as int) =~= all);
    }
    (raised, emitted)
}

/// The clean-file records a run of the pool appends: for each unskipped
/// file that ended clean, in file order, its identity with its final text.
pub open spec fn clean_entries(files: Seq<(Vec<u8>, Vec<u8>)>, outs: Seq<FileOutcome>) -> Seq<
    (Seq<u8>, Seq<u8>)>
    decreases outs.len(),
{
    if outs.len() == 0 {
        Seq::empty()
    } else {
        clean_entries(files.drop_last(), outs.drop_last()) + (if !outs.last().skipped
            && outs.last().handled.success {
            seq![(files.last().0@, outs.last().handled.text@)]
        } else {
            Seq::empty()
        })
    }
}

/// The identities of the files that failed, in file order.
pub open spec fn errored_specifiers(files: Seq<(Vec<u8>, Vec<u8>)>, outs: Seq<FileOutcome>) -> Seq<
    Seq<u8>>
    decreases outs.len(),
{
    if outs.len() == 0 {
        Seq::empty()
    } else {
        errored_specifiers(files.drop_last(), outs.drop_last()) + (
        if outs.last().handled.errored {
            seq![files.last().0@]
        } else {
            Seq::empty()
        })
    }
}

/// Runs the file pool over every target file in turn, sharing one cache
/// gateway and one sink, and reports whether every file ended clean. The
/// gateway gains exactly the clean files' records; the machine sink's
/// error list gains exactly the failed files' identities, in file order. A
/// concurrent pool interleaves these per-file steps; each is
/// self-contained, so the outcomes and the run's flag are the same.
#[verifier::rlimit(40)]
pub fn lint_files(
    linter: &deno_lint::linter::Linter,
    cache: &mut IncrementalCache,
    reporter: &mut AnyReporter,
    files: Vec<(Vec<u8>, Vec<u8>)>,
    fix: bool,
) -> (r: (bool, Vec<FileOutcome>))
    ensures
        r.1@.len() == files@.len(),
        r.0 == (forall|i: int| 0 <= i < r.1@.len() ==> (#[trigger] r.1@[i]).handled.success),
        final(cache).state@ == old(cache).state@,
        entry_views(final(cache).entries@) == entry_views(old(cache).entries@) + clean_entries(
            files@,
            r.1@,
        ),
        (*old(reporter)) matches AnyReporter::Json(j) ==> ((*final(reporter))
            matches AnyReporter::Json(j2) && err_path_views(j2.errors@) == err_path_views(
            j.errors@,
        ) + errored_specifiers(files@, r.1@)),
        forall|i: int|
            0 <= i < r.1@.len() ==> ((#[trigger] r.1@[i]).skipped ==> cache_has(
                entry_views(final(cache).entries@),
                files@[i].0@,
                files@[i].1@,
            )),
{
    let ghost src = files@;
    let mut outcomes: Vec<FileOutcome> = Vec::new();
    let mut ok = true;
    let mut rest = files;
    let ghost total = src.len();
    let ghost mut k: int = 0;
    proof {
        assert(rest@ =~= src.skip(0));
        assert(entry_views(cache.entries@) + Seq::<(Seq<u8>, Seq<u8>)>::empty() =~= entry_views(
            cache.entries@,
        ));
        assert(clean_entries(src.take(0), outcomes@) =~= Seq::<(Seq<u8>, Seq<u8>)>::empty());
        assert(errored_specifiers(src.take(0), outcomes@) =~= Seq::<Seq<u8>>::empty());
        assert forall|s: Seq<crate::reporters::LintError>|
            (#[trigger] err_path_views(s)).len() == s.len() by {}
    }
    while rest.len() > 0
        invariant
            0 <= k,
            src.len() == total,
            k + rest@.len() == total,
            outcomes@.len() == k,
            rest@ == src.skip(k),
            ok == (forall|i: int|
                0 <= i < outcomes@.len() ==> (#[trigger] outcomes@[i]).handled.success),
            cache.state@ == old(cache).state@,
            entry_views(cache.entries@) == entry_views(old(cache).entries@) + clean_entries(
                src.take(k),
                outcomes@,
            ),
            (*old(reporter)) matches AnyReporter::Json(j) ==> ((*reporter)
                matches AnyReporter::Json(j2) && err_path_views(j2.errors@) == err_path_views(
                j.errors@,
            ) + errored_specifiers(src.take(k), outcomes@)),
            forall|i: int|
                0 <= i < outcomes@.len() ==> ((#[trigger] outcomes@[i]).skipped ==> cache_has(
                    entry_views(cache.entries@),
                    src[i].0@,
                    src[i].1@,
                )),
        decreases rest@.len(),
    {
        proof {
            assert(src.skip(k)[0] == src[k]);
            assert(rest@[0] == src[k]);
            assert(src.skip(k).drop_first() =~= src.skip(k + 1));
            assert(rest@.drop_first() =~= src.skip(k + 1));
        }
        let (specifier, content) = rest.remove(0);
        let ghost entries_before = entry_views(cache.entries@);
        let outcome = process_file(linter, cache, reporter, &specifier, &content, fix);
        if !outcome.handled.success {
            ok = false;
        }
        let ghost prev = outcomes@;
        outcomes.push(outcome);
        proof {
            assert(outcomes@.drop_last() =~= prev);
            assert forall|i: int| 0 <= i < prev.len() implies outcomes@[i] == prev[i] by {
                assert(outcomes@.drop_last()[i] == prev[i]);
            }
            assert(outcomes@.last() == outcomes@[outcomes@.len() - 1]);
            assert(src.take(k + 1).drop_last() =~= src.take(k));
            assert(src.take(k + 1).last() == src[k]);
            // the cache grew by exactly this file's clean record, if any
            let pushed = clean_entries(src.take(k + 1), outcomes@);
            assert(pushed == clean_entries(src.take(k), prev) + (if !outcomes@.last().skipped
                && outcomes@.last().handled.success {
                seq![(src[k].0@, outcomes@.last().handled.text@)]
            } else {
                Seq::<(Seq<u8>, Seq<u8>)>::empty()
            }));
            if !outcomes@.last().skipped && outcomes@.last().handled.success {
                assert(entry_views(cache.entries@) =~= entries_before.push(
                    (specifier@, outcomes@.last().handled.text@),
                ));
                assert(entries_before.push((src[k].0@, outcomes@.last().handled.text@))
                    =~= entry_views(old(cache).entries@) + pushed);
            } else {
                assert(entry_views(cache.entries@) =~= entries_before);
                assert(entries_before =~= entry_views(old(cache).entries@) + pushed);
            }
            // the machine sink's error list grew by this identity iff it failed
            let epushed = errored_specifiers(src.take(k + 1), outcomes@);
            assert(epushed == errored_specifiers(src.take(k), prev) + (
            if outcomes@.last().handled.errored {
                seq![src[k].0@]
            } else {
                Seq::<Seq<u8>>::empty()
            }));
            let ro = *old(reporter);
            let rn = *reporter;
            match (ro, rn) {
                (AnyReporter::Json(j), AnyReporter::Json(j2)) => {
                    let base = err_path_views(j.errors@);
                    let ek = errored_specifiers(src.take(k), prev);
                    let delta = if outcomes@.last().handled.errored {
                        seq![src[k].0@]
                    } else {
                        Seq::<Seq<u8>>::empty()
                    };
                    assert((base + ek) + delta =~= base + (ek + delta));
                    assert(err_path_views(j2.errors@) == base + epushed);
                },
                _ => {},
            }
            // earlier skip evidence survives: entries only grew
            assert forall|i: int|
                0 <= i < outcomes@.len() implies ((#[trigger] outcomes@[i]).skipped
                ==> cache_has(entry_views(cache.entries@), src[i].0@, src[i].1@)) by {
                if i < prev.len() {
                    if prev[i].skipped {
                        let w = choose|w: int|
                            0 <= w < entries_before.len() && entries_before[w].0 == src[i].0@
                                && entries_before[w].1 == src[i].1@;
                        assert(entry_views(cache.entries@)[w] == entries_before[w]);
                    }
                } else {
                    if outcomes@[i].skipped {
                        let w = choose|w: int|
                            0 <= w < entries_before.len() && entries_before[w].0 == src[i].0@
                                && entries_before[w].1 == src[i].1@;
                        assert(entry_views(cache.entries@)[w] == entries_before[w]);
                    }
                }
            }
            k = k + 1;
        }
    }
    proof {
        assert(src.take(total as int) =~= src);
    }
    (ok, outcomes)
}

/// Finalizes a run once the file pool and the workspace task are done:
/// closes the shared sink over the checked-file count and composes the
/// overall result — the run succeeds exactly when every file ended clean
/// and the workspace pass found nothing.
pub fn finish_run(reporter: AnyReporter, check_count: usize, files_clean: bool, surface_raised:
    bool) -> (r: (RunOutput, bool))
    ensures
        r.1 == (files_clean && !surface_raised),
        reporter matches AnyReporter::Pretty(p) ==> (r.0.machine is None && r.0.text@
            == summary_bytes(
            p.lint_count as int,
            p.fixable_diagnostics as int,
            true,
            check_count as int,
        )),
        reporter matches AnyReporter::Compact(c) ==> (r.0.machine is None && r.0.text@
            == summary_bytes(c.lint_count as int, 0, false, check_count as int)),
        reporter matches AnyReporter::Json(j) ==> (r.0.text@.len() == 0 && (r.0.machine
            matches Option::Some(m) && m.diagnostics@ == stable_sorted(j.diagnostics@)
            && m.errors@ == stable_sorted(j.errors@))),
{
    let out = reporter.close(check_count);
    (out, files_clean && !surface_raised)
}

} // verus!
