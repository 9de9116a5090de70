//! The boundary to the analysis engine, and the fix-convergence loop that
//! drives it.
//!
//! The engine parses source text and evaluates the configured rules; what
//! it reports is its own affair, so the wrappers promise nothing about
//! which diagnostics come back. Everything the loop decides — which edits
//! to apply, when to stop, when to warn — is verified over whatever the
//! engine returned.

use vstd::prelude::*;
use vstd::string::StringSliceAdditionalSpecFns;
use vstd::string::StrSliceExecFns;

use crate::convergence::FixDecision;
use crate::convergence::diag_views;
use crate::convergence::fix_batch;
use crate::convergence::fix_step;
use crate::diagnostics::CandidateFix;
use crate::diagnostics::FileDiagnostic;
use crate::diagnostics::Level;
use crate::edits::TextEdit;
use crate::rules::RuleSet;

verus! {

#[verifier::external_type_specification]
#[verifier::external_body]
pub struct ExLinter(deno_lint::linter::Linter);

#[verifier::external_type_specification]
#[verifier::external_body]
pub struct ExLintDiagnostic(deno_lint::diagnostic::LintDiagnostic);

/// Relies on deno_lint's Linter::new: builds a linter over the given rules
/// with the default ignore directives.
#[verifier::external_body]
pub fn create_linter(rules: RuleSet) -> deno_lint::linter::Linter {
    let rules = rules.inner;
    let all_rule_codes = rules.iter().map(|r| std::borrow::Cow::Borrowed(r.code())).collect();
    deno_lint::linter::Linter::new(
        deno_lint::linter::LinterOptions {
            rules,
            all_rule_codes,
            custom_ignore_file_directive: None,
            custom_ignore_diagnostic_directive: None,
        },
    )
}

/// Whether the engine rejects this identity and text — a bad identity URL
/// or text that fails to parse — and, if so, the failure's rendering.
/// Parsing precedes every rule, so this depends on the identity and text
/// alone, never on the rule set or any scheduling.
pub uninterp spec fn analysis_failure_of(specifier: Seq<u8>, text: Seq<u8>) -> Option<Seq<u8>>;

/// Relies on deno_ast's ModuleSpecifier::parse and MediaType::from_specifier
/// and deno_lint's Linter::lint_file, exactly as the command layer chains
/// them: the identity is parsed as a URL, the media kind derives from that
/// identity alone, and lint_file parses the text before any rule runs — so
/// success, and the failure rendering, are functions of identity and text
/// alone. Which diagnostics come back on success is the engine's affair.
#[verifier::external_body]
fn lint_parse(linter: &deno_lint::linter::Linter, specifier: &Vec<u8>, text: &Vec<u8>) -> (r:
    Result<Vec<deno_lint::diagnostic::LintDiagnostic>, Vec<u8>>)
    ensures
        (r is Ok) <==> analysis_failure_of(specifier@, text@) is None,
        r matches Err(m) ==> analysis_failure_of(specifier@, text@) == Option::Some(m@),
{
    let url = match deno_ast::ModuleSpecifier::parse(&String::from_utf8_lossy(specifier)) {
        Ok(url) => url,
        Err(e) => return Err(e.to_string().into_bytes()),
    };
    let options = deno_lint::linter::LintFileOptions {
        specifier: url.clone(),
        source_code: String::from_utf8_lossy(text).into_owned(),
        media_type: deno_ast::MediaType::from_specifier(&url),
        config: deno_lint::linter::LintConfig { default_jsx_factory: None, default_jsx_fragment_factory: None },
        external_linter: None,
    };
    linter.lint_file(options).map(|(_, d)| d).map_err(|e| e.to_string().into_bytes())
}

/// Relies on the LintDiagnostic::specifier field (a URL): the identity of
/// the analyzed file.
#[verifier::external_body]
fn diag_specifier(d: &deno_lint::diagnostic::LintDiagnostic) -> Vec<u8> {
    d.specifier.to_string().into_bytes()
}

/// Relies on the LintDiagnostic::details fields: code, message and hint.
#[verifier::external_body]
fn diag_code(d: &deno_lint::diagnostic::LintDiagnostic) -> Vec<u8> {
    d.details.code.clone().into_bytes()
}

#[verifier::external_body]
fn diag_message(d: &deno_lint::diagnostic::LintDiagnostic) -> Vec<u8> {
    d.details.message.clone().into_bytes()
}

#[verifier::external_body]
fn diag_hint(d: &deno_lint::diagnostic::LintDiagnostic) -> Option<Vec<u8>> {
    d.details.hint.clone().map(|h| h.into_bytes())
}

/// Relies on the LintDiagnostic::range field and dprint-swc-ext's
/// SourceRange::as_byte_range: the byte range relative to the file start.
#[verifier::external_body]
fn diag_range(d: &deno_lint::diagnostic::LintDiagnostic) -> Option<(usize, usize)> {
    d.range.as_ref().map(|r| {
        let br = r.range.as_byte_range(r.text_info.range().start);
        (br.start, br.end)
    })
}

/// Relies on the LintDiagnostic::details.fixes field and SourceRange's
/// as_byte_range: each candidate fix's edits as byte-range replacements. A
/// diagnostic without a range gives no position base, so no edits.
#[verifier::external_body]
fn diag_fixes(d: &deno_lint::diagnostic::LintDiagnostic) -> Vec<CandidateFix> {
    let Some(range) = d.range.as_ref() else { return Vec::new() };
    let base = range.text_info.range().start;
    d.details.fixes.iter().map(|fix| CandidateFix {
        edits: fix.changes.iter().map(|ch| TextEdit {
            start: ch.range.as_byte_range(base).start,
            end: ch.range.as_byte_range(base).end,
            replacement: ch.new_text.as_bytes().to_vec(),
        }).collect(),
    }).collect()
}

/// Relies on deno_ast's Diagnostic::level for LintDiagnostic.
#[verifier::external_body]
fn diag_level(d: &deno_lint::diagnostic::LintDiagnostic) -> Level {
    match deno_ast::diagnostics::Diagnostic::level(d) {
        deno_ast::diagnostics::DiagnosticLevel::Error => Level::Error,
        deno_ast::diagnostics::DiagnosticLevel::Warning => Level::Warning,
    }
}

/// Turns one engine diagnostic into the library's model of it.
fn convert_diagnostic(d: &deno_lint::diagnostic::LintDiagnostic) -> FileDiagnostic {
    FileDiagnostic {
        specifier: diag_specifier(d),
        code: diag_code(d),
        message: diag_message(d),
        hint: diag_hint(d),
        level: diag_level(d),
        range: diag_range(d),
        fixes: diag_fixes(d),
    }
}

fn convert_diagnostics(ds: &Vec<deno_lint::diagnostic::LintDiagnostic>) -> Vec<FileDiagnostic> {
    let mut out: Vec<FileDiagnostic> = Vec::new();
    let mut i: usize = 0;
    while i < ds.len()
        decreases ds@.len() - i,
    {
        let d = convert_diagnostic(&ds[i]);
        out.push(d);
        i = i + 1;
    }
    out
}

/// How analyzing one file failed.
#[derive(Debug)]
pub enum FileError {
    /// The file could not be parsed or analyzed; carries the rendering.
    Analysis(Vec<u8>),
    /// Text produced by an applied fix failed to re-analyze: a tool defect,
    /// reported distinctly; carries the parse failure's rendering.
    AppliedFixInvalid(Vec<u8>),
}

impl FileError {
    pub open spec fn spec_message(self) -> Seq<u8> {
        match self {
            FileError::Analysis(m) => m@,
            FileError::AppliedFixInvalid(
                _,
            ) => "An applied lint fix caused a syntax error. Please report this bug.".spec_bytes(),
        }
    }

    pub fn message(&self) -> (r: Vec<u8>)
        ensures
            r@ == self.spec_message(),
    {
        match self {
            FileError::Analysis(m) => crate::diagnostics::copy_bytes(m),
            FileError::AppliedFixInvalid(_) => {
                let s = "An applied lint fix caused a syntax error. Please report this bug.";
                s.as_bytes_vec()
            },
        }
    }
}

/// What linting one file produced: the final text, the final diagnostics,
/// and how convergence went.
pub struct LintedFile {
    pub text: Vec<u8>,
    pub diagnostics: Vec<FileDiagnostic>,
    /// Applied fix iterations; zero when nothing was rewritten.
    pub iterations: u64,
    /// The iteration cap was hit with fixes still pending: a loud warning
    /// naming the file is owed, and processing goes on with this state.
    pub warned: bool,
    /// The text differs from the input and must be persisted.
    pub changed: bool,
}

/// Drives fix application to convergence: derive a batch, apply it,
/// re-analyze, repeat — until no edit applies or the iteration cap is hit.
/// Re-analysis after each batch is a hard requirement: applying a batch
/// shifts byte offsets, invalidating every other computed edit.
pub fn fix_to_convergence(
    linter: &deno_lint::linter::Linter,
    specifier: &Vec<u8>,
    text0: Vec<u8>,
    diags0: Vec<FileDiagnostic>,
) -> (r: Result<LintedFile, FileError>)
    ensures
        r matches Ok(out) ==> out.iterations <= crate::convergence::iteration_cap() && (
        out.changed <==> out.iterations > 0) && (out.warned ==> out.iterations
            == crate::convergence::iteration_cap()),
        r matches Ok(out) ==> (out.warned || fix_batch(out.text@, diag_views(out.diagnostics@)).len()
            == 0),
        fix_batch(text0@, diag_views(diags0@)).len() == 0 ==> (r matches Ok(out) && out.text@
            == text0@ && !out.changed && out.iterations == 0 && !out.warned && diag_views(
            out.diagnostics@,
        ) == diag_views(diags0@)),
        r matches Err(e) ==> e is AppliedFixInvalid,
{
    let ghost batch0_empty = fix_batch(text0@, diag_views(diags0@)).len() == 0;
    let mut text = text0;
    let mut diags = diags0;
    let mut iterations: u64 = 0;
    let mut warned = false;
    loop
        invariant_except_break
            !warned,
        invariant
            iterations <= crate::convergence::iteration_cap(),
            iterations == 0 ==> text@ == text0@ && diag_views(diags@) == diag_views(diags0@),
            batch0_empty == (fix_batch(text0@, diag_views(diags0@)).len() == 0),
            batch0_empty ==> iterations == 0,
        ensures
            iterations <= crate::convergence::iteration_cap(),
            warned ==> iterations == crate::convergence::iteration_cap(),
            warned || fix_batch(text@, diag_views(diags@)).len() == 0,
            batch0_empty ==> iterations == 0 && !warned && text@ == text0@ && diag_views(diags@)
                == diag_views(diags0@),
        decreases crate::convergence::iteration_cap() - iterations + 1,
    {
        match fix_step(&text, &diags, iterations) {
            FixDecision::Converged => {
                break;
            },
            FixDecision::CapReached => {
                warned = true;
                break;
            },
            FixDecision::Apply(new_text) => {
                match lint_parse(linter, specifier, &new_text) {
                    Result::Ok(raw) => {
                        text = new_text;
                        diags = convert_diagnostics(&raw);
                        iterations = iterations + 1;
                    },
                    Result::Err(m) => {
                        return Result::Err(FileError::AppliedFixInvalid(m));
                    },
                }
            },
        }
    }
    let changed = iterations > 0;
    Result::Ok(LintedFile { text, diagnostics: diags, iterations, warned, changed })
}

/// Analyzes one file and, when fix mode is on, drives the convergence loop.
/// The returned text is the file's current content: rewritten exactly when
/// `changed` says so.
pub fn lint_file(
    linter: &deno_lint::linter::Linter,
    specifier: &Vec<u8>,
    content: &Vec<u8>,
    fix: bool,
) -> (r: Result<LintedFile, FileError>)
    ensures
        r matches Ok(out) ==> out.iterations <= crate::convergence::iteration_cap() && (
        out.changed <==> out.iterations > 0) && (out.warned ==> out.iterations
            == crate::convergence::iteration_cap()),
        !fix ==> (r matches Ok(out) ==> !out.changed && out.iterations == 0 && out.text@
            == content@) && (r matches Err(e) ==> e is Analysis),
        analysis_failure_of(specifier@, content@) is Some ==> (r matches Err(e)
            && e is Analysis),
        r matches Err(e) ==> (e is Analysis <==> analysis_failure_of(
            specifier@,
            content@,
        ) is Some),
        fix ==> (r matches Ok(out) ==> (out.warned || fix_batch(
            out.text@,
            diag_views(out.diagnostics@),
        ).len() == 0)),
{
    let text = crate::diagnostics::copy_bytes(content);
    let raw = match lint_parse(linter, specifier, &text) {
        Result::Ok(raw) => raw,
        Result::Err(m) => {
            return Result::Err(FileError::Analysis(m));
        },
    };
    let diagnostics = convert_diagnostics(&raw);
    if fix {
        fix_to_convergence(linter, specifier, text, diagnostics)
    } else {
        Result::Ok(
            LintedFile { text, diagnostics, iterations: 0, warned: false, changed: false },
        )
    }
}

} // verus!
