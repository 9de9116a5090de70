//! Reporting sinks: one strategy per output format.
//!
//! The verbose and compact sinks emit one rendered chunk per visit, in
//! arrival order, and a summary on close. The machine-readable sink buffers
//! records and orders them totally on close — diagnostics by file identity,
//! then line, then column, records with a location before records without
//! one; error records by file identity, then message — so its output is a
//! deterministic function of what was visited, independent of the
//! interleaving in which concurrent workers delivered it.

use vstd::prelude::*;
use vstd::string::StringSliceAdditionalSpecFns;
use vstd::string::StrSliceExecFns;

use crate::decimal::dec_bytes;
use crate::decimal::u64_to_dec;
use crate::decimal::usize_to_dec;
use crate::diagnostics::FileDiagnostic;
use crate::diagnostics::Level;
use crate::diagnostics::LintOrCliDiagnostic;
use crate::diagnostics::copy_bytes;
use crate::positions::JsonDiagnosticLintPosition;
use crate::positions::column_index_at;
use crate::positions::line_index_at;
use crate::positions::line_and_column_index;
use crate::sorting::SortKey;
use crate::sorting::SortKeyExec;
use crate::sorting::class_in;
use crate::sorting::equiv_pred;
use crate::sorting::insert_ordered;
use crate::sorting::lemma_ordered_classes_unique;
use crate::sorting::lemma_stable_sorted_class;
use crate::sorting::lemma_stable_sorted_ensures;
use crate::sorting::sort_by_order;
use crate::sorting::stable_sorted;
use crate::textorder::bytes_cmp3;
use crate::textorder::lex_le;
use crate::textorder::lemma_lex_le_antisym;
use crate::textorder::lemma_lex_le_total;
use crate::textorder::lemma_lex_le_trans;

verus! {

/// Appends the UTF-8 bytes of a literal to `out`.
pub fn push_str_bytes(out: &mut Vec<u8>, s: &str)
    ensures
        final(out)@ == old(out)@ + s.spec_bytes(),
{
    let mut v = s.as_bytes_vec();
    out.append(&mut v);
}

/// Appends a copy of `v` to `out`.
pub fn push_bytes(out: &mut Vec<u8>, v: &Vec<u8>)
    ensures
        final(out)@ == old(out)@ + v@,
{
    let mut c = copy_bytes(v);
    out.append(&mut c);
}

// ---------------------------------------------------------------------------
// Machine-readable records
// ---------------------------------------------------------------------------

/// Byte range of a machine-readable record; the field layout is a stability
/// contract of the machine-readable output.
#[derive(PartialEq, Eq, Structural, Clone, Copy, Debug)]
pub struct JsonLintDiagnosticRange {
    pub start: JsonDiagnosticLintPosition,
    pub end: JsonDiagnosticLintPosition,
}

/// One machine-readable diagnostic record.
pub struct JsonLintDiagnostic {
    pub filename: Vec<u8>,
    pub range: Option<JsonLintDiagnosticRange>,
    pub message: Vec<u8>,
    pub code: Vec<u8>,
    pub hint: Option<Vec<u8>>,
}

/// The mathematical shape of a machine-readable record.
pub ghost struct JsonDiagView {
    pub filename: Seq<u8>,
    pub range: Option<JsonLintDiagnosticRange>,
    pub message: Seq<u8>,
    pub code: Seq<u8>,
    pub hint: Option<Seq<u8>>,
}

impl View for JsonLintDiagnostic {
    type V = JsonDiagView;

    open spec fn view(&self) -> JsonDiagView {
        JsonDiagView {
            filename: self.filename@,
            range: self.range,
            message: self.message@,
            code: self.code@,
            hint: match self.hint {
                Option::Some(h) => Option::Some(h@),
                Option::None => Option::None,
            },
        }
    }
}

/// One machine-readable error record.
pub struct LintError {
    pub file_path: Vec<u8>,
    pub message: Vec<u8>,
}

/// The mathematical shape of an error record.
pub ghost struct LintErrorView {
    pub file_path: Seq<u8>,
    pub message: Seq<u8>,
}

impl View for LintError {
    type V = LintErrorView;

    open spec fn view(&self) -> LintErrorView {
        LintErrorView { file_path: self.file_path@, message: self.message@ }
    }
}

/// Error-record order of the machine-readable sort: file identity, then
/// message, both byte-lexicographic.
impl SortKey for LintErrorView {
    open spec fn le(self, other: Self) -> bool {
        if self.file_path == other.file_path {
            lex_le(self.message, other.message)
        } else {
            lex_le(self.file_path, other.file_path)
        }
    }

    proof fn lemma_le_total(a: Self, b: Self) {
        if a.file_path != b.file_path {
            lemma_lex_le_total(a.file_path, b.file_path);
        } else {
            lemma_lex_le_total(a.message, b.message);
        }
    }

    proof fn lemma_le_trans(a: Self, b: Self, c: Self) {
        if a.file_path != b.file_path && b.file_path != c.file_path {
            lemma_lex_le_trans(a.file_path, b.file_path, c.file_path);
            if a.file_path == c.file_path {
                lemma_lex_le_antisym(a.file_path, b.file_path);
            }
        } else if a.file_path == b.file_path && b.file_path == c.file_path {
            lemma_lex_le_trans(a.message, b.message, c.message);
        }
    }
}

impl SortKey for LintError {
    open spec fn le(self, other: Self) -> bool {
        self@.le(other@)
    }

    proof fn lemma_le_total(a: Self, b: Self) {
        LintErrorView::lemma_le_total(a@, b@);
    }

    proof fn lemma_le_trans(a: Self, b: Self, c: Self) {
        LintErrorView::lemma_le_trans(a@, b@, c@);
    }
}

impl SortKeyExec for LintError {
    fn le_exec(&self, other: &Self) -> (r: bool) {
        let c = bytes_cmp3(&self.file_path, &other.file_path);
        if c < 0 {
            true
        } else if c > 0 {
            false
        } else {
            let m = bytes_cmp3(&self.message, &other.message);
            m <= 0
        }
    }
}

pub open spec fn lerr_views(s: Seq<LintError>) -> Seq<LintErrorView> {
    Seq::new(s.len(), |i: int| s[i]@)
}

/// The file identities of a sequence of error records, in order.
pub open spec fn err_path_views(s: Seq<LintError>) -> Seq<Seq<u8>> {
    Seq::new(s.len(), |i: int| s[i].file_path@)
}

proof fn lemma_lerr_insert_view_commute(s: Seq<LintError>, e: LintError)
    ensures
        lerr_views(insert_ordered(s, e)) == insert_ordered(lerr_views(s), e@),
    decreases s.len(),
{
    if s.len() == 0 {
        assert(lerr_views(insert_ordered(s, e)) =~= insert_ordered(lerr_views(s), e@));
    } else if s.last().le(e) {
        assert(lerr_views(s).last() == s.last()@);
        assert(lerr_views(s.push(e)) =~= lerr_views(s).push(e@));
    } else {
        lemma_lerr_insert_view_commute(s.drop_last(), e);
        assert(lerr_views(s.drop_last()) =~= lerr_views(s).drop_last());
        assert(lerr_views(s).last() == s.last()@);
        assert(lerr_views(insert_ordered(s.drop_last(), e).push(s.last())) =~= lerr_views(
            insert_ordered(s.drop_last(), e),
        ).push(s.last()@));
    }
}

/// Sorting error records and taking views commute.
pub proof fn lemma_lerr_sort_view_commute(s: Seq<LintError>)
    ensures
        lerr_views(stable_sorted(s)) == stable_sorted(lerr_views(s)),
    decreases s.len(),
{
    if s.len() > 0 {
        lemma_lerr_sort_view_commute(s.drop_last());
        lemma_lerr_insert_view_commute(stable_sorted(s.drop_last()), s.last());
        assert(lerr_views(s.drop_last()) =~= lerr_views(s).drop_last());
        assert(lerr_views(s).last() == s.last()@);
    }
}

/// Location order of the machine-readable sort: line, then column; a record
/// with a location comes before one without; two records without locations
/// tie.
pub open spec fn loc_le(a: Option<JsonLintDiagnosticRange>, b: Option<JsonLintDiagnosticRange>) -> bool {
    match (a, b) {
        (Option::Some(ra), Option::Some(rb)) => ra.start.line < rb.start.line || (ra.start.line
            == rb.start.line && ra.start.col <= rb.start.col),
        (Option::Some(_), Option::None) => true,
        (Option::None, Option::Some(_)) => false,
        (Option::None, Option::None) => true,
    }
}

impl SortKey for JsonDiagView {
    open spec fn le(self, other: Self) -> bool {
        if self.filename == other.filename {
            loc_le(self.range, other.range)
        } else {
            lex_le(self.filename, other.filename)
        }
    }

    proof fn lemma_le_total(a: Self, b: Self) {
        if a.filename != b.filename {
            lemma_lex_le_total(a.filename, b.filename);
        }
    }

    proof fn lemma_le_trans(a: Self, b: Self, c: Self) {
        if a.filename != b.filename && b.filename != c.filename {
            lemma_lex_le_trans(a.filename, b.filename, c.filename);
            if a.filename == c.filename {
                lemma_lex_le_antisym(a.filename, b.filename);
            }
        }
    }
}

impl SortKey for JsonLintDiagnostic {
    open spec fn le(self, other: Self) -> bool {
        self@.le(other@)
    }

    proof fn lemma_le_total(a: Self, b: Self) {
        JsonDiagView::lemma_le_total(a@, b@);
    }

    proof fn lemma_le_trans(a: Self, b: Self, c: Self) {
        JsonDiagView::lemma_le_trans(a@, b@, c@);
    }
}

impl SortKeyExec for JsonLintDiagnostic {
    fn le_exec(&self, other: &Self) -> (r: bool) {
        let c = bytes_cmp3(&self.filename, &other.filename);
        if c < 0 {
            true
        } else if c > 0 {
            false
        } else {
            match (&self.range, &other.range) {
                (Option::Some(ra), Option::Some(rb)) => ra.start.line < rb.start.line || (
                ra.start.line == rb.start.line && ra.start.col <= rb.start.col),
                (Option::Some(_), Option::None) => true,
                (Option::None, Option::Some(_)) => false,
                (Option::None, Option::None) => true,
            }
        }
    }
}

pub open spec fn jdiag_views(s: Seq<JsonLintDiagnostic>) -> Seq<JsonDiagView> {
    Seq::new(s.len(), |i: int| s[i]@)
}

proof fn lemma_jdiag_insert_view_commute(s: Seq<JsonLintDiagnostic>, e: JsonLintDiagnostic)
    ensures
        jdiag_views(insert_ordered(s, e)) == insert_ordered(jdiag_views(s), e@),
    decreases s.len(),
{
    if s.len() == 0 {
        assert(jdiag_views(insert_ordered(s, e)) =~= insert_ordered(jdiag_views(s), e@));
    } else if s.last().le(e) {
        assert(jdiag_views(s).last() == s.last()@);
        assert(jdiag_views(s.push(e)) =~= jdiag_views(s).push(e@));
    } else {
        lemma_jdiag_insert_view_commute(s.drop_last(), e);
        assert(jdiag_views(s.drop_last()) =~= jdiag_views(s).drop_last());
        assert(jdiag_views(s).last() == s.last()@);
        assert(jdiag_views(insert_ordered(s.drop_last(), e).push(s.last())) =~= jdiag_views(
            insert_ordered(s.drop_last(), e),
        ).push(s.last()@));
    }
}

/// Sorting machine-readable records and taking views commute.
pub proof fn lemma_jdiag_sort_view_commute(s: Seq<JsonLintDiagnostic>)
    ensures
        jdiag_views(stable_sorted(s)) == stable_sorted(jdiag_views(s)),
    decreases s.len(),
{
    if s.len() > 0 {
        lemma_jdiag_sort_view_commute(s.drop_last());
        lemma_jdiag_insert_view_commute(stable_sorted(s.drop_last()), s.last());
        assert(jdiag_views(s.drop_last()) =~= jdiag_views(s).drop_last());
        assert(jdiag_views(s).last() == s.last()@);
    }
}

/// Sorts machine-readable records into the deterministic reporting order:
/// file identity first, then line, then column; records with a location
/// before records without one for the same file.
pub fn sort_diagnostics(diagnostics: Vec<JsonLintDiagnostic>) -> (out: Vec<JsonLintDiagnostic>)
    ensures
        out@ == stable_sorted(diagnostics@),
{
    sort_by_order(diagnostics)
}

// ---------------------------------------------------------------------------
// Rendered lines
// ---------------------------------------------------------------------------

/// A saturating counter increment.
pub open spec fn sat_inc(n: u64) -> u64 {
    if n < u64::MAX { (n + 1) as u64 } else { n }
}

/// A saturating one-shift of a 0-indexed position to 1-indexed.
pub open spec fn one_indexed(n: int) -> int {
    if n + 1 < usize::MAX { n + 1 } else { usize::MAX as int }
}

/// The compact sink's line for one diagnostic: file identity, 1-indexed
/// line, 0-indexed column when a location exists, then message and code.
pub open spec fn compact_line(d: LintOrCliDiagnostic) -> Seq<u8> {
    match d.spec_range() {
        Option::Some((s, _e)) => {
            let p = clamp_pos(d.spec_text().len() as int, s);
            d.spec_specifier() + ": line ".spec_bytes() + dec_bytes(
                one_indexed(line_index_at(d.spec_text(), p)),
            ) + ", col ".spec_bytes() + dec_bytes(column_index_at(d.spec_text(), p))
                + " - ".spec_bytes() + d.spec_message() + " (".spec_bytes() + d.spec_code()
                + ")".spec_bytes()
        },
        Option::None => d.spec_specifier() + ": ".spec_bytes() + d.spec_message()
            + " (".spec_bytes() + d.spec_code() + ")".spec_bytes(),
    }
}

/// A range endpoint clamped into the text it refers to; positions of
/// malformed ranges handed back by an analyzer degrade instead of failing.
pub open spec fn clamp_pos(len: int, p: int) -> int {
    if p <= len { p } else { len }
}

/// The verbose sink's rendering of one diagnostic.
pub open spec fn pretty_chunk(d: LintOrCliDiagnostic) -> Seq<u8> {
    level_bytes(d.spec_level()) + "[".spec_bytes() + d.spec_code() + "]: ".spec_bytes()
        + d.spec_message() + (match d.spec_hint() {
        Option::Some(h) => "\n  hint: ".spec_bytes() + h,
        Option::None => Seq::<u8>::empty(),
    }) + "\n  --> ".spec_bytes() + d.spec_specifier() + (match d.spec_range() {
        Option::Some((s, _e)) => {
            let p = clamp_pos(d.spec_text().len() as int, s);
            ":".spec_bytes() + dec_bytes(one_indexed(line_index_at(d.spec_text(), p)))
                + ":".spec_bytes() + dec_bytes(one_indexed(column_index_at(d.spec_text(), p)))
        },
        Option::None => Seq::<u8>::empty(),
    })
}

pub open spec fn level_bytes(l: Level) -> Seq<u8> {
    match l {
        Level::Error => "error".spec_bytes(),
        Level::Warning => "warning".spec_bytes(),
    }
}

/// The chunk the verbose and compact sinks emit for a failed file.
pub open spec fn error_chunk(file_path: Seq<u8>, message: Seq<u8>) -> Seq<u8> {
    "Error linting: ".spec_bytes() + file_path + "\n   ".spec_bytes() + message
}

/// The close summary: found-count (with a fixable hint for the verbose
/// sink), then checked-count.
pub open spec fn summary_bytes(lint_count: int, fixable: int, with_fixable: bool, checked: int) -> Seq<u8> {
    (if lint_count == 1 {
        "Found 1 problem".spec_bytes() + fixable_suffix(fixable, with_fixable)
            + "\n".spec_bytes()
    } else if lint_count > 1 {
        "Found ".spec_bytes() + dec_bytes(lint_count) + " problems".spec_bytes()
            + fixable_suffix(fixable, with_fixable) + "\n".spec_bytes()
    } else {
        Seq::<u8>::empty()
    }) + (if checked <= 1 {
        "Checked ".spec_bytes() + dec_bytes(checked) + " file".spec_bytes()
    } else {
        "Checked ".spec_bytes() + dec_bytes(checked) + " files".spec_bytes()
    })
}

pub open spec fn fixable_suffix(fixable: int, with_fixable: bool) -> Seq<u8> {
    if with_fixable && fixable > 0 {
        " (".spec_bytes() + dec_bytes(fixable) + " fixable via --fix)".spec_bytes()
    } else {
        Seq::<u8>::empty()
    }
}

fn render_location_positions(d: &LintOrCliDiagnostic) -> (r: Option<(usize, usize)>)
    ensures
        match d.spec_range() {
            Option::Some((s, _e)) => {
                let p = clamp_pos(d.spec_text().len() as int, s);
                r matches Option::Some(lc) && lc.0 == line_index_at(d.spec_text(), p)
                    && lc.1 == column_index_at(d.spec_text(), p)
            },
            Option::None => r is None,
        },
{
    match d.range() {
        Option::Some((s, _e)) => {
            let text = d.text();
            let p = if s <= text.len() { s } else { text.len() };
            let lc = line_and_column_index(text, p);
            Option::Some((lc.line_index, lc.column_index))
        },
        Option::None => Option::None,
    }
}

fn push_one_indexed(out: &mut Vec<u8>, n: usize)
    ensures
        final(out)@ == old(out)@ + dec_bytes(one_indexed(n as int)),
{
    if n < usize::MAX {
        let mut d = usize_to_dec(n + 1);
        out.append(&mut d);
    } else {
        let mut d = usize_to_dec(n);
        out.append(&mut d);
    }
}

// ---------------------------------------------------------------------------
// The three sinks
// ---------------------------------------------------------------------------

/// The verbose, human-readable sink: renders every diagnostic on arrival and
/// counts how many arrived and how many carried an automatic fix.
pub struct PrettyLintReporter {
    pub lint_count: u64,
    pub fixable_diagnostics: u64,
}

impl PrettyLintReporter {
    pub fn new() -> (r: PrettyLintReporter)
        ensures
            r.lint_count == 0,
            r.fixable_diagnostics == 0,
    {
        PrettyLintReporter { lint_count: 0, fixable_diagnostics: 0 }
    }

    /// Counts the diagnostic and returns its rendering, to be emitted
    /// immediately in arrival order.
    #[verifier::rlimit(30)]
    pub fn visit_diagnostic(&mut self, d: &LintOrCliDiagnostic) -> (chunk: Vec<u8>)
        ensures
            final(self).lint_count == sat_inc(old(self).lint_count),
            final(self).fixable_diagnostics == (if d.spec_fixable() {
                sat_inc(old(self).fixable_diagnostics)
            } else {
                old(self).fixable_diagnostics
            }),
            chunk@ == pretty_chunk(*d),
    {
        if self.lint_count < u64::MAX {
            self.lint_count = self.lint_count + 1;
        }
        if d.fixable() && self.fixable_diagnostics < u64::MAX {
            self.fixable_diagnostics = self.fixable_diagnostics + 1;
        }
        let mut out: Vec<u8> = Vec::new();
        match d.level() {
            Level::Error => push_str_bytes(&mut out, "error"),
            Level::Warning => push_str_bytes(&mut out, "warning"),
        }
        push_str_bytes(&mut out, "[");
        let code = d.code();
        push_bytes(&mut out, &code);
        push_str_bytes(&mut out, "]: ");
        push_bytes(&mut out, d.message());
        match d.hint() {
            Option::Some(h) => {
                push_str_bytes(&mut out, "\n  hint: ");
                push_bytes(&mut out, h);
            },
            Option::None => {},
        }
        push_str_bytes(&mut out, "\n  --> ");
        push_bytes(&mut out, d.specifier());
        match render_location_positions(d) {
            Option::Some((line, col)) => {
                push_str_bytes(&mut out, ":");
                push_one_indexed(&mut out, line);
                push_str_bytes(&mut out, ":");
                push_one_indexed(&mut out, col);
            },
            Option::None => {},
        }
        out
    }

    /// Returns the rendering of a failed file, emitted in arrival order.
    pub fn visit_error(&mut self, file_path: &Vec<u8>, message: &Vec<u8>) -> (chunk: Vec<u8>)
        ensures
            *final(self) == *old(self),
            chunk@ == error_chunk(file_path@, message@),
    {
        error_chunk_bytes(file_path, message)
    }

    /// The closing summary for `check_count` checked files.
    pub fn close(&self, check_count: usize) -> (chunk: Vec<u8>)
        ensures
            chunk@ == summary_bytes(
                self.lint_count as int,
                self.fixable_diagnostics as int,
                true,
                check_count as int,
            ),
    {
        summary_chunk(self.lint_count, self.fixable_diagnostics, true, check_count)
    }
}

fn error_chunk_bytes(file_path: &Vec<u8>, message: &Vec<u8>) -> (chunk: Vec<u8>)
    ensures
        chunk@ == error_chunk(file_path@, message@),
{
    let mut out: Vec<u8> = Vec::new();
    push_str_bytes(&mut out, "Error linting: ");
    push_bytes(&mut out, file_path);
    push_str_bytes(&mut out, "\n   ");
    push_bytes(&mut out, message);
    out
}

fn summary_chunk(lint_count: u64, fixable: u64, with_fixable: bool, check_count: usize) -> (
    chunk: Vec<u8>)
    ensures
        chunk@ == summary_bytes(lint_count as int, fixable as int, with_fixable, check_count as int),
{
    let mut out: Vec<u8> = Vec::new();
    if lint_count == 1 {
        push_str_bytes(&mut out, "Found 1 problem");
        push_fixable(&mut out, fixable, with_fixable);
        push_str_bytes(&mut out, "\n");
    } else if lint_count > 1 {
        push_str_bytes(&mut out, "Found ");
        let mut d = u64_to_dec(lint_count);
        out.append(&mut d);
        push_str_bytes(&mut out, " problems");
        push_fixable(&mut out, fixable, with_fixable);
        push_str_bytes(&mut out, "\n");
    }
    push_str_bytes(&mut out, "Checked ");
    let mut c = usize_to_dec(check_count);
    out.append(&mut c);
    if check_count <= 1 {
        push_str_bytes(&mut out, " file");
    } else {
        push_str_bytes(&mut out, " files");
    }
    out
}

fn push_fixable(out: &mut Vec<u8>, fixable: u64, with_fixable: bool)
    ensures
        final(out)@ == old(out)@ + fixable_suffix(fixable as int, with_fixable),
{
    if with_fixable && fixable > 0 {
        push_str_bytes(out, " (");
        let mut d = u64_to_dec(fixable);
        out.append(&mut d);
        push_str_bytes(out, " fixable via --fix)");
    }
}

/// The compact, human-readable sink: one line per diagnostic in arrival
/// order, and a count.
pub struct CompactLintReporter {
    pub lint_count: u64,
}

impl CompactLintReporter {
    pub fn new() -> (r: CompactLintReporter)
        ensures
            r.lint_count == 0,
    {
        CompactLintReporter { lint_count: 0 }
    }

    /// Counts the diagnostic and returns its single-line rendering.
    pub fn visit_diagnostic(&mut self, d: &LintOrCliDiagnostic) -> (chunk: Vec<u8>)
        ensures
            final(self).lint_count == sat_inc(old(self).lint_count),
            chunk@ == compact_line(*d),
    {
        if self.lint_count < u64::MAX {
            self.lint_count = self.lint_count + 1;
        }
        let mut out: Vec<u8> = Vec::new();
        push_bytes(&mut out, d.specifier());
        match render_location_positions(d) {
            Option::Some((line, col)) => {
                push_str_bytes(&mut out, ": line ");
                push_one_indexed(&mut out, line);
                push_str_bytes(&mut out, ", col ");
                let mut c = usize_to_dec(col);
                out.append(&mut c);
                push_str_bytes(&mut out, " - ");
            },
            Option::None => {
                push_str_bytes(&mut out, ": ");
            },
        }
        push_bytes(&mut out, d.message());
        push_str_bytes(&mut out, " (");
        let code = d.code();
        push_bytes(&mut out, &code);
        push_str_bytes(&mut out, ")");
        out
    }

    /// Returns the rendering of a failed file, emitted in arrival order.
    pub fn visit_error(&mut self, file_path: &Vec<u8>, message: &Vec<u8>) -> (chunk: Vec<u8>)
        ensures
            *final(self) == *old(self),
            chunk@ == error_chunk(file_path@, message@),
    {
        error_chunk_bytes(file_path, message)
    }

    /// The closing summary for `check_count` checked files.
    pub fn close(&self, check_count: usize) -> (chunk: Vec<u8>)
        ensures
            chunk@ == summary_bytes(self.lint_count as int, 0, false, check_count as int),
    {
        summary_chunk(self.lint_count, 0, false, check_count)
    }
}

/// The machine-readable sink: buffers every record, and on close hands back
/// the records in the deterministic total order. The caller serializes the
/// closed value as one structured document.
pub struct JsonLintReporter {
    pub diagnostics: Vec<JsonLintDiagnostic>,
    pub errors: Vec<LintError>,
}

/// The record the machine-readable sink buffers for a diagnostic: identity,
/// positions derived from the analyzed text, message, code, hint.
pub open spec fn json_record_of(d: LintOrCliDiagnostic) -> JsonDiagView {
    JsonDiagView {
        filename: d.spec_specifier(),
        range: match d.spec_range() {
            Option::Some((s, e)) => {
                let len = d.spec_text().len() as int;
                Option::Some(
                    JsonLintDiagnosticRange {
                        start: json_pos_of(d.spec_text(), clamp_pos(len, s)),
                        end: json_pos_of(d.spec_text(), clamp_pos(len, e)),
                    },
                )
            },
            Option::None => Option::None,
        },
        message: d.spec_message(),
        code: d.spec_code(),
        hint: d.spec_hint(),
    }
}

pub open spec fn json_pos_of(text: Seq<u8>, p: int) -> JsonDiagnosticLintPosition {
    JsonDiagnosticLintPosition {
        line: one_indexed(line_index_at(text, p)) as usize,
        col: column_index_at(text, p) as usize,
        byte_pos: p as usize,
    }
}

impl JsonLintReporter {
    pub fn new() -> (r: JsonLintReporter)
        ensures
            r.diagnostics@.len() == 0,
            r.errors@.len() == 0,
    {
        JsonLintReporter { diagnostics: Vec::new(), errors: Vec::new() }
    }

    /// Buffers the record of one diagnostic; nothing is emitted until close.
    pub fn visit_diagnostic(&mut self, d: &LintOrCliDiagnostic)
        ensures
            jdiag_views(final(self).diagnostics@) == jdiag_views(old(self).diagnostics@).push(
                json_record_of(*d),
            ),
            final(self).errors@ == old(self).errors@,
    {
        let filename = copy_bytes(d.specifier());
        let range: Option<JsonLintDiagnosticRange> = match d.range() {
            Option::Some((s, e)) => {
                let text = d.text();
                let ps = if s <= text.len() { s } else { text.len() };
                let pe = if e <= text.len() { e } else { text.len() };
                let lcs = line_and_column_index(text, ps);
                let lce = line_and_column_index(text, pe);
                Option::Some(
                    JsonLintDiagnosticRange {
                        start: json_position(ps, lcs.line_index, lcs.column_index),
                        end: json_position(pe, lce.line_index, lce.column_index),
                    },
                )
            },
            Option::None => Option::None,
        };
        let message = copy_bytes(d.message());
        let code = d.code();
        let hint: Option<Vec<u8>> = match d.hint() {
            Option::Some(h) => Option::Some(copy_bytes(h)),
            Option::None => Option::None,
        };
        let record = JsonLintDiagnostic { filename, range, message, code, hint };
        proof {
            assert(record@ == json_record_of(*d));
        }
        let ghost prev = jdiag_views(self.diagnostics@);
        self.diagnostics.push(record);
        proof {
            assert(jdiag_views(self.diagnostics@) =~= prev.push(record@));
        }
    }

    /// Buffers the record of one failed file.
    pub fn visit_error(&mut self, file_path: &Vec<u8>, message: &Vec<u8>)
        ensures
            final(self).diagnostics@ == old(self).diagnostics@,
            final(self).errors@.len() == old(self).errors@.len() + 1,
            final(self).errors@.last().file_path@ == file_path@,
            final(self).errors@.last().message@ == message@,
            final(self).errors@.take(old(self).errors@.len() as int) == old(self).errors@,
            err_path_views(final(self).errors@) == err_path_views(old(self).errors@).push(
                file_path@,
            ),
    {
        let record = LintError { file_path: copy_bytes(file_path), message: copy_bytes(message) };
        self.errors.push(record);
        proof {
            assert(self.errors@.take(self.errors@.len() - 1) =~= old(self).errors@);
            assert(err_path_views(self.errors@) =~= err_path_views(old(self).errors@).push(
                file_path@,
            ));
        }
    }

    /// Orders the buffered records deterministically; the result is the
    /// document to serialize. Diagnostics sort by file identity and
    /// position, error records by file identity and message, so the
    /// document depends only on what was buffered, never on arrival order.
    pub fn close(self) -> (out: JsonLintReporter)
        ensures
            out.diagnostics@ == stable_sorted(self.diagnostics@),
            out.errors@ == stable_sorted(self.errors@),
    {
        let JsonLintReporter { diagnostics, errors } = self;
        let diagnostics = sort_diagnostics(diagnostics);
        let errors = sort_by_order(errors);
        JsonLintReporter { diagnostics, errors }
    }
}

fn json_position(byte_pos: usize, line_index: usize, column_index: usize) -> (r:
    JsonDiagnosticLintPosition)
    ensures
        r.line == one_indexed(line_index as int),
        r.col == column_index,
        r.byte_pos == byte_pos,
{
    if line_index < usize::MAX {
        JsonDiagnosticLintPosition { line: line_index + 1, col: column_index, byte_pos }
    } else {
        JsonDiagnosticLintPosition { line: line_index, col: column_index, byte_pos }
    }
}

/// Records of one file identity.
pub open spec fn file_pred(f: Seq<u8>) -> spec_fn(JsonDiagView) -> bool {
    |d: JsonDiagView| d.filename == f
}

proof fn lemma_filter_compose<T>(s: Seq<T>, p: spec_fn(T) -> bool, q: spec_fn(T) -> bool)
    requires
        forall|y: T| #[trigger] p(y) ==> q(y),
    ensures
        s.filter(p) == s.filter(q).filter(p),
    decreases s.len(),
{
    reveal(Seq::filter);
    if s.len() > 0 {
        lemma_filter_compose(s.drop_last(), p, q);
        if q(s.last()) {
            assert(s.filter(q) == s.drop_last().filter(q).push(s.last()));
            assert(s.filter(q).drop_last() =~= s.drop_last().filter(q));
        } else {
            assert(!p(s.last()));
            assert(s.filter(q) == s.drop_last().filter(q));
            assert(s.filter(p) == s.drop_last().filter(p));
        }
    }
}

/// Determinism of the machine-readable output order: two runs that
/// buffered, for every file identity, the same records in the same
/// relative order — however the concurrent workers interleaved records of
/// different files — close with the same ordered record sequence.
pub proof fn lemma_machine_order_deterministic(
    s1: Seq<JsonLintDiagnostic>,
    s2: Seq<JsonLintDiagnostic>,
)
    requires
        forall|f: Seq<u8>| #[trigger] jdiag_views(s1).filter(file_pred(f)) == jdiag_views(
            s2,
        ).filter(file_pred(f)),
    ensures
        jdiag_views(stable_sorted(s1)) == jdiag_views(stable_sorted(s2)),
{
    lemma_jdiag_sort_view_commute(s1);
    lemma_jdiag_sort_view_commute(s2);
    let v1 = jdiag_views(s1);
    let v2 = jdiag_views(s2);
    assert forall|x: JsonDiagView| class_in(v1, x) == class_in(v2, x) by {
        let p = equiv_pred::<JsonDiagView>(x);
        let q = file_pred(x.filename);
        assert forall|y: JsonDiagView| #[trigger] p(y) implies q(y) by {
            if y.filename != x.filename {
                lemma_lex_le_antisym(y.filename, x.filename);
            }
        }
        lemma_filter_compose(v1, p, q);
        lemma_filter_compose(v2, p, q);
        assert(v1.filter(q) == v2.filter(q));
    }
    lemma_stable_sorted_ensures(v1);
    lemma_stable_sorted_ensures(v2);
    assert forall|x: JsonDiagView|
        class_in(stable_sorted(v1), x) == class_in(stable_sorted(v2), x) by {
        lemma_stable_sorted_class(v1, x);
        lemma_stable_sorted_class(v2, x);
    }
    lemma_ordered_classes_unique(stable_sorted(v1), stable_sorted(v2));
}

proof fn lemma_error_equiv_is_eq(a: LintErrorView, b: LintErrorView)
    requires
        crate::sorting::equiv(a, b),
    ensures
        a == b,
{
    if a.file_path == b.file_path {
        lemma_lex_le_antisym(a.message, b.message);
    } else {
        lemma_lex_le_antisym(a.file_path, b.file_path);
    }
}

proof fn lemma_error_class_is_repeat(s: Seq<LintErrorView>, x: LintErrorView)
    ensures
        class_in(s, x) == Seq::new(s.to_multiset().count(x), |i: int| x),
    decreases s.len(),
{
    broadcast use vstd::seq_lib::group_to_multiset_ensures;
    broadcast use vstd::multiset::group_multiset_axioms;

    reveal(Seq::filter);
    let pred = equiv_pred::<LintErrorView>(x);
    if s.len() == 0 {
        assert(s.to_multiset().count(x) == 0);
        assert(class_in(s, x) =~= Seq::new(0, |i: int| x));
    } else {
        lemma_error_class_is_repeat(s.drop_last(), x);
        assert(s.drop_last().push(s.last()) =~= s);
        assert(s.to_multiset() =~= s.drop_last().to_multiset().insert(s.last()));
        let c = s.drop_last().to_multiset().count(x);
        if pred(s.last()) {
            lemma_error_equiv_is_eq(s.last(), x);
            assert(s.to_multiset().count(x) == c + 1);
            assert(class_in(s, x) == class_in(s.drop_last(), x).push(s.last()));
            assert(Seq::new(c + 1, |i: int| x) =~= Seq::new(c, |i: int| x).push(x));
        } else {
            assert(s.last() != x) by {
                LintErrorView::lemma_le_total(s.last(), x);
            }
            assert(s.to_multiset().count(x) == c);
            assert(class_in(s, x) == class_in(s.drop_last(), x));
        }
    }
}

/// Determinism of the machine-readable error order: two runs that buffered
/// the same error records — however the concurrent workers interleaved
/// them — close with the same ordered error sequence.
pub proof fn lemma_error_order_deterministic(e1: Seq<LintError>, e2: Seq<LintError>)
    requires
        lerr_views(e1).to_multiset() == lerr_views(e2).to_multiset(),
    ensures
        lerr_views(stable_sorted(e1)) == lerr_views(stable_sorted(e2)),
{
    lemma_lerr_sort_view_commute(e1);
    lemma_lerr_sort_view_commute(e2);
    let v1 = lerr_views(e1);
    let v2 = lerr_views(e2);
    assert forall|x: LintErrorView| class_in(v1, x) == class_in(v2, x) by {
        lemma_error_class_is_repeat(v1, x);
        lemma_error_class_is_repeat(v2, x);
    }
    lemma_stable_sorted_ensures(v1);
    lemma_stable_sorted_ensures(v2);
    assert forall|x: LintErrorView|
        class_in(stable_sorted(v1), x) == class_in(stable_sorted(v2), x) by {
        lemma_stable_sorted_class(v1, x);
        lemma_stable_sorted_class(v2, x);
    }
    lemma_ordered_classes_unique(stable_sorted(v1), stable_sorted(v2));
}

/// Every rendering and record of a per-file diagnostic depends on the
/// carried text only through its bytes.
pub proof fn lemma_lint_chunks_depend_on_views(d: FileDiagnostic, t1: Vec<u8>, t2: Vec<u8>)
    requires
        t1@ == t2@,
    ensures
        json_record_of(LintOrCliDiagnostic::Lint(d, t1)) == json_record_of(
            LintOrCliDiagnostic::Lint(d, t2),
        ),
        pretty_chunk(LintOrCliDiagnostic::Lint(d, t1)) == pretty_chunk(
            LintOrCliDiagnostic::Lint(d, t2),
        ),
        compact_line(LintOrCliDiagnostic::Lint(d, t1)) == compact_line(
            LintOrCliDiagnostic::Lint(d, t2),
        ),
        LintOrCliDiagnostic::Lint(d, t1).spec_fixable() == LintOrCliDiagnostic::Lint(
            d,
            t2,
        ).spec_fixable(),
{
}

} // verus!
