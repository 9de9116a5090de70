//! The diagnostic model: per-file rule diagnostics, workspace-level export
//! surface diagnostics, and the closed union the reporting sinks consume.
//!
//! Text is carried as UTF-8 bytes so that contracts can speak of it exactly;
//! byte ranges are relative to the text the diagnostic was computed against.

use vstd::prelude::*;
use vstd::string::StringSliceAdditionalSpecFns;
use vstd::string::StrSliceExecFns;

use crate::edits::TextEdit;
use crate::edits::EditView;
use crate::edits::edit_views;

verus! {

/// Severity of a reported issue.
#[derive(PartialEq, Eq, Structural, Clone, Copy, Debug)]
pub enum Level {
    Error,
    Warning,
}

/// One machine-applicable remediation: an ordered batch of text edits.
/// Candidate fixes of one diagnostic are mutually exclusive alternatives;
/// only the first is applied automatically.
pub struct CandidateFix {
    pub edits: Vec<TextEdit>,
}

impl View for CandidateFix {
    type V = Seq<EditView>;

    open spec fn view(&self) -> Seq<EditView> {
        edit_views(self.edits@)
    }
}

/// A per-file rule diagnostic: stable rule code, message, optional hint,
/// optional byte range in the analyzed text, and candidate fixes.
pub struct FileDiagnostic {
    /// Identity of the analyzed file.
    pub specifier: Vec<u8>,
    pub code: Vec<u8>,
    pub message: Vec<u8>,
    pub hint: Option<Vec<u8>>,
    pub level: Level,
    /// Byte range `[start, end)` in the analyzed text, absent when the whole
    /// file is meant.
    pub range: Option<(usize, usize)>,
    pub fixes: Vec<CandidateFix>,
}

/// The mathematical shape of a per-file diagnostic.
pub ghost struct FileDiagnosticView {
    pub specifier: Seq<u8>,
    pub code: Seq<u8>,
    pub message: Seq<u8>,
    pub hint: Option<Seq<u8>>,
    pub level: Level,
    pub range: Option<(int, int)>,
    pub fixes: Seq<Seq<EditView>>,
}

impl View for FileDiagnostic {
    type V = FileDiagnosticView;

    open spec fn view(&self) -> FileDiagnosticView {
        FileDiagnosticView {
            specifier: self.specifier@,
            code: self.code@,
            message: self.message@,
            hint: match self.hint {
                Option::Some(h) => Option::Some(h@),
                Option::None => Option::None,
            },
            level: self.level,
            range: match self.range {
                Option::Some((s, e)) => Option::Some((s as int, e as int)),
                Option::None => Option::None,
            },
            fixes: Seq::new(self.fixes@.len(), |i: int| self.fixes@[i]@),
        }
    }
}

/// A workspace-level export surface diagnostic. It never carries fixes and
/// reports under one fixed synthetic code.
pub struct SurfaceDiagnostic {
    pub specifier: Vec<u8>,
    pub message: Vec<u8>,
    pub hint: Option<Vec<u8>>,
    pub level: Level,
    pub range: Option<(usize, usize)>,
    /// The text the range refers to, carried so positions can be derived.
    pub text: Vec<u8>,
}

pub ghost struct SurfaceDiagnosticView {
    pub specifier: Seq<u8>,
    pub message: Seq<u8>,
    pub hint: Option<Seq<u8>>,
    pub level: Level,
    pub range: Option<(int, int)>,
    pub text: Seq<u8>,
}

impl View for SurfaceDiagnostic {
    type V = SurfaceDiagnosticView;

    open spec fn view(&self) -> SurfaceDiagnosticView {
        SurfaceDiagnosticView {
            specifier: self.specifier@,
            message: self.message@,
            hint: match self.hint {
                Option::Some(h) => Option::Some(h@),
                Option::None => Option::None,
            },
            level: self.level,
            range: match self.range {
                Option::Some((s, e)) => Option::Some((s as int, e as int)),
                Option::None => Option::None,
            },
            text: self.text@,
        }
    }
}

/// The closed union of the two diagnostic kinds, presented to the reporting
/// sinks behind one read-only face. The per-file variant carries the text it
/// was computed against so positions can be derived.
pub enum LintOrCliDiagnostic {
    Lint(FileDiagnostic, Vec<u8>),
    FastCheck(SurfaceDiagnostic),
}

/// The synthetic rule code under which every surface diagnostic reports:
/// the UTF-8 bytes of "no-slow-types".
pub open spec fn surface_code() -> Seq<u8> {
    "no-slow-types".spec_bytes()
}

/// The synthetic surface rule code as bytes.
pub fn surface_code_bytes() -> (r: Vec<u8>)
    ensures
        r@ == surface_code(),
{
    let s = "no-slow-types";
    s.as_bytes_vec()
}

impl LintOrCliDiagnostic {
    /// The identity of the file the diagnostic is about.
    pub open spec fn spec_specifier(self) -> Seq<u8> {
        match self {
            LintOrCliDiagnostic::Lint(d, _) => d.specifier@,
            LintOrCliDiagnostic::FastCheck(d) => d.specifier@,
        }
    }

    pub fn specifier(&self) -> (r: &Vec<u8>)
        ensures
            r@ == self.spec_specifier(),
    {
        match self {
            LintOrCliDiagnostic::Lint(d, _) => &d.specifier,
            LintOrCliDiagnostic::FastCheck(d) => &d.specifier,
        }
    }

    /// The byte range in the analyzed text, with that text, when a location
    /// exists.
    pub open spec fn spec_range(self) -> Option<(int, int)> {
        match self {
            LintOrCliDiagnostic::Lint(d, _) => d@.range,
            LintOrCliDiagnostic::FastCheck(d) => d@.range,
        }
    }

    pub fn range(&self) -> (r: Option<(usize, usize)>)
        ensures
            match r {
                Option::Some((s, e)) => self.spec_range() == Option::Some((s as int, e as int)),
                Option::None => self.spec_range() is None,
            },
    {
        match self {
            LintOrCliDiagnostic::Lint(d, _) => d.range,
            LintOrCliDiagnostic::FastCheck(d) => d.range,
        }
    }

    /// The analyzed text a location's range refers to.
    pub open spec fn spec_text(self) -> Seq<u8> {
        match self {
            LintOrCliDiagnostic::Lint(_, t) => t@,
            LintOrCliDiagnostic::FastCheck(d) => d.text@,
        }
    }

    pub fn text(&self) -> (r: &Vec<u8>)
        ensures
            r@ == self.spec_text(),
    {
        match self {
            LintOrCliDiagnostic::Lint(_, t) => t,
            LintOrCliDiagnostic::FastCheck(d) => &d.text,
        }
    }

    pub open spec fn spec_level(self) -> Level {
        match self {
            LintOrCliDiagnostic::Lint(d, _) => d.level,
            LintOrCliDiagnostic::FastCheck(d) => d.level,
        }
    }

    pub fn level(&self) -> (r: Level)
        ensures
            r == self.spec_level(),
    {
        match self {
            LintOrCliDiagnostic::Lint(d, _) => d.level,
            LintOrCliDiagnostic::FastCheck(d) => d.level,
        }
    }

    /// The stable rule code: the rule's own code for a per-file diagnostic,
    /// the fixed synthetic code for a surface diagnostic.
    pub open spec fn spec_code(self) -> Seq<u8> {
        match self {
            LintOrCliDiagnostic::Lint(d, _) => d.code@,
            LintOrCliDiagnostic::FastCheck(_) => surface_code(),
        }
    }

    pub fn code(&self) -> (r: Vec<u8>)
        ensures
            r@ == self.spec_code(),
    {
        match self {
            LintOrCliDiagnostic::Lint(d, _) => copy_bytes(&d.code),
            LintOrCliDiagnostic::FastCheck(_) => surface_code_bytes(),
        }
    }

    pub open spec fn spec_message(self) -> Seq<u8> {
        match self {
            LintOrCliDiagnostic::Lint(d, _) => d.message@,
            LintOrCliDiagnostic::FastCheck(d) => d.message@,
        }
    }

    pub fn message(&self) -> (r: &Vec<u8>)
        ensures
            r@ == self.spec_message(),
    {
        match self {
            LintOrCliDiagnostic::Lint(d, _) => &d.message,
            LintOrCliDiagnostic::FastCheck(d) => &d.message,
        }
    }

    pub open spec fn spec_hint(self) -> Option<Seq<u8>> {
        match self {
            LintOrCliDiagnostic::Lint(d, _) => d@.hint,
            LintOrCliDiagnostic::FastCheck(d) => d@.hint,
        }
    }

    pub fn hint(&self) -> (r: Option<&Vec<u8>>)
        ensures
            match r {
                Option::Some(h) => self.spec_hint() == Option::Some(h@),
                Option::None => self.spec_hint() is None,
            },
    {
        match self {
            LintOrCliDiagnostic::Lint(d, _) => match &d.hint {
                Option::Some(h) => Option::Some(h),
                Option::None => Option::None,
            },
            LintOrCliDiagnostic::FastCheck(d) => match &d.hint {
                Option::Some(h) => Option::Some(h),
                Option::None => Option::None,
            },
        }
    }

    /// Whether the diagnostic carries at least one candidate fix; surface
    /// diagnostics never do.
    pub open spec fn spec_fixable(self) -> bool {
        match self {
            LintOrCliDiagnostic::Lint(d, _) => d.fixes@.len() > 0,
            LintOrCliDiagnostic::FastCheck(_) => false,
        }
    }

    pub fn fixable(&self) -> (r: bool)
        ensures
            r == self.spec_fixable(),
    {
        match self {
            LintOrCliDiagnostic::Lint(d, _) => d.fixes.len() > 0,
            LintOrCliDiagnostic::FastCheck(_) => false,
        }
    }
}

/// Byte-for-byte copy of a byte vector.
pub fn copy_bytes(v: &Vec<u8>) -> (out: Vec<u8>)
    ensures
        out@ == v@,
{
    let mut out: Vec<u8> = Vec::new();
    let mut k: usize = 0;
    while k < v.len()
        invariant
            k <= v@.len(),
            out@ == v@.take(k as int),
        decreases v@.len() - k,
    {
        let b = v[k];
        out.push(b);
        proof {
            assert(v@.take(k + 1 as int) =~= v@.take(k as int).push(v@[k as int]));
        }
        k = k + 1;
    }
    proof {
        assert(v@.take(v@.len() as int) =~= v@);
    }
    out
}

} // verus!
