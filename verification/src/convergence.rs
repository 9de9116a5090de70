//! The fix-convergence engine's decision core.
//!
//! From the current text and diagnostics it derives the edit batch — first
//! candidate fix of each diagnostic, flattened, sorted by start, overlap
//! pruned — and decides whether to apply it, stop converged, or stop at the
//! iteration cap. Applying a batch invalidates every other computed edit,
//! so the caller must re-analyze the new text before the next step.

use vstd::prelude::*;

use crate::diagnostics::FileDiagnostic;
use crate::diagnostics::FileDiagnosticView;
use crate::edits::TextEdit;
use crate::edits::EditView;
use crate::edits::applied;
use crate::edits::apply_edits;
use crate::edits::edit_views;
use crate::edits::lemma_sort_view_commute;
use crate::edits::prune_edits;
use crate::edits::pruned_edits;
use crate::diagnostics::copy_bytes;
use crate::sorting::stable_sorted;
use crate::sorting::sort_by_order;

verus! {

/// Convergence stops after this many applied iterations; reaching the cap
/// with fixes still pending is reported loudly as a likely rule defect.
pub open spec fn iteration_cap() -> int {
    5
}

pub open spec fn diag_views(ds: Seq<FileDiagnostic>) -> Seq<FileDiagnosticView> {
    Seq::new(ds.len(), |i: int| ds[i]@)
}

/// The edits of the first candidate fix of each diagnostic that has one,
/// flattened in diagnostic order.
pub open spec fn first_fix_edit_views(ds: Seq<FileDiagnosticView>) -> Seq<EditView>
    decreases ds.len(),
{
    if ds.len() == 0 {
        Seq::empty()
    } else {
        first_fix_edit_views(ds.drop_last()) + (if ds.last().fixes.len() > 0 {
            ds.last().fixes[0]
        } else {
            Seq::empty()
        })
    }
}

/// The edit batch one convergence step would apply: first fixes, sorted by
/// start offset, overlap pruned against the current text length.
pub open spec fn fix_batch(text: Seq<u8>, ds: Seq<FileDiagnosticView>) -> Seq<EditView> {
    pruned_edits(stable_sorted(first_fix_edit_views(ds)), 0, text.len() as int)
}

/// No diagnostic at all means no batch: convergence on a clean analysis
/// performs zero edits.
pub proof fn lemma_clean_analysis_converges(text: Seq<u8>, ds: Seq<FileDiagnosticView>)
    requires
        ds.len() == 0,
    ensures
        fix_batch(text, ds).len() == 0,
{
}

/// Diagnostics that carry no candidate fix yield no batch either.
pub proof fn lemma_unfixable_diagnostics_converge(text: Seq<u8>, ds: Seq<FileDiagnosticView>)
    requires
        forall|i: int| 0 <= i < ds.len() ==> (#[trigger] ds[i].fixes).len() == 0,
    ensures
        fix_batch(text, ds).len() == 0,
    decreases ds.len(),
{
    if ds.len() > 0 {
        lemma_unfixable_diagnostics_converge(text, ds.drop_last());
        assert(ds.drop_last() =~= ds.drop_last());
        assert(first_fix_edit_views(ds) =~= first_fix_edit_views(ds.drop_last()));
    }
}

fn duplicate_edit(e: &TextEdit) -> (out: TextEdit)
    ensures
        out@ == e@,
{
    TextEdit { start: e.start, end: e.end, replacement: copy_bytes(&e.replacement) }
}

/// Collects the first candidate fix's edits of every diagnostic.
fn collect_first_fix_edits(ds: &Vec<FileDiagnostic>) -> (out: Vec<TextEdit>)
    ensures
        edit_views(out@) == first_fix_edit_views(diag_views(ds@)),
{
    let ghost all = diag_views(ds@);
    let mut out: Vec<TextEdit> = Vec::new();
    let mut i: usize = 0;
    proof {
        assert(edit_views(out@) =~= Seq::<EditView>::empty());
        assert(first_fix_edit_views(all.take(0)) =~= Seq::<EditView>::empty());
    }
    while i < ds.len()
        invariant
            i <= ds@.len(),
            all == diag_views(ds@),
            all.len() == ds@.len(),
            edit_views(out@) == first_fix_edit_views(all.take(i as int)),
        decreases ds@.len() - i,
    {
        proof {
            assert(all.take(i + 1).drop_last() =~= all.take(i as int));
            assert(all.take(i + 1).last() == all[i as int]);
            assert(all[i as int] == ds@[i as int]@);
        }
        if ds[i].fixes.len() > 0 {
            let edits = &ds[i].fixes[0].edits;
            let ghost before = edit_views(out@);
            let mut k: usize = 0;
            while k < edits.len()
                invariant
                    k <= edits@.len(),
                    i < ds@.len(),
                    edits == &ds@[i as int].fixes[0 as int].edits,
                    edit_views(out@) == before + edit_views(edits@).take(k as int),
                decreases edits@.len() - k,
            {
                let d = duplicate_edit(&edits[k]);
                let ghost prev = edit_views(out@);
                out.push(d);
                proof {
                    assert(edit_views(out@) =~= prev.push(d@));
                    assert(edit_views(edits@).take(k + 1) =~= edit_views(edits@).take(
                        k as int,
                    ).push(edits@[k as int]@));
                }
                k = k + 1;
            }
            proof {
                assert(edit_views(edits@).take(edits@.len() as int) =~= edit_views(edits@));
                assert(all[i as int].fixes[0] == edit_views(edits@));
                assert(edit_views(out@) =~= first_fix_edit_views(all.take(i as int)) + all[
                    i as int].fixes[0]);
            }
        } else {
            proof {
                assert(all[i as int].fixes.len() == 0);
                assert(edit_views(out@) =~= first_fix_edit_views(all.take(i as int))
                    + Seq::<EditView>::empty());
            }
        }
        i = i + 1;
    }
    proof {
        assert(all.take(all.len() as int) =~= all);
    }
    out
}

/// Derives the minimal non-overlapping edit batch from `ds` and applies it
/// to `text`; `None` when no edit survives, so the caller stops.
pub fn compute_fix_batch(text: &Vec<u8>, ds: &Vec<FileDiagnostic>) -> (r: Option<Vec<u8>>)
    ensures
        (r is Some) <==> fix_batch(text@, diag_views(ds@)).len() > 0,
        (r matches Option::Some(t) ==> t@ == applied(text@, fix_batch(text@, diag_views(ds@)), 0)),
{
    let edits = collect_first_fix_edits(ds);
    let sorted = sort_by_order(edits);
    proof {
        lemma_sort_view_commute(edits@);
    }
    let pruned = prune_edits(sorted, text.len());
    if pruned.len() == 0 {
        return Option::None;
    }
    let out = apply_edits(text, &pruned);
    Option::Some(out)
}

/// What one convergence step decides.
pub enum FixDecision {
    /// No applicable edit: the loop is done with the current state.
    Converged,
    /// Apply produced this text; the caller must re-analyze it before the
    /// next step.
    Apply(Vec<u8>),
    /// Edits remain but the iteration cap was reached: stop and warn.
    CapReached,
}

/// One decision of the convergence loop, given the current text, its
/// diagnostics, and how many iterations were applied so far.
pub fn fix_step(text: &Vec<u8>, ds: &Vec<FileDiagnostic>, iterations: u64) -> (r: FixDecision)
    ensures
        (r is Converged) <==> fix_batch(text@, diag_views(ds@)).len() == 0,
        (r is CapReached) <==> (fix_batch(text@, diag_views(ds@)).len() > 0 && iterations
            >= iteration_cap()),
        (r matches FixDecision::Apply(t) ==> iterations < iteration_cap() && t@ == applied(
            text@,
            fix_batch(text@, diag_views(ds@)),
            0,
        )),
{
    match compute_fix_batch(text, ds) {
        Option::None => FixDecision::Converged,
        Option::Some(t) => {
            if iterations >= 5 {
                FixDecision::CapReached
            } else {
                FixDecision::Apply(t)
            }
        },
    }
}

} // verus!
