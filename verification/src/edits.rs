//! Text edits: byte-range replacements suggested by candidate fixes.
//!
//! An edit batch is derived from diagnostics in three steps — flatten the
//! first candidate fix of each diagnostic, sort by start offset, and prune
//! every edit that begins before the end of the last kept edit (the
//! earlier-starting edit wins; a pruned edit is reconsidered on the next
//! convergence iteration) — and is then applied to the text in one pass.
//! Each step has an exact specification, so the rewritten text is pinned
//! byte for byte.

use vstd::prelude::*;

use crate::sorting::SortKey;
use crate::sorting::SortKeyExec;
use crate::sorting::insert_ordered;
use crate::sorting::stable_sorted;

verus! {

/// One byte-range replacement `[start, end)` -> `replacement`, relative to
/// the text the containing fix was computed against.
pub struct TextEdit {
    pub start: usize,
    pub end: usize,
    pub replacement: Vec<u8>,
}

/// The mathematical shape of an edit.
pub ghost struct EditView {
    pub start: int,
    pub end: int,
    pub replacement: Seq<u8>,
}

impl View for TextEdit {
    type V = EditView;

    open spec fn view(&self) -> EditView {
        EditView { start: self.start as int, end: self.end as int, replacement: self.replacement@ }
    }
}

impl SortKey for TextEdit {
    open spec fn le(self, other: Self) -> bool {
        self.start <= other.start
    }

    proof fn lemma_le_total(a: Self, b: Self) {
    }

    proof fn lemma_le_trans(a: Self, b: Self, c: Self) {
    }
}

impl SortKeyExec for TextEdit {
    fn le_exec(&self, other: &Self) -> (r: bool) {
        self.start <= other.start
    }
}

impl SortKey for EditView {
    open spec fn le(self, other: Self) -> bool {
        self.start <= other.start
    }

    proof fn lemma_le_total(a: Self, b: Self) {
    }

    proof fn lemma_le_trans(a: Self, b: Self, c: Self) {
    }
}

pub open spec fn edit_views(s: Seq<TextEdit>) -> Seq<EditView> {
    Seq::new(s.len(), |i: int| s[i]@)
}

proof fn lemma_insert_view_commute(s: Seq<TextEdit>, e: TextEdit)
    ensures
        edit_views(insert_ordered(s, e)) == insert_ordered(edit_views(s), e@),
    decreases s.len(),
{
    if s.len() == 0 {
        assert(edit_views(insert_ordered(s, e)) =~= insert_ordered(edit_views(s), e@));
    } else if s.last().le(e) {
        assert(edit_views(s).last() == s.last()@);
        assert(edit_views(s.push(e)) =~= edit_views(s).push(e@));
    } else {
        lemma_insert_view_commute(s.drop_last(), e);
        assert(edit_views(s.drop_last()) =~= edit_views(s).drop_last());
        assert(edit_views(s).last() == s.last()@);
        assert(edit_views(insert_ordered(s.drop_last(), e).push(s.last())) =~= edit_views(
            insert_ordered(s.drop_last(), e),
        ).push(s.last()@));
    }
}

/// Sorting edits by start offset and taking views commute.
pub proof fn lemma_sort_view_commute(s: Seq<TextEdit>)
    ensures
        edit_views(stable_sorted(s)) == stable_sorted(edit_views(s)),
    decreases s.len(),
{
    if s.len() > 0 {
        lemma_sort_view_commute(s.drop_last());
        lemma_insert_view_commute(stable_sorted(s.drop_last()), s.last());
        assert(edit_views(s.drop_last()) =~= edit_views(s).drop_last());
        assert(edit_views(s).last() == s.last()@);
    }
}

/// An edit chain is applicable to text of length `len` from position
/// `floor`: each edit is a well-formed range at or after `floor` and at or
/// before the next edit's start.
pub open spec fn applicable(s: Seq<EditView>, floor: int, len: int) -> bool
    decreases s.len(),
{
    if s.len() == 0 {
        true
    } else {
        floor <= s[0].start && s[0].start <= s[0].end && s[0].end <= len && applicable(
            s.drop_first(),
            s[0].end,
            len,
        )
    }
}

/// The overlap policy over a start-sorted edit sequence: walk left to right
/// keeping an edit only if it is a well-formed range that begins at or after
/// the end of the last kept edit; everything else is dropped and left to a
/// later convergence iteration.
pub open spec fn pruned_edits(s: Seq<EditView>, floor: int, len: int) -> Seq<EditView>
    decreases s.len(),
{
    if s.len() == 0 {
        s
    } else if floor <= s[0].start && s[0].start <= s[0].end && s[0].end <= len {
        seq![s[0]] + pruned_edits(s.drop_first(), s[0].end, len)
    } else {
        pruned_edits(s.drop_first(), floor, len)
    }
}

pub proof fn lemma_pruned_applicable(s: Seq<EditView>, floor: int, len: int)
    ensures
        applicable(pruned_edits(s, floor, len), floor, len),
    decreases s.len(),
{
    if s.len() > 0 {
        if floor <= s[0].start && s[0].start <= s[0].end && s[0].end <= len {
            lemma_pruned_applicable(s.drop_first(), s[0].end, len);
            let out = seq![s[0]] + pruned_edits(s.drop_first(), s[0].end, len);
            assert(out.drop_first() =~= pruned_edits(s.drop_first(), s[0].end, len));
        } else {
            lemma_pruned_applicable(s.drop_first(), floor, len);
        }
    }
}

/// The text that results from applying an applicable edit chain, reading the
/// original text from position `cursor` on.
pub open spec fn applied(text: Seq<u8>, s: Seq<EditView>, cursor: int) -> Seq<u8>
    decreases s.len(),
{
    if s.len() == 0 {
        text.skip(cursor)
    } else {
        text.subrange(cursor, s[0].start) + s[0].replacement + applied(text, s.drop_first(), s[0].end)
    }
}

/// Appends `text[from..to]` to `out`.
fn push_byte_range(out: &mut Vec<u8>, text: &Vec<u8>, from: usize, to: usize)
    requires
        from <= to <= text@.len(),
    ensures
        final(out)@ == old(out)@ + text@.subrange(from as int, to as int),
{
    let mut k = from;
    while k < to
        invariant
            from <= k <= to <= text@.len(),
            out@ == old(out)@ + text@.subrange(from as int, k as int),
        decreases to - k,
    {
        let b = text[k];
        out.push(b);
        proof {
            assert(text@.subrange(from as int, k + 1 as int) =~= text@.subrange(
                from as int,
                k as int,
            ).push(text@[k as int]));
        }
        k = k + 1;
    }
    proof {
        assert(text@.subrange(from as int, from as int) =~= Seq::<u8>::empty());
    }
}

/// Applies an applicable edit chain to `text` in one batch, producing the
/// rewritten text.
pub fn apply_edits(text: &Vec<u8>, edits: &Vec<TextEdit>) -> (out: Vec<u8>)
    requires
        applicable(edit_views(edits@), 0, text@.len() as int),
    ensures
        out@ == applied(text@, edit_views(edits@), 0),
{
    let ghost views = edit_views(edits@);
    let mut out: Vec<u8> = Vec::new();
    let mut cursor: usize = 0;
    let mut i: usize = 0;
    proof {
        assert(views.skip(0) =~= views);
    }
    while i < edits.len()
        invariant
            i <= edits@.len(),
            views == edit_views(edits@),
            views.len() == edits@.len(),
            cursor <= text@.len(),
            applicable(views.skip(i as int), cursor as int, text@.len() as int),
            applied(text@, views, 0) == out@ + applied(
                text@,
                views.skip(i as int),
                cursor as int,
            ),
        decreases edits@.len() - i,
    {
        let ghost rest = views.skip(i as int);
        proof {
            assert(rest[0] == views[i as int]);
            assert(rest.drop_first() =~= views.skip(i + 1 as int));
        }
        let e_start = edits[i].start;
        let e_end = edits[i].end;
        push_byte_range(&mut out, text, cursor, e_start);
        let mut k: usize = 0;
        let ghost mid = out@;
        while k < edits[i].replacement.len()
            invariant
                i < edits@.len(),
                k <= edits@[i as int].replacement@.len(),
                out@ == mid + edits@[i as int].replacement@.subrange(0, k as int),
            decreases edits@[i as int].replacement@.len() - k,
        {
            let b = edits[i].replacement[k];
            out.push(b);
            proof {
                assert(edits@[i as int].replacement@.subrange(0, k + 1 as int) =~= edits@[
                    i as int].replacement@.subrange(0, k as int).push(b));
            }
            k = k + 1;
        }
        proof {
            assert(edits@[i as int].replacement@.subrange(
                0,
                edits@[i as int].replacement@.len() as int,
            ) =~= edits@[i as int].replacement@);
            assert(mid + edits@[i as int].replacement@.subrange(0, 0) =~= mid);
        }
        cursor = e_end;
        i = i + 1;
    }
    proof {
        assert(views.skip(i as int).len() == 0);
    }
    push_byte_range(&mut out, text, cursor, text.len());
    proof {
        assert(text@.subrange(cursor as int, text@.len() as int) =~= text@.skip(cursor as int));
    }
    out
}

/// Prunes a start-sorted edit list down to the kept chain: the exact overlap
/// policy `pruned_edits`, starting at position zero.
pub fn prune_edits(edits: Vec<TextEdit>, len: usize) -> (out: Vec<TextEdit>)
    ensures
        edit_views(out@) == pruned_edits(edit_views(edits@), 0, len as int),
        applicable(edit_views(out@), 0, len as int),
{
    let ghost orig = edit_views(edits@);
    let mut v = edits;
    let mut out: Vec<TextEdit> = Vec::new();
    let mut floor: usize = 0;
    let ghost mut i: int = 0;
    proof {
        assert(orig.skip(0) =~= orig);
        assert(edit_views(out@) =~= Seq::<EditView>::empty());
    }
    while v.len() > 0
        invariant
            0 <= i,
            i + v@.len() == orig.len(),
            edit_views(v@) =~= orig.skip(i),
            pruned_edits(orig, 0, len as int) == edit_views(out@) + pruned_edits(
                orig.skip(i),
                floor as int,
                len as int,
            ),
        decreases v@.len(),
    {
        let ghost rest = orig.skip(i);
        proof {
            assert(rest[0] == edit_views(v@)[0]);
            assert(rest.drop_first() =~= orig.skip(i + 1));
            assert(edit_views(v@.drop_first()) =~= edit_views(v@).drop_first());
        }
        let e = v.remove(0);
        proof {
            assert(e@ == rest[0]);
        }
        if floor <= e.start && e.start <= e.end && e.end <= len {
            floor = e.end;
            let ghost prev = out@;
            out.push(e);
            proof {
                assert(edit_views(out@) =~= edit_views(prev).push(e@));
                assert(edit_views(prev) + (seq![e@] + pruned_edits(
                    rest.drop_first(),
                    e@.end,
                    len as int,
                )) =~= edit_views(prev).push(e@) + pruned_edits(
                    rest.drop_first(),
                    e@.end,
                    len as int,
                ));
            }
        }
        proof {
            i = i + 1;
        }
    }
    proof {
        assert(orig.skip(i).len() == 0);
        assert(edit_views(out@) + Seq::<EditView>::empty() =~= edit_views(out@));
        lemma_pruned_applicable(orig, 0, len as int);
    }
    out
}

} // verus!
