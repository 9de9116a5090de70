//! Lexicographic order on byte strings, the primary sort key wherever the
//! library must order file identities or rule codes deterministically.

use vstd::prelude::*;

use crate::sorting::SortKey;
use crate::sorting::SortKeyExec;

verus! {

/// Byte-wise lexicographic "less or equal" on byte strings.
pub open spec fn lex_le(a: Seq<u8>, b: Seq<u8>) -> bool
    decreases a.len(),
{
    if a.len() == 0 {
        true
    } else if b.len() == 0 {
        false
    } else if a[0] < b[0] {
        true
    } else if a[0] > b[0] {
        false
    } else {
        lex_le(a.drop_first(), b.drop_first())
    }
}

pub proof fn lemma_lex_le_total(a: Seq<u8>, b: Seq<u8>)
    ensures
        lex_le(a, b) || lex_le(b, a),
    decreases a.len(),
{
    if a.len() > 0 && b.len() > 0 && a[0] == b[0] {
        lemma_lex_le_total(a.drop_first(), b.drop_first());
    }
}

pub proof fn lemma_lex_le_antisym(a: Seq<u8>, b: Seq<u8>)
    requires
        lex_le(a, b),
        lex_le(b, a),
    ensures
        a == b,
    decreases a.len(),
{
    if a.len() == 0 {
        assert(b.len() == 0);
        assert(a =~= b);
    } else {
        assert(b.len() > 0);
        assert(a[0] == b[0]);
        lemma_lex_le_antisym(a.drop_first(), b.drop_first());
        assert(a =~= seq![a[0]] + a.drop_first());
        assert(b =~= seq![b[0]] + b.drop_first());
    }
}

pub proof fn lemma_lex_le_trans(a: Seq<u8>, b: Seq<u8>, c: Seq<u8>)
    requires
        lex_le(a, b),
        lex_le(b, c),
    ensures
        lex_le(a, c),
    decreases a.len(),
{
    if a.len() > 0 {
        assert(b.len() > 0);
        if b.len() > 0 && c.len() > 0 && a[0] == b[0] && b[0] == c[0] {
            lemma_lex_le_trans(a.drop_first(), b.drop_first(), c.drop_first());
        }
    }
}

/// Three-way byte-string comparison; the sign carries the lexicographic
/// order and zero means byte-for-byte equality.
pub fn bytes_cmp3(a: &Vec<u8>, b: &Vec<u8>) -> (r: i8)
    ensures
        (r == 0) <==> (a@ == b@),
        (r <= 0) <==> lex_le(a@, b@),
        r == 0 || r == 1 || r == -1,
{
    let mut i: usize = 0;
    proof {
        assert(a@.skip(0) =~= a@);
        assert(b@.skip(0) =~= b@);
        assert(a@.take(0) =~= b@.take(0));
    }
    loop
        invariant
            i <= a@.len(),
            i <= b@.len(),
            a@.take(i as int) =~= b@.take(i as int),
            lex_le(a@, b@) == lex_le(a@.skip(i as int), b@.skip(i as int)),
            lex_le(b@, a@) == lex_le(b@.skip(i as int), a@.skip(i as int)),
            (a@ == b@) == (a@.skip(i as int) =~= b@.skip(i as int)),
        decreases a@.len() - i,
    {
        proof {
            lemma_lex_le_total(a@.skip(i as int), b@.skip(i as int));
        }
        if i >= a.len() {
            if i >= b.len() {
                proof {
                    lemma_lex_le_antisym(a@.skip(i as int), b@.skip(i as int));
                }
                return 0;
            }
            return -1;
        }
        if i >= b.len() {
            return 1;
        }
        let x = a[i];
        let y = b[i];
        if x < y {
            proof {
                lemma_skip_ne(a@, b@, i as int);
            }
            return -1;
        }
        if x > y {
            proof {
                lemma_skip_ne(a@, b@, i as int);
            }
            return 1;
        }
        proof {
            let ra = a@.skip(i as int);
            let rb = b@.skip(i as int);
            assert(ra.drop_first() =~= a@.skip(i + 1));
            assert(rb.drop_first() =~= b@.skip(i + 1));
            assert(a@.take(i + 1) =~= a@.take(i as int).push(a@[i as int]));
            assert(b@.take(i + 1) =~= b@.take(i as int).push(b@[i as int]));
            if a@.skip(i + 1) =~= b@.skip(i + 1) {
                assert(a@ =~= a@.take(i + 1) + a@.skip(i + 1));
                assert(b@ =~= b@.take(i + 1) + b@.skip(i + 1));
            }
        }
        i = i + 1;
    }
}

proof fn lemma_skip_ne(a: Seq<u8>, b: Seq<u8>, i: int)
    requires
        0 <= i < a.len(),
        0 <= i < b.len(),
        a[i] != b[i],
    ensures
        a != b,
{
    assert(a == b ==> a[i] == b[i]);
}

impl SortKey for Vec<u8> {
    open spec fn le(self, other: Self) -> bool {
        lex_le(self@, other@)
    }

    proof fn lemma_le_total(a: Self, b: Self) {
        lemma_lex_le_total(a@, b@);
    }

    proof fn lemma_le_trans(a: Self, b: Self, c: Self) {
        lemma_lex_le_trans(a@, b@, c@);
    }
}

impl SortKeyExec for Vec<u8> {
    fn le_exec(&self, other: &Self) -> (r: bool) {
        let c = bytes_cmp3(self, other);
        c <= 0
    }
}

impl SortKey for Seq<u8> {
    open spec fn le(self, other: Self) -> bool {
        lex_le(self, other)
    }

    proof fn lemma_le_total(a: Self, b: Self) {
        lemma_lex_le_total(a, b);
    }

    proof fn lemma_le_trans(a: Self, b: Self, c: Self) {
        lemma_lex_le_trans(a, b, c);
    }
}

pub open spec fn byte_views(s: Seq<Vec<u8>>) -> Seq<Seq<u8>> {
    Seq::new(s.len(), |i: int| s[i]@)
}

proof fn lemma_bytes_insert_view_commute(s: Seq<Vec<u8>>, e: Vec<u8>)
    ensures
        byte_views(crate::sorting::insert_ordered(s, e)) == crate::sorting::insert_ordered(
            byte_views(s),
            e@,
        ),
    decreases s.len(),
{
    if s.len() == 0 {
        assert(byte_views(crate::sorting::insert_ordered(s, e)) =~= crate::sorting::insert_ordered(
            byte_views(s),
            e@,
        ));
    } else if s.last().le(e) {
        assert(byte_views(s).last() == s.last()@);
        assert(byte_views(s.push(e)) =~= byte_views(s).push(e@));
    } else {
        lemma_bytes_insert_view_commute(s.drop_last(), e);
        assert(byte_views(s.drop_last()) =~= byte_views(s).drop_last());
        assert(byte_views(s).last() == s.last()@);
        assert(byte_views(crate::sorting::insert_ordered(s.drop_last(), e).push(s.last()))
            =~= byte_views(crate::sorting::insert_ordered(s.drop_last(), e)).push(s.last()@));
    }
}

/// Sorting byte strings and taking views commute.
pub proof fn lemma_bytes_sort_view_commute(s: Seq<Vec<u8>>)
    ensures
        byte_views(crate::sorting::stable_sorted(s)) == crate::sorting::stable_sorted(
            byte_views(s),
        ),
    decreases s.len(),
{
    if s.len() > 0 {
        lemma_bytes_sort_view_commute(s.drop_last());
        lemma_bytes_insert_view_commute(crate::sorting::stable_sorted(s.drop_last()), s.last());
        assert(byte_views(s.drop_last()) =~= byte_views(s).drop_last());
        assert(byte_views(s).last() == s.last()@);
    }
}

} // verus!
