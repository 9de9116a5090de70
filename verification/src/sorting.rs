//! A stable sort with an exact functional specification.
//!
//! Every ordering the library needs (text edits by start offset, diagnostics
//! by file identity and position, rule codes for the cache fingerprint) is a
//! total preorder; sorting by such an order must be stable so that the final
//! reported order is a deterministic function of the input. The sort is
//! specified as a recursive insertion sort, so a caller's contract pins the
//! result exactly.

use vstd::prelude::*;

verus! {

/// A total preorder on values of a type. `le` is the specification-level
/// ordering; ghost model types implement this part alone.
pub trait SortKey: Sized {
    spec fn le(self, other: Self) -> bool;

    proof fn lemma_le_total(a: Self, b: Self)
        ensures
            a.le(b) || b.le(a),
    ;

    proof fn lemma_le_trans(a: Self, b: Self, c: Self)
        requires
            a.le(b),
            b.le(c),
        ensures
            a.le(c),
    ;
}

/// An executable decision procedure for a type's ordering.
pub trait SortKeyExec: SortKey {
    fn le_exec(&self, other: &Self) -> (r: bool)
        ensures
            r == self.le(*other),
    ;
}

/// `e` inserted into `s` after every element that is `le` it; with `s`
/// ordered, this is the stable insertion position.
pub open spec fn insert_ordered<T: SortKey>(s: Seq<T>, e: T) -> Seq<T>
    decreases s.len(),
{
    if s.len() == 0 {
        seq![e]
    } else if s.last().le(e) {
        s.push(e)
    } else {
        insert_ordered(s.drop_last(), e).push(s.last())
    }
}

/// The stable sort of `s` under the type's ordering: insertion sort, element
/// by element from the left.
pub open spec fn stable_sorted<T: SortKey>(s: Seq<T>) -> Seq<T>
    decreases s.len(),
{
    if s.len() == 0 {
        s
    } else {
        insert_ordered(stable_sorted(s.drop_last()), s.last())
    }
}

/// `s` is sorted under the type's ordering.
pub open spec fn ordered<T: SortKey>(s: Seq<T>) -> bool {
    forall|i: int, j: int| 0 <= i <= j < s.len() ==> #[trigger] s[i].le(s[j])
}

/// Two values that the ordering cannot tell apart.
pub open spec fn equiv<T: SortKey>(a: T, b: T) -> bool {
    a.le(b) && b.le(a)
}

pub open spec fn equiv_pred<T: SortKey>(x: T) -> spec_fn(T) -> bool {
    |y: T| equiv(y, x)
}

/// The subsequence of `s` whose elements the ordering cannot tell apart
/// from `x`, in their order of appearance.
pub open spec fn class_in<T: SortKey>(s: Seq<T>, x: T) -> Seq<T> {
    s.filter(equiv_pred(x))
}

proof fn lemma_insert_ordered_props<T: SortKey>(s: Seq<T>, e: T)
    requires
        ordered(s),
    ensures
        ordered(insert_ordered(s, e)),
        insert_ordered(s, e).to_multiset() == s.to_multiset().insert(e),
        insert_ordered(s, e).len() == s.len() + 1,
    decreases s.len(),
{
    broadcast use vstd::seq_lib::group_to_multiset_ensures;

    let out = insert_ordered(s, e);
    T::lemma_le_total(e, e);
    if s.len() == 0 {
        assert(out =~= Seq::empty().push(e));
        assert(out.to_multiset() =~= s.to_multiset().insert(e));
    } else if s.last().le(e) {
        assert forall|i: int, j: int| 0 <= i <= j < out.len() implies out[i].le(out[j]) by {
            if j == out.len() - 1 && i < j {
                T::lemma_le_trans(s[i], s.last(), e);
            }
            if j == out.len() - 1 && i == j {
                T::lemma_le_total(e, e);
            }
        }
    } else {
        let inner = insert_ordered(s.drop_last(), e);
        lemma_insert_ordered_props(s.drop_last(), e);
        T::lemma_le_total(s.last(), e);
        // every element of `inner` is `le` s.last()
        assert forall|i: int| 0 <= i < inner.len() implies inner[i].le(s.last()) by {
            assert(inner.to_multiset().contains(inner[i]));
            if s.drop_last().to_multiset().contains(inner[i]) {
                let k = choose|k: int|
                    0 <= k < s.drop_last().len() && s.drop_last()[k] == inner[i];
                assert(s[k] == s.drop_last()[k]);
                assert(s[k].le(s.last()));
            } else {
                assert(inner[i] == e);
            }
        }
        assert(ordered(out)) by {
            assert forall|i: int, j: int| 0 <= i <= j < out.len() implies out[i].le(out[j]) by {
                if j < out.len() - 1 {
                    assert(out[i] == inner[i] && out[j] == inner[j]);
                } else if i < j {
                    assert(out[i] == inner[i]);
                } else {
                    T::lemma_le_total(s.last(), s.last());
                }
            }
        }
        assert(s.drop_last().push(s.last()) =~= s);
        assert(out.to_multiset() =~= s.to_multiset().insert(e));
    }
}

proof fn lemma_stable_sorted_props<T: SortKey>(s: Seq<T>)
    ensures
        ordered(stable_sorted(s)),
        stable_sorted(s).to_multiset() == s.to_multiset(),
        stable_sorted(s).len() == s.len(),
    decreases s.len(),
{
    broadcast use vstd::seq_lib::group_to_multiset_ensures;

    if s.len() > 0 {
        lemma_stable_sorted_props(s.drop_last());
        lemma_insert_ordered_props(stable_sorted(s.drop_last()), s.last());
        assert(s.drop_last().push(s.last()) =~= s);
        assert(stable_sorted(s).to_multiset() =~= s.to_multiset());
    }
}

/// Public face of the two lemmas above: the sort's result is ordered and a
/// permutation of its input.
pub proof fn lemma_stable_sorted_ensures<T: SortKey>(s: Seq<T>)
    ensures
        ordered(stable_sorted(s)),
        stable_sorted(s).to_multiset() == s.to_multiset(),
        stable_sorted(s).len() == s.len(),
{
    lemma_stable_sorted_props(s);
}

proof fn lemma_filter_single<T: SortKey>(e: T, pred: spec_fn(T) -> bool)
    ensures
        seq![e].filter(pred) == if pred(e) { seq![e] } else { Seq::<T>::empty() },
{
    reveal_with_fuel(Seq::filter, 3);
    assert(seq![e].drop_last() =~= Seq::<T>::empty());
    if pred(e) {
        assert(seq![e].filter(pred) =~= seq![e]);
    } else {
        assert(seq![e].filter(pred) =~= Seq::<T>::empty());
    }
}

proof fn lemma_filter_subset<T: SortKey>(s: Seq<T>, pred: spec_fn(T) -> bool, x: T)
    requires
        s.filter(pred).contains(x),
    ensures
        s.contains(x),
    decreases s.len(),
{
    reveal(Seq::filter);
    if s.len() > 0 {
        let sub = s.drop_last().filter(pred);
        if pred(s.last()) && x == s.last() {
            assert(s[s.len() - 1] == x);
        } else {
            assert(sub.contains(x)) by {
                let i = choose|i: int|
                    0 <= i < s.filter(pred).len() && s.filter(pred)[i] == x;
                if pred(s.last()) {
                    assert(sub[i] == x);
                }
            }
            lemma_filter_subset(s.drop_last(), pred, x);
            let j = choose|j: int| 0 <= j < s.drop_last().len() && s.drop_last()[j] == x;
            assert(s[j] == x);
        }
    }
}

proof fn lemma_insert_ordered_class<T: SortKey>(s: Seq<T>, e: T, x: T)
    requires
        ordered(s),
    ensures
        class_in(insert_ordered(s, e), x) == if equiv(e, x) {
            class_in(s, x).push(e)
        } else {
            class_in(s, x)
        },
    decreases s.len(),
{
    reveal(Seq::filter);
    let pred = equiv_pred::<T>(x);
    let out = insert_ordered(s, e);
    if s.len() == 0 {
        lemma_filter_single(e, pred);
        assert(s.filter(pred) =~= Seq::<T>::empty());
        if equiv(e, x) {
            assert(out.filter(pred) =~= s.filter(pred).push(e));
        }
    } else if s.last().le(e) {
        // out == s.push(e); filter unfolds on the last element
        assert(out.drop_last() =~= s);
    } else {
        let inner = insert_ordered(s.drop_last(), e);
        lemma_insert_ordered_class(s.drop_last(), e, x);
        // out == inner.push(s.last()); filter unfolds on s.last()
        assert(out.drop_last() =~= inner);
        if equiv(e, x) && pred(s.last()) {
            // impossible: equiv(s.last(), x) and equiv(e, x) force s.last().le(e)
            T::lemma_le_trans(s.last(), x, e);
            assert(false);
        }
        assert(s.drop_last().push(s.last()) =~= s);
        if pred(s.last()) {
            assert(s.filter(pred) == s.drop_last().filter(pred).push(s.last()));
        } else {
            assert(s.filter(pred) == s.drop_last().filter(pred));
        }
    }
}

/// Stability: sorting does not reorder elements the ordering cannot tell
/// apart. The subsequence of any one equivalence class is untouched.
pub proof fn lemma_stable_sorted_class<T: SortKey>(s: Seq<T>, x: T)
    ensures
        class_in(stable_sorted(s), x) == class_in(s, x),
    decreases s.len(),
{
    reveal(Seq::filter);
    let pred = equiv_pred::<T>(x);
    if s.len() > 0 {
        lemma_stable_sorted_props(s.drop_last());
        lemma_stable_sorted_class(s.drop_last(), x);
        lemma_insert_ordered_class(stable_sorted(s.drop_last()), s.last(), x);
        assert(s.drop_last().push(s.last()) =~= s);
        if pred(s.last()) {
            assert(s.filter(pred) == s.drop_last().filter(pred).push(s.last()));
        } else {
            assert(s.filter(pred) == s.drop_last().filter(pred));
        }
    }
}

/// An ordered sequence is determined by its equivalence classes: if two
/// ordered sequences contain, class by class, the same subsequences, they
/// are the same sequence. Together with the stability lemma this makes the
/// sort's output independent of how class-distinct elements were interleaved
/// in its input.
pub proof fn lemma_ordered_classes_unique<T: SortKey>(t1: Seq<T>, t2: Seq<T>)
    requires
        ordered(t1),
        ordered(t2),
        forall|x: T| class_in(t1, x) == class_in(t2, x),
    ensures
        t1 == t2,
    decreases t1.len(),
{
    broadcast use vstd::seq_lib::group_filter_ensures;

    if t1.len() == 0 && t2.len() == 0 {
        assert(t1 =~= t2);
    } else if t1.len() == 0 {
        let h = t2[0];
        T::lemma_le_total(h, h);
        assert(class_in(t2, h).contains(h)) by {
            t2.lemma_filter_contains(equiv_pred::<T>(h), 0);
        }
        assert(class_in(t1, h).len() == 0) by {
            reveal(Seq::filter);
        }
        assert(class_in(t1, h) == class_in(t2, h));
        assert(false);
    } else if t2.len() == 0 {
        let h = t1[0];
        T::lemma_le_total(h, h);
        assert(class_in(t1, h).contains(h)) by {
            t1.lemma_filter_contains(equiv_pred::<T>(h), 0);
        }
        assert(class_in(t2, h).len() == 0) by {
            reveal(Seq::filter);
        }
        assert(false);
    } else {
        let h1 = t1[0];
        let h2 = t2[0];
        T::lemma_le_total(h1, h1);
        T::lemma_le_total(h2, h2);
        // h1 occurs in t2, so t2's head is le h1; and symmetrically.
        assert(t2.contains(h1)) by {
            t1.lemma_filter_contains(equiv_pred::<T>(h1), 0);
            assert(class_in(t2, h1).contains(h1));
            lemma_filter_subset(t2, equiv_pred::<T>(h1), h1);
        }
        assert(t1.contains(h2)) by {
            t2.lemma_filter_contains(equiv_pred::<T>(h2), 0);
            assert(class_in(t1, h2).contains(h2));
            lemma_filter_subset(t1, equiv_pred::<T>(h2), h2);
        }
        assert(h2.le(h1)) by {
            let k = choose|k: int| 0 <= k < t2.len() && t2[k] == h1;
            assert(t2[0].le(t2[k]));
        }
        assert(h1.le(h2)) by {
            let k = choose|k: int| 0 <= k < t1.len() && t1[k] == h2;
            assert(t1[0].le(t1[k]));
        }
        // both heads lead their shared class, so they are equal
        let pred = equiv_pred::<T>(h1);
        assert(seq![t1[0]] + t1.drop_first() =~= t1);
        assert(seq![t2[0]] + t2.drop_first() =~= t2);
        Seq::filter_distributes_over_add(seq![h1], t1.drop_first(), pred);
        Seq::filter_distributes_over_add(seq![h2], t2.drop_first(), pred);
        lemma_filter_single(h1, pred);
        lemma_filter_single(h2, pred);
        assert(class_in(t1, h1)[0] == h1);
        assert(class_in(t2, h1)[0] == h2);
        assert(h1 == h2);
        // the tails agree class by class
        assert forall|x: T| class_in(t1.drop_first(), x) == class_in(t2.drop_first(), x) by {
            let p = equiv_pred::<T>(x);
            Seq::filter_distributes_over_add(seq![h1], t1.drop_first(), p);
            Seq::filter_distributes_over_add(seq![h2], t2.drop_first(), p);
            lemma_filter_single(h1, p);
            assert(class_in(t1, x) == class_in(t2, x));
            if p(h1) {
                assert(seq![h1].filter(p) + t1.drop_first().filter(p) == class_in(t1, x));
                assert(class_in(t1.drop_first(), x) =~= class_in(t1, x).drop_first());
                assert(class_in(t2.drop_first(), x) =~= class_in(t2, x).drop_first());
            } else {
                assert(class_in(t1.drop_first(), x) =~= class_in(t1, x));
                assert(class_in(t2.drop_first(), x) =~= class_in(t2, x));
            }
        }
        assert(ordered(t1.drop_first())) by {
            assert forall|i: int, j: int|
                0 <= i <= j < t1.drop_first().len() implies t1.drop_first()[i].le(
                t1.drop_first()[j]) by {
                assert(t1[i + 1].le(t1[j + 1]));
            }
        }
        assert(ordered(t2.drop_first())) by {
            assert forall|i: int, j: int|
                0 <= i <= j < t2.drop_first().len() implies t2.drop_first()[i].le(
                t2.drop_first()[j]) by {
                assert(t2[i + 1].le(t2[j + 1]));
            }
        }
        lemma_ordered_classes_unique(t1.drop_first(), t2.drop_first());
        assert(t1 =~= t2);
    }
}

proof fn lemma_insert_position<T: SortKey>(s: Seq<T>, e: T, j: int)
    requires
        0 <= j <= s.len(),
        forall|k: int| j <= k < s.len() ==> !(#[trigger] s[k].le(e)),
        j > 0 ==> s[j - 1].le(e),
    ensures
        s.insert(j, e) == insert_ordered(s, e),
    decreases s.len(),
{
    if s.len() == 0 {
        assert(s.insert(0, e) =~= seq![e]);
    } else if j == s.len() {
        assert(s.last().le(e));
        assert(s.insert(j, e) =~= s.push(e));
    } else {
        assert(!s.last().le(e));
        lemma_insert_position(s.drop_last(), e, j);
        assert(s.insert(j, e) =~= s.drop_last().insert(j, e).push(s.last()));
    }
}

/// Sorts `input` stably under the type's ordering; the result is exactly the
/// specification-level insertion sort of the input.
pub fn sort_by_order<T: SortKeyExec>(input: Vec<T>) -> (out: Vec<T>)
    ensures
        out@ == stable_sorted(input@),
{
    let ghost orig = input@;
    let mut v = input;
    let mut out: Vec<T> = Vec::new();
    let ghost mut i: int = 0;
    while v.len() > 0
        invariant
            0 <= i,
            i + v@.len() == orig.len(),
            v@ == orig.skip(i),
            out@ == stable_sorted(orig.take(i)),
        decreases v.len(),
    {
        proof {
            lemma_stable_sorted_props(orig.take(i));
        }
        let e = v.remove(0);
        let ghost prev = out@;
        let mut j: usize = out.len();
        while j > 0 && !out[j - 1].le_exec(&e)
            invariant
                j <= out.len(),
                out@ == prev,
                forall|k: int| j <= k < out.len() ==> !(#[trigger] out@[k].le(e)),
            decreases j,
        {
            j = j - 1;
        }
        out.insert(j, e);
        proof {
            lemma_insert_position(prev, e, j as int);
            assert(orig.take(i + 1).drop_last() =~= orig.take(i));
            assert(orig.take(i + 1).last() == orig[i]);
            assert(e == orig[i]);
            assert(v@ =~= orig.skip(i + 1));
            i = i + 1;
        }
    }
    proof {
        assert(orig.take(orig.len() as int) =~= orig);
    }
    out
}

} // verus!
