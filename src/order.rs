//! Stable ordering of bindings by binding index.
//!
//! The order is given by insertion: each element is placed after every
//! earlier element whose binding index is not larger. Elements with equal
//! binding index therefore keep their relative order.

use vstd::prelude::*;

verus! {

/// An item that occupies a binding index.
pub trait BindingSlot {
    spec fn slot(&self) -> u32;

    fn binding_index(&self) -> (r: u32)
        ensures
            r == self.slot(),
    ;
}

/// The binding indices never decrease along `s`.
pub open spec fn sorted_by_binding<T: BindingSlot>(s: Seq<T>) -> bool {
    forall|i: int, j: int| 0 <= i < j < s.len() ==> s[i].slot() <= s[j].slot()
}

/// Whether an item sits at binding index `k`.
pub open spec fn at_index<T: BindingSlot>(k: u32) -> spec_fn(T) -> bool {
    |x: T| x.slot() == k
}

/// The elements of `s` at binding index `k`, in their order in `s`.
pub open spec fn with_binding<T: BindingSlot>(s: Seq<T>, k: u32) -> Seq<T> {
    s.filter(at_index(k))
}

/// `s` with `x` placed after the last element whose index is not larger.
pub open spec fn insert_by_binding<T: BindingSlot>(s: Seq<T>, x: T) -> Seq<T>
    decreases s.len(),
{
    if s.len() == 0 {
        seq![x]
    } else if s.last().slot() <= x.slot() {
        s.push(x)
    } else {
        insert_by_binding(s.drop_last(), x).push(s.last())
    }
}

/// The stable sort of `s` by binding index.
pub open spec fn sort_by_binding<T: BindingSlot>(s: Seq<T>) -> Seq<T>
    decreases s.len(),
{
    if s.len() == 0 {
        s
    } else {
        insert_by_binding(sort_by_binding(s.drop_last()), s.last())
    }
}

proof fn lemma_insert_at<T: BindingSlot>(s: Seq<T>, x: T, j: int)
    requires
        0 <= j <= s.len(),
        forall|m: int| j <= m < s.len() ==> s[m].slot() > x.slot(),
        j == 0 || s[j - 1].slot() <= x.slot(),
    ensures
        insert_by_binding(s, x) == s.insert(j, x),
    decreases s.len(),
{
    if s.len() == 0 {
        assert(s.insert(j, x) =~= seq![x]);
    } else if s.last().slot() <= x.slot() {
        assert(s.insert(j, x) =~= s.push(x));
    } else {
        lemma_insert_at(s.drop_last(), x, j);
        assert(s.drop_last().insert(j, x).push(s.last()) =~= s.insert(j, x));
    }
}

/// Filtering a sequence with one more element at its end.
pub proof fn lemma_filter_push<T>(s: Seq<T>, x: T, p: spec_fn(T) -> bool)
    ensures
        s.push(x).filter(p) == if p(x) {
            s.filter(p).push(x)
        } else {
            s.filter(p)
        },
{
    reveal(Seq::filter);
    assert(s.push(x).drop_last() =~= s);
}

/// Inserting `x` adds it at the end of the elements with its binding index
/// and leaves the elements at other indices as they were.
pub proof fn lemma_insert_with_binding<T: BindingSlot>(s: Seq<T>, x: T, k: u32)
    ensures
        with_binding(insert_by_binding(s, x), k) == if x.slot() == k {
            with_binding(s, k).push(x)
        } else {
            with_binding(s, k)
        },
    decreases s.len(),
{
    let p = at_index::<T>(k);
    if s.len() == 0 {
        lemma_filter_push(s, x, p);
        assert(s.push(x) =~= seq![x]);
    } else if s.last().slot() <= x.slot() {
        lemma_filter_push(s, x, p);
    } else {
        let s1 = s.drop_last();
        lemma_insert_with_binding(s1, x, k);
        lemma_filter_push(insert_by_binding(s1, x), s.last(), p);
        lemma_filter_push(s1, s.last(), p);
        assert(s1.push(s.last()) =~= s);
        if x.slot() == k && s.last().slot() == k {
            assert(false);
        }
    }
}

/// Sorting keeps, for each binding index, the elements at that index in
/// the order they had in the input.
pub proof fn lemma_sort_with_binding<T: BindingSlot>(s: Seq<T>, k: u32)
    ensures
        with_binding(sort_by_binding(s), k) == with_binding(s, k),
    decreases s.len(),
{
    if s.len() > 0 {
        let p = at_index::<T>(k);
        lemma_sort_with_binding(s.drop_last(), k);
        lemma_insert_with_binding(sort_by_binding(s.drop_last()), s.last(), k);
        lemma_filter_push(s.drop_last(), s.last(), p);
        assert(s.drop_last().push(s.last()) =~= s);
    }
}

proof fn lemma_insert_sorted<T: BindingSlot>(s: Seq<T>, x: T)
    requires
        sorted_by_binding(s),
    ensures
        sorted_by_binding(insert_by_binding(s, x)),
        insert_by_binding(s, x).len() == s.len() + 1,
        insert_by_binding(s, x).last() == x || (s.len() > 0 && insert_by_binding(s, x).last()
            == s.last()),
    decreases s.len(),
{
    if s.len() == 0 {
    } else if s.last().slot() <= x.slot() {
    } else {
        let s1 = s.drop_last();
        let l = s.last();
        lemma_insert_sorted(s1, x);
        let t = insert_by_binding(s1, x);
        assert(t.last().slot() <= l.slot());
        assert forall|i: int, j: int| 0 <= i < j < t.push(l).len() implies t.push(l)[i].slot()
            <= t.push(l)[j].slot() by {
            if j == t.len() {
                assert(t[i].slot() <= t[t.len() - 1].slot());
            }
        }
    }
}

/// The stable sort is sorted.
pub proof fn lemma_sort_sorted<T: BindingSlot>(s: Seq<T>)
    ensures
        sorted_by_binding(sort_by_binding(s)),
        sort_by_binding(s).len() == s.len(),
    decreases s.len(),
{
    if s.len() > 0 {
        lemma_sort_sorted(s.drop_last());
        lemma_insert_sorted(sort_by_binding(s.drop_last()), s.last());
    }
}

proof fn lemma_with_binding_nonempty<T: BindingSlot>(s: Seq<T>, k: u32)
    ensures
        with_binding(s, k).len() > 0 <==> exists|i: int| 0 <= i < s.len() && s[i].slot() == k,
{
    let p = at_index::<T>(k);
    broadcast use Seq::lemma_filter_contains_rev, Seq::lemma_filter_contains;

    if with_binding(s, k).len() > 0 {
        let f = s.filter(p);
        assert(0 < f.len());
        s.lemma_filter_pred(p, 0);
        assert(f.contains(f[0]));
        assert(s.contains(f[0]));
    }
    if exists|i: int| 0 <= i < s.len() && s[i].slot() == k {
        let i = choose|i: int| 0 <= i < s.len() && s[i].slot() == k;
        assert(s.filter(p).contains(s[i]));
    }
}

/// Two sorted sequences that hold the same elements, in the same order, at
/// each binding index are equal.
pub proof fn lemma_sorted_unique<T: BindingSlot>(r1: Seq<T>, r2: Seq<T>)
    requires
        sorted_by_binding(r1),
        sorted_by_binding(r2),
        forall|k: u32| with_binding(r1, k) == with_binding(r2, k),
    ensures
        r1 == r2,
    decreases r1.len(),
{
    if r1.len() == 0 {
        if r2.len() > 0 {
            let k = r2.last().slot();
            lemma_with_binding_nonempty(r1, k);
            lemma_with_binding_nonempty(r2, k);
            assert(r2[r2.len() - 1].slot() == k);
            assert(with_binding(r1, k) == with_binding(r2, k));
        }
        assert(r1 =~= r2);
    } else {
        let k1 = r1.last().slot();
        if r2.len() == 0 {
            lemma_with_binding_nonempty(r1, k1);
            lemma_with_binding_nonempty(r2, k1);
            assert(r1[r1.len() - 1].slot() == k1);
            assert(with_binding(r1, k1) == with_binding(r2, k1));
            assert(false);
        }
        let k2 = r2.last().slot();
        lemma_with_binding_nonempty(r1, k1);
        lemma_with_binding_nonempty(r2, k1);
        lemma_with_binding_nonempty(r1, k2);
        lemma_with_binding_nonempty(r2, k2);
        assert(r1[r1.len() - 1].slot() == k1);
        assert(with_binding(r1, k1) == with_binding(r2, k1));
        let j2 = choose|i: int| 0 <= i < r2.len() && r2[i].slot() == k1;
        assert(r2[j2].slot() <= r2[r2.len() - 1].slot());
        if r2.len() == 0 {
            assert(with_binding(r2, k1).len() > 0);
        }
        assert(r2[r2.len() - 1].slot() == k2);
        assert(with_binding(r1, k2) == with_binding(r2, k2));
        let j1 = choose|i: int| 0 <= i < r1.len() && r1[i].slot() == k2;
        assert(r1[j1].slot() <= r1[r1.len() - 1].slot());
        assert(k1 == k2);
        let a1 = r1.drop_last();
        let a2 = r2.drop_last();
        assert(a1.push(r1.last()) =~= r1);
        assert(a2.push(r2.last()) =~= r2);
        assert forall|k: u32| with_binding(a1, k) == with_binding(a2, k) by {
            let p = at_index::<T>(k);
            lemma_filter_push(a1, r1.last(), p);
            lemma_filter_push(a2, r2.last(), p);
            assert(with_binding(r1, k) == with_binding(r2, k));
            if k == k1 {
                assert(with_binding(a1, k) =~= with_binding(r1, k).drop_last());
                assert(with_binding(a2, k) =~= with_binding(r2, k).drop_last());
            }
        }
        let p1 = at_index::<T>(k1);
        lemma_filter_push(a1, r1.last(), p1);
        lemma_filter_push(a2, r2.last(), p1);
        assert(with_binding(r1, k1).last() == r1.last());
        assert(with_binding(r2, k1).last() == r2.last());
        lemma_sorted_unique(a1, a2);
    }
}

/// Stable sort of `v` by binding index.
pub fn sort_by_binding_index<T: BindingSlot>(v: Vec<T>) -> (r: Vec<T>)
    ensures
        r@ == sort_by_binding(v@),
        sorted_by_binding(r@),
        forall|k: u32| with_binding(r@, k) == with_binding(v@, k),
{
    let ghost orig = v@;
    let mut src = v;
    let mut out: Vec<T> = Vec::new();
    let mut i: usize = 0;
    let n = src.len();
    while src.len() > 0
        invariant
            orig.len() == n,
            0 <= i <= orig.len(),
            i + src@.len() == orig.len(),
            src@ == orig.skip(i as int),
            out@ == sort_by_binding(orig.take(i as int)),
        decreases src@.len(),
    {
        let x = src.remove(0);
        let key = x.binding_index();
        let mut j: usize = out.len();
        while j > 0 && out[j - 1].binding_index() > key
            invariant
                0 <= j <= out@.len(),
                forall|m: int| j <= m < out@.len() ==> out@[m].slot() > x.slot(),
                key == x.slot(),
            decreases j,
        {
            j = j - 1;
        }
        proof {
            lemma_insert_at(out@, x, j as int);
            assert(orig.take(i + 1).drop_last() =~= orig.take(i as int));
            assert(orig.take(i + 1).last() == x);
        }
        out.insert(j, x);
        i = i + 1;
        assert(src@ =~= orig.skip(i as int));
    }
    assert(orig.take(i as int) =~= orig);
    proof {
        lemma_sort_sorted(orig);
        assert forall|k: u32| with_binding(out@, k) == with_binding(orig, k) by {
            lemma_sort_with_binding(orig, k);
        }
    }
    out
}

} // verus!
