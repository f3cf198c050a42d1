//! Removal of redundant sampler bindings, and the deterministic order of the
//! bindings that remain.
//!
//! A texture-and-sampler pair may be reflected as two bindings at the same
//! `(set, binding)` slot. Sampler bindings (`SampledImage`) whose slot is
//! already occupied are dropped; the rest are then stably sorted by binding
//! index.

use vstd::prelude::*;

use crate::model::Uniform;
use crate::order::{
    lemma_filter_push,
    lemma_sort_sorted,
    lemma_sort_with_binding,
    lemma_sorted_unique,
    sort_by_binding,
    sort_by_binding_index,
    sorted_by_binding,
    with_binding,
    at_index,
};
use crate::types::ParamType;

verus! {

pub open spec fn is_sampler(u: Uniform) -> bool {
    u.param.ty == ParamType::SampledImage
}

pub open spec fn sampler_pred() -> spec_fn(Uniform) -> bool {
    |u: Uniform| is_sampler(u)
}

pub open spec fn other_pred() -> spec_fn(Uniform) -> bool {
    |u: Uniform| !is_sampler(u)
}

/// The sampler bindings of `s`, in order.
pub open spec fn samplers(s: Seq<Uniform>) -> Seq<Uniform> {
    s.filter(sampler_pred())
}

/// The bindings of `s` that are not samplers, in order.
pub open spec fn others(s: Seq<Uniform>) -> Seq<Uniform> {
    s.filter(other_pred())
}

pub open spec fn same_slot(a: Uniform, b: Uniform) -> bool {
    a.set == b.set && a.binding == b.binding
}

/// Some binding of `s` occupies the slot of `u`.
pub open spec fn has_slot(s: Seq<Uniform>, u: Uniform) -> bool {
    exists|i: int| 0 <= i < s.len() && same_slot(s[i], u)
}

/// `kept` followed by each sampler of `smp` whose slot is still free when
/// its turn comes.
pub open spec fn merge_samplers(kept: Seq<Uniform>, smp: Seq<Uniform>) -> Seq<Uniform>
    decreases smp.len(),
{
    if smp.len() == 0 {
        kept
    } else {
        let acc = merge_samplers(kept, smp.drop_last());
        if has_slot(acc, smp.last()) {
            acc
        } else {
            acc.push(smp.last())
        }
    }
}

/// The bindings that survive: every non-sampler, then every sampler whose slot
/// is free.
pub open spec fn merged(s: Seq<Uniform>) -> Seq<Uniform> {
    merge_samplers(others(s), samplers(s))
}

/// The deduplicated bindings of `s`, stably sorted by binding index.
pub open spec fn deduplicated(s: Seq<Uniform>) -> Seq<Uniform> {
    sort_by_binding(merged(s))
}

/// Removes sampler bindings whose slot is already taken, then sorts the
/// remaining bindings by binding index (stably).
pub fn dedupe_bindings(uniforms: &Vec<Uniform>) -> (r: Vec<Uniform>)
    ensures
        r@ == deduplicated(uniforms@),
        sorted_by_binding(r@),
{
    let mut kept: Vec<Uniform> = Vec::new();
    let mut smp: Vec<Uniform> = Vec::new();
    let mut i: usize = 0;
    while i < uniforms.len()
        invariant
            0 <= i <= uniforms@.len(),
            kept@ == others(uniforms@.take(i as int)),
            smp@ == samplers(uniforms@.take(i as int)),
        decreases uniforms@.len() - i,
    {
        let u = uniforms[i].clone();
        proof {
            reveal(Seq::filter);
            assert(uniforms@.take(i + 1).drop_last() =~= uniforms@.take(i as int));
            assert(uniforms@.take(i + 1).last() == u);
        }
        if u.param.ty == ParamType::SampledImage {
            smp.push(u);
        } else {
            kept.push(u);
        }
        i = i + 1;
    }
    assert(uniforms@.take(i as int) =~= uniforms@);
    let ghost base = kept@;
    let mut j: usize = 0;
    while j < smp.len()
        invariant
            0 <= j <= smp@.len(),
            smp@ == samplers(uniforms@),
            base == others(uniforms@),
            kept@ == merge_samplers(base, smp@.take(j as int)),
        decreases smp@.len() - j,
    {
        let s = &smp[j];
        let mut taken = false;
        let mut m: usize = 0;
        while m < kept.len()
            invariant
                0 <= m <= kept@.len(),
                taken <==> exists|q: int| 0 <= q < m && same_slot(kept@[q], *s),
            decreases kept@.len() - m,
        {
            if kept[m].set == s.set && kept[m].binding == s.binding {
                taken = true;
            }
            m = m + 1;
        }
        proof {
            assert(smp@.take(j + 1).drop_last() =~= smp@.take(j as int));
            assert(smp@.take(j + 1).last() == *s);
        }
        if !taken {
            kept.push(s.clone());
        }
        j = j + 1;
    }
    assert(smp@.take(j as int) =~= smp@);
    let r = sort_by_binding_index(kept);
    r
}

proof fn lemma_filter_commute<T>(s: Seq<T>, p: spec_fn(T) -> bool, q: spec_fn(T) -> bool)
    ensures
        s.filter(p).filter(q) == s.filter(q).filter(p),
    decreases s.len(),
{
    if s.len() > 0 {
        let s1 = s.drop_last();
        let x = s.last();
        assert(s1.push(x) =~= s);
        lemma_filter_commute(s1, p, q);
        lemma_filter_push(s1, x, p);
        lemma_filter_push(s1, x, q);
        lemma_filter_push(s1.filter(p), x, q);
        lemma_filter_push(s1.filter(q), x, p);
    } else {
        reveal(Seq::filter);
    }
}

proof fn lemma_filter_all<T>(s: Seq<T>, p: spec_fn(T) -> bool)
    requires
        forall|i: int| 0 <= i < s.len() ==> p(s[i]),
    ensures
        s.filter(p) == s,
    decreases s.len(),
{
    reveal(Seq::filter);
    if s.len() > 0 {
        lemma_filter_all(s.drop_last(), p);
        assert(s.drop_last().push(s.last()) =~= s);
    }
}

proof fn lemma_filter_none<T>(s: Seq<T>, p: spec_fn(T) -> bool)
    requires
        forall|i: int| 0 <= i < s.len() ==> !p(s[i]),
    ensures
        s.filter(p).len() == 0,
    decreases s.len(),
{
    reveal(Seq::filter);
    if s.len() > 0 {
        lemma_filter_none(s.drop_last(), p);
    }
}

/// Only bindings at the same binding index can share a slot.
proof fn lemma_has_slot_with_binding(s: Seq<Uniform>, u: Uniform)
    ensures
        has_slot(s, u) <==> has_slot(with_binding(s, u.binding), u),
{
    let p = at_index::<Uniform>(u.binding);
    let w = with_binding(s, u.binding);
    broadcast use Seq::lemma_filter_contains_rev, Seq::lemma_filter_contains;

    if has_slot(s, u) {
        let i = choose|i: int| 0 <= i < s.len() && same_slot(s[i], u);
        assert(p(s[i]));
        assert(w.contains(s[i]));
        let j = choose|j: int| 0 <= j < w.len() && w[j] == s[i];
        assert(same_slot(w[j], u));
    }
    if has_slot(w, u) {
        let j = choose|j: int| 0 <= j < w.len() && same_slot(w[j], u);
        assert(w.contains(w[j]));
        assert(s.contains(w[j]));
        let i = choose|i: int| 0 <= i < s.len() && s[i] == w[j];
        assert(same_slot(s[i], u));
    }
}

/// Merging samplers commutes with selecting one binding index.
proof fn lemma_merge_with_binding(kept: Seq<Uniform>, smp: Seq<Uniform>, k: u32)
    ensures
        with_binding(merge_samplers(kept, smp), k) == merge_samplers(
            with_binding(kept, k),
            with_binding(smp, k),
        ),
    decreases smp.len(),
{
    let p = at_index::<Uniform>(k);
    if smp.len() == 0 {
        reveal(Seq::filter);
    } else {
        let s1 = smp.drop_last();
        let y = smp.last();
        assert(s1.push(y) =~= smp);
        lemma_merge_with_binding(kept, s1, k);
        lemma_filter_push(s1, y, p);
        let acc = merge_samplers(kept, s1);
        lemma_filter_push(acc, y, p);
        if y.binding == k {
            lemma_has_slot_with_binding(acc, y);
            assert(with_binding(smp, k).drop_last() =~= with_binding(s1, k));
        }
    }
}

/// Merging the samplers of a merge result again changes nothing.
proof fn lemma_merge_stable(kept: Seq<Uniform>, smp: Seq<Uniform>)
    requires
        forall|i: int| 0 <= i < kept.len() ==> !is_sampler(#[trigger] kept[i]),
        forall|i: int| 0 <= i < smp.len() ==> is_sampler(#[trigger] smp[i]),
    ensures
        others(merge_samplers(kept, smp)) == kept,
        merge_samplers(kept, samplers(merge_samplers(kept, smp))) == merge_samplers(kept, smp),
    decreases smp.len(),
{
    if smp.len() == 0 {
        lemma_filter_all(kept, other_pred());
        lemma_filter_none(kept, sampler_pred());
        assert(samplers(kept) =~= Seq::<Uniform>::empty());
    } else {
        let s1 = smp.drop_last();
        let y = smp.last();
        lemma_merge_stable(kept, s1);
        let acc = merge_samplers(kept, s1);
        if !has_slot(acc, y) {
            lemma_filter_push(acc, y, other_pred());
            lemma_filter_push(acc, y, sampler_pred());
            assert(samplers(acc).push(y).drop_last() =~= samplers(acc));
        }
    }
}

/// The surviving bindings survive a second merge unchanged.
proof fn lemma_merged_idempotent(s: Seq<Uniform>)
    ensures
        merged(merged(s)) == merged(s),
{
    let o = others(s);
    let m = samplers(s);
    assert forall|i: int| 0 <= i < o.len() implies !is_sampler(#[trigger] o[i]) by {
        s.lemma_filter_pred(other_pred(), i);
    }
    assert forall|i: int| 0 <= i < m.len() implies is_sampler(#[trigger] m[i]) by {
        s.lemma_filter_pred(sampler_pred(), i);
    }
    lemma_merge_stable(o, m);
}

/// Deduplicating bindings a second time changes nothing: no further
/// bindings are removed and none is reordered.
pub proof fn lemma_dedupe_idempotent(s: Seq<Uniform>)
    ensures
        deduplicated(deduplicated(s)) == deduplicated(s),
{
    let l = merged(s);
    let r = deduplicated(s);
    lemma_merged_idempotent(s);
    assert forall|k: u32| with_binding(merged(r), k) == with_binding(r, k) by {
        let p = at_index::<Uniform>(k);
        lemma_sort_with_binding(l, k);
        lemma_merge_with_binding(others(r), samplers(r), k);
        lemma_merge_with_binding(others(l), samplers(l), k);
        lemma_filter_commute(r, other_pred(), p);
        lemma_filter_commute(r, sampler_pred(), p);
        lemma_filter_commute(l, other_pred(), p);
        lemma_filter_commute(l, sampler_pred(), p);
    }
    assert forall|k: u32| with_binding(deduplicated(r), k) == with_binding(r, k) by {
        lemma_sort_with_binding(merged(r), k);
    }
    lemma_sort_sorted(merged(r));
    lemma_sort_sorted(l);
    lemma_sorted_unique(deduplicated(r), r);
}

/// At one binding index there is at most one binding, or a sampler and a
/// non-sampler that share a slot.
pub open spec fn unambiguous(t: Seq<Uniform>) -> bool {
    t.len() <= 1 || (t.len() == 2 && same_slot(t[0], t[1]) && is_sampler(t[0]) != is_sampler(
        t[1],
    ))
}

proof fn lemma_merged_unambiguous(t: Seq<Uniform>)
    requires
        unambiguous(t),
    ensures
        t.len() <= 1 ==> merged(t) == t,
        t.len() == 2 ==> merged(t) == seq![
            if is_sampler(t[0]) {
                t[1]
            } else {
                t[0]
            },
        ],
{
    reveal(Seq::filter);
    let e = Seq::<Uniform>::empty();
    if t.len() == 0 {
        assert(others(t) =~= e);
        assert(samplers(t) =~= e);
    } else if t.len() == 1 {
        assert(e.push(t[0]) =~= t);
        lemma_filter_push(e, t[0], other_pred());
        lemma_filter_push(e, t[0], sampler_pred());
        if is_sampler(t[0]) {
            assert(others(t) =~= e);
            assert(samplers(t) =~= t);
            assert(merge_samplers(e, t.drop_last()) == e);
            assert(!has_slot(e, t[0]));
            assert(e.push(t[0]) =~= t);
        } else {
            assert(samplers(t) =~= e);
        }
    } else {
        let t1 = e.push(t[0]);
        assert(t1.push(t[1]) =~= t);
        lemma_filter_push(e, t[0], other_pred());
        lemma_filter_push(e, t[0], sampler_pred());
        lemma_filter_push(t1, t[1], other_pred());
        lemma_filter_push(t1, t[1], sampler_pred());
        let n = if is_sampler(t[0]) { t[1] } else { t[0] };
        let z = if is_sampler(t[0]) { t[0] } else { t[1] };
        assert(others(t) =~= seq![n]);
        assert(samplers(t) =~= seq![z]);
        assert(seq![z].drop_last() =~= e);
        assert(same_slot(seq![n][0], z));
        assert(has_slot(seq![n], z));
        assert(merge_samplers(seq![n], seq![z].drop_last()) == seq![n]);
        assert(seq![z].last() == z);
        assert(merged(t) == merge_samplers(seq![n], seq![z]));
    }
}

/// The bindings that survive at index `k` are those that survive among the
/// bindings at index `k`.
proof fn lemma_merged_with_binding(s: Seq<Uniform>, k: u32)
    ensures
        with_binding(merged(s), k) == merged(with_binding(s, k)),
{
    let p = at_index::<Uniform>(k);
    lemma_merge_with_binding(others(s), samplers(s), k);
    lemma_filter_commute(s, other_pred(), p);
    lemma_filter_commute(s, sampler_pred(), p);
}

proof fn lemma_same_survivor(ta: Seq<Uniform>, tb: Seq<Uniform>)
    requires
        unambiguous(ta),
        unambiguous(tb),
        forall|x: Uniform| ta.contains(x) <==> tb.contains(x),
    ensures
        merged(ta) == merged(tb),
{
    lemma_merged_unambiguous(ta);
    lemma_merged_unambiguous(tb);
    if ta.len() > 0 {
        assert(ta.contains(ta[0]));
        assert(tb.contains(ta[0]));
    }
    if tb.len() > 0 {
        assert(tb.contains(tb[0]));
        assert(ta.contains(tb[0]));
    }
    if ta.len() == 2 {
        assert(ta.contains(ta[1]));
        assert(tb.contains(ta[1]));
    }
    if tb.len() == 2 {
        assert(tb.contains(tb[1]));
        assert(ta.contains(tb[1]));
    }
    if ta.len() == 1 && tb.len() == 1 {
        assert(ta =~= tb);
    }
}

proof fn lemma_filter_count<T>(s: Seq<T>, p: spec_fn(T) -> bool, x: T)
    ensures
        s.filter(p).to_multiset().count(x) == if p(x) {
            s.to_multiset().count(x)
        } else {
            0
        },
    decreases s.len(),
{
    broadcast use vstd::seq_lib::group_to_multiset_ensures, vstd::multiset::group_multiset_axioms;

    if s.len() == 0 {
        reveal(Seq::filter);
        assert(!s.contains(x));
    } else {
        let s1 = s.drop_last();
        let l = s.last();
        assert(s1.push(l) =~= s);
        lemma_filter_count(s1, p, x);
        lemma_filter_push(s1, l, p);
        assert(s1.push(l).to_multiset() =~= s1.to_multiset().insert(l));
        if p(l) {
            assert(s1.filter(p).push(l).to_multiset() =~= s1.filter(p).to_multiset().insert(l));
        }
    }
}

proof fn lemma_count_pair(x: Uniform, y: Uniform, v: Uniform)
    ensures
        seq![x, y].to_multiset().count(v) == (if x == v {
            1nat
        } else {
            0nat
        }) + (if y == v {
            1nat
        } else {
            0nat
        }),
{
    broadcast use vstd::seq_lib::group_to_multiset_ensures, vstd::multiset::group_multiset_axioms;

    let e = Seq::<Uniform>::empty();
    assert(e.push(x) =~= seq![x]);
    assert(seq![x].push(y) =~= seq![x, y]);
    assert(!e.contains(v));
}

/// A rearrangement of an unambiguous selection is unambiguous and holds the
/// same bindings.
proof fn lemma_unambiguous_permutation(ta: Seq<Uniform>, tb: Seq<Uniform>)
    requires
        ta.to_multiset() == tb.to_multiset(),
        unambiguous(ta),
    ensures
        unambiguous(tb),
        forall|x: Uniform| ta.contains(x) <==> tb.contains(x),
{
    broadcast use vstd::seq_lib::group_to_multiset_ensures;

    assert(ta.to_multiset().len() == ta.len());
    assert(tb.to_multiset().len() == tb.len());
    assert forall|x: Uniform| ta.contains(x) <==> tb.contains(x) by {
        vstd::seq_lib::to_multiset_contains(ta, x);
        vstd::seq_lib::to_multiset_contains(tb, x);
    }
    if tb.len() == 2 {
        assert(ta =~= seq![ta[0], ta[1]]);
        assert(tb =~= seq![tb[0], tb[1]]);
        assert(ta[0] != ta[1]);
        lemma_count_pair(ta[0], ta[1], tb[0]);
        lemma_count_pair(ta[0], ta[1], tb[1]);
        lemma_count_pair(tb[0], tb[1], tb[0]);
        lemma_count_pair(tb[0], tb[1], tb[1]);
        assert(tb.contains(tb[0]));
        assert(tb.contains(tb[1]));
    }
}

/// Deduplication does not depend on the order of its input: every
/// permutation of the input gives the same output, sorted by binding index.
/// This holds where, at each binding index, the input holds at most one
/// binding or a sampler and a non-sampler sharing one slot; elsewhere the
/// stable order of equal indices follows the input order.
pub proof fn lemma_dedupe_order_independent(a: Seq<Uniform>, b: Seq<Uniform>)
    requires
        a.to_multiset() == b.to_multiset(),
        forall|k: u32| unambiguous(#[trigger] with_binding(a, k)),
    ensures
        deduplicated(a) == deduplicated(b),
        sorted_by_binding(deduplicated(a)),
{
    assert forall|k: u32| with_binding(deduplicated(a), k) == with_binding(deduplicated(b), k) by {
        let p = at_index::<Uniform>(k);
        let ta = with_binding(a, k);
        let tb = with_binding(b, k);
        assert forall|x: Uniform| ta.to_multiset().count(x) == tb.to_multiset().count(x) by {
            lemma_filter_count(a, p, x);
            lemma_filter_count(b, p, x);
        }
        assert(ta.to_multiset() =~= tb.to_multiset());
        lemma_unambiguous_permutation(ta, tb);
        lemma_same_survivor(ta, tb);
        lemma_merged_with_binding(a, k);
        lemma_merged_with_binding(b, k);
        lemma_sort_with_binding(merged(a), k);
        lemma_sort_with_binding(merged(b), k);
    }
    lemma_sort_sorted(merged(a));
    lemma_sort_sorted(merged(b));
    lemma_sorted_unique(deduplicated(a), deduplicated(b));
}

} // verus!
