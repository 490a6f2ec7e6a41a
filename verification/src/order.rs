//! Ordering of listings: the text order of names and a stable sort.
use vstd::prelude::*;
use crate::text::chars_of;

verus! {

// ---------------------------------------------------------------------------
// Text order
// ---------------------------------------------------------------------------

/// `a` comes strictly before `b` in the order of `str::cmp` (code point by
/// code point, a proper prefix first).
pub open spec fn text_lt(a: Seq<char>, b: Seq<char>) -> bool
    decreases a.len(),
{
    if a.len() == 0 {
        b.len() > 0
    } else if b.len() == 0 {
        false
    } else if a[0] != b[0] {
        a[0] < b[0]
    } else {
        text_lt(a.drop_first(), b.drop_first())
    }
}

pub proof fn lemma_text_lt_irreflexive(a: Seq<char>)
    ensures
        !text_lt(a, a),
    decreases a.len(),
{
    if a.len() > 0 {
        lemma_text_lt_irreflexive(a.drop_first());
    }
}

pub proof fn lemma_text_lt_transitive(a: Seq<char>, b: Seq<char>, c: Seq<char>)
    requires
        text_lt(a, b),
        text_lt(b, c),
    ensures
        text_lt(a, c),
    decreases a.len(),
{
    if a.len() > 0 && b.len() > 0 && c.len() > 0 && a[0] == b[0] && b[0] == c[0] {
        lemma_text_lt_transitive(a.drop_first(), b.drop_first(), c.drop_first());
    }
}

/// `a < b` for strings.
pub fn text_less(a: &str, b: &str) -> (res: bool)
    ensures
        res == text_lt(a@, b@),
{
    let x = chars_of(a);
    let y = chars_of(b);
    let mut i: usize = 0;
    assert(x@.skip(0) =~= x@);
    assert(y@.skip(0) =~= y@);
    while i < x.len() && i < y.len() && x[i] == y[i]
        invariant
            i <= x.len(),
            i <= y.len(),
            x@ == a@,
            y@ == b@,
            text_lt(a@, b@) == text_lt(x@.skip(i as int), y@.skip(i as int)),
        decreases x.len() - i,
    {
        assert(x@.skip(i as int).drop_first() =~= x@.skip(i + 1));
        assert(y@.skip(i as int).drop_first() =~= y@.skip(i + 1));
        i += 1;
    }
    if i == x.len() {
        i < y.len()
    } else if i == y.len() {
        false
    } else {
        x[i] < y[i]
    }
}

// ---------------------------------------------------------------------------
// Stable sort
// ---------------------------------------------------------------------------

/// A listing order over the views of items: `goes_before(a, b)` when an item
/// viewed as `a` must come strictly before one viewed as `b`. Items that
/// neither goes before keep the order in which they were found.
pub trait Ranked: View + Sized {
    spec fn goes_before(a: Self::V, b: Self::V) -> bool;

    fn precedes(&self, other: &Self) -> (res: bool)
        ensures
            res == Self::goes_before(self@, other@),
    ;
}

/// The views of a sequence of items.
pub open spec fn seq_view<T: View>(s: Seq<T>) -> Seq<T::V> {
    s.map_values(|t: T| t@)
}

/// The listing order of `T`, as a function value.
pub open spec fn order_of<T: Ranked>() -> spec_fn(T::V, T::V) -> bool {
    |a: T::V, b: T::V| T::goes_before(a, b)
}

/// `x` placed into `s` just before the first item that it goes before.
pub open spec fn insert_ranked<V>(s: Seq<V>, x: V, before: spec_fn(V, V) -> bool) -> Seq<V>
    decreases s.len(),
{
    if s.len() == 0 {
        seq![x]
    } else if before(x, s[0]) {
        seq![x] + s
    } else {
        seq![s[0]] + insert_ranked(s.drop_first(), x, before)
    }
}

/// `s` sorted stably by `before` (what `sort_by` gives).
pub open spec fn ranked<V>(s: Seq<V>, before: spec_fn(V, V) -> bool) -> Seq<V>
    decreases s.len(),
{
    if s.len() == 0 {
        s
    } else {
        insert_ranked(ranked(s.drop_last(), before), s.last(), before)
    }
}

/// No item of `s` goes before one that comes earlier.
pub open spec fn is_ranked<V>(s: Seq<V>, before: spec_fn(V, V) -> bool) -> bool {
    forall|i: int, j: int| 0 <= i < j < s.len() ==> !before(s[j], s[i])
}

/// `before` is a strict order: nothing goes before itself, and it chains.
pub open spec fn strict_order<V>(before: spec_fn(V, V) -> bool) -> bool {
    &&& forall|a: V| !#[trigger] before(a, a)
    &&& forall|a: V, b: V, c: V| #[trigger] before(a, b) && #[trigger] before(b, c) ==> before(a, c)
}

proof fn lemma_insert_at<V>(s: Seq<V>, x: V, p: int, before: spec_fn(V, V) -> bool)
    requires
        0 <= p <= s.len(),
        forall|j: int| 0 <= j < p ==> !before(x, #[trigger] s[j]),
        p < s.len() ==> before(x, s[p]),
    ensures
        insert_ranked(s, x, before) == s.insert(p, x),
    decreases p,
{
    if s.len() == 0 {
        assert(s.insert(p, x) =~= seq![x]);
    } else if p == 0 {
        assert(s.insert(p, x) =~= seq![x] + s);
    } else {
        let t = s.drop_first();
        assert forall|j: int| 0 <= j < p - 1 implies !before(x, #[trigger] t[j]) by {
            assert(t[j] == s[j + 1]);
        }
        lemma_insert_at(t, x, p - 1, before);
        assert(s.insert(p, x) =~= seq![s[0]] + t.insert(p - 1, x));
    }
}

/// `v` sorted stably by the listing order of `T`.
pub fn sort_ranked<T: Ranked>(v: Vec<T>) -> (res: Vec<T>)
    ensures
        seq_view(res@) == ranked(seq_view(v@), order_of::<T>()),
{
    let ghost orig = seq_view(v@);
    let ghost before = order_of::<T>();
    let total = v.len();
    assert(orig.len() == total);
    let mut rest = v;
    let mut res: Vec<T> = Vec::new();
    let mut i: usize = 0;
    assert(seq_view(rest@) =~= orig.skip(0));
    assert(seq_view(res@) =~= ranked(orig.take(0), before));
    while rest.len() > 0
        invariant
            i + rest.len() == orig.len(),
            orig.len() <= usize::MAX,
            before == order_of::<T>(),
            seq_view(rest@) == orig.skip(i as int),
            seq_view(res@) == ranked(orig.take(i as int), before),
        decreases rest.len(),
    {
        let ghost old_rest = rest@;
        let x = rest.remove(0);
        assert(x@ == orig[i as int]) by {
            assert(seq_view(old_rest)[0] == old_rest[0]@);
        }
        assert(orig.take(i + 1).drop_last() =~= orig.take(i as int));
        assert(seq_view(rest@) =~= orig.skip(i + 1)) by {
            assert(rest@ =~= old_rest.subrange(1, old_rest.len() as int));
            assert forall|k: int| 0 <= k < rest@.len() implies seq_view(rest@)[k] == orig.skip(
                i + 1,
            )[k] by {
                assert(seq_view(old_rest)[k + 1] == old_rest[k + 1]@);
            }
        }
        let mut p: usize = 0;
        while p < res.len() && !x.precedes(&res[p])
            invariant
                p <= res.len(),
                before == order_of::<T>(),
                forall|j: int| 0 <= j < p ==> !before(x@, #[trigger] seq_view(res@)[j]),
            decreases res.len() - p,
        {
            assert(seq_view(res@)[p as int] == res@[p as int]@);
            p += 1;
        }
        proof {
            if p < res.len() {
                assert(seq_view(res@)[p as int] == res@[p as int]@);
            }
            lemma_insert_at(seq_view(res@), x@, p as int, before);
        }
        let ghost old_res = res@;
        res.insert(p, x);
        assert(seq_view(res@) =~= seq_view(old_res).insert(p as int, x@));
        i += 1;
    }
    assert(orig.take(i as int) =~= orig);
    res
}

// ---------------------------------------------------------------------------
// What the sort keeps
// ---------------------------------------------------------------------------

proof fn lemma_insert_multiset<V>(s: Seq<V>, x: V, before: spec_fn(V, V) -> bool)
    ensures
        insert_ranked(s, x, before).to_multiset() == s.to_multiset().insert(x),
    decreases s.len(),
{
    broadcast use vstd::seq_lib::group_to_multiset_ensures;

    if s.len() == 0 {
        assert(seq![x] =~= Seq::<V>::empty().push(x));
    } else if before(x, s[0]) {
        assert(seq![x] + s =~= s.insert(0, x));
        vstd::seq_lib::to_multiset_insert(s, 0, x);
    } else {
        lemma_insert_multiset(s.drop_first(), x, before);
        let t = insert_ranked(s.drop_first(), x, before);
        assert(seq![s[0]] + t =~= t.insert(0, s[0]));
        vstd::seq_lib::to_multiset_insert(t, 0, s[0]);
        assert(s =~= s.drop_first().insert(0, s[0]));
        vstd::seq_lib::to_multiset_insert(s.drop_first(), 0, s[0]);
    }
}

/// Sorting keeps every item, as often as it occurs.
pub proof fn lemma_ranked_same_items<V>(s: Seq<V>, before: spec_fn(V, V) -> bool)
    ensures
        ranked(s, before).to_multiset() == s.to_multiset(),
        ranked(s, before).len() == s.len(),
    decreases s.len(),
{
    broadcast use vstd::seq_lib::group_to_multiset_ensures;

    if s.len() > 0 {
        lemma_ranked_same_items(s.drop_last(), before);
        lemma_insert_multiset(ranked(s.drop_last(), before), s.last(), before);
        assert(s =~= s.drop_last().push(s.last()));
        assert(ranked(s, before).to_multiset().len() == s.to_multiset().len());
    }
}

proof fn lemma_insert_keeps_ranked<V>(s: Seq<V>, x: V, before: spec_fn(V, V) -> bool)
    requires
        strict_order(before),
        is_ranked(s, before),
    ensures
        is_ranked(insert_ranked(s, x, before), before),
        insert_ranked(s, x, before).len() == s.len() + 1,
        forall|k: int|
            0 <= k < insert_ranked(s, x, before).len() ==> #[trigger] insert_ranked(s, x, before)[k]
                == x || s.contains(insert_ranked(s, x, before)[k]),
    decreases s.len(),
{
    let r = insert_ranked(s, x, before);
    if s.len() == 0 {
    } else if before(x, s[0]) {
        assert forall|i: int, j: int| 0 <= i < j < r.len() implies !before(r[j], r[i]) by {
            if i == 0 {
                if j - 1 == 0 {
                    if before(s[0], x) {
                        assert(before(x, x));
                    }
                } else {
                    if before(s[j - 1], x) {
                        assert(before(s[j - 1], s[0]));
                    }
                }
            } else {
                assert(r[i] == s[i - 1] && r[j] == s[j - 1]);
            }
        }
        assert forall|k: int| 0 <= k < r.len() implies #[trigger] r[k] == x || s.contains(r[k]) by {
            if k > 0 {
                assert(r[k] == s[k - 1]);
            }
        }
    } else {
        let t = s.drop_first();
        assert(is_ranked(t, before)) by {
            assert forall|i: int, j: int| 0 <= i < j < t.len() implies !before(t[j], t[i]) by {
                assert(t[i] == s[i + 1] && t[j] == s[j + 1]);
            }
        }
        lemma_insert_keeps_ranked(t, x, before);
        let rt = insert_ranked(t, x, before);
        assert(r =~= seq![s[0]] + rt);
        assert forall|k: int| 0 <= k < r.len() implies #[trigger] r[k] == x || s.contains(r[k]) by {
            if k > 0 {
                assert(r[k] == rt[k - 1]);
                if rt[k - 1] != x {
                    assert(t.contains(rt[k - 1]));
                    let m = choose|m: int| 0 <= m < t.len() && t[m] == rt[k - 1];
                    assert(s[m + 1] == r[k]);
                }
            } else {
                assert(s[0] == r[0]);
            }
        }
        assert forall|i: int, j: int| 0 <= i < j < r.len() implies !before(r[j], r[i]) by {
            if i == 0 {
                assert(r[0] == s[0]);
                assert(r[j] == rt[j - 1]);
                if rt[j - 1] != x {
                    assert(t.contains(rt[j - 1]));
                    let m = choose|m: int| 0 <= m < t.len() && t[m] == rt[j - 1];
                    assert(s[m + 1] == rt[j - 1]);
                }
            } else {
                assert(r[i] == rt[i - 1] && r[j] == rt[j - 1]);
            }
        }
    }
}

/// For a strict order, sorting leaves no item after one that it goes before.
pub proof fn lemma_ranked_is_ranked<V>(s: Seq<V>, before: spec_fn(V, V) -> bool)
    requires
        strict_order(before),
    ensures
        is_ranked(ranked(s, before), before),
    decreases s.len(),
{
    if s.len() > 0 {
        lemma_ranked_is_ranked(s.drop_last(), before);
        lemma_insert_keeps_ranked(ranked(s.drop_last(), before), s.last(), before);
    }
}

/// A ranked sequence holds exactly the items of the sequence it ranks.
pub proof fn lemma_ranked_contains<V>(s: Seq<V>, before: spec_fn(V, V) -> bool, x: V)
    ensures
        ranked(s, before).contains(x) <==> s.contains(x),
{
    broadcast use vstd::seq_lib::group_to_multiset_ensures;

    lemma_ranked_same_items(s, before);
    assert(ranked(s, before).to_multiset().count(x) == s.to_multiset().count(x));
}

/// What the map keeps of an item is in the filtered-and-mapped sequence.
pub proof fn lemma_filter_map_keeps<A, B>(s: Seq<A>, f: spec_fn(A) -> Option<B>, j: int)
    requires
        0 <= j < s.len(),
        f(s[j]) is Some,
    ensures
        s.filter_map(f).contains(f(s[j])->Some_0),
    decreases s.len(),
{
    let rest = s.drop_last().filter_map(f);
    if j == s.len() - 1 {
        assert(s.filter_map(f) == rest + seq![f(s[j])->Some_0]);
        assert(s.filter_map(f)[rest.len() as int] == f(s[j])->Some_0);
    } else {
        lemma_filter_map_keeps(s.drop_last(), f, j);
        assert(s.drop_last()[j] == s[j]);
        let i = choose|i: int| 0 <= i < rest.len() && rest[i] == f(s[j])->Some_0;
        match f(s.last()) {
            Some(y) => {
                assert(s.filter_map(f) == rest + seq![y]);
                assert(s.filter_map(f)[i] == rest[i]);
            },
            None => {},
        }
    }
}

} // verus!
