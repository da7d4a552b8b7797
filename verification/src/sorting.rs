//! A stable sort, stated as the sequence it yields.
use vstd::prelude::*;

use crate::text;

verus! {

/// Concatenation is associative.
pub proof fn lemma_assoc<T>(a: Seq<T>, b: Seq<T>, c: Seq<T>)
    ensures
        (a + b) + c == a + (b + c),
{
    assert((a + b) + c =~= a + (b + c));
}

/// `s` with `x` put in front of the first item that is not before it.
pub open spec fn slotted<T>(x: T, s: Seq<T>, lt: spec_fn(T, T) -> bool) -> Seq<T>
    decreases s.len(),
{
    if s.len() == 0 || !lt(s[0], x) {
        seq![x] + s
    } else {
        seq![s[0]] + slotted(x, s.drop_first(), lt)
    }
}

/// The items of `s` in ascending order, equal items in the order they came.
pub open spec fn sorted<T>(s: Seq<T>, lt: spec_fn(T, T) -> bool) -> Seq<T>
    decreases s.len(),
{
    if s.len() == 0 {
        s
    } else {
        slotted(s[0], sorted(s.drop_first(), lt), lt)
    }
}

/// Whether `lt` is a strict order in which every two items compare.
pub open spec fn strict_weak_order<T>(lt: spec_fn(T, T) -> bool) -> bool {
    &&& forall|a: T| !(#[trigger] lt(a, a))
    &&& forall|a: T, b: T, c: T| #[trigger] lt(a, b) && #[trigger] lt(b, c) ==> lt(a, c)
    &&& forall|a: T, b: T, c: T| !(#[trigger] lt(a, b)) && !(#[trigger] lt(b, c)) ==> !lt(a, c)
}

/// Whether no item stands before an item that is smaller.
pub open spec fn ascending<T>(s: Seq<T>, lt: spec_fn(T, T) -> bool) -> bool {
    forall|i: int, j: int| 0 <= i < j < s.len() ==> !lt(#[trigger] s[j], #[trigger] s[i])
}

proof fn lemma_slotted<T>(x: T, s: Seq<T>, lt: spec_fn(T, T) -> bool)
    ensures
        slotted(x, s, lt).len() == s.len() + 1,
        slotted(x, s, lt).to_multiset() =~= s.to_multiset().insert(x),
    decreases s.len(),
{
    broadcast use vstd::seq_lib::group_to_multiset_ensures;

    if s.len() == 0 || !lt(s[0], x) {
        let t = seq![x] + s;
        assert(t.remove(0) =~= s);
        assert(t.to_multiset().remove(x) =~= t.remove(0).to_multiset());
        assert(t.to_multiset() =~= s.to_multiset().insert(x)) by {
            assert(t.contains(t[0]));
            assert(t.to_multiset().count(x) > 0);
        }
    } else {
        let rest = s.drop_first();
        lemma_slotted(x, rest, lt);
        let inner = slotted(x, rest, lt);
        let t = seq![s[0]] + inner;
        assert(t.remove(0) =~= inner);
        assert(s.remove(0) =~= rest);
        assert(t.contains(t[0]));
        assert(s.contains(s[0]));
        assert(t.to_multiset().count(s[0]) > 0);
        assert(s.to_multiset().count(s[0]) > 0);
        assert(t.to_multiset() =~= inner.to_multiset().insert(s[0]));
        assert(s.to_multiset() =~= rest.to_multiset().insert(s[0]));
    }
}

/// Sorting keeps the items: the same ones, each as often.
pub proof fn lemma_sorted_keeps_items<T>(s: Seq<T>, lt: spec_fn(T, T) -> bool)
    ensures
        sorted(s, lt).len() == s.len(),
        sorted(s, lt).to_multiset() =~= s.to_multiset(),
    decreases s.len(),
{
    broadcast use vstd::seq_lib::group_to_multiset_ensures;

    if s.len() > 0 {
        let rest = s.drop_first();
        lemma_sorted_keeps_items(rest, lt);
        lemma_slotted(s[0], sorted(rest, lt), lt);
        assert(s.remove(0) =~= rest);
        assert(s.contains(s[0]));
        assert(s.to_multiset().count(s[0]) > 0);
        assert(s.to_multiset() =~= rest.to_multiset().insert(s[0]));
    }
}

/// Every item of a sorted sequence is an item of the sequence sorted.
pub proof fn lemma_sorted_item<T>(s: Seq<T>, lt: spec_fn(T, T) -> bool, i: int)
    requires
        0 <= i < sorted(s, lt).len(),
    ensures
        s.contains(sorted(s, lt)[i]),
{
    broadcast use vstd::seq_lib::group_to_multiset_ensures;

    lemma_sorted_keeps_items(s, lt);
    let x = sorted(s, lt)[i];
    assert(sorted(s, lt).contains(x));
    assert(sorted(s, lt).to_multiset().count(x) > 0);
    assert(s.to_multiset().count(x) > 0);
}

proof fn lemma_slotted_ascending<T>(x: T, s: Seq<T>, lt: spec_fn(T, T) -> bool)
    requires
        strict_weak_order(lt),
        ascending(s, lt),
    ensures
        ascending(slotted(x, s, lt), lt),
    decreases s.len(),
{
    let t = slotted(x, s, lt);
    if s.len() == 0 || !lt(s[0], x) {
        assert forall|i: int, j: int| 0 <= i < j < t.len() implies !lt(
            #[trigger] t[j],
            #[trigger] t[i],
        ) by {
            if i == 0 {
                assert(t[j] == s[j - 1]);
                if j > 1 {
                    assert(!lt(s[j - 1], s[0]));
                }
            } else {
                assert(t[i] == s[i - 1] && t[j] == s[j - 1]);
            }
        }
    } else {
        let rest = s.drop_first();
        assert forall|i: int, j: int| 0 <= i < j < rest.len() implies !lt(
            #[trigger] rest[j],
            #[trigger] rest[i],
        ) by {
            assert(rest[i] == s[i + 1] && rest[j] == s[j + 1]);
        }
        lemma_slotted_ascending(x, rest, lt);
        lemma_slotted(x, rest, lt);
        let inner = slotted(x, rest, lt);
        assert forall|i: int, j: int| 0 <= i < j < t.len() implies !lt(
            #[trigger] t[j],
            #[trigger] t[i],
        ) by {
            if i == 0 {
                assert(t[j] == inner[j - 1]);
                assert(inner.contains(inner[j - 1]));
                broadcast use vstd::seq_lib::group_to_multiset_ensures;

                assert(inner.to_multiset().count(inner[j - 1]) > 0);
                if inner[j - 1] == x {
                    assert(lt(s[0], x));
                    if lt(x, s[0]) {
                        assert(lt(s[0], s[0]));
                    }
                } else {
                    assert(rest.to_multiset().count(inner[j - 1]) > 0);
                    assert(rest.contains(inner[j - 1]));
                    let k = choose|k: int| 0 <= k < rest.len() && rest[k] == inner[j - 1];
                    assert(s[k + 1] == rest[k]);
                    assert(!lt(s[k + 1], s[0]));
                }
            } else {
                assert(t[i] == inner[i - 1] && t[j] == inner[j - 1]);
            }
        }
    }
}

/// Sorting leaves the items in ascending order.
pub proof fn lemma_sorted_ascending<T>(s: Seq<T>, lt: spec_fn(T, T) -> bool)
    requires
        strict_weak_order(lt),
    ensures
        ascending(sorted(s, lt), lt),
    decreases s.len(),
{
    if s.len() > 0 {
        lemma_sorted_ascending(s.drop_first(), lt);
        lemma_slotted_ascending(s[0], sorted(s.drop_first(), lt), lt);
    }
}

proof fn lemma_slotted_map<A, B>(
    x: A,
    s: Seq<A>,
    f: spec_fn(A) -> B,
    lt: spec_fn(A, A) -> bool,
    lt2: spec_fn(B, B) -> bool,
)
    requires
        forall|a: A, b: A| #[trigger] lt(a, b) == lt2(f(a), f(b)),
    ensures
        slotted(f(x), s.map_values(f), lt2) == slotted(x, s, lt).map_values(f),
    decreases s.len(),
{
    if s.len() == 0 || !lt(s[0], x) {
        assert(seq![f(x)] + s.map_values(f) =~= (seq![x] + s).map_values(f));
    } else {
        lemma_slotted_map(x, s.drop_first(), f, lt, lt2);
        assert(s.map_values(f).drop_first() =~= s.drop_first().map_values(f));
        assert((seq![s[0]] + slotted(x, s.drop_first(), lt)).map_values(f) =~= seq![f(s[0])]
            + slotted(x, s.drop_first(), lt).map_values(f));
    }
}

/// Sorting commutes with a renaming of the items that keeps their order.
pub proof fn lemma_sorted_map<A, B>(
    s: Seq<A>,
    f: spec_fn(A) -> B,
    lt: spec_fn(A, A) -> bool,
    lt2: spec_fn(B, B) -> bool,
)
    requires
        forall|a: A, b: A| #[trigger] lt(a, b) == lt2(f(a), f(b)),
    ensures
        sorted(s.map_values(f), lt2) == sorted(s, lt).map_values(f),
    decreases s.len(),
{
    if s.len() > 0 {
        assert(s.map_values(f).drop_first() =~= s.drop_first().map_values(f));
        lemma_sorted_map(s.drop_first(), f, lt, lt2);
        lemma_slotted_map(s[0], sorted(s.drop_first(), lt), f, lt, lt2);
    } else {
        assert(s.map_values(f) =~= Seq::<B>::empty());
        assert(sorted(s, lt).map_values(f) =~= Seq::<B>::empty());
    }
}

proof fn lemma_slotted_at<T>(x: T, s: Seq<T>, lt: spec_fn(T, T) -> bool, at: int)
    requires
        0 <= at <= s.len(),
        forall|i: int| 0 <= i < at ==> lt(#[trigger] s[i], x),
        at < s.len() ==> !lt(s[at], x),
    ensures
        slotted(x, s, lt) == s.insert(at, x),
    decreases s.len(),
{
    if at == 0 {
        assert(seq![x] + s =~= s.insert(0, x));
    } else {
        let rest = s.drop_first();
        assert forall|i: int| 0 <= i < at - 1 implies lt(#[trigger] rest[i], x) by {
            assert(rest[i] == s[i + 1]);
        }
        if at < s.len() {
            assert(rest[at - 1] == s[at]);
        }
        lemma_slotted_at(x, rest, lt, at - 1);
        assert(seq![s[0]] + rest.insert(at - 1, x) =~= s.insert(at, x));
    }
}

/// Comparing by a key is a strict order in which every two items compare.
pub proof fn lemma_order_by_key<T>(lt: spec_fn(T, T) -> bool, key: spec_fn(T) -> Seq<int>)
    requires
        forall|a: T, b: T| #[trigger] lt(a, b) == text::lex_less(key(a), key(b)),
    ensures
        strict_weak_order(lt),
{
    assert forall|a: T| !(#[trigger] lt(a, a)) by {
        text::lemma_lex_order(key(a), key(a), key(a));
    }
    assert forall|a: T, b: T, c: T| #[trigger] lt(a, b) && #[trigger] lt(b, c) implies lt(a, c) by {
        text::lemma_lex_order(key(a), key(b), key(c));
    }
    assert forall|a: T, b: T, c: T|
        !(#[trigger] lt(a, b)) && !(#[trigger] lt(b, c)) implies !lt(a, c) by {
        text::lemma_lex_order(key(a), key(b), key(c));
        text::lemma_lex_order(key(b), key(c), key(a));
        text::lemma_lex_order(key(c), key(b), key(a));
        text::lemma_lex_order(key(a), key(c), key(b));
    }
}

/// Whether any two items compare or are the same.
pub open spec fn separated<T>(s: Seq<T>, lt: spec_fn(T, T) -> bool) -> bool {
    forall|i: int, j: int|
        0 <= i < j < s.len() ==> lt(#[trigger] s[i], #[trigger] s[j]) || lt(s[j], s[i]) || s[i]
            == s[j]
}

/// The same items stand in ascending order in one way only.
pub proof fn lemma_one_order<T>(a: Seq<T>, b: Seq<T>, lt: spec_fn(T, T) -> bool)
    requires
        strict_weak_order(lt),
        ascending(a, lt),
        ascending(b, lt),
        a.to_multiset() =~= b.to_multiset(),
        separated(a, lt),
    ensures
        a == b,
    decreases a.len(),
{
    broadcast use vstd::seq_lib::group_to_multiset_ensures;

    assert(a.len() == a.to_multiset().len());
    assert(b.len() == b.to_multiset().len());
    if a.len() == 0 {
        assert(a =~= b);
    } else {
        assert(a.contains(a[0]));
        assert(b.contains(b[0]));
        assert(b.to_multiset().count(a[0]) > 0);
        assert(a.to_multiset().count(b[0]) > 0);
        assert(b.contains(a[0]) && a.contains(b[0]));
        let j = choose|j: int| 0 <= j < b.len() && b[j] == a[0];
        let k = choose|k: int| 0 <= k < a.len() && a[k] == b[0];
        if j > 0 && k > 0 {
            assert(lt(a[0], a[k]) || lt(a[k], a[0]) || a[0] == a[k]);
            assert(!lt(b[j], b[0]));
            assert(!lt(a[k], a[0]));
        }
        assert(a[0] == b[0]);
        let ra = a.remove(0);
        let rb = b.remove(0);
        assert(ra.to_multiset() =~= a.to_multiset().remove(a[0]));
        assert(rb.to_multiset() =~= b.to_multiset().remove(b[0]));
        assert forall|i: int, m: int| 0 <= i < m < ra.len() implies !lt(
            #[trigger] ra[m],
            #[trigger] ra[i],
        ) && (lt(ra[i], ra[m]) || lt(ra[m], ra[i]) || ra[i] == ra[m]) by {
            assert(ra[m] == a[m + 1] && ra[i] == a[i + 1]);
        }
        assert forall|i: int, m: int| 0 <= i < m < rb.len() implies !lt(
            #[trigger] rb[m],
            #[trigger] rb[i],
        ) by {
            assert(rb[m] == b[m + 1] && rb[i] == b[i + 1]);
        }
        lemma_one_order(ra, rb, lt);
        assert(a =~= seq![a[0]] + ra);
        assert(b =~= seq![b[0]] + rb);
    }
}

proof fn lemma_sorted_separated<T>(s: Seq<T>, lt: spec_fn(T, T) -> bool)
    requires
        strict_weak_order(lt),
        separated(s, lt),
    ensures
        separated(sorted(s, lt), lt),
    decreases s.len(),
{
    if s.len() > 0 {
        let rest = s.drop_first();
        let t = sorted(rest, lt);
        let out = sorted(s, lt);
        assert forall|i: int, j: int| 0 <= i < j < rest.len() implies lt(
            #[trigger] rest[i],
            #[trigger] rest[j],
        ) || lt(rest[j], rest[i]) || rest[i] == rest[j] by {
            assert(rest[i] == s[i + 1] && rest[j] == s[j + 1]);
        }
        lemma_sorted_separated(rest, lt);
        assert forall|i: int| 0 <= i < t.len() implies lt(#[trigger] t[i], s[0]) || lt(
            s[0],
            t[i],
        ) || t[i] == s[0] by {
            lemma_sorted_item(rest, lt, i);
            let k = choose|k: int| 0 <= k < rest.len() && rest[k] == t[i];
            assert(s[k + 1] == t[i]);
            assert(lt(s[0], s[k + 1]) || lt(s[k + 1], s[0]) || s[0] == s[k + 1]);
        }
        lemma_slotted_separated(s[0], t, lt);
    }
}

proof fn lemma_slotted_separated<T>(x: T, s: Seq<T>, lt: spec_fn(T, T) -> bool)
    requires
        separated(s, lt),
        forall|i: int| 0 <= i < s.len() ==> lt(#[trigger] s[i], x) || lt(x, s[i]) || s[i] == x,
    ensures
        separated(slotted(x, s, lt), lt),
    decreases s.len(),
{
    let t = slotted(x, s, lt);
    if s.len() == 0 || !lt(s[0], x) {
        assert forall|i: int, j: int| 0 <= i < j < t.len() implies lt(
            #[trigger] t[i],
            #[trigger] t[j],
        ) || lt(t[j], t[i]) || t[i] == t[j] by {
            assert(t[j] == s[j - 1]);
            if i > 0 {
                assert(t[i] == s[i - 1]);
            }
        }
    } else {
        let rest = s.drop_first();
        assert forall|i: int| 0 <= i < rest.len() implies lt(#[trigger] rest[i], x) || lt(
            x,
            rest[i],
        ) || rest[i] == x by {
            assert(rest[i] == s[i + 1]);
        }
        assert forall|i: int, j: int| 0 <= i < j < rest.len() implies lt(
            #[trigger] rest[i],
            #[trigger] rest[j],
        ) || lt(rest[j], rest[i]) || rest[i] == rest[j] by {
            assert(rest[i] == s[i + 1] && rest[j] == s[j + 1]);
        }
        lemma_slotted_separated(x, rest, lt);
        let u = slotted(x, rest, lt);
        assert forall|i: int, j: int| 0 <= i < j < t.len() implies lt(
            #[trigger] t[i],
            #[trigger] t[j],
        ) || lt(t[j], t[i]) || t[i] == t[j] by {
            assert(t[j] == u[j - 1]);
            if i > 0 {
                assert(t[i] == u[i - 1]);
            } else {
                lemma_slotted_item(x, rest, lt, j - 1);
                if u[j - 1] != x {
                    let k = choose|k: int| 0 <= k < rest.len() && rest[k] == u[j - 1];
                    assert(s[k + 1] == u[j - 1]);
                }
            }
        }
    }
}

proof fn lemma_slotted_item<T>(x: T, s: Seq<T>, lt: spec_fn(T, T) -> bool, i: int)
    requires
        0 <= i < slotted(x, s, lt).len(),
    ensures
        slotted(x, s, lt)[i] == x || s.contains(slotted(x, s, lt)[i]),
    decreases s.len(),
{
    let t = slotted(x, s, lt);
    if s.len() == 0 || !lt(s[0], x) {
        if i > 0 {
            assert(t[i] == s[i - 1]);
        }
    } else if i == 0 {
        assert(t[0] == s[0]);
    } else {
        let rest = s.drop_first();
        lemma_slotted_item(x, rest, lt, i - 1);
        assert(t[i] == slotted(x, rest, lt)[i - 1]);
        if t[i] != x {
            let k = choose|k: int| 0 <= k < rest.len() && rest[k] == t[i];
            assert(s[k + 1] == t[i]);
        }
    }
}

/// Where every two items compare or are the same, what a list sorts to does not depend on the
/// order it came in.
pub proof fn lemma_sorted_permuted<T>(s: Seq<T>, t: Seq<T>, lt: spec_fn(T, T) -> bool)
    requires
        strict_weak_order(lt),
        s.to_multiset() =~= t.to_multiset(),
        separated(s, lt),
    ensures
        sorted(s, lt) == sorted(t, lt),
{
    lemma_sorted_keeps_items(s, lt);
    lemma_sorted_keeps_items(t, lt);
    lemma_sorted_ascending(s, lt);
    lemma_sorted_ascending(t, lt);
    lemma_sorted_separated(s, lt);
    lemma_one_order(sorted(s, lt), sorted(t, lt), lt);
}

/// What a function makes of the same items is the same items.
pub proof fn lemma_mapped_multiset<A, B>(a: Seq<A>, b: Seq<A>, f: spec_fn(A) -> B)
    requires
        a.to_multiset() =~= b.to_multiset(),
    ensures
        a.map_values(f).to_multiset() =~= b.map_values(f).to_multiset(),
    decreases a.len(),
{
    broadcast use vstd::seq_lib::group_to_multiset_ensures;

    assert(a.len() == a.to_multiset().len());
    assert(b.len() == b.to_multiset().len());
    if a.len() == 0 {
        assert(a.map_values(f) =~= b.map_values(f));
    } else {
        let x = a[0];
        assert(a.contains(x));
        assert(b.to_multiset().count(x) > 0);
        assert(b.contains(x));
        let j = choose|j: int| 0 <= j < b.len() && b[j] == x;
        let ra = a.remove(0);
        let rb = b.remove(j);
        assert(ra.to_multiset() =~= a.to_multiset().remove(x));
        assert(rb.to_multiset() =~= b.to_multiset().remove(x));
        lemma_mapped_multiset(ra, rb, f);
        let ma = a.map_values(f);
        let mb = b.map_values(f);
        assert(ma.remove(0) =~= ra.map_values(f));
        assert(mb.remove(j) =~= rb.map_values(f));
        assert(ma[0] == f(x) && mb[j] == f(x));
        assert(ma.contains(f(x)) && mb.contains(f(x)));
        assert(ma.to_multiset().count(f(x)) > 0 && mb.to_multiset().count(f(x)) > 0);
        assert(ma.remove(0).to_multiset() =~= ma.to_multiset().remove(f(x)));
        assert(mb.remove(j).to_multiset() =~= mb.to_multiset().remove(f(x)));
        assert(ma.to_multiset() =~= ma.to_multiset().remove(f(x)).insert(f(x)));
        assert(mb.to_multiset() =~= mb.to_multiset().remove(f(x)).insert(f(x)));
    }
}

/// Sort a list by `less`, keeping equal items in the order they came.
pub fn stable_sort<T, F: Fn(&T, &T) -> bool>(
    items: Vec<T>,
    less: F,
    Ghost(lt): Ghost<spec_fn(T, T) -> bool>,
) -> (r: Vec<T>)
    requires
        forall|a: &T, b: &T| #[trigger] less.requires((a, b)),
        forall|a: &T, b: &T, c: bool| #[trigger] less.ensures((a, b), c) ==> c == lt(*a, *b),
    ensures
        r@ == sorted(items@, lt),
{
    let ghost all = items@;
    let mut rest = items;
    let mut out: Vec<T> = Vec::new();
    proof {
        assert(all.skip(all.len() as int) =~= Seq::<T>::empty());
    }
    while rest.len() > 0
        invariant
            rest@ == all.take(rest.len() as int),
            rest.len() <= all.len(),
            out@ == sorted(all.skip(rest.len() as int), lt),
            forall|a: &T, b: &T| #[trigger] less.requires((a, b)),
            forall|a: &T, b: &T, c: bool| #[trigger] less.ensures((a, b), c) ==> c == lt(*a, *b),
        decreases rest.len(),
    {
        let ghost n = rest.len();
        let popped = rest.pop();
        match popped {
            Some(x) => {
                let mut at: usize = 0;
                while at < out.len() && less(&out[at], &x)
                    invariant
                        at <= out.len(),
                        forall|i: int| 0 <= i < at ==> lt(#[trigger] out@[i], x),
                        forall|a: &T, b: &T| #[trigger] less.requires((a, b)),
                        forall|a: &T, b: &T, c: bool| #[trigger]
                            less.ensures((a, b), c) ==> c == lt(*a, *b),
                    ensures
                        at <= out.len(),
                        forall|i: int| 0 <= i < at ==> lt(#[trigger] out@[i], x),
                        at < out.len() ==> !lt(out@[at as int], x),
                    decreases out.len() - at,
                {
                    at = at + 1;
                }
                proof {
                    lemma_slotted_at(x, out@, lt, at as int);
                    let tail = all.skip(n - 1);
                    assert(tail[0] == x);
                    assert(tail.drop_first() =~= all.skip(n as int));
                    assert(all.take(n as int).drop_last() =~= all.take(n - 1));
                }
                out.insert(at, x);
            },
            None => {},
        }
    }
    proof {
        assert(all.skip(0) =~= all);
    }
    out
}

proof fn lemma_slotted_stable<T>(
    x: T,
    s: Seq<T>,
    lt: spec_fn(T, T) -> bool,
    alike: spec_fn(T) -> bool,
)
    requires
        alike(x) ==> forall|y: T| #[trigger] alike(y) ==> !lt(y, x),
    ensures
        slotted(x, s, lt).filter(alike) == (seq![x] + s).filter(alike),
    decreases s.len(),
{
    if s.len() > 0 && lt(s[0], x) {
        let rest = s.drop_first();
        lemma_slotted_stable(x, rest, lt, alike);
        let one = seq![s[0]];
        let two = seq![x];
        assert(s =~= one + rest);
        Seq::filter_distributes_over_add(one, slotted(x, rest, lt), alike);
        Seq::filter_distributes_over_add(two, rest, alike);
        Seq::filter_distributes_over_add(one, rest, alike);
        Seq::filter_distributes_over_add(two, s, alike);
        lemma_one_filtered(s[0], alike);
        lemma_one_filtered(x, alike);
        assert(!(alike(x) && alike(s[0])));
        assert(slotted(x, s, lt).filter(alike) =~= (two + s).filter(alike));
    }
}

proof fn lemma_one_filtered<T>(x: T, alike: spec_fn(T) -> bool)
    ensures
        seq![x].filter(alike) == if alike(x) {
            seq![x]
        } else {
            Seq::empty()
        },
{
    reveal(Seq::filter);
    assert(seq![x].drop_last() =~= Seq::empty());
    assert(seq![x].drop_last().filter(alike) =~= Seq::empty());
    assert(Seq::<T>::empty().push(x) =~= seq![x]);
}

/// Sorting is stable: items none of which comes before another keep the order they
/// came in.
pub proof fn lemma_sorted_is_stable<T>(
    s: Seq<T>,
    lt: spec_fn(T, T) -> bool,
    alike: spec_fn(T) -> bool,
)
    requires
        forall|x: T, y: T| #[trigger] alike(x) && #[trigger] alike(y) ==> !lt(x, y),
    ensures
        sorted(s, lt).filter(alike) == s.filter(alike),
    decreases s.len(),
{
    if s.len() > 0 {
        let rest = s.drop_first();
        lemma_sorted_is_stable(rest, lt, alike);
        lemma_slotted_stable(s[0], sorted(rest, lt), lt, alike);
        Seq::filter_distributes_over_add(seq![s[0]], sorted(rest, lt), alike);
        Seq::filter_distributes_over_add(seq![s[0]], rest, alike);
        assert(s =~= seq![s[0]] + rest);
    }
}

} // verus!
