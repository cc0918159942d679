//! Stable sorting.

use vstd::prelude::*;

verus! {

/// `ahead` is a strict weak order: two items of which neither is ahead of the
/// other are tied, and ties are transitive.
pub open spec fn strict_weak_order<T>(ahead: spec_fn(T, T) -> bool) -> bool {
    &&& forall|a: T, b: T| #[trigger] ahead(a, b) ==> !ahead(b, a)
    &&& forall|a: T, b: T, c: T|
        #![trigger ahead(a, b), ahead(b, c)]
        ahead(a, b) && ahead(b, c) ==> ahead(a, c)
    &&& forall|a: T, b: T, c: T|
        #![trigger ahead(a, b), ahead(b, c)]
        !ahead(a, b) && !ahead(b, c) ==> !ahead(a, c)
}

/// `x` put into `s` behind everything that it does not have to come ahead of.
pub open spec fn placed<T>(s: Seq<T>, x: T, ahead: spec_fn(T, T) -> bool) -> Seq<T>
    decreases s.len(),
{
    if s.len() > 0 && ahead(x, s.last()) {
        placed(s.drop_last(), x, ahead).push(s.last())
    } else {
        s.push(x)
    }
}

/// `s` in the order that `ahead` gives; items that are tied keep the order that they
/// have in `s`.
pub open spec fn sorted<T>(s: Seq<T>, ahead: spec_fn(T, T) -> bool) -> Seq<T>
    decreases s.len(),
{
    if s.len() == 0 {
        s
    } else {
        placed(sorted(s.drop_last(), ahead), s.last(), ahead)
    }
}

/// No item is ahead of one that stands before it.
pub open spec fn in_order<T>(s: Seq<T>, ahead: spec_fn(T, T) -> bool) -> bool {
    forall|i: int, j: int| 0 <= i < j < s.len() ==> !ahead(#[trigger] s[j], #[trigger] s[i])
}

/// Whether an item is tied with `with`.
pub open spec fn tied<T>(with: T, ahead: spec_fn(T, T) -> bool) -> spec_fn(T) -> bool {
    |x: T| !ahead(x, with) && !ahead(with, x)
}

/// Where `placed` puts `x` into a sequence in order: it is not ahead of anything
/// before it, and ahead of everything after it.
pub proof fn placed_splits<T>(s: Seq<T>, x: T, ahead: spec_fn(T, T) -> bool) -> (at: int)
    requires
        strict_weak_order(ahead),
        in_order(s, ahead),
    ensures
        0 <= at <= s.len(),
        placed(s, x, ahead) == s.insert(at, x),
        forall|i: int| 0 <= i < at ==> !ahead(x, #[trigger] s[i]),
        forall|i: int| at <= i < s.len() ==> ahead(x, #[trigger] s[i]),
    decreases s.len(),
{
    if s.len() > 0 && ahead(x, s.last()) {
        let front = s.drop_last();
        let at = placed_splits(front, x, ahead);
        assert(placed(s, x, ahead) =~= s.insert(at, x));
        assert forall|i: int| at <= i < s.len() implies ahead(x, #[trigger] s[i]) by {
            if i < front.len() {
                assert(front[i] == s[i]);
            }
        }
        assert forall|i: int| 0 <= i < at implies !ahead(x, #[trigger] s[i]) by {
            assert(front[i] == s[i]);
        }
        at
    } else {
        assert(s.push(x) =~= s.insert(s.len() as int, x));
        assert forall|i: int| 0 <= i < s.len() implies !ahead(x, #[trigger] s[i]) by {
            if i < s.len() - 1 {
                assert(!ahead(s.last(), s[i]));
            }
        }
        s.len() as int
    }
}

/// `s`, or its first `limit` items where it has more.
pub open spec fn up_to<T>(s: Seq<T>, limit: int) -> Seq<T> {
    if s.len() > limit {
        s.take(limit)
    } else {
        s
    }
}

/// Sorting puts no item behind one that it is ahead of.
pub proof fn sorted_is_in_order<T>(s: Seq<T>, ahead: spec_fn(T, T) -> bool)
    requires
        strict_weak_order(ahead),
    ensures
        in_order(sorted(s, ahead), ahead),
    decreases s.len(),
{
    if s.len() > 0 {
        let front = sorted(s.drop_last(), ahead);
        let x = s.last();
        sorted_is_in_order(s.drop_last(), ahead);
        let at = placed_splits(front, x, ahead);
        let r = sorted(s, ahead);
        assert forall|i: int, j: int| 0 <= i < j < r.len() implies !ahead(
            #[trigger] r[j],
            #[trigger] r[i],
        ) by {
            if j == at {
                assert(r[i] == front[i]);
            } else if i == at {
                assert(r[j] == front[j - 1]);
            } else {
                let fi = if i < at { i } else { i - 1 };
                let fj = if j < at { j } else { j - 1 };
                assert(r[i] == front[fi] && r[j] == front[fj]);
            }
        }
    }
}

proof fn placed_keeps_items<T>(s: Seq<T>, x: T, ahead: spec_fn(T, T) -> bool)
    ensures
        placed(s, x, ahead).len() == s.len() + 1,
        placed(s, x, ahead).to_multiset() == s.to_multiset().insert(x),
    decreases s.len(),
{
    broadcast use vstd::seq_lib::group_to_multiset_ensures;

    if s.len() > 0 && ahead(x, s.last()) {
        let front = s.drop_last();
        placed_keeps_items(front, x, ahead);
        assert(front.push(s.last()) =~= s);
        assert(placed(s, x, ahead).to_multiset() =~= s.to_multiset().insert(x));
    }
}

/// Sorting neither adds nor drops items.
pub proof fn sorted_keeps_items<T>(s: Seq<T>, ahead: spec_fn(T, T) -> bool)
    ensures
        sorted(s, ahead).len() == s.len(),
        sorted(s, ahead).to_multiset() == s.to_multiset(),
        forall|x: T| #[trigger] sorted(s, ahead).contains(x) <==> s.contains(x),
    decreases s.len(),
{
    broadcast use vstd::seq_lib::group_to_multiset_ensures;

    if s.len() > 0 {
        let front = s.drop_last();
        sorted_keeps_items(front, ahead);
        placed_keeps_items(sorted(front, ahead), s.last(), ahead);
        assert(front.push(s.last()) =~= s);
        assert(sorted(s, ahead).to_multiset() =~= s.to_multiset());
    }
    let r = sorted(s, ahead);
    assert forall|x: T| #[trigger] r.contains(x) <==> s.contains(x) by {
        assert(r.contains(x) <==> r.to_multiset().count(x) > 0);
        assert(s.contains(x) <==> s.to_multiset().count(x) > 0);
    }
}

/// Sorting leaves items that are tied in the order in which they stood.
pub proof fn sorted_is_stable<T>(s: Seq<T>, with: T, ahead: spec_fn(T, T) -> bool)
    requires
        strict_weak_order(ahead),
    ensures
        sorted(s, ahead).filter(tied(with, ahead)) == s.filter(tied(with, ahead)),
    decreases s.len(),
{
    if s.len() > 0 {
        let front = s.drop_last();
        let x = s.last();
        let p = tied(with, ahead);
        sorted_is_stable(front, with, ahead);
        sorted_is_in_order(front, ahead);
        let f = sorted(front, ahead);
        let at = placed_splits(f, x, ahead);
        let (a, b) = (f.take(at), f.skip(at));
        assert(f =~= a + b);
        assert(sorted(s, ahead) =~= a.push(x) + b);
        Seq::filter_distributes_over_add(a, b, p);
        Seq::filter_distributes_over_add(a.push(x), b, p);
        a.lemma_filter_push(x, p);
        front.lemma_filter_push(x, p);
        assert(front.push(x) =~= s);
        if p(x) {
            assert forall|i: int| 0 <= i < b.len() implies !p(#[trigger] b[i]) by {
                assert(b[i] == f[at + i]);
                assert(ahead(x, b[i]));
                assert(!ahead(x, with) && !ahead(with, x));
                if !ahead(with, b[i]) {
                    assert(!ahead(x, b[i]));
                }
            }
            b.lemma_all_neg_filter_empty(p);
            assert(b.filter(p) =~= Seq::<T>::empty());
            assert(a.filter(p).push(x) + b.filter(p) =~= (a.filter(p) + b.filter(p)).push(x));
        }
    }
}

/// Sorting by keys that compare as the items do sorts the items.
pub proof fn sorted_by_keys<K, T>(
    keys: Seq<K>,
    item: spec_fn(K) -> T,
    key_ahead: spec_fn(K, K) -> bool,
    ahead: spec_fn(T, T) -> bool,
)
    requires
        forall|i: int, j: int|
            0 <= i < keys.len() && 0 <= j < keys.len() ==> key_ahead(
                #[trigger] keys[i],
                #[trigger] keys[j],
            ) == ahead(item(keys[i]), item(keys[j])),
    ensures
        sorted(keys, key_ahead).map_values(item) == sorted(keys.map_values(item), ahead),
    decreases keys.len(),
{
    if keys.len() > 0 {
        let front = keys.drop_last();
        sorted_by_keys(front, item, key_ahead, ahead);
        sorted_keeps_items(front, key_ahead);
        let s = sorted(front, key_ahead);
        let x = keys.last();
        assert forall|i: int| 0 <= i < s.len() implies key_ahead(x, #[trigger] s[i]) == ahead(
            item(x),
            item(s[i]),
        ) by {
            assert(s.contains(s[i]));
            let j = choose|j: int| 0 <= j < front.len() && front[j] == s[i];
            assert(keys[j] == s[i] && keys[keys.len() - 1] == x);
        }
        placed_by_keys(s, x, item, key_ahead, ahead);
        assert(keys.map_values(item).drop_last() =~= front.map_values(item));
    } else {
        assert(keys.map_values(item) =~= Seq::<T>::empty());
        assert(sorted(keys, key_ahead).map_values(item) =~= Seq::<T>::empty());
    }
}

proof fn placed_by_keys<K, T>(
    s: Seq<K>,
    x: K,
    item: spec_fn(K) -> T,
    key_ahead: spec_fn(K, K) -> bool,
    ahead: spec_fn(T, T) -> bool,
)
    requires
        forall|i: int|
            0 <= i < s.len() ==> key_ahead(x, #[trigger] s[i]) == ahead(item(x), item(s[i])),
    ensures
        placed(s, x, key_ahead).map_values(item) == placed(s.map_values(item), item(x), ahead),
    decreases s.len(),
{
    if s.len() > 0 {
        let front = s.drop_last();
        assert forall|i: int| 0 <= i < front.len() implies key_ahead(x, #[trigger] front[i])
            == ahead(item(x), item(front[i])) by {
            assert(front[i] == s[i]);
        }
        placed_by_keys(front, x, item, key_ahead, ahead);
        assert(s.map_values(item).drop_last() =~= front.map_values(item));
        assert(s.last() == s[s.len() - 1]);
    }
    assert(placed(s, x, key_ahead).map_values(item) =~= placed(
        s.map_values(item),
        item(x),
        ahead,
    ));
}

/// Keys that can be compared.
pub trait SortKey: Copy {
    spec fn ahead(self, other: Self) -> bool;

    fn is_ahead(&self, other: &Self) -> (b: bool)
        ensures
            b == (*self).ahead(*other),
    ;
}

/// The order of the keys of type `K`.
pub open spec fn key_order<K: SortKey>() -> spec_fn(K, K) -> bool {
    |a: K, b: K| a.ahead(b)
}

/// `keys` in their order; keys that are tied stay as they stand.
pub fn sort<K: SortKey>(keys: &[K]) -> (r: Vec<K>)
    ensures
        r@ == sorted(keys@, key_order()),
{
    let ghost ahead = key_order::<K>();
    let mut r: Vec<K> = Vec::new();
    for i in 0..keys.len()
        invariant
            ahead == key_order::<K>(),
            r@ == sorted(keys@.take(i as int), ahead),
    {
        let x = keys[i];
        let mut at: usize = r.len();
        let ghost s = r@;
        assert(s.take(at as int) =~= s);
        assert(placed(s, x, ahead) =~= placed(s.take(at as int), x, ahead) + s.skip(at as int));
        while at > 0 && x.is_ahead(&r[at - 1])
            invariant
                ahead == key_order::<K>(),
                at <= s.len(),
                r@ == s,
                placed(s, x, ahead) == placed(s.take(at as int), x, ahead) + s.skip(at as int),
            decreases at,
        {
            proof {
                let t = s.take(at as int);
                assert(t.drop_last() =~= s.take(at - 1));
                assert(placed(t, x, ahead) + s.skip(at as int) =~= placed(s.take(at - 1), x, ahead)
                    + s.skip(at - 1));
            }
            at = at - 1;
        }
        r.insert(at, x);
        proof {
            assert(s.take(at as int).push(x) + s.skip(at as int) =~= s.insert(at as int, x));
            let upto = keys@.take(i + 1);
            assert(upto.drop_last() =~= keys@.take(i as int));
            assert(upto.last() == x);
        }
    }
    assert(keys@.take(keys@.len() as int) =~= keys@);
    r
}

} // verus!
