//! The order of texts, and lists kept sorted by a key.
use vstd::prelude::*;

use crate::text::{chars_of, strings};

verus! {

/// Whether `a` stands before `b` in the order of texts: by the first character
/// in which they differ, a text before its extensions.
pub open spec fn lex_less(a: Seq<char>, b: Seq<char>) -> bool
    decreases a.len(),
{
    if b.len() == 0 {
        false
    } else if a.len() == 0 {
        true
    } else if a[0] != b[0] {
        a[0] < b[0]
    } else {
        lex_less(a.skip(1), b.skip(1))
    }
}

pub proof fn lemma_lex_irreflexive(a: Seq<char>)
    ensures
        !lex_less(a, a),
    decreases a.len(),
{
    if a.len() > 0 {
        lemma_lex_irreflexive(a.skip(1));
    }
}

pub proof fn lemma_lex_transitive(a: Seq<char>, b: Seq<char>, c: Seq<char>)
    requires
        lex_less(a, b),
        lex_less(b, c),
    ensures
        lex_less(a, c),
    decreases a.len(),
{
    if a.len() > 0 && b.len() > 0 && c.len() > 0 && a[0] == b[0] && b[0] == c[0] {
        lemma_lex_transitive(a.skip(1), b.skip(1), c.skip(1));
    }
}

pub proof fn lemma_lex_total(a: Seq<char>, b: Seq<char>)
    ensures
        a == b || lex_less(a, b) || lex_less(b, a),
    decreases a.len(),
{
    if a.len() == 0 && b.len() == 0 {
        assert(a =~= b);
    } else if a.len() > 0 && b.len() > 0 && a[0] == b[0] {
        lemma_lex_total(a.skip(1), b.skip(1));
        if a.skip(1) == b.skip(1) {
            assert(a =~= seq![a[0]] + a.skip(1));
            assert(b =~= seq![b[0]] + b.skip(1));
        }
    }
}

/// Whether `a` stands before `b` in the order of texts.
pub fn str_less(a: &str, b: &str) -> (r: bool)
    ensures
        r == lex_less(a@, b@),
{
    let x = chars_of(a);
    let y = chars_of(b);
    let mut i: usize = 0;
    assert(x@.skip(0) =~= x@);
    assert(y@.skip(0) =~= y@);
    loop
        invariant
            x@ == a@,
            y@ == b@,
            i <= x@.len(),
            i <= y@.len(),
            lex_less(a@, b@) == lex_less(x@.skip(i as int), y@.skip(i as int)),
        decreases x.len() - i,
    {
        if i >= y.len() {
            return false;
        }
        if i >= x.len() {
            return true;
        }
        if x[i] != y[i] {
            return x[i] < y[i];
        }
        assert(x@.skip(i as int).skip(1) =~= x@.skip(i + 1));
        assert(y@.skip(i as int).skip(1) =~= y@.skip(i + 1));
        i = i + 1;
    }
}

/// What an item is sorted by: a number, three texts and a second number, the
/// earlier deciding before the later.
pub struct SortKey {
    pub major: int,
    pub first: Seq<char>,
    pub second: Seq<char>,
    pub third: Seq<char>,
    pub minor: int,
}

/// Whether one key stands before another.
pub open spec fn key_less(x: SortKey, y: SortKey) -> bool {
    if x.major != y.major {
        x.major < y.major
    } else if x.first != y.first {
        lex_less(x.first, y.first)
    } else if x.second != y.second {
        lex_less(x.second, y.second)
    } else if x.third != y.third {
        lex_less(x.third, y.third)
    } else {
        x.minor < y.minor
    }
}

pub proof fn lemma_key_transitive(x: SortKey, y: SortKey, z: SortKey)
    requires
        key_less(x, y),
        key_less(y, z),
    ensures
        key_less(x, z),
{
    if x.major == y.major && y.major == z.major {
        lemma_lex_irreflexive(x.first);
        lemma_lex_irreflexive(y.first);
        if x.first != y.first && y.first != z.first {
            lemma_lex_transitive(x.first, y.first, z.first);
        } else if x.first == y.first && y.first == z.first {
            lemma_lex_irreflexive(x.second);
            lemma_lex_irreflexive(y.second);
            if x.second != y.second && y.second != z.second {
                lemma_lex_transitive(x.second, y.second, z.second);
            } else if x.second == y.second && y.second == z.second {
                lemma_lex_irreflexive(x.third);
                lemma_lex_irreflexive(y.third);
                if x.third != y.third && y.third != z.third {
                    lemma_lex_transitive(x.third, y.third, z.third);
                }
            }
        }
    }
}

pub proof fn lemma_key_irreflexive(x: SortKey)
    ensures
        !key_less(x, x),
{
}

pub proof fn lemma_key_total(x: SortKey, y: SortKey)
    ensures
        x == y || key_less(x, y) || key_less(y, x),
{
    lemma_lex_total(x.first, y.first);
    lemma_lex_total(x.second, y.second);
    lemma_lex_total(x.third, y.third);
}

/// An item that has a place in a sorted list.
pub trait Sortable: Sized {
    /// What the item is sorted by.
    spec fn sort_key(&self) -> SortKey;

    /// Whether the item stands before another.
    fn precedes(&self, other: &Self) -> (r: bool)
        ensures
            r == key_less(self.sort_key(), other.sort_key()),
    ;
}

/// Whether each item stands before all that follow it.
pub open spec fn strictly_sorted<T: Sortable>(s: Seq<T>) -> bool {
    forall|i: int, j: int|
        0 <= i < j < s.len() ==> key_less(#[trigger] s[i].sort_key(), #[trigger] s[j].sort_key())
}

/// Whether some item has the given key.
pub open spec fn has_key<T: Sortable>(s: Seq<T>, key: SortKey) -> bool {
    exists|i: int| 0 <= i < s.len() && #[trigger] s[i].sort_key() == key
}

/// Whether `at` is the first place in `s` with that item's key.
pub open spec fn first_with_key<T: Sortable>(s: Seq<T>, at: int) -> bool {
    &&& 0 <= at < s.len()
    &&& forall|i: int| 0 <= i < at ==> #[trigger] s[i].sort_key() != s[at].sort_key()
}

/// Whether `r` is `s` sorted, with only the first of the items that share a key.
pub open spec fn is_sorted_unique<T: Sortable>(s: Seq<T>, r: Seq<T>) -> bool {
    &&& strictly_sorted(r)
    &&& forall|i: int| 0 <= i < s.len() ==> has_key(r, #[trigger] s[i].sort_key())
    &&& forall|j: int| 0 <= j < r.len() ==> is_first(s, #[trigger] r[j])
}

/// Whether an item is the first in `s` with its key.
pub open spec fn is_first<T: Sortable>(s: Seq<T>, item: T) -> bool {
    exists|at: int| #[trigger] first_with_key(s, at) && s[at] == item
}

/// Whether `r` is `s` sorted by `key`, with only the first of those that share one.
pub open spec fn sorted_unique_by<V>(s: Seq<V>, r: Seq<V>, key: spec_fn(V) -> SortKey) -> bool {
    &&& forall|i: int, j: int|
        0 <= i < j < r.len() ==> key_less(key(#[trigger] r[i]), key(#[trigger] r[j]))
    &&& forall|i: int| 0 <= i < s.len() ==> has_key_by(r, key(#[trigger] s[i]), key)
    &&& forall|j: int| 0 <= j < r.len() ==> is_first_by(s, #[trigger] r[j], key)
}

/// Whether some item has the given key.
pub open spec fn has_key_by<V>(s: Seq<V>, k: SortKey, key: spec_fn(V) -> SortKey) -> bool {
    exists|i: int| 0 <= i < s.len() && key(#[trigger] s[i]) == k
}

/// Whether an item is the first in `s` with its key.
pub open spec fn is_first_by<V>(s: Seq<V>, item: V, key: spec_fn(V) -> SortKey) -> bool {
    exists|at: int| #[trigger] first_by(s, at, key) && s[at] == item
}

/// Whether `at` is the first place in `s` with that item's key.
pub open spec fn first_by<V>(s: Seq<V>, at: int, key: spec_fn(V) -> SortKey) -> bool {
    &&& 0 <= at < s.len()
    &&& forall|i: int| 0 <= i < at ==> key(#[trigger] s[i]) != key(s[at])
}

/// What is sorted of items is sorted of what they are.
pub proof fn lemma_sorted_views<T: Sortable, V>(
    s: Seq<T>,
    r: Seq<T>,
    f: spec_fn(T) -> V,
    key: spec_fn(V) -> SortKey,
)
    requires
        is_sorted_unique(s, r),
        forall|t: T| key(#[trigger] f(t)) == t.sort_key(),
    ensures
        sorted_unique_by(s.map_values(f), r.map_values(f), key),
{
    let sv = s.map_values(f);
    let rv = r.map_values(f);
    assert forall|i: int, j: int| 0 <= i < j < rv.len() implies key_less(
        key(#[trigger] rv[i]),
        key(#[trigger] rv[j]),
    ) by {
        assert(rv[i] == f(r[i]) && rv[j] == f(r[j]));
        assert(key_less(r[i].sort_key(), r[j].sort_key()));
    }
    assert forall|i: int| 0 <= i < sv.len() implies has_key_by(rv, key(#[trigger] sv[i]), key) by {
        assert(sv[i] == f(s[i]));
        assert(has_key(r, s[i].sort_key()));
        let j = choose|j: int| 0 <= j < r.len() && #[trigger] r[j].sort_key() == s[i].sort_key();
        assert(rv[j] == f(r[j]));
    }
    assert forall|j: int| 0 <= j < rv.len() implies is_first_by(sv, #[trigger] rv[j], key) by {
        assert(r[j] == r[j]);
        let at = choose|at: int| #[trigger] first_with_key(s, at) && s[at] == r[j];
        assert(sv[at] == f(s[at]));
        assert(rv[j] == f(r[j]));
        assert forall|i: int| 0 <= i < at implies key(#[trigger] sv[i]) != key(sv[at]) by {
            assert(sv[i] == f(s[i]));
            assert(s[i].sort_key() != s[at].sort_key());
        }
        assert(first_by(sv, at, key));
    }
}

/// Puts an item into its place in a sorted list, unless its key is there.
fn insert_unique<T: Sortable>(list: &mut Vec<T>, item: T)
    requires
        strictly_sorted(old(list)@),
    ensures
        strictly_sorted(final(list)@),
        has_key(old(list)@, item.sort_key()) ==> final(list)@ == old(list)@,
        !has_key(old(list)@, item.sort_key()) ==> exists|at: int|
            0 <= at <= old(list)@.len() && #[trigger] old(list)@.insert(at, item) == final(list)@,
{
    let mut at: usize = 0;
    while at < list.len() && list[at].precedes(&item)
        invariant
            at <= list@.len(),
            strictly_sorted(list@),
            list@ == old(list)@,
            forall|i: int|
                0 <= i < at ==> key_less(#[trigger] list@[i].sort_key(), item.sort_key()),
        decreases list.len() - at,
    {
        at = at + 1;
    }
    let ghost s = list@;
    let ghost key = item.sort_key();
    if at < list.len() && !item.precedes(&list[at]) {
        proof {
            lemma_key_total(s[at as int].sort_key(), key);
            assert(s[at as int].sort_key() == key);
            assert(has_key(s, key));
        }
        return;
    }
    proof {
        assert forall|i: int| at <= i < s.len() implies key_less(key, #[trigger] s[i].sort_key()) by {
            if i > at {
                lemma_key_transitive(key, s[at as int].sort_key(), s[i].sort_key());
            }
        }
        assert forall|i: int| 0 <= i < s.len() implies #[trigger] s[i].sort_key() != key by {
            lemma_key_irreflexive(key);
        }
        assert(!has_key(s, key));
        let t = s.insert(at as int, item);
        assert forall|i: int, j: int| 0 <= i < j < t.len() implies key_less(
            #[trigger] t[i].sort_key(),
            #[trigger] t[j].sort_key(),
        ) by {
            let x = if i < at {
                i
            } else {
                i - 1
            };
            let y = if j < at {
                j
            } else {
                j - 1
            };
            if i != at {
                assert(t[i] == s[x]);
            }
            if j != at {
                assert(t[j] == s[y]);
            }
            if i == at {
                assert(key_less(key, s[y].sort_key()));
            } else if j == at {
                assert(key_less(s[x].sort_key(), key));
            } else {
                assert(key_less(s[x].sort_key(), s[y].sort_key()));
            }
        }
    }
    list.insert(at, item);
}

/// The items sorted by key; of those that share a key, the first.
pub fn sorted_unique<T: Sortable>(items: Vec<T>) -> (r: Vec<T>)
    ensures
        is_sorted_unique(items@, r@),
{
    let mut out: Vec<T> = Vec::new();
    let ghost all = items@;
    assert(all.take(0).len() == 0);
    for item in iter: items
        invariant
            iter.seq() == all,
            is_sorted_unique(all.take(iter.index() as int), out@),
    {
        let ghost n = iter.index() as int;
        let ghost s = all.take(n);
        let ghost t = all.take(n + 1);
        let ghost before = out@;
        let ghost key = item.sort_key();
        assert(item == all[n]);
        assert(t =~= s.push(item));
        insert_unique(&mut out, item);
        proof {
            lemma_add_item(s, item, before, out@);
        }
    }
    assert(all.take(all.len() as int) =~= all);
    out
}

proof fn lemma_add_item<T: Sortable>(s: Seq<T>, item: T, before: Seq<T>, after: Seq<T>)
    requires
        is_sorted_unique(s, before),
        strictly_sorted(after),
        has_key(before, item.sort_key()) ==> after == before,
        !has_key(before, item.sort_key()) ==> exists|at: int|
            0 <= at <= before.len() && #[trigger] before.insert(at, item) == after,
    ensures
        is_sorted_unique(s.push(item), after),
{
    let t = s.push(item);
    let key = item.sort_key();
    assert forall|at: int| #[trigger] first_with_key(s, at) implies first_with_key(t, at) && t[at]
        == s[at] by {
        assert forall|i: int| 0 <= i < at implies #[trigger] t[i].sort_key()
            != t[at].sort_key() by {
            assert(t[i] == s[i]);
        }
    }
    if has_key(before, key) {
        assert forall|i: int| 0 <= i < t.len() implies has_key(after, #[trigger] t[i].sort_key()) by {
            if i < s.len() {
                assert(t[i] == s[i]);
                assert(has_key(before, s[i].sort_key()));
            }
        }
        assert forall|j: int| 0 <= j < after.len() implies is_first(t, #[trigger] after[j]) by {
            let at = choose|at: int| #[trigger] first_with_key(s, at) && s[at] == before[j];
            assert(first_with_key(t, at));
        }
    } else {
        let p = choose|p: int| 0 <= p <= before.len() && #[trigger] before.insert(p, item) == after;
        assert(after[p] == item);
        assert forall|k: SortKey| has_key(before, k) implies has_key(after, k) by {
            let i = choose|i: int| 0 <= i < before.len() && #[trigger] before[i].sort_key() == k;
            let i2 = if i < p {
                i
            } else {
                i + 1
            };
            assert(after[i2] == before[i]);
            assert(after[i2].sort_key() == k);
        }
        assert forall|i: int| 0 <= i < t.len() implies has_key(after, #[trigger] t[i].sort_key()) by {
            if i < s.len() {
                assert(t[i] == s[i]);
                assert(has_key(before, s[i].sort_key()));
            } else {
                assert(after[p].sort_key() == key);
            }
        }
        assert(first_with_key(t, s.len() as int)) by {
            assert forall|i: int| 0 <= i < s.len() implies #[trigger] t[i].sort_key()
                != t[s.len() as int].sort_key() by {
                assert(t[i] == s[i]);
                assert(has_key(before, s[i].sort_key()));
            }
        }
        assert forall|j: int| 0 <= j < after.len() implies is_first(t, #[trigger] after[j]) by {
            if j == p {
                assert(t[s.len() as int] == after[j]);
            } else {
                let j2 = if j < p {
                    j
                } else {
                    j - 1
                };
                assert(after[j] == before[j2]);
                let at = choose|at: int| #[trigger] first_with_key(s, at) && s[at] == before[j2];
                assert(first_with_key(t, at));
            }
        }
    }
}

/// A sorted list without repeated keys is decided by what it is made of.
pub proof fn sorted_unique_is_unique<T: Sortable>(s: Seq<T>, a: Seq<T>, b: Seq<T>)
    requires
        is_sorted_unique(s, a),
        is_sorted_unique(s, b),
    ensures
        a == b,
{
    lemma_sorted_unique_prefix(s, a, b, a.len() as int);
    lemma_sorted_unique_prefix(s, b, a, b.len() as int);
    assert(a.take(a.len() as int) =~= a);
    assert(b.take(b.len() as int) =~= b);
}

proof fn lemma_sorted_unique_prefix<T: Sortable>(s: Seq<T>, a: Seq<T>, b: Seq<T>, n: int)
    requires
        is_sorted_unique(s, a),
        is_sorted_unique(s, b),
        0 <= n <= a.len(),
    ensures
        n <= b.len(),
        a.take(n) == b.take(n),
    decreases n,
{
    if n > 0 {
        lemma_sorted_unique_prefix(s, a, b, n - 1);
        let x = a[n - 1];
        lemma_same_item(s, a, b, n - 1);
        let j = choose|j: int| 0 <= j < b.len() && #[trigger] b[j] == x;
        if j < n - 1 {
            assert(a.take(n - 1)[j] == b.take(n - 1)[j]);
            assert(a[j] == x);
            assert(key_less(a[j].sort_key(), a[n - 1].sort_key()));
            lemma_key_irreflexive(x.sort_key());
        }
        if j > n - 1 {
            let y = b[n - 1];
            lemma_same_item(s, b, a, n - 1);
            let k = choose|k: int| 0 <= k < a.len() && #[trigger] a[k] == y;
            assert(key_less(b[n - 1].sort_key(), b[j].sort_key()));
            if k < n - 1 {
                assert(a.take(n - 1)[k] == b.take(n - 1)[k]);
                assert(key_less(b[k].sort_key(), b[n - 1].sort_key()));
                lemma_key_irreflexive(y.sort_key());
            } else if k > n - 1 {
                assert(key_less(a[n - 1].sort_key(), a[k].sort_key()));
                lemma_key_transitive(x.sort_key(), y.sort_key(), x.sort_key());
                lemma_key_irreflexive(x.sort_key());
            } else {
                lemma_key_irreflexive(x.sort_key());
            }
        }
        assert(a.take(n) =~= a.take(n - 1).push(x));
        assert(b.take(n) =~= b.take(n - 1).push(x));
    } else {
        assert(a.take(n) =~= b.take(n));
    }
}

proof fn lemma_same_item<T: Sortable>(s: Seq<T>, a: Seq<T>, b: Seq<T>, i: int)
    requires
        is_sorted_unique(s, a),
        is_sorted_unique(s, b),
        0 <= i < a.len(),
    ensures
        exists|j: int| 0 <= j < b.len() && #[trigger] b[j] == a[i],
{
    let p = choose|p: int| #[trigger] first_with_key(s, p) && s[p] == a[i];
    assert(has_key(b, s[p].sort_key()));
    let j = choose|j: int| 0 <= j < b.len() && #[trigger] b[j].sort_key() == s[p].sort_key();
    let q = choose|q: int| #[trigger] first_with_key(s, q) && s[q] == b[j];
    assert(p == q) by {
        if p < q {
            assert(s[p].sort_key() != s[q].sort_key());
        } else if q < p {
            assert(s[q].sort_key() != s[p].sort_key());
        }
    }
    assert(b[j] == a[i]);
}

/// Whether no item stands before one that precedes it in the list.
pub open spec fn sorted<T: Sortable>(s: Seq<T>) -> bool {
    forall|i: int, j: int|
        0 <= i < j < s.len() ==> !key_less(#[trigger] s[j].sort_key(), #[trigger] s[i].sort_key())
}

/// The items of a list that have a key, in their order.
pub open spec fn with_key<T: Sortable>(s: Seq<T>, key: SortKey) -> Seq<T> {
    s.filter(|t: T| t.sort_key() == key)
}

/// Whether items with equal keys stand in the same order in both lists.
pub open spec fn keeps_order<T: Sortable>(s: Seq<T>, r: Seq<T>) -> bool {
    forall|key: SortKey| #[trigger] with_key(r, key) == with_key(s, key)
}

proof fn lemma_with_key_push<T: Sortable>(s: Seq<T>, item: T, key: SortKey)
    ensures
        with_key(s.push(item), key) == if item.sort_key() == key {
            with_key(s, key).push(item)
        } else {
            with_key(s, key)
        },
{
    reveal(Seq::filter);
    assert(s.push(item).drop_last() =~= s);
}

proof fn lemma_without_key<T: Sortable>(s: Seq<T>, key: SortKey)
    requires
        forall|i: int| 0 <= i < s.len() ==> (#[trigger] s[i]).sort_key() != key,
    ensures
        with_key(s, key) == Seq::<T>::empty(),
    decreases s.len(),
{
    reveal(Seq::filter);
    if s.len() > 0 {
        lemma_without_key(s.drop_last(), key);
    }
}

/// An item that is put behind all those with its key joins them as the last one.
proof fn lemma_with_key_insert<T: Sortable>(s: Seq<T>, at: int, item: T, key: SortKey)
    requires
        0 <= at <= s.len(),
        forall|i: int| at <= i < s.len() ==> (#[trigger] s[i]).sort_key() != item.sort_key(),
    ensures
        with_key(s.insert(at, item), key) == with_key(s.push(item), key),
{
    let has = |t: T| t.sort_key() == key;
    let front = s.take(at);
    let back = s.skip(at);
    assert(s =~= front + back);
    assert(s.insert(at, item) =~= front.push(item) + back);
    Seq::filter_distributes_over_add(front, back, has);
    Seq::filter_distributes_over_add(front.push(item), back, has);
    lemma_with_key_push(front, item, key);
    lemma_with_key_push(s, item, key);
    if item.sort_key() == key {
        lemma_without_key(back, key);
        assert(with_key(front, key) + Seq::<T>::empty() =~= with_key(front, key));
        assert(with_key(front, key).push(item) + Seq::<T>::empty() =~= with_key(front, key).push(
            item,
        ));
    }
}

/// Sorted lists in which items with equal keys stand in the same order are the same.
pub proof fn stable_sorting_is_determined<T: Sortable>(a: Seq<T>, b: Seq<T>)
    requires
        sorted(a),
        sorted(b),
        keeps_order(a, b),
    ensures
        a == b,
    decreases a.len() + b.len(),
{
    if a.len() == 0 || b.len() == 0 {
        if a.len() > 0 {
            lemma_last_has_its_key(a, b);
        }
        if b.len() > 0 {
            lemma_last_has_its_key(b, a);
        }
        assert(a =~= b);
    } else {
        let x = a.last();
        let y = b.last();
        assert(a.drop_last().push(x) =~= a);
        assert(b.drop_last().push(y) =~= b);
        lemma_last_has_its_key(a, b);
        lemma_last_has_its_key(b, a);
        lemma_key_total(x.sort_key(), y.sort_key());
        lemma_with_key_push(a.drop_last(), x, x.sort_key());
        lemma_with_key_push(b.drop_last(), y, x.sort_key());
        assert(with_key(a, x.sort_key()) == with_key(b, x.sort_key()));
        assert(with_key(a, x.sort_key()).last() == x);
        assert(with_key(b, x.sort_key()).last() == y);
        assert forall|key: SortKey| #[trigger]
            with_key(b.drop_last(), key) == with_key(a.drop_last(), key) by {
            lemma_with_key_push(a.drop_last(), x, key);
            lemma_with_key_push(b.drop_last(), x, key);
            assert(with_key(b, key) == with_key(a, key));
            assert(with_key(a.drop_last(), key).push(x).drop_last() =~= with_key(
                a.drop_last(),
                key,
            ));
            assert(with_key(b.drop_last(), key).push(x).drop_last() =~= with_key(
                b.drop_last(),
                key,
            ));
        }
        stable_sorting_is_determined(a.drop_last(), b.drop_last());
    }
}

/// No item of a sorted list goes behind the last one of another with the same items.
proof fn lemma_last_has_its_key<T: Sortable>(a: Seq<T>, b: Seq<T>)
    requires
        a.len() > 0,
        sorted(b),
        forall|key: SortKey| #[trigger] with_key(b, key) == with_key(a, key),
    ensures
        b.len() > 0,
        !key_less(b.last().sort_key(), a.last().sort_key()),
{
    let key = a.last().sort_key();
    assert(a.drop_last().push(a.last()) =~= a);
    lemma_with_key_push(a.drop_last(), a.last(), key);
    assert(with_key(b, key).len() > 0);
    if forall|i: int| 0 <= i < b.len() ==> (#[trigger] b[i]).sort_key() != key {
        lemma_without_key(b, key);
    }
    let i = choose|i: int| 0 <= i < b.len() && (#[trigger] b[i]).sort_key() == key;
    if i < b.len() - 1 {
        assert(!key_less(b[b.len() - 1].sort_key(), b[i].sort_key()));
    } else {
        lemma_key_irreflexive(key);
    }
}

/// Puts an item behind all those in a sorted list that it does not precede.
fn insert_sorted<T: Sortable>(list: &mut Vec<T>, item: T)
    requires
        sorted(old(list)@),
    ensures
        sorted(final(list)@),
        final(list)@.to_multiset() == old(list)@.to_multiset().insert(item),
        keeps_order(old(list)@.push(item), final(list)@),
{
    let mut at: usize = list.len();
    while at > 0 && item.precedes(&list[at - 1])
        invariant
            at <= list@.len(),
            sorted(list@),
            list@ == old(list)@,
            forall|i: int|
                at <= i < list@.len() ==> key_less(item.sort_key(), #[trigger] list@[i].sort_key()),
        decreases at,
    {
        at = at - 1;
    }
    let ghost s = list@;
    let ghost key = item.sort_key();
    proof {
        assert forall|i: int| 0 <= i < at implies !key_less(key, #[trigger] s[i].sort_key()) by {
            if i < at - 1 && key_less(key, s[i].sort_key()) {
                let p = s[at - 1].sort_key();
                lemma_key_total(p, s[i].sort_key());
                if p != s[i].sort_key() {
                    lemma_key_transitive(key, s[i].sort_key(), p);
                }
            }
        }
        let t = s.insert(at as int, item);
        assert forall|i: int, j: int| 0 <= i < j < t.len() implies !key_less(
            #[trigger] t[j].sort_key(),
            #[trigger] t[i].sort_key(),
        ) by {
            let x = if i < at {
                i
            } else {
                i - 1
            };
            let y = if j < at {
                j
            } else {
                j - 1
            };
            if i != at {
                assert(t[i] == s[x]);
            }
            if j != at {
                assert(t[j] == s[y]);
            }
            if i == at {
                assert(key_less(key, s[y].sort_key()));
                if key_less(s[y].sort_key(), key) {
                    lemma_key_transitive(key, s[y].sort_key(), key);
                    lemma_key_irreflexive(key);
                }
            } else if j == at {
                assert(!key_less(key, s[x].sort_key()));
            } else {
                assert(!key_less(s[y].sort_key(), s[x].sort_key()));
            }
        }
        vstd::seq_lib::to_multiset_insert(s, at as int, item);
        assert forall|i: int| at <= i < s.len() implies (#[trigger] s[i]).sort_key() != key by {
            lemma_key_irreflexive(key);
        }
        assert forall|k: SortKey| #[trigger] with_key(t, k) == with_key(s.push(item), k) by {
            lemma_with_key_insert(s, at as int, item, k);
        }
    }
    list.insert(at, item);
}

/// The items sorted by key, none lost and none added. Items with equal keys keep their
/// order.
pub fn sort<T: Sortable>(items: Vec<T>) -> (r: Vec<T>)
    ensures
        sorted(r@),
        r@.to_multiset() == items@.to_multiset(),
        keeps_order(items@, r@),
{
    let mut out: Vec<T> = Vec::new();
    let ghost all = items@;
    assert(all.take(0) =~= out@);
    for item in iter: items
        invariant
            iter.seq() == all,
            sorted(out@),
            out@.to_multiset() == all.take(iter.index() as int).to_multiset(),
            keeps_order(all.take(iter.index() as int), out@),
    {
        let ghost n = iter.index() as int;
        let ghost before = out@;
        assert(all.take(n + 1) =~= all.take(n).push(item));
        proof {
            broadcast use vstd::seq_lib::group_to_multiset_ensures;
        }
        insert_sorted(&mut out, item);
        assert forall|key: SortKey| #[trigger]
            with_key(out@, key) == with_key(all.take(n + 1), key) by {
            lemma_with_key_push(before, item, key);
            lemma_with_key_push(all.take(n), item, key);
            assert(with_key(before, key) == with_key(all.take(n), key));
            assert(with_key(out@, key) == with_key(before.push(item), key));
        }
    }
    assert(all.take(all.len() as int) =~= all);
    out
}

// ---------------------------------------------------------------------------
// Texts
// ---------------------------------------------------------------------------

/// What a text is sorted by: itself.
pub open spec fn name_key(s: Seq<char>) -> SortKey {
    SortKey { major: 0, first: s, second: seq![], third: seq![], minor: 0 }
}

struct ByName(String);

impl Sortable for ByName {
    closed spec fn sort_key(&self) -> SortKey {
        name_key(self.0@)
    }

    fn precedes(&self, other: &Self) -> (r: bool) {
        proof {
            lemma_lex_irreflexive(self.0@);
        }
        str_less(self.0.as_str(), other.0.as_str())
    }
}

/// Texts in their order, each once.
pub fn sorted_texts(names: Vec<String>) -> (r: Vec<String>)
    ensures
        sorted_unique_by(strings(names@), strings(r@), |s: Seq<char>| name_key(s)),
{
    let ghost all = names@;
    let mut items: Vec<ByName> = Vec::new();
    for name in iter: names
        invariant
            iter.seq() == all,
            items@.len() == iter.index(),
            forall|i: int| 0 <= i < items@.len() ==> (#[trigger] items@[i]).0 == all[i],
    {
        items.push(ByName(name));
    }
    let ghost before = items@;
    let sorted = sorted_unique(items);
    let ghost after = sorted@;
    let mut out: Vec<String> = Vec::new();
    for item in iter: sorted
        invariant
            iter.seq() == after,
            out@.len() == iter.index(),
            forall|i: int| 0 <= i < out@.len() ==> #[trigger] out@[i] == after[i].0,
    {
        out.push(item.0);
    }
    proof {
        let f = |t: ByName| t.0@;
        let key = |s: Seq<char>| name_key(s);
        lemma_sorted_views(before, after, f, key);
        assert(before.map_values(f) =~= strings(all));
        assert(after.map_values(f) =~= strings(out@));
    }
    out
}

} // verus!
