//! A map keyed by strings, kept as a list of entries in insertion order.
use vstd::prelude::*;

use crate::text::{contains_string, str_eq, strings};

verus! {

/// The position of the first entry under `key`, or the number of entries if
/// there is none.
pub open spec fn position<V>(entries: Seq<(String, V)>, key: Seq<char>) -> int
    decreases entries.len(),
{
    if entries.len() == 0 || entries[0].0@ == key {
        0
    } else {
        1 + position(entries.skip(1), key)
    }
}

/// Whether no two entries have the same key.
pub open spec fn distinct_keys<V>(entries: Seq<(String, V)>) -> bool {
    forall|i: int, j: int|
        0 <= i < j < entries.len() ==> #[trigger] entries[i].0@ != #[trigger] entries[j].0@
}

/// The map that a list of entries stands for.
pub open spec fn map_of<V>(entries: Seq<(String, V)>) -> Map<Seq<char>, V> {
    Map::new(
        |key: Seq<char>| position(entries, key) < entries.len(),
        |key: Seq<char>| entries[position(entries, key)].1,
    )
}

/// What `position` gives.
pub proof fn lemma_position<V>(entries: Seq<(String, V)>, key: Seq<char>)
    ensures
        0 <= position(entries, key) <= entries.len(),
        forall|i: int| 0 <= i < position(entries, key) ==> #[trigger] entries[i].0@ != key,
        position(entries, key) < entries.len() ==> entries[position(entries, key)].0@ == key,
    decreases entries.len(),
{
    if entries.len() > 0 && entries[0].0@ != key {
        let rest = entries.skip(1);
        lemma_position(rest, key);
        assert forall|i: int| 0 <= i < position(entries, key) implies #[trigger] entries[i].0@
            != key by {
            if i > 0 {
                assert(rest[i - 1] == entries[i]);
            }
        }
    }
}

/// The only position that `position` can give.
pub proof fn lemma_position_at<V>(entries: Seq<(String, V)>, key: Seq<char>, at: int)
    requires
        0 <= at <= entries.len(),
        forall|i: int| 0 <= i < at ==> #[trigger] entries[i].0@ != key,
        at < entries.len() ==> entries[at].0@ == key,
    ensures
        position(entries, key) == at,
{
    lemma_position(entries, key);
    if position(entries, key) < at {
        assert(entries[position(entries, key)].0@ != key);
    }
}

/// What an insertion does to the position of a key.
proof fn lemma_insert<V>(before: Seq<(String, V)>, after: Seq<(String, V)>, key: String, value: V)
    requires
        ({
            let at = position(before, key@);
            after == if at < before.len() {
                before.update(at, (key, value))
            } else {
                before.push((key, value))
            }
        }),
    ensures
        map_of(after) == map_of(before).insert(key@, value),
        distinct_keys(before) ==> distinct_keys(after),
{
    let at = position(before, key@);
    lemma_position(before, key@);
    lemma_position_at(after, key@, at);
    assert forall|k: Seq<char>| k != key@ implies {
        &&& (position(after, k) < after.len() <==> position(before, k) < before.len())
        &&& position(before, k) < before.len() ==> position(after, k) == position(before, k)
    } by {
        lemma_position(before, k);
        let p = position(before, k);
        if p < before.len() {
            assert forall|i: int| 0 <= i < p implies #[trigger] after[i].0@ != k by {
                assert(before[i].0@ != k);
            }
            assert(p != at);
            lemma_position_at(after, k, p);
        } else {
            assert forall|i: int| 0 <= i < after.len() implies #[trigger] after[i].0@ != k by {
                if i != at {
                    assert(before[i].0@ != k);
                }
            }
            lemma_position_at(after, k, after.len() as int);
        }
    }
    assert(map_of(after) =~= map_of(before).insert(key@, value)) by {
        assert forall|k: Seq<char>| #[trigger]
            map_of(after).contains_key(k) == map_of(before).insert(key@, value).contains_key(
            k,
        ) by {
            if k != key@ {
                lemma_position(before, k);
                lemma_position(after, k);
            }
        }
        assert forall|k: Seq<char>| #[trigger] map_of(after).contains_key(k) implies map_of(
            after,
        )[k] == map_of(before).insert(key@, value)[k] by {
            if k != key@ {
                lemma_position(before, k);
                lemma_position(after, k);
            }
        }
    }
}

/// The keys that are in a list, or those that are not.
pub open spec fn listed_keys(keys: Seq<Seq<char>>, listed: bool) -> Set<Seq<char>> {
    Set::new(|k: Seq<char>| keys.contains(k) == listed)
}

/// Dropping entries by their keys restricts the map.
proof fn lemma_filtered<V>(entries: Seq<(String, V)>, keys: Seq<Seq<char>>, listed: bool)
    ensures
        ({
            let want = |e: (String, V)| keys.contains(e.0@) == listed;
            &&& map_of(entries.filter(want)) == map_of(entries).restrict(listed_keys(keys, listed))
            &&& distinct_keys(entries) ==> distinct_keys(entries.filter(want))
        }),
    decreases entries.len(),
{
    reveal(Seq::filter);
    let want = |e: (String, V)| keys.contains(e.0@) == listed;
    let out = entries.filter(want);
    if entries.len() == 0 {
        assert(map_of(out) =~= map_of(entries).restrict(listed_keys(keys, listed)));
    } else {
        let init = entries.drop_last();
        let last = entries.last();
        lemma_filtered(init, keys, listed);
        let kept = init.filter(want);
        lemma_pushed(init, last);
        assert(init.push(last) =~= entries);
        if want(last) {
            lemma_pushed(kept, last);
        }
        assert(map_of(out) =~= map_of(entries).restrict(listed_keys(keys, listed)));
        if distinct_keys(entries) {
            assert forall|i: int, j: int| 0 <= i < j < init.len() implies #[trigger] init[i].0@
                != #[trigger] init[j].0@ by {
                assert(init[i] == entries[i] && init[j] == entries[j]);
            }
            if want(last) {
                assert forall|i: int| 0 <= i < kept.len() implies kept[i].0@ != last.0@ by {
                    init.lemma_filter_contains_rev(want, kept[i]);
                    assert(kept.contains(kept[i]));
                    let k = choose|k: int| 0 <= k < init.len() && init[k] == kept[i];
                    assert(entries[k].0@ != entries[entries.len() - 1].0@);
                }
            }
        }
    }
}

/// One more entry: its key gets its value, unless it has one.
pub proof fn lemma_pushed<V>(entries: Seq<(String, V)>, entry: (String, V))
    ensures
        ({
            let m = map_of(entries);
            map_of(entries.push(entry)) == if m.contains_key(entry.0@) {
                m
            } else {
                m.insert(entry.0@, entry.1)
            }
        }),
{
    let after = entries.push(entry);
    let m = map_of(entries);
    let key = entry.0@;
    lemma_position(entries, key);
    if m.contains_key(key) {
        assert forall|k: Seq<char>| true implies (position(after, k) < after.len() <==> #[trigger] position(
            entries,
            k,
        ) < entries.len()) && (position(entries, k) < entries.len() ==> position(after, k)
            == position(entries, k)) by {
            lemma_position(entries, k);
            let p = position(entries, k);
            assert forall|i: int| 0 <= i < p implies #[trigger] after[i].0@ != k by {
                assert(entries[i].0@ != k);
            }
            if p < entries.len() {
                lemma_position_at(after, k, p);
            } else {
                assert(k != key);
                assert forall|i: int| 0 <= i < after.len() implies #[trigger] after[i].0@ != k by {
                    if i < entries.len() {
                        assert(entries[i].0@ != k);
                    }
                }
                lemma_position_at(after, k, after.len() as int);
            }
        }
        assert(map_of(after) =~= m) by {
            assert forall|k: Seq<char>| #[trigger] map_of(after).contains_key(k) == m.contains_key(
                k,
            ) by {
                assert(position(entries, k) == position(entries, k));
            }
            assert forall|k: Seq<char>| #[trigger] map_of(after).contains_key(k) implies map_of(
                after,
            )[k] == m[k] by {
                lemma_position(entries, k);
                assert(position(entries, k) == position(entries, k));
            }
        }
    } else {
        lemma_insert(entries, after, entry.0, entry.1);
    }
}

/// A map keyed by strings, held as a list of entries; the value of a key is
/// that of its first entry. Insertion keeps the place of a key that is there.
pub struct StrMap<V> {
    pub entries: Vec<(String, V)>,
}

impl<V> View for StrMap<V> {
    type V = Map<Seq<char>, V>;

    open spec fn view(&self) -> Map<Seq<char>, V> {
        map_of(self.entries@)
    }
}

impl<V> StrMap<V> {
    /// Whether no two entries have the same key.
    pub open spec fn distinct(&self) -> bool {
        distinct_keys(self.entries@)
    }

    /// The map without entries.
    pub fn new() -> (m: Self)
        ensures
            m@ == Map::<Seq<char>, V>::empty(),
            m.entries@.len() == 0,
            m.distinct(),
    {
        let m = StrMap { entries: Vec::new() };
        assert(m@ =~= Map::<Seq<char>, V>::empty());
        m
    }

    /// Whether there is no entry.
    pub fn is_empty(&self) -> (r: bool)
        ensures
            r == (self.entries@.len() == 0),
    {
        self.entries.len() == 0
    }

    /// The number of entries.
    pub fn len(&self) -> (n: usize)
        ensures
            n == self.entries@.len(),
    {
        self.entries.len()
    }

    fn find(&self, key: &str) -> (at: usize)
        ensures
            at == position(self.entries@, key@),
            at <= self.entries@.len(),
    {
        let mut i: usize = 0;
        while i < self.entries.len() && !str_eq(self.entries[i].0.as_str(), key)
            invariant
                i <= self.entries@.len(),
                forall|j: int| 0 <= j < i ==> #[trigger] self.entries@[j].0@ != key@,
            decreases self.entries.len() - i,
        {
            i = i + 1;
        }
        proof {
            lemma_position_at(self.entries@, key@, i as int);
        }
        i
    }

    /// Sets the value of a key.
    pub fn insert(&mut self, key: String, value: V)
        ensures
            final(self)@ == old(self)@.insert(key@, value),
            old(self).distinct() ==> final(self).distinct(),
    {
        let at = self.find(key.as_str());
        let ghost before = self.entries@;
        let ghost k = key;
        let ghost v = value;
        if at < self.entries.len() {
            self.entries.set(at, (key, value));
        } else {
            self.entries.push((key, value));
        }
        proof {
            lemma_insert(before, self.entries@, k, v);
        }
    }

    /// The value of a key, if it has one.
    pub fn get(&self, key: &str) -> (r: Option<&V>)
        ensures
            match r {
                Some(v) => self@.contains_key(key@) && self@[key@] == *v,
                None => !self@.contains_key(key@),
            },
    {
        let at = self.find(key);
        if at < self.entries.len() {
            Some(&self.entries[at].1)
        } else {
            None
        }
    }

    /// The value of a key that has one, to change it in place.
    pub fn get_mut(&mut self, key: &str) -> (r: &mut V)
        requires
            old(self)@.contains_key(key@),
        ensures
            *r == old(self)@[key@],
            final(self)@ == old(self)@.insert(key@, *final(r)),
            old(self).distinct() ==> final(self).distinct(),
    {
        let at = self.find(key);
        proof {
            let before = self.entries@;
            lemma_position(before, key@);
            assert forall|v: V| #[trigger]
                map_of(before.update(at as int, (before[at as int].0, v))) == map_of(before).insert(
                    key@,
                    v,
                ) && (distinct_keys(before) ==> distinct_keys(
                before.update(at as int, (before[at as int].0, v)),
            )) by {
                lemma_insert(
                    before,
                    before.update(at as int, (before[at as int].0, v)),
                    before[at as int].0,
                    v,
                );
            }
        }
        &mut self.entries[at].1
    }

    /// The entries whose keys are in the list, or those whose keys are not, in
    /// order.
    pub fn retained(self, keys: &Vec<String>, listed: bool) -> (r: Self)
        ensures
            r@ == self@.restrict(listed_keys(strings(keys@), listed)),
            self.distinct() ==> r.distinct(),
            r.entries@.len() <= self.entries@.len(),
    {
        let ghost all = self.entries@;
        let ghost want = |e: (String, V)| strings(keys@).contains(e.0@) == listed;
        let mut entries: Vec<(String, V)> = Vec::new();
        proof {
            assert(all.take(0).filter(want) =~= seq![]) by {
                reveal(Seq::filter);
            }
        }
        for entry in iter: self.entries
            invariant
                iter.seq() == all,
                want == (|e: (String, V)| strings(keys@).contains(e.0@) == listed),
                entries@ == all.take(iter.index()).filter(want),
                entries@.len() <= iter.index(),
        {
            proof {
                let i = iter.index();
                reveal(Seq::filter);
                assert(all.take(i + 1).drop_last() =~= all.take(i));
                assert(all.take(i + 1).last() == all[i]);
                assert(entry == all[i]);
            }
            if contains_string(keys, entry.0.as_str()) == listed {
                entries.push(entry);
            }
        }
        proof {
            assert(all.take(all.len() as int) =~= all);
            lemma_filtered(all, strings(keys@), listed);
        }
        StrMap { entries }
    }

    /// Whether a key has a value.
    pub fn contains_key(&self, key: &str) -> (r: bool)
        ensures
            r == self@.contains_key(key@),
    {
        self.find(key) < self.entries.len()
    }
}

/// A map whose entries have distinct keys has as many keys as entries.
pub proof fn lemma_map_len<V>(entries: Seq<(String, V)>)
    requires
        distinct_keys(entries),
    ensures
        map_of(entries).dom().finite(),
        map_of(entries).dom().len() == entries.len(),
{
    let keys = entries.map_values(|e: (String, V)| e.0@);
    assert(keys.no_duplicates()) by {
        assert forall|i: int, j: int| 0 <= i < keys.len() && 0 <= j < keys.len() && i != j implies keys[i]
            != keys[j] by {
            if i < j {
                assert(entries[i].0@ != entries[j].0@);
            } else {
                assert(entries[j].0@ != entries[i].0@);
            }
        }
    }
    keys.unique_seq_to_set();
    assert(map_of(entries).dom() =~= keys.to_set()) by {
        assert forall|k: Seq<char>| map_of(entries).dom().contains(k) == keys.to_set().contains(
            k,
        ) by {
            lemma_position(entries, k);
            let p = position(entries, k);
            if p < entries.len() {
                assert(keys[p] == k);
            } else if keys.contains(k) {
                let i = choose|i: int| 0 <= i < keys.len() && keys[i] == k;
                assert(entries[i].0@ == k);
            }
        }
    }
}

/// The value of an entry whose key is distinct from all others is that of its key.
pub proof fn lemma_distinct_entry<V>(entries: Seq<(String, V)>, i: int)
    requires
        distinct_keys(entries),
        0 <= i < entries.len(),
    ensures
        map_of(entries).contains_key(entries[i].0@),
        map_of(entries)[entries[i].0@] == entries[i].1,
{
    assert forall|j: int| 0 <= j < i implies #[trigger] entries[j].0@ != entries[i].0@ by {}
    lemma_position_at(entries, entries[i].0@, i);
}

/// The text under a key, if there is one.
pub open spec fn text_at(m: Map<Seq<char>, String>, key: Seq<char>) -> Option<Seq<char>> {
    if m.contains_key(key) {
        Some(m[key]@)
    } else {
        None
    }
}

/// The texts of a map of strings.
pub open spec fn texts(m: Map<Seq<char>, String>) -> Map<Seq<char>, Seq<char>> {
    m.map_values(|s: String| s@)
}

/// A copy of a map of strings.
pub fn clone_map(m: &StrMap<String>) -> (r: StrMap<String>)
    ensures
        r@ == m@,
        r.entries@ == m.entries@,
{
    let mut entries: Vec<(String, String)> = Vec::new();
    let mut i: usize = 0;
    while i < m.entries.len()
        invariant
            i <= m.entries@.len(),
            entries@ == m.entries@.take(i as int),
        decreases m.entries.len() - i,
    {
        entries.push((m.entries[i].0.clone(), m.entries[i].1.clone()));
        i = i + 1;
        assert(m.entries@.take(i as int) =~= m.entries@.take(i - 1).push(m.entries@[i - 1]));
    }
    assert(m.entries@.take(i as int) =~= m.entries@);
    StrMap { entries }
}

} // verus!
