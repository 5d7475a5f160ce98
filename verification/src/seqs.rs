//! Sequences filtered and mapped in one pass.
use vstd::prelude::*;

verus! {

/// What `f` makes of the items of `s`, in order, without those it drops.
pub open spec fn kept<A, B>(s: Seq<A>, f: spec_fn(A) -> Option<B>) -> Seq<B>
    decreases s.len(),
{
    if s.len() == 0 {
        seq![]
    } else {
        match f(s.last()) {
            Some(b) => kept(s.drop_last(), f).push(b),
            None => kept(s.drop_last(), f),
        }
    }
}

/// What one more item adds.
pub proof fn lemma_kept_step<A, B>(s: Seq<A>, f: spec_fn(A) -> Option<B>, i: int)
    requires
        0 <= i < s.len(),
    ensures
        kept(s.take(i + 1), f) == match f(s[i]) {
            Some(b) => kept(s.take(i), f).push(b),
            None => kept(s.take(i), f),
        },
{
    assert(s.take(i + 1).drop_last() =~= s.take(i));
    assert(s.take(i + 1).last() == s[i]);
}

/// Every item that is kept comes from the list.
pub proof fn lemma_kept_from<A, B>(s: Seq<A>, f: spec_fn(A) -> Option<B>, j: int)
    requires
        0 <= j < kept(s, f).len(),
    ensures
        exists|i: int| 0 <= i < s.len() && f(#[trigger] s[i]) == Some(kept(s, f)[j]),
    decreases s.len(),
{
    let rest = s.drop_last();
    if j < kept(rest, f).len() {
        lemma_kept_from(rest, f, j);
        let i = choose|i: int| 0 <= i < rest.len() && f(#[trigger] rest[i]) == Some(kept(rest, f)[j]);
        assert(s[i] == rest[i]);
    } else {
        assert(f(s[s.len() - 1]) == Some(kept(s, f)[j]));
    }
}

/// What `f` makes of every item, unless it makes nothing of some item.
pub open spec fn all_of<A, B>(s: Seq<A>, f: spec_fn(A) -> Option<B>) -> Option<Seq<B>> {
    if forall|i: int| 0 <= i < s.len() ==> f(#[trigger] s[i]) is Some {
        Some(Seq::new(s.len(), |i: int| f(s[i])->0))
    } else {
        None
    }
}

} // verus!
