//! Facts about sequences that several modules share.

use vstd::prelude::*;

verus! {

/// Where the first element with `p` stands.
pub open spec fn first_index<A>(s: Seq<A>, p: spec_fn(A) -> bool) -> Option<int>
    decreases s.len(),
{
    if s.len() == 0 {
        None
    } else if p(s[0]) {
        Some(0)
    } else {
        match first_index(s.drop_first(), p) {
            Some(index) => Some(index + 1),
            None => None,
        }
    }
}

/// A first element has `p`, and none before it does; without one, none does.
pub proof fn lemma_first_index<A>(s: Seq<A>, p: spec_fn(A) -> bool)
    ensures
        match first_index(s, p) {
            Some(index) => {
                &&& 0 <= index < s.len()
                &&& p(s[index])
                &&& forall|i: int| 0 <= i < index ==> !p(#[trigger] s[i])
            },
            None => forall|i: int| 0 <= i < s.len() ==> !p(#[trigger] s[i]),
        },
    decreases s.len(),
{
    if s.len() > 0 && !p(s[0]) {
        let rest = s.drop_first();
        lemma_first_index(rest, p);
        assert forall|i: int|
            0 < i < s.len() && (first_index(rest, p) is None || i - 1 < first_index(
                rest,
                p,
            )->0) implies !p(#[trigger] s[i]) by {
            assert(s[i] == rest[i - 1]);
        }
    }
}

/// The element with `p` that no other precedes is the first one.
pub proof fn lemma_is_first_index<A>(s: Seq<A>, p: spec_fn(A) -> bool, index: int)
    requires
        0 <= index < s.len(),
        p(s[index]),
        forall|i: int| 0 <= i < index ==> !p(#[trigger] s[i]),
    ensures
        first_index(s, p) == Some(index),
{
    lemma_first_index(s, p);
    let found = first_index(s, p);
    if found is None {
        assert(!p(s[index]));
    } else if found->0 < index {
        assert(!p(s[found->0]));
    } else if found->0 > index {
        assert(!p(s[index]));
    }
}

/// Where no element has `p`, there is no first one.
pub proof fn lemma_no_first_index<A>(s: Seq<A>, p: spec_fn(A) -> bool)
    requires
        forall|i: int| 0 <= i < s.len() ==> !p(#[trigger] s[i]),
    ensures
        first_index(s, p) is None,
{
    lemma_first_index(s, p);
}

/// The elements with `p`, in order.
pub open spec fn selected<A>(s: Seq<A>, p: spec_fn(A) -> bool) -> Seq<A>
    decreases s.len(),
{
    if s.len() == 0 {
        Seq::empty()
    } else if p(s.last()) {
        selected(s.drop_last(), p).push(s.last())
    } else {
        selected(s.drop_last(), p)
    }
}

/// The next element is selected behind the earlier ones, if it has `p`.
pub proof fn lemma_selected_next<A>(s: Seq<A>, p: spec_fn(A) -> bool, index: int)
    requires
        0 <= index < s.len(),
    ensures
        selected(s.take(index + 1), p) == (if p(s[index]) {
            selected(s.take(index), p).push(s[index])
        } else {
            selected(s.take(index), p)
        }),
{
    assert(s.take(index + 1).drop_last() =~= s.take(index));
}

/// An element with `p` stands among the selected ones behind those before it.
pub proof fn lemma_selected_at<A>(s: Seq<A>, p: spec_fn(A) -> bool, index: int)
    requires
        0 <= index < s.len(),
        p(s[index]),
    ensures
        selected(s.take(index), p).len() < selected(s, p).len(),
        selected(s, p)[selected(s.take(index), p).len() as int] == s[index],
    decreases s.len(),
{
    let rest = s.drop_last();
    if index < rest.len() {
        lemma_selected_at(rest, p, index);
        assert(rest.take(index) =~= s.take(index));
    } else {
        assert(s.take(index) =~= rest);
    }
}

/// The elements with `p` keep their order.
pub proof fn lemma_selected_order<A>(s: Seq<A>, p: spec_fn(A) -> bool, i: int, j: int)
    requires
        0 <= i < j < s.len(),
        p(s[i]),
    ensures
        selected(s.take(i), p).len() < selected(s.take(j), p).len(),
{
    lemma_selected_at(s.take(j), p, i);
    assert(s.take(j).take(i) =~= s.take(i));
}

} // verus!
