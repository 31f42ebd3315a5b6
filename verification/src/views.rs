//! Sequences of things with a view, seen through it.

use vstd::prelude::*;

verus! {

/// The views of a sequence's elements, in order.
pub open spec fn views<T: View>(s: Seq<T>) -> Seq<T::V> {
    s.map_values(|x: T| x@)
}

pub broadcast proof fn lemma_views_push<T: View>(s: Seq<T>, x: T)
    ensures
        #[trigger] views(s.push(x)) == views(s).push(x@),
{
    assert(views(s.push(x)) =~= views(s).push(x@));
}

pub broadcast proof fn lemma_views_add<T: View>(a: Seq<T>, b: Seq<T>)
    ensures
        #[trigger] views(a + b) == views(a) + views(b),
{
    assert(views(a + b) =~= views(a) + views(b));
}

/// Appends an element.
pub fn push_view<T: View>(list: &mut Vec<T>, item: T)
    ensures
        views(final(list)@) == views(old(list)@).push(item@),
        final(list)@ == old(list)@.push(item),
{
    proof {
        lemma_views_push(list@, item);
    }
    list.push(item);
}

/// Moves every element of `more` to the end of `list`.
pub fn extend<T: View>(list: &mut Vec<T>, more: Vec<T>)
    ensures
        views(final(list)@) == views(old(list)@) + views(more@),
        final(list)@ == old(list)@ + more@,
{
    let mut rest = more;
    let ghost all = rest@;
    list.append(&mut rest);
    proof {
        lemma_views_add(old(list)@, all);
    }
}

} // verus!
