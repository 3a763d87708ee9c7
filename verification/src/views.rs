//! Lists and options, seen through what their elements stand for.
use vstd::prelude::*;

verus! {

/// What the elements of a list stand for.
pub open spec fn views<T: View>(list: Seq<T>) -> Seq<T::V> {
    list.map_values(|element: T| element@)
}

/// What an optional element stands for.
pub open spec fn option_view<T: View>(element: Option<T>) -> Option<T::V> {
    match element {
        Some(element) => Some(element@),
        None => None,
    }
}

pub proof fn lemma_views_push<T: View>(list: Seq<T>, element: T)
    ensures
        views(list.push(element)) == views(list).push(element@),
{
    assert(views(list.push(element)) =~= views(list).push(element@));
}

} // verus!
