use vstd::prelude::*;
use topological_sort::TopologicalSort;

verus! {

/// The sorter of the `topological-sort` crate, opaque here; `pending`
/// describes what it holds.
#[verifier::external_type_specification]
#[verifier::external_body]
#[verifier::reject_recursive_types(T)]
pub struct ExTopologicalSort<T>(TopologicalSort<T>);

/// The items still held by a sorter, each with the items that must be taken
/// out before it.
pub uninterp spec fn pending(t: TopologicalSort<usize>) -> Map<usize, Set<usize>>;

/// What an empty sorter holds.
pub open spec fn no_items() -> Map<usize, Set<usize>> {
    Map::empty()
}

/// `m` with `x` taken out, and `x` no longer holding back any other item.
pub open spec fn without(m: Map<usize, Set<usize>>, x: usize) -> Map<usize, Set<usize>> {
    Map::new(|k: usize| m.contains_key(k) && k != x, |k: usize| m[k].remove(x))
}

/// Relies on `TopologicalSort::new`: a sorter that holds nothing.
#[verifier::external_body]
pub(crate) fn sorter_new() -> (r: TopologicalSort<usize>)
    ensures
        pending(r) == no_items(),
{
    TopologicalSort::new()
}

/// Relies on `TopologicalSort::insert`: adds `item` with nothing before it,
/// unless it is already held.
#[verifier::external_body]
pub(crate) fn sorter_insert(t: &mut TopologicalSort<usize>, item: usize)
    ensures
        pending(*final(t)) == if pending(*old(t)).contains_key(item) {
            pending(*old(t))
        } else {
            pending(*old(t)).insert(item, Set::empty())
        },
{
    t.insert(item);
}

/// Relies on `TopologicalSort::add_dependency`: both items are held
/// afterwards, and `prec` must come out before `succ`.
#[verifier::external_body]
pub(crate) fn sorter_add_dependency(t: &mut TopologicalSort<usize>, prec: usize, succ: usize)
    ensures
        ({
            let m = if pending(*old(t)).contains_key(prec) {
                pending(*old(t))
            } else {
                pending(*old(t)).insert(prec, Set::empty())
            };
            let before = if m.contains_key(succ) {
                m[succ]
            } else {
                Set::empty()
            };
            pending(*final(t)) == m.insert(succ, before.insert(prec))
        }),
{
    t.add_dependency(prec, succ);
}

/// Relies on `TopologicalSort::pop`: takes out some item with nothing left
/// before it, and returns `None` when no such item is held.
#[verifier::external_body]
pub(crate) fn sorter_pop(t: &mut TopologicalSort<usize>) -> (r: Option<usize>)
    ensures
        match r {
            Some(x) => pending(*old(t)).contains_key(x) && pending(*old(t))[x].is_empty() && pending(
                *final(t),
            ) == without(pending(*old(t)), x),
            None => pending(*final(t)) == pending(*old(t)) && forall|k: usize| #[trigger]
                pending(*old(t)).contains_key(k) ==> !pending(*old(t))[k].is_empty(),
        },
{
    t.pop()
}

/// Relies on `TopologicalSort::len`: the number of items held.
#[verifier::external_body]
pub(crate) fn sorter_len(t: &TopologicalSort<usize>) -> (r: usize)
    ensures
        r == pending(*t).dom().len(),
{
    t.len()
}

} // verus!
