//! Small sequence lemmas shared by the state modules: how `filter` and
//! `map_values` act on a sequence extended by one element, the shape every
//! table-building loop here has.

use vstd::prelude::*;

verus! {

/// Filtering a pushed sequence filters the element after the prefix.
pub(crate) proof fn lemma_filter_push<A>(s: Seq<A>, pred: spec_fn(A) -> bool, x: A)
    ensures
        s.push(x).filter(pred) == if pred(x) {
            s.filter(pred).push(x)
        } else {
            s.filter(pred)
        },
{
    reveal(Seq::filter);
    assert(s.push(x).drop_last() =~= s);
    if pred(x) {
        assert(s.push(x).filter(pred) =~= s.filter(pred).push(x));
    }
}

/// Mapping a pushed sequence maps the element after the prefix.
pub(crate) proof fn lemma_map_values_push<A, B>(s: Seq<A>, f: spec_fn(A) -> B, x: A)
    ensures
        s.push(x).map_values(f) == s.map_values(f).push(f(x)),
{
    assert(s.push(x).map_values(f) =~= s.map_values(f).push(f(x)));
}

} // verus!
