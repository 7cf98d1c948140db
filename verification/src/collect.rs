//! Selecting and converting the elements of a sequence, in order.

use vstd::prelude::*;

verus! {

/// What `f` yields for the first `n` elements of `s`, in order, leaving out
/// the elements for which it yields nothing.
pub open spec fn filter_map_first<A, B>(s: Seq<A>, f: spec_fn(A) -> Option<B>, n: nat) -> Seq<B>
    decreases n,
{
    if n == 0 || n > s.len() {
        Seq::empty()
    } else {
        let earlier = filter_map_first(s, f, (n - 1) as nat);
        match f(s[n - 1]) {
            Some(b) => earlier.push(b),
            None => earlier,
        }
    }
}

/// What `f` yields for the elements of `s`, in order, leaving out the
/// elements for which it yields nothing.
pub open spec fn filter_map<A, B>(s: Seq<A>, f: spec_fn(A) -> Option<B>) -> Seq<B> {
    filter_map_first(s, f, s.len())
}

/// Appends the elements of `src` to `out`.
pub fn append_all<T: DeepView>(out: &mut Vec<T>, src: Vec<T>)
    ensures
        final(out).deep_view() == old(out).deep_view() + src.deep_view(),
{
    let mut src = src;
    let ghost added = src.deep_view();
    let ghost before = out.deep_view();
    out.append(&mut src);
    assert(out.deep_view() =~= before + added);
}

} // verus!
