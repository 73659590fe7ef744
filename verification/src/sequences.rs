//! Sequences of sequences, joined end to end.

use vstd::prelude::*;

verus! {

/// The parts, one after the other.
pub open spec fn joined<A>(parts: Seq<Seq<A>>) -> Seq<A>
    decreases parts.len(),
{
    if parts.len() == 0 {
        Seq::empty()
    } else {
        joined(parts.drop_last()) + parts.last()
    }
}

pub(crate) proof fn lemma_joined_push<A>(parts: Seq<Seq<A>>, part: Seq<A>)
    ensures
        joined(parts.push(part)) == joined(parts) + part,
{
    assert(parts.push(part).drop_last() =~= parts);
}

/// What is joined is what is in a part.
pub(crate) proof fn lemma_joined_contains<A>(parts: Seq<Seq<A>>, x: A)
    ensures
        joined(parts).contains(x) <==> exists|k: int| 0 <= k < parts.len() && (#[trigger] parts[k]).contains(x),
    decreases parts.len(),
{
    if parts.len() > 0 {
        let before = parts.drop_last();
        lemma_joined_contains(before, x);
        let (a, b) = (joined(before), parts.last());
        if joined(parts).contains(x) {
            let i = choose|i: int| 0 <= i < joined(parts).len() && joined(parts)[i] == x;
            if i < a.len() {
                assert(a[i] == x);
                let k = choose|k: int| 0 <= k < before.len() && (#[trigger] before[k]).contains(x);
                assert(parts[k].contains(x));
            } else {
                assert(b[i - a.len()] == x);
                assert(parts[parts.len() - 1].contains(x));
            }
        }
        if exists|k: int| 0 <= k < parts.len() && (#[trigger] parts[k]).contains(x) {
            let k = choose|k: int| 0 <= k < parts.len() && (#[trigger] parts[k]).contains(x);
            if k < before.len() {
                assert(before[k].contains(x));
                let i = choose|i: int| 0 <= i < a.len() && a[i] == x;
                assert(joined(parts)[i] == x);
            } else {
                let i = choose|i: int| 0 <= i < b.len() && b[i] == x;
                assert(joined(parts)[a.len() + i] == x);
            }
        }
    }
}

/// Joining commutes with changing each element.
pub(crate) proof fn lemma_joined_map<A, B>(parts: Seq<Seq<A>>, images: Seq<Seq<B>>, f: spec_fn(A) -> B)
    requires
        parts.len() == images.len(),
        forall|k: int| 0 <= k < parts.len() ==> (#[trigger] parts[k]).map_values(f) == images[k],
    ensures
        joined(parts).map_values(f) == joined(images),
    decreases parts.len(),
{
    if parts.len() > 0 {
        let last = parts.len() - 1;
        assert forall|k: int| 0 <= k < last implies (#[trigger] parts.drop_last()[k]).map_values(f)
            == images.drop_last()[k] by {
            assert(parts.drop_last()[k] == parts[k]);
        }
        lemma_joined_map(parts.drop_last(), images.drop_last(), f);
        assert(parts[last].map_values(f) == images[last]);
    }
    assert(joined(parts).map_values(f) =~= joined(images));
}

} // verus!
