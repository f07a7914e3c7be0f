//! Ascending order of lengths.
use vstd::prelude::*;
use vstd::relations::*;
use vstd::seq_lib::*;

verus! {

/// The elements of `s` in ascending order.
pub open spec fn ascending(s: Seq<usize>) -> Seq<usize> {
    s.sort_by(|a: usize, b: usize| a <= b)
}

/// `slice::sort_unstable` on a vector of `usize`: the elements stay the same,
/// counted with repetitions, and end in ascending order.
#[verifier::external_body]
fn std_sort(v: &mut Vec<usize>)
    ensures
        final(v)@.to_multiset() == old(v)@.to_multiset(),
        sorted_by(final(v)@, |a: usize, b: usize| a <= b),
{
    v.sort_unstable();
}

/// What sorting does: length and elements stay, and the order is ascending.
pub proof fn lemma_ascending(s: Seq<usize>)
    ensures
        ascending(s).len() == s.len(),
        ascending(s).to_multiset() == s.to_multiset(),
        forall|i: int, j: int|
            0 <= i <= j < s.len() ==> #[trigger] ascending(s)[i] <= #[trigger] ascending(s)[j],
        forall|i: int| 0 <= i < s.len() ==> ascending(s).contains(#[trigger] s[i]),
        forall|i: int| 0 <= i < s.len() ==> s.contains(#[trigger] ascending(s)[i]),
{
    broadcast use vstd::seq_lib::group_to_multiset_ensures;

    let leq = |a: usize, b: usize| a <= b;
    s.lemma_sort_by_ensures(leq);
    let t = ascending(s);
    assert(t.len() == t.to_multiset().len());
    assert(s.len() == s.to_multiset().len());
    assert forall|i: int, j: int| 0 <= i <= j < s.len() implies #[trigger] t[i] <= #[trigger] t[j] by {
        if i < j {
            assert(leq(t[i], t[j]));
        }
    }
    assert forall|i: int| 0 <= i < s.len() implies t.contains(#[trigger] s[i]) by {
        assert(s.contains(s[i]));
        assert(s.to_multiset().count(s[i]) > 0);
        assert(t.to_multiset().count(s[i]) > 0);
    }
    assert forall|i: int| 0 <= i < s.len() implies s.contains(#[trigger] t[i]) by {
        assert(t.contains(t[i]));
        assert(t.to_multiset().count(t[i]) > 0);
    }
}

/// A sorted copy of `s`.
pub fn sorted_copy(s: &[usize]) -> (v: Vec<usize>)
    ensures
        v@ == ascending(s@),
{
    let mut v: Vec<usize> = Vec::new();
    let mut i: usize = 0;
    while i < s.len()
        invariant
            i <= s@.len(),
            v@ == s@.take(i as int),
        decreases s@.len() - i,
    {
        v.push(s[i]);
        i = i + 1;
        assert(v@ =~= s@.take(i as int));
    }
    assert(v@ =~= s@);
    std_sort(&mut v);
    proof {
        let leq = |a: usize, b: usize| a <= b;
        s@.lemma_sort_by_ensures(leq);
        lemma_sorted_unique(v@, s@.sort_by(leq), leq);
    }
    v
}

} // verus!
