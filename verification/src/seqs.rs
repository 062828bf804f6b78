//! Facts about sequences that the modules share.
use vstd::prelude::*;

verus! {

/// Filtering one element more.
pub proof fn filter_step<A>(s: Seq<A>, i: int, p: spec_fn(A) -> bool)
    requires
        0 <= i < s.len(),
    ensures
        s.take(i + 1).filter(p) == (if p(s[i]) {
            s.take(i).filter(p).push(s[i])
        } else {
            s.take(i).filter(p)
        }),
{
    reveal(Seq::filter);
    assert(s.take(i + 1).drop_last() =~= s.take(i));
    assert(s.take(i + 1).last() == s[i]);
}

/// What a filtered sequence holds.
pub proof fn filter_holds<A>(s: Seq<A>, p: spec_fn(A) -> bool, x: A)
    ensures
        s.filter(p).contains(x) <==> s.contains(x) && p(x),
    decreases s.len(),
{
    reveal(Seq::filter);
    if s.len() > 0 {
        let t = s.drop_last();
        filter_holds(t, p, x);
        assert(s =~= t.push(s.last()));
        push_holds(t, s.last(), x);
        push_holds(t.filter(p), s.last(), x);
    }
}

pub proof fn push_holds<A>(s: Seq<A>, y: A, x: A)
    ensures
        s.push(y).contains(x) <==> s.contains(x) || x == y,
{
    if s.contains(x) {
        let i = choose|i: int| 0 <= i < s.len() && s[i] == x;
        assert(s.push(y)[i] == x);
    }
    if x == y {
        assert(s.push(y)[s.len() as int] == x);
    }
    if s.push(y).contains(x) {
        let i = choose|i: int| 0 <= i < s.push(y).len() && s.push(y)[i] == x;
        if i < s.len() {
            assert(s[i] == x);
        }
    }
}

/// The set of a filtered sequence is the filtered set.
pub proof fn filter_to_set<A>(s: Seq<A>, p: spec_fn(A) -> bool)
    ensures
        s.filter(p).to_set() == s.to_set().filter(p),
{
    assert forall|x: A| s.filter(p).to_set().contains(x) == s.to_set().filter(p).contains(x) by {
        filter_holds(s, p, x);
    }
    assert(s.filter(p).to_set() =~= s.to_set().filter(p));
}

/// The set of a sequence with one element more.
pub proof fn push_to_set<A>(s: Seq<A>, y: A)
    ensures
        s.push(y).to_set() == s.to_set().insert(y),
{
    assert forall|x: A| s.push(y).to_set().contains(x) == s.to_set().insert(y).contains(x) by {
        push_holds(s, y, x);
    }
    assert(s.push(y).to_set() =~= s.to_set().insert(y));
}

} // verus!
