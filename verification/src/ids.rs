//! Lists keyed by number, each number once.
use vstd::prelude::*;

verus! {

/// The first place of a number from `from` on.
pub open spec fn place_from<V>(s: Seq<(u64, V)>, id: u64, from: int) -> Option<int>
    decreases s.len() - from,
{
    if from < 0 || from >= s.len() {
        None
    } else if s[from].0 == id {
        Some(from)
    } else {
        place_from(s, id, from + 1)
    }
}

pub open spec fn place<V>(s: Seq<(u64, V)>, id: u64) -> Option<int> {
    place_from(s, id, 0)
}

/// What a number stands for.
pub open spec fn value<V>(s: Seq<(u64, V)>, id: u64) -> Option<V> {
    match place(s, id) {
        Some(i) => Some(s[i].1),
        None => None,
    }
}

/// The list with a number standing for a value.
pub open spec fn with_value<V>(s: Seq<(u64, V)>, id: u64, v: V) -> Seq<(u64, V)> {
    match place(s, id) {
        Some(i) => s.update(i, (id, v)),
        None => s.push((id, v)),
    }
}

pub open spec fn other_id<V>(id: u64) -> spec_fn((u64, V)) -> bool {
    |e: (u64, V)| e.0 != id
}

pub open spec fn without<V>(s: Seq<(u64, V)>, id: u64) -> Seq<(u64, V)> {
    s.filter(other_id(id))
}

pub proof fn place_found<V>(s: Seq<(u64, V)>, id: u64, from: int)
    requires
        0 <= from,
    ensures
        place_from(s, id, from) matches Some(i) ==> from <= i < s.len() && s[i].0 == id && forall|
            j: int,
        |
            from <= j < i ==> (#[trigger] s[j]).0 != id,
        place_from(s, id, from) is None ==> forall|j: int|
            from <= j < s.len() ==> (#[trigger] s[j]).0 != id,
    decreases s.len() - from,
{
    if from < s.len() && s[from].0 != id {
        place_found(s, id, from + 1);
    }
}

/// A number that stands somewhere for the first time is found there.
pub proof fn place_is<V>(s: Seq<(u64, V)>, id: u64, at: int)
    requires
        0 <= at < s.len(),
        s[at].0 == id,
        forall|j: int| 0 <= j < at ==> (#[trigger] s[j]).0 != id,
    ensures
        place(s, id) == Some(at),
{
    place_found(s, id, 0);
}

/// A number stands for what it was set to, and the others for what they stood for.
pub proof fn set_then_value<V>(s: Seq<(u64, V)>, id: u64, v: V, other: u64)
    ensures
        value(with_value(s, id, v), id) == Some(v),
        other != id ==> value(with_value(s, id, v), other) == value(s, other),
{
    let t = with_value(s, id, v);
    place_found(s, id, 0);
    place_found(s, other, 0);
    place_found(t, id, 0);
    place_found(t, other, 0);
    match place(s, id) {
        Some(i) => {
            place_is(t, id, i);
        },
        None => {
            place_is(t, id, s.len() as int);
        },
    }
    if other != id {
        match place(s, other) {
            Some(i) => {
                place_is(t, other, i);
            },
            None => {
                if place(t, other) is Some {
                    let k = place(t, other)->0;
                    assert(t[k].0 == other);
                    if k < s.len() {
                        assert(s[k].0 == other);
                    }
                }
            },
        }
    }
}

pub fn find_id<V: DeepView>(list: &Vec<(u64, V)>, id: u64) -> (r: Option<usize>)
    ensures
        r is Some == place(list.deep_view(), id) is Some,
        r matches Some(i) ==> i < list@.len() && place(list.deep_view(), id) == Some(i as int),
{
    let ghost s = list.deep_view();
    let mut i: usize = 0;
    while i < list.len()
        invariant
            i <= list@.len(),
            s == list.deep_view(),
            place_from(s, id, i as int) == place(s, id),
        decreases list@.len() - i,
    {
        assert(s[i as int].0 == list@[i as int].0);
        if list[i].0 == id {
            return Some(i);
        }
        i += 1;
    }
    None
}

pub fn set_id<V: DeepView>(list: &mut Vec<(u64, V)>, id: u64, v: V)
    ensures
        final(list).deep_view() == with_value(old(list).deep_view(), id, v.deep_view()),
{
    let ghost s = list.deep_view();
    match find_id(list, id) {
        Some(i) => {
            list.set(i, (id, v));
            assert(list.deep_view() =~= s.update(i as int, (id, v.deep_view())));
        },
        None => {
            list.push((id, v));
            assert(list.deep_view() =~= s.push((id, v.deep_view())));
        },
    }
}

pub fn remove_id<V: DeepView>(list: &mut Vec<(u64, V)>, id: u64)
    ensures
        final(list).deep_view() == without(old(list).deep_view(), id),
{
    let ghost s = list.deep_view();
    let ghost p = other_id::<V::V>(id);
    let mut i: usize = 0;
    let ghost mut done: int = 0;
    assert(s.take(0).filter(p) =~= Seq::empty()) by {
        reveal(Seq::filter);
    }
    assert(s =~= s.take(0).filter(p) + s.skip(0));
    while i < list.len()
        invariant
            i <= list@.len(),
            0 <= done <= s.len(),
            p == other_id::<V::V>(id),
            s.len() - done == list@.len() - i,
            list.deep_view() == s.take(done).filter(p) + s.skip(done),
            s.take(done).filter(p).len() == i,
        decreases list@.len() - i,
    {
        let ghost prior = list.deep_view();
        proof {
            crate::seqs::filter_step(s, done, p);
            assert(prior[i as int] == s[done]);
            assert(prior[i as int].0 == list@[i as int].0);
        }
        if list[i].0 == id {
            list.remove(i);
            assert(list.deep_view() =~= prior.remove(i as int));
            assert(list.deep_view() =~= s.take(done + 1).filter(p) + s.skip(done + 1));
        } else {
            i += 1;
            assert(list.deep_view() =~= s.take(done + 1).filter(p) + s.skip(done + 1));
        }
        proof {
            done = done + 1;
        }
    }
    proof {
        assert(s.take(done) =~= s);
        assert(s.skip(done) =~= Seq::empty());
        assert(list.deep_view() =~= s.filter(p));
    }
}

} // verus!
