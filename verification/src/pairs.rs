//! Entries named by a database and a table: lists in which the first entry of a pair counts.
use crate::text;
use vstd::prelude::*;

verus! {

pub open spec fn pair_from<V>(
    s: Seq<(Seq<char>, Seq<char>, V)>,
    a: Seq<char>,
    b: Seq<char>,
    from: int,
) -> Option<int>
    decreases s.len() - from,
{
    if from < 0 || from >= s.len() {
        None
    } else if s[from].0 == a && s[from].1 == b {
        Some(from)
    } else {
        pair_from(s, a, b, from + 1)
    }
}

pub open spec fn pair<V>(s: Seq<(Seq<char>, Seq<char>, V)>, a: Seq<char>, b: Seq<char>) -> Option<int> {
    pair_from(s, a, b, 0)
}

/// What a pair stands for.
pub open spec fn pair_value<V>(s: Seq<(Seq<char>, Seq<char>, V)>, a: Seq<char>, b: Seq<char>) -> Option<V> {
    match pair(s, a, b) {
        Some(i) => Some(s[i].2),
        None => None,
    }
}

/// The list with a pair standing for a value.
pub open spec fn with_pair<V>(
    s: Seq<(Seq<char>, Seq<char>, V)>,
    a: Seq<char>,
    b: Seq<char>,
    value: V,
) -> Seq<(Seq<char>, Seq<char>, V)> {
    match pair(s, a, b) {
        Some(i) => s.update(i, (s[i].0, s[i].1, value)),
        None => s.push((a, b, value)),
    }
}

pub open spec fn other_pair<V>(a: Seq<char>, b: Seq<char>) -> spec_fn(
    (Seq<char>, Seq<char>, V),
) -> bool {
    |e: (Seq<char>, Seq<char>, V)| e.0 != a || e.1 != b
}

/// The list without the entries of a pair.
pub open spec fn without_pair<V>(s: Seq<(Seq<char>, Seq<char>, V)>, a: Seq<char>, b: Seq<char>) -> Seq<
    (Seq<char>, Seq<char>, V),
> {
    s.filter(other_pair(a, b))
}

pub open spec fn other_first<V>(a: Seq<char>) -> spec_fn((Seq<char>, Seq<char>, V)) -> bool {
    |e: (Seq<char>, Seq<char>, V)| e.0 != a
}

/// The list without the entries of a first name.
pub open spec fn without_first<V>(s: Seq<(Seq<char>, Seq<char>, V)>, a: Seq<char>) -> Seq<
    (Seq<char>, Seq<char>, V),
> {
    s.filter(other_first(a))
}

pub proof fn pair_found<V>(
    s: Seq<(Seq<char>, Seq<char>, V)>,
    a: Seq<char>,
    b: Seq<char>,
    from: int,
)
    requires
        0 <= from,
    ensures
        pair_from(s, a, b, from) matches Some(i) ==> from <= i < s.len() && s[i].0 == a && s[i].1
            == b,
    decreases s.len() - from,
{
    if from < s.len() {
        pair_found(s, a, b, from + 1);
    }
}

proof fn first_pair<V>(s: Seq<(Seq<char>, Seq<char>, V)>, a: Seq<char>, b: Seq<char>, from: int)
    requires
        0 <= from,
    ensures
        pair_from(s, a, b, from) matches Some(i) ==> forall|j: int|
            from <= j < i ==> !((#[trigger] s[j]).0 == a && s[j].1 == b),
        pair_from(s, a, b, from) is None ==> forall|j: int|
            from <= j < s.len() ==> !((#[trigger] s[j]).0 == a && s[j].1 == b),
    decreases s.len() - from,
{
    if from < s.len() {
        first_pair(s, a, b, from + 1);
    }
}

/// A pair stands for the value it was given last; the others stand for what they stood for.
pub proof fn set_then_pair<V>(
    s: Seq<(Seq<char>, Seq<char>, V)>,
    a: Seq<char>,
    b: Seq<char>,
    value: V,
    c: Seq<char>,
    d: Seq<char>,
)
    ensures
        pair_value(with_pair(s, a, b, value), a, b) == Some(value),
        c != a || d != b ==> pair_value(with_pair(s, a, b, value), c, d) == pair_value(s, c, d),
{
    let t = with_pair(s, a, b, value);
    pair_found(s, a, b, 0);
    pair_found(s, c, d, 0);
    pair_found(t, a, b, 0);
    pair_found(t, c, d, 0);
    first_pair(s, a, b, 0);
    first_pair(s, c, d, 0);
    first_pair(t, a, b, 0);
    first_pair(t, c, d, 0);
    match pair(s, a, b) {
        Some(i) => {
            assert(t[i] == (a, b, value));
            let k = pair(t, a, b)->0;
            assert(t[k].0 == a && t[k].1 == b);
            assert(s[k].0 == a && s[k].1 == b);
        },
        None => {
            assert(t[s.len() as int] == (a, b, value));
            let k = pair(t, a, b)->0;
            if k < s.len() {
                assert(s[k] == t[k]);
            }
        },
    }
    if c != a || d != b {
        match pair(s, c, d) {
            Some(i) => {
                assert(t[i] == s[i]);
                let k = pair(t, c, d)->0;
                assert(t[k] == s[k]);
            },
            None => {
                if pair(t, c, d) is Some {
                    let k = pair(t, c, d)->0;
                    assert(k < s.len() && s[k].0 == c && s[k].1 == d);
                }
            },
        }
    }
}

/// A pair that was taken out stands for nothing; the others stand for what they stood for.
pub proof fn removed_then_pair<V>(
    s: Seq<(Seq<char>, Seq<char>, V)>,
    a: Seq<char>,
    b: Seq<char>,
    c: Seq<char>,
    d: Seq<char>,
)
    ensures
        pair_value(without_pair(s, a, b), a, b) is None,
        c != a || d != b ==> pair_value(without_pair(s, a, b), c, d) == pair_value(s, c, d),
    decreases s.len(),
{
    reveal(Seq::filter);
    let p = other_pair::<V>(a, b);
    if s.len() > 0 {
        let t = s.drop_last();
        removed_then_pair(t, a, b, c, d);
        assert(s =~= t.push(s.last()));
        last_pair(t, s.last(), a, b);
        last_pair(t, s.last(), c, d);
        last_pair(t.filter(p), s.last(), a, b);
        last_pair(t.filter(p), s.last(), c, d);
    }
}

proof fn last_pair<V>(
    s: Seq<(Seq<char>, Seq<char>, V)>,
    e: (Seq<char>, Seq<char>, V),
    a: Seq<char>,
    b: Seq<char>,
)
    ensures
        pair_value(s.push(e), a, b) == (match pair_value(s, a, b) {
            Some(v) => Some(v),
            None => if e.0 == a && e.1 == b {
                Some(e.2)
            } else {
                None
            },
        }),
{
    let t = s.push(e);
    pair_found(s, a, b, 0);
    pair_found(t, a, b, 0);
    first_pair(s, a, b, 0);
    first_pair(t, a, b, 0);
    match pair(s, a, b) {
        Some(i) => {
            assert(t[i] == s[i]);
            let k = pair(t, a, b)->0;
            assert(k <= i);
            assert(t[k] == s[k]);
        },
        None => {
            if e.0 == a && e.1 == b {
                assert(t[s.len() as int] == e);
                let k = pair(t, a, b)->0;
                if k < s.len() {
                    assert(t[k] == s[k]);
                }
            } else if pair(t, a, b) is Some {
                let k = pair(t, a, b)->0;
                if k < s.len() {
                    assert(t[k] == s[k]);
                }
            }
        },
    }
}

/// A pair that was added at the end is found there.
pub proof fn pair_pushed<V>(
    s: Seq<(Seq<char>, Seq<char>, V)>,
    a: Seq<char>,
    b: Seq<char>,
    value: V,
)
    requires
        pair(s, a, b) is None,
    ensures
        pair(s.push((a, b, value)), a, b) == Some(s.len() as int),
{
    let t = s.push((a, b, value));
    first_pair(s, a, b, 0);
    first_pair(t, a, b, 0);
    pair_found(t, a, b, 0);
    assert(t[s.len() as int].0 == a);
    let i = pair(t, a, b)->0;
    if i < s.len() {
        assert(s[i] == t[i]);
    }
}

/// Setting a pair and then setting it again in its place.
pub proof fn pair_rewritten<V>(
    before: Seq<(Seq<char>, Seq<char>, V)>,
    mid: Seq<(Seq<char>, Seq<char>, V)>,
    after: Seq<(Seq<char>, Seq<char>, V)>,
    a: Seq<char>,
    b: Seq<char>,
    first: V,
    second: V,
    i: int,
)
    requires
        mid == with_pair(before, a, b, first),
        pair(mid, a, b) == Some(i),
        after.len() == mid.len(),
        forall|j: int| 0 <= j < mid.len() && j != i ==> (#[trigger] after[j]) == mid[j],
        after[i].0 == mid[i].0,
        after[i].1 == mid[i].1,
        after[i].2 == second,
    ensures
        after == with_pair(before, a, b, second),
{
    pair_found(before, a, b, 0);
    first_pair(before, a, b, 0);
    pair_found(mid, a, b, 0);
    first_pair(mid, a, b, 0);
    match pair(before, a, b) {
        Some(k) => {
            if i < k {
                assert(mid[i] == before[i]);
            }
            if k < i {
                assert(mid[k].0 == a && mid[k].1 == b);
            }
            assert(after =~= before.update(k, (a, b, second)));
        },
        None => {
            let n = before.len() as int;
            assert(mid[n].0 == a && mid[n].1 == b);
            if i < n {
                assert(mid[i] == before[i]);
            }
            assert(after =~= before.push((a, b, second)));
        },
    }
}

pub fn find_pair<V: DeepView>(list: &Vec<(String, String, V)>, a: &str, b: &str) -> (r: Option<
    usize,
>)
    ensures
        r is Some == pair(list.deep_view(), a@, b@) is Some,
        r matches Some(i) ==> i < list@.len() && pair(list.deep_view(), a@, b@) == Some(i as int),
{
    let ghost s = list.deep_view();
    let mut i: usize = 0;
    while i < list.len()
        invariant
            i <= list@.len(),
            s == list.deep_view(),
            pair_from(s, a@, b@, i as int) == pair(s, a@, b@),
        decreases list@.len() - i,
    {
        assert(s[i as int].0 == list@[i as int].0@);
        assert(s[i as int].1 == list@[i as int].1@);
        if text::text_equal(list[i].0.as_str(), a) && text::text_equal(list[i].1.as_str(), b) {
            return Some(i);
        }
        i += 1;
    }
    None
}

pub fn set_pair<V: DeepView>(list: &mut Vec<(String, String, V)>, a: &str, b: &str, value: V)
    ensures
        final(list).deep_view() == with_pair(old(list).deep_view(), a@, b@, value.deep_view()),
{
    let ghost before = list.deep_view();
    match find_pair(list, a, b) {
        Some(i) => {
            let x = list[i].0.clone();
            let y = list[i].1.clone();
            list.set(i, (x, y, value));
            assert(list.deep_view() =~= before.update(
                i as int,
                (before[i as int].0, before[i as int].1, value.deep_view()),
            ));
        },
        None => {
            list.push((text::copy_text(a), text::copy_text(b), value));
            assert(list.deep_view() =~= before.push((a@, b@, value.deep_view())));
        },
    }
}

/// Removes the entries of a pair, or all of a first name.
pub fn remove_pairs<V: DeepView>(list: &mut Vec<(String, String, V)>, a: &str, b: Option<&str>)
    ensures
        match b {
            Some(name) => final(list).deep_view() == without_pair(
                old(list).deep_view(),
                a@,
                name@,
            ),
            None => final(list).deep_view() == without_first(old(list).deep_view(), a@),
        },
{
    let ghost s = list.deep_view();
    let ghost p = match b {
        Some(name) => other_pair::<V::V>(a@, name@),
        None => other_first::<V::V>(a@),
    };
    let mut i: usize = 0;
    let ghost mut done: int = 0;
    assert(s.take(0).filter(p) =~= Seq::empty()) by {
        reveal(Seq::filter);
    }
    assert(s =~= s.take(0).filter(p) + s.skip(0));
    while i < list.len()
        invariant
            i <= list@.len(),
            0 <= done <= s.len(),
            p == (match b {
                Some(name) => other_pair::<V::V>(a@, name@),
                None => other_first::<V::V>(a@),
            }),
            s.len() - done == list@.len() - i,
            list.deep_view() == s.take(done).filter(p) + s.skip(done),
            s.take(done).filter(p).len() == i,
        decreases list@.len() - i,
    {
        let ghost prior = list.deep_view();
        proof {
            crate::seqs::filter_step(s, done, p);
            assert(prior[i as int] == s[done]);
            assert(prior[i as int].0 == list@[i as int].0@);
            assert(prior[i as int].1 == list@[i as int].1@);
        }
        let first = text::text_equal(list[i].0.as_str(), a);
        let gone = match b {
            Some(name) => first && text::text_equal(list[i].1.as_str(), name),
            None => first,
        };
        if gone {
            list.remove(i);
            assert(list.deep_view() =~= prior.remove(i as int));
            assert(list.deep_view() =~= s.take(done + 1).filter(p) + s.skip(done + 1));
        } else {
            i += 1;
            assert(list.deep_view() =~= s.take(done + 1).filter(p) + s.skip(done + 1));
        }
        proof {
            done = done + 1;
        }
    }
    proof {
        assert(s.take(done) =~= s);
        assert(s.skip(done) =~= Seq::empty());
        assert(list.deep_view() =~= s.filter(p));
    }
}

/// Whether a list of pairs holds a pair.
pub fn has_pair(list: &Vec<(String, String)>, a: &str, b: &str) -> (r: bool)
    ensures
        r == list.deep_view().contains((a@, b@)),
{
    let mut i: usize = 0;
    while i < list.len()
        invariant
            i <= list@.len(),
            forall|j: int| 0 <= j < i ==> list.deep_view()[j] != (a@, b@),
        decreases list@.len() - i,
    {
        assert(list.deep_view()[i as int] == (list@[i as int].0@, list@[i as int].1@));
        if text::text_equal(list[i].0.as_str(), a) && text::text_equal(list[i].1.as_str(), b) {
            return true;
        }
        i += 1;
    }
    false
}

/// A list of pairs with a pair, which it holds once.
pub open spec fn pair_added(list: Seq<(Seq<char>, Seq<char>)>, a: Seq<char>, b: Seq<char>) -> Seq<
    (Seq<char>, Seq<char>),
> {
    if list.contains((a, b)) {
        list
    } else {
        list.push((a, b))
    }
}

/// A pair that was added is in the list, and so are those that were.
pub proof fn pair_added_has(list: Seq<(Seq<char>, Seq<char>)>, a: Seq<char>, b: Seq<char>)
    ensures
        pair_added(list, a, b).contains((a, b)),
        forall|e: (Seq<char>, Seq<char>)|
            list.contains(e) ==> #[trigger] pair_added(list, a, b).contains(e),
{
    let more = list.push((a, b));
    assert(more[list.len() as int] == (a, b));
    assert forall|e: (Seq<char>, Seq<char>)| list.contains(e) implies #[trigger] pair_added(
        list,
        a,
        b,
    ).contains(e) by {
        let i = list.index_of(e);
        assert(more[i] == e);
    }
}

pub fn add_pair(list: &mut Vec<(String, String)>, a: &str, b: &str)
    ensures
        final(list).deep_view() == pair_added(old(list).deep_view(), a@, b@),
{
    if !has_pair(list, a, b) {
        let ghost before = list.deep_view();
        list.push((text::copy_text(a), text::copy_text(b)));
        assert(list.deep_view() =~= before.push((a@, b@)));
    }
}

} // verus!
