//! Named entries: lists in which the first entry of a name counts.
use crate::text;
use vstd::prelude::*;

verus! {

/// The first entry of a name at or after `from`.
pub open spec fn entry_from<V>(s: Seq<(Seq<char>, V)>, name: Seq<char>, from: int) -> Option<int>
    decreases s.len() - from,
{
    if from < 0 || from >= s.len() {
        None
    } else if s[from].0 == name {
        Some(from)
    } else {
        entry_from(s, name, from + 1)
    }
}

pub open spec fn entry<V>(s: Seq<(Seq<char>, V)>, name: Seq<char>) -> Option<int> {
    entry_from(s, name, 0)
}

/// What a name stands for.
pub open spec fn lookup<V>(s: Seq<(Seq<char>, V)>, name: Seq<char>) -> Option<V> {
    match entry(s, name) {
        Some(i) => Some(s[i].1),
        None => None,
    }
}

/// The list with a name standing for a value: its entry replaced, or a new one at the end.
pub open spec fn with_entry<V>(s: Seq<(Seq<char>, V)>, name: Seq<char>, value: V) -> Seq<
    (Seq<char>, V),
> {
    match entry(s, name) {
        Some(i) => s.update(i, (s[i].0, value)),
        None => s.push((name, value)),
    }
}

pub open spec fn other_name<V>(name: Seq<char>) -> spec_fn((Seq<char>, V)) -> bool {
    |e: (Seq<char>, V)| e.0 != name
}

/// The list without the entries of a name.
pub open spec fn without_entry<V>(s: Seq<(Seq<char>, V)>, name: Seq<char>) -> Seq<
    (Seq<char>, V),
> {
    s.filter(other_name(name))
}

pub fn find_entry<V: DeepView>(list: &Vec<(String, V)>, name: &str) -> (r: Option<usize>)
    ensures
        r is Some == entry(list.deep_view(), name@) is Some,
        r matches Some(i) ==> i < list@.len() && entry(list.deep_view(), name@) == Some(i as int),
{
    let ghost s = list.deep_view();
    let mut i: usize = 0;
    while i < list.len()
        invariant
            i <= list@.len(),
            s == list.deep_view(),
            entry_from(s, name@, i as int) == entry(s, name@),
        decreases list@.len() - i,
    {
        assert(s[i as int].0 == list@[i as int].0@);
        if text::text_equal(list[i].0.as_str(), name) {
            return Some(i);
        }
        i += 1;
    }
    None
}

pub proof fn entry_found<V>(s: Seq<(Seq<char>, V)>, name: Seq<char>, from: int)
    requires
        0 <= from,
    ensures
        entry_from(s, name, from) matches Some(i) ==> from <= i < s.len() && s[i].0 == name
            && forall|j: int| from <= j < i ==> (#[trigger] s[j]).0 != name,
        entry_from(s, name, from) is None ==> forall|i: int|
            from <= i < s.len() ==> (#[trigger] s[i]).0 != name,
    decreases s.len() - from,
{
    if from < s.len() && s[from].0 != name {
        entry_found(s, name, from + 1);
    }
}

/// Sets what a name stands for.
pub fn set_entry<V: DeepView>(list: &mut Vec<(String, V)>, name: &str, value: V)
    ensures
        final(list).deep_view() == with_entry(old(list).deep_view(), name@, value.deep_view()),
{
    let ghost before = list.deep_view();
    match find_entry(list, name) {
        Some(i) => {
            let key = list[i].0.clone();
            list.set(i, (key, value));
            assert(list.deep_view() =~= before.update(
                i as int,
                (before[i as int].0, value.deep_view()),
            ));
        },
        None => {
            list.push((text::copy_text(name), value));
            assert(list.deep_view() =~= before.push((name@, value.deep_view())));
        },
    }
}

/// Removes the entries of a name.
pub fn remove_entries<V: DeepView>(list: &mut Vec<(String, V)>, name: &str)
    ensures
        final(list).deep_view() == without_entry(old(list).deep_view(), name@),
{
    let ghost s = list.deep_view();
    let mut i: usize = 0;
    let ghost p = other_name::<V::V>(name@);
    assert(list.deep_view().take(0).filter(p) =~= Seq::empty()) by {
        reveal(Seq::filter);
    }
    assert(s =~= s.take(0).filter(p) + s.skip(0));
    let ghost mut done: int = 0;
    while i < list.len()
        invariant
            i <= list@.len(),
            0 <= done <= s.len(),
            p == other_name::<V::V>(name@),
            s.len() - done == list@.len() - i,
            list.deep_view() == s.take(done).filter(p) + s.skip(done),
            s.take(done).filter(p).len() == i,
        decreases list@.len() - i,
    {
        proof {
            crate::seqs::filter_step(s, done, p);
            assert(list.deep_view()[i as int] == s[done]);
            assert(list.deep_view()[i as int].0 == list@[i as int].0@);
        }
        let ghost before = list.deep_view();
        if text::text_equal(list[i].0.as_str(), name) {
            list.remove(i);
            assert(list.deep_view() =~= before.remove(i as int));
            assert(list.deep_view() =~= s.take(done + 1).filter(p) + s.skip(done + 1));
        } else {
            i += 1;
            assert(list.deep_view() =~= s.take(done + 1).filter(p) + s.skip(done + 1));
        }
        proof {
            done = done + 1;
        }
    }
    assert(s.take(done) =~= s);
    assert(list.deep_view() =~= s.filter(p));
}

/// Sets what a name stands for within the list that another name stands for.
pub fn set_nested<V: DeepView>(
    list: &mut Vec<(String, Vec<(String, V)>)>,
    a: &str,
    b: &str,
    value: V,
)
    ensures
        final(list).deep_view() == (match lookup(old(list).deep_view(), a@) {
            Some(inner) => with_entry(
                old(list).deep_view(),
                a@,
                with_entry(inner, b@, value.deep_view()),
            ),
            None => old(list).deep_view(),
        }),
{
    let ghost before = list.deep_view();
    match find_entry(list, a) {
        Some(i) => {
            assert(before[i as int].1 == list@[i as int].1.deep_view());
            set_entry(&mut list[i].1, b, value);
            assert(list.deep_view() =~= before.update(
                i as int,
                (before[i as int].0, with_entry(before[i as int].1, b@, value.deep_view())),
            ));
        },
        None => {},
    }
}

/// Removes a name from the list that another name stands for.
pub fn remove_nested<V: DeepView>(list: &mut Vec<(String, Vec<(String, V)>)>, a: &str, b: &str)
    ensures
        final(list).deep_view() == (match lookup(old(list).deep_view(), a@) {
            Some(inner) => with_entry(old(list).deep_view(), a@, without_entry(inner, b@)),
            None => old(list).deep_view(),
        }),
{
    let ghost before = list.deep_view();
    match find_entry(list, a) {
        Some(i) => {
            assert(before[i as int].1 == list@[i as int].1.deep_view());
            remove_entries(&mut list[i].1, b);
            assert(list.deep_view() =~= before.update(
                i as int,
                (before[i as int].0, without_entry(before[i as int].1, b@)),
            ));
        },
        None => {},
    }
}

/// What was set is what a name stands for, and other names keep what they stood for.
pub proof fn set_then_lookup<V>(
    s: Seq<(Seq<char>, V)>,
    name: Seq<char>,
    value: V,
    other: Seq<char>,
)
    ensures
        lookup(with_entry(s, name, value), name) == Some(value),
        other != name ==> lookup(with_entry(s, name, value), other) == lookup(s, other),
{
    entry_found(s, name, 0);
    entry_found(s, other, 0);
    entry_found(with_entry(s, name, value), name, 0);
    entry_found(with_entry(s, name, value), other, 0);
    set_then_entry(s, name, value, name, 0);
    set_then_entry(s, name, value, other, 0);
}

/// What was removed stands for nothing, and other names keep what they stood for.
pub proof fn remove_then_lookup<V>(s: Seq<(Seq<char>, V)>, name: Seq<char>, other: Seq<char>)
    ensures
        lookup(without_entry(s, name), name) is None,
        other != name ==> lookup(without_entry(s, name), other) == lookup(s, other),
    decreases s.len(),
{
    reveal(Seq::filter);
    let p = other_name::<V>(name);
    if s.len() > 0 {
        let t = s.drop_last();
        remove_then_lookup(t, name, other);
        assert(s =~= t.push(s.last()));
        last_entry(t, s.last(), other);
        last_entry(t, s.last(), name);
        last_entry(t.filter(p), s.last(), other);
        last_entry(t.filter(p), s.last(), name);
    }
}

proof fn last_entry<V>(s: Seq<(Seq<char>, V)>, e: (Seq<char>, V), name: Seq<char>)
    ensures
        lookup(s.push(e), name) == (match lookup(s, name) {
            Some(v) => Some(v),
            None => if e.0 == name {
                Some(e.1)
            } else {
                None
            },
        }),
{
    entry_push(s, e, name, 0);
    entry_found(s, name, 0);
}

proof fn entry_push<V>(s: Seq<(Seq<char>, V)>, e: (Seq<char>, V), name: Seq<char>, from: int)
    requires
        0 <= from <= s.len(),
    ensures
        entry_from(s.push(e), name, from) == (match entry_from(s, name, from) {
            Some(i) => Some(i),
            None => if e.0 == name {
                Some(s.len() as int)
            } else {
                None
            },
        }),
    decreases s.len() - from,
{
    if from < s.len() {
        entry_push(s, e, name, from + 1);
    } else {
        assert(entry_from(s.push(e), name, from + 1) is None);
    }
}

proof fn set_then_entry<V>(
    s: Seq<(Seq<char>, V)>,
    name: Seq<char>,
    value: V,
    other: Seq<char>,
    from: int,
)
    requires
        0 <= from <= s.len(),
        entry_from(s, name, 0) matches Some(i) ==> from <= i,
    ensures
        ({
            let after = with_entry(s, name, value);
            &&& other == name ==> (entry_from(after, other, from) matches Some(j) && after[j].1
                == value)
            &&& other != name ==> (match (entry_from(after, other, from), entry_from(s, other, from)) {
                (Some(j), Some(k)) => after[j].1 == s[k].1,
                (None, None) => true,
                _ => false,
            })
        }),
    decreases s.len() - from,
{
    let after = with_entry(s, name, value);
    entry_found(s, name, 0);
    if from < s.len() {
        if entry_from(s, name, 0) == Some(from) {
            if other != name {
                same_rest(s, after, other, from + 1);
            }
        } else {
            assert(after[from] == s[from]);
            if s[from].0 != other {
                set_then_entry(s, name, value, other, from + 1);
            }
        }
    } else {
        assert(after[from].0 == name);
        assert(entry_from(after, other, from + 1) is None);
    }
}

proof fn same_rest<V>(
    a: Seq<(Seq<char>, V)>,
    b: Seq<(Seq<char>, V)>,
    name: Seq<char>,
    from: int,
)
    requires
        0 <= from,
        a.len() == b.len(),
        forall|i: int| from <= i < a.len() ==> a[i] == b[i],
    ensures
        entry_from(a, name, from) == entry_from(b, name, from),
        entry_from(a, name, from) matches Some(j) ==> a[j] == b[j],
    decreases a.len() - from,
{
    if from < a.len() {
        same_rest(a, b, name, from + 1);
    }
}

// ---------------------------------------------------------------------------------------------
// Sorted names
// ---------------------------------------------------------------------------------------------
/// The lexicographic order of texts by character.
pub open spec fn text_less(a: Seq<char>, b: Seq<char>) -> bool
    decreases a.len(),
{
    if b.len() == 0 {
        false
    } else if a.len() == 0 {
        true
    } else if a[0] == b[0] {
        text_less(a.subrange(1, a.len() as int), b.subrange(1, b.len() as int))
    } else {
        a[0] < b[0]
    }
}

pub fn is_text_less(a: &str, b: &str) -> (r: bool)
    ensures
        r == text_less(a@, b@),
{
    let x = text::chars_of(a);
    let y = text::chars_of(b);
    let mut i: usize = 0;
    assert(x@.skip(0) =~= x@);
    assert(y@.skip(0) =~= y@);
    while i < x.len() && i < y.len()
        invariant
            i <= x@.len(),
            i <= y@.len(),
            x@ == a@,
            y@ == b@,
            text_less(x@.skip(i as int), y@.skip(i as int)) == text_less(a@, b@),
        decreases x@.len() - i,
    {
        let ghost p = x@.skip(i as int);
        let ghost q = y@.skip(i as int);
        if x[i] != y[i] {
            return x[i] < y[i];
        }
        assert(p.subrange(1, p.len() as int) =~= x@.skip(i + 1));
        assert(q.subrange(1, q.len() as int) =~= y@.skip(i + 1));
        i += 1;
    }
    i < y.len()
}

/// Where a name belongs among sorted names.
pub open spec fn place_from(names: Seq<Seq<char>>, name: Seq<char>, at: int) -> int
    decreases names.len() - at,
{
    if 0 <= at < names.len() && text_less(names[at], name) {
        place_from(names, name, at + 1)
    } else {
        at
    }
}

/// Sorted names with a name added where it is missing.
pub open spec fn with_name(names: Seq<Seq<char>>, name: Seq<char>) -> Seq<Seq<char>> {
    let at = place_from(names, name, 0);
    if 0 <= at < names.len() && names[at] == name {
        names
    } else {
        names.insert(at, name)
    }
}

pub fn add_name(names: &mut Vec<String>, name: &str)
    ensures
        final(names).deep_view() == with_name(old(names).deep_view(), name@),
{
    let ghost s = names.deep_view();
    let mut at: usize = 0;
    while at < names.len() && is_text_less(names[at].as_str(), name)
        invariant
            at <= names@.len(),
            s == names.deep_view(),
            place_from(s, name@, at as int) == place_from(s, name@, 0),
        decreases names@.len() - at,
    {
        at += 1;
    }
    if at < names.len() && text::text_equal(names[at].as_str(), name) {
        return;
    }
    names.insert(at, text::copy_text(name));
    assert(names.deep_view() =~= s.insert(at as int, name@));
}

pub fn has_name(names: &Vec<String>, name: &str) -> (r: bool)
    ensures
        r == names.deep_view().contains(name@),
{
    let mut i: usize = 0;
    while i < names.len()
        invariant
            i <= names@.len(),
            forall|j: int| 0 <= j < i ==> names@[j]@ != name@,
        decreases names@.len() - i,
    {
        if text::text_equal(names[i].as_str(), name) {
            assert(names.deep_view()[i as int] == name@);
            return true;
        }
        i += 1;
    }
    false
}

// ---------------------------------------------------------------------------------------------
// The names of a set, listed
// ---------------------------------------------------------------------------------------------
pub proof fn less_irreflexive(a: Seq<char>)
    ensures
        !text_less(a, a),
    decreases a.len(),
{
    if a.len() > 0 {
        less_irreflexive(a.subrange(1, a.len() as int));
    }
}

pub proof fn less_transitive(a: Seq<char>, b: Seq<char>, c: Seq<char>)
    requires
        text_less(a, b),
        text_less(b, c),
    ensures
        text_less(a, c),
    decreases a.len(),
{
    if a.len() > 0 && a[0] == b[0] && b[0] == c[0] {
        less_transitive(
            a.subrange(1, a.len() as int),
            b.subrange(1, b.len() as int),
            c.subrange(1, c.len() as int),
        );
    }
}

pub proof fn less_total(a: Seq<char>, b: Seq<char>)
    ensures
        text_less(a, b) || a == b || text_less(b, a),
    decreases a.len(),
{
    if a.len() > 0 && b.len() > 0 && a[0] == b[0] {
        let x = a.subrange(1, a.len() as int);
        let y = b.subrange(1, b.len() as int);
        less_total(x, y);
        if x == y {
            assert(a =~= seq![a[0]] + x);
            assert(b =~= seq![b[0]] + y);
        }
    } else if a.len() == 0 && b.len() == 0 {
        assert(a =~= b);
    }
}

/// Whether names stand in order, each once.
pub open spec fn ascending(names: Seq<Seq<char>>) -> bool {
    forall|i: int, j: int| 0 <= i < j < names.len() ==> text_less(#[trigger] names[i], #[trigger] names[j])
}

/// The names of a set in order.
pub open spec fn listed(names: Set<Seq<char>>) -> Seq<Seq<char>> {
    choose|s: Seq<Seq<char>>| ascending(s) && #[trigger] s.to_set() == names
}

/// Names in order are determined by which they are.
pub proof fn ascending_unique(a: Seq<Seq<char>>, b: Seq<Seq<char>>)
    requires
        ascending(a),
        ascending(b),
        a.to_set() == b.to_set(),
    ensures
        a == b,
    decreases a.len(),
{
    if a.len() == 0 {
        if b.len() > 0 {
            assert(b.contains(b[0]));
            assert(b.to_set().contains(b[0]));
            assert(a.to_set().contains(b[0]));
        }
        assert(a =~= b);
    } else {
        let x = a.last();
        assert(a[a.len() - 1] == x);
        assert(a.to_set().contains(x));
        assert(b.to_set().contains(x));
        let j = choose|j: int| 0 <= j < b.len() && b[j] == x;
        let y = b.last();
        assert(b[b.len() - 1] == y);
        if j < b.len() - 1 {
            assert(text_less(b[j], b[b.len() - 1]));
            assert(b.to_set().contains(y));
            assert(a.to_set().contains(y));
            let k = choose|k: int| 0 <= k < a.len() && a[k] == y;
            if k < a.len() - 1 {
                assert(text_less(a[k], a[a.len() - 1]));
                less_transitive(x, y, x);
            }
            less_irreflexive(x);
        }
        let p = a.drop_last();
        let q = b.drop_last();
        assert(p.to_set() =~= a.to_set().remove(x)) by {
            without_last(a);
        }
        assert(q.to_set() =~= b.to_set().remove(x)) by {
            without_last(b);
        }
        assert(ascending(p));
        assert(ascending(q));
        ascending_unique(p, q);
        assert(a =~= p.push(x));
        assert(b =~= q.push(x));
    }
}

proof fn without_last(a: Seq<Seq<char>>)
    requires
        ascending(a),
        a.len() > 0,
    ensures
        a.drop_last().to_set() == a.to_set().remove(a.last()),
{
    let p = a.drop_last();
    assert forall|n: Seq<char>| p.to_set().contains(n) == a.to_set().remove(a.last()).contains(n) by {
        if p.contains(n) {
            let i = choose|i: int| 0 <= i < p.len() && p[i] == n;
            assert(a[i] == n);
            assert(text_less(a[i], a[a.len() - 1]));
            less_irreflexive(n);
        }
        if a.contains(n) && n != a.last() {
            let i = choose|i: int| 0 <= i < a.len() && a[i] == n;
            assert(p[i] == n);
        }
    }
    assert(p.to_set() =~= a.to_set().remove(a.last()));
}

proof fn place_means(names: Seq<Seq<char>>, name: Seq<char>, at: int)
    requires
        0 <= at <= names.len(),
    ensures
        at <= place_from(names, name, at) <= names.len(),
        forall|i: int| at <= i < place_from(names, name, at) ==> text_less(#[trigger] names[i], name),
        place_from(names, name, at) < names.len() ==> !text_less(
            names[place_from(names, name, at)],
            name,
        ),
    decreases names.len() - at,
{
    if at < names.len() && text_less(names[at], name) {
        place_means(names, name, at + 1);
    }
}

/// A name that was added is there.
pub proof fn with_name_has(names: Seq<Seq<char>>, name: Seq<char>)
    ensures
        with_name(names, name).contains(name),
{
    place_means(names, name, 0);
    let at = place_from(names, name, 0);
    assert(with_name(names, name)[at] == name);
}

/// Adding a name keeps names in order and adds it to which they are.
pub proof fn with_name_ascending(names: Seq<Seq<char>>, name: Seq<char>)
    requires
        ascending(names),
    ensures
        ascending(with_name(names, name)),
        with_name(names, name).to_set() == names.to_set().insert(name),
{
    let at = place_from(names, name, 0);
    place_means(names, name, 0);
    let after = with_name(names, name);
    if at < names.len() && names[at] == name {
        assert(names.contains(name));
        assert(names.to_set() =~= names.to_set().insert(name));
    } else {
        assert forall|i: int, j: int| 0 <= i < j < after.len() implies text_less(
            #[trigger] after[i],
            #[trigger] after[j],
        ) by {
            if j < at {
                assert(text_less(names[i], names[j]));
            } else if j == at {
                assert(text_less(names[i], name));
            } else {
                let y = names[j - 1];
                less_total(names[at], name);
                if i == at {
                    if j - 1 > at {
                        assert(text_less(names[at], names[j - 1]));
                        less_transitive(name, names[at], y);
                    }
                } else if i < at {
                    assert(text_less(names[i], names[j - 1]));
                } else {
                    assert(text_less(names[i - 1], names[j - 1]));
                }
            }
        }
        assert forall|n: Seq<char>| after.to_set().contains(n) == names.to_set().insert(
            name,
        ).contains(n) by {
            if names.contains(n) {
                let i = choose|i: int| 0 <= i < names.len() && names[i] == n;
                if i < at {
                    assert(after[i] == n);
                } else {
                    assert(after[i + 1] == n);
                }
            }
            assert(after[at] == name);
            if after.contains(n) {
                let i = choose|i: int| 0 <= i < after.len() && after[i] == n;
                if i < at {
                    assert(names[i] == n);
                } else if i > at {
                    assert(names[i - 1] == n);
                }
            }
        }
        assert(after.to_set() =~= names.to_set().insert(name));
    }
}

/// The names of a list in order, each once, are those of the list.
pub proof fn listed_means(names: Seq<Seq<char>>)
    ensures
        ascending(listed(names.to_set())),
        listed(names.to_set()).to_set() == names.to_set(),
    decreases names.len(),
{
    let s = sorted(names);
    sorted_means(names);
    assert(ascending(s) && s.to_set() == names.to_set());
}

pub open spec fn sorted(names: Seq<Seq<char>>) -> Seq<Seq<char>>
    decreases names.len(),
{
    if names.len() == 0 {
        Seq::empty()
    } else {
        with_name(sorted(names.drop_last()), names.last())
    }
}

proof fn sorted_means(names: Seq<Seq<char>>)
    ensures
        ascending(sorted(names)),
        sorted(names).to_set() == names.to_set(),
    decreases names.len(),
{
    if names.len() > 0 {
        sorted_means(names.drop_last());
        with_name_ascending(sorted(names.drop_last()), names.last());
        crate::seqs::push_to_set(names.drop_last(), names.last());
        assert(names =~= names.drop_last().push(names.last()));
    } else {
        assert(names =~= Seq::empty());
    }
}

/// Lists names in order, each once.
pub fn listed_names(names: &Vec<String>) -> (r: Vec<String>)
    ensures
        r.deep_view() == listed(names.deep_view().to_set()),
{
    let ghost s = names.deep_view();
    let mut out: Vec<String> = Vec::new();
    let mut i: usize = 0;
    assert(out.deep_view().to_set() =~= s.take(0).to_set());
    while i < names.len()
        invariant
            i <= names@.len(),
            s == names.deep_view(),
            ascending(out.deep_view()),
            out.deep_view().to_set() == s.take(i as int).to_set(),
        decreases names@.len() - i,
    {
        proof {
            with_name_ascending(out.deep_view(), s[i as int]);
            crate::seqs::push_to_set(s.take(i as int), s[i as int]);
            assert(s.take(i + 1) =~= s.take(i as int).push(s[i as int]));
        }
        add_name(&mut out, names[i].as_str());
        i += 1;
    }
    proof {
        assert(s.take(i as int) =~= s);
        let r = listed(s.to_set());
        assert(ascending(out.deep_view()) && out.deep_view().to_set() == s.to_set());
        ascending_unique(out.deep_view(), r);
    }
    out
}

} // verus!
