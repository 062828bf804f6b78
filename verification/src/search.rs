//! Searching, splitting and joining text.
use crate::text;
use vstd::prelude::*;

verus! {

/// Whether `needle` stands in `hay` at position `at`.
pub open spec fn stands_at(hay: Seq<char>, needle: Seq<char>, at: int) -> bool {
    0 <= at && at + needle.len() <= hay.len() && hay.subrange(at, at + needle.len()) == needle
}

/// The first position at or after `from` where `needle` stands in `hay`.
pub open spec fn find_from(hay: Seq<char>, needle: Seq<char>, from: int) -> Option<int>
    decreases hay.len() + 1 - from,
{
    if from < 0 || from + needle.len() > hay.len() {
        None
    } else if stands_at(hay, needle, from) {
        Some(from)
    } else {
        find_from(hay, needle, from + 1)
    }
}

pub open spec fn find(hay: Seq<char>, needle: Seq<char>) -> Option<int> {
    find_from(hay, needle, 0)
}

/// Whether `needle` stands somewhere in `hay`.
pub open spec fn contains_text(hay: Seq<char>, needle: Seq<char>) -> bool {
    exists|at: int| #[trigger] stands_at(hay, needle, at)
}

pub open spec fn starts_with(s: Seq<char>, prefix: Seq<char>) -> bool {
    prefix.len() <= s.len() && s.take(prefix.len() as int) == prefix
}

pub open spec fn ends_with(s: Seq<char>, suffix: Seq<char>) -> bool {
    suffix.len() <= s.len() && s.skip(s.len() - suffix.len()) == suffix
}

pub open spec fn strip_prefix(s: Seq<char>, prefix: Seq<char>) -> Option<Seq<char>> {
    if starts_with(s, prefix) {
        Some(s.skip(prefix.len() as int))
    } else {
        None
    }
}

pub open spec fn strip_suffix(s: Seq<char>, suffix: Seq<char>) -> Option<Seq<char>> {
    if ends_with(s, suffix) {
        Some(s.take(s.len() - suffix.len()))
    } else {
        None
    }
}

pub fn chars_stand_at(hay: &[char], needle: &[char], at: usize) -> (r: bool)
    ensures
        r == stands_at(hay@, needle@, at as int),
{
    if needle.len() > hay.len() || at > hay.len() - needle.len() {
        return false;
    }
    let mut j: usize = 0;
    while j < needle.len()
        invariant
            j <= needle@.len(),
            at + needle@.len() <= hay@.len() == hay.len(),
            hay@.subrange(at as int, at + j) == needle@.take(j as int),
        decreases needle@.len() - j,
    {
        if hay[at + j] != needle[j] {
            assert(hay@.subrange(at as int, at + needle@.len())[j as int] != needle@[j as int]);
            return false;
        }
        assert(hay@.subrange(at as int, at + j + 1) =~= hay@.subrange(at as int, at + j).push(
            hay@[at + j],
        ));
        assert(needle@.take(j + 1) =~= needle@.take(j as int).push(needle@[j as int]));
        j += 1;
    }
    assert(needle@.take(needle@.len() as int) == needle@);
    true
}

pub fn find_chars(hay: &[char], needle: &[char], from: usize) -> (r: Option<usize>)
    ensures
        r is Some == find_from(hay@, needle@, from as int) is Some,
        r matches Some(at) ==> find_from(hay@, needle@, from as int) == Some(at as int),
{
    let mut i: usize = from;
    while needle.len() <= hay.len() && i <= hay.len() - needle.len()
        invariant
            from <= i,
            find_from(hay@, needle@, i as int) == find_from(hay@, needle@, from as int),
        decreases hay@.len() + 1 - i,
    {
        if chars_stand_at(hay, needle, i) {
            return Some(i);
        }
        if i == hay.len() - needle.len() {
            assert(find_from(hay@, needle@, i + 1) is None);
            return None;
        }
        i += 1;
    }
    None
}

pub proof fn find_from_means(hay: Seq<char>, needle: Seq<char>, from: int)
    requires
        0 <= from,
    ensures
        find_from(hay, needle, from) matches Some(at) ==> from <= at && stands_at(hay, needle, at)
            && forall|j: int| from <= j < at ==> !#[trigger] stands_at(hay, needle, j),
        find_from(hay, needle, from) is None ==> forall|j: int|
            from <= j ==> !#[trigger] stands_at(hay, needle, j),
    decreases hay.len() + 1 - from,
{
    if from + needle.len() > hay.len() {
    } else if stands_at(hay, needle, from) {
    } else {
        find_from_means(hay, needle, from + 1);
    }
}

pub fn chars_contain(hay: &[char], needle: &[char]) -> (r: bool)
    ensures
        r == contains_text(hay@, needle@),
{
    let f = find_chars(hay, needle, 0);
    proof {
        find_from_means(hay@, needle@, 0);
    }
    f.is_some()
}

pub fn text_contains(hay: &str, needle: &str) -> (r: bool)
    ensures
        r == contains_text(hay@, needle@),
{
    let h = text::chars_of(hay);
    let n = text::chars_of(needle);
    chars_contain(&h, &n)
}

pub fn chars_start_with(s: &[char], prefix: &[char]) -> (r: bool)
    ensures
        r == starts_with(s@, prefix@),
{
    let r = chars_stand_at(s, prefix, 0);
    assert(prefix@.len() <= s@.len() ==> s@.subrange(0, prefix@.len() as int) == s@.take(
        prefix@.len() as int,
    ));
    r
}

pub fn chars_end_with(s: &[char], suffix: &[char]) -> (r: bool)
    ensures
        r == ends_with(s@, suffix@),
{
    if suffix.len() > s.len() {
        return false;
    }
    let at: usize = s.len() - suffix.len();
    assert(s@.subrange(at as int, at + suffix@.len()) == s@.skip(at as int));
    chars_stand_at(s, suffix, at)
}

pub fn text_starts_with(s: &str, prefix: &str) -> (r: bool)
    ensures
        r == starts_with(s@, prefix@),
{
    let a = text::chars_of(s);
    let b = text::chars_of(prefix);
    chars_start_with(&a, &b)
}

pub fn text_ends_with(s: &str, suffix: &str) -> (r: bool)
    ensures
        r == ends_with(s@, suffix@),
{
    let a = text::chars_of(s);
    let b = text::chars_of(suffix);
    chars_end_with(&a, &b)
}

pub fn chars_strip_prefix(s: &[char], prefix: &[char]) -> (r: Option<Vec<char>>)
    ensures
        r.deep_view() == strip_prefix(s@, prefix@),
{
    if chars_start_with(s, prefix) {
        let v = text::copy_chars(s, prefix.len(), s.len());
        assert(v.deep_view() =~= s@.skip(prefix@.len() as int));
        Some(v)
    } else {
        None
    }
}

pub fn chars_strip_suffix(s: &[char], suffix: &[char]) -> (r: Option<Vec<char>>)
    ensures
        r.deep_view() == strip_suffix(s@, suffix@),
{
    if chars_end_with(s, suffix) {
        let v = text::copy_chars(s, 0, s.len() - suffix.len());
        assert(v.deep_view() =~= s@.take(s@.len() - suffix@.len()));
        Some(v)
    } else {
        None
    }
}

/// The first position of a character at or after `from`.
pub open spec fn find_char_from(s: Seq<char>, x: char, from: int) -> Option<int>
    decreases s.len() - from,
{
    if from < 0 || from >= s.len() {
        None
    } else if s[from] == x {
        Some(from)
    } else {
        find_char_from(s, x, from + 1)
    }
}

pub fn find_char(s: &[char], x: char, from: usize) -> (r: Option<usize>)
    ensures
        r is Some == find_char_from(s@, x, from as int) is Some,
        r matches Some(at) ==> from <= at < s@.len() && s@[at as int] == x && find_char_from(
            s@,
            x,
            from as int,
        ) == Some(at as int),
{
    let mut i: usize = from;
    while i < s.len()
        invariant
            from <= i,
            find_char_from(s@, x, i as int) == find_char_from(s@, x, from as int),
        decreases s@.len() - i,
    {
        if s[i] == x {
            return Some(i);
        }
        i += 1;
    }
    None
}

/// The last position of a character.
pub open spec fn rfind_char(s: Seq<char>, x: char) -> Option<int>
    decreases s.len(),
{
    if s.len() == 0 {
        None
    } else if s.last() == x {
        Some(s.len() - 1)
    } else {
        rfind_char(s.drop_last(), x)
    }
}

pub fn rfind_chars(s: &[char], x: char) -> (r: Option<usize>)
    ensures
        r is Some == rfind_char(s@, x) is Some,
        r matches Some(at) ==> at < s@.len() && s@[at as int] == x && rfind_char(s@, x) == Some(
            at as int,
        ),
{
    let mut i: usize = s.len();
    assert(s@.take(s@.len() as int) == s@);
    while i > 0
        invariant
            i <= s@.len(),
            rfind_char(s@.take(i as int), x) == rfind_char(s@, x),
        decreases i,
    {
        assert(s@.take(i as int).drop_last() == s@.take(i - 1));
        if s[i - 1] == x {
            return Some(i - 1);
        }
        i -= 1;
    }
    None
}

pub open spec fn has_char(s: Seq<char>, x: char) -> bool {
    exists|i: int| 0 <= i < s.len() && s[i] == x
}

pub fn chars_have(s: &[char], x: char) -> (r: bool)
    ensures
        r == has_char(s@, x),
{
    let mut i: usize = 0;
    while i < s.len()
        invariant
            i <= s@.len(),
            forall|j: int| 0 <= j < i ==> s@[j] != x,
        decreases s@.len() - i,
    {
        if s[i] == x {
            return true;
        }
        i += 1;
    }
    false
}

/// The parts of `s` from `from` on that the separators leave; a separator at either end leaves
/// an empty part.
pub open spec fn split_by(s: Seq<char>, p: spec_fn(char) -> bool, from: int, at: int) -> Seq<
    Seq<char>,
>
    decreases s.len() - at,
{
    if at < 0 || at >= s.len() {
        seq![s.subrange(from, s.len() as int)]
    } else if p(s[at]) {
        seq![s.subrange(from, at)] + split_by(s, p, at + 1, at + 1)
    } else {
        split_by(s, p, from, at + 1)
    }
}

pub open spec fn split_char(s: Seq<char>, x: char) -> Seq<Seq<char>> {
    split_by(s, text::char_fn(x), 0, 0)
}

pub fn split_on(s: &str, x: char) -> (r: Vec<String>)
    ensures
        r.deep_view() == split_char(s@, x),
{
    let c = text::chars_of(s);
    let mut out: Vec<String> = Vec::new();
    let mut from: usize = 0;
    let mut at: usize = 0;
    while at < c.len()
        invariant
            from <= at <= c@.len(),
            c@ == s@,
            out.deep_view() + split_by(s@, text::char_fn(x), from as int, at as int) == split_char(s@, x),
        decreases c@.len() - at,
    {
        if c[at] == x {
            let ghost before = out.deep_view();
            let ghost part = s@.subrange(from as int, at as int);
            out.push(text::slice_text(&c, from, at));
            assert(out.deep_view() =~= before.push(part));
            from = at + 1;
            at += 1;
            assert(before.push(part) + split_by(s@, text::char_fn(x), at as int, at as int)
                =~= before + (seq![part] + split_by(s@, text::char_fn(x), at as int, at as int)));
        } else {
            at += 1;
        }
    }
    let ghost before = out.deep_view();
    out.push(text::slice_text(&c, from, c.len()));
    assert(out.deep_view() =~= before + seq![s@.subrange(from as int, s@.len() as int)]);
    out
}

pub open spec fn nonempty_fn() -> spec_fn(Seq<char>) -> bool {
    |part: Seq<char>| part.len() > 0
}

/// The words of a text: its maximal runs of characters that are not white space.
pub open spec fn words(s: Seq<char>) -> Seq<Seq<char>> {
    split_by(s, text::white_fn(), 0, 0).filter(nonempty_fn())
}

pub fn split_words(s: &str) -> (r: Vec<String>)
    ensures
        r.deep_view() == words(s@),
{
    let c = text::chars_of(s);
    words_of(&c)
}

pub fn words_of(c: &[char]) -> (r: Vec<String>)
    ensures
        r.deep_view() == words(c@),
{
    let ghost s = c;
    let mut out: Vec<String> = Vec::new();
    let mut from: usize = 0;
    let mut at: usize = 0;
    assert(out.deep_view() + words(s@) =~= words(s@));
    while at < c.len()
        invariant
            from <= at <= c@.len(),
            c@ == s@,
            out.deep_view() + split_by(s@, text::white_fn(), from as int, at as int).filter(
                nonempty_fn(),
            ) == words(s@),
        decreases c@.len() - at,
    {
        if text::char_is_white(c[at]) {
            let ghost before = out.deep_view();
            let ghost part = s@.subrange(from as int, at as int);
            let ghost rest = split_by(s@, text::white_fn(), at + 1, at + 1);
            proof {
                Seq::filter_distributes_over_add(seq![part], rest, nonempty_fn());
                singleton_filter(part, nonempty_fn());
            }
            if from < at {
                out.push(text::slice_text(c, from, at));
                assert(out.deep_view() =~= before.push(part));
                assert(before.push(part) + rest.filter(nonempty_fn()) =~= before + (seq![part]
                    + rest.filter(nonempty_fn())));
            } else {
                assert(Seq::<Seq<char>>::empty() + rest.filter(nonempty_fn()) =~= rest.filter(
                    nonempty_fn(),
                ));
            }
            from = at + 1;
            at += 1;
        } else {
            at += 1;
        }
    }
    let ghost before = out.deep_view();
    let ghost part = s@.subrange(from as int, s@.len() as int);
    proof {
        singleton_filter(part, nonempty_fn());
    }
    if from < c.len() {
        out.push(text::slice_text(c, from, c.len()));
        assert(out.deep_view() =~= before + seq![part]);
    } else {
        assert(before + Seq::<Seq<char>>::empty() =~= before);
    }
    out
}

pub proof fn singleton_filter<A>(x: A, p: spec_fn(A) -> bool)
    ensures
        seq![x].filter(p) == (if p(x) {
            seq![x]
        } else {
            Seq::<A>::empty()
        }),
{
    reveal(Seq::filter);
    assert(seq![x].drop_last() =~= Seq::<A>::empty());
    assert(seq![x].drop_last().filter(p) =~= Seq::<A>::empty());
    assert(seq![x].filter(p) =~= (if p(x) {
        seq![x]
    } else {
        Seq::<A>::empty()
    }));
}

/// The parts joined with a separator between each two.
pub open spec fn joined(parts: Seq<Seq<char>>, separator: Seq<char>) -> Seq<char>
    decreases parts.len(),
{
    if parts.len() == 0 {
        Seq::empty()
    } else if parts.len() == 1 {
        parts[0]
    } else {
        joined(parts.drop_last(), separator) + separator + parts.last()
    }
}

pub fn join(parts: &[String], separator: &str) -> (r: String)
    ensures
        r@ == joined(parts.deep_view(), separator@),
{
    let mut out = String::new();
    let mut i: usize = 0;
    while i < parts.len()
        invariant
            i <= parts@.len(),
            out@ == joined(parts.deep_view().take(i as int), separator@),
        decreases parts@.len() - i,
    {
        if i > 0 {
            out.append(separator);
        }
        out.append(parts[i].as_str());
        assert(parts.deep_view().take(i + 1).drop_last() =~= parts.deep_view().take(i as int));
        assert(parts.deep_view().take(i + 1).last() == parts@[i as int]@);
        if i == 0 {
            assert(out@ =~= parts@[0]@);
        }
        i += 1;
    }
    assert(parts.deep_view().take(i as int) =~= parts.deep_view());
    out
}

/// Every occurrence of one character replaced by a text.
pub open spec fn replaced(s: Seq<char>, x: char, by: Seq<char>) -> Seq<char>
    decreases s.len(),
{
    if s.len() == 0 {
        Seq::empty()
    } else if s.last() == x {
        replaced(s.drop_last(), x, by) + by
    } else {
        replaced(s.drop_last(), x, by).push(s.last())
    }
}

pub fn replace_char(s: &str, x: char, by: &str) -> (r: String)
    ensures
        r@ == replaced(s@, x, by@),
{
    let c = text::chars_of(s);
    let mut out = String::new();
    let mut i: usize = 0;
    while i < c.len()
        invariant
            i <= c@.len(),
            c@ == s@,
            out@ == replaced(s@.take(i as int), x, by@),
        decreases c@.len() - i,
    {
        assert(s@.take(i + 1).drop_last() =~= s@.take(i as int));
        if c[i] == x {
            out.append(by);
        } else {
            out.push(c[i]);
        }
        i += 1;
    }
    assert(s@.take(s@.len() as int) == s@);
    out
}

/// The lines of a text from `from` on. A line ends at a line feed, which takes a carriage return
/// before it along; the last line needs no line feed.
pub open spec fn lines_from(s: Seq<char>, from: int, at: int) -> Seq<Seq<char>>
    decreases s.len() - at,
{
    if at < 0 || at >= s.len() {
        if 0 <= from < s.len() {
            seq![s.subrange(from, s.len() as int)]
        } else {
            Seq::empty()
        }
    } else if s[at] == '\n' {
        let end = if from < at && s[at - 1] == '\r' {
            at - 1
        } else {
            at
        };
        seq![s.subrange(from, end)] + lines_from(s, at + 1, at + 1)
    } else {
        lines_from(s, from, at + 1)
    }
}

pub open spec fn lines(s: Seq<char>) -> Seq<Seq<char>> {
    lines_from(s, 0, 0)
}

pub fn split_lines(s: &str) -> (r: Vec<String>)
    ensures
        r.deep_view() == lines(s@),
{
    let c = text::chars_of(s);
    let mut out: Vec<String> = Vec::new();
    let mut from: usize = 0;
    let mut at: usize = 0;
    assert(out.deep_view() + lines(s@) =~= lines(s@));
    while at < c.len()
        invariant
            from <= at <= c@.len(),
            c@ == s@,
            out.deep_view() + lines_from(s@, from as int, at as int) == lines(s@),
        decreases c@.len() - at,
    {
        if c[at] == '\n' {
            let end: usize = if from < at && c[at - 1] == '\r' {
                at - 1
            } else {
                at
            };
            let ghost before = out.deep_view();
            let ghost part = s@.subrange(from as int, end as int);
            out.push(text::slice_text(&c, from, end));
            assert(out.deep_view() =~= before.push(part));
            from = at + 1;
            at += 1;
            assert(before.push(part) + lines_from(s@, at as int, at as int) =~= before + (seq![part]
                + lines_from(s@, at as int, at as int)));
        } else {
            at += 1;
        }
    }
    if from < c.len() {
        let ghost before = out.deep_view();
        out.push(text::slice_text(&c, from, c.len()));
        assert(out.deep_view() =~= before + seq![s@.subrange(from as int, s@.len() as int)]);
    } else {
        assert(out.deep_view() + Seq::<Seq<char>>::empty() =~= out.deep_view());
    }
    out
}

} // verus!
