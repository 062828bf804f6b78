//! Text as sequences of characters: case folding, trimming, searching, splitting and numbers.
use vstd::prelude::*;
use vstd::utf8::{decode_utf8, encode_utf8, valid_utf8};

verus! {

/// `String::push`: the character is appended at the end.
pub assume_specification[ String::push ](s: &mut String, ch: char)
    ensures
        final(s)@ == old(s)@.push(ch),
;

/// What the error of `std::str::from_utf8` says of bytes that are not valid UTF-8.
pub uninterp spec fn utf8_fault(bytes: Seq<u8>) -> Seq<char>;

/// `std::str::from_utf8`: the text that the bytes encode, where they are valid UTF-8, and what the
/// error says, where they are not. That the words depend on the bytes alone is all that is claimed
/// of them.
#[verifier::external_body]
pub(crate) fn utf8_text(bytes: &[u8]) -> (res: Result<&str, String>)
    ensures
        match res {
            Ok(text) => valid_utf8(bytes@) && text@ == decode_utf8(bytes@),
            Err(e) => !valid_utf8(bytes@) && e@ == utf8_fault(bytes@),
        },
{
    match std::str::from_utf8(bytes) {
        Ok(text) => Ok(text),
        Err(e) => Err(e.to_string()),
    }
}

// ---------------------------------------------------------------------------------------------
// Characters
// ---------------------------------------------------------------------------------------------
pub open spec fn spec_upper(c: char) -> char {
    if 'a' <= c && c <= 'z' {
        ((c as u32) - 32) as char
    } else {
        c
    }
}

pub open spec fn spec_lower(c: char) -> char {
    if 'A' <= c && c <= 'Z' {
        ((c as u32) + 32) as char
    } else {
        c
    }
}

/// The Unicode property White_Space.
pub open spec fn is_white(c: char) -> bool {
    let u = c as u32;
    ||| 0x09 <= u <= 0x0d
    ||| u == 0x20
    ||| u == 0x85
    ||| u == 0xa0
    ||| u == 0x1680
    ||| 0x2000 <= u <= 0x200a
    ||| u == 0x2028
    ||| u == 0x2029
    ||| u == 0x202f
    ||| u == 0x205f
    ||| u == 0x3000
}

pub open spec fn is_digit(c: char) -> bool {
    '0' <= c && c <= '9'
}

pub open spec fn is_alphanumeric(c: char) -> bool {
    is_digit(c) || ('a' <= c && c <= 'z') || ('A' <= c && c <= 'Z')
}

pub fn char_upper(c: char) -> (r: char)
    ensures
        r == spec_upper(c),
{
    if 'a' <= c && c <= 'z' {
        ((c as u8) - 32) as char
    } else {
        c
    }
}

pub fn char_lower(c: char) -> (r: char)
    ensures
        r == spec_lower(c),
{
    if 'A' <= c && c <= 'Z' {
        ((c as u8) + 32) as char
    } else {
        c
    }
}

pub fn char_is_white(c: char) -> (r: bool)
    ensures
        r == is_white(c),
{
    let u: u32 = c as u32;
    (0x09 <= u && u <= 0x0d) || u == 0x20 || u == 0x85 || u == 0xa0 || u == 0x1680
        || (0x2000 <= u && u <= 0x200a) || u == 0x2028 || u == 0x2029 || u == 0x202f
        || u == 0x205f || u == 0x3000
}

pub fn char_is_digit(c: char) -> (r: bool)
    ensures
        r == is_digit(c),
{
    '0' <= c && c <= '9'
}

pub fn char_is_alphanumeric(c: char) -> (r: bool)
    ensures
        r == is_alphanumeric(c),
{
    ('0' <= c && c <= '9') || ('a' <= c && c <= 'z') || ('A' <= c && c <= 'Z')
}

// ---------------------------------------------------------------------------------------------
// Conversions
// ---------------------------------------------------------------------------------------------
/// The characters of a text.
pub fn chars_of(s: &str) -> (r: Vec<char>)
    ensures
        r@ == s@,
{
    let mut out: Vec<char> = Vec::new();
    for c in it: s.chars()
        invariant
            it.seq() == s@,
            out@ == s@.take(it.index() as int),
    {
        out.push(c);
        assert(out@ == s@.take(it.index() + 1));
    }
    assert(s@.take(s@.len() as int) == s@);
    out
}

/// The text of the characters `from..to`.
pub fn slice_text(chars: &[char], from: usize, to: usize) -> (r: String)
    requires
        from <= to <= chars@.len(),
    ensures
        r@ == chars@.subrange(from as int, to as int),
{
    let mut out = String::new();
    let mut i: usize = from;
    while i < to
        invariant
            from <= i <= to <= chars@.len(),
            out@ == chars@.subrange(from as int, i as int),
        decreases to - i,
    {
        out.push(chars[i]);
        i += 1;
        assert(out@ == chars@.subrange(from as int, i as int));
    }
    out
}

pub fn text_of(chars: &[char]) -> (r: String)
    ensures
        r@ == chars@,
{
    let r = slice_text(chars, 0, chars.len());
    assert(chars@.subrange(0, chars@.len() as int) == chars@);
    r
}

/// A copy of a text.
pub fn copy_text(s: &str) -> (r: String)
    ensures
        r@ == s@,
{
    s.to_owned()
}

/// A text in lower case, by Unicode's rules.
pub uninterp spec fn lowercase(s: Seq<char>) -> Seq<char>;

/// `str::to_lowercase`: the lower-case form of a text, which depends on the text alone.
#[verifier::external_body]
pub(crate) fn lower_text(s: &str) -> (r: String)
    ensures
        r@ == lowercase(s@),
{
    s.to_lowercase()
}

/// The UTF-8 bytes of a text.
pub open spec fn bytes_of(s: Seq<char>) -> Seq<u8> {
    encode_utf8(s)
}

pub fn text_bytes(s: &str) -> (r: Vec<u8>)
    ensures
        r@ == bytes_of(s@),
{
    copy_bytes(s.as_bytes())
}

/// A copy of a byte slice.
pub fn copy_bytes(b: &[u8]) -> (r: Vec<u8>)
    ensures
        r@ == b@,
{
    let mut out: Vec<u8> = Vec::new();
    out.extend_from_slice(b);
    assert(out@ == b@);
    out
}

pub fn bytes_equal(a: &[u8], b: &[u8]) -> (r: bool)
    ensures
        r == (a@ == b@),
{
    if a.len() != b.len() {
        return false;
    }
    let mut i: usize = 0;
    while i < a.len()
        invariant
            i <= a@.len(),
            a@.len() == b@.len(),
            a@.take(i as int) == b@.take(i as int),
        decreases a@.len() - i,
    {
        if a[i] != b[i] {
            return false;
        }
        assert(a@.take(i + 1) == a@.take(i as int).push(a@[i as int]));
        assert(b@.take(i + 1) == b@.take(i as int).push(b@[i as int]));
        i += 1;
    }
    assert(a@.take(a@.len() as int) == a@);
    assert(b@.take(b@.len() as int) == b@);
    true
}

pub fn text_equal(a: &str, b: &str) -> (r: bool)
    ensures
        r == (a@ == b@),
{
    let x = copy_text(a);
    let y = copy_text(b);
    x == y
}

// ---------------------------------------------------------------------------------------------
// Case
// ---------------------------------------------------------------------------------------------
/// A text with its ASCII letters in lower case.
pub open spec fn fold(s: Seq<char>) -> Seq<char> {
    s.map_values(|c: char| spec_lower(c))
}

/// A text with its ASCII letters in upper case.
pub open spec fn upper(s: Seq<char>) -> Seq<char> {
    s.map_values(|c: char| spec_upper(c))
}

/// Equality of texts up to the case of ASCII letters.
pub open spec fn same_fold(a: Seq<char>, b: Seq<char>) -> bool {
    fold(a) == fold(b)
}

pub fn eq_fold_chars(a: &[char], b: &[char]) -> (r: bool)
    ensures
        r == same_fold(a@, b@),
{
    if a.len() != b.len() {
        assert(fold(a@).len() != fold(b@).len());
        return false;
    }
    let mut i: usize = 0;
    while i < a.len()
        invariant
            i <= a@.len(),
            a@.len() == b@.len(),
            forall|j: int| 0 <= j < i ==> spec_lower(#[trigger] a@[j]) == spec_lower(b@[j]),
        decreases a@.len() - i,
    {
        if char_lower(a[i]) != char_lower(b[i]) {
            assert(fold(a@)[i as int] != fold(b@)[i as int]);
            return false;
        }
        i += 1;
    }
    assert(fold(a@) =~= fold(b@));
    true
}

pub fn eq_fold(a: &str, b: &str) -> (r: bool)
    ensures
        r == same_fold(a@, b@),
{
    let x = chars_of(a);
    let y = chars_of(b);
    eq_fold_chars(&x, &y)
}

pub fn upper_chars(a: &[char]) -> (r: Vec<char>)
    ensures
        r@ == upper(a@),
{
    let mut out: Vec<char> = Vec::new();
    let mut i: usize = 0;
    while i < a.len()
        invariant
            i <= a@.len(),
            out@ == upper(a@.take(i as int)),
        decreases a@.len() - i,
    {
        out.push(char_upper(a[i]));
        i += 1;
        assert(out@ =~= upper(a@.take(i as int)));
    }
    assert(a@.take(a@.len() as int) == a@);
    out
}

pub fn to_upper(s: &str) -> (r: String)
    ensures
        r@ == upper(s@),
{
    let c = chars_of(s);
    let u = upper_chars(&c);
    text_of(&u)
}

pub fn to_lower(s: &str) -> (r: String)
    ensures
        r@ == fold(s@),
{
    let a = chars_of(s);
    let mut out = String::new();
    let mut i: usize = 0;
    while i < a.len()
        invariant
            i <= a@.len(),
            out@ == fold(a@.take(i as int)),
        decreases a@.len() - i,
    {
        out.push(char_lower(a[i]));
        i += 1;
        assert(out@ =~= fold(a@.take(i as int)));
    }
    assert(a@.take(a@.len() as int) == a@);
    out
}

// ---------------------------------------------------------------------------------------------
// Trimming
// ---------------------------------------------------------------------------------------------
/// A text without the leading characters that satisfy `p`.
pub open spec fn trim_start_by(s: Seq<char>, p: spec_fn(char) -> bool) -> Seq<char>
    decreases s.len(),
{
    if s.len() > 0 && p(s[0]) {
        trim_start_by(s.subrange(1, s.len() as int), p)
    } else {
        s
    }
}

/// A text without the trailing characters that satisfy `p`.
pub open spec fn trim_end_by(s: Seq<char>, p: spec_fn(char) -> bool) -> Seq<char>
    decreases s.len(),
{
    if s.len() > 0 && p(s.last()) {
        trim_end_by(s.drop_last(), p)
    } else {
        s
    }
}

pub open spec fn white_fn() -> spec_fn(char) -> bool {
    |c: char| is_white(c)
}

pub open spec fn char_fn(x: char) -> spec_fn(char) -> bool {
    |c: char| c == x
}

/// A text without leading and trailing white space.
pub open spec fn trim(s: Seq<char>) -> Seq<char> {
    trim_end_by(trim_start_by(s, white_fn()), white_fn())
}

/// Where the text begins once leading white space is dropped.
pub fn skip_white(c: &[char], from: usize, to: usize) -> (r: usize)
    requires
        from <= to <= c@.len(),
    ensures
        from <= r <= to,
        c@.subrange(r as int, to as int) == trim_start_by(
            c@.subrange(from as int, to as int),
            white_fn(),
        ),
        r < to ==> !is_white(c@[r as int]),
        forall|j: int| from <= j < r ==> is_white(#[trigger] c@[j]),
{
    let mut i: usize = from;
    while i < to && char_is_white(c[i])
        invariant
            from <= i <= to <= c@.len(),
            trim_start_by(c@.subrange(i as int, to as int), white_fn()) == trim_start_by(
                c@.subrange(from as int, to as int),
                white_fn(),
            ),
            forall|j: int| from <= j < i ==> is_white(#[trigger] c@[j]),
        decreases to - i,
    {
        assert(c@.subrange(i as int, to as int).subrange(1, to - i) == c@.subrange(
            i + 1,
            to as int,
        ));
        i += 1;
    }
    i
}

/// Where the text ends once trailing white space is dropped.
pub fn skip_white_back(c: &[char], from: usize, to: usize) -> (r: usize)
    requires
        from <= to <= c@.len(),
    ensures
        from <= r <= to,
        c@.subrange(from as int, r as int) == trim_end_by(
            c@.subrange(from as int, to as int),
            white_fn(),
        ),
{
    let mut i: usize = to;
    while i > from && char_is_white(c[i - 1])
        invariant
            from <= i <= to <= c@.len(),
            trim_end_by(c@.subrange(from as int, i as int), white_fn()) == trim_end_by(
                c@.subrange(from as int, to as int),
                white_fn(),
            ),
        decreases i,
    {
        assert(c@.subrange(from as int, i as int).drop_last() == c@.subrange(from as int, i - 1));
        i -= 1;
    }
    i
}

/// The bounds of a text once white space is dropped at both ends.
pub fn trim_bounds(c: &[char], from: usize, to: usize) -> (r: (usize, usize))
    requires
        from <= to <= c@.len(),
    ensures
        from <= r.0 <= r.1 <= to,
        c@.subrange(r.0 as int, r.1 as int) == trim(c@.subrange(from as int, to as int)),
{
    let a = skip_white(c, from, to);
    let b = skip_white_back(c, a, to);
    (a, b)
}

pub fn trim_chars(c: &[char]) -> (r: Vec<char>)
    ensures
        r@ == trim(c@),
{
    let (a, b) = trim_bounds(c, 0, c.len());
    assert(c@.subrange(0, c@.len() as int) == c@);
    copy_chars(c, a, b)
}

pub fn copy_chars(c: &[char], from: usize, to: usize) -> (r: Vec<char>)
    requires
        from <= to <= c@.len(),
    ensures
        r@ == c@.subrange(from as int, to as int),
{
    let mut out: Vec<char> = Vec::new();
    let mut i: usize = from;
    while i < to
        invariant
            from <= i <= to <= c@.len(),
            out@ == c@.subrange(from as int, i as int),
        decreases to - i,
    {
        out.push(c[i]);
        i += 1;
        assert(out@ == c@.subrange(from as int, i as int));
    }
    out
}

pub fn trim_text(s: &str) -> (r: String)
    ensures
        r@ == trim(s@),
{
    let c = chars_of(s);
    let t = trim_chars(&c);
    text_of(&t)
}

/// Drops every trailing occurrence of one character.
pub fn trim_end_char(c: &[char], x: char) -> (r: Vec<char>)
    ensures
        r@ == trim_end_by(c@, char_fn(x)),
{
    let mut i: usize = c.len();
    assert(c@.take(c@.len() as int) == c@);
    while i > 0 && c[i - 1] == x
        invariant
            i <= c@.len(),
            trim_end_by(c@.take(i as int), char_fn(x)) == trim_end_by(c@, char_fn(x)),
        decreases i,
    {
        assert(c@.take(i as int).drop_last() == c@.take(i - 1));
        i -= 1;
    }
    assert(c@.take(i as int) == c@.subrange(0, i as int));
    copy_chars(c, 0, i)
}

/// A text without one character at either end.
pub open spec fn trim_mark(s: Seq<char>, x: char) -> Seq<char> {
    trim_end_by(trim_start_by(s, char_fn(x)), char_fn(x))
}

/// Drops every occurrence of one character at both ends.
pub fn trim_char(c: &[char], x: char) -> (r: Vec<char>)
    ensures
        r@ == trim_mark(c@, x),
{
    let mut i: usize = 0;
    assert(c@.skip(0) == c@);
    while i < c.len() && c[i] == x
        invariant
            i <= c@.len(),
            trim_start_by(c@.skip(i as int), char_fn(x)) == trim_start_by(c@, char_fn(x)),
        decreases c@.len() - i,
    {
        assert(c@.skip(i as int).subrange(1, c@.len() - i) == c@.skip(i + 1));
        i += 1;
    }
    assert(c@.skip(i as int) == c@.subrange(i as int, c@.len() as int));
    let rest = copy_chars(c, i, c.len());
    trim_end_char(&rest, x)
}

/// Trimming a trimmed text changes nothing.
pub proof fn trim_idempotent(s: Seq<char>)
    ensures
        trim(trim(s)) == trim(s),
{
    let t = trim_start_by(s, white_fn());
    trim_start_stops(s, white_fn());
    trim_end_stops(t, white_fn());
    let u = trim(s);
    if u.len() > 0 {
        assert(u[0] == t[0]);
        assert(trim_start_by(u, white_fn()) == u);
    }
    assert(trim_start_by(u, white_fn()) == u);
}

pub proof fn trim_start_stops(s: Seq<char>, p: spec_fn(char) -> bool)
    ensures
        trim_start_by(s, p).len() > 0 ==> !p(trim_start_by(s, p)[0]),
        trim_start_by(s, p).len() <= s.len(),
    decreases s.len(),
{
    if s.len() > 0 && p(s[0]) {
        trim_start_stops(s.subrange(1, s.len() as int), p);
    }
}

pub proof fn trim_end_stops(s: Seq<char>, p: spec_fn(char) -> bool)
    ensures
        trim_end_by(s, p).len() > 0 ==> !p(trim_end_by(s, p).last()),
        trim_end_by(s, p).len() <= s.len(),
        trim_end_by(s, p) == s.take(trim_end_by(s, p).len() as int),
    decreases s.len(),
{
    if s.len() > 0 && p(s.last()) {
        trim_end_stops(s.drop_last(), p);
        let n = trim_end_by(s, p).len() as int;
        assert(s.drop_last().take(n) == s.take(n));
    } else {
        assert(s.take(s.len() as int) == s);
    }
}

} // verus!
