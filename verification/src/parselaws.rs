//! What statements are read as.
use crate::num;
use crate::parser;
use crate::parser::{ScanState, StatementModel};
use crate::search;
use crate::text;
use vstd::prelude::*;

verus! {

/// Whether a text is a plain name: letters, digits, `_` and `$`.
pub open spec fn is_name(s: Seq<char>) -> bool {
    s.len() > 0 && forall|i: int| 0 <= i < s.len() ==> name_char(#[trigger] s[i])
}

pub open spec fn name_char(c: char) -> bool {
    ('a' <= c && c <= 'z') || ('A' <= c && c <= 'Z') || ('0' <= c && c <= '9') || c == '_' || c
        == '$'
}

/// Whether a text holds neither quotation marks nor parentheses.
spec fn calm(s: Seq<char>) -> bool {
    forall|i: int|
        0 <= i < s.len() ==> #[trigger] s[i] != '\'' && s[i] != '"' && s[i] != '`' && s[i] != '('
            && s[i] != ')'
}

proof fn name_is(c: char)
    requires
        name_char(c),
    ensures
        parser::is_identifier_char(c),
        !text::is_white(c),
        c != '\'' && c != '"' && c != '`' && c != '(' && c != ')' && c != ';' && c != '=' && c != ' ',
        text::spec_lower(c) != ' ' && text::spec_lower(c) != '=',
{
}

proof fn keyword_later(s: Seq<char>, k: Seq<char>, at: int, p: int)
    requires
        0 <= at <= p,
        p + k.len() <= s.len(),
        p < s.len(),
        calm(s.take(p + 1)),
        parser::keyword_at(s, k, p),
        forall|i: int| at <= i < p ==> !#[trigger] parser::keyword_at(s, k, i),
    ensures
        parser::keyword_from(s, k, parser::scan_start(), at) == Some(p),
    decreases p - at,
{
    assert(s.take(p + 1)[at] == s[at]);
    assert(parser::scanned(parser::scan_start(), s[at]) == parser::scan_start());
    if at < p {
        assert(!parser::keyword_at(s, k, at));
        keyword_later(s, k, at + 1, p);
    }
}

proof fn keyword_never(s: Seq<char>, k: Seq<char>, at: int)
    requires
        0 <= at <= s.len(),
        calm(s),
        forall|i: int| at <= i && i + k.len() <= s.len() ==> !#[trigger] parser::keyword_at(s, k, i),
    ensures
        parser::keyword_from(s, k, parser::scan_start(), at) is None,
    decreases s.len() - at,
{
    if at < s.len() && at + k.len() <= s.len() {
        assert(parser::scanned(parser::scan_start(), s[at]) == parser::scan_start());
        assert(!parser::keyword_at(s, k, at));
        keyword_never(s, k, at + 1);
    }
}

/// Whether a text is a keyword: letters only, in capitals.
pub open spec fn is_capitals(k: Seq<char>) -> bool {
    k.len() > 0 && forall|i: int| 0 <= i < k.len() ==> 'A' <= #[trigger] k[i] && k[i] <= 'Z'
}

/// No keyword begins inside a name, at a name that is not the keyword, or at a blank.
proof fn no_keyword_in_name(s: Seq<char>, k: Seq<char>, from: int, name: Seq<char>, i: int)
    requires
        is_capitals(k),
        is_name(name),
        !text::same_fold(name, k),
        0 <= from,
        from + name.len() <= s.len(),
        s.subrange(from, from + name.len()) == name,
        from + name.len() < s.len() ==> s[from + name.len()] == ' ' || s[from + name.len()] == '=',
        from <= i < from + name.len(),
        i + k.len() <= s.len(),
    ensures
        !parser::keyword_at(s, k, i),
{
    let part = s.subrange(i, i + k.len());
    let n = name.len() as int;
    if i > from {
        assert(s.subrange(from, from + n)[i - 1 - from] == s[i - 1]);
        name_is(s[i - 1]);
    } else if k.len() < n {
        assert(s.subrange(from, from + n)[k.len() as int] == s[from + k.len()]);
        name_is(s[from + k.len()]);
    } else if k.len() == n {
        assert(part =~= name);
    } else {
        let c = s[from + n];
        assert(part[n] == c);
        assert(text::fold(part)[n] == text::spec_lower(c));
        assert(text::fold(k)[n] == text::spec_lower(k[n]));
    }
}

proof fn no_keyword_at_blank(s: Seq<char>, k: Seq<char>, i: int)
    requires
        is_capitals(k),
        0 <= i,
        i + k.len() <= s.len(),
        s[i] == ' ' || s[i] == '=',
    ensures
        !parser::keyword_at(s, k, i),
{
    let part = s.subrange(i, i + k.len());
    assert(part[0] == s[i]);
    assert(text::fold(part)[0] == text::spec_lower(s[i]));
    assert(text::fold(k)[0] == text::spec_lower(k[0]));
}

proof fn keyword_stands(p: Seq<char>, k: Seq<char>, rest: Seq<char>)
    requires
        is_capitals(k),
    ensures
        parser::keyword_at(p + seq![' '] + k + seq![' '] + rest, k, p.len() as int + 1),
{
    let s = p + seq![' '] + k + seq![' '] + rest;
    let at = p.len() as int + 1;
    assert(s.subrange(at, at + k.len()) =~= k);
    assert(s[at - 1] == ' ');
    assert(s[at + k.len()] == ' ');
}

proof fn split_behind(p: Seq<char>, k: Seq<char>, rest: Seq<char>)
    requires
        is_capitals(k),
        calm(p),
        forall|i: int|
            0 <= i < p.len() ==> !#[trigger] parser::keyword_at(
                p + seq![' '] + k + seq![' '] + rest,
                k,
                i,
            ),
    ensures
        parser::split_keyword(p + seq![' '] + k + seq![' '] + rest, k) == (
            p + seq![' '],
            Some(seq![' '] + rest),
        ),
{
    let s = p + seq![' '] + k + seq![' '] + rest;
    let at = p.len() as int + 1;
    keyword_stands(p, k, rest);
    assert forall|i: int| 0 <= i < at implies !#[trigger] parser::keyword_at(s, k, i) by {
        if i == p.len() {
            assert(s[i] == ' ');
            no_keyword_at_blank(s, k, i);
        }
    }
    assert(calm(s.take(at + 1))) by {
        assert forall|i: int| 0 <= i < s.take(at + 1).len() implies #[trigger] s.take(at + 1)[i]
            != '\'' && s.take(at + 1)[i] != '"' && s.take(at + 1)[i] != '`' && s.take(at + 1)[i] != '('
            && s.take(at + 1)[i] != ')' by {
            if i < p.len() {
                assert(s[i] == p[i]);
            } else if i == p.len() {
                assert(s[i] == ' ');
            } else {
                assert(s[i] == k[0]);
            }
        }
    }
    keyword_later(s, k, 0, at);
    assert(s.take(at) =~= p + seq![' ']);
    assert(s.skip(at + k.len()) =~= seq![' '] + rest);
}

proof fn name_split(name: Seq<char>, k: Seq<char>, rest: Seq<char>)
    requires
        is_name(name),
        is_capitals(k),
        !text::same_fold(name, k),
    ensures
        parser::split_keyword(name + seq![' '] + k + seq![' '] + rest, k) == (
            name + seq![' '],
            Some(seq![' '] + rest),
        ),
{
    let s = name + seq![' '] + k + seq![' '] + rest;
    assert(s.subrange(0, name.len() as int) =~= name);
    assert(s[name.len() as int] == ' ');
    assert forall|i: int| 0 <= i < name.len() implies !#[trigger] parser::keyword_at(s, k, i) by {
        no_keyword_in_name(s, k, 0, name, i);
    }
    assert forall|i: int| 0 <= i < name.len() implies #[trigger] name[i] != '\'' && name[i] != '"'
        && name[i] != '`' && name[i] != '(' && name[i] != ')' by {
        name_is(name[i]);
    }
    split_behind(name, k, rest);
}

proof fn name_unsplit(name: Seq<char>, k: Seq<char>)
    requires
        is_name(name),
        is_capitals(k),
        !text::same_fold(name, k),
    ensures
        parser::split_keyword(name, k) == (name, None::<Seq<char>>),
{
    assert(name.subrange(0, name.len() as int) =~= name);
    assert forall|i: int| 0 <= i && i + k.len() <= name.len() implies !#[trigger] parser::keyword_at(
        name,
        k,
        i,
    ) by {
        no_keyword_in_name(name, k, 0, name, i);
    }
    assert forall|i: int| 0 <= i < name.len() implies #[trigger] name[i] != '\'' && name[i] != '"'
        && name[i] != '`' && name[i] != '(' && name[i] != ')' by {
        name_is(name[i]);
    }
    keyword_never(name, k, 0);
}

proof fn trimmed_name(name: Seq<char>)
    requires
        is_name(name),
    ensures
        text::trim(name) == name,
        text::trim(name + seq![' ']) == name,
        parser::unquoted(name) == name,
        parser::trim_start(name) == name,
{
    name_is(name[0]);
    name_is(name[name.len() - 1]);
    let w = text::white_fn();
    assert(text::trim_start_by(name, w) == name);
    let s = name + seq![' '];
    assert(s[0] == name[0]);
    assert(text::trim_start_by(s, w) == s);
    assert(s.drop_last() =~= name);
    reveal_with_fuel(text::trim_end_by, 2);
    assert(text::trim_end_by(s, w) == name);
}

proof fn blank_before(rest: Seq<char>)
    ensures
        parser::trim_start(seq![' '] + rest) == parser::trim_start(rest),
        text::trim(seq![' '] + rest) == text::trim(rest),
{
    let s = seq![' '] + rest;
    assert(s[0] == ' ');
    assert(s.subrange(1, s.len() as int) =~= rest);
}

/// The heads of statements.
proof fn heads()
    ensures
        "DELETE"@ == seq!['D', 'E', 'L', 'E', 'T', 'E'],
        "UPDATE"@ == seq!['U', 'P', 'D', 'A', 'T', 'E'],
        "INSERT"@ == seq!['I', 'N', 'S', 'E', 'R', 'T'],
        "SELECT"@ == seq!['S', 'E', 'L', 'E', 'C', 'T'],
        "FROM"@ == seq!['F', 'R', 'O', 'M'],
        "WHERE"@ == seq!['W', 'H', 'E', 'R', 'E'],
        "SET"@ == seq!['S', 'E', 'T'],
        "INTO"@ == seq!['I', 'N', 'T', 'O'],
        "VALUES"@ == seq!['V', 'A', 'L', 'U', 'E', 'S'],
        "LIMIT"@ == seq!['L', 'I', 'M', 'I', 'T'],
        "ORDER BY"@ == seq!['O', 'R', 'D', 'E', 'R', ' ', 'B', 'Y'],
{
    reveal_strlit("DELETE");
    reveal_strlit("UPDATE");
    reveal_strlit("INSERT");
    reveal_strlit("SELECT");
    reveal_strlit("FROM");
    reveal_strlit("WHERE");
    reveal_strlit("SET");
    reveal_strlit("INTO");
    reveal_strlit("VALUES");
    reveal_strlit("LIMIT");
    reveal_strlit("ORDER BY");
    assert("INTO"@ =~= seq!['I', 'N', 'T', 'O']);
    assert("VALUES"@ =~= seq!['V', 'A', 'L', 'U', 'E', 'S']);
    assert("LIMIT"@ =~= seq!['L', 'I', 'M', 'I', 'T']);
    assert("ORDER BY"@ =~= seq!['O', 'R', 'D', 'E', 'R', ' ', 'B', 'Y']);
    assert("DELETE"@ =~= seq!['D', 'E', 'L', 'E', 'T', 'E']);
    assert("UPDATE"@ =~= seq!['U', 'P', 'D', 'A', 'T', 'E']);
    assert("INSERT"@ =~= seq!['I', 'N', 'S', 'E', 'R', 'T']);
    assert("SELECT"@ =~= seq!['S', 'E', 'L', 'E', 'C', 'T']);
    assert("FROM"@ =~= seq!['F', 'R', 'O', 'M']);
    assert("WHERE"@ =~= seq!['W', 'H', 'E', 'R', 'E']);
    assert("SET"@ =~= seq!['S', 'E', 'T']);
}

/// Whether a text can end a statement: it holds something, and ends with neither white space nor a
/// semicolon.
pub open spec fn ends_well(s: Seq<char>) -> bool {
    s.len() > 0 && !text::is_white(s.last()) && s.last() != ';'
}

proof fn head_read(head: Seq<char>, rest: Seq<char>)
    requires
        head == "DELETE"@ || head == "UPDATE"@ || head == "SELECT"@ || head == "INSERT"@,
        ends_well(rest),
    ensures
        ({
            let sql = head + seq![' '] + rest;
            &&& parser::trimmed_statement(sql) == sql
            &&& parser::first_word(sql).0 == head
            &&& sql.skip(6) == seq![' '] + rest
            &&& text::upper(head) == head
            &&& head == "DELETE"@ ==> parser::statement(sql) == parser::deleted(sql)
            &&& head == "UPDATE"@ ==> parser::statement(sql) == parser::updated(sql)
            &&& head == "SELECT"@ ==> parser::statement(sql) == parser::selected(sql)
            &&& head == "INSERT"@ ==> parser::statement(sql) == parser::inserted(sql)
        }),
{
    heads();
    let sql = head + seq![' '] + rest;
    let w = text::white_fn();
    assert(sql[0] == head[0]);
    assert(text::trim_start_by(sql, w) == sql);
    assert(sql.last() == rest.last());
    assert(text::trim(sql) == sql);
    assert forall|i: int| 0 <= i < 6 implies !text::is_white(#[trigger] sql[i]) by {
        assert(sql[i] == head[i]);
    }
    assert(sql[6] == ' ');
    reveal_with_fuel(parser::white_from, 8);
    assert(parser::white_from(sql, 0) == 6);
    assert(sql.take(6) =~= head);
    assert(sql.skip(6) =~= seq![' '] + rest);
    assert(text::upper(head) =~= head);
    assert("SELECT"@[0] == 'S' && "INSERT"@[0] == 'I');
    assert("UPDATE"@[0] == 'U' && "DELETE"@[0] == 'D');
}

proof fn behind_from(body: Seq<char>)
    requires
        body.len() > 0,
        !text::is_white(body[0]),
    ensures
        parser::trim_start(seq![' '] + ("FROM"@ + seq![' '] + body)) == "FROM"@ + seq![' '] + body,
        parser::strip_keyword("FROM"@ + seq![' '] + body, "FROM"@) == Some(seq![' '] + body),
        parser::trim_start(seq![' '] + body) == body,
{
    heads();
    let s = "FROM"@ + seq![' '] + body;
    blank_before(s);
    assert(s[0] == 'F');
    assert(s.take(4) =~= "FROM"@);
    assert(s[4] == ' ');
    assert(s.skip(4) =~= seq![' '] + body);
    blank_before(body);
}

/// A DELETE names its table and its condition; without WHERE it has none.
pub proof fn a_delete_is_read(t: Seq<char>, c: Seq<char>)
    requires
        is_name(t),
        !text::same_fold(t, "WHERE"@),
        ends_well(c),
    ensures
        parser::statement(
            "DELETE"@ + seq![' '] + ("FROM"@ + seq![' '] + (t + seq![' '] + "WHERE"@ + seq![' '] + c)),
        ) == Ok::<StatementModel, parser::ErrorModel>(
            StatementModel::Delete { table: t, where_clause: Some(text::trim(c)) },
        ),
        parser::statement("DELETE"@ + seq![' '] + ("FROM"@ + seq![' '] + t)) == Ok::<
            StatementModel,
            parser::ErrorModel,
        >(StatementModel::Delete { table: t, where_clause: None }),
{
    heads();
    let body = t + seq![' '] + "WHERE"@ + seq![' '] + c;
    let rest = "FROM"@ + seq![' '] + body;
    name_is(t[0]);
    name_is(t[t.len() - 1]);
    assert(body[0] == t[0]);
    assert(body.last() == c.last());
    assert(rest.last() == body.last());
    head_read("DELETE"@, rest);
    behind_from(body);
    name_split(t, "WHERE"@, c);
    trimmed_name(t);
    blank_before(c);
    let plain = "FROM"@ + seq![' '] + t;
    assert(plain.last() == t.last());
    head_read("DELETE"@, plain);
    behind_from(t);
    name_unsplit(t, "WHERE"@);
}

proof fn assignment_split(col: Seq<char>, val: Seq<char>, c: Seq<char>)
    requires
        is_name(col),
        is_name(val),
        !text::same_fold(col, "WHERE"@),
        !text::same_fold(val, "WHERE"@),
    ensures
        ({
            let p = seq![' '] + (col + seq!['='] + val);
            parser::split_keyword(p + seq![' '] + "WHERE"@ + seq![' '] + c, "WHERE"@) == (
                p + seq![' '],
                Some(seq![' '] + c),
            )
        }),
{
    heads();
    let k = "WHERE"@;
    let p = seq![' '] + (col + seq!['='] + val);
    let s = p + seq![' '] + k + seq![' '] + c;
    let n = col.len() as int;
    assert(s.subrange(1, 1 + n) =~= col);
    assert(s[1 + n] == '=');
    assert(s.subrange(2 + n, 2 + n + val.len()) =~= val);
    assert(s[2 + n + val.len()] == ' ');
    assert forall|i: int| 0 <= i < p.len() implies !#[trigger] parser::keyword_at(s, k, i) by {
        if i == 0 {
            assert(s[0] == ' ');
            no_keyword_at_blank(s, k, i);
        } else if i < 1 + n {
            no_keyword_in_name(s, k, 1, col, i);
        } else if i == 1 + n {
            no_keyword_at_blank(s, k, i);
        } else {
            no_keyword_in_name(s, k, 2 + n, val, i);
        }
    }
    assert forall|i: int| 0 <= i < p.len() implies #[trigger] p[i] != '\'' && p[i] != '"' && p[i]
        != '`' && p[i] != '(' && p[i] != ')' by {
        if 1 <= i < 1 + n {
            assert(p[i] == col[i - 1]);
            name_is(col[i - 1]);
        } else if i > 1 + n {
            assert(p[i] == val[i - 2 - n]);
            name_is(val[i - 2 - n]);
        }
    }
    split_behind(p, k, c);
}

proof fn one_part(s: Seq<char>, at: int)
    requires
        0 <= at <= s.len(),
        calm(s),
        forall|i: int| 0 <= i < s.len() ==> #[trigger] s[i] != ',',
        text::trim(s).len() > 0,
    ensures
        parser::split_from(s, ',', parser::scan_start(), 0, at, Seq::empty()) == Ok::<
            Seq<Seq<char>>,
            parser::ErrorModel,
        >(seq![text::trim(s)]),
    decreases s.len() - at,
{
    if at < s.len() {
        assert(parser::scanned(parser::scan_start(), s[at]) == parser::scan_start());
        one_part(s, at + 1);
    } else {
        assert(s.skip(0) =~= s);
        assert(Seq::<Seq<char>>::empty().push(text::trim(s)) =~= seq![text::trim(s)]);
    }
}

proof fn equals_is(s: Seq<char>, at: int, p: int)
    requires
        0 <= at <= p < s.len(),
        calm(s),
        s[p] == '=',
        forall|i: int| at <= i < p ==> #[trigger] s[i] != '=',
    ensures
        parser::equals_from(s, parser::scan_start(), at) == Some(p),
    decreases p - at,
{
    assert(parser::scanned(parser::scan_start(), s[at]) == parser::scan_start());
    if at < p {
        equals_is(s, at + 1, p);
    }
}

/// An UPDATE names its table, what it assigns to which column, and its condition.
pub proof fn an_update_is_read(t: Seq<char>, col: Seq<char>, val: Seq<char>, c: Seq<char>)
    requires
        is_name(t),
        is_name(col),
        is_name(val),
        !text::same_fold(t, "SET"@),
        !text::same_fold(col, "WHERE"@),
        !text::same_fold(val, "WHERE"@),
        ends_well(c),
    ensures
        parser::statement(
            "UPDATE"@ + seq![' '] + (t + seq![' '] + "SET"@ + seq![' '] + ((col + seq!['='] + val) + seq![
                ' ',
            ] + "WHERE"@ + seq![' '] + c)),
        ) == Ok::<StatementModel, parser::ErrorModel>(
            StatementModel::Update {
                table: t,
                set_clause: seq![(col, val)],
                where_clause: Some(text::trim(c)),
            },
        ),
{
    heads();
    let a = col + seq!['='] + val;
    let tail = a + seq![' '] + "WHERE"@ + seq![' '] + c;
    let rest = t + seq![' '] + "SET"@ + seq![' '] + tail;
    assert(tail.last() == c.last());
    assert(rest.last() == tail.last());
    head_read("UPDATE"@, rest);
    name_is(t[0]);
    assert(rest[0] == t[0]);
    blank_before(rest);
    assert(parser::trim_start(rest) == rest);
    name_split(t, "SET"@, tail);
    trimmed_name(t);
    assignment_split(col, val, c);
    let p = seq![' '] + a;
    assert(seq![' '] + tail =~= p + seq![' '] + "WHERE"@ + seq![' '] + c);
    blank_before(c);
    let w = text::white_fn();
    let part = p + seq![' '];
    let n = col.len() as int;
    name_is(col[0]);
    name_is(val[val.len() - 1]);
    assert(a[0] == col[0] && a.last() == val.last());
    assert(text::trim(part) == a) by {
        let u = a + seq![' '];
        assert(part =~= seq![' '] + u);
        blank_before(u);
        assert(u[0] == a[0]);
        assert(text::trim_start_by(u, w) == u);
        assert(u.drop_last() =~= a);
        reveal_with_fuel(text::trim_end_by, 2);
        assert(text::trim_end_by(u, w) == a);
    }
    assert forall|i: int| 0 <= i < part.len() implies #[trigger] part[i] != '\'' && part[i] != '"'
        && part[i] != '`' && part[i] != '(' && part[i] != ')' && part[i] != ',' by {
        if 1 <= i < 1 + n {
            assert(part[i] == col[i - 1]);
            name_is(col[i - 1]);
        } else if 1 + n < i < part.len() - 1 {
            assert(part[i] == val[i - 2 - n]);
            name_is(val[i - 2 - n]);
        }
    }
    one_part(part, 0);
    assert forall|i: int| 0 <= i < a.len() implies #[trigger] a[i] != '\'' && a[i] != '"' && a[i]
        != '`' && a[i] != '(' && a[i] != ')' && (i < n ==> a[i] != '=') by {
        if i < n {
            assert(a[i] == col[i]);
            name_is(col[i]);
        } else if i > n {
            assert(a[i] == val[i - n - 1]);
            name_is(val[i - n - 1]);
        }
    }
    equals_is(a, 0, n);
    assert(a.take(n) =~= col);
    assert(a.skip(n + 1) =~= val);
    trimmed_name(col);
    trimmed_name(val);
    reveal_with_fuel(parser::assignments_from, 2);
    assert(Seq::<(Seq<char>, Seq<char>)>::empty().push((col, val)) =~= seq![(col, val)]);
}

/// A comma outside quotation and parentheses parts a list.
pub proof fn a_comma_parts_a_list(a: Seq<char>, b: Seq<char>)
    requires
        is_name(a),
        is_name(b),
    ensures
        parser::split_list(a + seq![','] + b) == Ok::<Seq<Seq<char>>, parser::ErrorModel>(seq![a, b]),
        parser::split_list(a) == Ok::<Seq<Seq<char>>, parser::ErrorModel>(seq![a]),
{
    let s = a + seq![','] + b;
    trimmed_name(a);
    trimmed_name(b);
    assert forall|i: int| 0 <= i < a.len() implies #[trigger] a[i] != '\'' && a[i] != '"' && a[i]
        != '`' && a[i] != '(' && a[i] != ')' && a[i] != ',' by {
        name_is(a[i]);
    }
    one_part(a, 0);
    first_part(s, a, b, 0);
}

proof fn first_part(s: Seq<char>, a: Seq<char>, b: Seq<char>, at: int)
    requires
        is_name(a),
        is_name(b),
        s == a + seq![','] + b,
        0 <= at <= a.len(),
    ensures
        parser::split_from(s, ',', parser::scan_start(), 0, at, Seq::empty()) == Ok::<
            Seq<Seq<char>>,
            parser::ErrorModel,
        >(seq![a, b]),
    decreases a.len() - at,
{
    let n = a.len() as int;
    if at < n {
        assert(s[at] == a[at]);
        name_is(a[at]);
        assert(parser::scanned(parser::scan_start(), s[at]) == parser::scan_start());
        first_part(s, a, b, at + 1);
    } else {
        assert(s[n] == ',');
        assert(parser::scanned(parser::scan_start(), s[n]) == parser::scan_start());
        assert(s.subrange(0, n) =~= a);
        trimmed_name(a);
        let done = Seq::<Seq<char>>::empty().push(a);
        last_part(s, a, b, n + 1, done);
        assert(done.push(b) =~= seq![a, b]);
    }
}

proof fn last_part(s: Seq<char>, a: Seq<char>, b: Seq<char>, at: int, done: Seq<Seq<char>>)
    requires
        is_name(b),
        s == a + seq![','] + b,
        a.len() + 1 <= at <= s.len(),
    ensures
        parser::split_from(
            s,
            ',',
            parser::scan_start(),
            a.len() as int + 1,
            at,
            done,
        ) == Ok::<Seq<Seq<char>>, parser::ErrorModel>(done.push(b)),
    decreases s.len() - at,
{
    let n = a.len() as int;
    if at < s.len() {
        assert(s[at] == b[at - n - 1]);
        name_is(b[at - n - 1]);
        assert(parser::scanned(parser::scan_start(), s[at]) == parser::scan_start());
        last_part(s, a, b, at + 1, done);
    } else {
        assert(s.skip(n + 1) =~= b);
        trimmed_name(b);
    }
}

proof fn white_behind(name: Seq<char>, rest: Seq<char>, at: int)
    requires
        is_name(name),
        0 <= at <= name.len(),
    ensures
        parser::white_from(name + seq![' '] + rest, at) == name.len(),
        parser::white_from(name, at) == name.len(),
    decreases name.len() - at,
{
    let s = name + seq![' '] + rest;
    if at < name.len() {
        assert(s[at] == name[at]);
        name_is(name[at]);
        white_behind(name, rest, at + 1);
    } else {
        assert(s[at] == ' ');
    }
}

/// The word behind a blank, and what follows it.
proof fn word_behind(name: Seq<char>, rest: Seq<char>)
    requires
        is_name(name),
        rest.len() > 0,
        !text::is_white(rest[0]),
    ensures
        parser::take_first_word(seq![' '] + (name + seq![' '] + rest)) == (name, rest),
        parser::take_first_word(seq![' '] + name) == (name, Seq::<char>::empty()),
{
    let s = name + seq![' '] + rest;
    name_is(name[0]);
    blank_before(s);
    blank_before(name);
    assert(s[0] == name[0]);
    assert(parser::trim_start(s) == s);
    trimmed_name(name);
    white_behind(name, rest, 0);
    assert(s.take(name.len() as int) =~= name);
    assert(s.skip(name.len() as int) =~= seq![' '] + rest);
    blank_before(rest);
    assert(parser::trim_start(rest) == rest);
    assert(name.take(name.len() as int) =~= name);
    assert(name.skip(name.len() as int) =~= Seq::<char>::empty());
}

proof fn one_name(name: Seq<char>)
    requires
        is_name(name),
    ensures
        parser::split_list(name + seq![' ']) == Ok::<Seq<Seq<char>>, parser::ErrorModel>(seq![name]),
{
    let s = name + seq![' '];
    trimmed_name(name);
    assert forall|i: int| 0 <= i < s.len() implies #[trigger] s[i] != '\'' && s[i] != '"' && s[i]
        != '`' && s[i] != '(' && s[i] != ')' && s[i] != ',' by {
        if i < name.len() {
            assert(s[i] == name[i]);
            name_is(name[i]);
        }
    }
    one_part(s, 0);
}

proof fn nothing_splits(k: Seq<char>)
    requires
        k.len() > 0,
    ensures
        parser::split_keyword(Seq::<char>::empty(), k) == (Seq::<char>::empty(), None::<Seq<char>>),
{
}

/// A SELECT names its columns and its table; without clauses it has no condition, no order and no
/// limit.
pub proof fn a_select_is_read(p: Seq<char>, t: Seq<char>)
    requires
        is_name(p),
        is_name(t),
        !text::same_fold(p, "FROM"@),
    ensures
        parser::statement("SELECT"@ + seq![' '] + (p + seq![' '] + "FROM"@ + seq![' '] + t)) == Ok::<
            StatementModel,
            parser::ErrorModel,
        >(
            StatementModel::Select {
                columns: seq![p],
                table: t,
                where_clause: None,
                order_by: None,
                limit: None,
            },
        ),
{
    heads();
    let body = p + seq![' '] + "FROM"@ + seq![' '] + t;
    name_is(p[0]);
    name_is(t[t.len() - 1]);
    assert(body[0] == p[0]);
    assert(body.last() == t.last());
    head_read("SELECT"@, body);
    blank_before(body);
    assert(parser::trim_start(body) == body);
    name_split(p, "FROM"@, t);
    word_behind(t, seq!['x']);
    one_name(p);
    trimmed_name(t);
    nothing_splits("LIMIT"@);
    nothing_splits("ORDER BY"@);
    nothing_splits("WHERE"@);
}

proof fn keyword_first(k: Seq<char>, rest: Seq<char>)
    requires
        k.len() > 0,
        calm(seq![k[0]]),
    ensures
        parser::split_keyword(k + seq![' '] + rest, k) == (
            Seq::<char>::empty(),
            Some(seq![' '] + rest),
        ),
{
    let s = k + seq![' '] + rest;
    assert(s.subrange(0, k.len() as int) =~= k);
    assert(s[k.len() as int] == ' ');
    assert(s[0] == k[0]);
    assert(seq![k[0]][0] == s[0]);
    assert(parser::keyword_at(s, k, 0));
    assert(parser::scanned(parser::scan_start(), s[0]) == parser::scan_start());
    assert(s.take(0) =~= Seq::<char>::empty());
    assert(s.skip(k.len() as int) =~= seq![' '] + rest);
}

/// What stands behind WHERE and LIMIT is the condition and the limit of a SELECT.
#[verifier::rlimit(30)]
pub proof fn a_select_has_its_clauses(
    p: Seq<char>,
    t: Seq<char>,
    col: Seq<char>,
    val: Seq<char>,
    n: u32,
)
    requires
        is_name(p),
        is_name(t),
        is_name(col),
        is_name(val),
        !text::same_fold(p, "FROM"@),
        !text::same_fold(col, "LIMIT"@),
        !text::same_fold(val, "LIMIT"@),
    ensures
        parser::statement(
            "SELECT"@ + seq![' '] + (p + seq![' '] + "FROM"@ + seq![' '] + (t + seq![' '] + ("WHERE"@
                + seq![' '] + (col + seq!['='] + val) + seq![' '] + "LIMIT"@ + seq![' ']
                + num::decimal(n as nat)))),
        ) == Ok::<StatementModel, parser::ErrorModel>(
            StatementModel::Select {
                columns: seq![p],
                table: t,
                where_clause: Some(col + seq!['='] + val),
                order_by: None,
                limit: Some(n),
            },
        ),
{
    heads();
    let d = num::decimal(n as nat);
    let a = col + seq!['='] + val;
    let pre = "WHERE"@ + seq![' '] + a;
    let tail = pre + seq![' '] + "LIMIT"@ + seq![' '] + d;
    let rest = t + seq![' '] + tail;
    let body = p + seq![' '] + "FROM"@ + seq![' '] + rest;
    num::decimal_digits(n as nat);
    num::parsed_decimal(n as nat, u32::MAX as nat);
    assert(is_name(d));
    name_is(p[0]);
    name_is(d[d.len() - 1]);
    assert(tail.last() == d.last());
    assert(rest.last() == tail.last());
    assert(body.last() == rest.last());
    assert(body[0] == p[0]);
    head_read("SELECT"@, body);
    blank_before(body);
    assert(parser::trim_start(body) == body);
    name_split(p, "FROM"@, rest);
    assert(tail[0] == 'W');
    word_behind(t, tail);
    one_name(p);
    trimmed_name(t);
    limit_splits(col, val, d);
    let left = pre + seq![' '];
    no_order(col, val);
    assert(left =~= "WHERE"@ + seq![' '] + (a + seq![' ']));
    keyword_first("WHERE"@, a + seq![' ']);
    assignment_trimmed(col, val);
    one_word(d);
}

proof fn run_on(s: Seq<char>, at: int)
    requires
        1 <= at <= s.len(),
        forall|i: int| 1 <= i < s.len() ==> !text::is_white(#[trigger] s[i]),
    ensures
        search::split_by(s, text::white_fn(), 1, at) == seq![s.subrange(1, s.len() as int)],
    decreases s.len() - at,
{
    if at < s.len() {
        assert(!text::is_white(s[at]));
        run_on(s, at + 1);
    }
}

proof fn one_word(d: Seq<char>)
    requires
        is_name(d),
    ensures
        search::words(seq![' '] + d) == seq![d],
{
    let s = seq![' '] + d;
    let p = search::nonempty_fn();
    let none = Seq::<char>::empty();
    assert(s[0] == ' ');
    assert forall|i: int| 1 <= i < s.len() implies !text::is_white(#[trigger] s[i]) by {
        assert(s[i] == d[i - 1]);
        name_is(d[i - 1]);
    }
    run_on(s, 1);
    assert(s.subrange(1, s.len() as int) =~= d);
    assert(s.subrange(0, 0) =~= none);
    assert(search::split_by(s, text::white_fn(), 0, 0) =~= seq![none] + seq![d]);
    Seq::filter_distributes_over_add(seq![none], seq![d], p);
    search::singleton_filter(none, p);
    search::singleton_filter(d, p);
    assert(Seq::<Seq<char>>::empty() + seq![d] =~= seq![d]);
}

proof fn assignment_trimmed(col: Seq<char>, val: Seq<char>)
    requires
        is_name(col),
        is_name(val),
    ensures
        text::trim(seq![' '] + ((col + seq!['='] + val) + seq![' '])) == col + seq!['='] + val,
{
    let w = text::white_fn();
    let a = col + seq!['='] + val;
    let u = a + seq![' '];
    name_is(col[0]);
    name_is(val[val.len() - 1]);
    assert(a[0] == col[0] && a.last() == val.last());
    blank_before(u);
    assert(u[0] == a[0]);
    assert(text::trim_start_by(u, w) == u);
    assert(u.drop_last() =~= a);
    reveal_with_fuel(text::trim_end_by, 2);
    assert(text::trim_end_by(u, w) == a);
}

proof fn limit_splits(col: Seq<char>, val: Seq<char>, d: Seq<char>)
    requires
        is_name(col),
        is_name(val),
        !text::same_fold(col, "LIMIT"@),
        !text::same_fold(val, "LIMIT"@),
    ensures
        ({
            let pre = "WHERE"@ + seq![' '] + (col + seq!['='] + val);
            parser::split_keyword(pre + seq![' '] + "LIMIT"@ + seq![' '] + d, "LIMIT"@) == (
                pre + seq![' '],
                Some(seq![' '] + d),
            )
        }),
{
    heads();
    let k = "LIMIT"@;
    let pre = "WHERE"@ + seq![' '] + (col + seq!['='] + val);
    let s = pre + seq![' '] + k + seq![' '] + d;
    let n = col.len() as int;
    assert(s.subrange(0, 5) =~= "WHERE"@);
    assert(s[5] == ' ');
    assert(s.subrange(6, 6 + n) =~= col);
    assert(s[6 + n] == '=');
    assert(s.subrange(7 + n, 7 + n + val.len()) =~= val);
    assert(s[7 + n + val.len()] == ' ');
    assert(!text::same_fold("WHERE"@, k)) by {
        assert(text::fold("WHERE"@)[0] == text::spec_lower('W'));
        assert(text::fold(k)[0] == text::spec_lower('L'));
    }
    assert forall|i: int| 0 <= i < pre.len() implies !#[trigger] parser::keyword_at(s, k, i) by {
        if i < 5 {
            no_keyword_in_name(s, k, 0, "WHERE"@, i);
        } else if i == 5 {
            no_keyword_at_blank(s, k, i);
        } else if i < 6 + n {
            no_keyword_in_name(s, k, 6, col, i);
        } else if i == 6 + n {
            no_keyword_at_blank(s, k, i);
        } else {
            no_keyword_in_name(s, k, 7 + n, val, i);
        }
    }
    calm_condition(col, val);
    split_behind(pre, k, d);
}

proof fn calm_condition(col: Seq<char>, val: Seq<char>)
    requires
        is_name(col),
        is_name(val),
    ensures
        calm("WHERE"@ + seq![' '] + (col + seq!['='] + val)),
{
    heads();
    let pre = "WHERE"@ + seq![' '] + (col + seq!['='] + val);
    let n = col.len() as int;
    assert forall|i: int| 0 <= i < pre.len() implies #[trigger] pre[i] != '\'' && pre[i] != '"'
        && pre[i] != '`' && pre[i] != '(' && pre[i] != ')' by {
        if 6 <= i < 6 + n {
            assert(pre[i] == col[i - 6]);
            name_is(col[i - 6]);
        } else if i > 6 + n {
            assert(pre[i] == val[i - 7 - n]);
            name_is(val[i - 7 - n]);
        } else if i < 5 {
            assert(pre[i] == "WHERE"@[i]);
        }
    }
}

proof fn no_order(col: Seq<char>, val: Seq<char>)
    requires
        is_name(col),
        is_name(val),
    ensures
        ({
            let left = "WHERE"@ + seq![' '] + (col + seq!['='] + val) + seq![' '];
            parser::split_keyword(left, "ORDER BY"@) == (left, None::<Seq<char>>)
        }),
{
    heads();
    let k = "ORDER BY"@;
    let pre = "WHERE"@ + seq![' '] + (col + seq!['='] + val);
    let left = pre + seq![' '];
    let n = col.len() as int;
    calm_condition(col, val);
    assert(calm(left)) by {
        assert forall|i: int| 0 <= i < left.len() implies #[trigger] left[i] != '\'' && left[i] != '"'
            && left[i] != '`' && left[i] != '(' && left[i] != ')' by {
            if i < pre.len() {
                assert(left[i] == pre[i]);
            }
        }
    }
    assert forall|i: int| 0 <= i && i + k.len() <= left.len() implies !#[trigger] parser::keyword_at(
        left,
        k,
        i,
    ) by {
        let part = left.subrange(i, i + 8);
        assert(part[0] == left[i] && part[5] == left[i + 5]);
        assert(text::fold(part)[0] == text::spec_lower(left[i]));
        assert(text::fold(part)[5] == text::spec_lower(left[i + 5]));
        assert(text::fold(k)[0] == text::spec_lower('O'));
        assert(text::fold(k)[5] == text::spec_lower(' '));
        if i == 0 {
            assert(left[0] == 'W');
        } else if i + 5 < 6 + n {
            assert(left[i + 5] == col[i - 1]);
            name_is(col[i - 1]);
        } else if i + 5 == 6 + n {
            assert(left[i + 5] == '=');
        } else {
            assert(left[i + 5] == val[i - 2 - n]);
            name_is(val[i - 2 - n]);
        }
    }
    keyword_never(left, k, 0);
}

/// What stands behind ORDER BY is the order of a SELECT.
pub proof fn a_select_has_its_order(p: Seq<char>, t: Seq<char>, o: Seq<char>)
    requires
        is_name(p),
        is_name(t),
        is_name(o),
        !text::same_fold(p, "FROM"@),
        !text::same_fold(o, "LIMIT"@),
    ensures
        parser::statement(
            "SELECT"@ + seq![' '] + (p + seq![' '] + "FROM"@ + seq![' '] + (t + seq![' '] + (
            "ORDER BY"@ + seq![' '] + o))),
        ) == Ok::<StatementModel, parser::ErrorModel>(
            StatementModel::Select {
                columns: seq![p],
                table: t,
                where_clause: None,
                order_by: Some(o),
                limit: None,
            },
        ),
{
    heads();
    let k = "LIMIT"@;
    let tail = "ORDER BY"@ + seq![' '] + o;
    let rest = t + seq![' '] + tail;
    let body = p + seq![' '] + "FROM"@ + seq![' '] + rest;
    name_is(p[0]);
    name_is(o[o.len() - 1]);
    assert(tail.last() == o.last());
    assert(rest.last() == tail.last());
    assert(body.last() == rest.last());
    assert(body[0] == p[0]);
    head_read("SELECT"@, body);
    blank_before(body);
    assert(parser::trim_start(body) == body);
    name_split(p, "FROM"@, rest);
    assert(tail[0] == 'O');
    word_behind(t, tail);
    one_name(p);
    trimmed_name(t);
    trimmed_name(o);
    assert(calm(tail)) by {
        assert forall|i: int| 0 <= i < tail.len() implies #[trigger] tail[i] != '\'' && tail[i] != '"'
            && tail[i] != '`' && tail[i] != '(' && tail[i] != ')' by {
            if i >= 9 {
                assert(tail[i] == o[i - 9]);
                name_is(o[i - 9]);
            } else if i < 8 {
                assert(tail[i] == "ORDER BY"@[i]);
            }
        }
    }
    assert(tail.subrange(9, o.len() as int + 9) =~= o);
    assert forall|i: int| 0 <= i && i + k.len() <= tail.len() implies !#[trigger] parser::keyword_at(
        tail,
        k,
        i,
    ) by {
        if i < 8 {
            let part = tail.subrange(i, i + 5);
            assert(part[0] == tail[i]);
            assert(tail[i] == "ORDER BY"@[i]);
            assert(text::fold(part)[0] == text::spec_lower(tail[i]));
            assert(text::fold(k)[0] == text::spec_lower('L'));
        } else if i == 8 {
            assert(tail[8] == ' ');
            no_keyword_at_blank(tail, k, i);
        } else {
            no_keyword_in_name(tail, k, 9, o, i);
        }
    }
    keyword_never(tail, k, 0);
    keyword_first("ORDER BY"@, o);
    blank_before(o);
    nothing_splits("WHERE"@);
}

/// A text in parentheses.
spec fn enclosed(inner: Seq<char>) -> Seq<char> {
    seq!['('] + inner + seq![')']
}

spec fn inside() -> ScanState {
    parser::scanned(parser::scan_start(), '(')
}

proof fn in_and_out()
    ensures
        inside().depth == 1,
        !inside().escaped,
        inside().quote is None,
        parser::scanned(inside(), ')') == parser::scan_start(),
        !parser::top_level(inside()),
        parser::top_level(parser::scan_start()),
{
}

proof fn entry_scanned(inner: Seq<char>, at: int)
    requires
        calm(inner),
        1 <= at <= inner.len() + 1,
    ensures
        parser::split_from(enclosed(inner), ',', inside(), 0, at, Seq::empty()) == Ok::<
            Seq<Seq<char>>,
            parser::ErrorModel,
        >(seq![enclosed(inner)]),
        parser::closing_from(enclosed(inner), inside(), at) == Some(inner.len() as int + 1),
    decreases inner.len() + 1 - at,
{
    let e = enclosed(inner);
    let w = text::white_fn();
    in_and_out();
    if at <= inner.len() {
        assert(e[at] == inner[at - 1]);
        assert(parser::scanned(inside(), e[at]) == inside());
        entry_scanned(inner, at + 1);
    } else {
        assert(e[at] == ')');
        assert(e[0] == '(');
        assert(e.last() == ')');
        assert(text::trim(e) == e);
        assert(e.skip(0) =~= e);
        assert(Seq::<Seq<char>>::empty().push(e) =~= seq![e]);
        reveal_with_fuel(parser::split_from, 2);
    }
}

proof fn entry_read(a: Seq<char>, b: Seq<char>)
    requires
        is_name(a),
        is_name(b),
    ensures
        ({
            let e = enclosed(a + seq![','] + b);
            &&& parser::split_list(e) == Ok::<Seq<Seq<char>>, parser::ErrorModel>(seq![e])
            &&& text::trim(e) == e
            &&& text::trim(seq![' '] + e) == e
            &&& parser::entry_values(e) == Ok::<Seq<Seq<char>>, parser::ErrorModel>(seq![a, b])
        }),
{
    let inner = a + seq![','] + b;
    let e = enclosed(inner);
    calm_pair(a, b);
    in_and_out();
    entry_scanned(inner, 1);
    assert(e[0] == '(');
    assert(e.last() == ')');
    assert(text::trim(e) == e);
    blank_before(e);
    assert(e.subrange(1, inner.len() as int + 1) =~= inner);
    assert(e.skip(inner.len() as int + 2) =~= Seq::<char>::empty());
    assert(text::trim(Seq::<char>::empty()) =~= Seq::<char>::empty());
    a_comma_parts_a_list(a, b);
}

proof fn calm_pair(a: Seq<char>, b: Seq<char>)
    requires
        is_name(a),
        is_name(b),
    ensures
        calm(a + seq![','] + b),
{
    let inner = a + seq![','] + b;
    assert forall|i: int| 0 <= i < inner.len() implies #[trigger] inner[i] != '\'' && inner[i] != '"'
        && inner[i] != '`' && inner[i] != '(' && inner[i] != ')' by {
        if i < a.len() {
            assert(inner[i] == a[i]);
            name_is(a[i]);
        } else if i > a.len() {
            assert(inner[i] == b[i - a.len() - 1]);
            name_is(b[i - a.len() - 1]);
        }
    }
}

/// The target of an INSERT, with the columns in parentheses.
spec fn target_of(t: Seq<char>, inner: Seq<char>) -> Seq<char> {
    t + seq![' '] + enclosed(inner)
}

proof fn values_found(t: Seq<char>, inner: Seq<char>, rest: Seq<char>, at: int)
    requires
        is_name(t),
        calm(inner),
        !text::same_fold(t, "VALUES"@),
        0 <= at <= t.len() + inner.len() + 4,
    ensures
        ({
            let s = target_of(t, inner) + seq![' '] + "VALUES"@ + seq![' '] + rest;
            let n = t.len() as int;
            let m = inner.len() as int;
            parser::keyword_from(
                s,
                "VALUES"@,
                if n + 1 < at <= n + 2 + m {
                    inside()
                } else {
                    parser::scan_start()
                },
                at,
            ) == Some(n + m + 4)
        }),
    decreases t.len() + inner.len() + 4 - at,
{
    heads();
    in_and_out();
    let k = "VALUES"@;
    let p = target_of(t, inner);
    let s = p + seq![' '] + k + seq![' '] + rest;
    let n = t.len() as int;
    let m = inner.len() as int;
    assert(p.len() == n + m + 3);
    if at < n + m + 4 {
        values_found(t, inner, rest, at + 1);
        if at < n {
            assert(s[at] == t[at]);
            name_is(t[at]);
            assert(s.subrange(0, n) =~= t);
            assert(s[n] == ' ');
            no_keyword_in_name(s, k, 0, t, at);
            assert(parser::scanned(parser::scan_start(), s[at]) == parser::scan_start());
        } else if at == n {
            assert(s[at] == ' ');
            no_keyword_at_blank(s, k, at);
        } else if at == n + 1 {
            assert(s[at] == '(');
        } else if at <= n + 1 + m {
            assert(s[at] == inner[at - n - 2]);
            assert(parser::scanned(inside(), s[at]) == inside());
        } else if at == n + m + 2 {
            assert(s[at] == ')');
            let part = s.subrange(at, at + 6);
            assert(part[0] == ')');
            assert(text::fold(part)[0] == text::spec_lower(')'));
            assert(text::fold(k)[0] == text::spec_lower('V'));
        } else {
            assert(s[at] == ' ');
            no_keyword_at_blank(s, k, at);
        }
    } else {
        keyword_stands(p, k, rest);
        assert(s[at] == k[0]);
        assert(parser::scanned(parser::scan_start(), s[at]) == parser::scan_start());
    }
}

proof fn target_read(t: Seq<char>, a: Seq<char>, b: Seq<char>)
    requires
        is_name(t),
        is_name(a),
        is_name(b),
    ensures
        parser::insert_target(target_of(t, a + seq![','] + b) + seq![' ']) == Ok::<
            (Seq<char>, Seq<Seq<char>>),
            parser::ErrorModel,
        >((t, seq![a, b])),
{
    let inner = a + seq![','] + b;
    let s = target_of(t, inner) + seq![' '];
    let n = t.len() as int;
    let m = inner.len() as int;
    calm_pair(a, b);
    assert(s.take(n) =~= t);
    first_parenthesis(t, s, 0);
    target_closed(t, inner, n + 2);
    in_and_out();
    assert(s[n + 1] == '(');
    assert(parser::closing_from(s, parser::scan_start(), n + 1) == Some(n + m + 2));
    assert(s.subrange(n + 2, n + m + 2) =~= inner);
    assert(s.take(n + 1) =~= t + seq![' ']);
    a_comma_parts_a_list(a, b);
    trimmed_name(t);
}

proof fn first_parenthesis(t: Seq<char>, s: Seq<char>, at: int)
    requires
        is_name(t),
        0 <= at <= t.len() + 1,
        t.len() + 1 < s.len(),
        s.take(t.len() as int) == t,
        s[t.len() as int] == ' ',
        s[t.len() as int + 1] == '(',
    ensures
        search::find_char_from(s, '(', at) == Some(t.len() as int + 1),
    decreases t.len() + 1 - at,
{
    if at < t.len() {
        assert(s.take(t.len() as int)[at] == s[at]);
        name_is(t[at]);
        first_parenthesis(t, s, at + 1);
    } else if at == t.len() {
        first_parenthesis(t, s, at + 1);
    }
}

proof fn target_closed(t: Seq<char>, inner: Seq<char>, at: int)
    requires
        calm(inner),
        t.len() + 2 <= at <= t.len() + inner.len() + 2,
    ensures
        parser::closing_from(target_of(t, inner) + seq![' '], inside(), at) == Some(
            t.len() as int + inner.len() + 2,
        ),
    decreases t.len() + inner.len() + 2 - at,
{
    let s = target_of(t, inner) + seq![' '];
    in_and_out();
    if at < t.len() + inner.len() + 2 {
        assert(s[at] == inner[at - t.len() - 2]);
        assert(parser::scanned(inside(), s[at]) == inside());
        target_closed(t, inner, at + 1);
    } else {
        assert(s[at] == ')');
    }
}

/// An INSERT names its table, its columns and, in their order, its values.
#[verifier::rlimit(30)]
pub proof fn an_insert_is_read(
    t: Seq<char>,
    a: Seq<char>,
    b: Seq<char>,
    x: Seq<char>,
    y: Seq<char>,
)
    requires
        is_name(t),
        is_name(a),
        is_name(b),
        is_name(x),
        is_name(y),
        !text::same_fold(t, "VALUES"@),
    ensures
        parser::statement(
            "INSERT"@ + seq![' '] + ("INTO"@ + seq![' '] + (t + seq![' '] + (seq!['('] + (a + seq![
                ',',
            ] + b) + seq![')']) + seq![' '] + "VALUES"@ + seq![' '] + (seq!['('] + (x + seq![',']
                + y) + seq![')']))),
        ) == Ok::<StatementModel, parser::ErrorModel>(
            StatementModel::Insert { table: t, columns: seq![a, b], values: seq![seq![x, y]] },
        ),
{
    heads();
    let inner = a + seq![','] + b;
    let e = enclosed(x + seq![','] + y);
    let p = target_of(t, inner);
    let body = p + seq![' '] + "VALUES"@ + seq![' '] + e;
    let rest = "INTO"@ + seq![' '] + body;
    let n = t.len() as int;
    let m = inner.len() as int;
    name_is(t[0]);
    assert(body[0] == t[0]);
    assert(e.last() == ')');
    assert(body.last() == e.last());
    assert(rest.last() == body.last());
    head_read("INSERT"@, rest);
    blank_before(rest);
    assert(rest[0] == 'I');
    assert(parser::trim_start(rest) == rest);
    assert(rest.take(4) =~= "INTO"@);
    assert(rest[4] == ' ');
    assert(rest.skip(4) =~= seq![' '] + body);
    blank_before(body);
    assert(parser::trim_start(body) == body);
    calm_pair(a, b);
    values_found(t, inner, e, 0);
    assert(body.take(n + m + 4) =~= p + seq![' ']);
    assert(body.skip(n + m + 10) =~= seq![' '] + e);
    target_read(t, a, b);
    entry_read(x, y);
    reveal_with_fuel(parser::entries_from, 2);
    assert(Seq::<Seq<Seq<char>>>::empty().push(seq![x, y]) =~= seq![seq![x, y]]);
}

} // verus!
