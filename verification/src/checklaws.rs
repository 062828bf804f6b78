//! What check constraints say of rows.
use crate::checks;
use crate::checks::CheckTruth;
use crate::decimals;
use crate::order;
use crate::order::Sense;
use crate::row::RowModel;
use crate::schema;
use crate::schema::{ColumnModel, MomentModel, SchemaModel};
use crate::search;
use crate::text;
use crate::values;
use vstd::prelude::*;

verus! {

/// Whether a character stands for itself in an expression: a letter, a digit, or one of `_`, `.`
/// and `-`.
pub open spec fn plain_char(c: char) -> bool {
    ('a' <= c && c <= 'z') || ('A' <= c && c <= 'Z') || ('0' <= c && c <= '9') || c == '_' || c
        == '.' || c == '-'
}

/// Whether a text is a plain word.
pub open spec fn plain(s: Seq<char>) -> bool {
    s.len() > 0 && forall|i: int| 0 <= i < s.len() ==> plain_char(#[trigger] s[i])
}

/// Whether a text holds neither parentheses nor quotes.
spec fn open_text(s: Seq<char>) -> bool {
    forall|i: int|
        0 <= i < s.len() ==> !checks::is_quote(#[trigger] s[i]) && s[i] != '(' && s[i] != ')'
}

proof fn plain_is(c: char)
    requires
        plain_char(c),
    ensures
        !text::is_white(c),
        !checks::is_quote(c),
        c != '(' && c != ')' && c != '`' && c != '=' && c != '<' && c != '>' && c != '!' && c != ' ',
        text::spec_upper(c) != ' ',
{
}

proof fn outside_none(s: Seq<char>, hay: Seq<char>, needle: Seq<char>, at: int)
    requires
        0 <= at <= s.len(),
        open_text(s),
        forall|p: int| at <= p < s.len() ==> !#[trigger] search::stands_at(hay, needle, p),
    ensures
        checks::outside(s, hay, needle, at, 0, None) is None,
    decreases s.len() - at,
{
    if at < s.len() {
        assert(!search::stands_at(hay, needle, at));
        outside_none(s, hay, needle, at + 1);
    }
}

proof fn outside_some(s: Seq<char>, hay: Seq<char>, needle: Seq<char>, at: int, p: int)
    requires
        0 <= at <= p < s.len(),
        open_text(s),
        search::stands_at(hay, needle, p),
        forall|q: int| at <= q < p ==> !#[trigger] search::stands_at(hay, needle, q),
    ensures
        checks::outside(s, hay, needle, at, 0, None) == Some(p),
    decreases p - at,
{
    if at < p {
        assert(!search::stands_at(hay, needle, at));
        outside_some(s, hay, needle, at + 1, p);
    }
}

proof fn untrimmed(s: Seq<char>)
    requires
        s.len() > 0,
        !text::is_white(s[0]),
        !text::is_white(s.last()),
    ensures
        text::trim(s) == s,
{
    assert(text::trim_start_by(s, text::white_fn()) == s);
}

proof fn unmarked(s: Seq<char>)
    requires
        plain(s),
    ensures
        checks::column_name(s) == s,
{
    plain_is(s[0]);
    plain_is(s[s.len() - 1]);
    untrimmed(s);
    assert(text::trim_start_by(s, text::char_fn('`')) == s);
}

proof fn stands_two(hay: Seq<char>, a: char, b: char, needle: Seq<char>, p: int)
    requires
        needle == seq![a, b],
    ensures
        search::stands_at(hay, needle, p) <==> 0 <= p && p + 2 <= hay.len() && hay[p] == a && hay[p
            + 1] == b,
{
    if search::stands_at(hay, needle, p) {
        assert(hay.subrange(p, p + 2)[0] == a);
        assert(hay.subrange(p, p + 2)[1] == b);
    }
    if 0 <= p && p + 2 <= hay.len() && hay[p] == a && hay[p + 1] == b {
        assert(hay.subrange(p, p + 2) =~= needle);
    }
}

proof fn stands_one(hay: Seq<char>, a: char, needle: Seq<char>, p: int)
    requires
        needle == seq![a],
    ensures
        search::stands_at(hay, needle, p) <==> 0 <= p < hay.len() && hay[p] == a,
{
    if search::stands_at(hay, needle, p) {
        assert(hay.subrange(p, p + 1)[0] == a);
    }
    if 0 <= p < hay.len() && hay[p] == a {
        assert(hay.subrange(p, p + 1) =~= needle);
    }
}

proof fn the_operators()
    ensures
        checks::operator(0) == seq!['>', '='],
        checks::operator(1) == seq!['<', '='],
        checks::operator(2) == seq!['<', '>'],
        checks::operator(3) == seq!['!', '='],
        checks::operator(4) == seq!['>'],
        checks::operator(5) == seq!['<'],
        checks::operator(6) == seq!['='],
{
    reveal_strlit(">=");
    reveal_strlit("<=");
    reveal_strlit("<>");
    reveal_strlit("!=");
    reveal_strlit(">");
    reveal_strlit("<");
    reveal_strlit("=");
    assert(">="@ =~= seq!['>', '=']);
    assert("<="@ =~= seq!['<', '=']);
    assert("<>"@ =~= seq!['<', '>']);
    assert("!="@ =~= seq!['!', '=']);
    assert(">"@ =~= seq!['>']);
    assert("<"@ =~= seq!['<']);
    assert("="@ =~= seq!['=']);
}

/// Whether the characters of a comparison are those of its parts.
proof fn comparison_chars(name: Seq<char>, op: Seq<char>, value: Seq<char>, i: int)
    requires
        0 <= i < name.len() + op.len() + value.len(),
    ensures
        ({
            let e = name + op + value;
            &&& i < name.len() ==> e[i] == name[i]
            &&& name.len() <= i < name.len() + op.len() ==> e[i] == op[i - name.len()]
            &&& name.len() + op.len() <= i ==> e[i] == value[i - name.len() - op.len()]
        }),
{
}

proof fn operator_absent(name: Seq<char>, k: int, value: Seq<char>, j: int)
    requires
        plain(name),
        plain(value),
        0 <= j < k < 7,
    ensures
        checks::operator_at(name + checks::operator(k) + value, checks::operator(j)) is None,
{
    the_operators();
    let op = checks::operator(k);
    let other = checks::operator(j);
    let e = name + op + value;
    let n = name.len() as int;
    comparison_open(name, k, value);
    assert forall|p: int| 0 <= p < e.len() implies !#[trigger] search::stands_at(e, other, p) by {
        if p < n {
            plain_is(name[p]);
        } else if p >= n + op.len() {
            plain_is(value[p - n - op.len()]);
        }
        if p + 1 >= n + op.len() && p + 1 < e.len() {
            plain_is(value[p + 1 - n - op.len()]);
        }
        if j <= 3 {
            stands_two(e, other[0], other[1], other, p);
        } else {
            stands_one(e, other[0], other, p);
        }
    }
    outside_none(e, e, other, 0);
}

proof fn comparison_open(name: Seq<char>, k: int, value: Seq<char>)
    requires
        plain(name),
        plain(value),
        0 <= k < 7,
    ensures
        open_text(name + checks::operator(k) + value),
        forall|i: int|
            0 <= i < (name + checks::operator(k) + value).len() ==> (#[trigger] (name
                + checks::operator(k) + value)[i]) != ' ' && text::spec_upper(
                (name + checks::operator(k) + value)[i],
            ) != ' ' && !text::is_white((name + checks::operator(k) + value)[i]),
{
    the_operators();
    let op = checks::operator(k);
    let e = name + op + value;
    let n = name.len() as int;
    assert forall|i: int| 0 <= i < e.len() implies !checks::is_quote(#[trigger] e[i]) && e[i] != '('
        && e[i] != ')' && e[i] != ' ' && text::spec_upper(e[i]) != ' ' && !text::is_white(e[i]) by {
        if i < n {
            plain_is(name[i]);
        } else if i >= n + op.len() {
            plain_is(value[i - n - op.len()]);
        }
    }
}

proof fn first_is(name: Seq<char>, k: int, value: Seq<char>, j: int)
    requires
        plain(name),
        plain(value),
        0 <= j <= k < 7,
    ensures
        checks::first_operator(name + checks::operator(k) + value, j) == Some(
            (k, name.len() as int),
        ),
    decreases k - j,
{
    let op = checks::operator(k);
    let e = name + op + value;
    if j < k {
        operator_absent(name, k, value, j);
        first_is(name, k, value, j + 1);
    } else {
        the_operators();
        let n = name.len() as int;
        comparison_open(name, k, value);
        assert(e.subrange(n, n + op.len()) =~= op);
        assert forall|q: int| 0 <= q < n implies !#[trigger] search::stands_at(e, op, q) by {
            plain_is(name[q]);
            if k <= 3 {
                stands_two(e, op[0], op[1], op, q);
            } else {
                stands_one(e, op[0], op, q);
            }
        }
        outside_some(e, e, op, 0, n);
    }
}

/// A text without blanks holds no word that begins with one.
proof fn no_blank_no_keyword(s: Seq<char>, keyword: Seq<char>)
    requires
        open_text(s),
        keyword.len() > 0,
        keyword[0] == ' ',
        forall|i: int| 0 <= i < s.len() ==> text::spec_upper(#[trigger] s[i]) != ' ',
    ensures
        checks::keyword_at(s, keyword) is None,
        !search::ends_with(text::upper(s), keyword),
{
    let u = text::upper(s);
    assert forall|p: int| 0 <= p < s.len() implies !#[trigger] search::stands_at(u, keyword, p) by {
        if search::stands_at(u, keyword, p) {
            assert(u.subrange(p, p + keyword.len())[0] == keyword[0]);
            assert(u[p] == text::spec_upper(s[p]));
        }
    }
    outside_none(s, u, keyword, 0);
    if search::ends_with(u, keyword) {
        let p = u.len() - keyword.len();
        assert(u.skip(p)[0] == keyword[0]);
        assert(u[p] == text::spec_upper(s[p]));
    }
}

proof fn keyword_heads()
    ensures
        " OR "@ == seq![' ', 'O', 'R', ' '],
        " AND "@ == seq![' ', 'A', 'N', 'D', ' '],
        " IS NULL"@ == seq![' ', 'I', 'S', ' ', 'N', 'U', 'L', 'L'],
        " IS NOT NULL"@ == seq![' ', 'I', 'S', ' ', 'N', 'O', 'T', ' ', 'N', 'U', 'L', 'L'],
{
    reveal_strlit(" OR ");
    reveal_strlit(" AND ");
    reveal_strlit(" IS NULL");
    reveal_strlit(" IS NOT NULL");
    assert(" OR "@ =~= seq![' ', 'O', 'R', ' ']);
    assert(" AND "@ =~= seq![' ', 'A', 'N', 'D', ' ']);
    assert(" IS NULL"@ =~= seq![' ', 'I', 'S', ' ', 'N', 'U', 'L', 'L']);
    assert(" IS NOT NULL"@ =~= seq![' ', 'I', 'S', ' ', 'N', 'O', 'T', ' ', 'N', 'U', 'L', 'L']);
}

proof fn comparison_truth(
    name: Seq<char>,
    k: int,
    value: Seq<char>,
    row: RowModel,
    columns: Seq<ColumnModel>,
)
    requires
        plain(name),
        plain(value),
        0 <= k < 7,
        schema::has_column(columns, name),
    ensures
        checks::truth(name + checks::operator(k) + value, row, columns) == (if row.is_null(name) {
            Ok::<CheckTruth, Seq<char>>(CheckTruth::Unknown)
        } else {
            match row.get(name) {
                None => Err("Unknown column '"@ + name + "' in check constraint"@),
                Some(actual) => Ok(
                    checks::truth_of(
                        checks::operator_holds(
                            k,
                            checks::check_sense(actual, text::bytes_of(value)),
                        ),
                    ),
                ),
            }
        }),
{
    the_operators();
    keyword_heads();
    let op = checks::operator(k);
    let e = name + op + value;
    let n = name.len() as int;
    comparison_open(name, k, value);
    assert(e[0] == name[0]);
    assert(e.last() == value.last());
    plain_is(name[0]);
    plain_is(value[value.len() - 1]);
    plain_is(value[0]);
    untrimmed(e);
    assert(checks::bare(e) == e);
    no_blank_no_keyword(e, " OR "@);
    no_blank_no_keyword(e, " AND "@);
    no_blank_no_keyword(e, " IS NULL"@);
    no_blank_no_keyword(e, " IS NOT NULL"@);
    first_is(name, k, value, 0);
    assert(e.take(n) =~= name);
    assert(e.skip(n + op.len()) =~= value);
    unmarked(name);
    untrimmed(value);
    assert(checks::literal_bytes(value) == text::bytes_of(value));
}

/// Whether a comparison of a column with a value can be evaluated: the table has the column, and
/// the row a value in it that is not NULL.
pub open spec fn comparable(name: Seq<char>, row: RowModel, columns: Seq<ColumnModel>) -> bool {
    schema::has_column(columns, name) && !row.is_null(name) && row.get(name) is Some
}

/// A comparison with numbers on both sides is that of the numbers.
pub proof fn checks_compare_numbers(
    name: Seq<char>,
    value: Seq<char>,
    row: RowModel,
    columns: Seq<ColumnModel>,
    x: u128,
    y: u128,
)
    requires
        plain(name),
        plain(value),
        comparable(name, row, columns),
        checks::decimal_of(row.get(name)->0) == Some(x),
        checks::decimal_of(text::bytes_of(value)) == Some(y),
    ensures
        ({
            let a = decimals::signed_mantissa(x) * decimals::pow10(decimals::scale(y));
            let b = decimals::signed_mantissa(y) * decimals::pow10(decimals::scale(x));
            &&& says(name + ">="@ + value, row, columns, a >= b)
            &&& says(name + "<="@ + value, row, columns, a <= b)
            &&& says(name + "<>"@ + value, row, columns, a != b)
            &&& says(name + "!="@ + value, row, columns, a != b)
            &&& says(name + ">"@ + value, row, columns, a > b)
            &&& says(name + "<"@ + value, row, columns, a < b)
            &&& says(name + "="@ + value, row, columns, a == b)
        }),
{
    comparison_truth(name, 0, value, row, columns);
    comparison_truth(name, 1, value, row, columns);
    comparison_truth(name, 2, value, row, columns);
    comparison_truth(name, 3, value, row, columns);
    comparison_truth(name, 4, value, row, columns);
    comparison_truth(name, 5, value, row, columns);
    comparison_truth(name, 6, value, row, columns);
}

/// Whether an expression is true of a row, or false of it, as it should be.
pub open spec fn says(e: Seq<char>, row: RowModel, columns: Seq<ColumnModel>, b: bool) -> bool {
    checks::truth(e, row, columns) == Ok::<CheckTruth, Seq<char>>(
        if b {
            CheckTruth::True
        } else {
            CheckTruth::False
        },
    )
}

/// Where one side is no number, the bytes are compared.
pub proof fn checks_compare_bytes(
    name: Seq<char>,
    value: Seq<char>,
    row: RowModel,
    columns: Seq<ColumnModel>,
)
    requires
        plain(name),
        plain(value),
        comparable(name, row, columns),
        checks::decimal_of(row.get(name)->0) is None || checks::decimal_of(
            text::bytes_of(value),
        ) is None,
    ensures
        ({
            let a = row.get(name)->0;
            let b = text::bytes_of(value);
            let less = order::bytes_sense(a, b) == Sense::Less;
            let greater = order::bytes_sense(b, a) == Sense::Less;
            &&& says(name + ">="@ + value, row, columns, !less)
            &&& says(name + "<="@ + value, row, columns, !greater)
            &&& says(name + "<>"@ + value, row, columns, a != b)
            &&& says(name + "!="@ + value, row, columns, a != b)
            &&& says(name + ">"@ + value, row, columns, greater)
            &&& says(name + "<"@ + value, row, columns, less)
            &&& says(name + "="@ + value, row, columns, a == b)
        }),
{
    comparison_truth(name, 0, value, row, columns);
    comparison_truth(name, 1, value, row, columns);
    comparison_truth(name, 2, value, row, columns);
    comparison_truth(name, 3, value, row, columns);
    comparison_truth(name, 4, value, row, columns);
    comparison_truth(name, 5, value, row, columns);
    comparison_truth(name, 6, value, row, columns);
    crate::rowlaws::bytes_are_ordered(row.get(name)->0, text::bytes_of(value));
    crate::rowlaws::bytes_are_ordered(text::bytes_of(value), row.get(name)->0);
}

/// A comparison with NULL is neither true nor false; one of a column that is not there is an error.
pub proof fn checks_of_null_are_unknown(
    name: Seq<char>,
    op: Seq<char>,
    value: Seq<char>,
    row: RowModel,
    columns: Seq<ColumnModel>,
)
    requires
        plain(name),
        plain(value),
        op == ">="@ || op == "<="@ || op == "<>"@ || op == "!="@ || op == ">"@ || op == "<"@ || op
            == "="@,
        schema::has_column(columns, name),
        row.is_null(name),
    ensures
        checks::truth(name + op + value, row, columns) == Ok::<CheckTruth, Seq<char>>(
            CheckTruth::Unknown,
        ),
{
    let k = if op == ">="@ {
        0
    } else if op == "<="@ {
        1
    } else if op == "<>"@ {
        2
    } else if op == "!="@ {
        3
    } else if op == ">"@ {
        4
    } else if op == "<"@ {
        5
    } else {
        6int
    };
    assert(checks::operator(k) == op);
    comparison_truth(name, k, value, row, columns);
}

/// What stands between quotes is compared as it stands.
pub proof fn quotes_enclose_a_value(v: Seq<char>)
    ensures
        checks::literal_bytes(seq!['\''] + v + seq!['\'']) == text::bytes_of(v),
        checks::literal_bytes(seq!['"'] + v + seq!['"']) == text::bytes_of(v),
{
    let a = seq!['\''] + v + seq!['\''];
    let b = seq!['"'] + v + seq!['"'];
    untrimmed(a);
    untrimmed(b);
    assert(a.subrange(1, a.len() - 1) =~= v);
    assert(b.subrange(1, b.len() - 1) =~= v);
}

proof fn null_test_chars(name: Seq<char>, test: Seq<char>)
    requires
        plain(name),
        test == " IS NULL"@ || test == " IS NOT NULL"@,
    ensures
        open_text(name + test),
        text::trim(name + test) == name + test,
        checks::bare(name + test) == name + test,
        checks::keyword_at(name + test, " OR "@) is None,
        checks::keyword_at(name + test, " AND "@) is None,
        text::upper(name + test).skip(name.len() as int) == test,
{
    keyword_heads();
    let e = name + test;
    let u = text::upper(e);
    let n = name.len() as int;
    assert forall|i: int| 0 <= i < e.len() implies !checks::is_quote(#[trigger] e[i]) && e[i] != '('
        && e[i] != ')' by {
        if i < n {
            plain_is(name[i]);
        }
    }
    plain_is(name[0]);
    assert(e[0] == name[0]);
    assert(e.last() == 'L');
    untrimmed(e);
    assert forall|i: int| n <= i < e.len() implies u[i] == #[trigger] e[i] by {
        assert(e[i] == test[i - n]);
    }
    assert(u.skip(n) =~= test);
    assert forall|p: int| 0 <= p < e.len() implies !#[trigger] search::stands_at(u, " OR "@, p) by {
        if search::stands_at(u, " OR "@, p) {
            assert(u.subrange(p, p + 4)[0] == ' ');
            assert(u.subrange(p, p + 4)[1] == 'O');
            if p < n {
                plain_is(name[p]);
                assert(u[p] == text::spec_upper(name[p]));
            } else {
                assert(u[p] == test[p - n]);
                assert(u[p + 1] == test[p + 1 - n]);
            }
        }
    }
    assert forall|p: int| 0 <= p < e.len() implies !#[trigger] search::stands_at(u, " AND "@, p) by {
        if search::stands_at(u, " AND "@, p) {
            assert(u.subrange(p, p + 5)[0] == ' ');
            assert(u.subrange(p, p + 5)[1] == 'A');
            if p < n {
                plain_is(name[p]);
                assert(u[p] == text::spec_upper(name[p]));
            } else {
                assert(u[p] == test[p - n]);
                assert(u[p + 1] == test[p + 1 - n]);
            }
        }
    }
    outside_none(e, u, " OR "@, 0);
    outside_none(e, u, " AND "@, 0);
}

/// IS NULL and IS NOT NULL say whether a row has NULL in a column.
pub proof fn null_tests_say_what_is_null(name: Seq<char>, row: RowModel, columns: Seq<ColumnModel>)
    requires
        plain(name),
    ensures
        says(name + " IS NULL"@, row, columns, row.is_null(name)),
        says(name + " IS NOT NULL"@, row, columns, !row.is_null(name)),
{
    keyword_heads();
    let a = name + " IS NULL"@;
    let b = name + " IS NOT NULL"@;
    null_test_chars(name, " IS NULL"@);
    null_test_chars(name, " IS NOT NULL"@);
    unmarked(name);
    assert(a.take(name.len() as int) =~= name);
    assert(b.take(name.len() as int) =~= name);
    let u = text::upper(a);
    assert(!search::ends_with(u, " IS NOT NULL"@)) by {
        if search::ends_with(u, " IS NOT NULL"@) {
            let p = u.len() - 12;
            assert(u.skip(p)[4] == 'N');
            assert(u.skip(name.len() as int)[0] == ' ');
            assert(u[p + 4] == ' ');
        }
    }
}

// ---------------------------------------------------------------------------------------------
// AND, OR and parentheses
// ---------------------------------------------------------------------------------------------
/// Whether a text is an expression that holds no blanks, quotes and parentheses.
pub open spec fn simple(s: Seq<char>) -> bool {
    s.len() > 0 && forall|i: int|
        0 <= i < s.len() ==> plain_char(#[trigger] s[i]) || s[i] == '<' || s[i] == '>' || s[i] == '='
            || s[i] == '!'
}

proof fn joined_chars(a: Seq<char>, word: Seq<char>, b: Seq<char>)
    requires
        simple(a),
        simple(b),
        word == " OR "@ || word == " AND "@,
    ensures
        open_text(a + word + b),
        text::trim(a + word + b) == a + word + b,
        checks::bare(a + word + b) == a + word + b,
        checks::keyword_at(a + word + b, word) == Some(a.len() as int),
        word == " AND "@ ==> checks::keyword_at(a + word + b, " OR "@) is None,
{
    keyword_heads();
    let e = a + word + b;
    let u = text::upper(e);
    let n = a.len() as int;
    let m = n + word.len();
    assert forall|i: int| 0 <= i < e.len() implies !checks::is_quote(#[trigger] e[i]) && e[i] != '('
        && e[i] != ')' && ((i < n || i >= m) ==> u[i] != ' ' && !text::is_white(e[i])) by {
        assert(u[i] == text::spec_upper(e[i]));
        if i < n {
            assert(e[i] == a[i]);
        } else if i >= m {
            assert(e[i] == b[i - m]);
        } else {
            assert(e[i] == word[i - n]);
        }
    }
    assert(e[0] == a[0]);
    assert(e.last() == b.last());
    untrimmed(e);
    assert forall|i: int| n <= i < m implies u[i] == #[trigger] word[i - n] by {
        assert(u[i] == text::spec_upper(e[i]));
        assert(e[i] == word[i - n]);
    }
    assert(u.subrange(n, m) =~= word) by {
        assert forall|i: int| 0 <= i < word.len() implies u.subrange(n, m)[i] == word[i] by {
            assert(u[n + i] == word[n + i - n]);
        }
    }
    assert forall|p: int| 0 <= p < n implies !#[trigger] search::stands_at(u, word, p) by {
        if search::stands_at(u, word, p) {
            assert(u.subrange(p, p + word.len())[0] == ' ');
            assert(u[p] != ' ') by {
                assert(!checks::is_quote(e[p]));
            }
        }
    }
    outside_some(e, u, word, 0, n);
    if word == " AND "@ {
        assert(word.len() == 5);
        assert forall|p: int| 0 <= p < e.len() implies !#[trigger] search::stands_at(u, " OR "@, p) by {
            if search::stands_at(u, " OR "@, p) {
                let part = u.subrange(p, p + 4);
                assert(part[0] == ' ' && part[1] == 'O' && part[2] == 'R' && part[3] == ' ');
                assert(!checks::is_quote(e[p]));
                assert(!checks::is_quote(e[p + 3]));
                if n <= p < m {
                    assert(u[p] == word[p - n]);
                    if p + 1 < m {
                        assert(u[p + 1] == word[p + 1 - n]);
                    }
                }
            }
        }
        outside_none(e, u, " OR "@, 0);
    }
}

/// OR is true where a side is, false where both are, and unknown otherwise.
pub proof fn or_is_true_where_a_side_is(
    a: Seq<char>,
    b: Seq<char>,
    row: RowModel,
    columns: Seq<ColumnModel>,
    x: CheckTruth,
    y: CheckTruth,
)
    requires
        simple(a),
        simple(b),
        checks::truth(a, row, columns) == Ok::<CheckTruth, Seq<char>>(x),
        checks::truth(b, row, columns) == Ok::<CheckTruth, Seq<char>>(y),
    ensures
        checks::truth(a + " OR "@ + b, row, columns) matches Ok(t) && {
            &&& t == CheckTruth::True <==> x == CheckTruth::True || y == CheckTruth::True
            &&& t == CheckTruth::False <==> x == CheckTruth::False && y == CheckTruth::False
        },
{
    keyword_heads();
    joined_chars(a, " OR "@, b);
    let e = a + " OR "@ + b;
    let n = a.len() as int;
    assert(e.take(n) =~= a);
    assert(e.skip(n + 4) =~= b);
}

/// AND is true where both sides are, false where one is, and unknown otherwise.
pub proof fn and_is_false_where_a_side_is(
    a: Seq<char>,
    b: Seq<char>,
    row: RowModel,
    columns: Seq<ColumnModel>,
    x: CheckTruth,
    y: CheckTruth,
)
    requires
        simple(a),
        simple(b),
        checks::truth(a, row, columns) == Ok::<CheckTruth, Seq<char>>(x),
        checks::truth(b, row, columns) == Ok::<CheckTruth, Seq<char>>(y),
    ensures
        checks::truth(a + " AND "@ + b, row, columns) matches Ok(t) && {
            &&& t == CheckTruth::True <==> x == CheckTruth::True && y == CheckTruth::True
            &&& t == CheckTruth::False <==> x == CheckTruth::False || y == CheckTruth::False
        },
{
    keyword_heads();
    joined_chars(a, " AND "@, b);
    let e = a + " AND "@ + b;
    let n = a.len() as int;
    assert(e.take(n) =~= a);
    assert(e.skip(n + 5) =~= b);
}

proof fn closes_last(s: Seq<char>, at: int)
    requires
        1 <= at < s.len(),
        s.last() == ')',
        forall|i: int|
            1 <= i < s.len() - 1 ==> !checks::is_quote(#[trigger] s[i]) && s[i] != '(' && s[i] != ')',
    ensures
        checks::closes_at(s, at, 1, None) == Some(s.len() - 1),
    decreases s.len() - at,
{
    if at < s.len() - 1 {
        closes_last(s, at + 1);
    }
}

/// Parentheses round a whole expression change nothing.
pub proof fn enclosing_parentheses_change_nothing(
    e: Seq<char>,
    row: RowModel,
    columns: Seq<ColumnModel>,
)
    requires
        forall|i: int|
            0 <= i < e.len() ==> !checks::is_quote(#[trigger] e[i]) && e[i] != '(' && e[i] != ')',
    ensures
        checks::truth(seq!['('] + e + seq![')'], row, columns) == checks::truth(e, row, columns),
{
    let s = seq!['('] + e + seq![')'];
    assert forall|i: int| 1 <= i < s.len() - 1 implies !checks::is_quote(#[trigger] s[i]) && s[i]
        != '(' && s[i] != ')' by {
        assert(s[i] == e[i - 1]);
    }
    untrimmed(s);
    closes_last(s, 1);
    assert(checks::closes_at(s, 0, 0, None) == checks::closes_at(s, 1, 1, None));
    assert(checks::enclosed(s));
    assert(s.subrange(1, s.len() - 1) =~= e);
    assert(checks::bare(s) == checks::bare(text::trim(e)));
}

// ---------------------------------------------------------------------------------------------
// Tables
// ---------------------------------------------------------------------------------------------
proof fn checks_mean(
    list: Seq<(Seq<char>, Seq<char>)>,
    row: RowModel,
    columns: Seq<ColumnModel>,
    at: int,
)
    requires
        0 <= at <= list.len(),
    ensures
        checks::checks_from(list, row, columns, at) is Ok <==> forall|i: int|
            at <= i < list.len() ==> passes_check((#[trigger] list[i]).1, row, columns),
    decreases list.len() - at,
{
    if at < list.len() {
        checks_mean(list, row, columns, at + 1);
        if forall|i: int|
            at <= i < list.len() ==> passes_check((#[trigger] list[i]).1, row, columns) {
            assert(passes_check(list[at].1, row, columns));
        }
    }
}

/// Whether a check lets a row pass: it can be evaluated and is not false.
pub open spec fn passes_check(e: Seq<char>, row: RowModel, columns: Seq<ColumnModel>) -> bool {
    checks::truth(e, row, columns) matches Ok(t) && t != CheckTruth::False
}

/// A row that a table stores passes all its checks.
pub proof fn stored_rows_pass_all_checks(r: RowModel, s: SchemaModel, m: MomentModel, i: int)
    requires
        0 <= i < checks::checks(s).len(),
    ensures
        values::materialized(r, s, m) matches Ok(full) ==> passes_check(
            checks::checks(s)[i].1,
            full,
            s.columns,
        ),
{
    match values::materialized(r, s, m) {
        Ok(full) => {
            checks_mean(checks::checks(s), full, s.columns, 0);
        },
        Err(_) => {},
    }
}

/// A row passes the checks of a table exactly where it passes each of them.
pub proof fn a_row_passes_where_every_check_does(row: RowModel, s: SchemaModel)
    ensures
        checks::checked(row, s) is Ok <==> forall|i: int|
            0 <= i < checks::checks(s).len() ==> passes_check(
                (#[trigger] checks::checks(s)[i]).1,
                row,
                s.columns,
            ),
{
    checks_mean(checks::checks(s), row, s.columns, 0);
}

proof fn rows_mean(
    e: Seq<char>,
    rows: Seq<RowModel>,
    columns: Seq<ColumnModel>,
    at: int,
    name: Seq<char>,
)
    requires
        0 <= at <= rows.len(),
    ensures
        checks::all_checked(e, rows, columns, at, name) is Ok <==> forall|i: int|
            at <= i < rows.len() ==> passes_check(e, #[trigger] rows[i], columns),
    decreases rows.len() - at,
{
    if at < rows.len() {
        rows_mean(e, rows, columns, at + 1, name);
        if forall|i: int| at <= i < rows.len() ==> passes_check(e, #[trigger] rows[i], columns) {
            assert(passes_check(e, rows[at], columns));
        }
    }
}

/// A check can be added to a table where every row of it passes.
pub proof fn a_new_check_holds_of_every_row(
    e: Seq<char>,
    rows: Seq<RowModel>,
    columns: Seq<ColumnModel>,
    name: Seq<char>,
)
    ensures
        checks::all_checked(e, rows, columns, 0, name) is Ok <==> forall|i: int|
            0 <= i < rows.len() ==> passes_check(e, #[trigger] rows[i], columns),
{
    rows_mean(e, rows, columns, 0, name);
}

} // verus!
