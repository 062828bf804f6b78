//! CHECK constraints: where they stand in a table's text, and what they say of a row.
use crate::decimals;
use crate::error;
use crate::error::{DbError, DbResult};
use crate::num;
use crate::order;
use crate::order::Sense;
use crate::row::{Row, RowModel};
use crate::schema;
use crate::schema::{Column, ColumnModel, SchemaModel, TableSchema};
use crate::search;
use crate::sqltext;
use crate::text;
use vstd::prelude::*;
use vstd::utf8::{decode_utf8, valid_utf8};

verus! {

/// The three truth values of a check.
#[derive(Debug, Clone, Copy, PartialEq, Eq, Structural)]
pub enum CheckTruth {
    True,
    False,
    Unknown,
}

// ---------------------------------------------------------------------------------------------
// Scanning outside parentheses and quotes
// ---------------------------------------------------------------------------------------------
pub open spec fn is_quote(c: char) -> bool {
    c == '\'' || c == '"'
}

pub open spec fn less_one(depth: int) -> int {
    if depth > 0 {
        depth - 1
    } else {
        0
    }
}

/// Where the parenthesis that is opened first is closed.
pub open spec fn closes_at(s: Seq<char>, at: int, depth: int, quote: Option<char>) -> Option<int>
    decreases s.len() - at,
{
    if at < 0 || at >= s.len() {
        None
    } else if quote is Some {
        closes_at(
            s,
            at + 1,
            depth,
            if s[at] == quote->0 {
                None
            } else {
                quote
            },
        )
    } else if is_quote(s[at]) {
        closes_at(s, at + 1, depth, Some(s[at]))
    } else if s[at] == '(' {
        closes_at(s, at + 1, depth + 1, None)
    } else if s[at] == ')' {
        if less_one(depth) == 0 {
            Some(at)
        } else {
            closes_at(s, at + 1, less_one(depth), None)
        }
    } else {
        closes_at(s, at + 1, depth, None)
    }
}

/// Whether one pair of parentheses encloses the whole text.
pub open spec fn enclosed(s: Seq<char>) -> bool {
    s.len() >= 2 && s[0] == '(' && s.last() == ')' && closes_at(s, 0, 0, None) == Some(s.len() - 1)
}

/// A text without the parentheses that enclose all of it.
pub open spec fn bare(s: Seq<char>) -> Seq<char>
    decreases s.len(),
{
    if enclosed(s) {
        proof {
            trim_shrinks(s.subrange(1, s.len() - 1));
        }
        bare(text::trim(s.subrange(1, s.len() - 1)))
    } else {
        s
    }
}

pub proof fn trim_shrinks(s: Seq<char>)
    ensures
        text::trim(s).len() <= s.len(),
{
    text::trim_start_stops(s, text::white_fn());
    text::trim_end_stops(text::trim_start_by(s, text::white_fn()), text::white_fn());
}

pub proof fn bare_shrinks(s: Seq<char>)
    ensures
        bare(s).len() <= s.len(),
    decreases s.len(),
{
    if enclosed(s) {
        trim_shrinks(s.subrange(1, s.len() - 1));
        bare_shrinks(text::trim(s.subrange(1, s.len() - 1)));
    }
}

/// The first position of `s` outside parentheses and quotes at which `needle` stands in `hay`.
pub open spec fn outside(
    s: Seq<char>,
    hay: Seq<char>,
    needle: Seq<char>,
    at: int,
    depth: int,
    quote: Option<char>,
) -> Option<int>
    decreases s.len() - at,
{
    if at < 0 || at >= s.len() {
        None
    } else if quote is Some {
        outside(
            s,
            hay,
            needle,
            at + 1,
            depth,
            if s[at] == quote->0 {
                None
            } else {
                quote
            },
        )
    } else if is_quote(s[at]) {
        outside(s, hay, needle, at + 1, depth, Some(s[at]))
    } else if s[at] == '(' {
        outside(s, hay, needle, at + 1, depth + 1, None)
    } else if s[at] == ')' {
        outside(s, hay, needle, at + 1, less_one(depth), None)
    } else if depth == 0 && search::stands_at(hay, needle, at) {
        Some(at)
    } else {
        outside(s, hay, needle, at + 1, depth, None)
    }
}

pub open spec fn keyword_at(s: Seq<char>, keyword: Seq<char>) -> Option<int> {
    outside(s, text::upper(s), keyword, 0, 0, None)
}

pub open spec fn operator_at(s: Seq<char>, operator: Seq<char>) -> Option<int> {
    outside(s, s, operator, 0, 0, None)
}

pub proof fn outside_means(
    s: Seq<char>,
    hay: Seq<char>,
    needle: Seq<char>,
    at: int,
    depth: int,
    quote: Option<char>,
)
    requires
        0 <= at,
    ensures
        outside(s, hay, needle, at, depth, quote) matches Some(p) ==> at <= p < s.len()
            && search::stands_at(hay, needle, p),
    decreases s.len() - at,
{
    if at < s.len() {
        if quote is Some {
            outside_means(
                s,
                hay,
                needle,
                at + 1,
                depth,
                if s[at] == quote->0 {
                    None
                } else {
                    quote
                },
            );
        } else if is_quote(s[at]) {
            outside_means(s, hay, needle, at + 1, depth, Some(s[at]));
        } else if s[at] == '(' {
            outside_means(s, hay, needle, at + 1, depth + 1, None);
        } else if s[at] == ')' {
            outside_means(s, hay, needle, at + 1, less_one(depth), None);
        } else {
            outside_means(s, hay, needle, at + 1, depth, None);
        }
    }
}

fn find_outside(s: &[char], hay: &[char], needle: &[char]) -> (r: Option<usize>)
    requires
        s@.len() == hay@.len(),
    ensures
        r is Some == outside(s@, hay@, needle@, 0, 0, None) is Some,
        r matches Some(p) ==> outside(s@, hay@, needle@, 0, 0, None) == Some(p as int),
        r matches Some(p) ==> p + needle@.len() <= s@.len(),
{
    let ghost whole = outside(s@, hay@, needle@, 0, 0, None);
    let mut at: usize = 0;
    let mut depth: usize = 0;
    let mut quote: Option<char> = None;
    while at < s.len()
        invariant
            at <= s@.len(),
            s@.len() == hay@.len(),
            depth <= at,
            whole == outside(s@, hay@, needle@, 0, 0, None),
            whole == outside(s@, hay@, needle@, at as int, depth as int, quote),
        decreases s@.len() - at,
    {
        let ch = s[at];
        if let Some(active) = quote {
            if ch == active {
                quote = None;
            }
        } else if ch == '\'' || ch == '"' {
            quote = Some(ch);
        } else if ch == '(' {
            depth += 1;
        } else if ch == ')' {
            if depth > 0 {
                depth -= 1;
            }
        } else if depth == 0 && search::chars_stand_at(hay, needle, at) {
            return Some(at);
        }
        at += 1;
    }
    None
}

pub fn find_check_keyword(value: &[char], keyword: &str) -> (r: Option<usize>)
    ensures
        r is Some == keyword_at(value@, keyword@) is Some,
        r matches Some(p) ==> keyword_at(value@, keyword@) == Some(p as int) && p + keyword@.len()
            <= value@.len(),
{
    let upper = text::upper_chars(value);
    let needle = text::chars_of(keyword);
    find_outside(value, &upper, &needle)
}

pub fn find_check_operator(value: &[char], operator: &str) -> (r: Option<usize>)
    ensures
        r is Some == operator_at(value@, operator@) is Some,
        r matches Some(p) ==> operator_at(value@, operator@) == Some(p as int) && p
            + operator@.len() <= value@.len(),
{
    let needle = text::chars_of(operator);
    find_outside(value, value, &needle)
}

fn is_enclosed(s: &[char]) -> (r: bool)
    ensures
        r == enclosed(s@),
{
    if s.len() < 2 || s[0] != '(' || s[s.len() - 1] != ')' {
        return false;
    }
    let ghost whole = closes_at(s@, 0, 0, None);
    let mut at: usize = 0;
    let mut depth: usize = 0;
    let mut quote: Option<char> = None;
    while at < s.len()
        invariant
            at <= s@.len(),
            depth <= at,
            s@.len() >= 2,
            s@[0] == '(',
            s@.last() == ')',
            whole == closes_at(s@, 0, 0, None),
            whole == closes_at(s@, at as int, depth as int, quote),
        decreases s@.len() - at,
    {
        let ch = s[at];
        if let Some(active) = quote {
            if ch == active {
                quote = None;
            }
        } else if ch == '\'' || ch == '"' {
            quote = Some(ch);
        } else if ch == '(' {
            depth += 1;
        } else if ch == ')' {
            if depth > 0 {
                depth -= 1;
            }
            if depth == 0 {
                return at == s.len() - 1;
            }
        }
        at += 1;
    }
    false
}

pub fn trim_check_parentheses(value: &[char]) -> (r: Vec<char>)
    ensures
        r@ == bare(value@),
{
    let mut current = text::copy_chars(value, 0, value.len());
    assert(value@.subrange(0, value@.len() as int) =~= value@);
    loop
        invariant
            bare(current@) == bare(value@),
        ensures
            current@ == bare(value@),
        decreases current@.len(),
    {
        if !is_enclosed(&current) {
            break;
        }
        let inner = text::copy_chars(&current, 1, current.len() - 1);
        proof {
            trim_shrinks(inner@);
        }
        current = text::trim_chars(&inner);
    }
    current
}

// ---------------------------------------------------------------------------------------------
// Literals and comparison
// ---------------------------------------------------------------------------------------------
/// The bytes that a literal stands for: what stands between its quotes, or the literal itself.
pub open spec fn literal_bytes(s: Seq<char>) -> Seq<u8> {
    let t = text::trim(s);
    if t.len() >= 2 && is_quote(t[0]) && t.last() == t[0] {
        text::bytes_of(t.subrange(1, t.len() - 1))
    } else {
        text::bytes_of(t)
    }
}

pub fn parse_check_literal(value: &[char]) -> (r: Vec<u8>)
    ensures
        r@ == literal_bytes(value@),
{
    let t = text::trim_chars(value);
    if t.len() >= 2 && (t[0] == '\'' || t[0] == '"') && t[t.len() - 1] == t[0] {
        let s = text::slice_text(&t, 1, t.len() - 1);
        text::text_bytes(s.as_str())
    } else {
        let s = text::text_of(&t);
        text::text_bytes(s.as_str())
    }
}

/// The decimal number that bytes spell, or why they spell none.
pub open spec fn decimal_read(b: Seq<u8>) -> Result<u128, Seq<char>> {
    if valid_utf8(b) {
        decimals::parsed_decimal(decode_utf8(b))
    } else {
        Err(text::utf8_fault(b))
    }
}

/// The decimal number that bytes spell, where they spell one.
pub open spec fn decimal_of(b: Seq<u8>) -> Option<u128> {
    match decimal_read(b) {
        Ok(d) => Some(d),
        Err(_) => None,
    }
}

pub fn read_decimal(b: &[u8]) -> (r: DbResult<u128>)
    ensures
        match r {
            Ok(d) => decimal_read(b@) == Ok::<u128, Seq<char>>(d) && decimals::valid(d),
            Err(e) => decimal_read(b@) == Err::<u128, Seq<char>>(e.message@),
        },
{
    match text::utf8_text(b) {
        Ok(s) => match decimals::parse_decimal(s) {
            Ok(d) => Ok(d),
            Err(e) => Err(DbError::new(e)),
        },
        Err(e) => Err(DbError::new(e)),
    }
}

pub fn decimal_of_bytes(b: &[u8]) -> (r: Option<u128>)
    ensures
        r == decimal_of(b@),
        r matches Some(d) ==> decimals::valid(d),
{
    match read_decimal(b) {
        Ok(d) => Some(d),
        Err(_) => None,
    }
}

/// How two values compare, given the decimal numbers that they spell: by these numbers where both
/// spell one, and by their bytes otherwise.
pub open spec fn value_sense(
    left: Seq<u8>,
    right: Seq<u8>,
    a: Option<u128>,
    b: Option<u128>,
) -> Sense {
    match (a, b) {
        (Some(x), Some(y)) => decimals::sense(x, y),
        _ => order::bytes_sense(left, right),
    }
}

pub open spec fn check_sense(left: Seq<u8>, right: Seq<u8>) -> Sense {
    value_sense(left, right, decimal_of(left), decimal_of(right))
}

/// How two values compare, given the decimal numbers that they spell.
pub fn compare_values(left: &[u8], right: &[u8], a: Option<u128>, b: Option<u128>) -> (r: Sense)
    requires
        a matches Some(d) ==> decimals::valid(d),
        b matches Some(d) ==> decimals::valid(d),
    ensures
        r == value_sense(left@, right@, a, b),
{
    match (a, b) {
        (Some(x), Some(y)) => decimals::sense_decimals(x, y),
        _ => order::sense_bytes(left, right),
    }
}

pub fn compare_check_values(left: &[u8], right: &[u8]) -> (r: Sense)
    ensures
        r == check_sense(left@, right@),
{
    let a = decimal_of_bytes(left);
    let b = decimal_of_bytes(right);
    compare_values(left, right, a, b)
}

// ---------------------------------------------------------------------------------------------
// Evaluation
// ---------------------------------------------------------------------------------------------
/// The comparison operators in the order in which they are looked for.
pub open spec fn operator(k: int) -> Seq<char> {
    if k == 0 {
        ">="@
    } else if k == 1 {
        "<="@
    } else if k == 2 {
        "<>"@
    } else if k == 3 {
        "!="@
    } else if k == 4 {
        ">"@
    } else if k == 5 {
        "<"@
    } else {
        "="@
    }
}

pub open spec fn operator_holds(k: int, s: Sense) -> bool {
    if k == 0 {
        s != Sense::Less
    } else if k == 1 {
        s != Sense::Greater
    } else if k == 2 || k == 3 {
        s != Sense::Equal
    } else if k == 4 {
        s == Sense::Greater
    } else if k == 5 {
        s == Sense::Less
    } else {
        s == Sense::Equal
    }
}

/// The first operator from the `k`-th on that stands outside parentheses and quotes.
pub open spec fn first_operator(e: Seq<char>, k: int) -> Option<(int, int)>
    decreases 7 - k,
{
    if k < 0 || k >= 7 {
        None
    } else {
        match operator_at(e, operator(k)) {
            Some(p) => Some((k, p)),
            None => first_operator(e, k + 1),
        }
    }
}

pub open spec fn truth_of(b: bool) -> CheckTruth {
    if b {
        CheckTruth::True
    } else {
        CheckTruth::False
    }
}

pub open spec fn either(a: CheckTruth, b: CheckTruth) -> CheckTruth {
    if a == CheckTruth::True || b == CheckTruth::True {
        CheckTruth::True
    } else if a == CheckTruth::Unknown || b == CheckTruth::Unknown {
        CheckTruth::Unknown
    } else {
        CheckTruth::False
    }
}

pub open spec fn both(a: CheckTruth, b: CheckTruth) -> CheckTruth {
    if a == CheckTruth::False || b == CheckTruth::False {
        CheckTruth::False
    } else if a == CheckTruth::Unknown || b == CheckTruth::Unknown {
        CheckTruth::Unknown
    } else {
        CheckTruth::True
    }
}

/// A column name as it is written in an expression.
pub open spec fn column_name(s: Seq<char>) -> Seq<char> {
    text::trim_mark(text::trim(s), '`')
}

/// What a comparison or a NULL test says of a row.
pub open spec fn atom(e: Seq<char>, row: RowModel, columns: Seq<ColumnModel>) -> Result<
    CheckTruth,
    Seq<char>,
> {
    let u = text::upper(e);
    if search::ends_with(u, " IS NOT NULL"@) {
        let name = column_name(e.take(e.len() - " IS NOT NULL"@.len()));
        Ok(truth_of(!row.is_null(name)))
    } else if search::ends_with(u, " IS NULL"@) {
        let name = column_name(e.take(e.len() - " IS NULL"@.len()));
        Ok(truth_of(row.is_null(name)))
    } else {
        match first_operator(e, 0) {
            None => Err("Unsupported check constraint expression '"@ + e + "'"@),
            Some((k, p)) => {
                let name = column_name(e.take(p));
                if !schema::has_column(columns, name) {
                    Err(schema::unknown_column(name))
                } else if row.is_null(name) {
                    Ok(CheckTruth::Unknown)
                } else {
                    match row.get(name) {
                        None => Err("Unknown column '"@ + name + "' in check constraint"@),
                        Some(actual) => Ok(
                            truth_of(
                                operator_holds(
                                    k,
                                    check_sense(
                                        actual,
                                        literal_bytes(e.skip(p + operator(k).len())),
                                    ),
                                ),
                            ),
                        ),
                    }
                }
            },
        }
    }
}

/// What an expression says of a row: OR binds weakest, then AND.
pub open spec fn truth(expression: Seq<char>, row: RowModel, columns: Seq<ColumnModel>) -> Result<
    CheckTruth,
    Seq<char>,
>
    decreases expression.len(),
{
    let e = bare(text::trim(expression));
    match keyword_at(e, " OR "@) {
        Some(p) => {
            proof {
                parts_shrink(expression, " OR "@);
                reveal_strlit(" OR ");
            }
            match truth(e.take(p), row, columns) {
                Err(m) => Err(m),
                Ok(left) => match truth(e.skip(p + 4), row, columns) {
                    Err(m) => Err(m),
                    Ok(right) => Ok(either(left, right)),
                },
            }
        },
        None => match keyword_at(e, " AND "@) {
            Some(p) => {
                proof {
                    parts_shrink(expression, " AND "@);
                    reveal_strlit(" AND ");
                }
                match truth(e.take(p), row, columns) {
                    Err(m) => Err(m),
                    Ok(left) => match truth(e.skip(p + 5), row, columns) {
                        Err(m) => Err(m),
                        Ok(right) => Ok(both(left, right)),
                    },
                }
            },
            None => atom(e, row, columns),
        },
    }
}

pub proof fn parts_shrink(expression: Seq<char>, keyword: Seq<char>)
    ensures
        ({
            let e = bare(text::trim(expression));
            e.len() <= expression.len() && (keyword_at(e, keyword) matches Some(p) ==> 0 <= p
                < e.len() && p + keyword.len() <= e.len())
        }),
{
    trim_shrinks(expression);
    bare_shrinks(text::trim(expression));
    let e = bare(text::trim(expression));
    outside_means(e, text::upper(e), keyword, 0, 0, None);
}

fn name_of(c: &[char], to: usize) -> (r: String)
    requires
        to <= c@.len(),
    ensures
        r@ == column_name(c@.take(to as int)),
{
    let part = text::copy_chars(c, 0, to);
    assert(part@ =~= c@.take(to as int));
    let t = text::trim_chars(&part);
    let b = text::trim_char(&t, '`');
    text::text_of(&b)
}

fn operator_text(k: usize) -> (r: &'static str)
    requires
        k < 7,
    ensures
        r@ == operator(k as int),
{
    if k == 0 {
        ">="
    } else if k == 1 {
        "<="
    } else if k == 2 {
        "<>"
    } else if k == 3 {
        "!="
    } else if k == 4 {
        ">"
    } else if k == 5 {
        "<"
    } else {
        "="
    }
}

fn operator_met(k: usize, s: Sense) -> (r: bool)
    ensures
        r == operator_holds(k as int, s),
{
    if k == 0 {
        s != Sense::Less
    } else if k == 1 {
        s != Sense::Greater
    } else if k == 2 || k == 3 {
        s != Sense::Equal
    } else if k == 4 {
        s == Sense::Greater
    } else if k == 5 {
        s == Sense::Less
    } else {
        s == Sense::Equal
    }
}

/// An evaluation's outcome by message.
pub open spec fn shown(r: DbResult<CheckTruth>) -> Result<CheckTruth, Seq<char>> {
    match r {
        Ok(t) => Ok(t),
        Err(e) => Err(e.message@),
    }
}

fn evaluate_atom(e: &[char], row: &Row, columns: &Vec<Column>) -> (r: DbResult<CheckTruth>)
    ensures
        shown(r) == atom(e@, row@, columns.deep_view()),
{
    let u = text::upper_chars(e);
    let not_null = text::chars_of(" IS NOT NULL");
    if search::chars_end_with(&u, &not_null) {
        let name = name_of(e, e.len() - not_null.len());
        return Ok(
            if row.is_null(name.as_str()) {
                CheckTruth::False
            } else {
                CheckTruth::True
            },
        );
    }
    let null = text::chars_of(" IS NULL");
    if search::chars_end_with(&u, &null) {
        let name = name_of(e, e.len() - null.len());
        return Ok(
            if row.is_null(name.as_str()) {
                CheckTruth::True
            } else {
                CheckTruth::False
            },
        );
    }
    let ghost unsupported = !search::ends_with(u@, " IS NOT NULL"@) && !search::ends_with(
        u@,
        " IS NULL"@,
    );
    let mut k: usize = 0;
    while k < 7
        invariant
            k <= 7,
            unsupported,
            u@ == text::upper(e@),
            unsupported == (!search::ends_with(u@, " IS NOT NULL"@) && !search::ends_with(
                u@,
                " IS NULL"@,
            )),
            first_operator(e@, k as int) == first_operator(e@, 0),
        decreases 7 - k,
    {
        let op = operator_text(k);
        match find_check_operator(e, op) {
            Some(p) => {
                let name = name_of(e, p);
                if schema::find_column(columns, name.as_str()).is_none() {
                    return Err(schema::unknown_column_error(name.as_str()));
                }
                if row.is_null(name.as_str()) {
                    return Ok(CheckTruth::Unknown);
                }
                let size: usize = text::chars_of(op).len();
                let total: usize = e.len();
                assert(p + size <= total);
                let rest = text::copy_chars(e, p + size, total);
                assert(rest@ =~= e@.skip(p + operator(k as int).len()));
                match row.get(name.as_str()) {
                    None => {
                        return Err(
                            DbError::new(
                                error::cat3(
                                    "Unknown column '",
                                    name.as_str(),
                                    "' in check constraint",
                                ),
                            ),
                        );
                    },
                    Some(actual) => {
                        let expected = parse_check_literal(&rest);
                        let sense = compare_check_values(actual, expected.as_slice());
                        return Ok(
                            if operator_met(k, sense) {
                                CheckTruth::True
                            } else {
                                CheckTruth::False
                            },
                        );
                    },
                }
            },
            None => {},
        }
        k += 1;
    }
    let s = text::text_of(e);
    Err(DbError::new(error::cat3("Unsupported check constraint expression '", s.as_str(), "'")))
}

/// What a check expression says of a row.
pub fn evaluate_check_expression(
    expression: &[char],
    row: &Row,
    columns: &Vec<Column>,
) -> (r: DbResult<CheckTruth>)
    ensures
        shown(r) == truth(expression@, row@, columns.deep_view()),
    decreases expression@.len(),
{
    let t = text::trim_chars(expression);
    let e = trim_check_parentheses(&t);
    proof {
        reveal_strlit(" OR ");
        reveal_strlit(" AND ");
        parts_shrink(expression@, " OR "@);
        parts_shrink(expression@, " AND "@);
    }
    if let Some(p) = find_check_keyword(&e, " OR ") {
        let left = text::copy_chars(&e, 0, p);
        let total: usize = e.len();
        assert(p + 4 <= total);
        let right = text::copy_chars(&e, p + 4, total);
        assert(left@ =~= e@.take(p as int));
        assert(right@ =~= e@.skip(p + 4));
        let a = match evaluate_check_expression(&left, row, columns) {
            Ok(x) => x,
            Err(m) => {
                return Err(m);
            },
        };
        let b = match evaluate_check_expression(&right, row, columns) {
            Ok(x) => x,
            Err(m) => {
                return Err(m);
            },
        };
        return Ok(
            if a == CheckTruth::True || b == CheckTruth::True {
                CheckTruth::True
            } else if a == CheckTruth::Unknown || b == CheckTruth::Unknown {
                CheckTruth::Unknown
            } else {
                CheckTruth::False
            },
        );
    }
    if let Some(p) = find_check_keyword(&e, " AND ") {
        let left = text::copy_chars(&e, 0, p);
        let total: usize = e.len();
        assert(p + 5 <= total);
        let right = text::copy_chars(&e, p + 5, total);
        assert(left@ =~= e@.take(p as int));
        assert(right@ =~= e@.skip(p + 5));
        let a = match evaluate_check_expression(&left, row, columns) {
            Ok(x) => x,
            Err(m) => {
                return Err(m);
            },
        };
        let b = match evaluate_check_expression(&right, row, columns) {
            Ok(x) => x,
            Err(m) => {
                return Err(m);
            },
        };
        return Ok(
            if a == CheckTruth::False || b == CheckTruth::False {
                CheckTruth::False
            } else if a == CheckTruth::Unknown || b == CheckTruth::Unknown {
                CheckTruth::Unknown
            } else {
                CheckTruth::True
            },
        );
    }
    evaluate_atom(&e, row, columns)
}

// ---------------------------------------------------------------------------------------------
// The constraints of a table
// ---------------------------------------------------------------------------------------------
/// The name of the check in a definition: the given one, or one made of the table's name and the
/// definition's place.
pub open spec fn check_name(table: Seq<char>, definition: Seq<char>, index: int) -> Option<
    Seq<char>,
> {
    match search::find(text::upper(definition), "CHECK"@) {
        None => None,
        Some(check) => {
            let prefix = text::trim(definition.take(check));
            if search::starts_with(text::upper(prefix), "CONSTRAINT "@) {
                let w = search::words(prefix);
                if w.len() > 1 {
                    Some(text::trim_mark(w[1], '`'))
                } else {
                    None
                }
            } else {
                Some(table + "_chk_"@ + num::decimal((index + 1) as nat))
            }
        },
    }
}

/// The check in a definition: its name and its expression.
pub open spec fn check_in(table: Seq<char>, definition: Seq<char>, index: int) -> Option<
    (Seq<char>, Seq<char>),
> {
    match search::find(text::upper(definition), "CHECK"@) {
        None => None,
        Some(check) => match (
            search::find_char_from(definition, '(', check + 5),
            search::rfind_char(definition, ')'),
        ) {
            (Some(open), Some(close)) => if close < open + 1 {
                None
            } else {
                match check_name(table, definition, index) {
                    None => None,
                    Some(name) => Some((name, text::trim(definition.subrange(open + 1, close)))),
                }
            },
            _ => None,
        },
    }
}

pub open spec fn checks_upto(table: Seq<char>, defs: Seq<Seq<char>>, n: int) -> Seq<
    (Seq<char>, Seq<char>),
>
    decreases n,
{
    if n <= 0 {
        Seq::empty()
    } else {
        match check_in(table, defs[n - 1], n - 1) {
            Some(found) => checks_upto(table, defs, n - 1).push(found),
            None => checks_upto(table, defs, n - 1),
        }
    }
}

/// The check constraints of a table, each with its name and expression.
pub open spec fn checks(s: SchemaModel) -> Seq<(Seq<char>, Seq<char>)> {
    let defs = sqltext::schema_definitions(s);
    checks_upto(s.name, defs, defs.len() as int)
}

pub fn check_constraint_name(table: &str, definition: &str, index: usize) -> (r: Option<String>)
    ensures
        r.deep_view() == check_name(table@, definition@, index as int),
{
    let c = text::chars_of(definition);
    let u = text::upper_chars(&c);
    let word = text::chars_of("CHECK");
    proof {
        search::find_from_means(u@, "CHECK"@, 0);
    }
    match search::find_chars(&u, &word, 0) {
        None => None,
        Some(check) => {
            let before = text::copy_chars(&c, 0, check);
            assert(before@ =~= c@.take(check as int));
            let prefix = text::trim_chars(&before);
            let prefix_upper = text::upper_chars(&prefix);
            let mark = text::chars_of("CONSTRAINT ");
            if search::chars_start_with(&prefix_upper, &mark) {
                let w = search::words_of(&prefix);
                if w.len() > 1 {
                    assert(w.deep_view()[1] == w@[1]@);
                    let second = text::chars_of(w[1].as_str());
                    let name = text::trim_char(&second, '`');
                    Some(text::text_of(&name))
                } else {
                    None
                }
            } else {
                let digits = num::u128_text(index as u128 + 1);
                Some(error::cat3(table, "_chk_", digits.as_str()))
            }
        },
    }
}

fn find_check(table: &str, definition: &str, index: usize) -> (r: Option<(String, String)>)
    ensures
        r.deep_view() == check_in(table@, definition@, index as int),
{
    let c = text::chars_of(definition);
    let u = text::upper_chars(&c);
    let word = text::chars_of("CHECK");
    proof {
        reveal_strlit("CHECK");
        search::find_from_means(u@, "CHECK"@, 0);
    }
    match search::find_chars(&u, &word, 0) {
        None => None,
        Some(check) => {
            let open = search::find_char(&c, '(', check + 5);
            let close = search::rfind_chars(&c, ')');
            match (open, close) {
                (Some(from), Some(to)) => {
                    if to < from + 1 {
                        None
                    } else {
                        match check_constraint_name(table, definition, index) {
                            None => None,
                            Some(name) => {
                                let (a, b) = text::trim_bounds(&c, from + 1, to);
                                Some((name, text::slice_text(&c, a, b)))
                            },
                        }
                    }
                },
                _ => None,
            }
        },
    }
}

pub fn table_check_constraints(schema: &TableSchema) -> (r: Vec<(String, String)>)
    ensures
        r.deep_view() == checks(schema@),
{
    let defs = sqltext::definitions_of(schema);
    let mut out: Vec<(String, String)> = Vec::new();
    let mut i: usize = 0;
    assert(out.deep_view() =~= Seq::empty());
    while i < defs.len()
        invariant
            i <= defs@.len(),
            out.deep_view() == checks_upto(schema@.name, defs.deep_view(), i as int),
        decreases defs@.len() - i,
    {
        assert(defs.deep_view()[i as int] == defs@[i as int]@);
        let ghost before = out.deep_view();
        if let Some(found) = find_check(schema.name.as_str(), defs[i].as_str(), i) {
            let ghost model = found.deep_view();
            out.push(found);
            assert(out.deep_view() =~= before.push(model));
        }
        i += 1;
    }
    out
}

/// The first check from the `at`-th on that fails or cannot be evaluated.
pub open spec fn checks_from(
    list: Seq<(Seq<char>, Seq<char>)>,
    row: RowModel,
    columns: Seq<ColumnModel>,
    at: int,
) -> Result<(), Seq<char>>
    decreases list.len() - at,
{
    if at < 0 || at >= list.len() {
        Ok(())
    } else {
        match truth(list[at].1, row, columns) {
            Err(m) => Err(m),
            Ok(t) => if t == CheckTruth::False {
                Err("Check constraint '"@ + list[at].0 + "' is violated."@)
            } else {
                checks_from(list, row, columns, at + 1)
            },
        }
    }
}

/// Whether a row passes every check of its table: a check fails only where it is false.
pub open spec fn checked(row: RowModel, s: SchemaModel) -> Result<(), Seq<char>> {
    checks_from(checks(s), row, s.columns, 0)
}

pub fn validate_check_constraints(row: &Row, schema: &TableSchema) -> (r: DbResult<()>)
    ensures
        error::outcome(r) == checked(row@, schema@),
{
    let list = table_check_constraints(schema);
    let mut i: usize = 0;
    while i < list.len()
        invariant
            i <= list@.len(),
            checks_from(list.deep_view(), row@, schema@.columns, i as int) == checked(
                row@,
                schema@,
            ),
        decreases list@.len() - i,
    {
        assert(list.deep_view()[i as int] == (list@[i as int].0@, list@[i as int].1@));
        let e = text::chars_of(list[i].1.as_str());
        match evaluate_check_expression(&e, row, &schema.columns) {
            Err(m) => {
                return Err(m);
            },
            Ok(t) => {
                if t == CheckTruth::False {
                    return Err(
                        DbError::new(
                            error::cat3("Check constraint '", list[i].0.as_str(), "' is violated."),
                        ),
                    );
                }
            },
        }
        i += 1;
    }
    Ok(())
}

/// Validates a check expression against every row.
pub open spec fn all_checked(
    e: Seq<char>,
    rows: Seq<RowModel>,
    columns: Seq<ColumnModel>,
    at: int,
    name: Seq<char>,
) -> Result<(), Seq<char>>
    decreases rows.len() - at,
{
    if at < 0 || at >= rows.len() {
        Ok(())
    } else {
        match truth(e, rows[at], columns) {
            Err(m) => Err(m),
            Ok(t) => if t == CheckTruth::False {
                Err("Check constraint '"@ + name + "' is violated."@)
            } else {
                all_checked(e, rows, columns, at + 1, name)
            },
        }
    }
}

} // verus!
