//! What a table's `CREATE TABLE` text says, and the text that a schema is written as.
use crate::error;
use crate::num;
use crate::schema;
use crate::schema::{
    Column, ColumnModel, DataType, DataTypeModel, Index, IndexModel, Moment, MomentModel, SchemaModel, TableEngine, TableSchema,
};
use crate::search;
use crate::text;
use vstd::prelude::*;

verus! {

// ---------------------------------------------------------------------------------------------
// Definitions between the outer parentheses
// ---------------------------------------------------------------------------------------------
/// The parts of `s` between commas that stand outside parentheses and quotes, each trimmed. A
/// backslash within quotes hides the character behind it.
pub open spec fn definitions_from(
    s: Seq<char>,
    start: int,
    at: int,
    depth: int,
    quote: Option<char>,
    escaped: bool,
) -> Seq<Seq<char>>
    decreases s.len() - at,
{
    if at < 0 || at >= s.len() {
        seq![text::trim(s.subrange(start, s.len() as int))]
    } else if escaped {
        definitions_from(s, start, at + 1, depth, quote, false)
    } else if quote is Some {
        if s[at] == '\\' {
            definitions_from(s, start, at + 1, depth, quote, true)
        } else if s[at] == quote->0 {
            definitions_from(s, start, at + 1, depth, None, false)
        } else {
            definitions_from(s, start, at + 1, depth, quote, false)
        }
    } else if s[at] == '\'' || s[at] == '"' {
        definitions_from(s, start, at + 1, depth, Some(s[at]), false)
    } else if s[at] == '(' {
        definitions_from(s, start, at + 1, depth + 1, None, false)
    } else if s[at] == ')' {
        definitions_from(
            s,
            start,
            at + 1,
            if depth > 0 {
                depth - 1
            } else {
                0
            },
            None,
            false,
        )
    } else if s[at] == ',' && depth == 0 {
        seq![text::trim(s.subrange(start, at))] + definitions_from(s, at + 1, at + 1, 0, None, false)
    } else {
        definitions_from(s, start, at + 1, depth, None, false)
    }
}

pub open spec fn definitions(s: Seq<char>) -> Seq<Seq<char>> {
    definitions_from(s, 0, 0, 0, None, false)
}

pub fn split_schema_definitions(c: &[char]) -> (r: Vec<String>)
    ensures
        r.deep_view() == definitions(c@),
{
    let mut out: Vec<String> = Vec::new();
    let mut start: usize = 0;
    let mut at: usize = 0;
    let mut depth: usize = 0;
    let mut quote: Option<char> = None;
    let mut escaped = false;
    assert(out.deep_view() + definitions(c@) =~= definitions(c@));
    while at < c.len()
        invariant
            start <= at <= c@.len(),
            depth <= at,
            escaped ==> quote is Some,
            out.deep_view() + definitions_from(
                c@,
                start as int,
                at as int,
                depth as int,
                quote,
                escaped,
            ) == definitions(c@),
        decreases c@.len() - at,
    {
        let ch = c[at];
        if escaped {
            escaped = false;
        } else if let Some(active) = quote {
            if ch == '\\' {
                escaped = true;
            } else if ch == active {
                quote = None;
            }
        } else if ch == '\'' || ch == '"' {
            quote = Some(ch);
        } else if ch == '(' {
            depth += 1;
        } else if ch == ')' {
            if depth > 0 {
                depth -= 1;
            }
        } else if ch == ',' && depth == 0 {
            let ghost before = out.deep_view();
            let ghost part = text::trim(c@.subrange(start as int, at as int));
            let ghost rest = definitions_from(c@, at + 1, at + 1, 0, None, false);
            let (a, b) = text::trim_bounds(c, start, at);
            out.push(text::slice_text(c, a, b));
            assert(out.deep_view() =~= before.push(part));
            assert(before.push(part) + rest =~= before + (seq![part] + rest));
            start = at + 1;
        }
        at += 1;
    }
    let ghost before = out.deep_view();
    let ghost part = text::trim(c@.subrange(start as int, c@.len() as int));
    let (a, b) = text::trim_bounds(c, start, c.len());
    out.push(text::slice_text(c, a, b));
    assert(out.deep_view() =~= before + seq![part]);
    out
}

/// What stands between the first opening and the last closing parenthesis.
pub open spec fn body(sql: Seq<char>) -> Option<Seq<char>> {
    match (search::find_char_from(sql, '(', 0), search::rfind_char(sql, ')')) {
        (Some(open), Some(close)) => if open < close {
            Some(sql.subrange(open + 1, close))
        } else {
            None
        },
        _ => None,
    }
}

/// The definitions of a schema's `CREATE TABLE` text.
pub open spec fn schema_definitions(s: SchemaModel) -> Seq<Seq<char>> {
    match s.create_sql {
        Some(sql) => match body(sql) {
            Some(inner) => definitions(inner),
            None => Seq::empty(),
        },
        None => Seq::empty(),
    }
}

pub fn definitions_of(schema: &TableSchema) -> (r: Vec<String>)
    ensures
        r.deep_view() == schema_definitions(schema@),
{
    let empty: Vec<String> = Vec::new();
    assert(empty.deep_view() =~= Seq::empty());
    match &schema.create_sql {
        Some(sql) => {
            let c = text::chars_of(sql.as_str());
            let open = search::find_char(&c, '(', 0);
            let close = search::rfind_chars(&c, ')');
            match (open, close) {
                (Some(from), Some(to)) => {
                    if from < to {
                        let inner = text::copy_chars(&c, from + 1, to);
                        split_schema_definitions(&inner)
                    } else {
                        empty
                    }
                },
                _ => empty,
            }
        },
        None => empty,
    }
}

// ---------------------------------------------------------------------------------------------
// Engine
// ---------------------------------------------------------------------------------------------
/// Whether a word that spells ENGINE is followed by one that spells MEMORY.
pub open spec fn names_memory(tokens: Seq<Seq<char>>) -> bool {
    exists|i: int|
        0 <= i && i + 1 < tokens.len() && text::same_fold(#[trigger] tokens[i], "ENGINE"@)
            && text::same_fold(tokens[i + 1], "MEMORY"@)
}

/// The engine that the options behind the last closing parenthesis name.
pub open spec fn engine_of(sql: Seq<char>) -> TableEngine {
    let options = match search::rfind_char(sql, ')') {
        Some(at) => sql.subrange(at + 1, sql.len() as int),
        None => sql,
    };
    if names_memory(search::words(search::replaced(options, '=', " "@))) {
        TableEngine::Memory
    } else {
        TableEngine::Neko233
    }
}

pub fn table_engine_from_sql(sql: &str) -> (r: TableEngine)
    ensures
        r == engine_of(sql@),
{
    let c = text::chars_of(sql);
    let options = match search::rfind_chars(&c, ')') {
        Some(at) => text::slice_text(&c, at + 1, c.len()),
        None => text::copy_text(sql),
    };
    let spaced = search::replace_char(options.as_str(), '=', " ");
    let tokens = search::split_words(spaced.as_str());
    let mut i: usize = 0;
    while tokens.len() > 1 && i < tokens.len() - 1
        invariant
            i <= tokens@.len(),
            names_memory(tokens.deep_view()) == (engine_of(sql@) == TableEngine::Memory),
            forall|j: int|
                0 <= j < i && j + 1 < tokens@.len() ==> !(text::same_fold(
                    (#[trigger] tokens.deep_view()[j]),
                    "ENGINE"@,
                ) && text::same_fold(tokens.deep_view()[j + 1], "MEMORY"@)),
        decreases tokens@.len() - i,
    {
        assert(tokens.deep_view()[i as int] == tokens@[i as int]@);
        assert(tokens.deep_view()[i + 1] == tokens@[i + 1]@);
        if text::eq_fold(tokens[i].as_str(), "ENGINE") && text::eq_fold(
            tokens[i + 1].as_str(),
            "MEMORY",
        ) {
            return TableEngine::Memory;
        }
        i += 1;
    }
    TableEngine::Neko233
}

/// Whether a table loses its rows on restart.
pub open spec fn is_memory(s: SchemaModel) -> bool {
    s.engine == TableEngine::Memory || (s.create_sql matches Some(sql) && engine_of(sql)
        == TableEngine::Memory)
}

/// MySQL's MEMORY engine keeps table metadata but loses every row on restart. InnoDB and Neko233
/// are aliases for the durable storage path.
pub fn is_memory_schema(schema: &TableSchema) -> (r: bool)
    ensures
        r == is_memory(schema@),
{
    if schema.engine == TableEngine::Memory {
        return true;
    }
    match &schema.create_sql {
        Some(sql) => table_engine_from_sql(sql.as_str()) == TableEngine::Memory,
        None => false,
    }
}

// ---------------------------------------------------------------------------------------------
// Current-timestamp defaults
// ---------------------------------------------------------------------------------------------
/// The number between a prefix and a closing parenthesis.
pub open spec fn argument(s: Seq<char>, prefix: Seq<char>) -> Option<nat> {
    match search::strip_prefix(s, prefix) {
        Some(rest) => match search::strip_suffix(rest, seq![')']) {
            Some(inner) => num::parsed(text::trim(inner), u32::MAX as nat),
            None => None,
        },
        None => None,
    }
}

/// Whether a default value stands for the current time, with up to six fractional digits.
pub open spec fn is_current_timestamp(value: Seq<char>) -> bool {
    let u = text::upper(text::trim(value));
    ||| u == "CURRENT_TIMESTAMP"@
    ||| u == "CURRENT_TIMESTAMP()"@
    ||| u == "NOW()"@
    ||| (argument(u, "CURRENT_TIMESTAMP("@) matches Some(n) && n <= 6)
    ||| (argument(u, "NOW("@) matches Some(n) && n <= 6)
}

/// How many fractional digits a current-timestamp default asks for.
pub open spec fn fractional_digits(value: Seq<char>) -> nat {
    let u = text::upper(text::trim(value));
    let given = if search::starts_with(u, "CURRENT_TIMESTAMP("@) {
        argument(u, "CURRENT_TIMESTAMP("@)
    } else {
        argument(u, "NOW("@)
    };
    match given {
        Some(n) => if n < 6 {
            n
        } else {
            6
        },
        None => 0,
    }
}

fn prefix_argument(u: &[char], prefix: &str) -> (r: Option<u64>)
    ensures
        r is Some == argument(u@, prefix@) is Some,
        r matches Some(n) ==> argument(u@, prefix@) == Some(n as nat),
{
    let p = text::chars_of(prefix);
    match search::chars_strip_prefix(u, &p) {
        Some(rest) => {
            assert(rest@ =~= rest.deep_view());
            let close: Vec<char> = vec![')'];
            assert(close@ =~= seq![')']);
            match search::chars_strip_suffix(&rest, &close) {
                Some(inner) => {
                    assert(inner@ =~= inner.deep_view());
                    let t = text::trim_chars(&inner);
                    num::parse_up_to(&t, u32::MAX as u64)
                },
                None => None,
            }
        },
        None => None,
    }
}

pub fn is_current_timestamp_default(value: &str) -> (r: bool)
    ensures
        r == is_current_timestamp(value@),
{
    let t = text::trim_text(value);
    let u = text::to_upper(t.as_str());
    if text::text_equal(u.as_str(), "CURRENT_TIMESTAMP") || text::text_equal(
        u.as_str(),
        "CURRENT_TIMESTAMP()",
    ) || text::text_equal(u.as_str(), "NOW()") {
        return true;
    }
    let c = text::chars_of(u.as_str());
    let a = prefix_argument(&c, "CURRENT_TIMESTAMP(");
    let b = prefix_argument(&c, "NOW(");
    let first = match a {
        Some(n) => n <= 6,
        None => false,
    };
    let second = match b {
        Some(n) => n <= 6,
        None => false,
    };
    first || second
}

/// The bytes of a current-timestamp default at a moment.
pub open spec fn timestamp_bytes(value: Seq<char>, moment: MomentModel) -> Option<Seq<u8>> {
    if !is_current_timestamp(value) {
        None
    } else {
        let digits = fractional_digits(value);
        Some(
            text::bytes_of(
                if digits > 0 {
                    moment.seconds + seq!['.'] + num::padded((moment.nanos / 1000) as nat, 6).take(
                        digits as int,
                    )
                } else {
                    moment.seconds
                },
            ),
        )
    }
}

/// The value that a current-timestamp default has at a moment.
pub fn current_timestamp_at(value: &str, moment: &Moment) -> (r: Option<Vec<u8>>)
    ensures
        r is Some == timestamp_bytes(value@, moment@) is Some,
        r matches Some(b) ==> timestamp_bytes(value@, moment@) == Some(b@),
{
    if !is_current_timestamp_default(value) {
        return None;
    }
    let t = text::trim_text(value);
    let u = text::to_upper(t.as_str());
    let c = text::chars_of(u.as_str());
    let given = if search::text_starts_with(u.as_str(), "CURRENT_TIMESTAMP(") {
        prefix_argument(&c, "CURRENT_TIMESTAMP(")
    } else {
        prefix_argument(&c, "NOW(")
    };
    let digits: usize = match given {
        Some(n) => if n < 6 {
            n as usize
        } else {
            6
        },
        None => 0,
    };
    let mut output = moment.seconds.clone();
    if digits > 0 {
        let fraction = num::padded_text((moment.nanos / 1000) as u64, 6);
        let f = text::chars_of(fraction.as_str());
        output.push('.');
        let part = text::slice_text(&f, 0, digits);
        output.append(part.as_str());
        assert(f@.subrange(0, digits as int) =~= f@.take(digits as int));
        assert(output@ =~= moment@.seconds + seq!['.'] + f@.take(digits as int));
    }
    Some(text::text_bytes(output.as_str()))
}

// ---------------------------------------------------------------------------------------------
// The AUTO_INCREMENT column
// ---------------------------------------------------------------------------------------------
/// The column that one definition marks as AUTO_INCREMENT.
pub open spec fn auto_increment_in(definition: Seq<char>, columns: Seq<ColumnModel>) -> Option<
    Seq<char>,
> {
    let w = search::words(definition);
    if !search::contains_text(text::upper(definition), "AUTO_INCREMENT"@) || w.len() == 0 {
        None
    } else {
        let name = text::trim_mark(w[0], '`');
        if schema::has_column(columns, name) {
            Some(name)
        } else {
            None
        }
    }
}

pub open spec fn auto_increment_from(
    defs: Seq<Seq<char>>,
    columns: Seq<ColumnModel>,
    at: int,
) -> Option<Seq<char>>
    decreases defs.len() - at,
{
    if at < 0 || at >= defs.len() {
        None
    } else {
        match auto_increment_in(defs[at], columns) {
            Some(name) => Some(name),
            None => auto_increment_from(defs, columns, at + 1),
        }
    }
}

/// The first column that the schema's text marks as AUTO_INCREMENT.
pub open spec fn auto_increment(s: SchemaModel) -> Option<Seq<char>> {
    auto_increment_from(schema_definitions(s), s.columns, 0)
}

pub fn auto_increment_column(schema: &TableSchema) -> (r: Option<String>)
    ensures
        r.deep_view() == auto_increment(schema@),
{
    let defs = definitions_of(schema);
    let mut i: usize = 0;
    while i < defs.len()
        invariant
            i <= defs@.len(),
            auto_increment_from(defs.deep_view(), schema@.columns, i as int) == auto_increment(
                schema@,
            ),
        decreases defs@.len() - i,
    {
        let c = text::chars_of(defs[i].as_str());
        let u = text::upper_chars(&c);
        let mark = text::chars_of("AUTO_INCREMENT");
        assert(defs.deep_view()[i as int] == defs@[i as int]@);
        if search::chars_contain(&u, &mark) {
            let w = search::words_of(&c);
            if w.len() > 0 {
                let first = text::chars_of(w[0].as_str());
                let bare = text::trim_char(&first, '`');
                let name = text::text_of(&bare);
                assert(w.deep_view()[0] == w@[0]@);
                if schema::find_column(&schema.columns, name.as_str()).is_some() {
                    return Some(name);
                }
            }
        }
        i += 1;
    }
    None
}

// ---------------------------------------------------------------------------------------------
// Constraint definitions
// ---------------------------------------------------------------------------------------------
/// Whether a definition is a foreign key or a check constraint.
pub open spec fn is_constraint(definition: Seq<char>) -> bool {
    let u = text::upper(definition);
    ||| search::starts_with(u, "FOREIGN KEY"@)
    ||| search::contains_text(u, " FOREIGN KEY"@)
    ||| search::starts_with(u, "CHECK"@)
    ||| (search::starts_with(u, "CONSTRAINT "@) && search::contains_text(u, " CHECK"@))
}

pub open spec fn constraint_fn() -> spec_fn(Seq<char>) -> bool {
    |d: Seq<char>| is_constraint(d)
}

pub open spec fn constraint_definitions(s: SchemaModel) -> Seq<Seq<char>> {
    schema_definitions(s).filter(constraint_fn())
}

pub fn is_constraint_definition(definition: &str) -> (r: bool)
    ensures
        r == is_constraint(definition@),
{
    let u = text::to_upper(definition);
    let s = u.as_str();
    search::text_starts_with(s, "FOREIGN KEY") || search::text_contains(s, " FOREIGN KEY")
        || search::text_starts_with(s, "CHECK") || (search::text_starts_with(s, "CONSTRAINT ")
        && search::text_contains(s, " CHECK"))
}

pub fn table_constraint_definitions(schema: &TableSchema) -> (r: Vec<String>)
    ensures
        r.deep_view() == constraint_definitions(schema@),
{
    let defs = definitions_of(schema);
    let mut out: Vec<String> = Vec::new();
    let mut i: usize = 0;
    assert(defs.deep_view().take(0).filter(constraint_fn()) =~= Seq::empty()) by {
        reveal(Seq::filter);
    }
    while i < defs.len()
        invariant
            i <= defs@.len(),
            out.deep_view() == defs.deep_view().take(i as int).filter(constraint_fn()),
        decreases defs@.len() - i,
    {
        proof {
            crate::seqs::filter_step(defs.deep_view(), i as int, constraint_fn());
        }
        let ghost before = out.deep_view();
        if is_constraint_definition(defs[i].as_str()) {
            out.push(defs[i].clone());
            assert(out.deep_view() =~= before.push(defs.deep_view()[i as int]));
        }
        i += 1;
    }
    assert(defs.deep_view().take(i as int) =~= defs.deep_view());
    out
}

// ---------------------------------------------------------------------------------------------
// Writing a schema
// ---------------------------------------------------------------------------------------------
pub open spec fn data_type_sql(t: DataTypeModel) -> Seq<char> {
    match t {
        DataTypeModel::Int => "int"@,
        DataTypeModel::BigInt => "bigint"@,
        DataTypeModel::Float => "float"@,
        DataTypeModel::Double => "double"@,
        DataTypeModel::Varchar(n) => "varchar("@ + num::decimal(n as nat) + ")"@,
        DataTypeModel::Text => "text"@,
        DataTypeModel::Blob => "blob"@,
        DataTypeModel::Date => "date"@,
        DataTypeModel::DateTime => "datetime"@,
        DataTypeModel::Timestamp => "timestamp"@,
        DataTypeModel::Boolean => "tinyint(1)"@,
        DataTypeModel::Raw(s) => s,
    }
}

pub fn storage_data_type_sql(value: &DataType) -> (r: String)
    ensures
        r@ == data_type_sql(value@),
{
    match value {
        DataType::Int => text::copy_text("int"),
        DataType::BigInt => text::copy_text("bigint"),
        DataType::Float => text::copy_text("float"),
        DataType::Double => text::copy_text("double"),
        DataType::Varchar(n) => {
            let digits = num::u64_text(*n as u64);
            error::cat3("varchar(", digits.as_str(), ")")
        },
        DataType::Text => text::copy_text("text"),
        DataType::Blob => text::copy_text("blob"),
        DataType::Date => text::copy_text("date"),
        DataType::DateTime => text::copy_text("datetime"),
        DataType::Timestamp => text::copy_text("timestamp"),
        DataType::Boolean => text::copy_text("tinyint(1)"),
        DataType::Raw(s) => s.clone(),
    }
}

/// A name between backticks, with the backticks in it doubled.
pub open spec fn quoted(name: Seq<char>) -> Seq<char> {
    "`"@ + search::replaced(name, '`', "``"@) + "`"@
}

pub fn quote_name(name: &str) -> (r: String)
    ensures
        r@ == quoted(name@),
{
    let inner = search::replace_char(name, '`', "``");
    error::cat3("`", inner.as_str(), "`")
}

pub open spec fn quoted_all(names: Seq<Seq<char>>) -> Seq<Seq<char>> {
    names.map_values(|n: Seq<char>| quoted(n))
}

pub fn quote_names(names: &Vec<String>) -> (r: String)
    ensures
        r@ == search::joined(quoted_all(names.deep_view()), ","@),
{
    let mut out: Vec<String> = Vec::new();
    let mut i: usize = 0;
    while i < names.len()
        invariant
            i <= names@.len(),
            out@.len() == i,
            forall|j: int| 0 <= j < i ==> (#[trigger] out@[j])@ == quoted(names@[j]@),
        decreases names@.len() - i,
    {
        out.push(quote_name(names[i].as_str()));
        i += 1;
    }
    assert(out.deep_view() =~= quoted_all(names.deep_view()));
    let slice = out.as_slice();
    assert(slice.deep_view() =~= out.deep_view());
    search::join(slice, ",")
}

/// Where a run of digits ends.
pub open spec fn digits_end(s: Seq<char>, at: int) -> int
    decreases s.len() - at,
{
    if 0 <= at < s.len() && text::is_digit(s[at]) {
        digits_end(s, at + 1)
    } else {
        at
    }
}

pub open spec fn without_sign(s: Seq<char>) -> Seq<char> {
    if s.len() > 0 && (s[0] == '+' || s[0] == '-') {
        s.subrange(1, s.len() as int)
    } else {
        s
    }
}

pub open spec fn is_exponent(s: Seq<char>) -> bool {
    s.len() > 0 && (s[0] == 'e' || s[0] == 'E') && ({
        let d = without_sign(s.subrange(1, s.len() as int));
        d.len() > 0 && num::all_digits(d)
    })
}

/// Whether a text is a floating-point literal: an optional sign, then a number with an optional
/// fraction and exponent, or one of the words for infinity and not-a-number.
pub open spec fn is_float_text(s: Seq<char>) -> bool {
    let u = without_sign(s);
    let whole = digits_end(u, 0);
    let point = 0 <= whole < u.len() && u[whole] == '.';
    let from = if point {
        whole + 1
    } else {
        whole
    };
    let end = if point {
        digits_end(u, from)
    } else {
        whole
    };
    ||| text::fold(u) == "inf"@
    ||| text::fold(u) == "infinity"@
    ||| text::fold(u) == "nan"@
    ||| (whole + (end - from) > 0 && (end >= u.len() || is_exponent(
        u.subrange(end, u.len() as int),
    )))
}

proof fn digits_end_bounds(s: Seq<char>, at: int)
    requires
        0 <= at <= s.len(),
    ensures
        at <= digits_end(s, at) <= s.len(),
    decreases s.len() - at,
{
    if at < s.len() && text::is_digit(s[at]) {
        digits_end_bounds(s, at + 1);
    }
}

fn skip_digits(c: &[char], from: usize) -> (r: usize)
    requires
        from <= c@.len(),
    ensures
        r == digits_end(c@, from as int),
        from <= r <= c@.len(),
{
    let mut i: usize = from;
    while i < c.len() && text::char_is_digit(c[i])
        invariant
            from <= i <= c@.len(),
            digits_end(c@, i as int) == digits_end(c@, from as int),
        decreases c@.len() - i,
    {
        i += 1;
    }
    i
}

fn drop_sign(c: &[char], from: usize) -> (r: Vec<char>)
    requires
        from <= c@.len(),
    ensures
        r@ == without_sign(c@.subrange(from as int, c@.len() as int)),
{
    let start: usize = if from < c.len() && (c[from] == '+' || c[from] == '-') {
        from + 1
    } else {
        from
    };
    let r = text::copy_chars(c, start, c.len());
    assert(r@ =~= without_sign(c@.subrange(from as int, c@.len() as int)));
    r
}

fn all_digit_chars(c: &[char]) -> (r: bool)
    ensures
        r == num::all_digits(c@),
{
    let mut i: usize = 0;
    while i < c.len()
        invariant
            i <= c@.len(),
            forall|j: int| 0 <= j < i ==> text::is_digit(#[trigger] c@[j]),
        decreases c@.len() - i,
    {
        if !text::char_is_digit(c[i]) {
            return false;
        }
        i += 1;
    }
    true
}

pub fn float_text(s: &str) -> (r: bool)
    ensures
        r == is_float_text(s@),
{
    let c = text::chars_of(s);
    assert(c@.subrange(0, c@.len() as int) =~= c@);
    let u = drop_sign(&c, 0);
    let shown = text::text_of(&u);
    let folded = text::to_lower(shown.as_str());
    if text::text_equal(folded.as_str(), "inf") || text::text_equal(folded.as_str(), "infinity")
        || text::text_equal(folded.as_str(), "nan") {
        return true;
    }
    let whole = skip_digits(&u, 0);
    let point = whole < u.len() && u[whole] == '.';
    let from: usize = if point {
        whole + 1
    } else {
        whole
    };
    let end: usize = if point {
        skip_digits(&u, from)
    } else {
        whole
    };
    if whole == 0 && end == from {
        return false;
    }
    if end >= u.len() {
        return true;
    }
    let tail = text::copy_chars(&u, end, u.len());
    if tail[0] != 'e' && tail[0] != 'E' {
        return false;
    }
    let d = drop_sign(&tail, 1);
    d.len() > 0 && all_digit_chars(&d)
}

/// The DEFAULT clause of a column.
pub open spec fn default_sql(c: ColumnModel) -> Seq<char> {
    match c.default {
        None => Seq::empty(),
        Some(value) => {
            let numeric = c.data_type is Int || c.data_type is BigInt || c.data_type is Float
                || c.data_type is Double || c.data_type is Boolean;
            if text::same_fold(value, "NULL"@) {
                " DEFAULT NULL"@
            } else if is_current_timestamp(value) || (numeric && is_float_text(value)) {
                " DEFAULT "@ + value
            } else {
                " DEFAULT '"@ + search::replaced(
                    search::replaced(value, '\\', "\\\\"@),
                    '\'',
                    "''"@,
                ) + "'"@
            }
        },
    }
}

fn render_default(c: &Column) -> (r: String)
    ensures
        r@ == default_sql(c@),
{
    match &c.default {
        None => {
            let s = String::new();
            assert(s@ =~= Seq::empty());
            s
        },
        Some(value) => {
            let numeric = match c.data_type {
                DataType::Int => true,
                DataType::BigInt => true,
                DataType::Float => true,
                DataType::Double => true,
                DataType::Boolean => true,
                _ => false,
            };
            if text::eq_fold(value.as_str(), "NULL") {
                text::copy_text(" DEFAULT NULL")
            } else if is_current_timestamp_default(value.as_str()) || (numeric && float_text(
                value.as_str(),
            )) {
                error::cat2(" DEFAULT ", value.as_str())
            } else {
                let a = search::replace_char(value.as_str(), '\\', "\\\\");
                let b = search::replace_char(a.as_str(), '\'', "''");
                error::cat3(" DEFAULT '", b.as_str(), "'")
            }
        },
    }
}

pub open spec fn flag(on: bool, s: Seq<char>) -> Seq<char> {
    if on {
        s
    } else {
        ""@
    }
}

fn flag_text<'a>(on: bool, s: &'a str) -> (r: &'a str)
    ensures
        r@ == flag(on, s@),
{
    if on {
        s
    } else {
        ""
    }
}

/// The line that defines a column.
pub open spec fn column_sql(c: ColumnModel, auto: Option<Seq<char>>) -> Seq<char> {
    "  "@ + quoted(c.name) + " "@ + data_type_sql(c.data_type) + flag(!c.nullable, " NOT NULL"@)
        + flag(auto == Some(c.name), " AUTO_INCREMENT"@) + flag(
        c.is_primary_key,
        " PRIMARY KEY"@,
    ) + default_sql(c)
}

fn render_column(c: &Column, auto: &Option<String>) -> (r: String)
    ensures
        r@ == column_sql(c@, auto.deep_view()),
{
    let name = quote_name(c.name.as_str());
    let kind = storage_data_type_sql(&c.data_type);
    let numbered = match auto {
        Some(a) => text::text_equal(a.as_str(), c.name.as_str()),
        None => false,
    };
    let default = render_default(c);
    let head = error::cat4("  ", name.as_str(), " ", kind.as_str());
    let mut out = head;
    out.append(flag_text(!c.nullable, " NOT NULL"));
    out.append(flag_text(numbered, " AUTO_INCREMENT"));
    out.append(flag_text(c.is_primary_key, " PRIMARY KEY"));
    out.append(default.as_str());
    out
}

pub open spec fn index_sql(i: IndexModel) -> Seq<char> {
    "  "@ + flag(i.unique, "UNIQUE "@) + "KEY "@ + quoted(i.name) + " ("@ + search::joined(
        quoted_all(i.columns),
        ","@,
    ) + ")"@
}

fn render_index(i: &Index) -> (r: String)
    ensures
        r@ == index_sql(i@),
{
    let name = quote_name(i.name.as_str());
    let columns = quote_names(&i.columns);
    error::cat7(
        "  ",
        flag_text(i.unique, "UNIQUE "),
        "KEY ",
        name.as_str(),
        " (",
        columns.as_str(),
        ")",
    )
}

pub open spec fn any_marked(columns: Seq<ColumnModel>) -> bool {
    exists|i: int| 0 <= i < columns.len() && (#[trigger] columns[i]).is_primary_key
}

/// The lines of a table's definition: columns, a primary key that no column carries, indexes and
/// constraints.
pub open spec fn schema_lines(
    s: SchemaModel,
    auto: Option<Seq<char>>,
    constraints: Seq<Seq<char>>,
) -> Seq<Seq<char>> {
    let primary = match s.primary_key {
        Some(names) => if any_marked(s.columns) {
            Seq::empty()
        } else {
            seq![
                "  PRIMARY KEY ("@ + search::joined(quoted_all(names), ","@) + ")"@,
            ]
        },
        None => Seq::empty(),
    };
    s.columns.map_values(|c: ColumnModel| column_sql(c, auto)) + primary + s.indexes.map_values(
        |i: IndexModel| index_sql(i),
    ) + constraints.map_values(|c: Seq<char>| "  "@ + text::trim(c))
}

/// The `CREATE TABLE` text of a schema.
pub open spec fn schema_sql(
    s: SchemaModel,
    auto: Option<Seq<char>>,
    constraints: Seq<Seq<char>>,
) -> Seq<char> {
    "CREATE TABLE "@ + quoted(s.name) + " (\n"@ + search::joined(
        schema_lines(s, auto, constraints),
        ",\n"@,
    ) + "\n) ENGINE="@ + (if is_memory(s) {
        "MEMORY"@
    } else {
        "InnoDB"@
    }) + " DEFAULT CHARSET=utf8mb4"@
}

fn has_marked(columns: &Vec<Column>) -> (r: bool)
    ensures
        r == any_marked(columns.deep_view()),
{
    let mut i: usize = 0;
    while i < columns.len()
        invariant
            i <= columns@.len(),
            forall|j: int| 0 <= j < i ==> !(#[trigger] columns.deep_view()[j]).is_primary_key,
        decreases columns@.len() - i,
    {
        if columns[i].is_primary_key {
            assert(columns.deep_view()[i as int].is_primary_key);
            return true;
        }
        i += 1;
    }
    false
}

pub fn render_table_schema_sql(
    schema: &TableSchema,
    auto_increment: &Option<String>,
    constraints: &Vec<String>,
) -> (r: String)
    ensures
        r@ == schema_sql(schema@, auto_increment.deep_view(), constraints.deep_view()),
{
    let ghost auto = auto_increment.deep_view();
    let ghost by_column = schema@.columns.map_values(|c: ColumnModel| column_sql(c, auto));
    let ghost by_index = schema@.indexes.map_values(|i: IndexModel| index_sql(i));
    let ghost by_constraint = constraints.deep_view().map_values(
        |c: Seq<char>| "  "@ + text::trim(c),
    );
    let mut lines: Vec<String> = Vec::new();
    let mut i: usize = 0;
    while i < schema.columns.len()
        invariant
            i <= schema.columns@.len(),
            auto == auto_increment.deep_view(),
            by_column == schema@.columns.map_values(|c: ColumnModel| column_sql(c, auto)),
            lines.deep_view() == by_column.take(i as int),
        decreases schema.columns@.len() - i,
    {
        let ghost before = lines.deep_view();
        let line = render_column(&schema.columns[i], auto_increment);
        let ghost shown = line@;
        lines.push(line);
        assert(lines.deep_view() =~= before.push(shown));
        i += 1;
        assert(lines.deep_view() =~= by_column.take(i as int));
    }
    assert(lines.deep_view() =~= by_column);
    let ghost primary = match schema@.primary_key {
        Some(names) => if any_marked(schema@.columns) {
            Seq::empty()
        } else {
            seq!["  PRIMARY KEY ("@ + search::joined(quoted_all(names), ","@) + ")"@]
        },
        None => Seq::empty(),
    };
    if let Some(names) = &schema.primary_key {
        if !has_marked(&schema.columns) {
            let list = quote_names(names);
            let line = error::cat3("  PRIMARY KEY (", list.as_str(), ")");
            lines.push(line);
        }
    }
    assert(lines.deep_view() =~= by_column + primary);
    let mut k: usize = 0;
    while k < schema.indexes.len()
        invariant
            k <= schema.indexes@.len(),
            by_index == schema@.indexes.map_values(|i: IndexModel| index_sql(i)),
            lines.deep_view() == by_column + primary + by_index.take(k as int),
        decreases schema.indexes@.len() - k,
    {
        let ghost before = lines.deep_view();
        let line = render_index(&schema.indexes[k]);
        let ghost shown = line@;
        lines.push(line);
        assert(lines.deep_view() =~= before.push(shown));
        k += 1;
        assert(lines.deep_view() =~= by_column + primary + by_index.take(k as int));
    }
    assert(by_index.take(k as int) =~= by_index);
    let mut m: usize = 0;
    while m < constraints.len()
        invariant
            m <= constraints@.len(),
            by_constraint == constraints.deep_view().map_values(
                |c: Seq<char>| "  "@ + text::trim(c),
            ),
            lines.deep_view() == by_column + primary + by_index + by_constraint.take(m as int),
        decreases constraints@.len() - m,
    {
        let ghost before = lines.deep_view();
        let trimmed = text::trim_text(constraints[m].as_str());
        let line = error::cat2("  ", trimmed.as_str());
        let ghost shown = line@;
        lines.push(line);
        assert(lines.deep_view() =~= before.push(shown));
        m += 1;
        assert(lines.deep_view() =~= by_column + primary + by_index + by_constraint.take(m as int));
    }
    assert(by_constraint.take(m as int) =~= by_constraint);
    assert(lines.deep_view() =~= schema_lines(schema@, auto, constraints.deep_view()));
    let slice = lines.as_slice();
    assert(slice.deep_view() =~= lines.deep_view());
    let inner = search::join(slice, ",\n");
    let name = quote_name(schema.name.as_str());
    let engine = if is_memory_schema(schema) {
        "MEMORY"
    } else {
        "InnoDB"
    };
    error::cat7(
        "CREATE TABLE ",
        name.as_str(),
        " (\n",
        inner.as_str(),
        "\n) ENGINE=",
        engine,
        " DEFAULT CHARSET=utf8mb4",
    )
}

} // verus!
