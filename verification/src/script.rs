//! SQL scripts and the interactive client: where statements end, and what a line asks for.
use crate::error;
use crate::error::{DbError, DbResult};
use crate::num;
use crate::search;
use crate::text;
use vstd::prelude::*;

verus! {

// ---------------------------------------------------------------------------------------------
// Statements
// ---------------------------------------------------------------------------------------------
/// A statement without the white space and the semicolons around it.
pub open spec fn body(sql: Seq<char>) -> Seq<char> {
    text::trim(text::trim_end_by(text::trim(sql), text::char_fn(';')))
}

pub fn statement_body(sql: &str) -> (r: String)
    ensures
        r@ == body(sql@),
{
    let c = text::chars_of(sql);
    let trimmed = text::trim_chars(&c);
    let bare = text::trim_end_char(&trimmed, ';');
    let t = text::trim_chars(&bare);
    text::text_of(&t)
}

/// How far a script has been read: the statements so far, the text since the last of them, the
/// quotation mark that is open, and whether a backslash stands before the next character.
pub struct Reading {
    pub statements: Seq<Seq<char>>,
    pub current: Seq<char>,
    pub quote: Option<char>,
    pub escaped: bool,
}

pub open spec fn opens_quote(c: char) -> bool {
    c == '\'' || c == '"' || c == '`'
}

/// The reading after one more character.
pub open spec fn read_char(st: Reading, c: char) -> Reading {
    let current = st.current.push(c);
    if st.escaped {
        Reading { current: current, escaped: false, ..st }
    } else if c == '\\' && st.quote is Some {
        Reading { current: current, escaped: true, ..st }
    } else if st.quote is Some {
        Reading {
            current: current,
            quote: if st.quote == Some(c) {
                None
            } else {
                st.quote
            },
            ..st
        }
    } else if opens_quote(c) {
        Reading { current: current, quote: Some(c), ..st }
    } else if c == ';' {
        Reading {
            statements: if body(current).len() > 0 {
                st.statements.push(body(current))
            } else {
                st.statements
            },
            current: Seq::empty(),
            ..st
        }
    } else {
        Reading { current: current, ..st }
    }
}

/// The reading after the first `n` characters of a script.
pub open spec fn reading(s: Seq<char>, n: int) -> Reading
    decreases n,
{
    if n <= 0 || n > s.len() {
        Reading { statements: Seq::empty(), current: Seq::empty(), quote: None, escaped: false }
    } else {
        read_char(reading(s, n - 1), s[n - 1])
    }
}

/// The statements of a script that a semicolon ends, and the text behind the last of them. A
/// script that ends inside a quotation is refused.
pub open spec fn split(s: Seq<char>) -> Result<(Seq<Seq<char>>, Seq<char>), Seq<char>> {
    let st = reading(s, s.len() as int);
    match st.quote {
        Some(c) => Err("unterminated "@ + seq![c] + " quote"@),
        None => Ok((st.statements, st.current)),
    }
}

pub fn split_sql(script: &str) -> (r: DbResult<(Vec<String>, String)>)
    ensures
        error::outcome(r) == split(script@),
{
    let c = text::chars_of(script);
    let mut statements: Vec<String> = Vec::new();
    let mut current: Vec<char> = Vec::new();
    let mut quote: Option<char> = None;
    let mut escaped = false;
    let mut i: usize = 0;
    assert(statements.deep_view() =~= Seq::empty());
    while i < c.len()
        invariant
            i <= c@.len(),
            c@ == script@,
            reading(script@, i as int) == (Reading {
                statements: statements.deep_view(),
                current: current@,
                quote: quote,
                escaped: escaped,
            }),
        decreases c@.len() - i,
    {
        let ch = c[i];
        let ghost before = statements.deep_view();
        current.push(ch);
        i += 1;
        if escaped {
            escaped = false;
        } else if let Some(active) = quote {
            if ch == '\\' {
                escaped = true;
            } else if ch == active {
                quote = None;
            }
        } else if ch == '\'' || ch == '"' || ch == '`' {
            quote = Some(ch);
        } else if ch == ';' {
            let piece = text::text_of(&current);
            let statement = statement_body(piece.as_str());
            let length: usize = text::chars_of(statement.as_str()).len();
            if length > 0 {
                statements.push(statement);
                assert(statements.deep_view() =~= before.push(body(current@)));
            }
            current = Vec::new();
            assert(current@ =~= Seq::empty());
        }
    }
    match quote {
        Some(mark) => {
            let mut message = text::copy_text("unterminated ");
            message.push(mark);
            message.append(" quote");
            assert("unterminated "@.push(mark) =~= "unterminated "@ + seq![mark]);
            Err(DbError::new(message))
        },
        None => {
            let rest = text::text_of(&current);
            Ok((statements, rest))
        },
    }
}

/// All statements of a script; the last one needs no semicolon.
pub open spec fn script_statements(s: Seq<char>) -> Result<Seq<Seq<char>>, Seq<char>> {
    match split(s) {
        Err(e) => Err(e),
        Ok((statements, rest)) => if text::trim(rest).len() > 0 {
            Ok(statements.push(text::trim(rest)))
        } else {
            Ok(statements)
        },
    }
}

pub fn split_sql_script(script: &str) -> (r: DbResult<Vec<String>>)
    ensures
        error::outcome(r) == script_statements(script@),
{
    match split_sql(script) {
        Err(e) => Err(e),
        Ok((statements, rest)) => {
            let mut statements = statements;
            let ghost before = statements.deep_view();
            let last = text::trim_text(rest.as_str());
            let length: usize = text::chars_of(last.as_str()).len();
            if length > 0 {
                statements.push(last);
                assert(statements.deep_view() =~= before.push(text::trim(rest@)));
            }
            Ok(statements)
        },
    }
}

/// The statements of a script that a semicolon ends.
pub open spec fn complete_statements(s: Seq<char>) -> Result<Seq<Seq<char>>, Seq<char>> {
    match split(s) {
        Err(e) => Err(e),
        Ok((statements, rest)) => Ok(statements),
    }
}

pub fn split_complete_sql(script: &str) -> (r: DbResult<Vec<String>>)
    ensures
        error::outcome(r) == complete_statements(script@),
{
    match split_sql(script) {
        Err(e) => Err(e),
        Ok((statements, _)) => Ok(statements),
    }
}

// ---------------------------------------------------------------------------------------------
// The interactive client
// ---------------------------------------------------------------------------------------------
/// What a line of input asks for.
#[derive(Debug)]
pub enum LineAction {
    Ignore,
    Quit,
    Help,
    Status,
    /// The statement goes on in the next line.
    More,
    Refuse(String),
    Run(Vec<String>),
}

pub enum LineActionModel {
    Ignore,
    Quit,
    Help,
    Status,
    More,
    Refuse(Seq<char>),
    Run(Seq<Seq<char>>),
}

impl View for LineAction {
    type V = LineActionModel;

    open spec fn view(&self) -> LineActionModel {
        match *self {
            LineAction::Ignore => LineActionModel::Ignore,
            LineAction::Quit => LineActionModel::Quit,
            LineAction::Help => LineActionModel::Help,
            LineAction::Status => LineActionModel::Status,
            LineAction::More => LineActionModel::More,
            LineAction::Refuse(message) => LineActionModel::Refuse(message@),
            LineAction::Run(statements) => LineActionModel::Run(statements.deep_view()),
        }
    }
}

/// What the text entered so far asks for once a line is added to it, and the text that is kept.
pub open spec fn entered(pending: Seq<char>) -> (Seq<char>, LineActionModel) {
    match complete_statements(pending) {
        Err(message) => (Seq::empty(), LineActionModel::Refuse(message)),
        Ok(statements) => if statements.len() == 0 || !search::ends_with(
            text::trim_end_by(pending, text::white_fn()),
            ";"@,
        ) {
            (pending, LineActionModel::More)
        } else {
            (Seq::empty(), LineActionModel::Run(statements))
        },
    }
}

/// What a trimmed line asks for, given its lower-case form: a client command where no statement
/// is open, SQL otherwise.
pub open spec fn line_taken(pending: Seq<char>, line: Seq<char>, lowered: Seq<char>) -> (
    Seq<char>,
    LineActionModel,
) {
    if line.len() == 0 {
        (pending, LineActionModel::Ignore)
    } else if pending.len() == 0 && (lowered == "quit"@ || lowered == "exit"@ || lowered == "q"@) {
        (pending, LineActionModel::Quit)
    } else if pending.len() == 0 && lowered == "help"@ {
        (pending, LineActionModel::Help)
    } else if pending.len() == 0 && lowered == "status"@ {
        (pending, LineActionModel::Status)
    } else {
        entered((pending + line).push('\n'))
    }
}

fn ends_statement(pending: &str) -> (r: bool)
    ensures
        r == search::ends_with(text::trim_end_by(pending@, text::white_fn()), ";"@),
{
    let c = text::chars_of(pending);
    let end: usize = text::skip_white_back(&c, 0, c.len());
    assert(c@.subrange(0, c@.len() as int) == c@);
    let shown = text::copy_chars(&c, 0, end);
    let mark = text::chars_of(";");
    search::chars_end_with(&shown, &mark)
}

/// Takes up a trimmed line, whose lower-case form is given.
pub fn take_line(pending: &mut String, line: &str, lowered: &str) -> (r: LineAction)
    ensures
        (final(pending)@, r@) == line_taken(old(pending)@, line@, lowered@),
{
    let length: usize = text::chars_of(line).len();
    if length == 0 {
        return LineAction::Ignore;
    }
    let open: usize = text::chars_of(pending.as_str()).len();
    if open == 0 {
        if text::text_equal(lowered, "quit") || text::text_equal(lowered, "exit")
            || text::text_equal(lowered, "q") {
            return LineAction::Quit;
        }
        if text::text_equal(lowered, "help") {
            return LineAction::Help;
        }
        if text::text_equal(lowered, "status") {
            return LineAction::Status;
        }
    }
    pending.append(line);
    pending.push('\n');
    let complete = ends_statement(pending.as_str());
    match split_complete_sql(pending.as_str()) {
        Err(e) => {
            *pending = String::new();
            assert(pending@ =~= Seq::empty());
            LineAction::Refuse(e.message)
        },
        Ok(statements) => {
            if statements.len() == 0 || !complete {
                LineAction::More
            } else {
                *pending = String::new();
                assert(pending@ =~= Seq::empty());
                LineAction::Run(statements)
            }
        },
    }
}

/// Takes up a line of input.
pub fn enter_line(pending: &mut String, line: &str) -> (r: LineAction)
    ensures
        (final(pending)@, r@) == line_taken(
            old(pending)@,
            text::trim(line@),
            text::lowercase(text::trim(line@)),
        ),
{
    let trimmed = text::trim_text(line);
    let lowered = text::lower_text(trimmed.as_str());
    take_line(pending, trimmed.as_str(), lowered.as_str())
}

/// The line under a result: how many rows it has, or how many rows a statement changed.
pub open spec fn footer(columns: nat, rows: u64, affected: u64, insert_id: Option<u64>) -> Seq<char> {
    if columns > 0 {
        num::decimal(rows as nat) + " rows in set"@
    } else if insert_id matches Some(id) && id != 0 {
        "Query OK, "@ + num::decimal(affected as nat) + " rows affected, insert id "@ + num::decimal(
            (insert_id->0) as nat,
        )
    } else {
        "Query OK, "@ + num::decimal(affected as nat) + " rows affected"@
    }
}

pub fn result_footer(columns: usize, rows: u64, affected: u64, insert_id: Option<u64>) -> (r: String)
    ensures
        r@ == footer(columns as nat, rows, affected, insert_id),
{
    let changed = num::u64_text(affected);
    if columns > 0 {
        let n = num::u64_text(rows);
        return error::cat2(n.as_str(), " rows in set");
    }
    if let Some(id) = insert_id {
        if id != 0 {
            let shown = num::u64_text(id);
            return error::cat4("Query OK, ", changed.as_str(), " rows affected, insert id ", shown.as_str());
        }
    }
    error::cat3("Query OK, ", changed.as_str(), " rows affected")
}

// ---------------------------------------------------------------------------------------------
// Laws
// ---------------------------------------------------------------------------------------------
/// Inside a quotation no character ends a statement.
pub proof fn quoted_semicolons_do_not_split(st: Reading, c: char)
    requires
        st.quote is Some,
    ensures
        read_char(st, c).statements == st.statements,
        read_char(st, c).current == st.current.push(c),
{
}

/// No statement is empty, and none has white space at either end.
pub proof fn statements_are_bare(s: Seq<char>, n: int, i: int)
    requires
        0 <= n <= s.len(),
        0 <= i < reading(s, n).statements.len(),
    ensures
        reading(s, n).statements[i].len() > 0,
        text::trim(reading(s, n).statements[i]) == reading(s, n).statements[i],
    decreases n,
{
    if n > 0 {
        let before = reading(s, n - 1);
        let current = before.current.push(s[n - 1]);
        if i < before.statements.len() {
            statements_are_bare(s, n - 1, i);
        } else {
            text::trim_idempotent(text::trim_end_by(text::trim(current), text::char_fn(';')));
        }
    }
}

/// Reading on never takes back a statement.
pub proof fn statements_stay(s: Seq<char>, m: int, n: int)
    requires
        0 <= m <= n <= s.len(),
    ensures
        reading(s, m).statements.is_prefix_of(reading(s, n).statements),
    decreases n - m,
{
    if m < n {
        statements_stay(s, m, n - 1);
    }
}

} // verus!
