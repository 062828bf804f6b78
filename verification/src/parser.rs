//! A small SQL statement parser for inspection.
//!
//! It reads the common statement shapes, without executing statements or knowing the full grammar.
use crate::error;
use crate::num;
use crate::search;
use crate::sqltext;
use crate::text;
use vstd::prelude::*;

verus! {

// ---------------------------------------------------------------------------------------------
// Statements
// ---------------------------------------------------------------------------------------------
#[derive(Debug, Clone, Copy, PartialEq, Eq)]
pub struct Parser;

#[derive(Debug, Clone, PartialEq, Eq)]
pub enum Statement {
    Select(SelectStatement),
    Insert(InsertStatement),
    Update(UpdateStatement),
    Delete(DeleteStatement),
    Create(CreateStatement),
    Drop(DropStatement),
    Alter(AlterStatement),
    Use(String),
    Show(ShowStatement),
    Unknown(String),
}

#[derive(Debug, Clone, PartialEq, Eq)]
pub struct SelectStatement {
    pub columns: Vec<String>,
    pub table: String,
    pub where_clause: Option<String>,
    pub order_by: Option<String>,
    pub limit: Option<u32>,
}

#[derive(Debug, Clone, PartialEq, Eq)]
pub struct InsertStatement {
    pub table: String,
    pub columns: Vec<String>,
    pub values: Vec<Vec<String>>,
}

#[derive(Debug, Clone, PartialEq, Eq)]
pub struct UpdateStatement {
    pub table: String,
    pub set_clause: Vec<(String, String)>,
    pub where_clause: Option<String>,
}

#[derive(Debug, Clone, PartialEq, Eq)]
pub struct DeleteStatement {
    pub table: String,
    pub where_clause: Option<String>,
}

#[derive(Debug, Clone, PartialEq, Eq)]
pub struct CreateStatement {
    pub table_name: String,
    pub columns: Vec<ColumnDef>,
}

#[derive(Debug, Clone, PartialEq, Eq)]
pub struct ColumnDef {
    pub name: String,
    pub data_type: String,
    pub nullable: bool,
    pub primary_key: bool,
}

#[derive(Debug, Clone, PartialEq, Eq)]
pub struct DropStatement {
    pub table_name: String,
}

#[derive(Debug, Clone, PartialEq, Eq)]
pub struct AlterStatement {
    pub table_name: String,
    pub operation: AlterOperation,
}

#[derive(Debug, Clone, PartialEq, Eq)]
pub enum AlterOperation {
    AddColumn(ColumnDef),
    DropColumn(String),
    ModifyColumn(ColumnDef),
}

#[derive(Debug, Clone, PartialEq, Eq)]
pub struct ShowStatement {
    pub target: ShowTarget,
}

#[derive(Debug, Clone, PartialEq, Eq)]
pub enum ShowTarget {
    Databases,
    Tables,
    Columns(String),
    CreateTable(String),
}

/// Why a statement cannot be read, and at which byte.
#[derive(Debug, Clone, PartialEq, Eq)]
pub struct ParseError {
    pub message: String,
    pub position: usize,
}

#[verifier::ext_equal]
pub struct ErrorModel {
    pub message: Seq<char>,
    pub position: nat,
}

impl View for ParseError {
    type V = ErrorModel;

    open spec fn view(&self) -> ErrorModel {
        ErrorModel { message: self.message@, position: self.position as nat }
    }
}

impl ParseError {
    pub fn new(message: &str, position: usize) -> (r: Self)
        ensures
            r@ == (ErrorModel { message: message@, position: position as nat }),
    {
        ParseError { message: text::copy_text(message), position: position }
    }

    pub fn to_string(&self) -> (r: String)
        ensures
            r@ == "Parse error at position "@ + num::decimal(self.position as nat) + ": "@
                + self.message@,
    {
        let n = num::usize_text(self.position);
        error::cat4("Parse error at position ", n.as_str(), ": ", self.message.as_str())
    }
}

#[verifier::ext_equal]
pub struct ColumnModel {
    pub name: Seq<char>,
    pub data_type: Seq<char>,
    pub nullable: bool,
    pub primary_key: bool,
}

impl View for ColumnDef {
    type V = ColumnModel;

    open spec fn view(&self) -> ColumnModel {
        ColumnModel {
            name: self.name@,
            data_type: self.data_type@,
            nullable: self.nullable,
            primary_key: self.primary_key,
        }
    }
}

impl DeepView for ColumnDef {
    type V = ColumnModel;

    open spec fn deep_view(&self) -> ColumnModel {
        self@
    }
}

#[allow(inconsistent_fields)]
pub enum StatementModel {
    Select {
        columns: Seq<Seq<char>>,
        table: Seq<char>,
        where_clause: Option<Seq<char>>,
        order_by: Option<Seq<char>>,
        limit: Option<u32>,
    },
    Insert { table: Seq<char>, columns: Seq<Seq<char>>, values: Seq<Seq<Seq<char>>> },
    Update {
        table: Seq<char>,
        set_clause: Seq<(Seq<char>, Seq<char>)>,
        where_clause: Option<Seq<char>>,
    },
    Delete { table: Seq<char>, where_clause: Option<Seq<char>> },
    Create { table: Seq<char>, columns: Seq<ColumnModel> },
    Drop { table: Seq<char> },
    AddColumn { table: Seq<char>, column: ColumnModel },
    DropColumn { table: Seq<char>, name: Seq<char> },
    ModifyColumn { table: Seq<char>, column: ColumnModel },
    Use { name: Seq<char> },
    ShowDatabases,
    ShowTables,
    ShowColumns { table: Seq<char> },
    ShowCreateTable { table: Seq<char> },
    Unknown { source: Seq<char> },
}

impl View for Statement {
    type V = StatementModel;

    open spec fn view(&self) -> StatementModel {
        match self {
            Statement::Select(s) => StatementModel::Select {
                columns: s.columns.deep_view(),
                table: s.table@,
                where_clause: s.where_clause.deep_view(),
                order_by: s.order_by.deep_view(),
                limit: s.limit,
            },
            Statement::Insert(s) => StatementModel::Insert {
                table: s.table@,
                columns: s.columns.deep_view(),
                values: s.values.deep_view(),
            },
            Statement::Update(s) => StatementModel::Update {
                table: s.table@,
                set_clause: s.set_clause.deep_view(),
                where_clause: s.where_clause.deep_view(),
            },
            Statement::Delete(s) => StatementModel::Delete {
                table: s.table@,
                where_clause: s.where_clause.deep_view(),
            },
            Statement::Create(s) => StatementModel::Create {
                table: s.table_name@,
                columns: s.columns.deep_view(),
            },
            Statement::Drop(s) => StatementModel::Drop { table: s.table_name@ },
            Statement::Alter(s) => match s.operation {
                AlterOperation::AddColumn(c) => StatementModel::AddColumn {
                    table: s.table_name@,
                    column: c@,
                },
                AlterOperation::DropColumn(name) => StatementModel::DropColumn {
                    table: s.table_name@,
                    name: name@,
                },
                AlterOperation::ModifyColumn(c) => StatementModel::ModifyColumn {
                    table: s.table_name@,
                    column: c@,
                },
            },
            Statement::Use(name) => StatementModel::Use { name: name@ },
            Statement::Show(s) => match s.target {
                ShowTarget::Databases => StatementModel::ShowDatabases,
                ShowTarget::Tables => StatementModel::ShowTables,
                ShowTarget::Columns(name) => StatementModel::ShowColumns { table: name@ },
                ShowTarget::CreateTable(name) => StatementModel::ShowCreateTable { table: name@ },
            },
            Statement::Unknown(source) => StatementModel::Unknown { source: source@ },
        }
    }
}

pub type Parsed = Result<StatementModel, ErrorModel>;

pub open spec fn parsed(r: Result<Statement, ParseError>) -> Parsed {
    match r {
        Ok(s) => Ok(s@),
        Err(e) => Err(e@),
    }
}

pub open spec fn fail(message: Seq<char>, position: nat) -> ErrorModel {
    ErrorModel { message: message, position: position }
}

/// The bytes of a text.
pub open spec fn width(s: Seq<char>) -> nat {
    text::bytes_of(s).len()
}

fn width_of(c: &[char]) -> (r: usize)
    ensures
        r == width(c@),
{
    let s = text::text_of(c);
    text::text_bytes(s.as_str()).len()
}

// ---------------------------------------------------------------------------------------------
// Scanning: quotes and parentheses
// ---------------------------------------------------------------------------------------------
/// Where a scan stands: in which quote, behind a backslash or not, in how many parentheses.
#[derive(Debug, Clone, Copy, PartialEq, Eq, Structural)]
pub struct ScanState {
    pub quote: Option<char>,
    pub escaped: bool,
    pub depth: usize,
}

pub open spec fn scan_start() -> ScanState {
    ScanState { quote: None, escaped: false, depth: 0 }
}

/// The scan past one more character.
pub open spec fn scanned(st: ScanState, c: char) -> ScanState {
    if st.escaped {
        ScanState { escaped: false, ..st }
    } else if st.quote is Some && c == '\\' {
        ScanState { escaped: true, ..st }
    } else if st.quote is Some {
        if st.quote->0 == c {
            ScanState { quote: None, ..st }
        } else {
            st
        }
    } else if c == '\'' || c == '"' || c == '`' {
        ScanState { quote: Some(c), ..st }
    } else if c == '(' {
        ScanState { depth: st.depth.saturating_add(1), ..st }
    } else if c == ')' && st.depth > 0 {
        ScanState { depth: (st.depth - 1) as usize, ..st }
    } else {
        st
    }
}

pub open spec fn top_level(st: ScanState) -> bool {
    st.quote is None && st.depth == 0
}

/// Why a scan cannot end where it stands.
pub open spec fn unfinished(st: ScanState, position: nat) -> Option<ErrorModel> {
    if st.quote is Some {
        Some(fail("unterminated quoted value"@, position))
    } else if st.depth != 0 {
        Some(fail("unclosed parenthesis"@, position))
    } else {
        None
    }
}

impl ScanState {
    fn start() -> (r: Self)
        ensures
            r == scan_start(),
    {
        ScanState { quote: None, escaped: false, depth: 0 }
    }

    fn step(self, c: char) -> (r: Self)
        ensures
            r == scanned(self, c),
    {
        if self.escaped {
            return ScanState { quote: self.quote, escaped: false, depth: self.depth };
        }
        match self.quote {
            Some(q) => {
                if c == '\\' {
                    ScanState { quote: self.quote, escaped: true, depth: self.depth }
                } else if q == c {
                    ScanState { quote: None, escaped: false, depth: self.depth }
                } else {
                    self
                }
            },
            None => {
                if c == '\'' || c == '"' || c == '`' {
                    ScanState { quote: Some(c), escaped: false, depth: self.depth }
                } else if c == '(' {
                    ScanState { quote: None, escaped: false, depth: self.depth.saturating_add(1) }
                } else if c == ')' && self.depth > 0 {
                    ScanState { quote: None, escaped: false, depth: self.depth - 1 }
                } else {
                    self
                }
            },
        }
    }

    fn is_top_level(self) -> (r: bool)
        ensures
            r == top_level(self),
    {
        self.quote.is_none() && self.depth == 0
    }
}

// ---------------------------------------------------------------------------------------------
// Words and keywords
// ---------------------------------------------------------------------------------------------
pub open spec fn trim_start(s: Seq<char>) -> Seq<char> {
    text::trim_start_by(s, text::white_fn())
}

fn trimmed_start(c: &[char]) -> (r: Vec<char>)
    ensures
        r@ == trim_start(c@),
{
    let a = text::skip_white(c, 0, c.len());
    assert(c@.subrange(0, c@.len() as int) =~= c@);
    text::copy_chars(c, a, c.len())
}

fn behind(c: &[char], n: usize) -> (r: Vec<char>)
    requires
        n <= c@.len(),
    ensures
        r@ == c@.skip(n as int),
{
    let r = text::copy_chars(c, n, c.len());
    assert(r@ =~= c@.skip(n as int));
    r
}

fn front(c: &[char], n: usize) -> (r: Vec<char>)
    requires
        n <= c@.len(),
    ensures
        r@ == c@.take(n as int),
{
    let r = text::copy_chars(c, 0, n);
    assert(r@ =~= c@.take(n as int));
    r
}

/// A statement without white space around it and without one closing semicolon.
pub open spec fn trimmed_statement(sql: Seq<char>) -> Seq<char> {
    let s = text::trim(sql);
    if s.len() > 0 && s.last() == ';' {
        text::trim(s.drop_last())
    } else {
        s
    }
}

fn trim_statement(sql: &str) -> (r: Vec<char>)
    ensures
        r@ == trimmed_statement(sql@),
{
    let c = text::chars_of(sql);
    let s = text::trim_chars(&c);
    let n: usize = s.len();
    if n > 0 && s[n - 1] == ';' {
        let t = front(&s, n - 1);
        assert(t@ =~= s@.drop_last());
        text::trim_chars(&t)
    } else {
        s
    }
}

/// The first white space from `at` on, or the end.
pub open spec fn white_from(s: Seq<char>, at: int) -> int
    decreases s.len() - at,
{
    if at < 0 || at >= s.len() || text::is_white(s[at]) {
        at
    } else {
        white_from(s, at + 1)
    }
}

/// The first word of a text, and what follows it.
pub open spec fn first_word(s: Seq<char>) -> (Seq<char>, Seq<char>) {
    let k = white_from(s, 0);
    (s.take(k), trim_start(s.skip(k)))
}

pub open spec fn take_first_word(s: Seq<char>) -> (Seq<char>, Seq<char>) {
    first_word(trim_start(s))
}

fn split_word(c: &[char]) -> (r: (Vec<char>, Vec<char>))
    ensures
        (r.0@, r.1@) == first_word(c@),
{
    let mut k: usize = 0;
    while k < c.len() && !text::char_is_white(c[k])
        invariant
            k <= c@.len(),
            white_from(c@, k as int) == white_from(c@, 0),
        decreases c@.len() - k,
    {
        k += 1;
    }
    let word = front(c, k);
    let rest = behind(c, k);
    (word, trimmed_start(&rest))
}

fn split_first_word(c: &[char]) -> (r: (Vec<char>, Vec<char>))
    ensures
        (r.0@, r.1@) == take_first_word(c@),
{
    let t = trimmed_start(c);
    split_word(&t)
}

/// Whether a word is a keyword, which is written in capitals here.
pub open spec fn is_word(word: Seq<char>, keyword: Seq<char>) -> bool {
    text::upper(word) == keyword
}

fn word_is(word: &[char], keyword: &str) -> (r: bool)
    ensures
        r == is_word(word@, keyword@),
{
    let u = text::upper_chars(word);
    let s = text::text_of(&u);
    text::text_equal(s.as_str(), keyword)
}

pub open spec fn is_identifier_char(c: char) -> bool {
    text::is_alphanumeric(c) || c == '_' || c == '$'
}

fn char_in_identifier(c: char) -> (r: bool)
    ensures
        r == is_identifier_char(c),
{
    text::char_is_alphanumeric(c) || c == '_' || c == '$'
}

/// Whether the characters `start..start + length` are not part of a longer identifier.
pub open spec fn boundary(s: Seq<char>, start: int, length: int) -> bool {
    !(start > 0 && is_identifier_char(s[start - 1])) && !(start + length < s.len()
        && is_identifier_char(s[start + length]))
}

/// Whether a keyword stands at a place by itself.
pub open spec fn keyword_at(s: Seq<char>, keyword: Seq<char>, at: int) -> bool {
    text::same_fold(s.subrange(at, at + keyword.len()), keyword) && boundary(
        s,
        at,
        keyword.len() as int,
    )
}

/// The first place from `at` on where a keyword stands outside quotes and parentheses.
pub open spec fn keyword_from(s: Seq<char>, keyword: Seq<char>, st: ScanState, at: int) -> Option<int>
    decreases s.len() - at,
{
    if at < 0 || at + keyword.len() > s.len() || at >= s.len() {
        None
    } else {
        let next = scanned(st, s[at]);
        if top_level(next) && keyword_at(s, keyword, at) {
            Some(at)
        } else {
            keyword_from(s, keyword, next, at + 1)
        }
    }
}

pub open spec fn split_keyword(s: Seq<char>, keyword: Seq<char>) -> (Seq<char>, Option<Seq<char>>) {
    match keyword_from(s, keyword, scan_start(), 0) {
        None => (s, None),
        Some(i) => (s.take(i), Some(s.skip(i + keyword.len()))),
    }
}

fn find_keyword(c: &[char], keyword: &[char]) -> (r: Option<usize>)
    ensures
        r is Some == keyword_from(c@, keyword@, scan_start(), 0) is Some,
        r matches Some(i) ==> keyword_from(c@, keyword@, scan_start(), 0) == Some(i as int) && i
            + keyword@.len() <= c@.len(),
{
    let n: usize = c.len();
    let k: usize = keyword.len();
    let mut st = ScanState::start();
    let mut at: usize = 0;
    while at < n && k <= n - at
        invariant
            n == c@.len(),
            k == keyword@.len(),
            at <= n,
            keyword_from(c@, keyword@, st, at as int) == keyword_from(
                c@,
                keyword@,
                scan_start(),
                0,
            ),
        decreases n - at,
    {
        st = st.step(c[at]);
        if st.is_top_level() {
            let part = text::copy_chars(c, at, at + k);
            if text::eq_fold_chars(&part, keyword) {
                let before = at > 0 && char_in_identifier(c[at - 1]);
                let after = at + k < n && char_in_identifier(c[at + k]);
                if !before && !after {
                    return Some(at);
                }
            }
        }
        at += 1;
    }
    None
}

pub open spec fn part_model(r: (Vec<char>, Option<Vec<char>>)) -> (Seq<char>, Option<Seq<char>>) {
    (
        r.0@,
        match r.1 {
            Some(v) => Some(v@),
            None => None,
        },
    )
}

fn cut_keyword(c: &[char], keyword: &str) -> (r: (Vec<char>, Option<Vec<char>>))
    ensures
        part_model(r) == split_keyword(c@, keyword@),
{
    let k = text::chars_of(keyword);
    match find_keyword(c, &k) {
        None => {
            let all = front(c, c.len());
            assert(all@ =~= c@);
            (all, None)
        },
        Some(i) => {
            let total: usize = c.len();
            let n: usize = k.len();
            assert(i + n <= total);
            (front(c, i), Some(behind(c, i + n)))
        },
    }
}

/// What follows a keyword at the beginning of a text.
pub open spec fn strip_keyword(s: Seq<char>, keyword: Seq<char>) -> Option<Seq<char>> {
    let n = keyword.len() as int;
    if n <= s.len() && text::same_fold(s.take(n), keyword) && (s.len() == n || text::is_white(
        s[n],
    )) {
        Some(s.skip(n))
    } else {
        None
    }
}

pub open spec fn without_keyword(s: Seq<char>, keyword: Seq<char>) -> Seq<char> {
    match strip_keyword(s, keyword) {
        Some(rest) => rest,
        None => s,
    }
}

fn stripped_keyword(c: &[char], keyword: &str) -> (r: Option<Vec<char>>)
    ensures
        r is Some == strip_keyword(c@, keyword@) is Some,
        r matches Some(v) ==> strip_keyword(c@, keyword@) == Some(v@),
{
    let k = text::chars_of(keyword);
    let n: usize = k.len();
    if n > c.len() {
        return None;
    }
    let head = front(c, n);
    if text::eq_fold_chars(&head, &k) && (c.len() == n || text::char_is_white(c[n])) {
        Some(behind(c, n))
    } else {
        None
    }
}

fn drop_keyword(c: Vec<char>, keyword: &str) -> (r: Vec<char>)
    ensures
        r@ == without_keyword(c@, keyword@),
{
    match stripped_keyword(&c, keyword) {
        Some(rest) => rest,
        None => c,
    }
}

/// Doubled quotes made single, from `at` on.
pub open spec fn undoubled(s: Seq<char>, x: char, at: int) -> Seq<char>
    decreases s.len() - at,
{
    if at < 0 || at >= s.len() {
        Seq::empty()
    } else if s[at] == x && at + 1 < s.len() && s[at + 1] == x {
        seq![x] + undoubled(s, x, at + 2)
    } else {
        seq![s[at]] + undoubled(s, x, at + 1)
    }
}

/// An identifier without its quotes.
pub open spec fn unquoted(value: Seq<char>) -> Seq<char> {
    let s = text::trim(value);
    if s.len() >= 2 && s[0] == '`' && s.last() == '`' {
        undoubled(s.subrange(1, s.len() - 1), '`', 0)
    } else {
        s
    }
}

fn unquote_chars(value: &[char]) -> (r: String)
    ensures
        r@ == unquoted(value@),
{
    let s = text::trim_chars(value);
    let n: usize = s.len();
    if n >= 2 && s[0] == '`' && s[n - 1] == '`' {
        let inner = text::copy_chars(&s, 1, n - 1);
        let ghost whole = undoubled(inner@, '`', 0);
        let mut out: Vec<char> = Vec::new();
        let mut i: usize = 0;
        let m: usize = inner.len();
        assert(out@ + undoubled(inner@, '`', 0) =~= whole);
        while i < m
            invariant
                m == inner@.len(),
                i <= m,
                out@ + undoubled(inner@, '`', i as int) == whole,
            decreases m - i,
        {
            let ghost before = out@;
            if inner[i] == '`' && m - i > 1 && inner[i + 1] == '`' {
                out.push('`');
                assert(before + (seq!['`'] + undoubled(inner@, '`', i + 2)) =~= out@ + undoubled(
                    inner@,
                    '`',
                    i + 2,
                ));
                i += 2;
            } else {
                out.push(inner[i]);
                assert(before + (seq![inner@[i as int]] + undoubled(inner@, '`', i + 1)) =~= out@
                    + undoubled(inner@, '`', i + 1));
                i += 1;
            }
        }
        assert(out@ =~= whole);
        text::text_of(&out)
    } else {
        text::text_of(&s)
    }
}

/// An identifier without its quotes. One that was quoted comes back as it was.
pub fn unquote_identifier(value: &str) -> (r: String)
    ensures
        r@ == unquoted(value@),
        forall|name: Seq<char>| value@ == #[trigger] sqltext::quoted(name) ==> r@ == name,
{
    proof {
        assert forall|name: Seq<char>| value@ == #[trigger] sqltext::quoted(name) implies unquoted(
            value@,
        ) == name by {
            quoted_names_are_unquoted(name);
        }
    }
    let c = text::chars_of(value);
    unquote_chars(&c)
}

// ---------------------------------------------------------------------------------------------
// Lists
// ---------------------------------------------------------------------------------------------
/// A text cut at a delimiter outside quotes and parentheses, from `at` on; `start` is where the
/// last part begins.
pub open spec fn split_from(
    s: Seq<char>,
    delimiter: char,
    st: ScanState,
    start: int,
    at: int,
    done: Seq<Seq<char>>,
) -> Result<Seq<Seq<char>>, ErrorModel>
    decreases s.len() - at,
{
    if at < 0 || at >= s.len() {
        match unfinished(st, width(s)) {
            Some(e) => Err(e),
            None => {
                let tail = text::trim(s.skip(start));
                Ok(
                    if tail.len() > 0 || done.len() > 0 {
                        done.push(tail)
                    } else {
                        done
                    },
                )
            },
        }
    } else {
        let next = scanned(st, s[at]);
        if s[at] == delimiter && top_level(next) {
            split_from(
                s,
                delimiter,
                next,
                at + 1,
                at + 1,
                done.push(text::trim(s.subrange(start, at))),
            )
        } else {
            split_from(s, delimiter, next, start, at + 1, done)
        }
    }
}

pub open spec fn split_list(s: Seq<char>) -> Result<Seq<Seq<char>>, ErrorModel> {
    split_from(s, ',', scan_start(), 0, 0, Seq::empty())
}

pub open spec fn list_model(r: Result<Vec<String>, ParseError>) -> Result<
    Seq<Seq<char>>,
    ErrorModel,
> {
    match r {
        Ok(list) => Ok(list.deep_view()),
        Err(e) => Err(e@),
    }
}

fn split_top_level(c: &[char]) -> (r: Result<Vec<String>, ParseError>)
    ensures
        list_model(r) == split_list(c@),
{
    let n: usize = c.len();
    let mut out: Vec<String> = Vec::new();
    let mut st = ScanState::start();
    let mut start: usize = 0;
    let mut at: usize = 0;
    assert(out.deep_view() =~= Seq::empty());
    while at < n
        invariant
            n == c@.len(),
            start <= at <= n,
            split_from(c@, ',', st, start as int, at as int, out.deep_view()) == split_list(c@),
        decreases n - at,
    {
        st = st.step(c[at]);
        if c[at] == ',' && st.is_top_level() {
            let part = text::copy_chars(c, start, at);
            let part = text::trim_chars(&part);
            let ghost before = out.deep_view();
            out.push(text::text_of(&part));
            assert(out.deep_view() =~= before.push(part@));
            start = at + 1;
        }
        at += 1;
    }
    if st.quote.is_some() {
        return Err(ParseError::new("unterminated quoted value", width_of(c)));
    }
    if st.depth != 0 {
        return Err(ParseError::new("unclosed parenthesis", width_of(c)));
    }
    let tail = behind(c, start);
    let tail = text::trim_chars(&tail);
    assert(out.deep_view().len() == out@.len());
    if tail.len() > 0 || out.len() > 0 {
        let ghost before = out.deep_view();
        out.push(text::text_of(&tail));
        assert(out.deep_view() =~= before.push(tail@));
    }
    Ok(out)
}

/// The parenthesis that closes the one where a scan began, from `at` on.
pub open spec fn closing_from(s: Seq<char>, st: ScanState, at: int) -> Option<int>
    decreases s.len() - at,
{
    if at < 0 || at >= s.len() {
        None
    } else {
        let next = scanned(st, s[at]);
        if s[at] == ')' && next.depth == 0 {
            Some(at)
        } else {
            closing_from(s, next, at + 1)
        }
    }
}

pub open spec fn closing(s: Seq<char>, open: int) -> Result<int, ErrorModel> {
    match closing_from(s, scan_start(), open) {
        Some(i) => Ok(i),
        None => Err(fail("unclosed parenthesis"@, width(s.take(open)))),
    }
}

fn matching_parenthesis(c: &[char], open: usize) -> (r: Result<usize, ParseError>)
    requires
        open < c@.len(),
        c@[open as int] == '(',
    ensures
        match r {
            Ok(i) => closing(c@, open as int) == Ok::<int, ErrorModel>(i as int) && open < i
                < c@.len(),
            Err(e) => closing(c@, open as int) == Err::<int, ErrorModel>(e@),
        },
{
    let n: usize = c.len();
    let mut st = ScanState::start();
    let mut at: usize = open;
    while at < n
        invariant
            n == c@.len(),
            open <= at <= n,
            open < n,
            c@[open as int] == '(',
            closing_from(c@, st, at as int) == closing_from(c@, scan_start(), open as int),
        decreases n - at,
    {
        st = st.step(c[at]);
        if c[at] == ')' && st.depth == 0 {
            return Ok(at);
        }
        at += 1;
    }
    let head = front(c, open);
    Err(ParseError::new("unclosed parenthesis", width_of(&head)))
}

/// The first `=` outside quotes and parentheses, from `at` on.
pub open spec fn equals_from(s: Seq<char>, st: ScanState, at: int) -> Option<int>
    decreases s.len() - at,
{
    if at < 0 || at >= s.len() {
        None
    } else {
        let next = scanned(st, s[at]);
        if s[at] == '=' && top_level(next) {
            Some(at)
        } else {
            equals_from(s, next, at + 1)
        }
    }
}

fn find_equals(c: &[char]) -> (r: Option<usize>)
    ensures
        r is Some == equals_from(c@, scan_start(), 0) is Some,
        r matches Some(i) ==> equals_from(c@, scan_start(), 0) == Some(i as int) && i < c@.len(),
{
    let n: usize = c.len();
    let mut st = ScanState::start();
    let mut at: usize = 0;
    while at < n
        invariant
            n == c@.len(),
            at <= n,
            equals_from(c@, st, at as int) == equals_from(c@, scan_start(), 0),
        decreases n - at,
    {
        st = st.step(c[at]);
        if c[at] == '=' && st.is_top_level() {
            return Some(at);
        }
        at += 1;
    }
    None
}

// ---------------------------------------------------------------------------------------------
// SELECT
// ---------------------------------------------------------------------------------------------
pub open spec fn trimmed(s: Option<Seq<char>>) -> Option<Seq<char>> {
    match s {
        Some(v) => Some(text::trim(v)),
        None => None,
    }
}

pub open spec fn nonempty(s: Option<Seq<char>>) -> Option<Seq<char>> {
    match s {
        Some(v) => if v.len() > 0 {
            Some(v)
        } else {
            None
        },
        None => None,
    }
}

/// The number behind LIMIT.
pub open spec fn limit_value(s: Option<Seq<char>>) -> Result<Option<u32>, ErrorModel> {
    match s {
        None => Ok(None),
        Some(v) => {
            let words = search::words(v);
            if words.len() == 0 {
                Err(fail("LIMIT requires a number"@, 0))
            } else {
                match num::parsed(words[0], u32::MAX as nat) {
                    Some(n) => Ok(Some(n as u32)),
                    None => Err(fail("LIMIT requires a non-negative integer"@, 0)),
                }
            }
        },
    }
}

fn trim_part(s: Option<Vec<char>>) -> (r: Option<String>)
    ensures
        r.deep_view() == trimmed(
            match s {
                Some(v) => Some(v@),
                None => None,
            },
        ),
{
    match s {
        None => None,
        Some(v) => {
            let t = text::trim_chars(&v);
            Some(text::text_of(&t))
        },
    }
}

fn read_limit(s: &Option<Vec<char>>) -> (r: Result<Option<u32>, ParseError>)
    ensures
        match r {
            Ok(n) => limit_value(
                match *s {
                    Some(v) => Some(v@),
                    None => None,
                },
            ) == Ok::<Option<u32>, ErrorModel>(n),
            Err(e) => limit_value(
                match *s {
                    Some(v) => Some(v@),
                    None => None,
                },
            ) == Err::<Option<u32>, ErrorModel>(e@),
        },
{
    match s {
        None => Ok(None),
        Some(v) => {
            let words = search::words_of(v);
            assert(words.deep_view().len() == words@.len());
            if words.len() == 0 {
                return Err(ParseError::new("LIMIT requires a number", 0));
            }
            assert(words.deep_view()[0] == words@[0]@);
            match num::parse_u64(words[0].as_str(), u32::MAX as u64) {
                Some(n) => Ok(Some(n as u32)),
                None => Err(ParseError::new("LIMIT requires a non-negative integer", 0)),
            }
        },
    }
}

pub open spec fn selected(source: Seq<char>) -> Parsed {
    let body = trim_start(source.skip(6));
    let (projection, from) = split_keyword(body, "FROM"@);
    match from {
        None => match split_list(projection) {
            Err(e) => Err(e),
            Ok(columns) => Ok(
                StatementModel::Select {
                    columns: columns,
                    table: Seq::empty(),
                    where_clause: None,
                    order_by: None,
                    limit: None,
                },
            ),
        },
        Some(rest) => {
            let (table, tail) = take_first_word(rest);
            let (without_limit, limit_part) = split_keyword(tail, "LIMIT"@);
            let (without_order, order_part) = split_keyword(without_limit, "ORDER BY"@);
            let (_, where_part) = split_keyword(without_order, "WHERE"@);
            match limit_value(limit_part) {
                Err(e) => Err(e),
                Ok(limit) => match split_list(projection) {
                    Err(e) => Err(e),
                    Ok(columns) => Ok(
                        StatementModel::Select {
                            columns: columns,
                            table: unquoted(table),
                            where_clause: nonempty(trimmed(where_part)),
                            order_by: trimmed(order_part),
                            limit: limit,
                        },
                    ),
                },
            }
        },
    }
}

fn parse_select(source: &[char]) -> (r: Result<Statement, ParseError>)
    requires
        source@.len() >= 6,
    ensures
        parsed(r) == selected(source@),
{
    let rest = behind(source, 6);
    let body = trimmed_start(&rest);
    let (projection, from) = cut_keyword(&body, "FROM");
    match from {
        None => {
            let columns = match split_top_level(&projection) {
                Err(e) => {
                    return Err(e);
                },
                Ok(columns) => columns,
            };
            let table = String::new();
            assert(table@ =~= Seq::empty());
            Ok(
                Statement::Select(
                    SelectStatement {
                        columns: columns,
                        table: table,
                        where_clause: None,
                        order_by: None,
                        limit: None,
                    },
                ),
            )
        },
        Some(rest) => {
            let (table, tail) = split_first_word(&rest);
            let (without_limit, limit_part) = cut_keyword(&tail, "LIMIT");
            let (without_order, order_part) = cut_keyword(&without_limit, "ORDER BY");
            let (_, where_part) = cut_keyword(&without_order, "WHERE");
            let limit = match read_limit(&limit_part) {
                Err(e) => {
                    return Err(e);
                },
                Ok(limit) => limit,
            };
            let columns = match split_top_level(&projection) {
                Err(e) => {
                    return Err(e);
                },
                Ok(columns) => columns,
            };
            let order_by = trim_part(order_part);
            let where_clause = match trim_part(where_part) {
                None => None,
                Some(w) => {
                    if text::text_equal(w.as_str(), "") {
                        proof {
                            reveal_strlit("");
                        }
                        None
                    } else {
                        proof {
                            reveal_strlit("");
                            if w@.len() == 0 {
                                assert(w@ =~= ""@);
                            }
                        }
                        Some(w)
                    }
                },
            };
            Ok(
                Statement::Select(
                    SelectStatement {
                        columns: columns,
                        table: unquote_chars(&table),
                        where_clause: where_clause,
                        order_by: order_by,
                        limit: limit,
                    },
                ),
            )
        },
    }
}

// ---------------------------------------------------------------------------------------------
// INSERT
// ---------------------------------------------------------------------------------------------
/// The values of one parenthesized entry.
pub open spec fn entry_values(entry: Seq<char>) -> Result<Seq<Seq<char>>, ErrorModel> {
    let item = text::trim(entry);
    if !(item.len() > 0 && item[0] == '(') {
        Err(fail("VALUES entries must be parenthesized"@, 0))
    } else {
        match closing(item, 0) {
            Err(e) => Err(e),
            Ok(close) => if text::trim(item.skip(close + 1)).len() > 0 {
                Err(fail("unexpected text after VALUES entry"@, width(item.take(close + 1))))
            } else {
                split_list(item.subrange(1, close))
            },
        }
    }
}

pub open spec fn entries_from(
    entries: Seq<Seq<char>>,
    at: int,
    done: Seq<Seq<Seq<char>>>,
) -> Result<Seq<Seq<Seq<char>>>, ErrorModel>
    decreases entries.len() - at,
{
    if at < 0 || at >= entries.len() {
        Ok(done)
    } else {
        match entry_values(entries[at]) {
            Err(e) => Err(e),
            Ok(values) => entries_from(entries, at + 1, done.push(values)),
        }
    }
}

/// The table and columns in front of VALUES.
pub open spec fn insert_target(s: Seq<char>) -> Result<(Seq<char>, Seq<Seq<char>>), ErrorModel> {
    match search::find_char_from(s, '(', 0) {
        None => Ok((unquoted(text::trim(s)), Seq::empty())),
        Some(open) => match closing(s, open) {
            Err(e) => Err(e),
            Ok(close) => match split_list(s.subrange(open + 1, close)) {
                Err(e) => Err(e),
                Ok(columns) => Ok((unquoted(text::trim(s.take(open))), columns)),
            },
        },
    }
}

pub open spec fn inserted(source: Seq<char>) -> Parsed {
    let body = trim_start(without_keyword(trim_start(source.skip(6)), "INTO"@));
    let (before, values) = split_keyword(body, "VALUES"@);
    match values {
        None => Err(fail("INSERT requires VALUES"@, width(source))),
        Some(list) => match insert_target(before) {
            Err(e) => Err(e),
            Ok((table, columns)) => match split_list(text::trim(list)) {
                Err(e) => Err(e),
                Ok(entries) => match entries_from(entries, 0, Seq::empty()) {
                    Err(e) => Err(e),
                    Ok(values) => Ok(
                        StatementModel::Insert { table: table, columns: columns, values: values },
                    ),
                },
            },
        },
    }
}

fn read_entry(entry: &str) -> (r: Result<Vec<String>, ParseError>)
    ensures
        list_model(r) == entry_values(entry@),
{
    let c = text::chars_of(entry);
    let item = text::trim_chars(&c);
    let n: usize = item.len();
    if !(n > 0 && item[0] == '(') {
        return Err(ParseError::new("VALUES entries must be parenthesized", 0));
    }
    let close = match matching_parenthesis(&item, 0) {
        Err(e) => {
            return Err(e);
        },
        Ok(close) => close,
    };
    let rest = behind(&item, close + 1);
    let rest = text::trim_chars(&rest);
    if rest.len() > 0 {
        let head = front(&item, close + 1);
        return Err(ParseError::new("unexpected text after VALUES entry", width_of(&head)));
    }
    let inner = text::copy_chars(&item, 1, close);
    split_top_level(&inner)
}

fn read_entries(entries: &Vec<String>) -> (r: Result<Vec<Vec<String>>, ParseError>)
    ensures
        match r {
            Ok(values) => entries_from(entries.deep_view(), 0, Seq::empty()) == Ok::<
                Seq<Seq<Seq<char>>>,
                ErrorModel,
            >(values.deep_view()),
            Err(e) => entries_from(entries.deep_view(), 0, Seq::empty()) == Err::<
                Seq<Seq<Seq<char>>>,
                ErrorModel,
            >(e@),
        },
{
    let ghost all = entries.deep_view();
    let mut out: Vec<Vec<String>> = Vec::new();
    let mut i: usize = 0;
    assert(out.deep_view() =~= Seq::empty());
    while i < entries.len()
        invariant
            i <= entries@.len(),
            all == entries.deep_view(),
            entries_from(all, i as int, out.deep_view()) == entries_from(all, 0, Seq::empty()),
        decreases entries@.len() - i,
    {
        assert(all[i as int] == entries@[i as int]@);
        match read_entry(entries[i].as_str()) {
            Err(e) => {
                return Err(e);
            },
            Ok(values) => {
                let ghost before = out.deep_view();
                let ghost made = values.deep_view();
                out.push(values);
                assert(out.deep_view() =~= before.push(made));
            },
        }
        i += 1;
    }
    Ok(out)
}

fn read_target(c: &[char]) -> (r: Result<(String, Vec<String>), ParseError>)
    ensures
        match r {
            Ok(t) => insert_target(c@) == Ok::<(Seq<char>, Seq<Seq<char>>), ErrorModel>(
                (t.0@, t.1.deep_view()),
            ),
            Err(e) => insert_target(c@) == Err::<(Seq<char>, Seq<Seq<char>>), ErrorModel>(e@),
        },
{
    match search::find_char(c, '(', 0) {
        None => {
            let t = text::trim_chars(c);
            let none: Vec<String> = Vec::new();
            assert(none.deep_view() =~= Seq::empty());
            Ok((unquote_chars(&t), none))
        },
        Some(open) => {
            proof {
                found_char(c@, '(', 0);
            }
            let close = match matching_parenthesis(c, open) {
                Err(e) => {
                    return Err(e);
                },
                Ok(close) => close,
            };
            let inner = text::copy_chars(c, open + 1, close);
            let columns = match split_top_level(&inner) {
                Err(e) => {
                    return Err(e);
                },
                Ok(columns) => columns,
            };
            let head = front(c, open);
            let head = text::trim_chars(&head);
            Ok((unquote_chars(&head), columns))
        },
    }
}

proof fn found_char(s: Seq<char>, x: char, from: int)
    requires
        0 <= from,
    ensures
        search::find_char_from(s, x, from) matches Some(i) ==> from <= i < s.len() && s[i] == x,
    decreases s.len() - from,
{
    if from < s.len() && s[from] != x {
        found_char(s, x, from + 1);
    }
}

fn parse_insert(source: &[char]) -> (r: Result<Statement, ParseError>)
    requires
        source@.len() >= 6,
    ensures
        parsed(r) == inserted(source@),
{
    let rest = behind(source, 6);
    let body = trimmed_start(&rest);
    let body = drop_keyword(body, "INTO");
    let body = trimmed_start(&body);
    let (before, values) = cut_keyword(&body, "VALUES");
    let list = match values {
        None => {
            return Err(ParseError::new("INSERT requires VALUES", width_of(source)));
        },
        Some(list) => list,
    };
    let list = text::trim_chars(&list);
    let target = match read_target(&before) {
        Err(e) => {
            return Err(e);
        },
        Ok(target) => target,
    };
    let entries = match split_top_level(&list) {
        Err(e) => {
            return Err(e);
        },
        Ok(entries) => entries,
    };
    match read_entries(&entries) {
        Err(e) => Err(e),
        Ok(values) => Ok(
            Statement::Insert(
                InsertStatement { table: target.0, columns: target.1, values: values },
            ),
        ),
    }
}

// ---------------------------------------------------------------------------------------------
// UPDATE and DELETE
// ---------------------------------------------------------------------------------------------
pub open spec fn assignment(s: Seq<char>) -> Result<(Seq<char>, Seq<char>), ErrorModel> {
    match equals_from(s, scan_start(), 0) {
        None => Err(fail("assignment requires '='"@, 0)),
        Some(i) => Ok((unquoted(text::trim(s.take(i))), text::trim(s.skip(i + 1)))),
    }
}

pub open spec fn assignments_from(
    list: Seq<Seq<char>>,
    at: int,
    done: Seq<(Seq<char>, Seq<char>)>,
) -> Result<Seq<(Seq<char>, Seq<char>)>, ErrorModel>
    decreases list.len() - at,
{
    if at < 0 || at >= list.len() {
        Ok(done)
    } else {
        match assignment(list[at]) {
            Err(e) => Err(e),
            Ok(a) => assignments_from(list, at + 1, done.push(a)),
        }
    }
}

pub open spec fn updated(source: Seq<char>) -> Parsed {
    let body = trim_start(source.skip(6));
    let (table, rest) = split_keyword(body, "SET"@);
    match rest {
        None => Err(fail("UPDATE requires SET"@, width(source))),
        Some(rest) => {
            let (assigned, where_part) = split_keyword(rest, "WHERE"@);
            match split_list(assigned) {
                Err(e) => Err(e),
                Ok(list) => match assignments_from(list, 0, Seq::empty()) {
                    Err(e) => Err(e),
                    Ok(set_clause) => Ok(
                        StatementModel::Update {
                            table: unquoted(text::trim(table)),
                            set_clause: set_clause,
                            where_clause: trimmed(where_part),
                        },
                    ),
                },
            }
        },
    }
}

fn read_assignments(list: &Vec<String>) -> (r: Result<Vec<(String, String)>, ParseError>)
    ensures
        match r {
            Ok(set) => assignments_from(list.deep_view(), 0, Seq::empty()) == Ok::<
                Seq<(Seq<char>, Seq<char>)>,
                ErrorModel,
            >(set.deep_view()),
            Err(e) => assignments_from(list.deep_view(), 0, Seq::empty()) == Err::<
                Seq<(Seq<char>, Seq<char>)>,
                ErrorModel,
            >(e@),
        },
{
    let ghost all = list.deep_view();
    let mut out: Vec<(String, String)> = Vec::new();
    let mut i: usize = 0;
    assert(out.deep_view() =~= Seq::empty());
    while i < list.len()
        invariant
            i <= list@.len(),
            all == list.deep_view(),
            assignments_from(all, i as int, out.deep_view()) == assignments_from(
                all,
                0,
                Seq::empty(),
            ),
        decreases list@.len() - i,
    {
        assert(all[i as int] == list@[i as int]@);
        let c = text::chars_of(list[i].as_str());
        match find_equals(&c) {
            None => {
                return Err(ParseError::new("assignment requires '='", 0));
            },
            Some(k) => {
                let head = front(&c, k);
                let head = text::trim_chars(&head);
                let total: usize = c.len();
                assert(k + 1 <= total);
                let tail = behind(&c, k + 1);
                let tail = text::trim_chars(&tail);
                let name = unquote_chars(&head);
                let value = text::text_of(&tail);
                let ghost before = out.deep_view();
                let ghost made = (name@, value@);
                out.push((name, value));
                assert(out.deep_view() =~= before.push(made));
            },
        }
        i += 1;
    }
    Ok(out)
}

fn parse_update(source: &[char]) -> (r: Result<Statement, ParseError>)
    requires
        source@.len() >= 6,
    ensures
        parsed(r) == updated(source@),
{
    let rest = behind(source, 6);
    let body = trimmed_start(&rest);
    let (table, rest) = cut_keyword(&body, "SET");
    let rest = match rest {
        None => {
            return Err(ParseError::new("UPDATE requires SET", width_of(source)));
        },
        Some(rest) => rest,
    };
    let (assigned, where_part) = cut_keyword(&rest, "WHERE");
    let list = match split_top_level(&assigned) {
        Err(e) => {
            return Err(e);
        },
        Ok(list) => list,
    };
    match read_assignments(&list) {
        Err(e) => Err(e),
        Ok(set_clause) => {
            let name = text::trim_chars(&table);
            Ok(
                Statement::Update(
                    UpdateStatement {
                        table: unquote_chars(&name),
                        set_clause: set_clause,
                        where_clause: trim_part(where_part),
                    },
                ),
            )
        },
    }
}

pub open spec fn deleted(source: Seq<char>) -> Parsed {
    match strip_keyword(trim_start(source.skip(6)), "FROM"@) {
        None => Err(fail("DELETE requires FROM"@, 6)),
        Some(body) => {
            let (table, where_part) = split_keyword(trim_start(body), "WHERE"@);
            Ok(
                StatementModel::Delete {
                    table: unquoted(text::trim(table)),
                    where_clause: trimmed(where_part),
                },
            )
        },
    }
}

fn parse_delete(source: &[char]) -> (r: Result<Statement, ParseError>)
    requires
        source@.len() >= 6,
    ensures
        parsed(r) == deleted(source@),
{
    let rest = behind(source, 6);
    let body = trimmed_start(&rest);
    match stripped_keyword(&body, "FROM") {
        None => Err(ParseError::new("DELETE requires FROM", 6)),
        Some(body) => {
            let body = trimmed_start(&body);
            let (table, where_part) = cut_keyword(&body, "WHERE");
            let name = text::trim_chars(&table);
            Ok(
                Statement::Delete(
                    DeleteStatement {
                        table: unquote_chars(&name),
                        where_clause: trim_part(where_part),
                    },
                ),
            )
        },
    }
}

// ---------------------------------------------------------------------------------------------
// Column definitions
// ---------------------------------------------------------------------------------------------
/// Whether a word ends the type of a column; fewer words do in ALTER TABLE.
pub open spec fn ends_type(word: Seq<char>, create: bool) -> bool {
    let w = text::upper(word);
    w == "NOT"@ || w == "NULL"@ || w == "DEFAULT"@ || w == "PRIMARY"@ || w == "UNIQUE"@ || (create
        && (w == "CHECK"@ || w == "REFERENCES"@ || w == "COMMENT"@ || w == "COLLATE"@ || w
        == "CHARACTER"@))
}

/// How many of the words from `at` on belong to the type.
pub open spec fn type_end(words: Seq<Seq<char>>, create: bool, at: int) -> int
    decreases words.len() - at,
{
    if at < 0 || at >= words.len() || ends_type(words[at], create) {
        at
    } else {
        type_end(words, create, at + 1)
    }
}

pub open spec fn column_of(definition: Seq<char>, create: bool) -> Result<ColumnModel, ErrorModel> {
    let (name, rest) = take_first_word(definition);
    if rest.len() == 0 {
        Err(fail("column definition requires a type"@, 0))
    } else {
        let words = search::words(rest);
        let upper = text::upper(rest);
        Ok(
            ColumnModel {
                name: unquoted(name),
                data_type: search::joined(words.take(type_end(words, create, 0)), " "@),
                nullable: !search::contains_text(upper, "NOT NULL"@),
                primary_key: search::contains_text(upper, "PRIMARY KEY"@),
            },
        )
    }
}

fn word_ends_type(word: &str, create: bool) -> (r: bool)
    ensures
        r == ends_type(word@, create),
{
    let w = text::to_upper(word);
    let w = w.as_str();
    text::text_equal(w, "NOT") || text::text_equal(w, "NULL") || text::text_equal(w, "DEFAULT")
        || text::text_equal(w, "PRIMARY") || text::text_equal(w, "UNIQUE") || (create && (
    text::text_equal(w, "CHECK") || text::text_equal(w, "REFERENCES") || text::text_equal(
        w,
        "COMMENT",
    ) || text::text_equal(w, "COLLATE") || text::text_equal(w, "CHARACTER")))
}

fn read_column(definition: &[char], create: bool) -> (r: Result<ColumnDef, ParseError>)
    ensures
        match r {
            Ok(c) => column_of(definition@, create) == Ok::<ColumnModel, ErrorModel>(c@),
            Err(e) => column_of(definition@, create) == Err::<ColumnModel, ErrorModel>(e@),
        },
{
    let (name, rest) = split_first_word(definition);
    if rest.len() == 0 {
        return Err(ParseError::new("column definition requires a type", 0));
    }
    let mut words = search::words_of(&rest);
    let ghost all = words.deep_view();
    let mut k: usize = 0;
    assert(all.len() == words@.len());
    while k < words.len() && !word_ends_type(words[k].as_str(), create)
        invariant
            k <= words@.len(),
            all == words.deep_view(),
            all.len() == words@.len(),
            type_end(all, create, k as int) == type_end(all, create, 0),
        decreases words@.len() - k,
    {
        assert(all[k as int] == words@[k as int]@);
        k += 1;
    }
    proof {
        if k < words@.len() {
            assert(all[k as int] == words@[k as int]@);
        }
    }
    words.truncate(k);
    assert(words.deep_view() =~= all.take(k as int));
    let upper = text::upper_chars(&rest);
    let upper = text::text_of(&upper);
    let parts = words.as_slice();
    assert(parts.deep_view() =~= words.deep_view());
    let data_type = search::join(parts, " ");
    Ok(
        ColumnDef {
            name: unquote_chars(&name),
            data_type: data_type,
            nullable: !search::text_contains(upper.as_str(), "NOT NULL"),
            primary_key: search::text_contains(upper.as_str(), "PRIMARY KEY"),
        },
    )
}

/// Whether a definition in CREATE TABLE is not a column.
pub open spec fn is_table_constraint(definition: Seq<char>) -> bool {
    let w = text::upper(first_word(definition).0);
    w == "PRIMARY"@ || w == "UNIQUE"@ || w == "KEY"@ || w == "INDEX"@ || w == "CONSTRAINT"@ || w
        == "FOREIGN"@ || w == "CHECK"@
}

fn names_constraint(definition: &[char]) -> (r: bool)
    ensures
        r == is_table_constraint(definition@),
{
    let (word, _) = split_word(definition);
    word_is(&word, "PRIMARY") || word_is(&word, "UNIQUE") || word_is(&word, "KEY") || word_is(
        &word,
        "INDEX",
    ) || word_is(&word, "CONSTRAINT") || word_is(&word, "FOREIGN") || word_is(&word, "CHECK")
}

pub open spec fn columns_from(list: Seq<Seq<char>>, at: int, done: Seq<ColumnModel>) -> Result<
    Seq<ColumnModel>,
    ErrorModel,
>
    decreases list.len() - at,
{
    if at < 0 || at >= list.len() {
        Ok(done)
    } else {
        let definition = text::trim(list[at]);
        if is_table_constraint(definition) {
            columns_from(list, at + 1, done)
        } else {
            match column_of(definition, true) {
                Err(e) => Err(e),
                Ok(c) => columns_from(list, at + 1, done.push(c)),
            }
        }
    }
}

fn read_columns(list: &Vec<String>) -> (r: Result<Vec<ColumnDef>, ParseError>)
    ensures
        match r {
            Ok(columns) => columns_from(list.deep_view(), 0, Seq::empty()) == Ok::<
                Seq<ColumnModel>,
                ErrorModel,
            >(columns.deep_view()),
            Err(e) => columns_from(list.deep_view(), 0, Seq::empty()) == Err::<
                Seq<ColumnModel>,
                ErrorModel,
            >(e@),
        },
{
    let ghost all = list.deep_view();
    let mut out: Vec<ColumnDef> = Vec::new();
    let mut i: usize = 0;
    assert(out.deep_view() =~= Seq::empty());
    while i < list.len()
        invariant
            i <= list@.len(),
            all == list.deep_view(),
            columns_from(all, i as int, out.deep_view()) == columns_from(all, 0, Seq::empty()),
        decreases list@.len() - i,
    {
        assert(all[i as int] == list@[i as int]@);
        let c = text::chars_of(list[i].as_str());
        let definition = text::trim_chars(&c);
        if !names_constraint(&definition) {
            match read_column(&definition, true) {
                Err(e) => {
                    return Err(e);
                },
                Ok(column) => {
                    let ghost before = out.deep_view();
                    let ghost made = column@;
                    out.push(column);
                    assert(out.deep_view() =~= before.push(made));
                },
            }
        }
        i += 1;
    }
    Ok(out)
}

// ---------------------------------------------------------------------------------------------
// CREATE, DROP and ALTER
// ---------------------------------------------------------------------------------------------
pub open spec fn created(source: Seq<char>) -> Parsed {
    match strip_keyword(trim_start(source.skip(6)), "TABLE"@) {
        None => Ok(StatementModel::Unknown { source: source }),
        Some(rest) => {
            let body = trim_start(without_keyword(trim_start(rest), "IF NOT EXISTS"@));
            match search::find_char_from(body, '(', 0) {
                None => Err(fail("CREATE TABLE requires column definitions"@, width(source))),
                Some(open) => match closing(body, open) {
                    Err(e) => Err(e),
                    Ok(close) => match split_list(body.subrange(open + 1, close)) {
                        Err(e) => Err(e),
                        Ok(list) => match columns_from(list, 0, Seq::empty()) {
                            Err(e) => Err(e),
                            Ok(columns) => Ok(
                                StatementModel::Create {
                                    table: unquoted(text::trim(body.take(open))),
                                    columns: columns,
                                },
                            ),
                        },
                    },
                },
            }
        },
    }
}

fn unknown(source: &[char]) -> (r: Statement)
    ensures
        r@ == (StatementModel::Unknown { source: source@ }),
{
    Statement::Unknown(text::text_of(source))
}

fn parse_create(source: &[char]) -> (r: Result<Statement, ParseError>)
    requires
        source@.len() >= 6,
    ensures
        parsed(r) == created(source@),
{
    let rest = behind(source, 6);
    let body = trimmed_start(&rest);
    let body = match stripped_keyword(&body, "TABLE") {
        None => {
            return Ok(unknown(source));
        },
        Some(body) => body,
    };
    let body = trimmed_start(&body);
    let body = drop_keyword(body, "IF NOT EXISTS");
    let body = trimmed_start(&body);
    let open = match search::find_char(&body, '(', 0) {
        None => {
            return Err(
                ParseError::new("CREATE TABLE requires column definitions", width_of(source)),
            );
        },
        Some(open) => open,
    };
    proof {
        found_char(body@, '(', 0);
    }
    let close = match matching_parenthesis(&body, open) {
        Err(e) => {
            return Err(e);
        },
        Ok(close) => close,
    };
    let inner = text::copy_chars(&body, open + 1, close);
    let list = match split_top_level(&inner) {
        Err(e) => {
            return Err(e);
        },
        Ok(list) => list,
    };
    match read_columns(&list) {
        Err(e) => Err(e),
        Ok(columns) => {
            let head = front(&body, open);
            let head = text::trim_chars(&head);
            Ok(
                Statement::Create(
                    CreateStatement { table_name: unquote_chars(&head), columns: columns },
                ),
            )
        },
    }
}

pub open spec fn dropped(source: Seq<char>) -> StatementModel {
    match strip_keyword(trim_start(source.skip(4)), "TABLE"@) {
        None => StatementModel::Unknown { source: source },
        Some(rest) => StatementModel::Drop {
            table: unquoted(text::trim(without_keyword(trim_start(rest), "IF EXISTS"@))),
        },
    }
}

fn parse_drop(source: &[char]) -> (r: Statement)
    requires
        source@.len() >= 4,
    ensures
        r@ == dropped(source@),
{
    let rest = behind(source, 4);
    let body = trimmed_start(&rest);
    match stripped_keyword(&body, "TABLE") {
        None => unknown(source),
        Some(body) => {
            let body = trimmed_start(&body);
            let body = drop_keyword(body, "IF EXISTS");
            let name = text::trim_chars(&body);
            Statement::Drop(DropStatement { table_name: unquote_chars(&name) })
        },
    }
}

pub open spec fn altered(source: Seq<char>) -> Parsed {
    match strip_keyword(trim_start(source.skip(5)), "TABLE"@) {
        None => Ok(StatementModel::Unknown { source: source }),
        Some(body) => {
            let (table, rest) = take_first_word(trim_start(body));
            let (word, rest) = first_word(rest);
            if is_word(word, "ADD"@) {
                match column_of(
                    text::trim(trim_start(without_keyword(rest, "COLUMN"@))),
                    false,
                ) {
                    Err(e) => Err(e),
                    Ok(c) => Ok(StatementModel::AddColumn { table: unquoted(table), column: c }),
                }
            } else if is_word(word, "MODIFY"@) || is_word(word, "CHANGE"@) {
                match column_of(text::trim(rest), false) {
                    Err(e) => Err(e),
                    Ok(c) => Ok(StatementModel::ModifyColumn { table: unquoted(table), column: c }),
                }
            } else if is_word(word, "DROP"@) {
                Ok(
                    StatementModel::DropColumn {
                        table: unquoted(table),
                        name: unquoted(text::trim(without_keyword(rest, "COLUMN"@))),
                    },
                )
            } else {
                Ok(StatementModel::Unknown { source: source })
            }
        },
    }
}

fn parse_alter(source: &[char]) -> (r: Result<Statement, ParseError>)
    requires
        source@.len() >= 5,
    ensures
        parsed(r) == altered(source@),
{
    let rest = behind(source, 5);
    let body = trimmed_start(&rest);
    let body = match stripped_keyword(&body, "TABLE") {
        None => {
            return Ok(unknown(source));
        },
        Some(body) => body,
    };
    let body = trimmed_start(&body);
    let (table, rest) = split_first_word(&body);
    let (word, rest) = split_word(&rest);
    if word_is(&word, "ADD") {
        let rest = drop_keyword(rest, "COLUMN");
        let rest = trimmed_start(&rest);
        let rest = text::trim_chars(&rest);
        match read_column(&rest, false) {
            Err(e) => Err(e),
            Ok(c) => Ok(
                Statement::Alter(
                    AlterStatement {
                        table_name: unquote_chars(&table),
                        operation: AlterOperation::AddColumn(c),
                    },
                ),
            ),
        }
    } else if word_is(&word, "MODIFY") || word_is(&word, "CHANGE") {
        let rest = text::trim_chars(&rest);
        match read_column(&rest, false) {
            Err(e) => Err(e),
            Ok(c) => Ok(
                Statement::Alter(
                    AlterStatement {
                        table_name: unquote_chars(&table),
                        operation: AlterOperation::ModifyColumn(c),
                    },
                ),
            ),
        }
    } else if word_is(&word, "DROP") {
        let rest = drop_keyword(rest, "COLUMN");
        let rest = text::trim_chars(&rest);
        Ok(
            Statement::Alter(
                AlterStatement {
                    table_name: unquote_chars(&table),
                    operation: AlterOperation::DropColumn(unquote_chars(&rest)),
                },
            ),
        )
    } else {
        Ok(unknown(source))
    }
}

// ---------------------------------------------------------------------------------------------
// USE and SHOW
// ---------------------------------------------------------------------------------------------
pub open spec fn used(value: Seq<char>) -> Parsed {
    let (database, rest) = take_first_word(value);
    if database.len() == 0 || rest.len() > 0 {
        Err(fail("USE requires one database name"@, 0))
    } else {
        Ok(StatementModel::Use { name: unquoted(database) })
    }
}

fn parse_use(value: &[char]) -> (r: Result<Statement, ParseError>)
    ensures
        parsed(r) == used(value@),
{
    let (database, rest) = split_first_word(value);
    if database.len() == 0 || rest.len() > 0 {
        Err(ParseError::new("USE requires one database name", 0))
    } else {
        Ok(Statement::Use(unquote_chars(&database)))
    }
}

pub open spec fn shown(value: Seq<char>) -> StatementModel {
    if is_word(value, "DATABASES"@) || is_word(value, "SCHEMAS"@) {
        StatementModel::ShowDatabases
    } else if is_word(value, "TABLES"@) {
        StatementModel::ShowTables
    } else {
        match strip_keyword(value, "COLUMNS FROM"@) {
            Some(name) => StatementModel::ShowColumns { table: unquoted(text::trim(name)) },
            None => match strip_keyword(value, "CREATE TABLE"@) {
                Some(name) => StatementModel::ShowCreateTable { table: unquoted(text::trim(name)) },
                None => StatementModel::Unknown { source: "SHOW "@ + value },
            },
        }
    }
}

fn parse_show(value: &[char]) -> (r: Statement)
    ensures
        r@ == shown(value@),
{
    let target = if word_is(value, "DATABASES") || word_is(value, "SCHEMAS") {
        ShowTarget::Databases
    } else if word_is(value, "TABLES") {
        ShowTarget::Tables
    } else {
        match stripped_keyword(value, "COLUMNS FROM") {
            Some(name) => {
                let name = text::trim_chars(&name);
                ShowTarget::Columns(unquote_chars(&name))
            },
            None => match stripped_keyword(value, "CREATE TABLE") {
                Some(name) => {
                    let name = text::trim_chars(&name);
                    ShowTarget::CreateTable(unquote_chars(&name))
                },
                None => {
                    let rest = text::text_of(value);
                    return Statement::Unknown(error::cat2("SHOW ", rest.as_str()));
                },
            },
        }
    };
    Statement::Show(ShowStatement { target: target })
}

// ---------------------------------------------------------------------------------------------
// The parser
// ---------------------------------------------------------------------------------------------
/// What a statement says. Statements of other kinds are kept as they are.
pub open spec fn statement(sql: Seq<char>) -> Parsed {
    let source = trimmed_statement(sql);
    let (word, rest) = first_word(source);
    if source.len() == 0 {
        Err(fail("statement is empty"@, 0))
    } else if is_word(word, "SELECT"@) {
        selected(source)
    } else if is_word(word, "INSERT"@) {
        inserted(source)
    } else if is_word(word, "UPDATE"@) {
        updated(source)
    } else if is_word(word, "DELETE"@) {
        deleted(source)
    } else if is_word(word, "CREATE"@) {
        created(source)
    } else if is_word(word, "DROP"@) {
        Ok(dropped(source))
    } else if is_word(word, "ALTER"@) {
        altered(source)
    } else if is_word(word, "USE"@) {
        used(rest)
    } else if is_word(word, "SHOW"@) {
        Ok(shown(rest))
    } else {
        Ok(StatementModel::Unknown { source: source })
    }
}

proof fn white_bounds(s: Seq<char>, at: int)
    requires
        0 <= at <= s.len(),
    ensures
        at <= white_from(s, at) <= s.len(),
    decreases s.len() - at,
{
    if at < s.len() && !text::is_white(s[at]) {
        white_bounds(s, at + 1);
    }
}

impl Parser {
    pub fn new() -> (r: Self)
        ensures
            r == Parser,
    {
        Parser
    }

    pub fn parse(&self, sql: &str) -> (r: Result<Statement, ParseError>)
        ensures
            parsed(r) == statement(sql@),
    {
        let source = trim_statement(sql);
        if source.len() == 0 {
            return Err(ParseError::new("statement is empty", 0));
        }
        let (word, rest) = split_word(&source);
        proof {
            white_bounds(source@, 0);
            assert(word@.len() <= source@.len());
            assert(text::upper(word@).len() == word@.len());
            reveal_strlit("SELECT");
            reveal_strlit("INSERT");
            reveal_strlit("UPDATE");
            reveal_strlit("DELETE");
            reveal_strlit("CREATE");
            reveal_strlit("DROP");
            reveal_strlit("ALTER");
        }
        if word_is(&word, "SELECT") {
            parse_select(&source)
        } else if word_is(&word, "INSERT") {
            parse_insert(&source)
        } else if word_is(&word, "UPDATE") {
            parse_update(&source)
        } else if word_is(&word, "DELETE") {
            parse_delete(&source)
        } else if word_is(&word, "CREATE") {
            parse_create(&source)
        } else if word_is(&word, "DROP") {
            Ok(parse_drop(&source))
        } else if word_is(&word, "ALTER") {
            parse_alter(&source)
        } else if word_is(&word, "USE") {
            parse_use(&rest)
        } else if word_is(&word, "SHOW") {
            Ok(parse_show(&rest))
        } else {
            Ok(unknown(&source))
        }
    }
}

impl Default for Parser {
    fn default() -> (r: Self)
        ensures
            r == Parser,
    {
        Parser
    }
}

// ---------------------------------------------------------------------------------------------
// Laws
// ---------------------------------------------------------------------------------------------
/// Nothing is cut inside quotes: a character in a quote, other than the one that closes it, leaves
/// the scan below the top level.
pub proof fn quoted_text_is_not_cut(st: ScanState, c: char)
    requires
        st.quote is Some,
        st.escaped || c != st.quote->0,
    ensures
        !top_level(scanned(st, c)),
{
}

/// A keyword that is found stands outside quotes and parentheses, by itself.
pub proof fn found_keyword_stands_alone(
    s: Seq<char>,
    keyword: Seq<char>,
    st: ScanState,
    at: int,
)
    requires
        0 <= at,
    ensures
        keyword_from(s, keyword, st, at) matches Some(i) ==> at <= i && i + keyword.len() <= s.len()
            && keyword_at(s, keyword, i),
    decreases s.len() - at,
{
    if at < s.len() && at + keyword.len() <= s.len() {
        found_keyword_stands_alone(s, keyword, scanned(st, s[at]), at + 1);
    }
}

proof fn start_behind(s: Seq<char>, c: char)
    requires
        !text::is_white(c),
    ensures
        text::trim_start_by(s.push(c), text::white_fn()) == text::trim_start_by(
            s,
            text::white_fn(),
        ).push(c),
    decreases s.len(),
{
    let more = s.push(c);
    if s.len() > 0 && text::is_white(s[0]) {
        start_behind(s.subrange(1, s.len() as int), c);
        assert(more.subrange(1, more.len() as int) =~= s.subrange(1, s.len() as int).push(c));
    } else if s.len() == 0 {
        assert(more[0] == c);
    }
}

/// One closing semicolon makes no difference to a text that has none, and neither does white space
/// around it.
pub proof fn closing_semicolon_is_ignored(s: Seq<char>)
    requires
        text::trim(s).len() > 0 ==> text::trim(s).last() != ';',
    ensures
        statement(s.push(';')) == statement(s),
        statement(text::trim(s)) == statement(s),
{
    let w = text::white_fn();
    let start = text::trim_start_by(s, w);
    start_behind(s, ';');
    assert(text::trim(s.push(';')) == start.push(';'));
    assert(start.push(';').drop_last() =~= start);
    text::trim_start_stops(s, w);
    assert(text::trim_start_by(start, w) == start);
    assert(trimmed_statement(s.push(';')) == text::trim(start));
    assert(text::trim(start) == text::trim(s));
    text::trim_idempotent(s);
}

proof fn replaced_concat(a: Seq<char>, b: Seq<char>, x: char, by: Seq<char>)
    ensures
        search::replaced(a + b, x, by) == search::replaced(a, x, by) + search::replaced(b, x, by),
    decreases b.len(),
{
    if b.len() == 0 {
        assert(a + b =~= a);
        assert(search::replaced(a, x, by) + search::replaced(b, x, by) =~= search::replaced(
            a,
            x,
            by,
        ));
    } else {
        replaced_concat(a, b.drop_last(), x, by);
        assert((a + b).drop_last() =~= a + b.drop_last());
        assert(search::replaced(a + b, x, by) =~= search::replaced(a, x, by) + search::replaced(
            b,
            x,
            by,
        ));
    }
}

proof fn undoubled_doubled(before: Seq<char>, name: Seq<char>, x: char)
    ensures
        undoubled(before + search::replaced(name, x, seq![x, x]), x, before.len() as int) == name,
    decreases name.len(),
{
    let doubled = search::replaced(name, x, seq![x, x]);
    let s = before + doubled;
    let at = before.len() as int;
    if name.len() > 0 {
        let one = name.take(1);
        let rest = name.skip(1);
        assert(one + rest =~= name);
        replaced_concat(one, rest, x, seq![x, x]);
        assert(one.drop_last() =~= Seq::empty());
        assert(search::replaced(one.drop_last(), x, seq![x, x]) =~= Seq::empty());
        let first = search::replaced(one, x, seq![x, x]);
        if name[0] == x {
            assert(first =~= seq![x, x]);
        } else {
            assert(first =~= one);
        }
        assert(s =~= (before + first) + search::replaced(rest, x, seq![x, x]));
        undoubled_doubled(before + first, rest, x);
        assert(s[at] == first[0]);
        if name[0] == x {
            assert(s[at + 1] == first[1]);
        }
        assert(seq![name[0]] + rest =~= name);
    } else {
        assert(s =~= before);
        assert(name =~= Seq::empty());
    }
}

/// Taking the quotes off a quoted name gives the name, whatever it holds.
pub proof fn quoted_names_are_unquoted(name: Seq<char>)
    ensures
        unquoted(sqltext::quoted(name)) == name,
{
    reveal_strlit("`");
    reveal_strlit("``");
    let value = sqltext::quoted(name);
    let doubled = search::replaced(name, '`', "``"@);
    assert("``"@ =~= seq!['`', '`']);
    assert(value =~= seq!['`'] + doubled + seq!['`']);
    assert(!text::is_white('`'));
    assert(value[0] == '`' && value.last() == '`');
    assert(text::trim(value) == value);
    assert(value.subrange(1, value.len() - 1) =~= doubled);
    assert(Seq::<char>::empty() + doubled =~= doubled);
    undoubled_doubled(Seq::empty(), name, '`');
}

} // verus!
