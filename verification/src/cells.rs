//! The values that a MySQL connection hands out: how they are shown, written as SQL and digested.
use crate::codec;
use crate::error;
use crate::error::{DbError, DbResult};
use crate::num;
use crate::order;
use crate::order::Sense;
use crate::page;
use crate::search;
use crate::text;
use vstd::prelude::*;
use vstd::relations::{sorted_by, total_ordering};
use vstd::seq_lib::{lemma_sorted_unique, to_multiset_insert};

verus! {

/// A value of a result row. A floating-point number is held by its decimal text.
#[derive(Debug)]
pub enum Cell {
    Null,
    Bytes(Vec<u8>),
    Int(i64),
    UInt(u64),
    Real { text: String, finite: bool },
    Date { year: u16, month: u8, day: u8, hour: u8, minute: u8, second: u8, micros: u32 },
    Time { negative: bool, days: u32, hours: u8, minutes: u8, seconds: u8, micros: u32 },
}

pub enum CellModel {
    Null,
    Bytes(Seq<u8>),
    Int(i64),
    UInt(u64),
    Real { text: Seq<char>, finite: bool },
    Date { year: u16, month: u8, day: u8, hour: u8, minute: u8, second: u8, micros: u32 },
    Time { negative: bool, days: u32, hours: u8, minutes: u8, seconds: u8, micros: u32 },
}

impl View for Cell {
    type V = CellModel;

    open spec fn view(&self) -> CellModel {
        match *self {
            Cell::Null => CellModel::Null,
            Cell::Bytes(b) => CellModel::Bytes(b@),
            Cell::Int(n) => CellModel::Int(n),
            Cell::UInt(n) => CellModel::UInt(n),
            Cell::Real { text, finite } => CellModel::Real { text: text@, finite: finite },
            Cell::Date { year, month, day, hour, minute, second, micros } => CellModel::Date {
                year: year,
                month: month,
                day: day,
                hour: hour,
                minute: minute,
                second: second,
                micros: micros,
            },
            Cell::Time { negative, days, hours, minutes, seconds, micros } => CellModel::Time {
                negative: negative,
                days: days,
                hours: hours,
                minutes: minutes,
                seconds: seconds,
                micros: micros,
            },
        }
    }
}

impl DeepView for Cell {
    type V = CellModel;

    open spec fn deep_view(&self) -> CellModel {
        self@
    }
}

// ---------------------------------------------------------------------------------------------
// Dates and times
// ---------------------------------------------------------------------------------------------
/// The part of a second, where there is one.
pub open spec fn fraction(micros: u32) -> Seq<char> {
    if micros == 0 {
        Seq::empty()
    } else {
        "."@ + num::padded(micros as nat, 6)
    }
}

pub fn fractional(micros: u32) -> (r: String)
    ensures
        r@ == fraction(micros),
{
    if micros == 0 {
        let r = String::new();
        assert(r@ =~= Seq::empty());
        r
    } else {
        let digits = num::padded_text(micros as u64, 6);
        error::cat2(".", digits.as_str())
    }
}

pub open spec fn day_text(year: u16, month: u8, day: u8) -> Seq<char> {
    num::padded(year as nat, 4) + "-"@ + num::padded(month as nat, 2) + "-"@ + num::padded(day as nat, 2)
}

fn show_day(year: u16, month: u8, day: u8) -> (r: String)
    ensures
        r@ == day_text(year, month, day),
{
    let y = num::padded_text(year as u64, 4);
    let m = num::padded_text(month as u64, 2);
    let d = num::padded_text(day as u64, 2);
    error::cat5(y.as_str(), "-", m.as_str(), "-", d.as_str())
}

pub open spec fn clock_text(hours: nat, minutes: u8, seconds: u8, micros: u32) -> Seq<char> {
    num::padded(hours, 2) + ":"@ + num::padded(minutes as nat, 2) + ":"@ + num::padded(seconds as nat, 2)
        + fraction(micros)
}

fn show_clock(hours: u64, minutes: u8, seconds: u8, micros: u32) -> (r: String)
    ensures
        r@ == clock_text(hours as nat, minutes, seconds, micros),
{
    let h = num::padded_text(hours, 2);
    let m = num::padded_text(minutes as u64, 2);
    let s = num::padded_text(seconds as u64, 2);
    let mut r = error::cat5(h.as_str(), ":", m.as_str(), ":", s.as_str());
    let f = fractional(micros);
    r.append(f.as_str());
    r
}

/// A span of time: its days count as hours.
pub open spec fn span_text(negative: bool, days: u32, hours: u8, minutes: u8, seconds: u8, micros: u32) -> Seq<
    char,
> {
    let clock = clock_text((days * 24 + hours) as nat, minutes, seconds, micros);
    if negative {
        "-"@ + clock
    } else {
        clock
    }
}

fn show_span(negative: bool, days: u32, hours: u8, minutes: u8, seconds: u8, micros: u32) -> (r: String)
    ensures
        r@ == span_text(negative, days, hours, minutes, seconds, micros),
{
    let total: u64 = (days as u64) * 24 + (hours as u64);
    let clock = show_clock(total, minutes, seconds, micros);
    if negative {
        error::cat2("-", clock.as_str())
    } else {
        clock
    }
}

pub open spec fn moment_text(
    year: u16,
    month: u8,
    day: u8,
    hour: u8,
    minute: u8,
    second: u8,
    micros: u32,
) -> Seq<char> {
    day_text(year, month, day) + " "@ + clock_text(hour as nat, minute, second, micros)
}

fn show_moment(year: u16, month: u8, day: u8, hour: u8, minute: u8, second: u8, micros: u32) -> (r: String)
    ensures
        r@ == moment_text(year, month, day, hour, minute, second, micros),
{
    let d = show_day(year, month, day);
    let c = show_clock(hour as u64, minute, second, micros);
    error::cat3(d.as_str(), " ", c.as_str())
}

// ---------------------------------------------------------------------------------------------
// Showing
// ---------------------------------------------------------------------------------------------
/// The Unicode category of control characters.
pub open spec fn is_control(c: char) -> bool {
    let u = c as u32;
    u < 0x20 || 0x7f <= u < 0xa0
}

pub open spec fn printable(s: Seq<char>) -> bool {
    forall|i: int| 0 <= i < s.len() ==> !is_control(#[trigger] s[i])
}

fn is_printable(s: &str) -> (r: bool)
    ensures
        r == printable(s@),
{
    let c = text::chars_of(s);
    let mut i: usize = 0;
    while i < c.len()
        invariant
            i <= c@.len(),
            c@ == s@,
            forall|j: int| 0 <= j < i ==> !is_control(#[trigger] s@[j]),
        decreases c@.len() - i,
    {
        let u: u32 = c[i] as u32;
        if u < 0x20 || (0x7f <= u && u < 0xa0) {
            assert(is_control(s@[i as int]));
            return false;
        }
        i += 1;
    }
    true
}

/// What the client prints for a value. Bytes are shown as text where they are UTF-8 without
/// control characters.
pub open spec fn shown(v: CellModel) -> Seq<char> {
    match v {
        CellModel::Null => "NULL"@,
        CellModel::Bytes(b) => if vstd::utf8::valid_utf8(b) && printable(vstd::utf8::decode_utf8(b)) {
            vstd::utf8::decode_utf8(b)
        } else {
            "0x"@ + num::hex(b, false)
        },
        CellModel::Int(n) => num::signed_decimal(n as int),
        CellModel::UInt(n) => num::decimal(n as nat),
        CellModel::Real { text, finite } => text,
        CellModel::Date { year, month, day, hour, minute, second, micros } => if hour == 0 && minute
            == 0 && second == 0 && micros == 0 {
            day_text(year, month, day)
        } else {
            moment_text(year, month, day, hour, minute, second, micros)
        },
        CellModel::Time { negative, days, hours, minutes, seconds, micros } => span_text(
            negative,
            days,
            hours,
            minutes,
            seconds,
            micros,
        ),
    }
}

pub fn format_mysql_value(value: &Cell) -> (r: String)
    ensures
        r@ == shown(value@),
{
    match value {
        Cell::Null => text::copy_text("NULL"),
        Cell::Bytes(b) => {
            if let Ok(s) = text::utf8_text(b.as_slice()) {
                if is_printable(s) {
                    return text::copy_text(s);
                }
            }
            let digits = num::hex_text(b.as_slice(), false);
            error::cat2("0x", digits.as_str())
        },
        Cell::Int(n) => num::i64_text(*n),
        Cell::UInt(n) => num::u64_text(*n),
        Cell::Real { text: t, finite: _ } => t.clone(),
        Cell::Date { year, month, day, hour, minute, second, micros } => {
            if *hour == 0 && *minute == 0 && *second == 0 && *micros == 0 {
                show_day(*year, *month, *day)
            } else {
                show_moment(*year, *month, *day, *hour, *minute, *second, *micros)
            }
        },
        Cell::Time { negative, days, hours, minutes, seconds, micros } => {
            show_span(*negative, *days, *hours, *minutes, *seconds, *micros)
        },
    }
}

pub open spec fn shown_all(row: Seq<CellModel>) -> Seq<Seq<char>> {
    row.map_values(|v: CellModel| shown(v))
}

/// A result row as the client prints it.
pub fn format_row(row: &Vec<Cell>) -> (r: String)
    ensures
        r@ == search::joined(shown_all(row.deep_view()), "\t"@),
{
    let ghost target = shown_all(row.deep_view());
    let mut out: Vec<String> = Vec::new();
    let mut i: usize = 0;
    assert(out.deep_view() =~= target.take(0));
    while i < row.len()
        invariant
            i <= row@.len(),
            target == shown_all(row.deep_view()),
            out.deep_view() == target.take(i as int),
        decreases row@.len() - i,
    {
        let ghost before = out.deep_view();
        out.push(format_mysql_value(&row[i]));
        assert(out.deep_view() =~= before.push(target[i as int]));
        i += 1;
        assert(before.push(target[i - 1]) =~= target.take(i as int));
    }
    assert(target.take(i as int) =~= target);
    let parts = out.as_slice();
    assert(parts.deep_view() =~= out.deep_view());
    search::join(parts, "\t")
}

// ---------------------------------------------------------------------------------------------
// SQL
// ---------------------------------------------------------------------------------------------
/// Bytes as a hexadecimal literal.
pub open spec fn hex_quoted(b: Seq<u8>, upper: bool) -> Seq<char> {
    "X'"@ + num::hex(b, upper) + "'"@
}

pub fn quote_hex(b: &[u8], upper: bool) -> (r: String)
    ensures
        r@ == hex_quoted(b@, upper),
{
    let digits = num::hex_text(b, upper);
    error::cat3("X'", digits.as_str(), "'")
}

/// The bytes that a value comes to, whatever type it was sent in; a number that is not finite
/// has none.
pub open spec fn canonical(v: CellModel) -> Option<Seq<u8>> {
    match v {
        CellModel::Null => Some(Seq::empty()),
        CellModel::Bytes(b) => Some(b),
        CellModel::Int(n) => Some(text::bytes_of(num::signed_decimal(n as int))),
        CellModel::UInt(n) => Some(text::bytes_of(num::decimal(n as nat))),
        CellModel::Real { text, finite } => if finite {
            Some(text::bytes_of(text))
        } else {
            None
        },
        CellModel::Date { year, month, day, hour, minute, second, micros } => Some(
            text::bytes_of(moment_text(year, month, day, hour, minute, second, micros)),
        ),
        CellModel::Time { negative, days, hours, minutes, seconds, micros } => Some(
            text::bytes_of(span_text(negative, days, hours, minutes, seconds, micros)),
        ),
    }
}

pub open spec fn not_finite(task: Seq<char>) -> Seq<char> {
    "cannot "@ + task + " non-finite floating-point value"@
}

fn not_finite_error(task: &str) -> (r: DbError)
    ensures
        r.message@ == not_finite(task@),
{
    DbError::new(error::cat3("cannot ", task, " non-finite floating-point value"))
}

pub open spec fn canonical_for(v: CellModel, task: Seq<char>) -> Result<Seq<u8>, Seq<char>> {
    match canonical(v) {
        Some(b) => Ok(b),
        None => Err(not_finite(task)),
    }
}

/// The bytes that a value comes to; `task` names what they are for in the error.
pub fn canonical_bytes(value: &Cell, task: &str) -> (r: DbResult<Vec<u8>>)
    ensures
        error::outcome(r) == canonical_for(value@, task@),
{
    let b = match value {
        Cell::Null => {
            let empty: Vec<u8> = Vec::new();
            assert(empty@ =~= Seq::empty());
            empty
        },
        Cell::Bytes(b) => text::copy_bytes(b.as_slice()),
        Cell::Int(n) => text::text_bytes(num::i64_text(*n).as_str()),
        Cell::UInt(n) => text::text_bytes(num::u64_text(*n).as_str()),
        Cell::Real { text: t, finite } => {
            if !*finite {
                return Err(not_finite_error(task));
            }
            text::text_bytes(t.as_str())
        },
        Cell::Date { year, month, day, hour, minute, second, micros } => {
            let s = show_moment(*year, *month, *day, *hour, *minute, *second, *micros);
            text::text_bytes(s.as_str())
        },
        Cell::Time { negative, days, hours, minutes, seconds, micros } => {
            let s = show_span(*negative, *days, *hours, *minutes, *seconds, *micros);
            text::text_bytes(s.as_str())
        },
    };
    assert(b.deep_view() =~= b@);
    Ok(b)
}

/// A value as an SQL expression; `upper` chooses the case of hexadecimal digits.
pub open spec fn sql_of(v: CellModel, upper: bool, task: Seq<char>) -> Result<Seq<char>, Seq<char>> {
    match v {
        CellModel::Null => Ok("NULL"@),
        CellModel::Bytes(b) => Ok(hex_quoted(b, upper)),
        CellModel::Int(n) => Ok(num::signed_decimal(n as int)),
        CellModel::UInt(n) => Ok(num::decimal(n as nat)),
        CellModel::Real { text, finite } => if finite {
            Ok(text)
        } else {
            Err(not_finite(task))
        },
        CellModel::Date { year, month, day, hour, minute, second, micros } => Ok(
            "'"@ + moment_text(year, month, day, hour, minute, second, micros) + "'"@,
        ),
        CellModel::Time { negative, days, hours, minutes, seconds, micros } => Ok(
            "'"@ + span_text(negative, days, hours, minutes, seconds, micros) + "'"@,
        ),
    }
}

pub fn cell_sql(value: &Cell, upper: bool, task: &str) -> (r: DbResult<String>)
    ensures
        error::outcome(r) == sql_of(value@, upper, task@),
{
    match value {
        Cell::Null => Ok(text::copy_text("NULL")),
        Cell::Bytes(b) => Ok(quote_hex(b.as_slice(), upper)),
        Cell::Int(n) => Ok(num::i64_text(*n)),
        Cell::UInt(n) => Ok(num::u64_text(*n)),
        Cell::Real { text: t, finite } => {
            if *finite {
                Ok(t.clone())
            } else {
                Err(not_finite_error(task))
            }
        },
        Cell::Date { year, month, day, hour, minute, second, micros } => {
            let s = show_moment(*year, *month, *day, *hour, *minute, *second, *micros);
            Ok(error::cat3("'", s.as_str(), "'"))
        },
        Cell::Time { negative, days, hours, minutes, seconds, micros } => {
            let s = show_span(*negative, *days, *hours, *minutes, *seconds, *micros);
            Ok(error::cat3("'", s.as_str(), "'"))
        },
    }
}

/// The first `n` values of a row as SQL expressions; the first that has none decides.
pub open spec fn sql_values(row: Seq<CellModel>, upper: bool, task: Seq<char>, n: int) -> Result<
    Seq<Seq<char>>,
    Seq<char>,
>
    decreases n,
{
    if n <= 0 || n > row.len() {
        Ok(Seq::empty())
    } else {
        match sql_values(row, upper, task, n - 1) {
            Err(e) => Err(e),
            Ok(before) => match sql_of(row[n - 1], upper, task) {
                Err(e) => Err(e),
                Ok(s) => Ok(before.push(s)),
            },
        }
    }
}

/// A row as a list of SQL expressions in brackets.
pub open spec fn tuple_of(row: Seq<CellModel>, upper: bool, task: Seq<char>) -> Result<Seq<char>, Seq<char>> {
    match sql_values(row, upper, task, row.len() as int) {
        Err(e) => Err(e),
        Ok(values) => Ok("("@ + search::joined(values, ","@) + ")"@),
    }
}

proof fn sql_values_stop(row: Seq<CellModel>, upper: bool, task: Seq<char>, m: int, n: int)
    requires
        0 <= m <= n <= row.len(),
        sql_values(row, upper, task, m) is Err,
    ensures
        sql_values(row, upper, task, n) == sql_values(row, upper, task, m),
    decreases n - m,
{
    if m < n {
        sql_values_stop(row, upper, task, m, n - 1);
    }
}

pub fn row_tuple(row: &Vec<Cell>, upper: bool, task: &str) -> (r: DbResult<String>)
    ensures
        error::outcome(r) == tuple_of(row.deep_view(), upper, task@),
{
    let ghost all = row.deep_view();
    let mut out: Vec<String> = Vec::new();
    let mut i: usize = 0;
    assert(out.deep_view() =~= Seq::empty());
    while i < row.len()
        invariant
            i <= row@.len(),
            all == row.deep_view(),
            sql_values(all, upper, task@, i as int) == Ok::<Seq<Seq<char>>, Seq<char>>(out.deep_view()),
        decreases row@.len() - i,
    {
        let ghost before = out.deep_view();
        assert(all[i as int] == row@[i as int]@);
        match cell_sql(&row[i], upper, task) {
            Err(e) => {
                proof {
                    sql_values_stop(all, upper, task@, i + 1, all.len() as int);
                }
                return Err(e);
            },
            Ok(s) => {
                let ghost part = s@;
                out.push(s);
                assert(out.deep_view() =~= before.push(part));
            },
        }
        i += 1;
    }
    let parts = out.as_slice();
    assert(parts.deep_view() =~= out.deep_view());
    let list = search::join(parts, ",");
    Ok(error::cat3("(", list.as_str(), ")"))
}

// ---------------------------------------------------------------------------------------------
// Digests
// ---------------------------------------------------------------------------------------------
/// What a value adds to the image of its row.
pub open spec fn cell_image(v: CellModel) -> Option<Seq<u8>> {
    if v is Null {
        Some(seq![0u8])
    } else {
        match canonical(v) {
            None => None,
            Some(b) => Some(seq![1u8] + codec::le(b.len(), 8) + b),
        }
    }
}

/// The image of a row's first `n` values, led by how many values the row has.
pub open spec fn row_image(row: Seq<CellModel>, n: int) -> Option<Seq<u8>>
    decreases n,
{
    if n <= 0 || n > row.len() {
        Some(codec::le(row.len(), 8))
    } else {
        match (row_image(row, n - 1), cell_image(row[n - 1])) {
            (Some(before), Some(image)) => Some(before + image),
            _ => None,
        }
    }
}

/// The digest of a row: two rows have the same one where their values come to the same bytes.
pub open spec fn row_digest(row: Seq<CellModel>, task: Seq<char>) -> Result<Seq<u8>, Seq<char>> {
    match row_image(row, row.len() as int) {
        Some(image) => Ok(page::sha256_digest(image)),
        None => Err(not_finite(task)),
    }
}

proof fn row_image_stops(row: Seq<CellModel>, m: int, n: int)
    requires
        0 <= m <= n <= row.len(),
        row_image(row, m) is None,
    ensures
        row_image(row, n) is None,
    decreases n - m,
{
    if m < n {
        row_image_stops(row, m, n - 1);
    }
}

pub fn digest_row(row: &Vec<Cell>, task: &str) -> (r: DbResult<Vec<u8>>)
    ensures
        error::outcome(r) == row_digest(row.deep_view(), task@),
        r matches Ok(d) ==> d@.len() == 32,
{
    let ghost all = row.deep_view();
    let mut image: Vec<u8> = Vec::new();
    proof {
        codec::pow256_values();
    }
    codec::put_le(&mut image, row.len() as u64, 8);
    assert(image@ =~= codec::le(all.len(), 8));
    let mut i: usize = 0;
    while i < row.len()
        invariant
            i <= row@.len(),
            all == row.deep_view(),
            row_image(all, i as int) == Some(image@),
        decreases row@.len() - i,
    {
        let ghost before = image@;
        assert(all[i as int] == row@[i as int]@);
        let null = match &row[i] {
            Cell::Null => true,
            _ => false,
        };
        if null {
            image.push(0);
            assert(image@ =~= before + seq![0u8]);
        } else {
            match canonical_bytes(&row[i], task) {
                Err(e) => {
                    proof {
                        row_image_stops(all, i + 1, all.len() as int);
                    }
                    return Err(e);
                },
                Ok(b) => {
                    assert(b.deep_view() =~= b@);
                    proof {
                        codec::pow256_values();
                    }
                    image.push(1);
                    codec::put_le(&mut image, b.len() as u64, 8);
                    image.extend_from_slice(b.as_slice());
                    assert(image@ =~= before + (seq![1u8] + codec::le(b@.len(), 8) + b@));
                },
            }
        }
        i += 1;
    }
    let d = page::sha256(image.as_slice());
    assert(d.deep_view() =~= d@);
    Ok(d)
}

/// The order of digests.
pub open spec fn bytes_up_to() -> spec_fn(Seq<u8>, Seq<u8>) -> bool {
    |a: Seq<u8>, b: Seq<u8>| order::bytes_sense(a, b) != Sense::Greater
}

/// The row digests in ascending order.
pub open spec fn in_order(digests: Seq<Seq<u8>>) -> Seq<Seq<u8>> {
    digests.sort_by(bytes_up_to())
}

/// The bytes of the first `n` digests, one behind the other.
pub open spec fn run_of(digests: Seq<Seq<u8>>, n: int) -> Seq<u8>
    decreases n,
{
    if n <= 0 || n > digests.len() {
        Seq::empty()
    } else {
        run_of(digests, n - 1) + digests[n - 1]
    }
}

/// The image of a table: how many rows it has, and their digests in ascending order.
pub open spec fn table_image(digests: Seq<Seq<u8>>) -> Seq<u8> {
    codec::le(digests.len(), 8) + run_of(in_order(digests), digests.len() as int)
}

/// The digest of a table's rows, in hexadecimal.
pub open spec fn table_digest(digests: Seq<Seq<u8>>) -> Seq<char> {
    num::hex(page::sha256_digest(table_image(digests)), false)
}

proof fn sense_swapped(a: Seq<u8>, b: Seq<u8>)
    ensures
        order::bytes_sense(a, b) == Sense::Greater <==> order::bytes_sense(b, a) == Sense::Less,
        order::bytes_sense(a, b) == Sense::Equal ==> a == b,
    decreases a.len() + b.len(),
{
    if a.len() > 0 {
        let ta = a.subrange(1, a.len() as int);
        if b.len() > 0 {
            let tb = b.subrange(1, b.len() as int);
            sense_swapped(ta, tb);
            if order::bytes_sense(a, b) == Sense::Equal {
                assert(a =~= seq![a[0]] + ta);
                assert(b =~= seq![b[0]] + tb);
            }
        }
    } else if b.len() == 0 {
        assert(a =~= b);
    }
}

proof fn sense_itself(a: Seq<u8>)
    ensures
        order::bytes_sense(a, a) == Sense::Equal,
    decreases a.len(),
{
    if a.len() > 0 {
        sense_itself(a.subrange(1, a.len() as int));
    }
}

proof fn sense_chained(a: Seq<u8>, b: Seq<u8>, c: Seq<u8>)
    requires
        order::bytes_sense(a, b) != Sense::Greater,
        order::bytes_sense(b, c) != Sense::Greater,
    ensures
        order::bytes_sense(a, c) != Sense::Greater,
    decreases a.len(),
{
    if a.len() > 0 && b.len() > 0 && c.len() > 0 && a[0] == b[0] && b[0] == c[0] {
        sense_chained(
            a.subrange(1, a.len() as int),
            b.subrange(1, b.len() as int),
            c.subrange(1, c.len() as int),
        );
    }
}

proof fn bytes_are_ordered()
    ensures
        total_ordering(bytes_up_to()),
{
    let leq = bytes_up_to();
    assert forall|x: Seq<u8>| #[trigger] leq(x, x) by {
        sense_itself(x);
    }
    assert forall|x: Seq<u8>, y: Seq<u8>| #[trigger] leq(x, y) && #[trigger] leq(y, x) implies x == y by {
        sense_swapped(x, y);
        sense_swapped(y, x);
    }
    assert forall|x: Seq<u8>, y: Seq<u8>, z: Seq<u8>| #[trigger]
        leq(x, y) && #[trigger] leq(y, z) implies leq(x, z) by {
        sense_chained(x, y, z);
    }
    assert forall|x: Seq<u8>, y: Seq<u8>| #[trigger] leq(x, y) || #[trigger] leq(y, x) by {
        sense_swapped(x, y);
    }
}

proof fn run_taken(a: Seq<Seq<u8>>, b: Seq<Seq<u8>>, n: int)
    requires
        0 <= n <= a.len(),
        n <= b.len(),
        forall|i: int| 0 <= i < n ==> a[i] == b[i],
    ensures
        run_of(a, n) == run_of(b, n),
    decreases n,
{
    if n > 0 {
        run_taken(a, b, n - 1);
    }
}

/// Puts a digest behind those that are not greater.
fn insert_digest(list: &mut Vec<Vec<u8>>, d: Vec<u8>)
    requires
        sorted_by(old(list).deep_view(), bytes_up_to()),
    ensures
        sorted_by(final(list).deep_view(), bytes_up_to()),
        final(list).deep_view().to_multiset() == old(list).deep_view().to_multiset().insert(d@),
{
    let ghost leq = bytes_up_to();
    let ghost before = list.deep_view();
    let mut p: usize = 0;
    while p < list.len() && order::sense_bytes(list[p].as_slice(), d.as_slice()) != Sense::Greater
        invariant
            p <= list@.len(),
            before == list.deep_view(),
            leq == bytes_up_to(),
            forall|i: int| 0 <= i < p ==> leq(#[trigger] before[i], d@),
        decreases list@.len() - p,
    {
        assert(before[p as int] == list@[p as int]@);
        p += 1;
    }
    let ghost x = d@;
    proof {
        bytes_are_ordered();
        if p < list@.len() {
            assert(before[p as int] == list@[p as int]@);
            sense_swapped(before[p as int], x);
            assert(leq(x, before[p as int]));
        }
    }
    list.insert(p, d);
    let ghost after = list.deep_view();
    assert(list@[p as int].deep_view() =~= x);
    assert(after =~= before.insert(p as int, x));
    proof {
        assert forall|i: int, j: int| 0 <= i < j < after.len() implies #[trigger] leq(after[i], after[j]) by {
            if j < p {
                assert(leq(before[i], before[j]));
            } else if j == p {
                assert(leq(before[i], x));
            } else if i < p {
                assert(leq(before[i], before[j - 1]));
            } else if i > p {
                assert(leq(before[i - 1], before[j - 1]));
            } else {
                if j - 1 > p {
                    assert(leq(before[p as int], before[j - 1]));
                    sense_chained(x, before[p as int], before[j - 1]);
                }
            }
        }
        to_multiset_insert(before, p as int, x);
    }
}

/// The digest of a table from those of its rows.
pub fn digest_table(digests: &Vec<Vec<u8>>) -> (r: String)
    ensures
        r@ == table_digest(digests.deep_view()),
{
    let ghost all = digests.deep_view();
    let mut list: Vec<Vec<u8>> = Vec::new();
    let mut i: usize = 0;
    assert(all.take(0) =~= list.deep_view());
    while i < digests.len()
        invariant
            i <= digests@.len(),
            all == digests.deep_view(),
            sorted_by(list.deep_view(), bytes_up_to()),
            list.deep_view().to_multiset() =~= all.take(i as int).to_multiset(),
        decreases digests@.len() - i,
    {
        assert(all[i as int] == digests@[i as int]@);
        let copy = text::copy_bytes(digests[i].as_slice());
        insert_digest(&mut list, copy);
        proof {
            assert(all.take(i + 1) =~= all.take(i as int).push(all[i as int]));
            all.take(i as int).to_multiset_ensures();
        }
        i += 1;
    }
    let ghost sorted = list.deep_view();
    proof {
        assert(all.take(i as int) =~= all);
        bytes_are_ordered();
        all.lemma_sort_by_ensures(bytes_up_to());
        lemma_sorted_unique(sorted, in_order(all), bytes_up_to());
        sorted.to_multiset_ensures();
        all.to_multiset_ensures();
        codec::pow256_values();
    }
    let mut image: Vec<u8> = Vec::new();
    codec::put_le(&mut image, digests.len() as u64, 8);
    assert(image@ =~= codec::le(all.len(), 8) + run_of(sorted, 0));
    let mut k: usize = 0;
    while k < list.len()
        invariant
            k <= list@.len(),
            sorted == list.deep_view(),
            image@ == codec::le(all.len(), 8) + run_of(sorted, k as int),
        decreases list@.len() - k,
    {
        assert(sorted[k as int] == list@[k as int]@);
        let ghost before = image@;
        image.extend_from_slice(list[k].as_slice());
        assert(image@ =~= before + sorted[k as int]);
        assert(image@ =~= codec::le(all.len(), 8) + run_of(sorted, k + 1));
        k += 1;
    }
    let d = page::sha256(image.as_slice());
    num::hex_text(d.as_slice(), false)
}

// ---------------------------------------------------------------------------------------------
// Laws
// ---------------------------------------------------------------------------------------------
/// A value as it comes over a connection that sends every value as text.
pub open spec fn as_bytes(v: CellModel) -> CellModel {
    match canonical(v) {
        Some(b) => if v is Null {
            CellModel::Null
        } else {
            CellModel::Bytes(b)
        },
        None => v,
    }
}

/// A row has the same digest whether its values come in their own types or as text.
pub proof fn text_values_digest_alike(row: Seq<CellModel>, task: Seq<char>)
    ensures
        row_digest(row.map_values(|v: CellModel| as_bytes(v)), task) == row_digest(row, task),
{
    text_image(row, row.len() as int);
}

proof fn text_image(row: Seq<CellModel>, n: int)
    requires
        0 <= n <= row.len(),
    ensures
        row_image(row.map_values(|v: CellModel| as_bytes(v)), n) == row_image(row, n),
    decreases n,
{
    if n > 0 {
        text_image(row, n - 1);
    }
}

/// A table has the same digest in whatever order its rows come.
pub proof fn row_order_does_not_matter(a: Seq<Seq<u8>>, b: Seq<Seq<u8>>)
    requires
        a.to_multiset() == b.to_multiset(),
    ensures
        table_digest(a) == table_digest(b),
{
    bytes_are_ordered();
    a.lemma_sort_by_ensures(bytes_up_to());
    b.lemma_sort_by_ensures(bytes_up_to());
    lemma_sorted_unique(in_order(a), in_order(b), bytes_up_to());
    a.to_multiset_ensures();
    b.to_multiset_ensures();
}

/// Different bytes have different literals.
pub proof fn literals_are_lossless(a: Seq<u8>, b: Seq<u8>, upper: bool)
    requires
        hex_quoted(a, upper) == hex_quoted(b, upper),
    ensures
        a == b,
{
    let x = hex_quoted(a, upper);
    let y = hex_quoted(b, upper);
    let p = "X'"@.len() as int;
    let q = "'"@.len() as int;
    assert(x.subrange(p, x.len() - q) =~= num::hex(a, upper));
    assert(y.subrange(p, y.len() - q) =~= num::hex(b, upper));
    num::hex_injective(a, b, upper);
}

/// The image of a row tells its values apart: two rows with the same image come to the same
/// bytes, value by value.
pub proof fn row_images_are_unambiguous(a: Seq<CellModel>, b: Seq<CellModel>)
    requires
        a.len() < codec::pow256(8),
        b.len() < codec::pow256(8),
        forall|i: int| 0 <= i < a.len() ==> canonical(#[trigger] a[i]) is Some && canonical(a[i])->0.len() < codec::pow256(8),
        forall|i: int| 0 <= i < b.len() ==> canonical(#[trigger] b[i]) is Some && canonical(b[i])->0.len() < codec::pow256(8),
        row_image(a, a.len() as int) == row_image(b, b.len() as int),
    ensures
        a.len() == b.len(),
        forall|i: int| 0 <= i < a.len() ==> as_bytes(#[trigger] a[i]) == as_bytes(b[i]),
{
    image_made(a, a.len() as int);
    image_made(b, b.len() as int);
    let x = row_image(a, a.len() as int)->0;
    codec::le_len(a.len(), 8);
    codec::le_len(b.len(), 8);
    prefix_of_image(a, 0, a.len() as int);
    prefix_of_image(b, 0, b.len() as int);
    assert(codec::le(a.len(), 8) =~= x.take(8));
    assert(codec::le(b.len(), 8) =~= x.take(8));
    codec::from_le_le(a.len(), 8);
    codec::from_le_le(b.len(), 8);
    assert forall|i: int| 0 <= i < a.len() implies as_bytes(#[trigger] a[i]) == as_bytes(b[i]) by {
        values_agree(a, b, i + 1);
    }
}

proof fn image_made(row: Seq<CellModel>, n: int)
    requires
        0 <= n <= row.len(),
        forall|i: int| 0 <= i < row.len() ==> canonical(#[trigger] row[i]) is Some,
    ensures
        row_image(row, n) is Some,
    decreases n,
{
    if n > 0 {
        image_made(row, n - 1);
        assert(canonical(row[n - 1]) is Some);
    }
}

proof fn prefix_of_image(row: Seq<CellModel>, m: int, n: int)
    requires
        0 <= m <= n <= row.len(),
        forall|i: int| 0 <= i < row.len() ==> canonical(#[trigger] row[i]) is Some,
    ensures
        row_image(row, m) is Some,
        row_image(row, n) is Some,
        row_image(row, m)->0.len() <= row_image(row, n)->0.len(),
        row_image(row, n)->0.take(row_image(row, m)->0.len() as int) == row_image(row, m)->0,
    decreases n - m,
{
    image_made(row, m);
    image_made(row, n);
    let x = row_image(row, m)->0;
    let y = row_image(row, n)->0;
    if m < n {
        prefix_of_image(row, m, n - 1);
        let z = row_image(row, n - 1)->0;
        assert(canonical(row[n - 1]) is Some);
        assert(y.take(x.len() as int) =~= z.take(x.len() as int));
    } else {
        assert(y.take(x.len() as int) =~= x);
    }
}

proof fn values_agree(a: Seq<CellModel>, b: Seq<CellModel>, n: int)
    requires
        a.len() == b.len(),
        0 <= n <= a.len(),
        forall|i: int| 0 <= i < a.len() ==> canonical(#[trigger] a[i]) is Some && canonical(a[i])->0.len() < codec::pow256(8),
        forall|i: int| 0 <= i < b.len() ==> canonical(#[trigger] b[i]) is Some && canonical(b[i])->0.len() < codec::pow256(8),
        row_image(a, a.len() as int) == row_image(b, b.len() as int),
    ensures
        row_image(a, n) == row_image(b, n),
        n > 0 ==> as_bytes(a[n - 1]) == as_bytes(b[n - 1]),
    decreases n,
{
    if n > 0 {
        values_agree(a, b, n - 1);
        image_made(a, a.len() as int);
        image_made(b, b.len() as int);
        prefix_of_image(a, n, a.len() as int);
        prefix_of_image(b, n, b.len() as int);
        prefix_of_image(a, n - 1, a.len() as int);
        let whole = row_image(a, a.len() as int)->0;
        let before = row_image(a, n - 1)->0;
        let ia = cell_image(a[n - 1])->0;
        let ib = cell_image(b[n - 1])->0;
        let rest = whole.skip(before.len() as int);
        assert(canonical(a[n - 1]) is Some);
        assert(canonical(b[n - 1]) is Some);
        assert(row_image(a, n)->0 == before + ia);
        assert(row_image(b, n)->0 == before + ib);
        assert(ia =~= rest.take(ia.len() as int)) by {
            assert(whole.take((before + ia).len() as int) == before + ia);
            assert forall|i: int| 0 <= i < ia.len() implies ia[i] == rest[i] by {
                assert((before + ia)[before.len() + i] == whole[before.len() + i]);
            }
        }
        assert(ib =~= rest.take(ib.len() as int)) by {
            assert(whole.take((before + ib).len() as int) == before + ib);
            assert forall|i: int| 0 <= i < ib.len() implies ib[i] == rest[i] by {
                assert((before + ib)[before.len() + i] == whole[before.len() + i]);
            }
        }
        images_agree(a[n - 1], b[n - 1], rest);
    }
}

/// Two values whose images stand at the head of the same bytes.
proof fn images_agree(v: CellModel, w: CellModel, rest: Seq<u8>)
    requires
        canonical(v) is Some,
        canonical(w) is Some,
        canonical(v)->0.len() < codec::pow256(8),
        canonical(w)->0.len() < codec::pow256(8),
        cell_image(v)->0.len() <= rest.len(),
        cell_image(w)->0.len() <= rest.len(),
        cell_image(v)->0 == rest.take(cell_image(v)->0.len() as int),
        cell_image(w)->0 == rest.take(cell_image(w)->0.len() as int),
    ensures
        cell_image(v) == cell_image(w),
        as_bytes(v) == as_bytes(w),
{
    let x = cell_image(v)->0;
    let y = cell_image(w)->0;
    assert(x[0] == rest[0] && y[0] == rest[0]);
    if v is Null {
        assert(x[0] == 0u8);
        if !(w is Null) {
            assert(y[0] == 1u8);
        }
    } else {
        assert(x[0] == 1u8);
        if w is Null {
            assert(y[0] == 0u8);
        }
        let cv = canonical(v)->0;
        let cw = canonical(w)->0;
        codec::le_len(cv.len(), 8);
        codec::le_len(cw.len(), 8);
        assert(x.subrange(1, 9) =~= codec::le(cv.len(), 8));
        assert(y.subrange(1, 9) =~= codec::le(cw.len(), 8));
        assert(x.subrange(1, 9) =~= rest.subrange(1, 9));
        assert(y.subrange(1, 9) =~= rest.subrange(1, 9));
        codec::from_le_le(cv.len(), 8);
        codec::from_le_le(cw.len(), 8);
        assert(x =~= y);
        assert(cv =~= x.skip(9));
        assert(cw =~= y.skip(9));
    }
}

} // verus!
