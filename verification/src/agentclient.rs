//! The client side of the agent API: requests over HTTP and what the replies hold.
use crate::codec;
use crate::error;
use crate::error::{DbError, DbResult};
use crate::num;
use crate::row;
use crate::search;
use crate::text;
use vstd::prelude::*;

verus! {

// ---------------------------------------------------------------------------------------------
// JSON
// ---------------------------------------------------------------------------------------------
/// How a character stands in a JSON string.
pub open spec fn json_char(c: char) -> Seq<char> {
    let u = c as u32;
    if c == '"' {
        seq!['\\', '"']
    } else if c == '\\' {
        seq!['\\', '\\']
    } else if u == 0x08 {
        seq!['\\', 'b']
    } else if u == 0x09 {
        seq!['\\', 't']
    } else if u == 0x0a {
        seq!['\\', 'n']
    } else if u == 0x0c {
        seq!['\\', 'f']
    } else if u == 0x0d {
        seq!['\\', 'r']
    } else if u < 0x20 {
        seq!['\\', 'u', '0', '0', num::hex_char(u as int / 16, false), num::hex_char(u as int % 16, false)]
    } else {
        seq![c]
    }
}

pub open spec fn json_inner(s: Seq<char>) -> Seq<char>
    decreases s.len(),
{
    if s.len() == 0 {
        Seq::empty()
    } else {
        json_inner(s.drop_last()) + json_char(s.last())
    }
}

/// A text as a JSON string.
pub open spec fn json_quoted(s: Seq<char>) -> Seq<char> {
    "\""@ + json_inner(s) + "\""@
}

fn push_json_char(out: &mut String, c: char)
    ensures
        final(out)@ == old(out)@ + json_char(c),
{
    let ghost before = out@;
    let u: u32 = c as u32;
    if c == '"' || c == '\\' {
        out.push('\\');
        out.push(c);
    } else if u == 0x08 {
        out.push('\\');
        out.push('b');
    } else if u == 0x09 {
        out.push('\\');
        out.push('t');
    } else if u == 0x0a {
        out.push('\\');
        out.push('n');
    } else if u == 0x0c {
        out.push('\\');
        out.push('f');
    } else if u == 0x0d {
        out.push('\\');
        out.push('r');
    } else if u < 0x20 {
        out.push('\\');
        out.push('u');
        out.push('0');
        out.push('0');
        out.push(num::char_of_hex((u / 16) as u8, false));
        out.push(num::char_of_hex((u % 16) as u8, false));
    } else {
        out.push(c);
    }
    assert(out@ =~= before + json_char(c));
}

pub fn json_string(s: &str) -> (r: String)
    ensures
        r@ == json_quoted(s@),
{
    let c = text::chars_of(s);
    let mut out = String::new();
    let mut i: usize = 0;
    while i < c.len()
        invariant
            i <= c@.len(),
            c@ == s@,
            out@ == json_inner(s@.take(i as int)),
        decreases c@.len() - i,
    {
        assert(s@.take(i + 1).drop_last() =~= s@.take(i as int));
        push_json_char(&mut out, c[i]);
        i += 1;
    }
    assert(s@.take(s@.len() as int) =~= s@);
    error::cat3("\"", out.as_str(), "\"")
}

/// A JSON document that `serde_json` reads, laid out over several lines; other bytes have no such
/// form.
pub uninterp spec fn json_pretty(document: Seq<u8>) -> Option<Seq<char>>;

/// `serde_json::from_slice` into a `serde_json::Value` and `serde_json::to_string_pretty` of it:
/// the text depends on the bytes alone. There is none where the bytes are no JSON document, or
/// one nested deeper than the crate reads.
#[verifier::external_body]
fn pretty_json(document: &[u8]) -> (r: Option<String>)
    ensures
        r is Some == json_pretty(document@) is Some,
        r matches Some(s) ==> json_pretty(document@) == Some(s@),
{
    let value = serde_json::from_slice::<serde_json::Value>(document).ok()?;
    serde_json::to_string_pretty(&value).ok()
}

// ---------------------------------------------------------------------------------------------
// Requests
// ---------------------------------------------------------------------------------------------
/// What the user asks the agent for.
#[derive(Debug)]
pub enum AgentCommand {
    Health,
    Slow,
    Diagnose { question: String },
    Ask { question: String },
    Optimize { sql: String },
}

/// A request: its method, its path and its JSON body.
#[derive(Debug)]
pub struct AgentRequest {
    pub method: String,
    pub path: String,
    pub body: Option<String>,
}

pub struct AgentRequestModel {
    pub method: Seq<char>,
    pub path: Seq<char>,
    pub body: Option<Seq<char>>,
}

impl View for AgentRequest {
    type V = AgentRequestModel;

    open spec fn view(&self) -> AgentRequestModel {
        AgentRequestModel {
            method: self.method@,
            path: self.path@,
            body: match self.body {
                Some(b) => Some(b@),
                None => None,
            },
        }
    }
}

pub open spec fn json_field(name: Seq<char>, value: Seq<char>) -> Seq<char> {
    "{\""@ + name + "\":"@ + json_quoted(value) + "}"@
}

fn one_field(name: &str, value: &str) -> (r: String)
    ensures
        r@ == json_field(name@, value@),
{
    let quoted = json_string(value);
    error::cat5("{\"", name, "\":", quoted.as_str(), "}")
}

pub open spec fn request_of(command: AgentCommand) -> AgentRequestModel {
    match command {
        AgentCommand::Health => AgentRequestModel {
            method: "GET"@,
            path: "/api/v1/agent/health"@,
            body: None,
        },
        AgentCommand::Slow => AgentRequestModel {
            method: "GET"@,
            path: "/api/v1/agent/slow-queries"@,
            body: None,
        },
        AgentCommand::Diagnose { question } => AgentRequestModel {
            method: "POST"@,
            path: "/api/v1/agent/diagnose"@,
            body: Some(json_field("question"@, question@)),
        },
        AgentCommand::Ask { question } => AgentRequestModel {
            method: "POST"@,
            path: "/api/v1/agent/ask"@,
            body: Some(json_field("question"@, question@)),
        },
        AgentCommand::Optimize { sql } => AgentRequestModel {
            method: "POST"@,
            path: "/api/v1/agent/sql"@,
            body: Some(json_field("sql"@, sql@)),
        },
    }
}

pub fn agent_request(command: &AgentCommand) -> (r: AgentRequest)
    ensures
        r@ == request_of(*command),
{
    let get = text::copy_text("GET");
    let post = text::copy_text("POST");
    match command {
        AgentCommand::Health => AgentRequest {
            method: get,
            path: text::copy_text("/api/v1/agent/health"),
            body: None,
        },
        AgentCommand::Slow => AgentRequest {
            method: get,
            path: text::copy_text("/api/v1/agent/slow-queries"),
            body: None,
        },
        AgentCommand::Diagnose { question } => AgentRequest {
            method: post,
            path: text::copy_text("/api/v1/agent/diagnose"),
            body: Some(one_field("question", question.as_str())),
        },
        AgentCommand::Ask { question } => AgentRequest {
            method: post,
            path: text::copy_text("/api/v1/agent/ask"),
            body: Some(one_field("question", question.as_str())),
        },
        AgentCommand::Optimize { sql } => AgentRequest {
            method: post,
            path: text::copy_text("/api/v1/agent/sql"),
            body: Some(one_field("sql", sql.as_str())),
        },
    }
}

/// The head of a request, up to the empty line behind which its body begins.
pub open spec fn request_head(
    request: AgentRequestModel,
    host: Seq<char>,
    port: u16,
    password: Seq<char>,
    length: nat,
) -> Seq<char> {
    request.method + " "@ + request.path + " HTTP/1.1\r\nHost: "@ + host + ":"@ + num::decimal(port as nat)
        + "\r\nAuthorization: Bearer "@ + password
        + "\r\nContent-Type: application/json\r\nContent-Length: "@ + num::decimal(length)
        + "\r\nConnection: close\r\n\r\n"@
}

pub open spec fn body_bytes(request: AgentRequestModel) -> Seq<u8> {
    match request.body {
        Some(b) => text::bytes_of(b),
        None => Seq::empty(),
    }
}

/// The bytes that a request puts on the connection.
pub fn request_bytes(request: &AgentRequest, host: &str, port: u16, password: &str) -> (r: Vec<u8>)
    ensures
        r@ == text::bytes_of(
            request_head(request@, host@, port, password@, body_bytes(request@).len()),
        ) + body_bytes(request@),
{
    let payload = match &request.body {
        Some(b) => text::text_bytes(b.as_str()),
        None => Vec::new(),
    };
    assert(payload@ =~= body_bytes(request@));
    let port_digits = num::u64_text(port as u64);
    let length = num::usize_text(payload.len());
    let mut head = error::cat7(
        request.method.as_str(),
        " ",
        request.path.as_str(),
        " HTTP/1.1\r\nHost: ",
        host,
        ":",
        port_digits.as_str(),
    );
    head.append("\r\nAuthorization: Bearer ");
    head.append(password);
    head.append("\r\nContent-Type: application/json\r\nContent-Length: ");
    head.append(length.as_str());
    head.append("\r\nConnection: close\r\n\r\n");
    let mut out = text::text_bytes(head.as_str());
    out.extend_from_slice(payload.as_slice());
    assert(out@ =~= text::bytes_of(head@) + payload@);
    out
}

/// The password that a request carries.
pub fn agent_password(admin: Option<String>, password: Option<String>) -> (r: String)
    ensures
        r@ == (match admin {
            Some(p) => p@,
            None => match password {
                Some(p) => p@,
                None => "root"@,
            },
        }),
{
    match admin {
        Some(p) => p,
        None => match password {
            Some(p) => p,
            None => text::copy_text("root"),
        },
    }
}

// ---------------------------------------------------------------------------------------------
// Replies
// ---------------------------------------------------------------------------------------------
pub open spec fn line_end() -> Seq<u8> {
    seq![0x0du8, 0x0au8]
}

pub open spec fn head_end() -> Seq<u8> {
    seq![0x0du8, 0x0au8, 0x0du8, 0x0au8]
}

pub open spec fn mark_at(b: Seq<u8>, mark: Seq<u8>, at: int) -> bool {
    0 <= at && at + mark.len() <= b.len() && b.subrange(at, at + mark.len()) == mark
}

/// The first place at or behind `from` where a mark stands.
pub open spec fn mark_from(b: Seq<u8>, mark: Seq<u8>, from: int) -> Option<int>
    decreases b.len() - from,
{
    if from < 0 || from + mark.len() > b.len() || from >= b.len() {
        None
    } else if mark_at(b, mark, from) {
        Some(from)
    } else {
        mark_from(b, mark, from + 1)
    }
}

fn is_mark_at(b: &[u8], mark: &[u8], at: usize) -> (r: bool)
    ensures
        r == mark_at(b@, mark@, at as int),
{
    let total: usize = b.len();
    let width: usize = mark.len();
    if at > total || width > total - at {
        return false;
    }
    let mut i: usize = 0;
    while i < width
        invariant
            i <= width,
            width == mark@.len(),
            total == b@.len(),
            at + width <= total,
            forall|j: int| 0 <= j < i ==> b@[at + j] == #[trigger] mark@[j],
        decreases width - i,
    {
        if b[at + i] != mark[i] {
            assert(b@.subrange(at as int, at + width)[i as int] != mark@[i as int]);
            return false;
        }
        i += 1;
    }
    assert(b@.subrange(at as int, at + width) =~= mark@);
    true
}

fn find_mark(b: &[u8], mark: &[u8], from: usize) -> (r: Option<usize>)
    ensures
        r is Some == mark_from(b@, mark@, from as int) is Some,
        r matches Some(at) ==> mark_from(b@, mark@, from as int) == Some(at as int) && from <= at && at
            + mark@.len() <= b@.len(),
{
    let total: usize = b.len();
    let mut i: usize = from;
    while i < total && mark.len() <= total - i
        invariant
            from <= i,
            total == b@.len(),
            mark_from(b@, mark@, i as int) == mark_from(b@, mark@, from as int),
        decreases total - i,
    {
        if is_mark_at(b, mark, i) {
            return Some(i);
        }
        i += 1;
    }
    None
}

/// The number that hexadecimal digits spell.
pub open spec fn hex_number(s: Seq<char>) -> Option<nat>
    decreases s.len(),
{
    if s.len() == 0 {
        Some(0)
    } else {
        match (hex_number(s.drop_last()), num::hex_value(s.last())) {
            (Some(n), Some(d)) => Some(n * 16 + d),
            _ => None,
        }
    }
}

/// The size that a chunk's line gives, up to the greatest that a machine can hold.
pub open spec fn chunk_size(line: Seq<char>) -> Option<nat> {
    let digits = num::without_plus(text::trim(line));
    match hex_number(digits) {
        Some(n) => if digits.len() > 0 && n <= usize::MAX {
            Some(n)
        } else {
            None
        },
        None => None,
    }
}

proof fn hex_number_grows(s: Seq<char>, i: int)
    requires
        0 <= i <= s.len(),
        hex_number(s) is Some,
    ensures
        hex_number(s.take(i)) is Some,
        hex_number(s.take(i))->0 <= hex_number(s)->0,
    decreases s.len(),
{
    if i < s.len() {
        hex_number_grows(s.drop_last(), i);
        assert(s.drop_last().take(i) =~= s.take(i));
    } else {
        assert(s.take(i) =~= s);
    }
}

fn read_chunk_size(line: &str) -> (r: DbResult<usize>)
    ensures
        match r {
            Ok(n) => chunk_size(line@) == Some(n as nat),
            Err(e) => chunk_size(line@) is None && e.message@ == num::fault(
                text::trim(line@),
                16,
                usize::MAX as nat,
            ),
        },
{
    let c = text::chars_of(line);
    let t = text::trim_chars(&c);
    let start: usize = if t.len() > 0 && t[0] == '+' {
        1
    } else {
        0
    };
    let ghost d = num::without_plus(t@);
    assert(d =~= t@.subrange(start as int, t@.len() as int));
    if start == t.len() {
        return Err(DbError::new(num::fault_in(&t, 16, usize::MAX as u64)));
    }
    let mut value: usize = 0;
    let mut i: usize = start;
    assert(d.take(0) =~= Seq::empty());
    while i < t.len()
        invariant
            start <= i <= t@.len(),
            d == t@.subrange(start as int, t@.len() as int),
            t@ == text::trim(line@),
            d == num::without_plus(text::trim(line@)),
            hex_number(d.take(i - start)) == Some(value as nat),
        decreases t@.len() - i,
    {
        let ch = t[i];
        assert(d[i - start] == ch);
        assert(d.take(i - start + 1).drop_last() =~= d.take(i - start));
        assert(d.take(i - start + 1).last() == ch);
        match num::hex_digit(ch) {
            None => {
                proof {
                    if hex_number(d) is Some {
                        hex_number_grows(d, i - start + 1);
                    }
                }
                return Err(DbError::new(num::fault_in(&t, 16, usize::MAX as u64)));
            },
            Some(digit) => {
                let next: u128 = (value as u128) * 16 + (digit as u128);
                assert(hex_number(d.take(i - start + 1)) == Some(next as nat));
                if next > usize::MAX as u128 {
                    proof {
                        if hex_number(d) is Some {
                            hex_number_grows(d, i - start + 1);
                        }
                    }
                    return Err(DbError::new(num::fault_in(&t, 16, usize::MAX as u64)));
                }
                value = next as usize;
            },
        }
        i += 1;
    }
    assert(d.take(i - start) =~= d);
    Ok(value)
}

pub open spec fn bad_chunks() -> Seq<char> {
    "invalid chunked Agent response"@
}

pub open spec fn cut_chunks() -> Seq<char> {
    "truncated chunked Agent response"@
}

/// What the chunks from `at` on hold, behind what was read before. A chunk of size zero ends them.
pub open spec fn chunks_from(input: Seq<u8>, at: int, out: Seq<u8>) -> Result<Seq<u8>, Seq<char>>
    decreases input.len() - at,
{
    match mark_from(input, line_end(), at) {
        None => Err(bad_chunks()),
        Some(end) => if end < at {
            Err(bad_chunks())
        } else if !vstd::utf8::valid_utf8(input.subrange(at, end)) {
            Err(text::utf8_fault(input.subrange(at, end)))
        } else {
            let line = vstd::utf8::decode_utf8(input.subrange(at, end));
            match chunk_size(line) {
                None => Err(num::fault(text::trim(line), 16, usize::MAX as nat)),
                Some(size) => if size == 0 {
                    Ok(out)
                } else if input.len() < end + 2 + size + 2 || !mark_at(input, line_end(), end + 2 + size) {
                    Err(cut_chunks())
                } else {
                    chunks_from(
                        input,
                        end + 2 + size + 2,
                        out + input.subrange(end + 2, end + 2 + size),
                    )
                },
            }
        },
    }
}

/// The body that chunks carry.
pub open spec fn unchunked(input: Seq<u8>) -> Result<Seq<u8>, Seq<char>> {
    chunks_from(input, 0, Seq::empty())
}

pub fn decode_chunked(input: &[u8]) -> (r: DbResult<Vec<u8>>)
    ensures
        error::outcome(r) == unchunked(input@),
{
    let mut mark: Vec<u8> = Vec::new();
    mark.push(0x0d);
    mark.push(0x0a);
    assert(mark@ =~= line_end());
    let total: usize = input.len();
    let mut output: Vec<u8> = Vec::new();
    let mut at: usize = 0;
    assert(output@ =~= Seq::empty());
    loop
        invariant
            mark@ == line_end(),
            total == input@.len(),
            at <= total,
            chunks_from(input@, at as int, output@) == unchunked(input@),
        decreases total - at,
    {
        match find_mark(input, mark.as_slice(), at) {
            None => {
                return Err(DbError::of("invalid chunked Agent response"));
            },
            Some(end) => {
                let line = codec::sub_bytes(input, at, end);
                let size: usize = match text::utf8_text(line.as_slice()) {
                    Err(e) => {
                        return Err(DbError::new(e));
                    },
                    Ok(s) => match read_chunk_size(s) {
                        Err(e) => {
                            return Err(e);
                        },
                        Ok(n) => n,
                    },
                };
                if size == 0 {
                    assert(output.deep_view() =~= output@);
                    return Ok(output);
                }
                let from: usize = end + 2;
                if total - from < 2 || total - from - 2 < size || !is_mark_at(
                    input,
                    mark.as_slice(),
                    from + size,
                ) {
                    return Err(DbError::of("truncated chunked Agent response"));
                }
                let ghost before = output@;
                let data = codec::sub_bytes(input, from, from + size);
                output.extend_from_slice(data.as_slice());
                assert(output@ =~= before + input@.subrange(from as int, from + size));
                at = from + size + 2;
            },
        }
    }
}

/// The status that the first line of a reply gives.
pub open spec fn status_of(head: Seq<char>) -> Option<nat> {
    let first = search::lines(head);
    if first.len() == 0 || search::words(first[0]).len() < 2 {
        None
    } else {
        num::parsed(search::words(first[0])[1], u16::MAX as nat)
    }
}

fn read_status(head: &Vec<String>) -> (r: Option<u64>)
    ensures
        ({
            let l = head.deep_view();
            let s = if l.len() == 0 || search::words(l[0]).len() < 2 {
                None
            } else {
                num::parsed(search::words(l[0])[1], u16::MAX as nat)
            };
            &&& r is Some == s is Some
            &&& r matches Some(n) ==> s == Some(n as nat)
        }),
{
    if head.len() == 0 {
        return None;
    }
    assert(head.deep_view()[0] == head@[0]@);
    let w = search::split_words(head[0].as_str());
    assert(w.deep_view().len() == w@.len());
    if w.len() < 2 {
        return None;
    }
    assert(w.deep_view()[1] == w@[1]@);
    num::parse_u64(w[1].as_str(), 65535)
}

pub open spec fn says_chunked(head: Seq<char>) -> bool {
    exists|i: int|
        0 <= i < search::lines(head).len() && text::same_fold(
            #[trigger] search::lines(head)[i],
            "transfer-encoding: chunked"@,
        )
}

fn is_chunked(head: &Vec<String>) -> (r: bool)
    ensures
        r == exists|i: int|
            0 <= i < head.deep_view().len() && text::same_fold(
                #[trigger] head.deep_view()[i],
                "transfer-encoding: chunked"@,
            ),
{
    let ghost l = head.deep_view();
    let mut i: usize = 0;
    while i < head.len()
        invariant
            i <= head@.len(),
            l == head.deep_view(),
            forall|j: int| 0 <= j < i ==> !text::same_fold(#[trigger] l[j], "transfer-encoding: chunked"@),
        decreases head@.len() - i,
    {
        assert(l[i as int] == head@[i as int]@);
        if text::eq_fold(head[i].as_str(), "transfer-encoding: chunked") {
            return true;
        }
        i += 1;
    }
    false
}

pub open spec fn refused(status: nat, body: Seq<u8>) -> Seq<char> {
    "Agent API returned HTTP "@ + num::decimal(status) + ": "@ + row::lossy_text(body)
}

/// The body of a reply: what stands behind its head, taken out of its chunks where it comes in
/// chunks. A status outside the two hundreds makes it an error.
pub open spec fn reply_body(response: Seq<u8>) -> Result<Seq<u8>, Seq<char>> {
    match mark_from(response, head_end(), 0) {
        None => Err("invalid Agent HTTP response"@),
        Some(end) => if !vstd::utf8::valid_utf8(response.subrange(0, end)) {
            Err(text::utf8_fault(response.subrange(0, end)))
        } else {
            let head = vstd::utf8::decode_utf8(response.subrange(0, end));
            let rest = response.skip(end + 4);
            match status_of(head) {
                None => Err("invalid Agent HTTP status"@),
                Some(status) => match (if says_chunked(head) {
                    unchunked(rest)
                } else {
                    Ok(rest)
                }) {
                    Err(e) => Err(e),
                    Ok(body) => if 200 <= status < 300 {
                        Ok(body)
                    } else {
                        Err(refused(status, body))
                    },
                },
            }
        },
    }
}

pub fn agent_reply_body(response: &[u8]) -> (r: DbResult<Vec<u8>>)
    ensures
        error::outcome(r) == reply_body(response@),
{
    let mut mark: Vec<u8> = Vec::new();
    mark.push(0x0d);
    mark.push(0x0a);
    mark.push(0x0d);
    mark.push(0x0a);
    assert(mark@ =~= head_end());
    let end: usize = match find_mark(response, mark.as_slice(), 0) {
        None => {
            return Err(DbError::of("invalid Agent HTTP response"));
        },
        Some(n) => n,
    };
    let head_bytes = codec::sub_bytes(response, 0, end);
    let head = match text::utf8_text(head_bytes.as_slice()) {
        Err(e) => {
            return Err(DbError::new(e));
        },
        Ok(s) => search::split_lines(s),
    };
    let status: u64 = match read_status(&head) {
        None => {
            return Err(DbError::of("invalid Agent HTTP status"));
        },
        Some(n) => n,
    };
    let total: usize = response.len();
    assert(end + 4 <= total);
    let rest = codec::sub_bytes(response, end + 4, total);
    assert(rest@ =~= response@.skip(end + 4));
    assert(rest.deep_view() =~= rest@);
    let body = if is_chunked(&head) {
        match decode_chunked(rest.as_slice()) {
            Err(e) => {
                return Err(e);
            },
            Ok(b) => b,
        }
    } else {
        rest
    };
    assert(body.deep_view() =~= body@);
    if status < 200 || status >= 300 {
        let code = num::u64_text(status);
        let said = row::utf8_lossy(body.as_slice());
        return Err(
            DbError::new(error::cat4("Agent API returned HTTP ", code.as_str(), ": ", said.as_str())),
        );
    }
    Ok(body)
}

/// The JSON document of a reply, laid out over several lines, once its form is known.
pub open spec fn reply_text(body: Result<Seq<u8>, Seq<char>>, pretty: Option<Seq<char>>) -> Result<
    Seq<char>,
    Seq<char>,
> {
    match body {
        Err(e) => Err(e),
        Ok(b) => match pretty {
            Some(s) => Ok(s),
            None => Err("Agent API returned invalid JSON"@),
        },
    }
}

pub fn parse_agent_http_response(response: &[u8]) -> (r: DbResult<String>)
    ensures
        error::outcome(r) == reply_text(
            reply_body(response@),
            match reply_body(response@) {
                Ok(b) => json_pretty(b),
                Err(_) => None,
            },
        ),
{
    match agent_reply_body(response) {
        Err(e) => Err(e),
        Ok(body) => {
            assert(body.deep_view() =~= body@);
            match pretty_json(body.as_slice()) {
                Some(s) => Ok(s),
                None => Err(DbError::of("Agent API returned invalid JSON")),
            }
        },
    }
}

// ---------------------------------------------------------------------------------------------
// Laws
// ---------------------------------------------------------------------------------------------
/// A reply is never read past its head where its status is not a success: it is an error,
/// whatever its body holds.
pub proof fn refusals_are_errors(response: Seq<u8>, end: int)
    requires
        mark_from(response, head_end(), 0) == Some(end),
        vstd::utf8::valid_utf8(response.subrange(0, end)),
        status_of(vstd::utf8::decode_utf8(response.subrange(0, end))) matches Some(n) ==> n < 200 || n >= 300,
    ensures
        reply_body(response) is Err,
{
}

/// A chunk that is whole adds its data to what was read, and reading goes on behind it.
pub proof fn whole_chunk_is_taken_up(before: Seq<u8>, line: Seq<u8>, data: Seq<u8>, after: Seq<u8>, out: Seq<u8>)
    requires
        data.len() > 0,
        vstd::utf8::valid_utf8(line),
        chunk_size(vstd::utf8::decode_utf8(line)) == Some(data.len()),
        mark_from(line + line_end(), line_end(), 0) == Some(line.len() as int),
    ensures
        ({
            let input = before + line + line_end() + data + line_end() + after;
            chunks_from(input, before.len() as int, out) == chunks_from(
                input,
                (before + line + line_end() + data + line_end()).len() as int,
                out + data,
            )
        }),
{
    let input = before + line + line_end() + data + line_end() + after;
    let at = before.len() as int;
    let end = at + line.len();
    mark_moves(before, line + line_end(), data + line_end() + after, line_end(), 0, line.len() as int);
    assert(before + (line + line_end()) + (data + line_end() + after) =~= input);
    assert(input.subrange(at, end) =~= line);
    assert(input.subrange(end + 2, end + 2 + data.len()) =~= data);
    assert(input.subrange(end + 2 + data.len(), end + 2 + data.len() + 2) =~= line_end());
}

proof fn mark_moves(before: Seq<u8>, b: Seq<u8>, after: Seq<u8>, mark: Seq<u8>, from: int, found: int)
    requires
        mark.len() > 0,
        0 <= from,
        mark_from(b, mark, from) == Some(found),
    ensures
        mark_from(before + b + after, mark, before.len() + from) == Some(before.len() + found),
    decreases b.len() - from,
{
    let all = before + b + after;
    let k = before.len() as int;
    assert(all.subrange(k + from, k + from + mark.len()) =~= b.subrange(from, from + mark.len()));
    if !mark_at(b, mark, from) {
        mark_moves(before, b, after, mark, from + 1, found);
    }
}

} // verus!
