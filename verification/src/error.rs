//! The library's error: a message.
use crate::text;
use vstd::prelude::*;

verus! {

/// Why an operation was refused.
#[derive(Debug)]
pub struct DbError {
    pub message: String,
}

impl DbError {
    pub fn new(message: String) -> (r: Self)
        ensures
            r.message@ == message@,
    {
        DbError { message: message }
    }

    pub fn of(message: &str) -> (r: Self)
        ensures
            r.message@ == message@,
    {
        DbError { message: text::copy_text(message) }
    }

    pub fn to_string(&self) -> (r: String)
        ensures
            r@ == self.message@,
    {
        text::copy_text(self.message.as_str())
    }
}

pub type DbResult<T> = Result<T, DbError>;

/// An outcome with its value by model and its error by message.
pub open spec fn outcome<T: DeepView>(r: Result<T, DbError>) -> Result<T::V, Seq<char>> {
    match r {
        Ok(value) => Ok(value.deep_view()),
        Err(error) => Err(error.message@),
    }
}

pub fn cat2(a: &str, b: &str) -> (r: String)
    ensures
        r@ == a@ + b@,
{
    let mut s = text::copy_text(a);
    s.append(b);
    s
}

pub fn cat3(a: &str, b: &str, c: &str) -> (r: String)
    ensures
        r@ == a@ + b@ + c@,
{
    let mut s = cat2(a, b);
    s.append(c);
    s
}

pub fn cat4(a: &str, b: &str, c: &str, d: &str) -> (r: String)
    ensures
        r@ == a@ + b@ + c@ + d@,
{
    let mut s = cat3(a, b, c);
    s.append(d);
    s
}

pub fn cat5(a: &str, b: &str, c: &str, d: &str, e: &str) -> (r: String)
    ensures
        r@ == a@ + b@ + c@ + d@ + e@,
{
    let mut s = cat4(a, b, c, d);
    s.append(e);
    s
}

pub fn cat7(a: &str, b: &str, c: &str, d: &str, e: &str, f: &str, g: &str) -> (r: String)
    ensures
        r@ == a@ + b@ + c@ + d@ + e@ + f@ + g@,
{
    let mut s = cat5(a, b, c, d, e);
    s.append(f);
    s.append(g);
    s
}

} // verus!
