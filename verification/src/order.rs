//! Three-way comparison.
use vstd::prelude::*;

verus! {

/// How one value stands to another.
#[derive(Debug, Clone, Copy, PartialEq, Eq, Structural)]
pub enum Sense {
    Less,
    Equal,
    Greater,
}

pub open spec fn sense_of(a: int, b: int) -> Sense {
    if a < b {
        Sense::Less
    } else if a == b {
        Sense::Equal
    } else {
        Sense::Greater
    }
}

/// The lexicographic order of byte strings.
pub open spec fn bytes_sense(a: Seq<u8>, b: Seq<u8>) -> Sense
    decreases a.len(),
{
    if a.len() == 0 && b.len() == 0 {
        Sense::Equal
    } else if a.len() == 0 {
        Sense::Less
    } else if b.len() == 0 {
        Sense::Greater
    } else if a[0] < b[0] {
        Sense::Less
    } else if a[0] > b[0] {
        Sense::Greater
    } else {
        bytes_sense(a.subrange(1, a.len() as int), b.subrange(1, b.len() as int))
    }
}

pub fn sense_bytes(a: &[u8], b: &[u8]) -> (r: Sense)
    ensures
        r == bytes_sense(a@, b@),
{
    let mut i: usize = 0;
    assert(a@.subrange(0, a@.len() as int) =~= a@);
    assert(b@.subrange(0, b@.len() as int) =~= b@);
    while i < a.len() && i < b.len()
        invariant
            i <= a@.len(),
            i <= b@.len(),
            bytes_sense(a@.subrange(i as int, a@.len() as int), b@.subrange(i as int, b@.len() as int))
                == bytes_sense(a@, b@),
        decreases a@.len() - i,
    {
        let ghost x = a@.subrange(i as int, a@.len() as int);
        let ghost y = b@.subrange(i as int, b@.len() as int);
        if a[i] < b[i] {
            return Sense::Less;
        }
        if a[i] > b[i] {
            return Sense::Greater;
        }
        assert(x.subrange(1, x.len() as int) =~= a@.subrange(i + 1, a@.len() as int));
        assert(y.subrange(1, y.len() as int) =~= b@.subrange(i + 1, b@.len() as int));
        i += 1;
    }
    if i < a.len() {
        Sense::Greater
    } else if i < b.len() {
        Sense::Less
    } else {
        Sense::Equal
    }
}

} // verus!
