//! Little-endian integers and length-prefixed byte strings.
use vstd::prelude::*;

verus! {

/// `n` in `width` bytes, least significant byte first.
pub open spec fn le(n: nat, width: nat) -> Seq<u8>
    decreases width,
{
    if width == 0 {
        Seq::empty()
    } else {
        seq![(n % 256) as u8] + le(n / 256, (width - 1) as nat)
    }
}

/// The number that bytes spell, least significant byte first.
pub open spec fn from_le(s: Seq<u8>) -> nat
    decreases s.len(),
{
    if s.len() == 0 {
        0
    } else {
        s[0] as nat + 256 * from_le(s.subrange(1, s.len() as int))
    }
}

pub open spec fn pow256(width: nat) -> nat
    decreases width,
{
    if width == 0 {
        1
    } else {
        256 * pow256((width - 1) as nat)
    }
}

pub proof fn le_len(n: nat, width: nat)
    ensures
        le(n, width).len() == width,
    decreases width,
{
    if width > 0 {
        le_len(n / 256, (width - 1) as nat);
    }
}

/// Reading a number back from its bytes.
pub proof fn from_le_le(n: nat, width: nat)
    requires
        n < pow256(width),
    ensures
        from_le(le(n, width)) == n,
    decreases width,
{
    if width > 0 {
        let w = (width - 1) as nat;
        assert(n / 256 < pow256(w)) by (nonlinear_arith)
            requires
                n < 256 * pow256(w),
        ;
        from_le_le(n / 256, w);
        le_len(n / 256, w);
        let s = le(n, width);
        assert(s.subrange(1, s.len() as int) =~= le(n / 256, w));
        assert(s[0] == (n % 256) as u8);
    }
}

pub proof fn from_le_bound(s: Seq<u8>)
    ensures
        from_le(s) < pow256(s.len()),
    decreases s.len(),
{
    if s.len() > 0 {
        let t = s.subrange(1, s.len() as int);
        from_le_bound(t);
        assert(s[0] as nat + 256 * from_le(t) < 256 * pow256(t.len())) by (nonlinear_arith)
            requires
                from_le(t) < pow256(t.len()),
                (s[0] as nat) < 256,
        ;
    }
}

pub proof fn pow256_values()
    ensures
        pow256(4) == 0x1_0000_0000,
        pow256(8) == 0x1_0000_0000_0000_0000,
        pow256(2) == 0x1_0000,
{
    reveal_with_fuel(pow256, 9);
}

pub fn put_le(out: &mut Vec<u8>, n: u64, width: usize)
    ensures
        final(out)@ == old(out)@ + le(n as nat, width as nat),
{
    let ghost base = out@;
    let mut rest: u64 = n;
    let mut left: usize = width;
    assert(out@ + le(rest as nat, left as nat) =~= base + le(n as nat, width as nat));
    while left > 0
        invariant
            out@ + le(rest as nat, left as nat) == base + le(n as nat, width as nat),
        decreases left,
    {
        let ghost before = out@;
        let ghost tail = le((rest / 256) as nat, (left - 1) as nat);
        let ghost byte = (rest % 256) as u8;
        out.push((rest % 256) as u8);
        rest = rest / 256;
        left -= 1;
        assert(before.push(byte) + tail =~= before + (seq![byte] + tail));
    }
    assert(out@ =~= out@ + le(rest as nat, 0));
}

/// The number in `width` bytes at a position.
pub fn get_le(b: &[u8], at: usize, width: usize) -> (r: u64)
    requires
        width <= 8,
        at + width <= b@.len(),
    ensures
        r == from_le(b@.subrange(at as int, at + width)),
    decreases width,
{
    proof {
        pow256_values();
        from_le_bound(b@.subrange(at as int, at + width));
        pow256_grows(width as nat, 8);
    }
    if width == 0 {
        0
    } else {
        let size: usize = b.len();
        assert(at + 1 <= size);
        let rest = get_le(b, at + 1, width - 1);
        assert(b@.subrange(at as int, at + width).subrange(1, width as int) =~= b@.subrange(
            at + 1,
            at + width,
        ));
        (b[at] as u64) + 256 * rest
    }
}

pub proof fn pow256_grows(a: nat, b: nat)
    requires
        a <= b,
    ensures
        pow256(a) <= pow256(b),
    decreases b,
{
    if a < b {
        pow256_grows(a, (b - 1) as nat);
    }
}

/// A byte string behind its length in eight bytes.
pub open spec fn framed(s: Seq<u8>) -> Seq<u8> {
    le(s.len(), 8) + s
}

/// The length-prefixed byte string at a position, and where it ends.
pub open spec fn unframed(b: Seq<u8>, at: int) -> Option<(Seq<u8>, int)> {
    if at < 0 || at + 8 > b.len() {
        None
    } else {
        let n = from_le(b.subrange(at, at + 8)) as int;
        if n > b.len() - at - 8 {
            None
        } else {
            Some((b.subrange(at + 8, at + 8 + n), at + 8 + n))
        }
    }
}

pub fn put_framed(out: &mut Vec<u8>, s: &[u8])
    ensures
        final(out)@ == old(out)@ + framed(s@),
{
    let ghost base = out@;
    put_le(out, s.len() as u64, 8);
    out.extend_from_slice(s);
    assert(out@ =~= base + framed(s@));
}

pub fn get_framed(b: &[u8], at: usize) -> (r: Option<(Vec<u8>, usize)>)
    requires
        at <= b@.len(),
    ensures
        r is Some == unframed(b@, at as int) is Some,
        r matches Some(x) ==> x.1 <= b@.len() && unframed(b@, at as int) == Some(
            (x.0@, x.1 as int),
        ),
{
    if b.len() - at < 8 {
        return None;
    }
    let n = get_le(b, at, 8);
    if n > (b.len() - at - 8) as u64 {
        return None;
    }
    let size: usize = n as usize;
    let part = sub_bytes(b, at + 8, at + 8 + size);
    Some((part, at + 8 + size))
}

pub fn sub_bytes(b: &[u8], from: usize, to: usize) -> (r: Vec<u8>)
    requires
        from <= to <= b@.len(),
    ensures
        r@ == b@.subrange(from as int, to as int),
{
    let mut out: Vec<u8> = Vec::new();
    let mut i: usize = from;
    while i < to
        invariant
            from <= i <= to <= b@.len(),
            out@ == b@.subrange(from as int, i as int),
        decreases to - i,
    {
        out.push(b[i]);
        i += 1;
        assert(out@ =~= b@.subrange(from as int, i as int));
    }
    out
}

/// A framed byte string is read back, whatever stands before and behind it.
pub proof fn unframed_framed(before: Seq<u8>, s: Seq<u8>, after: Seq<u8>)
    requires
        s.len() < pow256(8),
    ensures
        unframed(before + framed(s) + after, before.len() as int) == Some(
            (s, (before.len() + 8 + s.len()) as int),
        ),
        framed(s).len() == 8 + s.len(),
{
    let b = before + framed(s) + after;
    let at = before.len() as int;
    le_len(s.len(), 8);
    from_le_le(s.len(), 8);
    assert(b.subrange(at, at + 8) =~= le(s.len(), 8));
    assert(b.subrange(at + 8, at + 8 + s.len()) =~= s);
}

} // verus!
