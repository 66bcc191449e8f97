//! Recognizing and trimming the query text the server answers itself.
use vstd::prelude::*;
use crate::codec::push_bytes;
use crate::packet::slice_range;

verus! {

/// Whether `b` begins with `p`.
pub open spec fn starts_with(b: Seq<u8>, p: Seq<u8>) -> bool {
    b.len() >= p.len() && b.take(p.len() as int) == p
}

/// Whether `b` begins with `p`.
pub fn has_prefix(b: &[u8], p: &[u8]) -> (r: bool)
    ensures
        r == starts_with(b@, p@),
{
    if b.len() < p.len() {
        return false;
    }
    let mut i: usize = 0;
    while i < p.len()
        invariant
            i <= p@.len(),
            p@.len() <= b@.len(),
            forall|k: int| 0 <= k < i ==> b@[k] == p@[k],
        decreases p@.len() - i,
    {
        if b[i] != p[i] {
            assert(b@.take(p@.len() as int)[i as int] != p@[i as int]);
            return false;
        }
        i = i + 1;
    }
    assert(b@.take(p@.len() as int) =~= p@);
    true
}

/// `b` without the copies of `c` at its end.
pub open spec fn strip_end(b: Seq<u8>, c: u8) -> Seq<u8>
    decreases b.len(),
{
    if b.len() > 0 && b.last() == c {
        strip_end(b.drop_last(), c)
    } else {
        b
    }
}

/// `b` without the copies of `c` at either end.
pub open spec fn strip_both(b: Seq<u8>, c: u8) -> Seq<u8>
    decreases b.len(),
{
    if b.len() > 0 && b[0] == c {
        strip_both(b.skip(1), c)
    } else {
        strip_end(b, c)
    }
}

/// The schema a `USE` statement names, from the text after `USE ` with
/// white space trimmed: trailing semicolons, then backquotes at either end,
/// taken off.
pub open spec fn use_schema(t: Seq<u8>) -> Seq<u8> {
    strip_both(strip_end(t, 0x3B), 0x60)
}

fn strip_end_range(b: &[u8], lo: usize, hi: usize, c: u8) -> (r: usize)
    requires
        lo <= hi <= b@.len(),
    ensures
        lo <= r <= hi,
        b@.subrange(lo as int, r as int) == strip_end(b@.subrange(lo as int, hi as int), c),
{
    let mut h = hi;
    while h > lo && b[h - 1] == c
        invariant
            lo <= h <= hi,
            hi <= b@.len(),
            strip_end(b@.subrange(lo as int, h as int), c) == strip_end(b@.subrange(lo as int, hi as int), c),
        decreases h,
    {
        assert(b@.subrange(lo as int, h as int).drop_last() =~= b@.subrange(lo as int, h - 1));
        h = h - 1;
    }
    h
}

fn strip_both_range(b: &[u8], lo: usize, hi: usize, c: u8) -> (r: (usize, usize))
    requires
        lo <= hi <= b@.len(),
    ensures
        lo <= r.0 <= r.1 <= hi,
        b@.subrange(r.0 as int, r.1 as int) == strip_both(b@.subrange(lo as int, hi as int), c),
{
    let mut l = lo;
    while l < hi && b[l] == c
        invariant
            lo <= l <= hi,
            hi <= b@.len(),
            strip_both(b@.subrange(l as int, hi as int), c) == strip_both(b@.subrange(lo as int, hi as int), c),
        decreases hi - l,
    {
        assert(b@.subrange(l as int, hi as int).skip(1) =~= b@.subrange(l + 1, hi as int));
        l = l + 1;
    }
    let h = strip_end_range(b, l, hi, c);
    (l, h)
}

/// The schema a `USE` statement names, from the text after `USE ` with
/// white space trimmed.
pub fn schema_of_use(b: &[u8]) -> (r: Vec<u8>)
    ensures
        r@ == use_schema(b@),
{
    let l: usize = 0;
    assert(b@.subrange(0, b@.len() as int) =~= b@);
    let h2 = strip_end_range(b, l, b.len(), 0x3B);
    let (l3, h3) = strip_both_range(b, l, h2, 0x60);
    let mut r: Vec<u8> = Vec::new();
    push_bytes(&mut r, slice_range(b, l3, h3));
    r
}

} // verus!
