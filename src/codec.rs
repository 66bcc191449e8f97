//! Little-endian integers and the length-encoded integers and strings of the protocol.
use vstd::prelude::*;

verus! {

/// 256 to the power `n`.
pub open spec fn pow256(n: nat) -> nat
    decreases n,
{
    if n == 0 {
        1
    } else {
        256 * pow256((n - 1) as nat)
    }
}

/// The `n` low bytes of `v`, least significant first.
pub open spec fn le_bytes(v: nat, n: nat) -> Seq<u8>
    decreases n,
{
    if n == 0 {
        Seq::empty()
    } else {
        seq![(v % 256) as u8] + le_bytes(v / 256, (n - 1) as nat)
    }
}

/// The number that the bytes `s` spell, least significant first.
pub open spec fn le_value(s: Seq<u8>) -> nat
    decreases s.len(),
{
    if s.len() == 0 {
        0
    } else {
        s[0] as nat + 256 * le_value(s.drop_first())
    }
}

pub proof fn lemma_pow256_pos(n: nat)
    ensures
        pow256(n) >= 1,
    decreases n,
{
    if n > 0 {
        lemma_pow256_pos((n - 1) as nat);
    }
}

pub proof fn lemma_pow256_values()
    ensures
        pow256(2) == 0x10000,
        pow256(3) == 0x100_0000,
        pow256(4) == 0x1_0000_0000,
        pow256(7) == 0x100_0000_0000_0000,
        pow256(8) == 0x1_0000_0000_0000_0000,
{
    reveal_with_fuel(pow256, 9);
}

pub proof fn lemma_pow256_mono(a: nat, b: nat)
    requires
        a <= b,
    ensures
        pow256(a) <= pow256(b),
    decreases b,
{
    if a < b {
        lemma_pow256_mono(a, (b - 1) as nat);
        lemma_pow256_pos((b - 1) as nat);
    }
}

pub proof fn lemma_le_bytes_len(v: nat, n: nat)
    ensures
        le_bytes(v, n).len() == n,
    decreases n,
{
    if n > 0 {
        lemma_le_bytes_len(v / 256, (n - 1) as nat);
    }
}

pub proof fn lemma_le_value_bound(s: Seq<u8>)
    ensures
        le_value(s) < pow256(s.len()),
    decreases s.len(),
{
    if s.len() > 0 {
        lemma_le_value_bound(s.drop_first());
        let r = le_value(s.drop_first());
        let p = pow256((s.len() - 1) as nat);
        assert(r + 1 <= p);
        assert(256 * r + 256 <= 256 * p) by (nonlinear_arith)
            requires
                r + 1 <= p,
        ;
    }
}

/// Reading back `n` little-endian bytes of a value that fits gives the value.
pub proof fn lemma_le_round_trip(v: nat, n: nat)
    requires
        v < pow256(n),
    ensures
        le_value(le_bytes(v, n)) == v,
        le_bytes(v, n).len() == n,
    decreases n,
{
    lemma_le_bytes_len(v, n);
    if n > 0 {
        let p = pow256((n - 1) as nat);
        assert(v / 256 < p) by (nonlinear_arith)
            requires
                v < 256 * p,
        ;
        lemma_le_round_trip(v / 256, (n - 1) as nat);
        let s = le_bytes(v, n);
        assert(s.drop_first() =~= le_bytes(v / 256, (n - 1) as nat));
        assert(v == 256 * (v / 256) + v % 256) by (nonlinear_arith);
    }
}

/// Appends the `n` low bytes of `v` to `out`, least significant first.
pub fn push_le(out: &mut Vec<u8>, v: u64, n: usize)
    requires
        n <= 8,
    ensures
        final(out)@ == old(out)@ + le_bytes(v as nat, n as nat),
{
    let ghost target = old(out)@ + le_bytes(v as nat, n as nat);
    let mut cur: u64 = v;
    let mut i: usize = 0;
    while i < n
        invariant
            i <= n,
            target == out@ + le_bytes(cur as nat, (n - i) as nat),
        decreases n - i,
    {
        let ghost before = out@;
        let ghost k = (n - i) as nat;
        let low: u8 = (cur % 256) as u8;
        let ghost rest = le_bytes(cur as nat / 256, (k - 1) as nat);
        assert(le_bytes(cur as nat, k) == seq![low] + rest);
        out.push(low);
        cur = cur / 256;
        i = i + 1;
        assert(target =~= out@ + rest);
    }
    assert(le_bytes(cur as nat, 0) =~= Seq::<u8>::empty());
    assert(out@ =~= target);
}

/// Reads the `k` bytes of `b` from `start` on as a little-endian number.
pub fn read_le(b: &[u8], start: usize, k: usize) -> (r: u64)
    requires
        k <= 8,
        start + k <= b@.len(),
    ensures
        r as nat == le_value(b@.subrange(start as int, start + k)),
{
    let len = b.len();
    assert(start + k <= len);
    let end = start + k;
    let mut acc: u64 = 0;
    let mut i: usize = end;
    proof {
        assert(b@.subrange(end as int, end as int) =~= Seq::<u8>::empty());
        lemma_pow256_mono(k as nat, 8);
        lemma_pow256_values();
    }
    while i > start
        invariant
            start <= i <= end,
            end == start + k,
            k <= 8,
            end <= b@.len(),
            acc as nat == le_value(b@.subrange(i as int, end as int)),
        decreases i,
    {
        let ghost tail = b@.subrange(i as int, end as int);
        let ghost s = b@.subrange(i - 1, end as int);
        proof {
            lemma_le_value_bound(tail);
            lemma_pow256_mono(tail.len(), 7);
            lemma_pow256_values();
            assert(s.drop_first() =~= tail);
        }
        acc = acc * 256 + b[i - 1] as u64;
        i = i - 1;
    }
    acc
}

/// The length-encoded form of `n`.
pub open spec fn lenenc_int(n: nat) -> Seq<u8> {
    if n < 251 {
        seq![n as u8]
    } else if n < 0x10000 {
        seq![0xFCu8] + le_bytes(n, 2)
    } else if n < 0x1000000 {
        seq![0xFDu8] + le_bytes(n, 3)
    } else {
        seq![0xFEu8] + le_bytes(n, 8)
    }
}

/// What a length-encoded integer at the start of `b` holds: its value and the
/// number of bytes it takes. `0xFB` (the NULL marker), `0xFF` and a cut-off
/// field hold no integer.
pub open spec fn lenenc_decode(b: Seq<u8>) -> Option<(u64, nat)> {
    if b.len() == 0 {
        None
    } else if b[0] <= 0xFA {
        Some((b[0] as u64, 1nat))
    } else if b[0] == 0xFC {
        if b.len() >= 3 {
            Some((le_value(b.subrange(1, 3)) as u64, 3nat))
        } else {
            None
        }
    } else if b[0] == 0xFD {
        if b.len() >= 4 {
            Some((le_value(b.subrange(1, 4)) as u64, 4nat))
        } else {
            None
        }
    } else if b[0] == 0xFE {
        if b.len() >= 9 {
            Some((le_value(b.subrange(1, 9)) as u64, 9nat))
        } else {
            None
        }
    } else {
        None
    }
}

/// The length-encoded form of a byte string: its length, then its bytes.
pub open spec fn lenenc_str(s: Seq<u8>) -> Seq<u8> {
    lenenc_int(s.len()) + s
}

/// Decoding the encoding of any 64-bit integer, whatever follows it, gives the
/// integer back and consumes exactly its encoding.
pub proof fn lemma_lenenc_round_trip(n: u64, rest: Seq<u8>)
    ensures
        lenenc_decode(lenenc_int(n as nat) + rest) == Some((n, lenenc_int(n as nat).len())),
{
    let e = lenenc_int(n as nat);
    let b = e + rest;
    lemma_pow256_values();
    if n < 251 {
    } else if n < 0x10000 {
        lemma_le_round_trip(n as nat, 2);
        assert(b.subrange(1, 3) =~= le_bytes(n as nat, 2));
    } else if n < 0x1000000 {
        lemma_le_round_trip(n as nat, 3);
        assert(b.subrange(1, 4) =~= le_bytes(n as nat, 3));
    } else {
        lemma_le_round_trip(n as nat, 8);
        assert(b.subrange(1, 9) =~= le_bytes(n as nat, 8));
    }
}

/// Appends the length-encoded form of `n`.
pub fn push_lenenc_int(out: &mut Vec<u8>, n: u64)
    ensures
        final(out)@ == old(out)@ + lenenc_int(n as nat),
{
    if n < 251 {
        out.push(n as u8);
        assert(out@ =~= old(out)@ + lenenc_int(n as nat));
    } else if n < 0x10000 {
        out.push(0xFC);
        push_le(out, n, 2);
        assert(out@ =~= old(out)@ + lenenc_int(n as nat));
    } else if n < 0x1000000 {
        out.push(0xFD);
        push_le(out, n, 3);
        assert(out@ =~= old(out)@ + lenenc_int(n as nat));
    } else {
        out.push(0xFE);
        push_le(out, n, 8);
        assert(out@ =~= old(out)@ + lenenc_int(n as nat));
    }
}

/// Appends all of `s`.
pub fn push_bytes(out: &mut Vec<u8>, s: &[u8])
    ensures
        final(out)@ == old(out)@ + s@,
{
    let mut i: usize = 0;
    while i < s.len()
        invariant
            i <= s@.len(),
            out@ == old(out)@ + s@.subrange(0, i as int),
        decreases s@.len() - i,
    {
        out.push(s[i]);
        i = i + 1;
        assert(out@ =~= old(out)@ + s@.subrange(0, i as int));
    }
    assert(s@.subrange(0, s@.len() as int) =~= s@);
}

/// Appends the length-encoded form of the byte string `s`.
pub fn push_lenenc_str(out: &mut Vec<u8>, s: &[u8])
    ensures
        final(out)@ == old(out)@ + lenenc_str(s@),
{
    push_lenenc_int(out, s.len() as u64);
    push_bytes(out, s);
    assert(out@ =~= old(out)@ + lenenc_str(s@));
}

/// Decodes the length-encoded integer at `pos` of `b`: its value and the
/// position after it.
pub fn read_lenenc_int(b: &[u8], pos: usize) -> (r: Option<(u64, usize)>)
    requires
        pos <= b@.len(),
    ensures
        match lenenc_decode(b@.subrange(pos as int, b@.len() as int)) {
            None => r is None,
            Some((v, k)) => r == Some((v, (pos + k) as usize)),
        },
{
    let ghost s = b@.subrange(pos as int, b@.len() as int);
    if pos >= b.len() {
        return None;
    }
    let first = b[pos];
    let avail = b.len() - pos;
    if first <= 0xFA {
        Some((first as u64, pos + 1))
    } else if first == 0xFC {
        if avail >= 3 {
            let v = read_le(b, pos + 1, 2);
            assert(s.subrange(1, 3) =~= b@.subrange(pos + 1, pos + 3));
            Some((v, pos + 3))
        } else {
            None
        }
    } else if first == 0xFD {
        if avail >= 4 {
            let v = read_le(b, pos + 1, 3);
            assert(s.subrange(1, 4) =~= b@.subrange(pos + 1, pos + 4));
            Some((v, pos + 4))
        } else {
            None
        }
    } else if first == 0xFE {
        if avail >= 9 {
            let v = read_le(b, pos + 1, 8);
            assert(s.subrange(1, 9) =~= b@.subrange(pos + 1, pos + 9));
            Some((v, pos + 9))
        } else {
            None
        }
    } else {
        None
    }
}

} // verus!
