//! Prepared statements: their server-side state and the decoding of the
//! parameters an EXECUTE carries.
use vstd::prelude::*;
use crate::codec::{lenenc_decode, push_bytes};
use crate::protocol::{ColumnType, code_type};
use crate::value::{Value, decodes_as, int_width, is_bytes_type, read_binary_value};

verus! {

/// The server's state of one prepared statement.
pub struct StatementData {
    /// Bytes sent ahead of execution with SEND_LONG_DATA, by parameter index.
    pub long_data: Vec<(u16, Vec<u8>)>,
    /// The parameter types of the last EXECUTE that sent them, and whether each is unsigned.
    pub bound_types: Vec<(ColumnType, bool)>,
    /// The number of parameters.
    pub params: u16,
}

/// A decoded parameter: its value and the type the client declared for it.
#[derive(Clone, Debug, PartialEq, Eq)]
pub struct ParamValue {
    pub value: Value,
    pub coltype: ColumnType,
}

/// Why the parameters of an EXECUTE could not be decoded.
#[derive(Clone, Copy, Debug, PartialEq, Eq, Structural)]
pub enum ParamError {
    /// No parameter types were sent, now or by an earlier EXECUTE.
    MissingTypes,
    /// The payload is cut short or holds a value its type does not allow.
    Malformed,
}

/// The bytes sent ahead for parameter `k`: those of the first entry for it.
pub open spec fn long_lookup(s: Seq<(u16, Vec<u8>)>, k: u16) -> Option<Seq<u8>>
    decreases s.len(),
{
    if s.len() == 0 {
        None
    } else if s[0].0 == k {
        Some(s[0].1@)
    } else {
        long_lookup(s.drop_first(), k)
    }
}

/// The first entry for `k` decides what is found for it.
pub proof fn lemma_long_lookup_first(s: Seq<(u16, Vec<u8>)>, k: u16, j: int)
    requires
        0 <= j < s.len(),
        s[j].0 == k,
        forall|i: int| 0 <= i < j ==> s[i].0 != k,
    ensures
        long_lookup(s, k) == Some(s[j].1@),
    decreases j,
{
    if j > 0 {
        lemma_long_lookup_first(s.drop_first(), k, j - 1);
    }
}

/// Adds `data` to the bytes sent ahead for parameter `k`.
pub fn append_long_data(long: &mut Vec<(u16, Vec<u8>)>, k: u16, data: &[u8])
    ensures
        long_lookup(final(long)@, k) == Some(
            match long_lookup(old(long)@, k) {
                Some(b) => b + data@,
                None => data@,
            },
        ),
        forall|q: u16| q != k ==> long_lookup(final(long)@, q) == long_lookup(old(long)@, q),
{
    match find_long(long, k) {
        Some(j) => {
            let (key, mut bytes) = long.remove(j);
            push_bytes(&mut bytes, data);
            long.insert(j, (key, bytes));
            proof {
                lemma_long_lookup_first(long@, k, j as int);
                assert forall|q: u16| q != k implies long_lookup(long@, q) == long_lookup(old(long)@, q) by {
                    lemma_lookup_same_keys(old(long)@, long@, q);
                }
            }
        },
        None => {
            let mut bytes: Vec<u8> = Vec::new();
            push_bytes(&mut bytes, data);
            long.push((k, bytes));
            proof {
                lemma_lookup_push(old(long)@, (k, bytes), k);
                assert forall|q: u16| q != k implies long_lookup(long@, q) == long_lookup(old(long)@, q) by {
                    lemma_lookup_push(old(long)@, (k, bytes), q);
                }
            }
        },
    }
}

proof fn lemma_lookup_push(s: Seq<(u16, Vec<u8>)>, e: (u16, Vec<u8>), q: u16)
    ensures
        long_lookup(s.push(e), q) == match long_lookup(s, q) {
            Some(b) => Some(b),
            None => if e.0 == q { Some(e.1@) } else { None },
        },
    decreases s.len(),
{
    if s.len() > 0 {
        assert(s.push(e).drop_first() =~= s.drop_first().push(e));
        assert(s.push(e)[0] == s[0]);
        lemma_lookup_push(s.drop_first(), e, q);
    } else {
        assert(s.push(e).drop_first() =~= Seq::<(u16, Vec<u8>)>::empty());
        assert(s.push(e)[0] == e);
        assert(long_lookup(Seq::<(u16, Vec<u8>)>::empty(), q) is None);
    }
}

proof fn lemma_lookup_same_keys(a: Seq<(u16, Vec<u8>)>, b: Seq<(u16, Vec<u8>)>, q: u16)
    requires
        a.len() == b.len(),
        forall|i: int| 0 <= i < a.len() ==> a[i].0 == b[i].0,
        forall|i: int| 0 <= i < a.len() && a[i].0 == q ==> a[i] == b[i],
    ensures
        long_lookup(a, q) == long_lookup(b, q),
    decreases a.len(),
{
    if a.len() > 0 {
        lemma_lookup_same_keys(a.drop_first(), b.drop_first(), q);
    }
}

/// Two to the power `k`, for a bit of a byte.
pub open spec fn bit_weight(k: nat) -> nat {
    if k == 0 { 1 } else if k == 1 { 2 } else if k == 2 { 4 } else if k == 3 { 8 }
    else if k == 4 { 16 } else if k == 5 { 32 } else if k == 6 { 64 } else { 128 }
}

/// Whether bit `i` of the bitmap `m` (least significant bit of each byte first) is set.
pub open spec fn bit_set(m: Seq<u8>, i: nat) -> bool {
    (m[(i / 8) as int] as nat / bit_weight(i % 8)) % 2 == 1
}

/// The number of bytes the binary value of type `t` at the start of `b` takes.
pub open spec fn value_len(t: ColumnType, b: Seq<u8>) -> nat {
    if t == ColumnType::MYSQL_TYPE_NULL {
        0
    } else if int_width(t) > 0 {
        int_width(t)
    } else if t == ColumnType::MYSQL_TYPE_DOUBLE {
        8
    } else if t == ColumnType::MYSQL_TYPE_FLOAT {
        4
    } else if is_bytes_type(t) {
        match lenenc_decode(b) {
            Some((n, h)) => (h + n) as nat,
            None => 0,
        }
    } else if b.len() >= 1 {
        (1 + b[0]) as nat
    } else {
        0
    }
}

/// Whether the type table that the EXECUTE payload `p` sends for `n`
/// parameters from `at` on is complete and names known types only.
pub open spec fn sent_types_ok(p: Seq<u8>, at: int, n: nat) -> bool {
    &&& p.len() >= at + 2 * n
    &&& forall|i: int| 0 <= i < n ==> (#[trigger] code_type(p[at + 2 * i])) is Some
}

/// The types that the EXECUTE payload `p` sends for `n` parameters from `at` on.
pub open spec fn sent_types(p: Seq<u8>, at: int, n: nat) -> Seq<(ColumnType, bool)> {
    Seq::new(n, |i: int| (code_type(p[at + 2 * i])->0, p[at + 2 * i + 1] >= 0x80))
}

/// How the EXECUTE payload `p` of a statement with `n > 0` parameters lays
/// out: the types in force, whether `p` sent them, and where the values start.
pub open spec fn layout(p: Seq<u8>, n: nat, bound: Seq<(ColumnType, bool)>) -> Result<(Seq<(ColumnType, bool)>, bool, nat), ParamError> {
    let nb = (n + 7) / 8;
    if p.len() < nb + 1 {
        Err(ParamError::Malformed)
    } else if p[nb as int] == 1 {
        if sent_types_ok(p, nb + 1 as int, n) {
            Ok((sent_types(p, nb + 1 as int, n), true, nb + 1 + 2 * n))
        } else {
            Err(ParamError::Malformed)
        }
    } else if bound.len() < n {
        Err(ParamError::MissingTypes)
    } else {
        Ok((bound, false, nb + 1))
    }
}

/// Whether parameter `i` takes no bytes of the value area: it is NULL, or was sent ahead.
pub open spec fn skipped(p: Seq<u8>, long: Seq<(u16, Vec<u8>)>, i: nat) -> bool {
    bit_set(p, i) || long_lookup(long, i as u16) is Some
}

/// Where the value of parameter `i` starts.
pub open spec fn offset(p: Seq<u8>, types: Seq<(ColumnType, bool)>, long: Seq<(u16, Vec<u8>)>, start: nat, i: nat) -> nat
    decreases i,
{
    if i == 0 {
        start
    } else {
        let o = offset(p, types, long, start, (i - 1) as nat);
        if skipped(p, long, (i - 1) as nat) {
            o
        } else {
            o + value_len(types[i - 1].0, p.skip(o as int))
        }
    }
}

/// Whether `v` is parameter `i`: NULL where its bit is set, else the bytes sent
/// ahead for it, else the value its type decodes at its offset.
pub open spec fn param_is(p: Seq<u8>, types: Seq<(ColumnType, bool)>, long: Seq<(u16, Vec<u8>)>, start: nat, i: nat, v: ParamValue) -> bool {
    &&& v.coltype == types[i as int].0
    &&& if bit_set(p, i) {
        v.value == Value::Null
    } else if long_lookup(long, i as u16) is Some {
        v.value matches Value::Bytes(b) && b@ == long_lookup(long, i as u16)->0
    } else {
        let o = offset(p, types, long, start, i);
        o <= p.len() && decodes_as(types[i as int].0, types[i as int].1, p.skip(o as int), v.value, value_len(types[i as int].0, p.skip(o as int)))
    }
}

/// A decoded parameter is NULL exactly where its bit in the NULL bitmap is
/// set, unless its declared type is NULL itself.
pub proof fn lemma_null_bit_iff_null(
    p: Seq<u8>,
    types: Seq<(ColumnType, bool)>,
    long: Seq<(u16, Vec<u8>)>,
    start: nat,
    i: nat,
    v: ParamValue,
)
    requires
        param_is(p, types, long, start, i, v),
        types[i as int].0 != ColumnType::MYSQL_TYPE_NULL,
    ensures
        bit_set(p, i) <==> v.value == Value::Null,
{
}

/// Whether parameter `i` can be decoded.
pub open spec fn param_ok(p: Seq<u8>, types: Seq<(ColumnType, bool)>, long: Seq<(u16, Vec<u8>)>, start: nat, i: nat) -> bool {
    skipped(p, long, i) || {
        let o = offset(p, types, long, start, i);
        o <= p.len() && exists|v: Value| decodes_as(types[i as int].0, types[i as int].1, p.skip(o as int), v, value_len(types[i as int].0, p.skip(o as int)))
    }
}

/// Reads bit `i` of the bitmap at the start of `p`.
fn null_bit(p: &[u8], i: usize) -> (r: bool)
    requires
        i / 8 < p@.len(),
    ensures
        r == bit_set(p@, i as nat),
{
    let k = i % 8;
    let w: u8 = if k == 0 { 1 } else if k == 1 { 2 } else if k == 2 { 4 } else if k == 3 { 8 }
        else if k == 4 { 16 } else if k == 5 { 32 } else if k == 6 { 64 } else { 128 };
    (p[i / 8] / w) % 2 == 1
}

/// Finds the bytes sent ahead for parameter `k`.
pub fn find_long(long: &Vec<(u16, Vec<u8>)>, k: u16) -> (r: Option<usize>)
    ensures
        match long_lookup(long@, k) {
            None => r is None,
            Some(b) => r matches Some(j) && j < long@.len() && long@[j as int].1@ == b && long@[j as int].0 == k
                && forall|i: int| 0 <= i < j ==> long@[i].0 != k,
        },
{
    let mut j: usize = 0;
    assert(long@.skip(0) =~= long@);
    while j < long.len()
        invariant
            j <= long@.len(),
            long_lookup(long@, k) == long_lookup(long@.skip(j as int), k),
            forall|i: int| 0 <= i < j ==> long@[i].0 != k,
        decreases long@.len() - j,
    {
        assert(long@.skip(j as int).drop_first() =~= long@.skip(j + 1));
        if long[j].0 == k {
            return Some(j);
        }
        j = j + 1;
    }
    None
}

/// Decodes the parameters of an EXECUTE with payload `p` (what follows the
/// iteration count) of a statement with `n` parameters, given the types bound
/// before and the bytes sent ahead. Returns the values, in order, and the types
/// the payload sent, if it sent any.
pub fn parse_params(p: &[u8], n: u16, bound: &Vec<(ColumnType, bool)>, long: &Vec<(u16, Vec<u8>)>) -> (r: Result<(Vec<ParamValue>, Option<Vec<(ColumnType, bool)>>), ParamError>)
    ensures
        n == 0 ==> (r matches Ok((vals, sent)) && vals@.len() == 0 && sent is None),
        n > 0 ==> match layout(p@, n as nat, bound@) {
            Err(e) => r == Err::<(Vec<ParamValue>, Option<Vec<(ColumnType, bool)>>), ParamError>(e),
            Ok((types, was_sent, start)) => {
                &&& r is Ok <==> forall|i: nat| i < n ==> #[trigger] param_ok(p@, types, long@, start, i)
                &&& r matches Ok((vals, sent)) ==> {
                    &&& vals@.len() == n
                    &&& forall|i: nat| i < n ==> #[trigger] param_is(p@, types, long@, start, i, vals@[i as int])
                    &&& was_sent <==> sent is Some
                    &&& sent matches Some(ts) ==> ts@ == types
                }
            },
        },
{
    if n == 0 {
        return Ok((Vec::new(), None));
    }
    let nn = n as usize;
    let nb = (nn + 7) / 8;
    if p.len() < nb + 1 {
        return Err(ParamError::Malformed);
    }
    let mut types: Vec<(ColumnType, bool)> = Vec::new();
    let sent_now = p[nb] == 1;
    let start: usize;
    if sent_now {
        if p.len() - (nb + 1) < 2 * nn {
            return Err(ParamError::Malformed);
        }
        let mut i: usize = 0;
        while i < nn
            invariant
                i <= nn,
                nn == n,
                nb == (nn + 7) / 8,
                p@.len() >= nb + 1 + 2 * nn,
                p@[nb as int] == 1,
                types@.len() == i,
                forall|j: int| 0 <= j < i ==> (#[trigger] code_type(p@[nb + 1 + 2 * j])) is Some,
                forall|j: int| 0 <= j < i ==> #[trigger] types@[j] == sent_types(p@, nb + 1 as int, n as nat)[j],
            decreases nn - i,
        {
            match ColumnType::from_code(p[nb + 1 + 2 * i]) {
                None => {
                    assert(!(code_type(p@[nb + 1 + 2 * i]) is Some));
                    assert(!sent_types_ok(p@, nb + 1 as int, n as nat));
                    assert(layout(p@, n as nat, bound@) == Err::<(Seq<(ColumnType, bool)>, bool, nat), ParamError>(ParamError::Malformed));
                    return Err(ParamError::Malformed);
                },
                Some(t) => {
                    types.push((t, p[nb + 2 + 2 * i] >= 0x80));
                },
            }
            i = i + 1;
        }
        assert(types@ =~= sent_types(p@, nb + 1 as int, n as nat));
        start = nb + 1 + 2 * nn;
    } else {
        if bound.len() < nn {
            return Err(ParamError::MissingTypes);
        }
        let mut i: usize = 0;
        while i < bound.len()
            invariant
                i <= bound@.len(),
                types@ == bound@.take(i as int),
            decreases bound@.len() - i,
        {
            types.push(bound[i]);
            i = i + 1;
            assert(types@ =~= bound@.take(i as int));
        }
        assert(types@ =~= bound@);
        start = nb + 1;
    }
    let ghost tys = types@;
    assert(layout(p@, n as nat, bound@) == Ok::<(Seq<(ColumnType, bool)>, bool, nat), ParamError>((tys, sent_now, start as nat)));
    let mut vals: Vec<ParamValue> = Vec::new();
    let mut pos: usize = start;
    let mut i: usize = 0;
    while i < nn
        invariant
            i <= nn,
            nn == n,
            nb == (nn + 7) / 8,
            nb < p@.len(),
            types@ == tys,
            tys.len() >= nn,
            layout(p@, n as nat, bound@) == Ok::<(Seq<(ColumnType, bool)>, bool, nat), ParamError>((tys, sent_now, start as nat)),
            pos <= p@.len(),
            pos as nat == offset(p@, tys, long@, start as nat, i as nat),
            vals@.len() == i,
            forall|j: nat| j < i ==> #[trigger] param_ok(p@, tys, long@, start as nat, j),
            forall|j: nat| j < i ==> #[trigger] param_is(p@, tys, long@, start as nat, j, vals@[j as int]),
        decreases nn - i,
    {
        let (t, unsigned) = types[i];
        proof {
            assert(i / 8 < nb) by (nonlinear_arith)
                requires
                    i < nn,
                    nb == (nn + 7) / 8,
            ;
        }
        if null_bit(p, i) {
            vals.push(ParamValue { value: Value::Null, coltype: t });
        } else {
            match find_long(long, i as u16) {
                Some(j) => {
                    let mut b: Vec<u8> = Vec::new();
                    push_bytes(&mut b, long[j].1.as_slice());
                    vals.push(ParamValue { value: Value::Bytes(b), coltype: t });
                },
                None => {
                    match read_binary_value(p, pos, t, unsigned) {
                        None => {
                            assert(!param_ok(p@, tys, long@, start as nat, i as nat));
                            let ghost lay = layout(p@, n as nat, bound@);
                            assert(lay is Ok);
                            assert(lay->Ok_0.0 == tys);
                            assert(lay->Ok_0.2 == start as nat);
                            assert(!(forall|i: nat| i < n ==> #[trigger] param_ok(p@, lay->Ok_0.0, long@, lay->Ok_0.2, i)));
                            return Err(ParamError::Malformed);
                        },
                        Some((v, q)) => {
                            proof {
                                lemma_value_len(t, unsigned, p@.skip(pos as int), v, (q - pos) as nat);
                            }
                            vals.push(ParamValue { value: v, coltype: t });
                            pos = q;
                        },
                    }
                },
            }
        }
        proof {
            assert(vals@[i as int] == vals@.last());
            assert forall|j: nat| j < i + 1 implies #[trigger] param_is(p@, tys, long@, start as nat, j, vals@[j as int]) by {
                if j < i {
                    assert(param_is(p@, tys, long@, start as nat, j, vals@[j as int]));
                }
            }
        }
        i = i + 1;
    }
    let sent = if sent_now { Some(types) } else { None };
    Ok((vals, sent))
}

/// A value that decodes takes the bytes `value_len` counts.
proof fn lemma_value_len(t: ColumnType, unsigned: bool, b: Seq<u8>, v: Value, k: nat)
    requires
        decodes_as(t, unsigned, b, v, k),
    ensures
        k == value_len(t, b),
{
}

} // verus!
