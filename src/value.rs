//! The values that cross the wire, and their binary-protocol encodings.
use vstd::prelude::*;
use crate::codec::{le_bytes, le_value, lenenc_str, lenenc_decode, pow256, push_le, push_lenenc_str, read_le, read_lenenc_int, lemma_pow256_values, lemma_le_value_bound};
use crate::packet::slice_range;
use crate::protocol::ColumnType;

verus! {

/// A value as it crosses the wire.
#[derive(Clone, Debug, PartialEq, Eq)]
pub enum Value {
    Null,
    /// A signed integer.
    Int(i64),
    /// An unsigned integer.
    UInt(u64),
    /// A double, by its IEEE-754 bits.
    Double(u64),
    /// A float, by its IEEE-754 bits.
    Float(u32),
    /// A string, a blob or a decimal, as bytes.
    Bytes(Vec<u8>),
    /// A date and time of day.
    Date { year: u16, month: u8, day: u8, hour: u8, minute: u8, second: u8, micros: u32 },
    /// A time span.
    Time { negative: bool, days: u32, hours: u8, minutes: u8, seconds: u8, micros: u32 },
}

/// The width of the fixed-size integer encoding of `t`, or 0 where `t` is no integer type.
pub open spec fn int_width(t: ColumnType) -> nat {
    match t {
        ColumnType::MYSQL_TYPE_TINY => 1,
        ColumnType::MYSQL_TYPE_SHORT | ColumnType::MYSQL_TYPE_YEAR => 2,
        ColumnType::MYSQL_TYPE_LONG | ColumnType::MYSQL_TYPE_INT24 => 4,
        ColumnType::MYSQL_TYPE_LONGLONG => 8,
        _ => 0,
    }
}

/// Whether values of `t` travel as length-encoded byte strings.
pub open spec fn is_bytes_type(t: ColumnType) -> bool {
    match t {
        ColumnType::MYSQL_TYPE_DECIMAL | ColumnType::MYSQL_TYPE_NEWDECIMAL
        | ColumnType::MYSQL_TYPE_VARCHAR | ColumnType::MYSQL_TYPE_VAR_STRING
        | ColumnType::MYSQL_TYPE_STRING | ColumnType::MYSQL_TYPE_BIT | ColumnType::MYSQL_TYPE_JSON
        | ColumnType::MYSQL_TYPE_ENUM | ColumnType::MYSQL_TYPE_SET
        | ColumnType::MYSQL_TYPE_TINY_BLOB | ColumnType::MYSQL_TYPE_MEDIUM_BLOB
        | ColumnType::MYSQL_TYPE_LONG_BLOB | ColumnType::MYSQL_TYPE_BLOB
        | ColumnType::MYSQL_TYPE_GEOMETRY => true,
        _ => false,
    }
}

/// Whether values of `t` travel as a packed date and time.
pub open spec fn is_date_type(t: ColumnType) -> bool {
    match t {
        ColumnType::MYSQL_TYPE_DATE | ColumnType::MYSQL_TYPE_DATETIME
        | ColumnType::MYSQL_TYPE_TIMESTAMP => true,
        _ => false,
    }
}

/// The signed number that the `k` bytes `b` spell in two's complement.
pub open spec fn signed_value(b: Seq<u8>) -> int {
    let u = le_value(b);
    if u >= pow256(b.len()) / 2 {
        u - pow256(b.len())
    } else {
        u as int
    }
}

/// The `k`-byte two's complement form of `v`.
pub open spec fn twos(v: int, k: nat) -> nat {
    if v < 0 {
        (v + pow256(k)) as nat
    } else {
        v as nat
    }
}

/// Whether `v` fits a `k`-byte integer, unsigned or signed.
pub open spec fn fits(v: int, k: nat, unsigned: bool) -> bool {
    if unsigned {
        0 <= v < pow256(k)
    } else {
        -(pow256(k) / 2) <= v < pow256(k) / 2
    }
}

/// The packed binary form of a date.
pub open spec fn date_bytes(year: u16, month: u8, day: u8, hour: u8, minute: u8, second: u8, micros: u32) -> Seq<u8> {
    let ymd = le_bytes(year as nat, 2) + seq![month, day];
    if micros != 0 {
        seq![11u8] + ymd + seq![hour, minute, second] + le_bytes(micros as nat, 4)
    } else if hour != 0 || minute != 0 || second != 0 {
        seq![7u8] + ymd + seq![hour, minute, second]
    } else if year != 0 || month != 0 || day != 0 {
        seq![4u8] + ymd
    } else {
        seq![0u8]
    }
}

/// The packed binary form of a time span.
pub open spec fn time_bytes(negative: bool, days: u32, hours: u8, minutes: u8, seconds: u8, micros: u32) -> Seq<u8> {
    let body = seq![if negative { 1u8 } else { 0u8 }] + le_bytes(days as nat, 4) + seq![hours, minutes, seconds];
    if micros != 0 {
        seq![12u8] + body + le_bytes(micros as nat, 4)
    } else if negative || days != 0 || hours != 0 || minutes != 0 || seconds != 0 {
        seq![8u8] + body
    } else {
        seq![0u8]
    }
}

/// The binary-protocol form of the non-NULL value `v` in a column of type `t`
/// (unsigned or not); `None` where `v` cannot be written there without loss.
pub open spec fn binary_value(t: ColumnType, unsigned: bool, v: Value) -> Option<Seq<u8>> {
    match v {
        Value::Null => None,
        Value::Int(i) => if int_width(t) > 0 && fits(i as int, int_width(t), unsigned) {
            Some(le_bytes(twos(i as int, int_width(t)), int_width(t)))
        } else {
            None
        },
        Value::UInt(u) => if int_width(t) > 0 && fits(u as int, int_width(t), unsigned) {
            Some(le_bytes(u as nat, int_width(t)))
        } else {
            None
        },
        Value::Double(bits) => if t == ColumnType::MYSQL_TYPE_DOUBLE {
            Some(le_bytes(bits as nat, 8))
        } else {
            None
        },
        Value::Float(bits) => if t == ColumnType::MYSQL_TYPE_FLOAT {
            Some(le_bytes(bits as nat, 4))
        } else {
            None
        },
        Value::Bytes(b) => if is_bytes_type(t) {
            Some(lenenc_str(b@))
        } else {
            None
        },
        Value::Date { year, month, day, hour, minute, second, micros } => if is_date_type(t) {
            Some(date_bytes(year, month, day, hour, minute, second, micros))
        } else {
            None
        },
        Value::Time { negative, days, hours, minutes, seconds, micros } => if t
            == ColumnType::MYSQL_TYPE_TIME {
            Some(time_bytes(negative, days, hours, minutes, seconds, micros))
        } else {
            None
        },
    }
}

/// The decimal digits of `n`.
pub open spec fn decimal(n: nat) -> Seq<u8>
    decreases n,
{
    if n < 10 {
        seq![(48 + n) as u8]
    } else {
        decimal(n / 10).push((48 + n % 10) as u8)
    }
}

/// The last `w` decimal digits of `n`, with leading zeros.
pub open spec fn padded(n: nat, w: nat) -> Seq<u8>
    decreases w,
{
    if w == 0 {
        Seq::empty()
    } else {
        padded(n / 10, (w - 1) as nat).push((48 + n % 10) as u8)
    }
}

/// The ISO-8601 rendering of a date and time of day: the time of day is left
/// out where it is midnight, the fraction where it is zero.
pub open spec fn date_text(year: u16, month: u8, day: u8, hour: u8, minute: u8, second: u8, micros: u32) -> Seq<u8> {
    let d = padded(year as nat, 4) + seq![0x2Du8] + padded(month as nat, 2) + seq![0x2Du8] + padded(day as nat, 2);
    let t = seq![0x20u8] + padded(hour as nat, 2) + seq![0x3Au8] + padded(minute as nat, 2) + seq![0x3Au8] + padded(second as nat, 2);
    if micros != 0 {
        d + t + seq![0x2Eu8] + padded(micros as nat, 6)
    } else if hour != 0 || minute != 0 || second != 0 {
        d + t
    } else {
        d
    }
}

/// The rendering of a time span as hours, minutes and seconds, the hours
/// counting the days, with the fraction where it is not zero.
pub open spec fn time_text(negative: bool, days: u32, hours: u8, minutes: u8, seconds: u8, micros: u32) -> Seq<u8> {
    let h = days as nat * 24 + hours as nat;
    let sign = if negative { seq![0x2Du8] } else { Seq::empty() };
    let hh = if h < 10 { seq![0x30u8] + decimal(h) } else { decimal(h) };
    let base = sign + hh + seq![0x3Au8] + padded(minutes as nat, 2) + seq![0x3Au8] + padded(seconds as nat, 2);
    if micros != 0 {
        base + seq![0x2Eu8] + padded(micros as nat, 6)
    } else {
        base
    }
}

/// The text-protocol form of `v`: NULL as `0xFB`, anything else as a
/// length-encoded string of its rendering; `None` for floating-point values,
/// which travel in text as strings the backend renders.
pub open spec fn text_value(v: Value) -> Option<Seq<u8>> {
    match v {
        Value::Null => Some(seq![0xFBu8]),
        Value::Int(i) => Some(lenenc_str(if i < 0 { seq![0x2Du8] + decimal((-i) as nat) } else { decimal(i as nat) })),
        Value::UInt(u) => Some(lenenc_str(decimal(u as nat))),
        Value::Double(_) => None,
        Value::Float(_) => None,
        Value::Bytes(b) => Some(lenenc_str(b@)),
        Value::Date { year, month, day, hour, minute, second, micros } => Some(lenenc_str(date_text(year, month, day, hour, minute, second, micros))),
        Value::Time { negative, days, hours, minutes, seconds, micros } => Some(lenenc_str(time_text(negative, days, hours, minutes, seconds, micros))),
    }
}

/// Appends the decimal digits of `n`.
pub fn push_decimal(out: &mut Vec<u8>, n: u64)
    ensures
        final(out)@ == old(out)@ + decimal(n as nat),
    decreases n,
{
    if n >= 10 {
        push_decimal(out, n / 10);
    }
    out.push((48 + n % 10) as u8);
    assert(out@ =~= old(out)@ + decimal(n as nat));
}

/// Appends the last `w` decimal digits of `n`, with leading zeros.
pub fn push_padded(out: &mut Vec<u8>, n: u64, w: usize)
    ensures
        final(out)@ == old(out)@ + padded(n as nat, w as nat),
    decreases w,
{
    if w > 0 {
        push_padded(out, n / 10, w - 1);
        out.push((48 + n % 10) as u8);
    }
    assert(out@ =~= old(out)@ + padded(n as nat, w as nat));
}

/// Appends the text-protocol form of `v`; `false`, and nothing appended, where
/// it has none.
pub fn write_text_value(out: &mut Vec<u8>, v: &Value) -> (r: bool)
    ensures
        match text_value(*v) {
            Some(bs) => r && final(out)@ == old(out)@ + bs,
            None => !r && final(out)@ == old(out)@,
        },
{
    let mut body: Vec<u8> = Vec::new();
    match v {
        Value::Null => {
            out.push(0xFB);
            assert(out@ =~= old(out)@ + seq![0xFBu8]);
            return true;
        },
        Value::Double(_) => {
            return false;
        },
        Value::Float(_) => {
            return false;
        },
        Value::Int(i) => {
            if *i < 0 {
                body.push(0x2D);
                let m: u64 = if *i == i64::MIN { 0x8000_0000_0000_0000 } else { (-*i) as u64 };
                push_decimal(&mut body, m);
            } else {
                push_decimal(&mut body, *i as u64);
            }
        },
        Value::UInt(u) => {
            push_decimal(&mut body, *u);
        },
        Value::Bytes(b) => {
            crate::codec::push_bytes(&mut body, b.as_slice());
        },
        Value::Date { year, month, day, hour, minute, second, micros } => {
            push_padded(&mut body, *year as u64, 4);
            body.push(0x2D);
            push_padded(&mut body, *month as u64, 2);
            body.push(0x2D);
            push_padded(&mut body, *day as u64, 2);
            if *micros != 0 || *hour != 0 || *minute != 0 || *second != 0 {
                body.push(0x20);
                push_padded(&mut body, *hour as u64, 2);
                body.push(0x3A);
                push_padded(&mut body, *minute as u64, 2);
                body.push(0x3A);
                push_padded(&mut body, *second as u64, 2);
                if *micros != 0 {
                    body.push(0x2E);
                    push_padded(&mut body, *micros as u64, 6);
                }
            }
            assert(body@ =~= date_text(*year, *month, *day, *hour, *minute, *second, *micros));
        },
        Value::Time { negative, days, hours, minutes, seconds, micros } => {
            if *negative {
                body.push(0x2D);
            }
            let h: u64 = *days as u64 * 24 + *hours as u64;
            if h < 10 {
                body.push(0x30);
            }
            push_decimal(&mut body, h);
            body.push(0x3A);
            push_padded(&mut body, *minutes as u64, 2);
            body.push(0x3A);
            push_padded(&mut body, *seconds as u64, 2);
            if *micros != 0 {
                body.push(0x2E);
                push_padded(&mut body, *micros as u64, 6);
            }
            assert(body@ =~= time_text(*negative, *days, *hours, *minutes, *seconds, *micros));
        },
    }
    push_lenenc_str(out, body.as_slice());
    true
}

/// The field at `i` of `b`, or 0 past the end of a field of length `l`.
pub open spec fn byte_or_zero(b: Seq<u8>, i: int, l: int) -> u8 {
    if i <= l { b[i] } else { 0 }
}

/// Whether the start of `b` holds the binary-protocol value `v` of type `t`
/// (unsigned or not), `k` bytes long.
pub open spec fn decodes_as(t: ColumnType, unsigned: bool, b: Seq<u8>, v: Value, k: nat) -> bool {
    if t == ColumnType::MYSQL_TYPE_NULL {
        v == Value::Null && k == 0
    } else if int_width(t) > 0 {
        let w = int_width(t);
        &&& b.len() >= w
        &&& k == w
        &&& if unsigned {
            v == Value::UInt(le_value(b.take(w as int)) as u64)
        } else {
            v == Value::Int(signed_value(b.take(w as int)) as i64)
        }
    } else if t == ColumnType::MYSQL_TYPE_DOUBLE {
        b.len() >= 8 && k == 8 && v == Value::Double(le_value(b.take(8)) as u64)
    } else if t == ColumnType::MYSQL_TYPE_FLOAT {
        b.len() >= 4 && k == 4 && v == Value::Float(le_value(b.take(4)) as u32)
    } else if is_bytes_type(t) {
        match lenenc_decode(b) {
            Some((n, h)) => {
                &&& b.len() >= h + n
                &&& k == h + n
                &&& v matches Value::Bytes(bs)
                &&& bs@ == b.subrange(h as int, h + n)
            },
            None => false,
        }
    } else if is_date_type(t) {
        &&& b.len() >= 1
        &&& (b[0] == 0 || b[0] == 4 || b[0] == 7 || b[0] == 11)
        &&& b.len() >= 1 + b[0]
        &&& k == 1 + b[0]
        &&& v == Value::Date {
            year: if b[0] >= 4 { le_value(b.subrange(1, 3)) as u16 } else { 0 },
            month: byte_or_zero(b, 3, b[0] as int),
            day: byte_or_zero(b, 4, b[0] as int),
            hour: byte_or_zero(b, 5, b[0] as int),
            minute: byte_or_zero(b, 6, b[0] as int),
            second: byte_or_zero(b, 7, b[0] as int),
            micros: if b[0] == 11 { le_value(b.subrange(8, 12)) as u32 } else { 0 },
        }
    } else if t == ColumnType::MYSQL_TYPE_TIME {
        &&& b.len() >= 1
        &&& (b[0] == 0 || b[0] == 8 || b[0] == 12)
        &&& b.len() >= 1 + b[0]
        &&& k == 1 + b[0]
        &&& v == Value::Time {
            negative: b[0] >= 8 && b[1] == 1,
            days: if b[0] >= 8 { le_value(b.subrange(2, 6)) as u32 } else { 0 },
            hours: byte_or_zero(b, 6, b[0] as int),
            minutes: byte_or_zero(b, 7, b[0] as int),
            seconds: byte_or_zero(b, 8, b[0] as int),
            micros: if b[0] == 12 { le_value(b.subrange(9, 13)) as u32 } else { 0 },
        }
    } else {
        false
    }
}

/// Reads the `w`-byte little-endian integer at `pos` of `b`, as unsigned
/// or in two's complement.
fn read_int(b: &[u8], pos: usize, w: usize, unsigned: bool) -> (r: Value)
    requires
        w == 1 || w == 2 || w == 4 || w == 8,
        pos + w <= b@.len(),
    ensures
        unsigned ==> r == Value::UInt(le_value(b@.skip(pos as int).take(w as int)) as u64),
        !unsigned ==> r == Value::Int(signed_value(b@.skip(pos as int).take(w as int)) as i64),
{
    let u = read_le(b, pos, w);
    let ghost field = b@.skip(pos as int).take(w as int);
    proof {
        assert(field =~= b@.subrange(pos as int, pos + w));
        lemma_le_value_bound(field);
        lemma_pow256_values();
        reveal_with_fuel(pow256, 2);
    }
    if unsigned {
        return Value::UInt(u);
    }
    let h = half_range(w);
    let top: u64 = if w == 8 { u64::MAX } else { 2 * h - 1 };
    if u >= h {
        Value::Int(-((top - u) as i64) - 1)
    } else {
        Value::Int(u as i64)
    }
}

/// Reads `w` bytes at `pos` of `b` as a little-endian number.
fn read_le_at(b: &[u8], pos: usize, w: usize) -> (r: u64)
    requires
        w <= 8,
        pos + w <= b@.len(),
    ensures
        r as nat == le_value(b@.subrange(pos as int, pos + w)),
{
    read_le(b, pos, w)
}

/// Reads the binary-protocol value of type `t` (unsigned or not) at `pos` of
/// `b`: the value and the position after it; `None` where no such value is there.
pub fn read_binary_value(b: &[u8], pos: usize, t: ColumnType, unsigned: bool) -> (r: Option<(Value, usize)>)
    requires
        pos <= b@.len(),
    ensures
        r matches Some((v, p)) ==> pos <= p <= b@.len() && decodes_as(t, unsigned, b@.skip(pos as int), v, (p - pos) as nat),
        r is None ==> forall|v: Value, k: nat| !#[trigger] decodes_as(t, unsigned, b@.skip(pos as int), v, k),
{
    let ghost s = b@.skip(pos as int);
    let avail = b.len() - pos;
    if t == ColumnType::MYSQL_TYPE_NULL {
        return Some((Value::Null, pos));
    }
    let w = int_width_of(t);
    if w > 0 {
        if avail < w {
            return None;
        }
        let v = read_int(b, pos, w, unsigned);
        return Some((v, pos + w));
    }
    if t == ColumnType::MYSQL_TYPE_DOUBLE {
        if avail < 8 {
            return None;
        }
        let u = read_le_at(b, pos, 8);
        assert(s.take(8) =~= b@.subrange(pos as int, pos + 8));
        return Some((Value::Double(u), pos + 8));
    }
    if t == ColumnType::MYSQL_TYPE_FLOAT {
        if avail < 4 {
            return None;
        }
        let u = read_le_at(b, pos, 4);
        proof {
            assert(s.take(4) =~= b@.subrange(pos as int, pos + 4));
            lemma_le_value_bound(s.take(4));
            lemma_pow256_values();
        }
        return Some((Value::Float(u as u32), pos + 4));
    }
    if bytes_type(t) {
        assert(s =~= b@.subrange(pos as int, b@.len() as int));
        match read_lenenc_int(b, pos) {
            None => return None,
            Some((n, p)) => {
                if (b.len() - p) as u64 >= n {
                    let n = n as usize;
                    let body = slice_range(b, p, p + n);
                    let mut bs: Vec<u8> = Vec::new();
                    crate::codec::push_bytes(&mut bs, body);
                    assert(bs@ =~= s.subrange((p - pos) as int, (p - pos) + n));
                    return Some((Value::Bytes(bs), p + n));
                } else {
                    return None;
                }
            },
        }
    }
    if date_type(t) {
        if avail < 1 {
            return None;
        }
        let l = b[pos];
        if !(l == 0 || l == 4 || l == 7 || l == 11) || avail < 1 + l as usize {
            return None;
        }
        let year: u16 = if l >= 4 {
            let y = read_le_at(b, pos + 1, 2);
            proof {
                assert(s.subrange(1, 3) =~= b@.subrange(pos + 1, pos + 3));
                lemma_le_value_bound(s.subrange(1, 3));
                lemma_pow256_values();
            }
            y as u16
        } else {
            0
        };
        let month = if l >= 4 { b[pos + 3] } else { 0 };
        let day = if l >= 4 { b[pos + 4] } else { 0 };
        let hour = if l >= 7 { b[pos + 5] } else { 0 };
        let minute = if l >= 7 { b[pos + 6] } else { 0 };
        let second = if l >= 7 { b[pos + 7] } else { 0 };
        let micros: u32 = if l == 11 {
            let m = read_le_at(b, pos + 8, 4);
            proof {
                assert(s.subrange(8, 12) =~= b@.subrange(pos + 8, pos + 12));
                lemma_le_value_bound(s.subrange(8, 12));
                lemma_pow256_values();
            }
            m as u32
        } else {
            0
        };
        return Some((Value::Date { year, month, day, hour, minute, second, micros }, pos + 1 + l as usize));
    }
    if t == ColumnType::MYSQL_TYPE_TIME {
        if avail < 1 {
            return None;
        }
        let l = b[pos];
        if !(l == 0 || l == 8 || l == 12) || avail < 1 + l as usize {
            return None;
        }
        let negative = l >= 8 && b[pos + 1] == 1;
        let days: u32 = if l >= 8 {
            let d = read_le_at(b, pos + 2, 4);
            proof {
                assert(s.subrange(2, 6) =~= b@.subrange(pos + 2, pos + 6));
                lemma_le_value_bound(s.subrange(2, 6));
                lemma_pow256_values();
            }
            d as u32
        } else {
            0
        };
        let hours = if l >= 8 { b[pos + 6] } else { 0 };
        let minutes = if l >= 8 { b[pos + 7] } else { 0 };
        let seconds = if l >= 8 { b[pos + 8] } else { 0 };
        let micros: u32 = if l == 12 {
            let m = read_le_at(b, pos + 9, 4);
            proof {
                assert(s.subrange(9, 13) =~= b@.subrange(pos + 9, pos + 13));
                lemma_le_value_bound(s.subrange(9, 13));
                lemma_pow256_values();
            }
            m as u32
        } else {
            0
        };
        return Some((Value::Time { negative, days, hours, minutes, seconds, micros }, pos + 1 + l as usize));
    }
    None
}

/// The width of the fixed-size integer encoding of `t`, or 0.
pub fn int_width_of(t: ColumnType) -> (r: usize)
    ensures
        r as nat == int_width(t),
{
    match t {
        ColumnType::MYSQL_TYPE_TINY => 1,
        ColumnType::MYSQL_TYPE_SHORT | ColumnType::MYSQL_TYPE_YEAR => 2,
        ColumnType::MYSQL_TYPE_LONG | ColumnType::MYSQL_TYPE_INT24 => 4,
        ColumnType::MYSQL_TYPE_LONGLONG => 8,
        _ => 0,
    }
}

/// Whether values of `t` travel as length-encoded byte strings.
pub fn bytes_type(t: ColumnType) -> (r: bool)
    ensures
        r == is_bytes_type(t),
{
    match t {
        ColumnType::MYSQL_TYPE_DECIMAL | ColumnType::MYSQL_TYPE_NEWDECIMAL
        | ColumnType::MYSQL_TYPE_VARCHAR | ColumnType::MYSQL_TYPE_VAR_STRING
        | ColumnType::MYSQL_TYPE_STRING | ColumnType::MYSQL_TYPE_BIT | ColumnType::MYSQL_TYPE_JSON
        | ColumnType::MYSQL_TYPE_ENUM | ColumnType::MYSQL_TYPE_SET
        | ColumnType::MYSQL_TYPE_TINY_BLOB | ColumnType::MYSQL_TYPE_MEDIUM_BLOB
        | ColumnType::MYSQL_TYPE_LONG_BLOB | ColumnType::MYSQL_TYPE_BLOB
        | ColumnType::MYSQL_TYPE_GEOMETRY => true,
        _ => false,
    }
}

/// Whether values of `t` travel as a packed date and time.
pub fn date_type(t: ColumnType) -> (r: bool)
    ensures
        r == is_date_type(t),
{
    match t {
        ColumnType::MYSQL_TYPE_DATE | ColumnType::MYSQL_TYPE_DATETIME
        | ColumnType::MYSQL_TYPE_TIMESTAMP => true,
        _ => false,
    }
}

/// 256 to the power `k`, halved: the bound of a signed `k`-byte integer.
fn half_range(k: usize) -> (r: u64)
    requires
        k == 1 || k == 2 || k == 4 || k == 8,
    ensures
        r as nat == pow256(k as nat) / 2,
{
    proof {
        lemma_pow256_values();
        reveal_with_fuel(pow256, 2);
    }
    if k == 1 {
        0x80
    } else if k == 2 {
        0x8000
    } else if k == 4 {
        0x8000_0000
    } else {
        0x8000_0000_0000_0000
    }
}

/// Appends the binary-protocol form of the non-NULL value `v` in a column of
/// type `t`; `false`, and nothing appended, where `v` cannot be written there.
pub fn write_binary_value(out: &mut Vec<u8>, t: ColumnType, unsigned: bool, v: &Value) -> (r: bool)
    ensures
        match binary_value(t, unsigned, *v) {
            Some(bs) => r && final(out)@ == old(out)@ + bs,
            None => !r && final(out)@ == old(out)@,
        },
{
    proof {
        lemma_pow256_values();
        reveal_with_fuel(pow256, 2);
    }
    match v {
        Value::Null => false,
        Value::Int(i) => {
            let k = int_width_of(t);
            if k == 0 {
                return false;
            }
            let h = half_range(k);
            let i = *i;
            if unsigned {
                if i < 0 || (k < 8 && i as u64 >= 2 * h) {
                    return false;
                }
                push_le(out, i as u64, k);
            } else {
                if (k < 8 && (i >= h as i64 || i < -(h as i64))) {
                    return false;
                }
                let top: u64 = if k == 8 { u64::MAX } else { 2 * h - 1 };
                let u: u64 = if i >= 0 {
                    i as u64
                } else {
                    top - ((-(i + 1)) as u64)
                };
                push_le(out, u, k);
            }
            true
        },
        Value::UInt(u) => {
            let k = int_width_of(t);
            if k == 0 {
                return false;
            }
            let h = half_range(k);
            if unsigned {
                if k < 8 && *u >= 2 * h {
                    return false;
                }
            } else {
                if *u >= h {
                    return false;
                }
            }
            push_le(out, *u, k);
            true
        },
        Value::Double(bits) => {
            if t != ColumnType::MYSQL_TYPE_DOUBLE {
                return false;
            }
            push_le(out, *bits, 8);
            true
        },
        Value::Float(bits) => {
            if t != ColumnType::MYSQL_TYPE_FLOAT {
                return false;
            }
            push_le(out, *bits as u64, 4);
            true
        },
        Value::Bytes(b) => {
            if !bytes_type(t) {
                return false;
            }
            push_lenenc_str(out, b.as_slice());
            true
        },
        Value::Date { year, month, day, hour, minute, second, micros } => {
            if !date_type(t) {
                return false;
            }
            let ghost start = out@;
            if *micros != 0 {
                out.push(11);
            } else if *hour != 0 || *minute != 0 || *second != 0 {
                out.push(7);
            } else if *year != 0 || *month != 0 || *day != 0 {
                out.push(4);
            } else {
                out.push(0);
                assert(out@ =~= start + seq![0u8]);
                return true;
            }
            push_le(out, *year as u64, 2);
            out.push(*month);
            out.push(*day);
            if *micros != 0 || *hour != 0 || *minute != 0 || *second != 0 {
                out.push(*hour);
                out.push(*minute);
                out.push(*second);
                if *micros != 0 {
                    push_le(out, *micros as u64, 4);
                }
            }
            assert(out@ =~= start + date_bytes(*year, *month, *day, *hour, *minute, *second, *micros));
            true
        },
        Value::Time { negative, days, hours, minutes, seconds, micros } => {
            if t != ColumnType::MYSQL_TYPE_TIME {
                return false;
            }
            let ghost start = out@;
            if *micros != 0 {
                out.push(12);
            } else if *negative || *days != 0 || *hours != 0 || *minutes != 0 || *seconds != 0 {
                out.push(8);
            } else {
                out.push(0);
                assert(out@ =~= start + seq![0u8]);
                return true;
            }
            out.push(if *negative { 1 } else { 0 });
            push_le(out, *days as u64, 4);
            out.push(*hours);
            out.push(*minutes);
            out.push(*seconds);
            if *micros != 0 {
                push_le(out, *micros as u64, 4);
            }
            assert(out@ =~= start + time_bytes(*negative, *days, *hours, *minutes, *seconds, *micros));
            true
        },
    }
}

} // verus!
