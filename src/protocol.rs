//! Column descriptors and the OK, ERR, EOF and column-definition packets.
use vstd::prelude::*;
use vstd::utf8::encode_utf8;
use crate::codec::{le_bytes, lenenc_int, lenenc_str, push_le, push_lenenc_int, push_lenenc_str, push_bytes};

verus! {

/// The MySQL column types.
#[allow(non_camel_case_types)]
#[derive(Clone, Copy, Debug, PartialEq, Eq, Structural)]
pub enum ColumnType {
    MYSQL_TYPE_DECIMAL,
    MYSQL_TYPE_TINY,
    MYSQL_TYPE_SHORT,
    MYSQL_TYPE_LONG,
    MYSQL_TYPE_FLOAT,
    MYSQL_TYPE_DOUBLE,
    MYSQL_TYPE_NULL,
    MYSQL_TYPE_TIMESTAMP,
    MYSQL_TYPE_LONGLONG,
    MYSQL_TYPE_INT24,
    MYSQL_TYPE_DATE,
    MYSQL_TYPE_TIME,
    MYSQL_TYPE_DATETIME,
    MYSQL_TYPE_YEAR,
    MYSQL_TYPE_NEWDATE,
    MYSQL_TYPE_VARCHAR,
    MYSQL_TYPE_BIT,
    MYSQL_TYPE_TIMESTAMP2,
    MYSQL_TYPE_DATETIME2,
    MYSQL_TYPE_TIME2,
    MYSQL_TYPE_JSON,
    MYSQL_TYPE_NEWDECIMAL,
    MYSQL_TYPE_ENUM,
    MYSQL_TYPE_SET,
    MYSQL_TYPE_TINY_BLOB,
    MYSQL_TYPE_MEDIUM_BLOB,
    MYSQL_TYPE_LONG_BLOB,
    MYSQL_TYPE_BLOB,
    MYSQL_TYPE_VAR_STRING,
    MYSQL_TYPE_STRING,
    MYSQL_TYPE_GEOMETRY,
}

/// The wire code of a column type.
pub open spec fn type_code(t: ColumnType) -> u8 {
    match t {
        ColumnType::MYSQL_TYPE_DECIMAL => 0,
        ColumnType::MYSQL_TYPE_TINY => 1,
        ColumnType::MYSQL_TYPE_SHORT => 2,
        ColumnType::MYSQL_TYPE_LONG => 3,
        ColumnType::MYSQL_TYPE_FLOAT => 4,
        ColumnType::MYSQL_TYPE_DOUBLE => 5,
        ColumnType::MYSQL_TYPE_NULL => 6,
        ColumnType::MYSQL_TYPE_TIMESTAMP => 7,
        ColumnType::MYSQL_TYPE_LONGLONG => 8,
        ColumnType::MYSQL_TYPE_INT24 => 9,
        ColumnType::MYSQL_TYPE_DATE => 10,
        ColumnType::MYSQL_TYPE_TIME => 11,
        ColumnType::MYSQL_TYPE_DATETIME => 12,
        ColumnType::MYSQL_TYPE_YEAR => 13,
        ColumnType::MYSQL_TYPE_NEWDATE => 14,
        ColumnType::MYSQL_TYPE_VARCHAR => 15,
        ColumnType::MYSQL_TYPE_BIT => 16,
        ColumnType::MYSQL_TYPE_TIMESTAMP2 => 17,
        ColumnType::MYSQL_TYPE_DATETIME2 => 18,
        ColumnType::MYSQL_TYPE_TIME2 => 19,
        ColumnType::MYSQL_TYPE_JSON => 245,
        ColumnType::MYSQL_TYPE_NEWDECIMAL => 246,
        ColumnType::MYSQL_TYPE_ENUM => 247,
        ColumnType::MYSQL_TYPE_SET => 248,
        ColumnType::MYSQL_TYPE_TINY_BLOB => 249,
        ColumnType::MYSQL_TYPE_MEDIUM_BLOB => 250,
        ColumnType::MYSQL_TYPE_LONG_BLOB => 251,
        ColumnType::MYSQL_TYPE_BLOB => 252,
        ColumnType::MYSQL_TYPE_VAR_STRING => 253,
        ColumnType::MYSQL_TYPE_STRING => 254,
        ColumnType::MYSQL_TYPE_GEOMETRY => 255,
    }
}

/// The column type with wire code `c`, if there is one.
pub open spec fn code_type(c: u8) -> Option<ColumnType> {
    match c {
        0 => Some(ColumnType::MYSQL_TYPE_DECIMAL),
        1 => Some(ColumnType::MYSQL_TYPE_TINY),
        2 => Some(ColumnType::MYSQL_TYPE_SHORT),
        3 => Some(ColumnType::MYSQL_TYPE_LONG),
        4 => Some(ColumnType::MYSQL_TYPE_FLOAT),
        5 => Some(ColumnType::MYSQL_TYPE_DOUBLE),
        6 => Some(ColumnType::MYSQL_TYPE_NULL),
        7 => Some(ColumnType::MYSQL_TYPE_TIMESTAMP),
        8 => Some(ColumnType::MYSQL_TYPE_LONGLONG),
        9 => Some(ColumnType::MYSQL_TYPE_INT24),
        10 => Some(ColumnType::MYSQL_TYPE_DATE),
        11 => Some(ColumnType::MYSQL_TYPE_TIME),
        12 => Some(ColumnType::MYSQL_TYPE_DATETIME),
        13 => Some(ColumnType::MYSQL_TYPE_YEAR),
        14 => Some(ColumnType::MYSQL_TYPE_NEWDATE),
        15 => Some(ColumnType::MYSQL_TYPE_VARCHAR),
        16 => Some(ColumnType::MYSQL_TYPE_BIT),
        17 => Some(ColumnType::MYSQL_TYPE_TIMESTAMP2),
        18 => Some(ColumnType::MYSQL_TYPE_DATETIME2),
        19 => Some(ColumnType::MYSQL_TYPE_TIME2),
        245 => Some(ColumnType::MYSQL_TYPE_JSON),
        246 => Some(ColumnType::MYSQL_TYPE_NEWDECIMAL),
        247 => Some(ColumnType::MYSQL_TYPE_ENUM),
        248 => Some(ColumnType::MYSQL_TYPE_SET),
        249 => Some(ColumnType::MYSQL_TYPE_TINY_BLOB),
        250 => Some(ColumnType::MYSQL_TYPE_MEDIUM_BLOB),
        251 => Some(ColumnType::MYSQL_TYPE_LONG_BLOB),
        252 => Some(ColumnType::MYSQL_TYPE_BLOB),
        253 => Some(ColumnType::MYSQL_TYPE_VAR_STRING),
        254 => Some(ColumnType::MYSQL_TYPE_STRING),
        255 => Some(ColumnType::MYSQL_TYPE_GEOMETRY),
        _ => None,
}
}

impl ColumnType {
    /// The wire code of this type.
    pub fn code(&self) -> (r: u8)
        ensures
            r == type_code(*self),
    {
        match self {
            ColumnType::MYSQL_TYPE_DECIMAL => 0,
            ColumnType::MYSQL_TYPE_TINY => 1,
            ColumnType::MYSQL_TYPE_SHORT => 2,
            ColumnType::MYSQL_TYPE_LONG => 3,
            ColumnType::MYSQL_TYPE_FLOAT => 4,
            ColumnType::MYSQL_TYPE_DOUBLE => 5,
            ColumnType::MYSQL_TYPE_NULL => 6,
            ColumnType::MYSQL_TYPE_TIMESTAMP => 7,
            ColumnType::MYSQL_TYPE_LONGLONG => 8,
            ColumnType::MYSQL_TYPE_INT24 => 9,
            ColumnType::MYSQL_TYPE_DATE => 10,
            ColumnType::MYSQL_TYPE_TIME => 11,
            ColumnType::MYSQL_TYPE_DATETIME => 12,
            ColumnType::MYSQL_TYPE_YEAR => 13,
            ColumnType::MYSQL_TYPE_NEWDATE => 14,
            ColumnType::MYSQL_TYPE_VARCHAR => 15,
            ColumnType::MYSQL_TYPE_BIT => 16,
            ColumnType::MYSQL_TYPE_TIMESTAMP2 => 17,
            ColumnType::MYSQL_TYPE_DATETIME2 => 18,
            ColumnType::MYSQL_TYPE_TIME2 => 19,
            ColumnType::MYSQL_TYPE_JSON => 245,
            ColumnType::MYSQL_TYPE_NEWDECIMAL => 246,
            ColumnType::MYSQL_TYPE_ENUM => 247,
            ColumnType::MYSQL_TYPE_SET => 248,
            ColumnType::MYSQL_TYPE_TINY_BLOB => 249,
            ColumnType::MYSQL_TYPE_MEDIUM_BLOB => 250,
            ColumnType::MYSQL_TYPE_LONG_BLOB => 251,
            ColumnType::MYSQL_TYPE_BLOB => 252,
            ColumnType::MYSQL_TYPE_VAR_STRING => 253,
            ColumnType::MYSQL_TYPE_STRING => 254,
            ColumnType::MYSQL_TYPE_GEOMETRY => 255,
        }
    }

    /// The type with wire code `c`, if there is one.
    pub fn from_code(c: u8) -> (r: Option<ColumnType>)
        ensures
            r == code_type(c),
    {
        let r = match c {
            0 => Some(ColumnType::MYSQL_TYPE_DECIMAL),
            1 => Some(ColumnType::MYSQL_TYPE_TINY),
            2 => Some(ColumnType::MYSQL_TYPE_SHORT),
            3 => Some(ColumnType::MYSQL_TYPE_LONG),
            4 => Some(ColumnType::MYSQL_TYPE_FLOAT),
            5 => Some(ColumnType::MYSQL_TYPE_DOUBLE),
            6 => Some(ColumnType::MYSQL_TYPE_NULL),
            7 => Some(ColumnType::MYSQL_TYPE_TIMESTAMP),
            8 => Some(ColumnType::MYSQL_TYPE_LONGLONG),
            9 => Some(ColumnType::MYSQL_TYPE_INT24),
            10 => Some(ColumnType::MYSQL_TYPE_DATE),
            11 => Some(ColumnType::MYSQL_TYPE_TIME),
            12 => Some(ColumnType::MYSQL_TYPE_DATETIME),
            13 => Some(ColumnType::MYSQL_TYPE_YEAR),
            14 => Some(ColumnType::MYSQL_TYPE_NEWDATE),
            15 => Some(ColumnType::MYSQL_TYPE_VARCHAR),
            16 => Some(ColumnType::MYSQL_TYPE_BIT),
            17 => Some(ColumnType::MYSQL_TYPE_TIMESTAMP2),
            18 => Some(ColumnType::MYSQL_TYPE_DATETIME2),
            19 => Some(ColumnType::MYSQL_TYPE_TIME2),
            245 => Some(ColumnType::MYSQL_TYPE_JSON),
            246 => Some(ColumnType::MYSQL_TYPE_NEWDECIMAL),
            247 => Some(ColumnType::MYSQL_TYPE_ENUM),
            248 => Some(ColumnType::MYSQL_TYPE_SET),
            249 => Some(ColumnType::MYSQL_TYPE_TINY_BLOB),
            250 => Some(ColumnType::MYSQL_TYPE_MEDIUM_BLOB),
            251 => Some(ColumnType::MYSQL_TYPE_LONG_BLOB),
            252 => Some(ColumnType::MYSQL_TYPE_BLOB),
            253 => Some(ColumnType::MYSQL_TYPE_VAR_STRING),
            254 => Some(ColumnType::MYSQL_TYPE_STRING),
            255 => Some(ColumnType::MYSQL_TYPE_GEOMETRY),
            _ => None,
        };
        r
    }
}

/// Column flag: the values are never NULL.
pub const NOT_NULL_FLAG: u16 = 1;

/// Column flag: the values are unsigned.
pub const UNSIGNED_FLAG: u16 = 32;

/// The character set that column definitions and the greeting name: utf8_general_ci.
pub const UTF8_GENERAL_CI: u8 = 0x21;

/// Meta-information about a single column, used either to describe a prepared
/// statement parameter or an output column.
#[derive(Clone, Debug, PartialEq, Eq)]
pub struct Column {
    /// The column's table (technically, the table's alias).
    pub table: String,
    /// The column's name (technically, the column's alias).
    pub column: String,
    /// The column's type.
    pub coltype: ColumnType,
    /// The column's flags, such as `UNSIGNED_FLAG` and `NOT_NULL_FLAG`.
    pub colflags: u16,
}

/// A MySQL error: its code and its five-character SQLSTATE.
#[derive(Clone, Copy, Debug, PartialEq, Eq)]
pub struct ErrorKind {
    pub code: u16,
    pub sqlstate: [u8; 5],
}

impl ErrorKind {
    /// Access denied (1045, SQLSTATE 28000).
    pub fn access_denied() -> (r: ErrorKind)
        ensures
            r.code == 1045,
            r.sqlstate@ == seq![0x32u8, 0x38u8, 0x30u8, 0x30u8, 0x30u8],
    {
        ErrorKind { code: 1045, sqlstate: [0x32u8, 0x38u8, 0x30u8, 0x30u8, 0x30u8] }
    }

    /// Unknown prepared statement handler (1243, SQLSTATE HY000).
    pub fn unknown_stmt_handler() -> (r: ErrorKind)
        ensures
            r.code == 1243,
            r.sqlstate@ == seq![0x48u8, 0x59u8, 0x30u8, 0x30u8, 0x30u8],
    {
        ErrorKind { code: 1243, sqlstate: [0x48u8, 0x59u8, 0x30u8, 0x30u8, 0x30u8] }
    }

    /// Unknown command (1047, SQLSTATE 08S01).
    pub fn unknown_com() -> (r: ErrorKind)
        ensures
            r.code == 1047,
            r.sqlstate@ == seq![0x30u8, 0x38u8, 0x53u8, 0x30u8, 0x31u8],
    {
        ErrorKind { code: 1047, sqlstate: [0x30u8, 0x38u8, 0x53u8, 0x30u8, 0x31u8] }
    }
}

/// The payload of an OK packet.
pub open spec fn ok_packet(affected: u64, last_insert_id: u64, status: u16) -> Seq<u8> {
    seq![0x00u8] + lenenc_int(affected as nat) + lenenc_int(last_insert_id as nat) + le_bytes(
        status as nat,
        2,
    ) + le_bytes(0, 2)
}

/// The payload of an EOF packet.
pub open spec fn eof_packet(status: u16) -> Seq<u8> {
    seq![0xFEu8] + le_bytes(0, 2) + le_bytes(status as nat, 2)
}

/// The payload of an ERR packet.
pub open spec fn err_packet(kind: ErrorKind, msg: Seq<u8>) -> Seq<u8> {
    seq![0xFFu8] + le_bytes(kind.code as nat, 2) + seq![0x23u8] + kind.sqlstate@ + msg
}

/// The payload of a column-definition packet for a column `name` of table
/// `table`; a reply to FIELD_LIST carries an empty default value at its end.
pub open spec fn column_def_bytes(table: Seq<u8>, name: Seq<u8>, t: ColumnType, flags: u16, field_list: bool) -> Seq<u8> {
    lenenc_str(seq![0x64u8, 0x65u8, 0x66u8]) + lenenc_str(Seq::empty()) + lenenc_str(table) + lenenc_str(
        Seq::empty(),
    ) + lenenc_str(name) + lenenc_str(Seq::empty()) + seq![0x0Cu8] + le_bytes(UTF8_GENERAL_CI as nat, 2)
        + le_bytes(1024, 4) + seq![type_code(t)] + le_bytes(flags as nat, 2) + seq![0u8, 0u8, 0u8] + if field_list {
        seq![0xFBu8]
    } else {
        Seq::empty()
    }
}

/// The payload of the column-definition packet of `c`.
pub open spec fn column_def(c: Column, field_list: bool) -> Seq<u8> {
    column_def_bytes(encode_utf8(c.table@), encode_utf8(c.column@), c.coltype, c.colflags, field_list)
}

/// The payload of an OK packet.
pub fn build_ok(affected: u64, last_insert_id: u64, status: u16) -> (r: Vec<u8>)
    ensures
        r@ == ok_packet(affected, last_insert_id, status),
{
    let mut out: Vec<u8> = Vec::new();
    out.push(0x00);
    push_lenenc_int(&mut out, affected);
    push_lenenc_int(&mut out, last_insert_id);
    push_le(&mut out, status as u64, 2);
    push_le(&mut out, 0, 2);
    assert(out@ =~= ok_packet(affected, last_insert_id, status));
    out
}

/// The payload of an EOF packet.
pub fn build_eof(status: u16) -> (r: Vec<u8>)
    ensures
        r@ == eof_packet(status),
{
    let mut out: Vec<u8> = Vec::new();
    out.push(0xFE);
    push_le(&mut out, 0, 2);
    push_le(&mut out, status as u64, 2);
    assert(out@ =~= eof_packet(status));
    out
}

/// The payload of an ERR packet.
pub fn build_err(kind: ErrorKind, msg: &[u8]) -> (r: Vec<u8>)
    ensures
        r@ == err_packet(kind, msg@),
{
    let mut out: Vec<u8> = Vec::new();
    out.push(0xFF);
    push_le(&mut out, kind.code as u64, 2);
    out.push(0x23u8);
    push_bytes(&mut out, &kind.sqlstate);
    push_bytes(&mut out, msg);
    assert(out@ =~= err_packet(kind, msg@));
    out
}

/// The payload of a column-definition packet for a column `name` of table `table`.
pub fn build_column_def_bytes(table: &[u8], name: &[u8], t: ColumnType, flags: u16, field_list: bool) -> (r: Vec<u8>)
    ensures
        r@ == column_def_bytes(table@, name@, t, flags, field_list),
{
    let mut out: Vec<u8> = Vec::new();
    push_lenenc_str(&mut out, &[0x64u8, 0x65u8, 0x66u8]);
    push_lenenc_str(&mut out, &[]);
    push_lenenc_str(&mut out, table);
    push_lenenc_str(&mut out, &[]);
    push_lenenc_str(&mut out, name);
    push_lenenc_str(&mut out, &[]);
    out.push(0x0C);
    push_le(&mut out, UTF8_GENERAL_CI as u64, 2);
    push_le(&mut out, 1024, 4);
    out.push(t.code());
    push_le(&mut out, flags as u64, 2);
    out.push(0);
    out.push(0);
    out.push(0);
    if field_list {
        out.push(0xFB);
    }
    assert(out@ =~= column_def_bytes(table@, name@, t, flags, field_list));
    out
}

/// The payload of the column-definition packet of `c`.
pub fn build_column_def(c: &Column, field_list: bool) -> (r: Vec<u8>)
    ensures
        r@ == column_def(*c, field_list),
{
    build_column_def_bytes(c.table.as_str().as_bytes(), c.column.as_str().as_bytes(), c.coltype, c.colflags, field_list)
}

} // verus!
