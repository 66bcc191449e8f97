//! The handles through which a backend answers: result sets, prepare replies
//! and init replies. Each collects the payloads of the packets it answers with.
use vstd::prelude::*;
use crate::codec::{lenenc_int, push_lenenc_int, push_le, le_bytes};
use crate::protocol::{Column, ErrorKind, UNSIGNED_FLAG, build_column_def, build_eof, build_err, build_ok, column_def, eof_packet, err_packet, ok_packet};
use crate::params::{bit_set, bit_weight};
use crate::value::{Value, binary_value, text_value, write_binary_value, write_text_value};

verus! {

/// Why a writer refused a call.
#[derive(Clone, Copy, Debug, PartialEq, Eq, Structural)]
pub enum WriterError {
    /// The call does not fit what was written before (a second terminal
    /// call, a row before the columns, a row of the wrong width).
    OutOfOrder,
    /// The value cannot be written in its column without loss.
    Coercion,
}

/// The packets that introduce a result set: the column count, the column
/// definitions, and an EOF.
pub open spec fn result_header(cols: Seq<Column>) -> Seq<Seq<u8>> {
    seq![lenenc_int(cols.len())] + column_defs(cols)
}

/// The column definitions of `cols`, then an EOF.
pub open spec fn column_defs(cols: Seq<Column>) -> Seq<Seq<u8>> {
    Seq::new(cols.len(), |i: int| column_def(cols[i], false)).push(eof_packet(0))
}

/// The text-protocol row of `vals`; `None` where a value has no text form.
pub open spec fn text_row(vals: Seq<Value>) -> Option<Seq<u8>>
    decreases vals.len(),
{
    if vals.len() == 0 {
        Some(Seq::empty())
    } else {
        match (text_row(vals.drop_last()), text_value(vals.last())) {
            (Some(a), Some(b)) => Some(a + b),
            _ => None,
        }
    }
}

/// Whether column `c` holds unsigned values.
pub open spec fn is_unsigned(c: Column) -> bool {
    c.colflags & UNSIGNED_FLAG != 0
}

/// The values of the non-NULL columns of a binary-protocol row, in order;
/// `None` where one cannot be written in its column.
pub open spec fn binary_values(cols: Seq<Column>, vals: Seq<Value>) -> Option<Seq<u8>>
    decreases vals.len(),
{
    if vals.len() == 0 {
        Some(Seq::empty())
    } else {
        let i = vals.len() - 1;
        match binary_values(cols, vals.drop_last()) {
            None => None,
            Some(a) => if vals[i] == Value::Null {
                Some(a)
            } else {
                match binary_value(cols[i].coltype, is_unsigned(cols[i]), vals[i]) {
                    Some(b) => Some(a + b),
                    None => None,
                }
            },
        }
    }
}

/// The NULL bitmap of a binary-protocol row of `n` values: bit `i + 2` is set
/// where value `i` is NULL.
pub open spec fn null_bitmap(vals: Seq<Value>) -> Seq<u8> {
    Seq::new(
        ((vals.len() + 2 + 7) / 8) as nat,
        |j: int| bitmap_byte(vals, j),
    )
}

/// Byte `j` of the NULL bitmap of `vals`.
pub open spec fn bitmap_byte(vals: Seq<Value>, j: int) -> u8 {
    (bit_at(vals, 8 * j) + 2 * bit_at(vals, 8 * j + 1) + 4 * bit_at(vals, 8 * j + 2) + 8 * bit_at(vals, 8 * j + 3)
        + 16 * bit_at(vals, 8 * j + 4) + 32 * bit_at(vals, 8 * j + 5) + 64 * bit_at(vals, 8 * j + 6) + 128
        * bit_at(vals, 8 * j + 7)) as u8
}

/// Bit `k` of the NULL bitmap of `vals`: 1 where value `k - 2` is NULL.
pub open spec fn bit_at(vals: Seq<Value>, k: int) -> int {
    if 2 <= k < vals.len() + 2 && vals[k - 2] == Value::Null { 1 } else { 0 }
}

/// The binary-protocol row of `vals` in the columns `cols`.
pub open spec fn binary_row(cols: Seq<Column>, vals: Seq<Value>) -> Option<Seq<u8>> {
    match binary_values(cols, vals) {
        Some(b) => Some(seq![0u8] + null_bitmap(vals) + b),
        None => None,
    }
}

/// Where a result set stands.
#[derive(Clone, Copy, Debug, PartialEq, Eq, Structural)]
pub enum Phase {
    /// Nothing written yet.
    Fresh,
    /// Columns written; rows may follow.
    Rows,
    /// A terminal call was made.
    Done,
}

/// The handle through which a backend answers a query or an execution.
pub struct QueryResultWriter {
    msgs: Vec<Vec<u8>>,
    binary: bool,
    columns: Vec<Column>,
    row: Vec<Value>,
    phase: Phase,
}

/// Bit `k` of the NULL bitmap of `vals`.
fn null_bit_of(vals: &Vec<Value>, k: usize) -> (r: u8)
    ensures
        r as int == bit_at(vals@, k as int),
{
    if k >= 2 && k - 2 < vals.len() {
        match vals[k - 2] {
            Value::Null => 1,
            _ => 0,
        }
    } else {
        0
    }
}

/// The NULL bitmap of a binary-protocol row of `vals`.
fn encode_null_bitmap(out: &mut Vec<u8>, vals: &Vec<Value>)
    requires
        vals@.len() < 0x1000_0000,
    ensures
        final(out)@ == old(out)@ + null_bitmap(vals@),
{
    let nbytes = (vals.len() + 2 + 7) / 8;
    let mut j: usize = 0;
    while j < nbytes
        invariant
            j <= nbytes,
            nbytes == (vals@.len() + 2 + 7) / 8,
            vals@.len() < 0x1000_0000,
            out@ == old(out)@ + null_bitmap(vals@).take(j as int),
        decreases nbytes - j,
    {
        let byte: u8 = null_bit_of(vals, 8 * j) + 2 * null_bit_of(vals, 8 * j + 1) + 4 * null_bit_of(vals, 8 * j + 2)
            + 8 * null_bit_of(vals, 8 * j + 3) + 16 * null_bit_of(vals, 8 * j + 4) + 32 * null_bit_of(vals, 8 * j + 5)
            + 64 * null_bit_of(vals, 8 * j + 6) + 128 * null_bit_of(vals, 8 * j + 7);
        out.push(byte);
        j = j + 1;
        assert(out@ =~= old(out)@ + null_bitmap(vals@).take(j as int));
    }
    assert(null_bitmap(vals@).take(j as int) =~= null_bitmap(vals@));
}

/// The text-protocol row of `vals`.
fn encode_text_row(vals: &Vec<Value>) -> (r: Option<Vec<u8>>)
    ensures
        match text_row(vals@) {
            Some(b) => r matches Some(v) && v@ == b,
            None => r is None,
        },
{
    let mut out: Vec<u8> = Vec::new();
    let mut i: usize = 0;
    while i < vals.len()
        invariant
            i <= vals@.len(),
            text_row(vals@.take(i as int)) == Some(out@),
        decreases vals@.len() - i,
    {
        assert(vals@.take(i + 1).drop_last() =~= vals@.take(i as int));
        if !write_text_value(&mut out, &vals[i]) {
            proof {
                lemma_text_row_none(vals@, (i + 1) as nat);
            }
            return None;
        }
        i = i + 1;
    }
    assert(vals@.take(i as int) =~= vals@);
    Some(out)
}

proof fn lemma_text_row_none(vals: Seq<Value>, i: nat)
    requires
        i <= vals.len(),
        text_row(vals.take(i as int)) is None,
    ensures
        text_row(vals) is None,
    decreases vals.len() - i,
{
    if i < vals.len() {
        assert(vals.take(i as int + 1).drop_last() =~= vals.take(i as int));
        lemma_text_row_none(vals, i + 1);
    } else {
        assert(vals.take(i as int) =~= vals);
    }
}

/// Each value of a row with a text form has one.
proof fn lemma_text_row_each(vals: Seq<Value>, i: int)
    requires
        0 <= i < vals.len(),
        text_row(vals) is Some,
    ensures
        text_value(vals[i]) is Some,
    decreases vals.len(),
{
    if i < vals.len() - 1 {
        assert(vals.drop_last()[i] == vals[i]);
        lemma_text_row_each(vals.drop_last(), i);
    }
}

/// Each non-NULL value of a row with a binary form has one in its column.
proof fn lemma_binary_values_each(cols: Seq<Column>, vals: Seq<Value>, i: int)
    requires
        0 <= i < vals.len(),
        binary_row(cols, vals) is Some,
    ensures
        vals[i] == Value::Null || binary_value(cols[i].coltype, is_unsigned(cols[i]), vals[i]) is Some,
    decreases vals.len(),
{
    if i < vals.len() - 1 {
        assert(vals.drop_last()[i] == vals[i]);
        assert(binary_values(cols, vals.drop_last()) is Some);
        lemma_binary_values_each_inner(cols, vals.drop_last(), i);
    }
}

proof fn lemma_binary_values_each_inner(cols: Seq<Column>, vals: Seq<Value>, i: int)
    requires
        0 <= i < vals.len(),
        binary_values(cols, vals) is Some,
    ensures
        vals[i] == Value::Null || binary_value(cols[i].coltype, is_unsigned(cols[i]), vals[i]) is Some,
    decreases vals.len(),
{
    if i < vals.len() - 1 {
        assert(vals.drop_last()[i] == vals[i]);
        lemma_binary_values_each_inner(cols, vals.drop_last(), i);
    }
}

proof fn lemma_binary_values_none(cols: Seq<Column>, vals: Seq<Value>, i: nat)
    requires
        i <= vals.len(),
        binary_values(cols, vals.take(i as int)) is None,
    ensures
        binary_values(cols, vals) is None,
    decreases vals.len() - i,
{
    if i < vals.len() {
        assert(vals.take(i as int + 1).drop_last() =~= vals.take(i as int));
        lemma_binary_values_none(cols, vals, i + 1);
    } else {
        assert(vals.take(i as int) =~= vals);
    }
}

/// Whether column `c` holds unsigned values.
fn unsigned_col(c: &Column) -> (r: bool)
    ensures
        r == is_unsigned(*c),
{
    c.colflags & UNSIGNED_FLAG != 0
}

/// The binary-protocol row of `vals` in the columns `cols`.
fn encode_binary_row(cols: &Vec<Column>, vals: &Vec<Value>) -> (r: Option<Vec<u8>>)
    requires
        vals@.len() <= cols@.len(),
        vals@.len() < 0x1000_0000,
    ensures
        match binary_row(cols@, vals@) {
            Some(b) => r matches Some(v) && v@ == b,
            None => r is None,
        },
{
    let mut out: Vec<u8> = Vec::new();
    out.push(0);
    encode_null_bitmap(&mut out, vals);
    let ghost head = out@;
    let mut i: usize = 0;
    while i < vals.len()
        invariant
            i <= vals@.len(),
            vals@.len() <= cols@.len(),
            binary_values(cols@, vals@.take(i as int)) matches Some(b) && out@ == head + b,
        decreases vals@.len() - i,
    {
        assert(vals@.take(i + 1).drop_last() =~= vals@.take(i as int));
        assert(vals@.take(i + 1)[i as int] == vals@[i as int]);
        let ghost before = out@;
        match &vals[i] {
            Value::Null => {},
            v => {
                if !write_binary_value(&mut out, cols[i].coltype, unsigned_col(&cols[i]), v) {
                    proof {
                        lemma_binary_values_none(cols@, vals@, (i + 1) as nat);
                    }
                    return None;
                }
            },
        }
        proof {
            let b = binary_values(cols@, vals@.take(i as int))->0;
            assert(before == head + b);
            assert(out@ =~= head + binary_values(cols@, vals@.take(i + 1))->0);
        }
        i = i + 1;
    }
    assert(vals@.take(i as int) =~= vals@);
    assert(out@ =~= seq![0u8] + null_bitmap(vals@) + binary_values(cols@, vals@)->0);
    Some(out)
}

/// The payloads of `msgs`.
pub open spec fn payloads(msgs: Seq<Vec<u8>>) -> Seq<Seq<u8>> {
    Seq::new(msgs.len(), |i: int| msgs[i]@)
}

/// Appends a message to `msgs`.
fn push_msg(msgs: &mut Vec<Vec<u8>>, m: Vec<u8>)
    ensures
        payloads(final(msgs)@) == payloads(old(msgs)@).push(m@),
{
    let ghost mm = m@;
    msgs.push(m);
    assert(payloads(msgs@) =~= payloads(old(msgs)@).push(mm));
}

/// Appends the column definitions of `cols`, then an EOF.
fn push_column_defs(msgs: &mut Vec<Vec<u8>>, cols: &[Column], field_list: bool)
    ensures
        payloads(final(msgs)@) == payloads(old(msgs)@) + Seq::new(cols@.len(), |i: int| column_def(cols@[i], field_list)).push(eof_packet(0)),
{
    let mut i: usize = 0;
    while i < cols.len()
        invariant
            i <= cols@.len(),
            payloads(msgs@) == payloads(old(msgs)@) + Seq::new(i as nat, |k: int| column_def(cols@[k], field_list)),
        decreases cols@.len() - i,
    {
        push_msg(msgs, build_column_def(&cols[i], field_list));
        i = i + 1;
        assert(payloads(msgs@) =~= payloads(old(msgs)@) + Seq::new(i as nat, |k: int| column_def(cols@[k], field_list)));
    }
    push_msg(msgs, build_eof(0));
    assert(payloads(msgs@) =~= payloads(old(msgs)@) + Seq::new(cols@.len(), |i: int| column_def(cols@[i], field_list)).push(eof_packet(0)));
}

impl QueryResultWriter {
    /// The payloads of the packets written so far.
    pub closed spec fn messages(&self) -> Seq<Seq<u8>> {
        payloads(self.msgs@)
    }

    pub closed spec fn phase(&self) -> Phase {
        self.phase
    }

    /// Whether rows go out in the binary protocol.
    pub closed spec fn binary(&self) -> bool {
        self.binary
    }

    /// The columns of the result set.
    pub closed spec fn columns(&self) -> Seq<Column> {
        self.columns@
    }

    /// The values of the row being written.
    pub closed spec fn pending(&self) -> Seq<Value> {
        self.row@
    }

    /// Whether `v` can be written in column `c` of this result set.
    pub open spec fn writable(&self, c: Column, v: Value) -> bool {
        if self.binary() {
            v == Value::Null || binary_value(c.coltype, is_unsigned(c), v) is Some
        } else {
            text_value(v) is Some
        }
    }

    /// A writer for a result set in the binary protocol (`binary`) or the text protocol.
    pub fn new(binary: bool) -> (w: Self)
        ensures
            w.messages() == Seq::<Seq<u8>>::empty(),
            w.phase() == Phase::Fresh,
            w.binary() == binary,
    {
        let w = QueryResultWriter { msgs: Vec::new(), binary, columns: Vec::new(), row: Vec::new(), phase: Phase::Fresh };
        assert(w.messages() =~= Seq::<Seq<u8>>::empty());
        w
    }

    /// Starts a result set with the columns `cols`: the column count, their
    /// definitions and an EOF. Without columns there are no rows, and an OK
    /// packet ends the answer.
    pub fn start(&mut self, cols: Vec<Column>) -> (r: Result<(), WriterError>)
        ensures
            final(self).binary() == old(self).binary(),
            old(self).phase() != Phase::Fresh ==> r == Err::<(), WriterError>(WriterError::OutOfOrder) && final(self).messages() == old(self).messages() && final(self).phase() == old(self).phase(),
            old(self).phase() == Phase::Fresh && cols@.len() == 0 ==> r is Ok && final(self).messages() == old(self).messages().push(ok_packet(0, 0, 0)) && final(self).phase() == Phase::Done,
            old(self).phase() == Phase::Fresh && cols@.len() > 0 ==> {
                &&& r is Ok
                &&& final(self).messages() == old(self).messages() + result_header(cols@)
                &&& final(self).phase() == Phase::Rows
                &&& final(self).columns() == cols@
                &&& final(self).pending() == Seq::<Value>::empty()
            },
    {
        if self.phase != Phase::Fresh {
            return Err(WriterError::OutOfOrder);
        }
        if cols.len() == 0 {
            push_msg(&mut self.msgs, build_ok(0, 0, 0));
            self.phase = Phase::Done;
            return Ok(());
        }
        let mut count: Vec<u8> = Vec::new();
        push_lenenc_int(&mut count, cols.len() as u64);
        assert(count@ =~= lenenc_int(cols@.len()));
        push_msg(&mut self.msgs, count);
        push_column_defs(&mut self.msgs, cols.as_slice(), false);
        assert(payloads(self.msgs@) =~= payloads(old(self).msgs@) + result_header(cols@));
        self.columns = cols;
        self.row = Vec::new();
        self.phase = Phase::Rows;
        Ok(())
    }

    /// Adds `v` to the row being written.
    pub fn write_col(&mut self, v: Value) -> (r: Result<(), WriterError>)
        ensures
            final(self).binary() == old(self).binary(),
            final(self).columns() == old(self).columns(),
            final(self).messages() == old(self).messages(),
            final(self).phase() == old(self).phase(),
            (old(self).phase() != Phase::Rows || old(self).pending().len() >= old(self).columns().len()) ==> r == Err::<(), WriterError>(WriterError::OutOfOrder) && final(self).pending() == old(self).pending(),
            (old(self).phase() == Phase::Rows && old(self).pending().len() < old(self).columns().len()) ==> {
                if old(self).writable(old(self).columns()[old(self).pending().len() as int], v) {
                    r is Ok && final(self).pending() == old(self).pending().push(v)
                } else {
                    r == Err::<(), WriterError>(WriterError::Coercion) && final(self).pending() == old(self).pending()
                }
            },
    {
        if self.phase != Phase::Rows || self.row.len() >= self.columns.len() {
            return Err(WriterError::OutOfOrder);
        }
        let c = &self.columns[self.row.len()];
        let ok = if self.binary {
            match &v {
                Value::Null => true,
                _ => {
                    let mut scratch: Vec<u8> = Vec::new();
                    write_binary_value(&mut scratch, c.coltype, unsigned_col(c), &v)
                },
            }
        } else {
            let mut scratch: Vec<u8> = Vec::new();
            write_text_value(&mut scratch, &v)
        };
        if !ok {
            return Err(WriterError::Coercion);
        }
        self.row.push(v);
        Ok(())
    }

    /// Ends the row being written, which must have a value for every column.
    pub fn end_row(&mut self) -> (r: Result<(), WriterError>)
        ensures
            final(self).binary() == old(self).binary(),
            final(self).columns() == old(self).columns(),
            final(self).phase() == old(self).phase(),
            (old(self).phase() != Phase::Rows || old(self).pending().len() != old(self).columns().len()) ==> r == Err::<(), WriterError>(WriterError::OutOfOrder) && final(self).messages() == old(self).messages() && final(self).pending() == old(self).pending(),
            r is Ok ==> {
                &&& final(self).pending() == Seq::<Value>::empty()
                &&& final(self).messages() == old(self).messages().push(
                    if old(self).binary() { binary_row(old(self).columns(), old(self).pending())->0 } else { text_row(old(self).pending())->0 },
                )
                &&& if old(self).binary() { binary_row(old(self).columns(), old(self).pending()) is Some } else { text_row(old(self).pending()) is Some }
            },
            (old(self).phase() == Phase::Rows && old(self).pending().len() == old(self).columns().len()
                && old(self).pending().len() < 0x1000_0000 && (if old(self).binary() { binary_row(old(self).columns(), old(self).pending()) is Some } else { text_row(old(self).pending()) is Some })) ==> r is Ok,
            r is Err ==> final(self).messages() == old(self).messages() && final(self).pending() == old(self).pending(),
    {
        if self.phase != Phase::Rows || self.row.len() != self.columns.len() {
            return Err(WriterError::OutOfOrder);
        }
        if self.row.len() >= 0x1000_0000 {
            return Err(WriterError::OutOfOrder);
        }
        let encoded = if self.binary { encode_binary_row(&self.columns, &self.row) } else { encode_text_row(&self.row) };
        match encoded {
            None => Err(WriterError::Coercion),
            Some(m) => {
                push_msg(&mut self.msgs, m);
                self.row = Vec::new();
                Ok(())
            },
        }
    }

    /// Writes the row `vals`: `write_col` for each value, then `end_row`.
    pub fn write_row(&mut self, row: Vec<Value>) -> (r: Result<(), WriterError>)
        ensures
            final(self).binary() == old(self).binary(),
            final(self).columns() == old(self).columns(),
            final(self).phase() == old(self).phase(),
            r is Ok ==> final(self).pending() == Seq::<Value>::empty() && final(self).messages() == old(self).messages().push(
                if old(self).binary() { binary_row(old(self).columns(), old(self).pending() + row@)->0 } else { text_row(old(self).pending() + row@)->0 },
            ),
            r is Err ==> final(self).messages() == old(self).messages(),
            (old(self).phase() == Phase::Rows && old(self).pending().len() + row@.len() == old(self).columns().len()
                && old(self).columns().len() < 0x1000_0000 && (if old(self).binary() {
                binary_row(old(self).columns(), old(self).pending() + row@) is Some
            } else {
                text_row(old(self).pending() + row@) is Some
            })) ==> r is Ok,
    {
        let ghost all = row@;
        let ghost full = old(self).pending() + all;
        let ghost fits = old(self).phase() == Phase::Rows && full.len() == old(self).columns().len()
            && old(self).columns().len() < 0x1000_0000 && (if old(self).binary() {
            binary_row(old(self).columns(), full) is Some
        } else {
            text_row(full) is Some
        });
        let mut vals = row;
        while vals.len() > 0
            invariant
                self.binary() == old(self).binary(),
                self.columns() == old(self).columns(),
                self.phase() == old(self).phase(),
                self.messages() == old(self).messages(),
                self.pending() + vals@ == full,
                full == old(self).pending() + all,
                all == row@,
                fits == (old(self).phase() == Phase::Rows && full.len() == old(self).columns().len()
                    && old(self).columns().len() < 0x1000_0000 && (if old(self).binary() {
                    binary_row(old(self).columns(), full) is Some
                } else {
                    text_row(full) is Some
                })),
            decreases vals@.len(),
        {
            let ghost before = vals@;
            let ghost at = self.pending().len();
            let v = vals.remove(0);
            proof {
                assert(full[at as int] == v);
                if fits {
                    if self.binary() {
                        lemma_binary_values_each(self.columns(), full, at as int);
                    } else {
                        lemma_text_row_each(full, at as int);
                    }
                }
            }
            match self.write_col(v) {
                Ok(()) => {},
                Err(e) => return Err(e),
            }
            assert(before =~= seq![v] + vals@);
            assert(self.pending() + vals@ =~= full);
        }
        assert(self.pending() =~= self.pending() + vals@);
        self.end_row()
    }

    /// Ends the result set with an EOF; no row may be half written.
    pub fn finish(&mut self) -> (r: Result<(), WriterError>)
        ensures
            (old(self).phase() == Phase::Rows && old(self).pending().len() == 0) ==> r is Ok && final(self).phase() == Phase::Done && final(self).messages() == old(self).messages().push(eof_packet(0)),
            !(old(self).phase() == Phase::Rows && old(self).pending().len() == 0) ==> r == Err::<(), WriterError>(WriterError::OutOfOrder) && final(self).phase() == old(self).phase() && final(self).messages() == old(self).messages(),
    {
        if self.phase != Phase::Rows || self.row.len() != 0 {
            return Err(WriterError::OutOfOrder);
        }
        push_msg(&mut self.msgs, build_eof(0));
        self.phase = Phase::Done;
        Ok(())
    }

    /// Answers with an OK packet and no result set.
    pub fn completed(&mut self, rows: u64, last_insert_id: u64) -> (r: Result<(), WriterError>)
        ensures
            old(self).phase() == Phase::Fresh ==> r is Ok && final(self).phase() == Phase::Done && final(self).messages() == old(self).messages().push(ok_packet(rows, last_insert_id, 0)),
            old(self).phase() != Phase::Fresh ==> r == Err::<(), WriterError>(WriterError::OutOfOrder) && final(self).phase() == old(self).phase() && final(self).messages() == old(self).messages(),
    {
        if self.phase != Phase::Fresh {
            return Err(WriterError::OutOfOrder);
        }
        push_msg(&mut self.msgs, build_ok(rows, last_insert_id, 0));
        self.phase = Phase::Done;
        Ok(())
    }

    /// Answers with an ERR packet, also in the middle of a result set.
    pub fn error(&mut self, kind: ErrorKind, msg: &[u8]) -> (r: Result<(), WriterError>)
        ensures
            old(self).phase() != Phase::Done ==> r is Ok && final(self).phase() == Phase::Done && final(self).messages() == old(self).messages().push(err_packet(kind, msg@)),
            old(self).phase() == Phase::Done ==> r == Err::<(), WriterError>(WriterError::OutOfOrder) && final(self).phase() == old(self).phase() && final(self).messages() == old(self).messages(),
    {
        if self.phase == Phase::Done {
            return Err(WriterError::OutOfOrder);
        }
        push_msg(&mut self.msgs, build_err(kind, msg));
        self.phase = Phase::Done;
        Ok(())
    }

    /// The payloads written.
    pub fn into_messages(self) -> (r: Vec<Vec<u8>>)
        ensures
            payloads(r@) == self.messages(),
    {
        self.msgs
    }
}

/// The payload of the reply to PREPARE that introduces the statement.
pub open spec fn prepare_ok(id: u32, ncols: nat, nparams: nat) -> Seq<u8> {
    seq![0u8] + le_bytes(id as nat, 4) + le_bytes(ncols, 2) + le_bytes(nparams, 2) + seq![0u8] + le_bytes(0, 2)
}

/// The packets that answer PREPARE: the statement's id and counts, then the
/// parameter definitions and an EOF where there are parameters, then the
/// column definitions and an EOF where there are columns.
pub open spec fn prepare_reply(id: u32, params: Seq<Column>, cols: Seq<Column>) -> Seq<Seq<u8>> {
    seq![prepare_ok(id, cols.len(), params.len())] + (if params.len() > 0 { column_defs(params) } else { Seq::empty() }) + (if cols.len() > 0 { column_defs(cols) } else { Seq::empty() })
}

/// The handle through which a backend answers PREPARE.
pub struct StatementMetaWriter {
    msgs: Vec<Vec<u8>>,
    registered: Option<(u32, u16)>,
    done: bool,
}

impl StatementMetaWriter {
    pub closed spec fn messages(&self) -> Seq<Seq<u8>> {
        payloads(self.msgs@)
    }

    /// The statement the reply introduced, and its number of parameters.
    pub closed spec fn registered(&self) -> Option<(u32, u16)> {
        self.registered
    }

    /// Whether the answer was given.
    pub closed spec fn done(&self) -> bool {
        self.done
    }

    pub fn new() -> (w: Self)
        ensures
            w.messages() == Seq::<Seq<u8>>::empty(),
            w.registered() is None,
            !w.done(),
    {
        let w = StatementMetaWriter { msgs: Vec::new(), registered: None, done: false };
        assert(w.messages() =~= Seq::<Seq<u8>>::empty());
        w
    }

    /// Introduces statement `id`, with parameters `params` and result columns `cols`.
    pub fn reply(&mut self, id: u32, params: &[Column], cols: &[Column]) -> (r: Result<(), WriterError>)
        ensures
            (old(self).done() || params@.len() > 0xFFFF || cols@.len() > 0xFFFF) ==> r == Err::<(), WriterError>(WriterError::OutOfOrder) && final(self).messages() == old(self).messages() && final(self).registered() == old(self).registered() && final(self).done() == old(self).done(),
            !(old(self).done() || params@.len() > 0xFFFF || cols@.len() > 0xFFFF) ==> {
                &&& r is Ok
                &&& final(self).done()
                &&& final(self).messages() == old(self).messages() + prepare_reply(id, params@, cols@)
                &&& final(self).registered() == Some((id, params@.len() as u16))
            },
    {
        if self.done || params.len() > 0xFFFF || cols.len() > 0xFFFF {
            return Err(WriterError::OutOfOrder);
        }
        let mut head: Vec<u8> = Vec::new();
        head.push(0);
        push_le(&mut head, id as u64, 4);
        push_le(&mut head, cols.len() as u64, 2);
        push_le(&mut head, params.len() as u64, 2);
        head.push(0);
        push_le(&mut head, 0, 2);
        assert(head@ =~= prepare_ok(id, cols@.len(), params@.len()));
        push_msg(&mut self.msgs, head);
        if params.len() > 0 {
            push_column_defs(&mut self.msgs, params, false);
        }
        if cols.len() > 0 {
            push_column_defs(&mut self.msgs, cols, false);
        }
        assert(payloads(self.msgs@) =~= payloads(old(self).msgs@) + prepare_reply(id, params@, cols@));
        self.registered = Some((id, params.len() as u16));
        self.done = true;
        Ok(())
    }

    /// Answers with an ERR packet.
    pub fn error(&mut self, kind: ErrorKind, msg: &[u8]) -> (r: Result<(), WriterError>)
        ensures
            !old(self).done() ==> r is Ok && final(self).done() && final(self).registered() == old(self).registered() && final(self).messages() == old(self).messages().push(err_packet(kind, msg@)),
            old(self).done() ==> r == Err::<(), WriterError>(WriterError::OutOfOrder) && final(self).done() && final(self).registered() == old(self).registered() && final(self).messages() == old(self).messages(),
    {
        if self.done {
            return Err(WriterError::OutOfOrder);
        }
        push_msg(&mut self.msgs, build_err(kind, msg));
        self.done = true;
        Ok(())
    }

    /// The payloads written, and the statement introduced.
    pub fn into_parts(self) -> (r: (Vec<Vec<u8>>, Option<(u32, u16)>))
        ensures
            payloads(r.0@) == self.messages(),
            r.1 == self.registered(),
    {
        (self.msgs, self.registered)
    }
}

/// The handle through which a backend answers a change of schema.
pub struct InitWriter {
    msgs: Vec<Vec<u8>>,
    done: bool,
}

impl InitWriter {
    pub closed spec fn messages(&self) -> Seq<Seq<u8>> {
        payloads(self.msgs@)
    }

    pub closed spec fn done(&self) -> bool {
        self.done
    }

    pub fn new() -> (w: Self)
        ensures
            w.messages() == Seq::<Seq<u8>>::empty(),
            !w.done(),
    {
        let w = InitWriter { msgs: Vec::new(), done: false };
        assert(w.messages() =~= Seq::<Seq<u8>>::empty());
        w
    }

    /// Answers with an OK packet.
    pub fn ok(&mut self) -> (r: Result<(), WriterError>)
        ensures
            !old(self).done() ==> r is Ok && final(self).done() && final(self).messages() == old(self).messages().push(ok_packet(0, 0, 0)),
            old(self).done() ==> r == Err::<(), WriterError>(WriterError::OutOfOrder) && final(self).done() && final(self).messages() == old(self).messages(),
    {
        if self.done {
            return Err(WriterError::OutOfOrder);
        }
        push_msg(&mut self.msgs, build_ok(0, 0, 0));
        self.done = true;
        Ok(())
    }

    /// Answers with an ERR packet.
    pub fn error(&mut self, kind: ErrorKind, msg: &[u8]) -> (r: Result<(), WriterError>)
        ensures
            !old(self).done() ==> r is Ok && final(self).done() && final(self).messages() == old(self).messages().push(err_packet(kind, msg@)),
            old(self).done() ==> r == Err::<(), WriterError>(WriterError::OutOfOrder) && final(self).done() && final(self).messages() == old(self).messages(),
    {
        if self.done {
            return Err(WriterError::OutOfOrder);
        }
        push_msg(&mut self.msgs, build_err(kind, msg));
        self.done = true;
        Ok(())
    }

    /// The payloads written.
    pub fn into_messages(self) -> (r: Vec<Vec<u8>>)
        ensures
            payloads(r@) == self.messages(),
    {
        self.msgs
    }
}

/// In a byte made of eight weighted bits, bit `k` reads back.
proof fn lemma_weighted_bit(b0: int, b1: int, b2: int, b3: int, b4: int, b5: int, b6: int, b7: int, k: nat)
    requires
        0 <= b0 <= 1 && 0 <= b1 <= 1 && 0 <= b2 <= 1 && 0 <= b3 <= 1 && 0 <= b4 <= 1 && 0 <= b5 <= 1 && 0 <= b6 <= 1 && 0 <= b7 <= 1,
        k < 8,
    ensures
        (b0 + 2 * b1 + 4 * b2 + 8 * b3 + 16 * b4 + 32 * b5 + 64 * b6 + 128 * b7) / (bit_weight(k) as int) % 2 == seq![b0, b1, b2, b3, b4, b5, b6, b7][k as int],
{
    if k == 0 {
        assert(((b0 + 2 * b1 + 4 * b2 + 8 * b3 + 16 * b4 + 32 * b5 + 64 * b6 + 128 * b7) / 1) % 2 == b0) by (nonlinear_arith)
            requires
                0 <= b0 <= 1 && 0 <= b1 <= 1 && 0 <= b2 <= 1 && 0 <= b3 <= 1 && 0 <= b4 <= 1 && 0 <= b5 <= 1 && 0 <= b6 <= 1 && 0 <= b7 <= 1,
        ;
    }
    if k == 1 {
        assert(((b0 + 2 * b1 + 4 * b2 + 8 * b3 + 16 * b4 + 32 * b5 + 64 * b6 + 128 * b7) / 2) % 2 == b1) by (nonlinear_arith)
            requires
                0 <= b0 <= 1 && 0 <= b1 <= 1 && 0 <= b2 <= 1 && 0 <= b3 <= 1 && 0 <= b4 <= 1 && 0 <= b5 <= 1 && 0 <= b6 <= 1 && 0 <= b7 <= 1,
        ;
    }
    if k == 2 {
        assert(((b0 + 2 * b1 + 4 * b2 + 8 * b3 + 16 * b4 + 32 * b5 + 64 * b6 + 128 * b7) / 4) % 2 == b2) by (nonlinear_arith)
            requires
                0 <= b0 <= 1 && 0 <= b1 <= 1 && 0 <= b2 <= 1 && 0 <= b3 <= 1 && 0 <= b4 <= 1 && 0 <= b5 <= 1 && 0 <= b6 <= 1 && 0 <= b7 <= 1,
        ;
    }
    if k == 3 {
        assert(((b0 + 2 * b1 + 4 * b2 + 8 * b3 + 16 * b4 + 32 * b5 + 64 * b6 + 128 * b7) / 8) % 2 == b3) by (nonlinear_arith)
            requires
                0 <= b0 <= 1 && 0 <= b1 <= 1 && 0 <= b2 <= 1 && 0 <= b3 <= 1 && 0 <= b4 <= 1 && 0 <= b5 <= 1 && 0 <= b6 <= 1 && 0 <= b7 <= 1,
        ;
    }
    if k == 4 {
        assert(((b0 + 2 * b1 + 4 * b2 + 8 * b3 + 16 * b4 + 32 * b5 + 64 * b6 + 128 * b7) / 16) % 2 == b4) by (nonlinear_arith)
            requires
                0 <= b0 <= 1 && 0 <= b1 <= 1 && 0 <= b2 <= 1 && 0 <= b3 <= 1 && 0 <= b4 <= 1 && 0 <= b5 <= 1 && 0 <= b6 <= 1 && 0 <= b7 <= 1,
        ;
    }
    if k == 5 {
        assert(((b0 + 2 * b1 + 4 * b2 + 8 * b3 + 16 * b4 + 32 * b5 + 64 * b6 + 128 * b7) / 32) % 2 == b5) by (nonlinear_arith)
            requires
                0 <= b0 <= 1 && 0 <= b1 <= 1 && 0 <= b2 <= 1 && 0 <= b3 <= 1 && 0 <= b4 <= 1 && 0 <= b5 <= 1 && 0 <= b6 <= 1 && 0 <= b7 <= 1,
        ;
    }
    if k == 6 {
        assert(((b0 + 2 * b1 + 4 * b2 + 8 * b3 + 16 * b4 + 32 * b5 + 64 * b6 + 128 * b7) / 64) % 2 == b6) by (nonlinear_arith)
            requires
                0 <= b0 <= 1 && 0 <= b1 <= 1 && 0 <= b2 <= 1 && 0 <= b3 <= 1 && 0 <= b4 <= 1 && 0 <= b5 <= 1 && 0 <= b6 <= 1 && 0 <= b7 <= 1,
        ;
    }
    if k == 7 {
        assert(((b0 + 2 * b1 + 4 * b2 + 8 * b3 + 16 * b4 + 32 * b5 + 64 * b6 + 128 * b7) / 128) % 2 == b7) by (nonlinear_arith)
            requires
                0 <= b0 <= 1 && 0 <= b1 <= 1 && 0 <= b2 <= 1 && 0 <= b3 <= 1 && 0 <= b4 <= 1 && 0 <= b5 <= 1 && 0 <= b6 <= 1 && 0 <= b7 <= 1,
        ;
    }
}

/// The NULL bitmap of a binary-protocol row has bit `i + 2` set exactly
/// where value `i` is NULL.
pub proof fn lemma_row_null_bitmap(vals: Seq<Value>, i: int)
    requires
        0 <= i < vals.len(),
    ensures
        bit_set(null_bitmap(vals), (i + 2) as nat) <==> vals[i] == Value::Null,
{
    let j = (i + 2) / 8;
    let k = (i + 2) % 8;
    assert(j < (vals.len() + 2 + 7) / 8);
    let bits = seq![
        bit_at(vals, 8 * j), bit_at(vals, 8 * j + 1), bit_at(vals, 8 * j + 2), bit_at(vals, 8 * j + 3),
        bit_at(vals, 8 * j + 4), bit_at(vals, 8 * j + 5), bit_at(vals, 8 * j + 6), bit_at(vals, 8 * j + 7),
    ];
    lemma_weighted_bit(bits[0], bits[1], bits[2], bits[3], bits[4], bits[5], bits[6], bits[7], k as nat);
    assert(8 * j + k == i + 2);
    assert(bits[k] == bit_at(vals, i + 2));
    assert(null_bitmap(vals)[j] == bitmap_byte(vals, j));
}

} // verus!
