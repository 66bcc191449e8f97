//! A server-side implementation of the MySQL/MariaDB client-server wire protocol.
//!
//! The library holds the protocol logic: packet framing, the wire codecs, the
//! command and parameter parsers, the prepared-statement table and the
//! connection state machine. It performs no I/O itself: it consumes the bytes
//! a client sent and produces the bytes to send back.
use vstd::prelude::*;

pub mod codec;
pub mod packet;
pub mod protocol;
pub mod value;
pub mod commands;
pub mod params;
pub mod resultset;
pub mod text;

use vstd::utf8::{decode_utf8, valid_utf8};
use crate::commands::{CLIENT_SSL, Command, parse_client_handshake, parse_command};
use crate::packet::{PacketReader, PacketWriter, frames, seq_after, slice_range};
use crate::params::{append_long_data, layout, long_lookup, param_is, param_ok, parse_params};
use crate::protocol::{build_eof, build_err, build_ok};
use crate::resultset::payloads;
use crate::value::decimal;
use crate::codec::{lenenc_str, push_bytes};
use crate::protocol::{build_column_def_bytes, column_def_bytes, eof_packet, ok_packet};
use crate::value::write_text_value;
use crate::text::{has_prefix, schema_of_use, starts_with};
use crate::commands::{handshake_outcome, is_command, parses_as};
use crate::packet::parse_message;
pub use crate::commands::HandshakeError;
pub use crate::params::{ParamError, ParamValue, StatementData};
pub use crate::protocol::{Column, ColumnType, ErrorKind, NOT_NULL_FLAG, UNSIGNED_FLAG};
pub use crate::resultset::{InitWriter, QueryResultWriter, StatementMetaWriter, WriterError};
pub use crate::value::Value;

verus! {

/// TLS configuration.
#[derive(Clone, Debug)]
pub struct TlsConfig {
    /// Full path to the server certificate file.
    pub server_cert: String,
    /// Full path to the server key file.
    pub server_cert_key: String,
    /// Optional full path to a folder of client certificates to validate against.
    pub client_cert_dir: Option<String>,
    /// Require clients to use TLS?
    pub require_tls: bool,
}

/// The parameters of an execution, decoded.
pub struct ParamParser {
    params: Vec<ParamValue>,
}

impl ParamParser {
    pub closed spec fn values(&self) -> Seq<ParamValue> {
        self.params@
    }

    /// Decodes the parameters that the EXECUTE payload `p` (what follows the
    /// iteration count) carries for a statement in state `data`: `n` values,
    /// value `i` NULL where bit `i` of the NULL bitmap is set, else the bytes
    /// sent ahead for it, else decoded in order from the value area. Also
    /// returns the types the payload sent, if any.
    pub fn decode(p: &[u8], data: &StatementData) -> (r: Result<(ParamParser, Option<Vec<(ColumnType, bool)>>), ParamError>)
        ensures
            r is Ok <==> params_decode(p@, data.params, data.bound_types@, data.long_data@),
            r matches Ok((pp, _)) ==> pp.values().len() == data.params,
            (r is Ok && data.params > 0) ==> {
                let (types, was_sent, start) = layout(p@, data.params as nat, data.bound_types@)->Ok_0;
                &&& forall|i: nat| i < data.params ==> #[trigger] param_is(p@, types, data.long_data@, start, i, r->Ok_0.0.values()[i as int])
                &&& (was_sent <==> r->Ok_0.1 is Some)
                &&& (r->Ok_0.1 matches Some(ts) ==> ts@ == types)
            },
            (r is Ok && data.params == 0) ==> r->Ok_0.1 is None,
    {
        match parse_params(p, data.params, &data.bound_types, &data.long_data) {
            Ok((vals, sent)) => Ok((ParamParser { params: vals }, sent)),
            Err(e) => Err(e),
        }
    }

    /// The number of parameters.
    pub fn len(&self) -> (r: usize)
        ensures
            r == self.values().len(),
    {
        self.params.len()
    }

    /// Parameter `i`.
    pub fn get(&self, i: usize) -> (r: &ParamValue)
        requires
            i < self.values().len(),
        ensures
            *r == self.values()[i as int],
    {
        &self.params[i]
    }
}

/// Implementors of this trait can be used to drive a MySQL-compatible database backend.
pub trait MysqlShim {
    /// The error type produced by operations on this shim.
    type Error;

    /// Called when the client issues a request to prepare `query` for later
    /// execution; `info` gives the statement id and its parameter and column types.
    fn on_prepare(&mut self, query: &str, info: &mut StatementMetaWriter) -> Result<(), Self::Error>;

    /// Called when the client executes a previously prepared statement.
    fn on_execute(&mut self, id: u32, params: &ParamParser, results: &mut QueryResultWriter) -> Result<(), Self::Error>;

    /// Called when the client deallocates a prepared statement.
    fn on_close(&mut self, stmt: u32);

    /// Called when the client issues a query for immediate execution.
    fn on_query(&mut self, query: &str, results: &mut QueryResultWriter) -> Result<(), Self::Error>;

    /// Called when the client switches database. By default the switch is
    /// acknowledged with an OK packet.
    fn on_init(&mut self, _schema: &str, writer: &mut InitWriter) -> Result<(), Self::Error> {
        let _ = writer.ok();
        Ok(())
    }

    /// The TLS configuration, if TLS is supported. By default it is not.
    fn tls_config(&self) -> Option<TlsConfig> {
        None
    }

    /// Called after the TLS handshake with the client's certificate chain
    /// (DER). By default it is ignored.
    fn after_tls_handshake(&mut self, _client_certs: &[Vec<u8>]) {
    }
}

/// Why a connection ended in failure.
#[derive(Debug)]
pub enum RunError<E> {
    /// A backend callback failed.
    Backend(E),
    /// The client broke the protocol.
    Protocol(ProtocolError),
}

/// How a client broke the protocol.
#[derive(Clone, Copy, Debug, PartialEq, Eq, Structural)]
pub enum ProtocolError {
    Handshake(HandshakeError),
    /// An unknown opcode, or a command cut short.
    BadCommand,
    /// Text that is not UTF-8.
    BadUtf8,
    /// Parameters of an EXECUTE that do not decode.
    Params(ParamError),
    /// The client asked for TLS, which is not configured.
    TlsNotConfigured,
    /// TLS is required and the client did not ask for it.
    TlsRequired,
    /// The stream ended in the middle of a packet.
    UnexpectedEof,
    /// The stream ended before the client was admitted.
    ConnectionAborted,
}

/// What the caller does next with the connection.
#[derive(Clone, Copy, Debug, PartialEq, Eq, Structural)]
pub enum Action {
    /// Send the output and read on.
    Continue,
    /// Send the output, then switch the transport to TLS; the bytes still
    /// buffered begin the client's TLS handshake.
    StartTls,
    /// Send the output and close the connection.
    Close,
}

/// Where a connection stands.
#[derive(Clone, Copy, Debug, PartialEq, Eq, Structural)]
pub enum ConnPhase {
    AwaitHandshake,
    AwaitTlsHandshake,
    Command,
    Closed,
}

/// Relies on std::str::from_utf8: it fails exactly on bytes that are not
/// UTF-8, and the text it accepts has the bytes it was given.
#[verifier::external_body]
fn utf8_text(b: &[u8]) -> (r: Option<&str>)
    ensures
        r is Some <==> valid_utf8(b@),
        r matches Some(s) ==> s@ == decode_utf8(b@),
{
    std::str::from_utf8(b).ok()
}

/// The initial handshake: protocol 10, the server version, a connection id,
/// the auth seed, the capabilities (4.1 protocol and auth, TLS where
/// `tls`), utf8_general_ci, empty status flags, and the rest of the seed.
pub open spec fn greeting(tls: bool) -> Seq<u8> {
    seq![0x0Au8, 0x35u8, 0x2Eu8, 0x31u8, 0x2Eu8, 0x31u8, 0x30u8, 0x2Du8, 0x61u8, 0x6Cu8, 0x70u8, 0x68u8, 0x61u8, 0x2Du8, 0x6Du8, 0x73u8, 0x71u8, 0x6Cu8, 0x2Du8, 0x70u8, 0x72u8, 0x6Fu8, 0x78u8, 0x79u8, 0x00u8, 0x08u8, 0x00u8, 0x00u8, 0x00u8, 0x3Bu8, 0x58u8, 0x2Cu8, 0x70u8, 0x6Fu8, 0x5Fu8, 0x6Bu8, 0x7Du8, 0x00u8, 0x00u8, 0x42u8, 0x21u8, 0x00u8, 0x00u8, 0x00u8, 0x00u8, 0x00u8, 0x00u8, 0x00u8, 0x00u8, 0x00u8, 0x00u8, 0x00u8, 0x00u8, 0x00u8, 0x00u8, 0x00u8, 0x3Eu8, 0x6Fu8, 0x36u8, 0x5Eu8, 0x57u8, 0x7Au8, 0x21u8, 0x2Fu8, 0x6Bu8, 0x4Du8, 0x7Du8, 0x4Eu8, 0x00u8].update(39, if tls { 0x4Au8 } else { 0x42u8 })
}

/// The name of the one server variable the server answers itself.
pub open spec fn max_allowed_packet_name() -> Seq<u8> {
    seq![0x6Du8, 0x61u8, 0x78u8, 0x5Fu8, 0x61u8, 0x6Cu8, 0x6Cu8, 0x6Fu8, 0x77u8, 0x65u8, 0x64u8, 0x5Fu8, 0x70u8, 0x61u8, 0x63u8, 0x6Bu8, 0x65u8, 0x74u8]
}

/// `SELECT @@` and `select @@`.
pub open spec fn select_var_prefix(upper: bool) -> Seq<u8> {
    if upper {
        seq![0x53u8, 0x45u8, 0x4Cu8, 0x45u8, 0x43u8, 0x54u8, 0x20u8, 0x40u8, 0x40u8]
    } else {
        seq![0x73u8, 0x65u8, 0x6Cu8, 0x65u8, 0x63u8, 0x74u8, 0x20u8, 0x40u8, 0x40u8]
    }
}

/// `USE ` and `use `.
pub open spec fn use_prefix(upper: bool) -> Seq<u8> {
    if upper {
        seq![0x55u8, 0x53u8, 0x45u8, 0x20u8]
    } else {
        seq![0x75u8, 0x73u8, 0x65u8, 0x20u8]
    }
}

/// Whether the query asks for a server variable.
pub open spec fn is_select_var(q: Seq<u8>) -> bool {
    starts_with(q, select_var_prefix(true)) || starts_with(q, select_var_prefix(false))
}

/// Whether the query is a `USE`.
pub open spec fn is_use(q: Seq<u8>) -> bool {
    starts_with(q, use_prefix(true)) || starts_with(q, use_prefix(false))
}

/// The answer to `SELECT @@max_allowed_packet`: one UNSIGNED LONG column and
/// one row holding 67108864.
pub open spec fn max_allowed_packet_reply() -> Seq<Seq<u8>> {
    seq![
        seq![1u8],
        column_def_bytes(Seq::empty(), seq![0x40u8, 0x40u8] + max_allowed_packet_name(), ColumnType::MYSQL_TYPE_LONG, UNSIGNED_FLAG, false),
        eof_packet(0),
        lenenc_str(decimal(67108864)),
        eof_packet(0),
    ]
}

/// The name of the one column of the answer to FIELD_LIST.
pub open spec fn not_implemented_name() -> Seq<u8> {
    seq![0x6Eu8, 0x6Fu8, 0x74u8, 0x20u8, 0x69u8, 0x6Du8, 0x70u8, 0x6Cu8, 0x65u8, 0x6Du8, 0x65u8, 0x6Eu8, 0x74u8, 0x65u8, 0x64u8]
}

/// The answer to FIELD_LIST: a placeholder column, then an EOF.
pub open spec fn field_list_reply() -> Seq<Seq<u8>> {
    seq![
        column_def_bytes(Seq::empty(), not_implemented_name(), ColumnType::MYSQL_TYPE_SHORT, UNSIGNED_FLAG, true),
        eof_packet(0),
    ]
}

/// The text of the error that refuses a client without TLS where TLS is required.
pub open spec fn tls_required_msg() -> Seq<u8> {
    seq![0x70u8, 0x6Cu8, 0x65u8, 0x61u8, 0x73u8, 0x65u8, 0x20u8, 0x63u8, 0x6Fu8, 0x6Eu8, 0x6Eu8, 0x65u8, 0x63u8, 0x74u8, 0x20u8, 0x77u8, 0x69u8, 0x74u8, 0x68u8, 0x20u8, 0x53u8, 0x53u8, 0x4Cu8, 0x20u8, 0x65u8, 0x6Eu8, 0x61u8, 0x62u8, 0x6Cu8, 0x65u8, 0x64u8]
}

/// The text of the error that answers a command on an unknown statement.
pub open spec fn unknown_stmt_msg() -> Seq<u8> {
    seq![0x75u8, 0x6Eu8, 0x6Bu8, 0x6Eu8, 0x6Fu8, 0x77u8, 0x6Eu8, 0x20u8, 0x73u8, 0x74u8, 0x61u8, 0x74u8, 0x65u8, 0x6Du8, 0x65u8, 0x6Eu8, 0x74u8]
}

/// The initial handshake.
fn build_greeting(tls: bool) -> (r: Vec<u8>)
    ensures
        r@ == greeting(tls),
{
    let mut r: Vec<u8> = Vec::new();
    push_bytes(&mut r, &[0x0Au8, 0x35u8, 0x2Eu8, 0x31u8, 0x2Eu8, 0x31u8, 0x30u8, 0x2Du8, 0x61u8, 0x6Cu8, 0x70u8, 0x68u8, 0x61u8, 0x2Du8, 0x6Du8, 0x73u8, 0x71u8, 0x6Cu8, 0x2Du8, 0x70u8, 0x72u8, 0x6Fu8, 0x78u8, 0x79u8, 0x00u8, 0x08u8, 0x00u8, 0x00u8, 0x00u8, 0x3Bu8, 0x58u8, 0x2Cu8, 0x70u8, 0x6Fu8, 0x5Fu8, 0x6Bu8, 0x7Du8, 0x00u8, 0x00u8, 0x42u8, 0x21u8, 0x00u8, 0x00u8, 0x00u8, 0x00u8, 0x00u8, 0x00u8, 0x00u8, 0x00u8, 0x00u8, 0x00u8, 0x00u8, 0x00u8, 0x00u8, 0x00u8, 0x00u8, 0x3Eu8, 0x6Fu8, 0x36u8, 0x5Eu8, 0x57u8, 0x7Au8, 0x21u8, 0x2Fu8, 0x6Bu8, 0x4Du8, 0x7Du8, 0x4Eu8, 0x00u8]);
    r.set(39, if tls { 0x4A } else { 0x42 });
    assert(r@ =~= greeting(tls));
    r
}

/// A MySQL/MariaDB server for one connection, delegating client commands to
/// a backend. It performs no I/O: the caller hands it the bytes the client
/// sent and sends back the bytes it produces.
pub struct MysqlIntermediary<B> {
    shim: B,
    stmts: Vec<(u32, StatementData)>,
    reader: PacketReader,
    writer: PacketWriter,
    out: Vec<u8>,
    phase: ConnPhase,
    tls: Option<bool>,
}

impl<B: MysqlShim> MysqlIntermediary<B> {
    pub closed spec fn inv(&self) -> bool {
        &&& self.writer.wf()
        &&& self.writer.output() == Seq::<u8>::empty()
        &&& ids_unique(self.stmts@)
    }

    /// How the backend configured TLS when the connection began: not at all
    /// (`None`), or whether it requires it.
    pub closed spec fn tls(&self) -> Option<bool> {
        self.tls
    }

    /// The backend.
    pub closed spec fn backend(&self) -> B {
        self.shim
    }

    /// The backend.
    pub fn shim(&self) -> (r: &B)
        ensures
            *r == self.backend(),
    {
        &self.shim
    }

    /// The bytes produced and not yet taken.
    pub closed spec fn output(&self) -> Seq<u8> {
        self.out@
    }

    pub closed spec fn phase(&self) -> ConnPhase {
        self.phase
    }

    /// The prepared statements, by id.
    pub closed spec fn statements(&self) -> Seq<(u32, StatementData)> {
        self.stmts@
    }

    /// The bytes received and not yet handled.
    pub closed spec fn buffered(&self) -> Seq<u8> {
        self.reader@
    }

    /// A server for a new connection over `shim`; its output holds the initial handshake.
    pub fn new(shim: B) -> (r: Self)
        ensures
            r.inv(),
            r.phase() == ConnPhase::AwaitHandshake,
            r.output() == frames(0, seq![greeting(r.tls() is Some)]),
            r.statements() == Seq::<(u32, StatementData)>::empty(),
            r.buffered() == Seq::<u8>::empty(),
    {
        let tls = match shim.tls_config() {
            Some(c) => Some(c.require_tls),
            None => None,
        };
        let mut writer = PacketWriter::new();
        let g = build_greeting(tls.is_some());
        writer.write_packet(g.as_slice());
        assert(writer.messages() =~= seq![greeting(tls is Some)]);
        assert(seq![greeting(tls is Some)].drop_last() =~= Seq::<Seq<u8>>::empty());
        let out = writer.take_output();
        MysqlIntermediary { shim, stmts: Vec::new(), reader: PacketReader::new(), writer, out, phase: ConnPhase::AwaitHandshake, tls }
    }

    /// Frames the answer `msgs` to a packet numbered `s`: its packets are
    /// numbered from `s + 1` on.
    pub fn respond(&mut self, s: u8, msgs: Vec<Vec<u8>>)
        requires
            old(self).inv(),
        ensures
            final(self).inv(),
            final(self).tls() == old(self).tls(),
            final(self).output() == old(self).output() + frames(seq_after(s, 1), payloads(msgs@)),
            answered(old(self).output(), final(self).output(), s),
            final(self).statements() == old(self).statements(),
            final(self).phase() == old(self).phase(),
            final(self).buffered() == old(self).buffered(),
            final(self).backend() == old(self).backend(),
    {
        let ghost answer = payloads(msgs@);
        let first: u8 = if s == 255 { 0 } else { s + 1 };
        self.writer.set_seq(first);
        let mut i: usize = 0;
        while i < msgs.len()
            invariant
                i <= msgs@.len(),
                self.writer.wf(),
                self.writer.first_seq() == first,
                self.writer.messages() == payloads(msgs@).take(i as int),
                self.writer.output() == frames(first, self.writer.messages()),
                self.stmts == old(self).stmts,
                self.phase == old(self).phase,
                self.reader == old(self).reader,
                self.out == old(self).out,
                self.shim == old(self).shim,
                self.tls == old(self).tls,
                ids_unique(self.stmts@),
            decreases msgs@.len() - i,
        {
            self.writer.write_packet(msgs[i].as_slice());
            i = i + 1;
            assert(self.writer.messages() =~= payloads(msgs@).take(i as int));
            assert(self.writer.messages().drop_last() =~= payloads(msgs@).take(i - 1));
        }
        assert(payloads(msgs@).take(i as int) =~= payloads(msgs@));
        let mut produced = self.writer.take_output();
        self.out.append(&mut produced);
        assert(self.out@ == old(self).out@ + frames(seq_after(s, 1), answer));
    }

    /// Answers a command on a statement the table does not hold.
    fn unknown_statement(&mut self, s: u8)
        requires
            old(self).inv(),
        ensures
            final(self).inv(),
            final(self).tls() == old(self).tls(),
            final(self).output() == old(self).output() + frames(seq_after(s, 1), seq![unknown_stmt_err()]),
            answered(old(self).output(), final(self).output(), s),
            final(self).statements() == old(self).statements(),
            final(self).phase() == old(self).phase(),
            final(self).buffered() == old(self).buffered(),
            final(self).backend() == old(self).backend(),
    {
        let msg: [u8; 17] = [0x75, 0x6E, 0x6B, 0x6E, 0x6F, 0x77, 0x6E, 0x20, 0x73, 0x74, 0x61, 0x74, 0x65, 0x6D, 0x65, 0x6E, 0x74];
        let e = build_err(ErrorKind::unknown_stmt_handler(), &msg);
        assert(e@ =~= unknown_stmt_err());
        let mut msgs: Vec<Vec<u8>> = Vec::new();
        msgs.push(e);
        assert(payloads(msgs@) =~= seq![unknown_stmt_err()]);
        self.respond(s, msgs);
    }

    /// Executes statement `stmt` with the parameters `params` (what follows
    /// the iteration count), answering a packet numbered `s`. An unknown
    /// statement is answered with an ERR packet. Afterwards the statement's
    /// bytes sent ahead are gone, and its types are those this execution sent,
    /// if it sent any, else those it had.
    pub fn execute(&mut self, s: u8, stmt: u32, params: &[u8]) -> (r: Result<(), RunError<B::Error>>)
        requires
            old(self).inv(),
        ensures
            final(self).inv(),
            final(self).tls() == old(self).tls(),
            r is Err ==> (r matches Err(RunError::Backend(_)) || r matches Err(RunError::Protocol(ProtocolError::Params(_)))),
            answered(old(self).output(), final(self).output(), s),
            final(self).phase() == old(self).phase(),
            final(self).buffered() == old(self).buffered(),
            !has_stmt(old(self).statements(), stmt) ==> {
                &&& r is Ok
                &&& final(self).statements() == old(self).statements()
                &&& final(self).output() == old(self).output() + frames(seq_after(s, 1), seq![unknown_stmt_err()])
                &&& final(self).backend() == old(self).backend()
            },
            r matches Err(RunError::Protocol(_)) ==> final(self).output() == old(self).output() && final(self).backend() == old(self).backend(),
            has_stmt(old(self).statements(), stmt) ==> {
                &&& final(self).statements().len() == old(self).statements().len()
                &&& forall|i: int| 0 <= i < old(self).statements().len() ==> {
                    let (id, old_data) = #[trigger] old(self).statements()[i];
                    let new_data = final(self).statements()[i].1;
                    &&& final(self).statements()[i].0 == id
                    &&& id != stmt ==> final(self).statements()[i] == old(self).statements()[i]
                    &&& id == stmt ==> {
                        &&& (r matches Err(RunError::Protocol(_))) <==> !params_decode(params@, old_data.params, old_data.bound_types@, old_data.long_data@)
                        &&& new_data.long_data@.len() == 0
                        &&& new_data.params == old_data.params
                        &&& new_data.bound_types@ == match layout(params@, old_data.params as nat, old_data.bound_types@) {
                            Ok((types, true, _)) => if old_data.params > 0 && !(r matches Err(RunError::Protocol(_))) {
                                types
                            } else {
                                old_data.bound_types@
                            },
                            _ => old_data.bound_types@,
                        }
                    }
                }
            },
    {
        match find_stmt(&self.stmts, stmt) {
            None => {
                self.unknown_statement(s);
                Ok(())
            },
            Some(i) => {
                let ghost before = self.stmts@;
                let (id, data) = self.stmts.remove(i);
                let parsed = ParamParser::decode(params, &data);
                let StatementData { long_data, bound_types, params: n } = data;
                match parsed {
                    Err(e) => {
                        self.stmts.insert(i, (id, StatementData { long_data: Vec::new(), bound_types, params: n }));
                        proof {
                            lemma_ids_kept(before, self.stmts@, i as int);
                            lemma_only_entry(before, i as int);
                        }
                        Err(RunError::Protocol(ProtocolError::Params(e)))
                    },
                    Ok((pp, sent)) => {
                        let mut w = QueryResultWriter::new(true);
                        let res = self.shim.on_execute(stmt, &pp, &mut w);
                        let msgs = w.into_messages();
                        self.respond(s, msgs);
                        let bound = match sent {
                            Some(ts) => ts,
                            None => bound_types,
                        };
                        self.stmts.insert(i, (id, StatementData { long_data: Vec::new(), bound_types: bound, params: n }));
                        proof {
                            lemma_ids_kept(before, self.stmts@, i as int);
                            lemma_only_entry(before, i as int);
                        }
                        match res {
                            Ok(()) => Ok(()),
                            Err(e) => Err(RunError::Backend(e)),
                        }
                    },
                }
            },
        }
    }

    /// Adds `data` to the bytes sent ahead for parameter `param` of statement
    /// `stmt`. Nothing is sent back, but for an unknown statement, which is
    /// answered with an ERR packet.
    pub fn send_long_data(&mut self, s: u8, stmt: u32, param: u16, data: &[u8])
        requires
            old(self).inv(),
        ensures
            final(self).inv(),
            final(self).tls() == old(self).tls(),
            answered(old(self).output(), final(self).output(), s),
            final(self).phase() == old(self).phase(),
            final(self).buffered() == old(self).buffered(),
            final(self).backend() == old(self).backend(),
            !has_stmt(old(self).statements(), stmt) ==> final(self).statements() == old(self).statements()
                && final(self).output() == old(self).output() + frames(seq_after(s, 1), seq![unknown_stmt_err()]),
            has_stmt(old(self).statements(), stmt) ==> {
                &&& final(self).output() == old(self).output()
                &&& final(self).statements().len() == old(self).statements().len()
                &&& forall|i: int| 0 <= i < old(self).statements().len() ==> {
                    let (id, old_data) = #[trigger] old(self).statements()[i];
                    let new_data = final(self).statements()[i].1;
                    &&& final(self).statements()[i].0 == id
                    &&& id != stmt ==> final(self).statements()[i] == old(self).statements()[i]
                    &&& id == stmt ==> {
                        &&& new_data.params == old_data.params
                        &&& new_data.bound_types == old_data.bound_types
                        &&& long_lookup(new_data.long_data@, param) == Some(
                            match long_lookup(old_data.long_data@, param) {
                                Some(b) => b + data@,
                                None => data@,
                            },
                        )
                        &&& forall|q: u16| q != param ==> long_lookup(new_data.long_data@, q) == long_lookup(old_data.long_data@, q)
                    }
                }
            },
    {
        match find_stmt(&self.stmts, stmt) {
            None => self.unknown_statement(s),
            Some(i) => {
                let ghost before = self.stmts@;
                let (id, entry) = self.stmts.remove(i);
                let StatementData { long_data, bound_types, params: n } = entry;
                let mut long_data = long_data;
                append_long_data(&mut long_data, param, data);
                self.stmts.insert(i, (id, StatementData { long_data, bound_types, params: n }));
                proof {
                    lemma_ids_kept(before, self.stmts@, i as int);
                    lemma_only_entry(before, i as int);
                }
            },
        }
    }

    /// Deallocates statement `stmt`: the backend is told, and the table no
    /// longer holds it. Nothing is sent back.
    pub fn close_statement(&mut self, stmt: u32)
        requires
            old(self).inv(),
        ensures
            final(self).inv(),
            final(self).tls() == old(self).tls(),
            final(self).phase() == old(self).phase(),
            final(self).buffered() == old(self).buffered(),
            final(self).output() == old(self).output(),
            !has_stmt(final(self).statements(), stmt),
            forall|k: u32| k != stmt ==> (has_stmt(final(self).statements(), k) <==> has_stmt(old(self).statements(), k)),
    {
        self.shim.on_close(stmt);
        remove_stmt(&mut self.stmts, stmt);
    }

    /// Registers statement `id` with `n` parameters, replacing an entry of the same id.
    fn register(&mut self, id: u32, n: u16)
        requires
            old(self).inv(),
        ensures
            final(self).inv(),
            final(self).tls() == old(self).tls(),
            final(self).phase() == old(self).phase(),
            final(self).buffered() == old(self).buffered(),
            final(self).output() == old(self).output(),
            final(self).backend() == old(self).backend(),
            has_stmt(final(self).statements(), id),
            forall|k: u32| k != id ==> (has_stmt(final(self).statements(), k) <==> has_stmt(old(self).statements(), k)),
            registered(old(self).statements(), final(self).statements(), id, n),
    {
        remove_stmt(&mut self.stmts, id);
        let ghost before = self.stmts@;
        self.stmts.push((id, StatementData { long_data: Vec::new(), bound_types: Vec::new(), params: n }));
        proof {
            let t = self.stmts@;
            assert(t[t.len() - 1].0 == id);
            assert forall|a: int, b: int| 0 <= a < b < t.len() implies t[a].0 != t[b].0 by {
                if b < t.len() - 1 {
                    assert(before[a].0 != before[b].0);
                } else {
                    assert(t[a] == before[a]);
                }
            }
            assert forall|k: u32| k != id implies (has_stmt(t, k) <==> has_stmt(before, k)) by {
                if has_stmt(t, k) {
                    let j = choose|j: int| 0 <= j < t.len() && t[j].0 == k;
                    assert(before[j].0 == k);
                }
                if has_stmt(before, k) {
                    let j = choose|j: int| 0 <= j < before.len() && before[j].0 == k;
                    assert(t[j].0 == k);
                }
            }
            let last = t.len() - 1;
            assert(t[last].0 == id && t[last].1.params == n);
            assert forall|a: int| 0 <= a < t.len() && t[a].0 != id implies old(self).stmts@.contains(#[trigger] t[a]) by {
                assert(a < last);
                assert(t[a] == before[a]);
                assert(before.contains(before[a]));
            }
            assert forall|a: int| 0 <= a < old(self).stmts@.len() && old(self).stmts@[a].0 != id implies t.contains(#[trigger] old(self).stmts@[a]) by {
                let x = old(self).stmts@[a];
                assert(before.contains(x));
                let b = choose|b: int| 0 <= b < before.len() && before[b] == x;
                assert(t[b] == x);
            }
        }
    }

    /// Answers PREPARE of `query` through the backend, and registers the
    /// statement its reply introduces (replacing one of the same id). Query
    /// text that is not UTF-8 is a protocol error.
    pub fn prepare(&mut self, s: u8, query: &[u8]) -> (r: Result<(), RunError<B::Error>>)
        requires
            old(self).inv(),
        ensures
            final(self).inv(),
            final(self).tls() == old(self).tls(),
            forall|k: u32| has_stmt(old(self).statements(), k) ==> has_stmt(final(self).statements(), k),
            final(self).statements() == old(self).statements() || exists|id: u32, n: u16| registered(old(self).statements(), final(self).statements(), id, n),
            r is Err ==> (r matches Err(RunError::Backend(_)) || r == Err::<(), RunError<B::Error>>(RunError::Protocol(ProtocolError::BadUtf8))),
            r == Err::<(), RunError<B::Error>>(RunError::Protocol(ProtocolError::BadUtf8)) <==> !valid_utf8(query@),
            !valid_utf8(query@) ==> final(self).output() == old(self).output() && final(self).backend() == old(self).backend(),
            answered(old(self).output(), final(self).output(), s),
            final(self).phase() == old(self).phase(),
            final(self).buffered() == old(self).buffered(),
    {
        let q = match utf8_text(query) {
            Some(q) => q,
            None => return Err(RunError::Protocol(ProtocolError::BadUtf8)),
        };
        let mut w = StatementMetaWriter::new();
        let res = self.shim.on_prepare(q, &mut w);
        let (msgs, registered) = w.into_parts();
        if let Some((id, n)) = registered {
            self.register(id, n);
        }
        self.respond(s, msgs);
        match res {
            Ok(()) => Ok(()),
            Err(e) => Err(RunError::Backend(e)),
        }
    }

    /// Answers a change of schema to `schema` through the backend.
    pub fn init_db(&mut self, s: u8, schema: &[u8]) -> (r: Result<(), RunError<B::Error>>)
        requires
            old(self).inv(),
        ensures
            final(self).inv(),
            final(self).tls() == old(self).tls(),
            r is Err ==> (r matches Err(RunError::Backend(_)) || r == Err::<(), RunError<B::Error>>(RunError::Protocol(ProtocolError::BadUtf8))),
            r == Err::<(), RunError<B::Error>>(RunError::Protocol(ProtocolError::BadUtf8)) <==> !valid_utf8(schema@),
            !valid_utf8(schema@) ==> final(self).output() == old(self).output() && final(self).backend() == old(self).backend(),
            answered(old(self).output(), final(self).output(), s),
            final(self).phase() == old(self).phase(),
            final(self).buffered() == old(self).buffered(),
            final(self).statements() == old(self).statements(),
    {
        let q = match utf8_text(schema) {
            Some(q) => q,
            None => return Err(RunError::Protocol(ProtocolError::BadUtf8)),
        };
        let mut w = InitWriter::new();
        let res = self.shim.on_init(q, &mut w);
        self.respond(s, w.into_messages());
        match res {
            Ok(()) => Ok(()),
            Err(e) => Err(RunError::Backend(e)),
        }
    }

    /// Answers the query `q`. `SELECT @@max_allowed_packet` is answered
    /// without the backend, with one row holding 67108864; any other
    /// `SELECT @@` with an empty result; `USE` goes to the backend as a change
    /// of schema; anything else to the backend as a query.
    pub fn query(&mut self, s: u8, q: &[u8]) -> (r: Result<(), RunError<B::Error>>)
        requires
            old(self).inv(),
        ensures
            (!is_select_var(q@) && !is_use(q@)) ==> (r == Err::<(), RunError<B::Error>>(RunError::Protocol(ProtocolError::BadUtf8)) <==> !valid_utf8(q@)),
            (!is_select_var(q@) && is_use(q@) && !valid_utf8(q@.skip(4))) ==> r == Err::<(), RunError<B::Error>>(RunError::Protocol(ProtocolError::BadUtf8)),
            final(self).inv(),
            final(self).tls() == old(self).tls(),
            r is Err ==> (r matches Err(RunError::Backend(_)) || r == Err::<(), RunError<B::Error>>(RunError::Protocol(ProtocolError::BadUtf8))),
            answered(old(self).output(), final(self).output(), s),
            final(self).phase() == old(self).phase(),
            final(self).buffered() == old(self).buffered(),
            final(self).statements() == old(self).statements(),
            is_select_var(q@) ==> {
                &&& r is Ok
                &&& final(self).backend() == old(self).backend()
                &&& final(self).output() == old(self).output() + frames(
                    seq_after(s, 1),
                    if q@.skip(9) == max_allowed_packet_name() { max_allowed_packet_reply() } else { seq![ok_packet(0, 0, 0)] },
                )
            },
    {
        let upper: [u8; 9] = [0x53, 0x45, 0x4C, 0x45, 0x43, 0x54, 0x20, 0x40, 0x40];
        let lower: [u8; 9] = [0x73, 0x65, 0x6C, 0x65, 0x63, 0x74, 0x20, 0x40, 0x40];
        assert(upper@ =~= select_var_prefix(true));
        assert(lower@ =~= select_var_prefix(false));
        if has_prefix(q, &upper) || has_prefix(q, &lower) {
            let var = slice_range(q, 9, q.len());
            let name: [u8; 18] = [0x6D, 0x61, 0x78, 0x5F, 0x61, 0x6C, 0x6C, 0x6F, 0x77, 0x65, 0x64, 0x5F, 0x70, 0x61, 0x63, 0x6B, 0x65, 0x74];
            assert(name@ =~= max_allowed_packet_name());
            assert(var@ =~= q@.skip(9));
            let mut msgs: Vec<Vec<u8>> = Vec::new();
            if var.len() == 18 && has_prefix(var, &name) {
                assert(var@ =~= var@.take(18));
                let mut count: Vec<u8> = Vec::new();
                count.push(1);
                msgs.push(count);
                let col: [u8; 20] = [0x40, 0x40, 0x6D, 0x61, 0x78, 0x5F, 0x61, 0x6C, 0x6C, 0x6F, 0x77, 0x65, 0x64, 0x5F, 0x70, 0x61, 0x63, 0x6B, 0x65, 0x74];
                assert(col@ =~= seq![0x40u8, 0x40u8] + max_allowed_packet_name());
                msgs.push(build_column_def_bytes(&[], &col, ColumnType::MYSQL_TYPE_LONG, UNSIGNED_FLAG, false));
                msgs.push(build_eof(0));
                let mut row: Vec<u8> = Vec::new();
                write_text_value(&mut row, &Value::UInt(67108864));
                msgs.push(row);
                msgs.push(build_eof(0));
                assert(payloads(msgs@) =~= max_allowed_packet_reply());
            } else {
                assert(var@ != max_allowed_packet_name()) by {
                    if var@.len() == 18 {
                        assert(!starts_with(var@, name@));
                        assert(var@.take(18) =~= var@);
                    }
                }
                msgs.push(build_ok(0, 0, 0));
                assert(payloads(msgs@) =~= seq![ok_packet(0, 0, 0)]);
            }
            self.respond(s, msgs);
            return Ok(());
        }
        let use_upper: [u8; 4] = [0x55, 0x53, 0x45, 0x20];
        let use_lower: [u8; 4] = [0x75, 0x73, 0x65, 0x20];
        if has_prefix(q, &use_upper) || has_prefix(q, &use_lower) {
            let text = match utf8_text(slice_range(q, 4, q.len())) {
                Some(t) => t,
                None => return Err(RunError::Protocol(ProtocolError::BadUtf8)),
            };
            let t = trimmed(text);
            let schema = schema_of_use(t.as_str().as_bytes());
            return self.init_db(s, schema.as_slice());
        }
        let text = match utf8_text(q) {
            Some(t) => t,
            None => return Err(RunError::Protocol(ProtocolError::BadUtf8)),
        };
        let mut w = QueryResultWriter::new(false);
        let res = self.shim.on_query(text, &mut w);
        self.respond(s, w.into_messages());
        match res {
            Ok(()) => Ok(()),
            Err(e) => Err(RunError::Backend(e)),
        }
    }

    /// Handles the client's handshake response `payload`, numbered `s`, as
    /// `handshake_law` says: a request for TLS asks the caller to switch the
    /// transport (or, where TLS is not configured, is refused with
    /// ACCESS_DENIED); where TLS is required and the client does not ask for
    /// it, the client is refused with ACCESS_DENIED; otherwise an OK packet
    /// admits it.
    pub fn handshake(&mut self, s: u8, payload: &[u8]) -> (r: Result<Action, RunError<B::Error>>)
        requires
            old(self).inv(),
            old(self).phase() == ConnPhase::AwaitHandshake || old(self).phase() == ConnPhase::AwaitTlsHandshake,
        ensures
            final(self).inv(),
            final(self).tls() == old(self).tls(),
            answered(old(self).output(), final(self).output(), s),
            final(self).buffered() == old(self).buffered(),
            final(self).statements() == old(self).statements(),
            handshake_law(payload@, s, old(self).phase() == ConnPhase::AwaitHandshake, old(self).tls(), old(self).output(), final(self).output(), final(self).phase(), r),
            r != Ok::<Action, RunError<B::Error>>(Action::Close),
    {
        let h = match parse_client_handshake(payload) {
            Err(e) => {
                self.phase = ConnPhase::Closed;
                return Err(RunError::Protocol(ProtocolError::Handshake(e)));
            },
            Ok(h) => h,
        };
        let tls = self.tls;
        let first = self.phase == ConnPhase::AwaitHandshake;
        let ssl = h.capabilities & CLIENT_SSL != 0;
        match decide_handshake(first, ssl, tls) {
            HandshakeStep::StartTls => {
                self.phase = ConnPhase::AwaitTlsHandshake;
                Ok(Action::StartTls)
            },
            HandshakeStep::RefuseNoTls => {
                let msg: [u8; 21] = [0x53, 0x53, 0x4C, 0x20, 0x69, 0x73, 0x20, 0x6E, 0x6F, 0x74, 0x20, 0x63, 0x6F, 0x6E, 0x66, 0x69, 0x67, 0x75, 0x72, 0x65, 0x64];
                let e = build_err(ErrorKind::access_denied(), &msg);
                assert(e@ =~= tls_unavailable_err());
                let mut msgs: Vec<Vec<u8>> = Vec::new();
                msgs.push(e);
                assert(payloads(msgs@) =~= seq![tls_unavailable_err()]);
                self.respond(s, msgs);
                self.phase = ConnPhase::Closed;
                Err(RunError::Protocol(ProtocolError::TlsNotConfigured))
            },
            HandshakeStep::RefuseTlsRequired => {
                let msg: [u8; 31] = [0x70, 0x6C, 0x65, 0x61, 0x73, 0x65, 0x20, 0x63, 0x6F, 0x6E, 0x6E, 0x65, 0x63, 0x74, 0x20, 0x77, 0x69, 0x74, 0x68, 0x20, 0x53, 0x53, 0x4C, 0x20, 0x65, 0x6E, 0x61, 0x62, 0x6C, 0x65, 0x64];
                let e = build_err(ErrorKind::access_denied(), &msg);
                assert(e@ =~= tls_required_err());
                let mut msgs: Vec<Vec<u8>> = Vec::new();
                msgs.push(e);
                assert(payloads(msgs@) =~= seq![tls_required_err()]);
                self.respond(s, msgs);
                self.phase = ConnPhase::Closed;
                Err(RunError::Protocol(ProtocolError::TlsRequired))
            },
            HandshakeStep::Admit => {
                let mut msgs: Vec<Vec<u8>> = Vec::new();
                msgs.push(build_ok(0, 0, 0));
                assert(payloads(msgs@) =~= seq![ok_packet(0, 0, 0)]);
                self.respond(s, msgs);
                self.phase = ConnPhase::Command;
                Ok(Action::Continue)
            },
        }
    }

    /// Handles the command packet `payload`, numbered `s`. QUIT closes the
    /// connection; a packet that is no command is a fatal protocol error.
    pub fn command(&mut self, s: u8, payload: &[u8]) -> (r: Result<Action, RunError<B::Error>>)
        requires
            old(self).inv(),
        ensures
            final(self).inv(),
            final(self).tls() == old(self).tls(),
            answered(old(self).output(), final(self).output(), s),
            final(self).buffered() == old(self).buffered(),
            final(self).phase() == old(self).phase(),
            r != Ok::<Action, RunError<B::Error>>(Action::StartTls),
            command_law(payload@, s, old(self).output(), final(self).output(), old(self).statements(), final(self).statements(), r),
            backend_untouched(payload@, old(self).statements()) ==> final(self).backend() == old(self).backend(),
    {
        let cmd = match parse_command(payload) {
            None => return Err(RunError::Protocol(ProtocolError::BadCommand)),
            Some(c) => c,
        };
        proof { lemma_opcodes_distinct(payload@, cmd); }
        let res = match cmd {
            Command::Quit => return Ok(Action::Close),
            Command::Ping => {
                let mut msgs: Vec<Vec<u8>> = Vec::new();
                msgs.push(build_ok(0, 0, 0));
                assert(payloads(msgs@) =~= seq![ok_packet(0, 0, 0)]);
                self.respond(s, msgs);
                Ok(())
            },
            Command::Query(q) => self.query(s, q.as_slice()),
            Command::Prepare(q) => self.prepare(s, q.as_slice()),
            Command::Init(schema) => self.init_db(s, schema.as_slice()),
            Command::Execute { stmt, params } => self.execute(s, stmt, params.as_slice()),
            Command::SendLongData { stmt, param, data } => {
                self.send_long_data(s, stmt, param, data.as_slice());
                Ok(())
            },
            Command::Close(stmt) => {
                self.close_statement(stmt);
                Ok(())
            },
            Command::ListFields(_) => {
                let mut msgs: Vec<Vec<u8>> = Vec::new();
                let name: [u8; 15] = [0x6E, 0x6F, 0x74, 0x20, 0x69, 0x6D, 0x70, 0x6C, 0x65, 0x6D, 0x65, 0x6E, 0x74, 0x65, 0x64];
                assert(name@ =~= not_implemented_name());
                msgs.push(build_column_def_bytes(&[], &name, ColumnType::MYSQL_TYPE_SHORT, UNSIGNED_FLAG, true));
                msgs.push(build_eof(0));
                assert(payloads(msgs@) =~= field_list_reply());
                self.respond(s, msgs);
                Ok(())
            },
        };
        match res {
            Ok(()) => Ok(Action::Continue),
            Err(e) => Err(e),
        }
    }

    /// Handles the message `payload`, numbered `s`, as the connection's phase calls for.
    pub fn handle_packet(&mut self, s: u8, payload: &[u8]) -> (r: Result<Action, RunError<B::Error>>)
        requires
            old(self).inv(),
        ensures
            final(self).inv(),
            final(self).tls() == old(self).tls(),
            answered(old(self).output(), final(self).output(), s),
            final(self).buffered() == old(self).buffered(),
            r is Err ==> final(self).phase() == ConnPhase::Closed,
            r == Ok::<Action, RunError<B::Error>>(Action::Close) ==> final(self).phase() == ConnPhase::Closed,
            r == Ok::<Action, RunError<B::Error>>(Action::StartTls) ==> final(self).phase() == ConnPhase::AwaitTlsHandshake && old(self).phase() == ConnPhase::AwaitHandshake,
            old(self).phase() == ConnPhase::Command ==> command_law(payload@, s, old(self).output(), final(self).output(), old(self).statements(), final(self).statements(), r),
            old(self).phase() == ConnPhase::Command && r == Ok::<Action, RunError<B::Error>>(Action::Continue) ==> final(self).phase() == ConnPhase::Command,
            old(self).phase() == ConnPhase::Command && backend_untouched(payload@, old(self).statements()) ==> final(self).backend() == old(self).backend(),
            (old(self).phase() == ConnPhase::AwaitHandshake || old(self).phase() == ConnPhase::AwaitTlsHandshake) ==> handshake_law(
                payload@, s, old(self).phase() == ConnPhase::AwaitHandshake, old(self).tls(), old(self).output(), final(self).output(), final(self).phase(), r),
            old(self).phase() == ConnPhase::Closed ==> r == Ok::<Action, RunError<B::Error>>(Action::Close) && final(self).output() == old(self).output(),
            step_law(payload@, s, old(self).phase(), old(self).tls(), old(self).output(), final(self).output(), old(self).statements(),
                final(self).statements(), final(self).phase(), r),
    {
        let r = match self.phase {
            ConnPhase::Closed => return Ok(Action::Close),
            ConnPhase::Command => self.command(s, payload),
            _ => self.handshake(s, payload),
        };
        match r {
            Ok(Action::Continue) => {},
            Ok(Action::StartTls) => {},
            _ => {
                self.phase = ConnPhase::Closed;
            },
        }
        r
    }

    /// Handles the bytes `bytes` the client sent, message by message, until
    /// more bytes are needed, the connection closes, or the transport is to
    /// switch to TLS (the bytes still buffered then begin the client's TLS
    /// handshake, and are left for `take_buffered`).
    #[verifier::rlimit(100)]
    pub fn on_input(&mut self, bytes: &[u8]) -> (r: Result<Action, RunError<B::Error>>)
        requires
            old(self).inv(),
        ensures
            final(self).inv(),
            final(self).tls() == old(self).tls(),
            r is Err ==> final(self).phase() == ConnPhase::Closed,
            r == Ok::<Action, RunError<B::Error>>(Action::Close) ==> final(self).phase() == ConnPhase::Closed,
            r == Ok::<Action, RunError<B::Error>>(Action::Continue) ==> crate::packet::parse_message(final(self).buffered()) is None,
            old(self).output().is_prefix_of(final(self).output()),
            (bytes@.len() == 0 && old(self).buffered().len() == 0 && old(self).phase() != ConnPhase::Closed) ==> {
                &&& r == Ok::<Action, RunError<B::Error>>(Action::Continue)
                &&& final(self).phase() == old(self).phase()
                &&& final(self).buffered().len() == 0
            },
            r == Ok::<Action, RunError<B::Error>>(Action::StartTls) ==> final(self).phase() == ConnPhase::AwaitTlsHandshake,
            exists|k: int| 0 <= k <= old(self).buffered().len() + bytes@.len() && #[trigger] (old(self).buffered() + bytes@).skip(k) == final(self).buffered(),
            session_law(old(self).buffered() + bytes@, old(self).phase(), old(self).tls(), old(self).output(), old(self).statements(),
                final(self).output(), final(self).statements(), r),
            // Nothing complete: the bytes wait for more.
            (parse_message(old(self).buffered() + bytes@) is None && old(self).phase() != ConnPhase::Closed) ==> {
                &&& r == Ok::<Action, RunError<B::Error>>(Action::Continue)
                &&& final(self).buffered() == old(self).buffered() + bytes@
                &&& final(self).phase() == old(self).phase()
                &&& final(self).output() == old(self).output()
            },
            // A switch to TLS leaves exactly the bytes after the request for it.
            r == Ok::<Action, RunError<B::Error>>(Action::StartTls) ==> {
                &&& old(self).phase() == ConnPhase::AwaitHandshake
                &&& parse_message(old(self).buffered() + bytes@) is Some
                &&& final(self).buffered() == (old(self).buffered() + bytes@).skip(message_len(old(self).buffered() + bytes@) as int)
            },
            // The first message answers as the handshake law says.
            ((old(self).phase() == ConnPhase::AwaitHandshake || old(self).phase() == ConnPhase::AwaitTlsHandshake)
                && parse_message(old(self).buffered() + bytes@) is Some
                && handshake_outcome(message_payload(old(self).buffered() + bytes@)) is Err) ==> (r matches Err(
                RunError::Protocol(ProtocolError::Handshake(_)),
            ) && final(self).output() == old(self).output()),
            // One handshake response, all that was received: it answers as the handshake law says.
            ((old(self).phase() == ConnPhase::AwaitHandshake || old(self).phase() == ConnPhase::AwaitTlsHandshake)
                && parse_message(old(self).buffered() + bytes@) is Some
                && message_len(old(self).buffered() + bytes@) == old(self).buffered().len() + bytes@.len()) ==> handshake_law(
                message_payload(old(self).buffered() + bytes@),
                message_seq(old(self).buffered() + bytes@),
                old(self).phase() == ConnPhase::AwaitHandshake,
                old(self).tls(),
                old(self).output(),
                final(self).output(),
                final(self).phase(),
                r,
            ) && (r == Ok::<Action, RunError<B::Error>>(Action::Continue) ==> final(self).buffered().len() == 0),
            // One command, all that was received: it answers as the command law says.
            (old(self).phase() == ConnPhase::Command && parse_message(old(self).buffered() + bytes@) is Some
                && message_len(old(self).buffered() + bytes@) == old(self).buffered().len() + bytes@.len()) ==> {
                let (s0, p0) = (message_seq(old(self).buffered() + bytes@), message_payload(old(self).buffered() + bytes@));
                &&& command_law(p0, s0, old(self).output(), final(self).output(), old(self).statements(), final(self).statements(), r)
                &&& backend_untouched(p0, old(self).statements()) ==> final(self).backend() == old(self).backend()
            },
    {
        let ghost total = self.reader@ + bytes@;
        let ghost consumed: int = 0;
        self.reader.feed(bytes);
        assert(total.skip(0) =~= total);
        assert(old(self).out@.subrange(0, old(self).out@.len() as int) =~= old(self).out@);
        loop
            invariant
                self.inv(),
                old(self).output().is_prefix_of(self.output()),
                (bytes@.len() == 0 && old(self).buffered().len() == 0 && old(self).phase() != ConnPhase::Closed) ==> {
                    &&& self.reader@.len() == 0
                    &&& self.phase == old(self).phase
                },
                total == old(self).buffered() + bytes@,
                self.tls == old(self).tls,
                forall|f: Seq<u8>, sa: Seq<(u32, StatementData)>, rr: Result<Action, RunError<B::Error>>| #[trigger] session_law(
                    total.skip(consumed), self.phase, self.tls, self.out@, self.stmts@, f, sa, rr) ==> session_law(
                    total, old(self).phase, old(self).tls, old(self).out@, old(self).stmts@, f, sa, rr),
                0 <= consumed <= total.len(),
                self.reader@ == total.skip(consumed),
                consumed == 0 ==> {
                    &&& self.phase == old(self).phase
                    &&& self.out == old(self).out
                    &&& self.stmts == old(self).stmts
                    &&& self.shim == old(self).shim
                },
                consumed > 0 ==> self.phase != ConnPhase::AwaitHandshake && self.phase != ConnPhase::Closed,
                consumed > 0 ==> (parse_message(total) is Some && message_len(total) <= consumed),
                (consumed > 0 && (old(self).phase() == ConnPhase::AwaitHandshake || old(self).phase() == ConnPhase::AwaitTlsHandshake)
                    && parse_message(total) is Some && message_len(total) == total.len()) ==> {
                    &&& consumed == total.len()
                    &&& handshake_law(message_payload(total), message_seq(total), old(self).phase() == ConnPhase::AwaitHandshake, old(self).tls(),
                        old(self).output(), self.output(), self.phase, Ok::<Action, RunError<B::Error>>(Action::Continue))
                },
                consumed > 0 ==> !((old(self).phase() == ConnPhase::AwaitHandshake || old(self).phase() == ConnPhase::AwaitTlsHandshake)
                    && handshake_outcome(message_payload(total)) is Err),
                (consumed > 0 && old(self).phase() == ConnPhase::Command && parse_message(total) is Some
                    && message_len(total) == total.len()) ==> {
                    let (s0, p0) = (message_seq(total), message_payload(total));
                    &&& consumed == total.len()
                    &&& command_law(p0, s0, old(self).output(), self.output(), old(self).statements(), self.statements(),
                        Ok::<Action, RunError<B::Error>>(Action::Continue))
                    &&& backend_untouched(p0, old(self).statements()) ==> self.shim == old(self).shim
                },
            decreases self.reader@.len(),
        {
            if self.phase == ConnPhase::Closed {
                assert(session_law(total.skip(consumed), self.phase, self.tls, self.out@, self.stmts@, self.out@, self.stmts@,
                    Ok::<Action, RunError<B::Error>>(Action::Close))) by {
                    reveal(session_law);
                }
                return Ok(Action::Close);
            }
            let ghost unread = self.reader@;
            let ghost cur_phase = self.phase;
            let ghost cur_out = self.out@;
            let ghost cur_stmts = self.stmts@;
            let ghost cur_consumed = consumed;
            proof { crate::packet::lemma_parse_message_len(unread); }
            match self.reader.next() {
                None => {
                    proof {
                        if consumed == 0 {
                            assert(unread =~= total);
                        }
                    }
                    assert(session_law(total.skip(consumed), self.phase, self.tls, self.out@, self.stmts@, self.out@, self.stmts@,
                        Ok::<Action, RunError<B::Error>>(Action::Continue))) by {
                        reveal(session_law);
                    }
                    return Ok(Action::Continue);
                },
                Some((s, payload)) => {
                    let ghost was_consumed = consumed;
                    proof {
                        if consumed == 0 {
                            assert(unread =~= total);
                        }
                        let k = unread.len() - self.reader@.len();
                        assert(self.reader@ =~= total.skip(consumed + k));
                        consumed = consumed + k;
                    }
                    let ghost before = self.out@;
                    let res = self.handle_packet(s, payload.as_slice());
                    proof {
                        if self.out@ != before {
                            let m = choose|m: Seq<Seq<u8>>| self.out@ == before + #[trigger] frames(seq_after(s, 1), m);
                            lemma_prefix_extend(old(self).out@, before, frames(seq_after(s, 1), m));
                        }
                    }
                    proof {
                        let rest = total.skip(cur_consumed);
                        assert(rest == unread);
                        let k = consumed - cur_consumed;
                        assert(parse_message(rest) matches Some((s2, p2, k2)) && s2 == s && p2 == payload@ && k2 == k);
                        assert(total.skip(consumed) =~= rest.skip(k));
                        assert(step_law(payload@, s, cur_phase, self.tls, cur_out, self.out@, cur_stmts, self.stmts@, self.phase, res));
                        if res == Ok::<Action, RunError<B::Error>>(Action::Continue) {
                            assert forall|f: Seq<u8>, sa: Seq<(u32, StatementData)>, rr: Result<Action, RunError<B::Error>>| #[trigger] session_law(
                                total.skip(consumed), self.phase, self.tls, self.out@, self.stmts@, f, sa, rr) implies session_law(
                                rest, cur_phase, self.tls, cur_out, cur_stmts, f, sa, rr) by {
                                reveal(session_law);
                                assert(step_law(payload@, s, cur_phase, self.tls, cur_out, self.out@, cur_stmts, self.stmts@, self.phase, res));
                            }
                        } else {
                            assert(session_law(rest, cur_phase, self.tls, cur_out, cur_stmts, self.out@, self.stmts@, res)) by {
                                reveal(session_law);
                                assert(step_law(payload@, s, cur_phase, self.tls, cur_out, self.out@, cur_stmts, self.stmts@, self.phase, res));
                            }
                        }
                    }
                    match res {
                        Ok(Action::Continue) => {},
                        other => return other,
                    }
                },
            }
        }
    }

    /// Takes the bytes produced, to be sent to the client.
    pub fn take_output(&mut self) -> (r: Vec<u8>)
        requires
            old(self).inv(),
        ensures
            final(self).inv(),
            final(self).tls() == old(self).tls(),
            r@ == old(self).output(),
            final(self).output() == Seq::<u8>::empty(),
            final(self).buffered() == old(self).buffered(),
            final(self).phase() == old(self).phase(),
            final(self).statements() == old(self).statements(),
    {
        let mut r: Vec<u8> = Vec::new();
        std::mem::swap(&mut r, &mut self.out);
        r
    }

    /// Takes the bytes received and not yet handled: after a request for
    /// TLS, the start of the client's TLS handshake.
    pub fn take_buffered(&mut self) -> (r: Vec<u8>)
        requires
            old(self).inv(),
        ensures
            final(self).inv(),
            final(self).tls() == old(self).tls(),
            r@ == old(self).buffered(),
            final(self).buffered() == Seq::<u8>::empty(),
            final(self).output() == old(self).output(),
            final(self).phase() == old(self).phase(),
            final(self).statements() == old(self).statements(),
    {
        self.reader.take_remaining()
    }

    /// The client's stream has ended: fine between commands, an error in
    /// the middle of a packet or before the client was admitted.
    pub fn end_of_input(&self) -> (r: Result<(), ProtocolError>)
        ensures
            r is Ok <==> (self.buffered().len() == 0 && (self.phase() == ConnPhase::Command || self.phase() == ConnPhase::Closed)),
            self.buffered().len() > 0 ==> r == Err::<(), ProtocolError>(ProtocolError::UnexpectedEof),
            (self.buffered().len() == 0 && (self.phase() == ConnPhase::AwaitHandshake || self.phase() == ConnPhase::AwaitTlsHandshake))
                ==> r == Err::<(), ProtocolError>(ProtocolError::ConnectionAborted),
    {
        if self.reader.remaining() != 0 {
            return Err(ProtocolError::UnexpectedEof);
        }
        match self.phase {
            ConnPhase::Command | ConnPhase::Closed => Ok(()),
            _ => Err(ProtocolError::ConnectionAborted),
        }
    }

    /// Where the connection stands.
    pub fn current_phase(&self) -> (r: ConnPhase)
        ensures
            r == self.phase(),
    {
        self.phase
    }

    /// Hands the backend the client's certificate chain once TLS is up.
    pub fn tls_established(&mut self, client_certs: &[Vec<u8>])
        requires
            old(self).inv(),
        ensures
            final(self).inv(),
            final(self).tls() == old(self).tls(),
            final(self).output() == old(self).output(),
            final(self).buffered() == old(self).buffered(),
            final(self).phase() == old(self).phase(),
            final(self).statements() == old(self).statements(),
    {
        self.shim.after_tls_handshake(client_certs);
    }

    /// Serves a client whose whole input is `input`, without TLS: the
    /// backend afterwards, the bytes to send back, and how the connection ended.
    pub fn run_on(shim: B, input: &[u8]) -> (r: (B, Vec<u8>, Result<(), RunError<B::Error>>))
        ensures
            frames(0, seq![greeting(true)]).is_prefix_of(r.1@) || frames(0, seq![greeting(false)]).is_prefix_of(r.1@),
            served(None, input@, r.1@, r.2) || served(Some(false), input@, r.1@, r.2) || served(Some(true), input@, r.1@, r.2),
            input@.len() == 0 ==> r.2 matches Err(RunError::Protocol(ProtocolError::ConnectionAborted)),
            (input@.len() > 0 && parse_message(input@) is None) ==> r.2 matches Err(RunError::Protocol(ProtocolError::UnexpectedEof)),
            (parse_message(input@) is Some && message_len(input@) == input@.len()
                && handshake_caps(message_payload(input@)) is Some
                && handshake_caps(message_payload(input@))->0 & CLIENT_SSL == 0) ==> (admitted_alone(true, message_seq(input@), r.1@, r.2)
                || admitted_alone(false, message_seq(input@), r.1@, r.2)),
            (parse_message(input@) is Some && handshake_outcome(message_payload(input@)) is Err) ==> {
                &&& r.2 matches Err(RunError::Protocol(ProtocolError::Handshake(_)))
                &&& r.1@ == frames(0, seq![greeting(true)]) || r.1@ == frames(0, seq![greeting(false)])
            },
    {
        let mut mi = MysqlIntermediary::new(shim);
        proof {
            let g = mi.out@;
            assert(g.subrange(0, g.len() as int) =~= g);
            assert(mi.reader@ + input@ =~= input@);
        }
        let ghost g = mi.out@;
        let res = mi.on_input(input);
        let out = mi.take_output();
        let end = match res {
            Ok(Action::StartTls) => Err(RunError::Protocol(ProtocolError::TlsNotConfigured)),
            Ok(Action::Close) => Ok(()),
            Ok(Action::Continue) => match mi.end_of_input() {
                Ok(()) => Ok(()),
                Err(e) => Err(RunError::Protocol(e)),
            },
            Err(e) => Err(e),
        };
        proof {
            assert(run_result(res, end));
            assert(session_law(input@, ConnPhase::AwaitHandshake, mi.tls, g, Seq::empty(), out@, mi.stmts@, res));
            assert(served(mi.tls, input@, out@, end));
            match mi.tls {
                Some(b) => {
                    if b {
                        assert(served(Some(true), input@, out@, end));
                    } else {
                        assert(served(Some(false), input@, out@, end));
                    }
                },
                None => {
                    assert(served(None, input@, out@, end));
                },
            }
        }
        (mi.shim, out, end)
    }
}

/// What answering the command packet `b`, numbered `s`, does: a packet that
/// is no command is a fatal error; QUIT, and only QUIT, closes the
/// connection; PING is answered with OK; `SELECT @@max_allowed_packet` with
/// 67108864 and any other `SELECT @@` with an empty result, without the
/// backend; EXECUTE of an unknown statement with an ERR packet; CLOSE removes
/// the statement and sends nothing back.
pub open spec fn command_law<E>(
    b: Seq<u8>,
    s: u8,
    before: Seq<u8>,
    after: Seq<u8>,
    stmts_before: Seq<(u32, StatementData)>,
    stmts_after: Seq<(u32, StatementData)>,
    r: Result<Action, RunError<E>>,
) -> bool {
    &&& !is_command(b) ==> r == Err::<Action, RunError<E>>(RunError::Protocol(ProtocolError::BadCommand))
    &&& r == Ok::<Action, RunError<E>>(Action::Close) <==> parses_as(b, Command::Quit)
    &&& parses_as(b, Command::Quit) ==> after == before && stmts_after == stmts_before
    &&& forall|q: Vec<u8>| #[trigger] parses_as(b, Command::Init(q)) ==> {
        &&& (r == Err::<Action, RunError<E>>(RunError::Protocol(ProtocolError::BadUtf8)) <==> !valid_utf8(q@))
        &&& stmts_after == stmts_before
    }
    &&& forall|q: Vec<u8>| #[trigger] parses_as(b, Command::Prepare(q)) ==> (r == Err::<Action, RunError<E>>(
        RunError::Protocol(ProtocolError::BadUtf8),
    ) <==> !valid_utf8(q@))
    &&& forall|id: u32, param: u16, d: Vec<u8>| #[trigger] parses_as(b, Command::SendLongData { stmt: id, param, data: d }) && !has_stmt(stmts_before, id) ==> {
        &&& r == Ok::<Action, RunError<E>>(Action::Continue)
        &&& after == before + frames(seq_after(s, 1), seq![unknown_stmt_err()])
        &&& stmts_after == stmts_before
    }
    &&& parses_as(b, Command::Ping) ==> {
        &&& r == Ok::<Action, RunError<E>>(Action::Continue)
        &&& after == before + frames(seq_after(s, 1), seq![ok_packet(0, 0, 0)])
        &&& stmts_after == stmts_before
    }
    &&& forall|q: Vec<u8>| #[trigger] parses_as(b, Command::Query(q)) && !is_select_var(q@) && !is_use(q@) ==> (r
        == Err::<Action, RunError<E>>(RunError::Protocol(ProtocolError::BadUtf8)) <==> !valid_utf8(q@))
    &&& forall|q: Vec<u8>| #[trigger] parses_as(b, Command::Query(q)) && !is_select_var(q@) && is_use(q@) && !valid_utf8(q@.skip(4))
        ==> r == Err::<Action, RunError<E>>(RunError::Protocol(ProtocolError::BadUtf8))
    &&& forall|t: Vec<u8>| #[trigger] parses_as(b, Command::ListFields(t)) ==> {
        &&& r == Ok::<Action, RunError<E>>(Action::Continue)
        &&& after == before + frames(seq_after(s, 1), field_list_reply())
        &&& stmts_after == stmts_before
    }
    &&& forall|id: u32, p: Vec<u8>, i: int| #[trigger] parses_as(b, Command::Execute { stmt: id, params: p }) && 0 <= i < stmts_before.len()
        && #[trigger] stmts_before[i].0 == id ==> ((r matches Err(RunError::Protocol(_))) <==> !params_decode(
        p@,
        stmts_before[i].1.params,
        stmts_before[i].1.bound_types@,
        stmts_before[i].1.long_data@,
    ))
    &&& forall|id: u32, param: u16, d: Vec<u8>, i: int| #[trigger] parses_as(b, Command::SendLongData { stmt: id, param, data: d })
        && 0 <= i < stmts_before.len() && #[trigger] stmts_before[i].0 == id ==> {
        &&& r == Ok::<Action, RunError<E>>(Action::Continue)
        &&& after == before
        &&& stmts_after.len() == stmts_before.len()
        &&& stmts_after[i].0 == id
        &&& long_lookup(stmts_after[i].1.long_data@, param) == Some(
            match long_lookup(stmts_before[i].1.long_data@, param) {
                Some(prev) => prev + d@,
                None => d@,
            },
        )
    }
    &&& forall|id: u32, p: Vec<u8>, i: int| #[trigger] parses_as(b, Command::Execute { stmt: id, params: p }) && 0 <= i < stmts_before.len()
        && #[trigger] stmts_before[i].0 == id ==> {
        &&& stmts_after.len() == stmts_before.len()
        &&& stmts_after[i].0 == id
        &&& stmts_after[i].1.long_data@.len() == 0
    }
    &&& forall|q: Vec<u8>| #[trigger] parses_as(b, Command::Query(q)) && is_select_var(q@) ==> {
        &&& r == Ok::<Action, RunError<E>>(Action::Continue)
        &&& after == before + frames(
            seq_after(s, 1),
            if q@.skip(9) == max_allowed_packet_name() { max_allowed_packet_reply() } else { seq![ok_packet(0, 0, 0)] },
        )
        &&& stmts_after == stmts_before
    }
    &&& forall|id: u32, p: Vec<u8>| #[trigger] parses_as(b, Command::Execute { stmt: id, params: p }) && !has_stmt(stmts_before, id) ==> {
        &&& r == Ok::<Action, RunError<E>>(Action::Continue)
        &&& after == before + frames(seq_after(s, 1), seq![unknown_stmt_err()])
        &&& stmts_after == stmts_before
    }
    &&& forall|id: u32| #[trigger] parses_as(b, Command::Close(id)) ==> {
        &&& r == Ok::<Action, RunError<E>>(Action::Continue)
        &&& !has_stmt(stmts_after, id)
        &&& forall|k: u32| k != id ==> (has_stmt(stmts_after, k) <==> has_stmt(stmts_before, k))
        &&& after == before
    }
}

/// The sequence id of the first message in `b`.
pub open spec fn message_seq(b: Seq<u8>) -> u8 {
    match parse_message(b) {
        Some((s, _, _)) => s,
        None => 0,
    }
}

/// The payload of the first message in `b`.
pub open spec fn message_payload(b: Seq<u8>) -> Seq<u8> {
    match parse_message(b) {
        Some((_, p, _)) => p,
        None => Seq::empty(),
    }
}

/// The number of bytes the first message in `b` takes.
pub open spec fn message_len(b: Seq<u8>) -> nat {
    match parse_message(b) {
        Some((_, _, k)) => k,
        None => 0,
    }
}

/// What answering the message `p`, numbered `s`, does in phase `phase`: a
/// handshake response as `handshake_law` says, a command as `command_law`
/// says, nothing once the connection is closed.
pub open spec fn step_law<E>(
    p: Seq<u8>,
    s: u8,
    phase: ConnPhase,
    tls: Option<bool>,
    before: Seq<u8>,
    after: Seq<u8>,
    stmts_before: Seq<(u32, StatementData)>,
    stmts_after: Seq<(u32, StatementData)>,
    phase_after: ConnPhase,
    r: Result<Action, RunError<E>>,
) -> bool {
    if phase == ConnPhase::AwaitHandshake || phase == ConnPhase::AwaitTlsHandshake {
        handshake_law(p, s, phase == ConnPhase::AwaitHandshake, tls, before, after, phase_after, r) && stmts_after == stmts_before
    } else if phase == ConnPhase::Command {
        &&& command_law(p, s, before, after, stmts_before, stmts_after, r)
        &&& r == Ok::<Action, RunError<E>>(Action::Continue) ==> phase_after == ConnPhase::Command
        &&& (r is Err || r == Ok::<Action, RunError<E>>(Action::Close)) ==> phase_after == ConnPhase::Closed
        &&& r != Ok::<Action, RunError<E>>(Action::StartTls)
    } else {
        r == Ok::<Action, RunError<E>>(Action::Close) && after == before && stmts_after == stmts_before
    }
}

/// What handling the bytes `t` does, from phase `phase` with output `before`
/// and statements `stmts_before`: the complete messages of `t` are answered
/// in turn, each as `step_law` says, until one does not end in `Continue`
/// (QUIT, a switch to TLS, or an error), whose result ends the run; where
/// no complete message is left, the run ends in `Continue`.
#[verifier::opaque]
pub open spec fn session_law<E>(
    t: Seq<u8>,
    phase: ConnPhase,
    tls: Option<bool>,
    before: Seq<u8>,
    stmts_before: Seq<(u32, StatementData)>,
    after: Seq<u8>,
    stmts_after: Seq<(u32, StatementData)>,
    r: Result<Action, RunError<E>>,
) -> bool
    decreases t.len(),
{
    if phase == ConnPhase::Closed {
        r == Ok::<Action, RunError<E>>(Action::Close) && after == before && stmts_after == stmts_before
    } else {
        match parse_message(t) {
            None => r == Ok::<Action, RunError<E>>(Action::Continue) && after == before && stmts_after == stmts_before,
            Some((s, p, k)) => if 0 < k <= t.len() {
                exists|mid: Seq<u8>, stmts_mid: Seq<(u32, StatementData)>, phase_mid: ConnPhase, r1: Result<Action, RunError<E>>| {
                    &&& #[trigger] step_law(p, s, phase, tls, before, mid, stmts_before, stmts_mid, phase_mid, r1)
                    &&& if r1 == Ok::<Action, RunError<E>>(Action::Continue) {
                        session_law(t.skip(k as int), phase_mid, tls, mid, stmts_mid, after, stmts_after, r)
                    } else {
                        r == r1 && after == mid && stmts_after == stmts_mid
                    }
                }
            } else {
                false
            },
        }
    }
}

/// How `run_on` turns the end of a session into its result.
pub open spec fn run_result<E>(a: Result<Action, RunError<E>>, res: Result<(), RunError<E>>) -> bool {
    match a {
        Ok(Action::Close) => res is Ok,
        Ok(Action::StartTls) => res == Err::<(), RunError<E>>(RunError::Protocol(ProtocolError::TlsNotConfigured)),
        Ok(Action::Continue) => res is Ok || res == Err::<(), RunError<E>>(RunError::Protocol(ProtocolError::UnexpectedEof))
            || res == Err::<(), RunError<E>>(RunError::Protocol(ProtocolError::ConnectionAborted)),
        Err(e) => res == Err::<(), RunError<E>>(e),
    }
}

/// Whether `out` and `res` are what serving the whole input `input` gives:
/// the greeting (advertising TLS where `tls` is configured), then the
/// session over `input` from the start, ended as `run_result` says.
pub open spec fn served<E>(tls: Option<bool>, input: Seq<u8>, out: Seq<u8>, res: Result<(), RunError<E>>) -> bool {
    exists|stmts: Seq<(u32, StatementData)>, a: Result<Action, RunError<E>>| {
        &&& #[trigger] session_law(input, ConnPhase::AwaitHandshake, tls, frames(0, seq![greeting(tls is Some)]), Seq::empty(), out, stmts, a)
        &&& run_result(a, res)
    }
}

/// Whether answering the packet `b` leaves the backend alone: a packet that
/// is no command, QUIT, and EXECUTE of an unknown statement.
pub open spec fn backend_untouched(b: Seq<u8>, stmts: Seq<(u32, StatementData)>) -> bool {
    ||| !is_command(b)
    ||| parses_as(b, Command::Quit)
    ||| exists|id: u32, p: Vec<u8>| #[trigger] parses_as(b, Command::Execute { stmt: id, params: p }) && !has_stmt(stmts, id)
}

/// Whether `out` and `res` end a connection whose only input was a
/// handshake response numbered `s` that asked for no TLS: the greeting
/// (advertising TLS where `tls`), then an OK admitting the client, or the
/// ERR refusing it where TLS is required.
pub open spec fn admitted_alone<E>(tls: bool, s: u8, out: Seq<u8>, res: Result<(), RunError<E>>) -> bool {
    let g = frames(0, seq![greeting(tls)]);
    ||| res is Ok && out == g + frames(seq_after(s, 1), seq![ok_packet(0, 0, 0)])
    ||| res matches Err(RunError::Protocol(ProtocolError::TlsRequired)) && out == g + frames(seq_after(s, 1), seq![tls_required_err()])
}

/// The capabilities of the handshake response `p`, where it parses.
pub open spec fn handshake_caps(p: Seq<u8>) -> Option<u32> {
    match handshake_outcome(p) {
        Ok((caps, _)) => Some(caps),
        Err(_) => None,
    }
}

/// What the server does with a handshake response that parsed.
#[derive(Clone, Copy, Debug, PartialEq, Eq, Structural)]
pub enum HandshakeStep {
    /// Switch the transport to TLS, and read the response again over it.
    StartTls,
    /// Refuse a request for TLS, which is not configured.
    RefuseNoTls,
    /// Refuse a client that does not ask for the TLS that is required.
    RefuseTlsRequired,
    /// Admit the client.
    Admit,
}

/// The step for a response that is the first (`first`) or the one read over
/// TLS, asks for TLS or not (`ssl`), where TLS is configured as `tls`
/// (whether it is required) or not at all.
pub open spec fn handshake_step(first: bool, ssl: bool, tls: Option<bool>) -> HandshakeStep {
    if first && ssl {
        if tls is None { HandshakeStep::RefuseNoTls } else { HandshakeStep::StartTls }
    } else if first && tls == Some(true) {
        HandshakeStep::RefuseTlsRequired
    } else {
        HandshakeStep::Admit
    }
}

/// Decides what to do with a handshake response that parsed.
pub fn decide_handshake(first: bool, ssl: bool, tls: Option<bool>) -> (r: HandshakeStep)
    ensures
        r == handshake_step(first, ssl, tls),
{
    if first && ssl {
        match tls {
            None => HandshakeStep::RefuseNoTls,
            Some(_) => HandshakeStep::StartTls,
        }
    } else if first && tls == Some(true) {
        HandshakeStep::RefuseTlsRequired
    } else {
        HandshakeStep::Admit
    }
}

/// What handling the handshake response `p`, numbered `s`, does, where it is
/// the first response (`first`) or the one read over TLS.
pub open spec fn handshake_law<E>(
    p: Seq<u8>,
    s: u8,
    first: bool,
    tls: Option<bool>,
    before: Seq<u8>,
    after: Seq<u8>,
    phase_after: ConnPhase,
    r: Result<Action, RunError<E>>,
) -> bool {
    match handshake_outcome(p) {
        Err(_) => r matches Err(RunError::Protocol(ProtocolError::Handshake(_))) && after == before && phase_after == ConnPhase::Closed,
        Ok((caps, _)) => match handshake_step(first, caps & CLIENT_SSL != 0, tls) {
            HandshakeStep::StartTls => r == Ok::<Action, RunError<E>>(Action::StartTls) && phase_after == ConnPhase::AwaitTlsHandshake
                && after == before,
            HandshakeStep::RefuseNoTls => r == Err::<Action, RunError<E>>(RunError::Protocol(ProtocolError::TlsNotConfigured))
                && phase_after == ConnPhase::Closed && after == before + frames(seq_after(s, 1), seq![tls_unavailable_err()]),
            HandshakeStep::RefuseTlsRequired => r == Err::<Action, RunError<E>>(RunError::Protocol(ProtocolError::TlsRequired))
                && phase_after == ConnPhase::Closed && after == before + frames(seq_after(s, 1), seq![tls_required_err()]),
            HandshakeStep::Admit => r == Ok::<Action, RunError<E>>(Action::Continue) && phase_after == ConnPhase::Command
                && after == before + frames(seq_after(s, 1), seq![ok_packet(0, 0, 0)]),
        },
    }
}

/// The ERR packet that refuses a request for TLS where TLS is not configured.
pub open spec fn tls_unavailable_err() -> Seq<u8> {
    seq![0xFFu8] + crate::codec::le_bytes(1045, 2) + seq![0x23u8, 0x32u8, 0x38u8, 0x30u8, 0x30u8, 0x30u8] + seq![0x53u8, 0x53u8, 0x4Cu8, 0x20u8, 0x69u8, 0x73u8, 0x20u8, 0x6Eu8, 0x6Fu8, 0x74u8, 0x20u8, 0x63u8, 0x6Fu8, 0x6Eu8, 0x66u8, 0x69u8, 0x67u8, 0x75u8, 0x72u8, 0x65u8, 0x64u8]
}

/// Whether `after` is `before` followed by the answer to a packet numbered
/// `s`: nothing, or messages whose packets are numbered from `s + 1` on.
pub open spec fn answered(before: Seq<u8>, after: Seq<u8>, s: u8) -> bool {
    after == before || exists|m: Seq<Seq<u8>>| after == before + #[trigger] frames(seq_after(s, 1), m)
}

/// Bytes appended after a prefix keep it a prefix.
proof fn lemma_prefix_extend(a: Seq<u8>, b: Seq<u8>, x: Seq<u8>)
    requires
        a.is_prefix_of(b),
    ensures
        a.is_prefix_of(b + x),
{
    assert((b + x).subrange(0, a.len() as int) =~= b.subrange(0, a.len() as int));
}

/// The ERR packet that refuses a client without TLS where TLS is required.
pub open spec fn tls_required_err() -> Seq<u8> {
    seq![0xFFu8] + crate::codec::le_bytes(1045, 2) + seq![0x23u8, 0x32u8, 0x38u8, 0x30u8, 0x30u8, 0x30u8] + tls_required_msg()
}

/// A packet parses as at most one command, by its opcode.
proof fn lemma_opcodes_distinct(b: Seq<u8>, c: Command)
    requires
        parses_as(b, c),
    ensures
        parses_as(b, Command::Quit) <==> c == Command::Quit,
        parses_as(b, Command::Ping) <==> c == Command::Ping,
        forall|id: u32| #[trigger] parses_as(b, Command::Close(id)) ==> c == Command::Close(id),
        forall|q: Vec<u8>| #[trigger] parses_as(b, Command::Query(q)) ==> (c matches Command::Query(q2) && q2@ == q@),
        forall|id: u32, p: Vec<u8>| #[trigger] parses_as(b, Command::Execute { stmt: id, params: p }) ==> (c matches Command::Execute { stmt: id2, params: p2 } && id2 == id),
        forall|q: Vec<u8>| #[trigger] parses_as(b, Command::Init(q)) ==> (c matches Command::Init(q2) && q2@ == q@),
        forall|q: Vec<u8>| #[trigger] parses_as(b, Command::ListFields(q)) ==> (c matches Command::ListFields(_)),
        forall|q: Vec<u8>| #[trigger] parses_as(b, Command::Prepare(q)) ==> (c matches Command::Prepare(q2) && q2@ == q@),
        forall|id: u32, param: u16, d: Vec<u8>| #[trigger] parses_as(b, Command::SendLongData { stmt: id, param, data: d }) ==> (c matches Command::SendLongData { stmt: id2, param: p2, data: d2 } && id2 == id && p2 == param && d2@ == d@),
{
    assert forall|id: u32| #[trigger] parses_as(b, Command::Close(id)) implies c == Command::Close(id) by {
        if let Command::Close(other) = c {
            assert(other as nat == id as nat);
        }
    }
    assert forall|id: u32, param: u16, d: Vec<u8>| #[trigger] parses_as(b, Command::SendLongData { stmt: id, param, data: d }) implies (c matches Command::SendLongData { stmt: id2, param: p2, data: d2 } && id2 == id && p2 == param && d2@ == d@) by {
        if let Command::SendLongData { stmt: other, param: p2, data: _ } = c {
            assert(other as nat == id as nat);
            assert(p2 as nat == param as nat);
        }
    }
    assert forall|id: u32, p: Vec<u8>| #[trigger] parses_as(b, Command::Execute { stmt: id, params: p }) implies (c matches Command::Execute { stmt: id2, params: p2 } && id2 == id) by {
        if let Command::Execute { stmt: other, params: _ } = c {
            assert(other as nat == id as nat);
        }
    }
}

/// The ERR packet that answers a command on an unknown statement.
pub open spec fn unknown_stmt_err() -> Seq<u8> {
    seq![0xFFu8] + crate::codec::le_bytes(1243, 2) + seq![0x23u8, 0x48u8, 0x59u8, 0x30u8, 0x30u8, 0x30u8] + unknown_stmt_msg()
}

/// In a table with distinct ids, no other entry has the id of entry `i`.
proof fn lemma_only_entry(t: Seq<(u32, StatementData)>, i: int)
    requires
        0 <= i < t.len(),
        ids_unique(t),
    ensures
        forall|j: int| 0 <= j < t.len() && j != i ==> t[j].0 != t[i].0,
{
    assert forall|j: int| 0 <= j < t.len() && j != i implies t[j].0 != t[i].0 by {
        if j < i { assert(t[j].0 != t[i].0); } else { assert(t[i].0 != t[j].0); }
    }
}

/// Whether the parameters of an EXECUTE with payload `p` decode, for a
/// statement with `n` parameters, the types `bound` and the bytes `long` sent ahead.
pub open spec fn params_decode(p: Seq<u8>, n: u16, bound: Seq<(ColumnType, bool)>, long: Seq<(u16, Vec<u8>)>) -> bool {
    n == 0 || match layout(p, n as nat, bound) {
        Err(_) => false,
        Ok((types, _, start)) => forall|j: nat| j < n ==> #[trigger] param_ok(p, types, long, start, j),
    }
}

/// Putting back the entry at `i` keeps the ids of the table.
proof fn lemma_ids_kept(before: Seq<(u32, StatementData)>, after: Seq<(u32, StatementData)>, i: int)
    requires
        0 <= i < before.len(),
        ids_unique(before),
        after.len() == before.len(),
        after[i].0 == before[i].0,
        forall|j: int| 0 <= j < before.len() && j != i ==> after[j] == before[j],
    ensures
        ids_unique(after),
{
    assert forall|a: int, b: int| 0 <= a < b < after.len() implies after[a].0 != after[b].0 by {
        assert(before[a].0 != before[b].0);
    }
}

/// Whether the table `after` is `before` with statement `id` introduced
/// afresh with `n` parameters (replacing an entry of the same id), the other
/// entries kept as they were.
pub open spec fn registered(before: Seq<(u32, StatementData)>, after: Seq<(u32, StatementData)>, id: u32, n: u16) -> bool {
    &&& exists|i: int| {
        &&& 0 <= i < after.len()
        &&& #[trigger] after[i].0 == id
        &&& after[i].1.params == n
        &&& after[i].1.bound_types@.len() == 0
        &&& after[i].1.long_data@.len() == 0
    }
    &&& forall|i: int| 0 <= i < after.len() && after[i].0 != id ==> before.contains(#[trigger] after[i])
    &&& forall|i: int| 0 <= i < before.len() && before[i].0 != id ==> after.contains(#[trigger] before[i])
}

/// Whether `c` has the Unicode property White_Space.
pub open spec fn is_white_space(c: char) -> bool {
    let u = c as u32;
    ||| 0x09 <= u && u <= 0x0D
    ||| u == 0x20 || u == 0x85 || u == 0xA0 || u == 0x1680
    ||| 0x2000 <= u && u <= 0x200A
    ||| u == 0x2028 || u == 0x2029 || u == 0x202F || u == 0x205F || u == 0x3000
}

/// The characters `s` without White_Space at either end.
pub open spec fn trim_of(s: Seq<char>) -> Seq<char>
    decreases s.len(),
{
    if s.len() > 0 && is_white_space(s[0]) {
        trim_of(s.skip(1))
    } else if s.len() > 0 && is_white_space(s.last()) {
        trim_of(s.drop_last())
    } else {
        s
    }
}

/// Relies on str::trim: it removes the leading and trailing characters
/// with the Unicode property White_Space.
#[verifier::external_body]
fn trimmed(s: &str) -> (r: String)
    ensures
        r@ == trim_of(s@),
{
    s.trim().to_string()
}

/// Whether `id` has an entry in the statement table `t`.
pub open spec fn has_stmt(t: Seq<(u32, StatementData)>, id: u32) -> bool {
    exists|i: int| 0 <= i < t.len() && t[i].0 == id
}

/// The ids of the statement table `t` are distinct.
pub open spec fn ids_unique(t: Seq<(u32, StatementData)>) -> bool {
    forall|i: int, j: int| 0 <= i < j < t.len() ==> t[i].0 != t[j].0
}

/// Finds the entry of `id`.
fn find_stmt(t: &Vec<(u32, StatementData)>, id: u32) -> (r: Option<usize>)
    ensures
        r matches Some(i) ==> i < t@.len() && t@[i as int].0 == id,
        r is None ==> !has_stmt(t@, id),
{
    let mut i: usize = 0;
    while i < t.len()
        invariant
            i <= t@.len(),
            forall|k: int| 0 <= k < i ==> t@[k].0 != id,
        decreases t@.len() - i,
    {
        if t[i].0 == id {
            return Some(i);
        }
        i = i + 1;
    }
    None
}

/// Removes the entry of `id`, if any.
fn remove_stmt(t: &mut Vec<(u32, StatementData)>, id: u32)
    requires
        ids_unique(old(t)@),
    ensures
        ids_unique(final(t)@),
        forall|i: int| 0 <= i < final(t)@.len() ==> old(t)@.contains(#[trigger] final(t)@[i]),
        forall|i: int| 0 <= i < old(t)@.len() && old(t)@[i].0 != id ==> final(t)@.contains(#[trigger] old(t)@[i]),
        !has_stmt(final(t)@, id),
        forall|k: u32| k != id ==> (has_stmt(final(t)@, k) <==> has_stmt(old(t)@, k)),
{
    match find_stmt(t, id) {
        None => {},
        Some(i) => {
            let ghost before = t@;
            let _ = t.remove(i);
            assert forall|j: int| 0 <= j < t@.len() implies before.contains(#[trigger] t@[j]) by {
                if j < i { assert(before[j] == t@[j]); } else { assert(before[j + 1] == t@[j]); }
            }
            assert forall|j: int| 0 <= j < before.len() && before[j].0 != id implies t@.contains(#[trigger] before[j]) by {
                if j < i { assert(t@[j] == before[j]); } else { assert(j != i); assert(t@[j - 1] == before[j]); }
            }
            assert forall|k: u32| k != id implies (has_stmt(t@, k) <==> has_stmt(before, k)) by {
                if has_stmt(before, k) {
                    let j = choose|j: int| 0 <= j < before.len() && before[j].0 == k;
                    if j < i {
                        assert(t@[j].0 == k);
                    } else {
                        assert(j != i);
                        assert(t@[j - 1].0 == k);
                    }
                }
                if has_stmt(t@, k) {
                    let j = choose|j: int| 0 <= j < t@.len() && t@[j].0 == k;
                    if j < i {
                        assert(before[j].0 == k);
                    } else {
                        assert(before[j + 1].0 == k);
                    }
                }
            }
            assert(!has_stmt(t@, id)) by {
                if has_stmt(t@, id) {
                    let j = choose|j: int| 0 <= j < t@.len() && t@[j].0 == id;
                    if j < i {
                        assert(before[j].0 == id);
                    } else {
                        assert(before[j + 1].0 == id);
                    }
                }
            }
        },
    }
}

} // verus!
