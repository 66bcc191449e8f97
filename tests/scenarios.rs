use msql_srv::{
    Action, Column, ColumnType, InitWriter, MysqlIntermediary, MysqlShim, ParamParser, ProtocolError,
    QueryResultWriter, RunError, StatementMetaWriter, TlsConfig, Value, UNSIGNED_FLAG,
};

#[derive(Default)]
struct Backend {
    tls: Option<TlsConfig>,
    queries: Vec<String>,
    inits: Vec<String>,
    executed: Vec<(u32, Vec<Value>)>,
    closed: Vec<u32>,
}

impl MysqlShim for Backend {
    type Error = String;

    fn on_prepare(&mut self, query: &str, info: &mut StatementMetaWriter) -> Result<(), String> {
        let long = Column { table: String::new(), column: "x".to_string(), coltype: ColumnType::MYSQL_TYPE_LONG, colflags: 0 };
        let blob = Column { table: String::new(), column: "b".to_string(), coltype: ColumnType::MYSQL_TYPE_BLOB, colflags: 0 };
        let param = if query.contains("blob") { blob } else { long.clone() };
        info.reply(1, &[param], &[long]).map_err(|e| format!("{:?}", e))
    }

    fn on_execute(&mut self, id: u32, params: &ParamParser, results: &mut QueryResultWriter) -> Result<(), String> {
        let mut vals = Vec::new();
        for i in 0..params.len() {
            vals.push(params.get(i).value.clone());
        }
        let first = vals.first().cloned();
        self.executed.push((id, vals));
        let col = Column { table: String::new(), column: "x".to_string(), coltype: ColumnType::MYSQL_TYPE_LONG, colflags: 0 };
        results.start(vec![col]).map_err(|e| format!("{:?}", e))?;
        match first {
            Some(Value::Int(v)) => results.write_col(Value::Int(v)).map_err(|e| format!("{:?}", e))?,
            _ => results.write_col(Value::Null).map_err(|e| format!("{:?}", e))?,
        }
        results.end_row().map_err(|e| format!("{:?}", e))?;
        results.finish().map_err(|e| format!("{:?}", e))
    }

    fn on_close(&mut self, stmt: u32) {
        self.closed.push(stmt);
    }

    fn on_query(&mut self, query: &str, results: &mut QueryResultWriter) -> Result<(), String> {
        self.queries.push(query.to_string());
        let cols = vec![
            Column { table: "foo".to_string(), column: "a".to_string(), coltype: ColumnType::MYSQL_TYPE_LONGLONG, colflags: 0 },
            Column { table: "foo".to_string(), column: "b".to_string(), coltype: ColumnType::MYSQL_TYPE_STRING, colflags: 0 },
        ];
        results.start(cols).map_err(|e| format!("{:?}", e))?;
        results.write_col(Value::Int(42)).map_err(|e| format!("{:?}", e))?;
        results.write_col(Value::Bytes(b"b's value".to_vec())).map_err(|e| format!("{:?}", e))?;
        results.end_row().map_err(|e| format!("{:?}", e))?;
        results.finish().map_err(|e| format!("{:?}", e))
    }

    fn on_init(&mut self, schema: &str, writer: &mut InitWriter) -> Result<(), String> {
        self.inits.push(schema.to_string());
        writer.ok().map_err(|e| format!("{:?}", e))
    }

    fn tls_config(&self) -> Option<TlsConfig> {
        self.tls.clone()
    }

    fn after_tls_handshake(&mut self, _client_certs: &[Vec<u8>]) {}
}

fn packet(seq: u8, payload: &[u8]) -> Vec<u8> {
    let n = payload.len();
    let mut p = vec![(n & 0xFF) as u8, ((n >> 8) & 0xFF) as u8, ((n >> 16) & 0xFF) as u8, seq];
    p.extend_from_slice(payload);
    p
}

fn handshake(caps: u32) -> Vec<u8> {
    let mut b = Vec::new();
    b.extend_from_slice(&caps.to_le_bytes());
    b.extend_from_slice(&(1u32 << 24).to_le_bytes());
    b.push(0x21);
    b.extend_from_slice(&[0; 23]);
    b.extend_from_slice(b"user\0");
    b.push(0);
    b
}

/// Splits the server's output into (sequence id, payload) pairs.
fn packets(mut out: &[u8]) -> Vec<(u8, Vec<u8>)> {
    let mut r = Vec::new();
    while out.len() >= 4 {
        let n = out[0] as usize | (out[1] as usize) << 8 | (out[2] as usize) << 16;
        r.push((out[3], out[4..4 + n].to_vec()));
        out = &out[4 + n..];
    }
    r
}

fn session(commands: &[Vec<u8>]) -> (Backend, Vec<(u8, Vec<u8>)>, Result<(), RunError<String>>) {
    let mut input = packet(1, &handshake(0x8200));
    for c in commands {
        input.extend(packet(0, c));
    }
    let (b, out, r) = MysqlIntermediary::run_on(Backend::default(), &input);
    (b, packets(&out), r)
}

const OK: [u8; 7] = [0, 0, 0, 0, 0, 0, 0];

fn execute_payload(stmt: u32, rest: &[u8]) -> Vec<u8> {
    let mut p = vec![0x17];
    p.extend_from_slice(&stmt.to_le_bytes());
    p.push(0);
    p.extend_from_slice(&1u32.to_le_bytes());
    p.extend_from_slice(rest);
    p
}

#[test]
fn greeting_then_ok_after_handshake() {
    let (_, pkts, r) = session(&[]);
    assert!(r.is_ok());
    assert_eq!(pkts.len(), 2);
    assert_eq!(pkts[0].0, 0);
    assert_eq!(pkts[0].1[0], 10);
    assert_eq!(pkts[0].1[39], 0x42);
    assert_eq!(pkts[1], (2, OK.to_vec()));
}

#[test]
fn ping() {
    let (_, pkts, r) = session(&[vec![0x0E], vec![0x01]]);
    assert!(r.is_ok());
    assert_eq!(pkts.len(), 3);
    assert_eq!(pkts[2], (1, OK.to_vec()));
}

#[test]
fn response_numbering_follows_inbound_sequence() {
    let mut input = packet(1, &handshake(0x8200));
    input.extend(packet(7, &[0x0E]));
    input.extend(packet(255, &[0x0E]));
    let (_, out, r) = MysqlIntermediary::run_on(Backend::default(), &input);
    assert!(r.is_ok());
    let pkts = packets(&out);
    assert_eq!(pkts[2].0, 8);
    assert_eq!(pkts[3].0, 0);
}

#[test]
fn trivial_query() {
    let mut q = vec![0x03];
    q.extend_from_slice(b"SELECT a, b FROM foo");
    let (b, pkts, r) = session(&[q]);
    assert!(r.is_ok());
    assert_eq!(b.queries, vec!["SELECT a, b FROM foo".to_string()]);
    let reply: Vec<_> = pkts[2..].to_vec();
    assert_eq!(reply.len(), 6);
    assert_eq!(reply[0], (1, vec![2]));
    assert_eq!(reply[1].1[reply[1].1.len() - 6], 8);
    assert_eq!(reply[2].1[reply[2].1.len() - 6], 254);
    assert_eq!(reply[3], (4, vec![0xFE, 0, 0, 0, 0]));
    let mut row = vec![2, b'4', b'2', 9];
    row.extend_from_slice(b"b's value");
    assert_eq!(reply[4], (5, row));
    assert_eq!(reply[5], (6, vec![0xFE, 0, 0, 0, 0]));
}

#[test]
fn max_allowed_packet_is_answered_without_backend() {
    let mut q = vec![0x03];
    q.extend_from_slice(b"SELECT @@max_allowed_packet");
    let (b, pkts, r) = session(&[q]);
    assert!(r.is_ok());
    assert!(b.queries.is_empty());
    let reply: Vec<_> = pkts[2..].iter().map(|p| p.1.clone()).collect();
    assert_eq!(reply.len(), 5);
    assert_eq!(reply[0], vec![1]);
    let def = &reply[1];
    assert_eq!(def[def.len() - 6], 3);
    assert_eq!(def[def.len() - 5], UNSIGNED_FLAG as u8);
    assert_eq!(reply[3], b"\x0867108864".to_vec());
}

#[test]
fn other_server_variables_get_an_empty_result() {
    let mut q = vec![0x03];
    q.extend_from_slice(b"select @@version_comment");
    let (b, pkts, r) = session(&[q]);
    assert!(r.is_ok());
    assert!(b.queries.is_empty());
    assert_eq!(pkts[2], (1, OK.to_vec()));
}

#[test]
fn use_schema() {
    let mut q = vec![0x03];
    q.extend_from_slice(b"USE `accounts`; ");
    let (b, pkts, r) = session(&[q]);
    assert!(r.is_ok());
    assert_eq!(b.inits, vec!["accounts".to_string()]);
    assert_eq!(pkts[2], (1, OK.to_vec()));
}

#[test]
fn use_schema_plain() {
    let mut q = vec![0x03];
    q.extend_from_slice(b"USE accounts;");
    let (b, _, r) = session(&[q]);
    assert!(r.is_ok());
    assert_eq!(b.inits, vec!["accounts".to_string()]);
}

#[test]
fn init_db_command() {
    let (b, pkts, r) = session(&[b"\x02shop".to_vec()]);
    assert!(r.is_ok());
    assert_eq!(b.inits, vec!["shop".to_string()]);
    assert_eq!(pkts[2], (1, OK.to_vec()));
}

#[test]
fn prepare_and_execute() {
    let mut prep = vec![0x16];
    prep.extend_from_slice(b"SELECT ?");
    let exec = execute_payload(1, &[0x00, 1, 3, 0, 7, 0, 0, 0]);
    let (b, pkts, r) = session(&[prep, exec]);
    assert!(r.is_ok());
    assert_eq!(pkts[2], (1, vec![0, 1, 0, 0, 0, 1, 0, 1, 0, 0, 0, 0]));
    assert_eq!(b.executed, vec![(1, vec![Value::Int(7)])]);
    let last: Vec<_> = pkts.iter().rev().take(2).collect();
    assert_eq!(last[1].1, vec![0x00, 0x00, 7, 0, 0, 0]);
}

#[test]
fn long_data_then_execute() {
    let mut prep = vec![0x16];
    prep.extend_from_slice(b"INSERT blob");
    let mut l1 = vec![0x18, 1, 0, 0, 0, 0, 0];
    l1.extend_from_slice(b"hello ");
    let mut l2 = vec![0x18, 1, 0, 0, 0, 0, 0];
    l2.extend_from_slice(b"world");
    let exec = execute_payload(1, &[0x00, 1, 252, 0]);
    let (b, _, r) = session(&[prep, l1, l2, exec]);
    assert!(r.is_ok());
    assert_eq!(b.executed, vec![(1, vec![Value::Bytes(b"hello world".to_vec())])]);
}

#[test]
fn execute_clears_long_data_and_keeps_types() {
    let mut prep = vec![0x16];
    prep.extend_from_slice(b"INSERT blob");
    let mut l1 = vec![0x18, 1, 0, 0, 0, 0, 0];
    l1.extend_from_slice(b"xyz");
    let exec1 = execute_payload(1, &[0x00, 1, 252, 0]);
    let exec2 = execute_payload(1, &[0x00, 0, 2, b'h', b'i']);
    let (b, _, r) = session(&[prep, l1, exec1, exec2]);
    assert!(r.is_ok());
    assert_eq!(b.executed[0].1, vec![Value::Bytes(b"xyz".to_vec())]);
    assert_eq!(b.executed[1].1, vec![Value::Bytes(b"hi".to_vec())]);
}

#[test]
fn close_then_execute_fails() {
    let mut prep = vec![0x16];
    prep.extend_from_slice(b"SELECT ?");
    let close = vec![0x19, 1, 0, 0, 0];
    let exec = execute_payload(1, &[0x00, 1, 3, 0, 7, 0, 0, 0]);
    let (b, pkts, r) = session(&[prep, close, exec]);
    assert!(r.is_ok());
    assert_eq!(b.closed, vec![1]);
    assert!(b.executed.is_empty());
    let last = &pkts[pkts.len() - 1];
    assert_eq!(last.0, 1);
    assert_eq!(last.1[0], 0xFF);
    assert_eq!(&last.1[1..3], &[0xDB, 0x04]);
}

#[test]
fn unknown_opcode_is_fatal() {
    let (_, _, r) = session(&[vec![0x99]]);
    assert!(matches!(r, Err(RunError::Protocol(ProtocolError::BadCommand))));
}

#[test]
fn invalid_utf8_query_is_refused() {
    let (_, _, r) = session(&[vec![0x03, 0xFF, 0xFE]]);
    assert!(matches!(r, Err(RunError::Protocol(ProtocolError::BadUtf8))));
}

#[test]
fn truncated_stream_is_unexpected_eof() {
    let mut input = packet(1, &handshake(0x8200));
    input.extend_from_slice(&[5, 0, 0]);
    let (_, _, r) = MysqlIntermediary::run_on(Backend::default(), &input);
    assert!(matches!(r, Err(RunError::Protocol(ProtocolError::UnexpectedEof))));
}

#[test]
fn missing_handshake_aborts() {
    let (_, out, r) = MysqlIntermediary::run_on(Backend::default(), &[]);
    assert!(matches!(r, Err(RunError::Protocol(ProtocolError::ConnectionAborted))));
    assert_eq!(packets(&out).len(), 1);
}

fn tls_backend(require: bool) -> Backend {
    Backend {
        tls: Some(TlsConfig {
            server_cert: "cert.pem".to_string(),
            server_cert_key: "key.pem".to_string(),
            client_cert_dir: None,
            require_tls: require,
        }),
        ..Backend::default()
    }
}

#[test]
fn tls_upgrade_keeps_trailing_bytes() {
    let mut mi = MysqlIntermediary::new(tls_backend(false));
    let greeting = packets(&mi.take_output());
    assert_eq!(greeting[0].1[39], 0x4A);
    let mut input = packet(1, &handshake(0x8200 | 0x800)[..32]);
    let hello = vec![0x16, 0x03, 0x01, 0x00, 0x05, 1, 2, 3, 4, 5];
    input.extend_from_slice(&hello);
    assert!(matches!(mi.on_input(&input), Ok(Action::StartTls)));
    assert!(mi.take_output().is_empty());
    assert_eq!(mi.take_buffered(), hello);
    let second = packet(2, &handshake(0x8200 | 0x800));
    assert!(matches!(mi.on_input(&second), Ok(Action::Continue)));
    assert_eq!(packets(&mi.take_output()), vec![(3, OK.to_vec())]);
}

#[test]
fn tls_required_refuses_plain_client() {
    let input = packet(1, &handshake(0x8200));
    let (_, out, r) = MysqlIntermediary::run_on(tls_backend(true), &input);
    assert!(matches!(r, Err(RunError::Protocol(ProtocolError::TlsRequired))));
    let pkts = packets(&out);
    assert_eq!(pkts[1].0, 2);
    assert_eq!(&pkts[1].1[..9], &[0xFF, 0x15, 0x04, b'#', b'2', b'8', b'0', b'0', b'0']);
}

#[test]
fn tls_request_without_config_is_refused() {
    let input = packet(1, &handshake(0x8200 | 0x800)[..32]);
    let (_, _, r) = MysqlIntermediary::run_on(Backend::default(), &input);
    assert!(matches!(r, Err(RunError::Protocol(ProtocolError::TlsNotConfigured))));
}

#[test]
fn list_fields_answers_placeholder() {
    let (_, pkts, r) = session(&[vec![0x04, b't', 0]]);
    assert!(r.is_ok());
    assert_eq!(pkts.len(), 4);
    assert_eq!(*pkts[2].1.last().unwrap(), 0xFB);
    assert_eq!(pkts[3], (2, vec![0xFE, 0, 0, 0, 0]));
}

#[test]
fn quit_writes_nothing() {
    let (_, pkts, r) = session(&[vec![0x01], vec![0x0E]]);
    assert!(r.is_ok());
    assert_eq!(pkts.len(), 2);
}

#[test]
fn tls_request_without_config_gets_access_denied() {
    let input = packet(1, &handshake(0x8200 | 0x800)[..32]);
    let (_, out, _) = MysqlIntermediary::run_on(Backend::default(), &input);
    let pkts = packets(&out);
    assert_eq!(pkts.len(), 2);
    assert_eq!(pkts[1].0, 2);
    assert_eq!(&pkts[1].1[..3], &[0xFF, 0x15, 0x04]);
}

#[test]
fn bad_handshake_gets_only_the_greeting() {
    let input = packet(1, &[1, 2, 3]);
    let (_, out, r) = MysqlIntermediary::run_on(Backend::default(), &input);
    assert!(matches!(r, Err(RunError::Protocol(ProtocolError::Handshake(_)))));
    assert_eq!(packets(&out).len(), 1);
}

#[test]
fn execute_without_any_types_fails() {
    let mut prep = vec![0x16];
    prep.extend_from_slice(b"SELECT ?");
    let exec = execute_payload(1, &[0x00, 0x00, 7, 0, 0, 0]);
    let (b, _, r) = session(&[prep, exec]);
    assert!(matches!(r, Err(RunError::Protocol(ProtocolError::Params(_)))));
    assert!(b.executed.is_empty());
}

struct Minimal;

impl MysqlShim for Minimal {
    type Error = String;
    fn on_prepare(&mut self, _: &str, _: &mut StatementMetaWriter) -> Result<(), String> {
        Ok(())
    }
    fn on_execute(&mut self, _: u32, _: &ParamParser, _: &mut QueryResultWriter) -> Result<(), String> {
        Ok(())
    }
    fn on_close(&mut self, _: u32) {}
    fn on_query(&mut self, _: &str, _: &mut QueryResultWriter) -> Result<(), String> {
        Ok(())
    }
}

#[test]
fn default_init_replies_ok() {
    let mut input = packet(1, &handshake(0x8200));
    input.extend(packet(0, b"\x02db"));
    let (_, out, r) = MysqlIntermediary::run_on(Minimal, &input);
    assert!(r.is_ok());
    let pkts = packets(&out);
    assert_eq!(pkts[0].1[39], 0x42);
    assert_eq!(pkts[2], (1, OK.to_vec()));
}

#[test]
fn use_schema_trims_unicode_space() {
    let mut q = vec![0x03];
    q.extend_from_slice("use \u{3000}shop;\t".as_bytes());
    let (b, _, r) = session(&[q]);
    assert!(r.is_ok());
    assert_eq!(b.inits, vec!["shop".to_string()]);
}
