use msql_srv::codec::{push_lenenc_int, read_lenenc_int};
use msql_srv::commands::{parse_client_handshake, parse_command, Command};
use msql_srv::packet::{read_message, write_frames, PacketReader, MAX_PAYLOAD};
use msql_srv::params::parse_params;
use msql_srv::protocol::build_ok;
use msql_srv::resultset::QueryResultWriter;
use msql_srv::value::{read_binary_value, write_binary_value, write_text_value};
use msql_srv::{Column, ColumnType, ErrorKind, HandshakeError, ParamError, Value, WriterError, UNSIGNED_FLAG};

fn lenenc_round_trip(n: u64) -> (Vec<u8>, u64, usize) {
    let mut out = Vec::new();
    push_lenenc_int(&mut out, n);
    let (v, p) = read_lenenc_int(&out, 0).unwrap();
    (out, v, p)
}

#[test]
fn lenenc_round_trips_edge_values() {
    for n in [0u64, 0xFA, 0xFB, 0xFF, 0xFFFF, 0xFF_FFFF, 1u64 << 63] {
        let (bytes, v, p) = lenenc_round_trip(n);
        assert_eq!(v, n);
        assert_eq!(p, bytes.len());
    }
}

#[test]
fn lenenc_encodings_have_expected_widths() {
    assert_eq!(lenenc_round_trip(0xFA).0, vec![0xFA]);
    assert_eq!(lenenc_round_trip(0xFB).0, vec![0xFC, 0xFB, 0x00]);
    assert_eq!(lenenc_round_trip(0xFFFF).0, vec![0xFC, 0xFF, 0xFF]);
    assert_eq!(lenenc_round_trip(0x1_0000).0, vec![0xFD, 0x00, 0x00, 0x01]);
    assert_eq!(lenenc_round_trip(0x100_0000).0, vec![0xFE, 0, 0, 0, 1, 0, 0, 0, 0]);
}

#[test]
fn lenenc_null_marker_and_0xff_hold_no_integer() {
    assert_eq!(read_lenenc_int(&[0xFB], 0), None);
    assert_eq!(read_lenenc_int(&[0xFF], 0), None);
    assert_eq!(read_lenenc_int(&[0xFC, 0x01], 0), None);
}

#[test]
fn small_payload_is_one_packet() {
    let mut out = Vec::new();
    let next = write_frames(&mut out, 3, &[1, 2, 3]);
    assert_eq!(out, vec![3, 0, 0, 3, 1, 2, 3]);
    assert_eq!(next, 4);
}

#[test]
fn sequence_id_wraps() {
    let mut out = Vec::new();
    let next = write_frames(&mut out, 255, &[]);
    assert_eq!(out, vec![0, 0, 0, 255]);
    assert_eq!(next, 0);
}

#[test]
fn max_size_payload_round_trips_in_two_packets() {
    let payload: Vec<u8> = (0..MAX_PAYLOAD).map(|i| (i % 251) as u8).collect();
    let mut out = Vec::new();
    let next = write_frames(&mut out, 0, &payload);
    assert_eq!(next, 2);
    assert_eq!(out.len(), payload.len() + 8);
    assert_eq!(&out[out.len() - 4..], &[0, 0, 0, 1]);
    let (seq, back, used) = read_message(&out, 0).unwrap();
    assert_eq!(seq, 1);
    assert_eq!(used, out.len());
    assert!(back == payload);
}

#[test]
fn double_max_payload_takes_three_packets() {
    let payload = vec![7u8; 2 * MAX_PAYLOAD];
    let mut out = Vec::new();
    let next = write_frames(&mut out, 10, &payload);
    assert_eq!(next, 13);
    assert_eq!(out.len(), payload.len() + 12);
    let (seq, back, _) = read_message(&out, 0).unwrap();
    assert_eq!(seq, 12);
    assert_eq!(back.len(), payload.len());
}

#[test]
fn reader_waits_for_a_complete_message() {
    let mut r = PacketReader::new();
    r.feed(&[2, 0, 0, 0, 0x0E]);
    assert_eq!(r.next(), None);
    assert_eq!(r.remaining(), 5);
    r.feed(&[0xAA, 1, 0, 0, 1]);
    assert_eq!(r.next(), Some((0, vec![0x0E, 0xAA])));
    assert_eq!(r.remaining(), 4);
    assert_eq!(r.take_remaining(), vec![1, 0, 0, 1]);
    assert_eq!(r.remaining(), 0);
}

#[test]
fn commands_parse_by_opcode() {
    assert_eq!(parse_command(&[0x01]), Some(Command::Quit));
    assert_eq!(parse_command(&[0x0E]), Some(Command::Ping));
    assert_eq!(parse_command(&[0x03, b'x']), Some(Command::Query(vec![b'x'])));
    assert_eq!(parse_command(&[0x04, b't', 0, b'%']), Some(Command::ListFields(vec![b't'])));
    assert_eq!(parse_command(&[0x19, 5, 0, 0, 0]), Some(Command::Close(5)));
    assert_eq!(
        parse_command(&[0x18, 1, 0, 0, 0, 2, 0, b'a']),
        Some(Command::SendLongData { stmt: 1, param: 2, data: vec![b'a'] })
    );
    assert_eq!(
        parse_command(&[0x17, 9, 0, 0, 0, 0, 1, 0, 0, 0, 0xAB]),
        Some(Command::Execute { stmt: 9, params: vec![0xAB] })
    );
}

#[test]
fn bad_commands_are_refused() {
    assert_eq!(parse_command(&[]), None);
    assert_eq!(parse_command(&[0x99]), None);
    assert_eq!(parse_command(&[0x19, 5, 0]), None);
    assert_eq!(parse_command(&[0x17, 9, 0, 0, 0, 0, 2, 0, 0, 0]), None);
}

fn handshake_response(caps: u32, user: &[u8]) -> Vec<u8> {
    let mut b = Vec::new();
    b.extend_from_slice(&caps.to_le_bytes());
    b.extend_from_slice(&(1u32 << 24).to_le_bytes());
    b.push(0x21);
    b.extend_from_slice(&[0; 23]);
    b.extend_from_slice(user);
    b.push(0);
    b.push(0);
    b
}

#[test]
fn handshake_response_parses() {
    let h = parse_client_handshake(&handshake_response(0x8200, b"root")).unwrap();
    assert_eq!(h.capabilities, 0x8200);
    assert_eq!(h.max_packet, 1 << 24);
    assert_eq!(h.collation, 0x21);
    assert_eq!(h.username, b"root".to_vec());
}

#[test]
fn handshake_errors() {
    assert_eq!(parse_client_handshake(&[0; 10]), Err(HandshakeError::Incomplete));
    assert_eq!(parse_client_handshake(&handshake_response(0x8000, b"u")), Err(HandshakeError::Unsupported));
    let mut cut = handshake_response(0x8200, b"u");
    cut.pop();
    assert_eq!(parse_client_handshake(&cut), Err(HandshakeError::Incomplete));
}

#[test]
fn ok_packet_layout() {
    assert_eq!(build_ok(0, 0, 0), vec![0, 0, 0, 0, 0, 0, 0]);
    assert_eq!(build_ok(300, 1, 2), vec![0, 0xFC, 0x2C, 0x01, 1, 2, 0, 0, 0]);
}

#[test]
fn binary_values_are_type_directed() {
    let mut out = Vec::new();
    assert!(write_binary_value(&mut out, ColumnType::MYSQL_TYPE_LONG, false, &Value::Int(-2)));
    assert_eq!(out, vec![0xFE, 0xFF, 0xFF, 0xFF]);
    let mut out = Vec::new();
    assert!(!write_binary_value(&mut out, ColumnType::MYSQL_TYPE_TINY, false, &Value::Int(200)));
    assert!(!write_binary_value(&mut out, ColumnType::MYSQL_TYPE_LONG, true, &Value::Int(-1)));
    assert!(out.is_empty());
    assert!(write_binary_value(&mut out, ColumnType::MYSQL_TYPE_TINY, true, &Value::Int(200)));
    assert_eq!(out, vec![200]);
}

#[test]
fn binary_values_decode() {
    assert_eq!(read_binary_value(&[0xFE, 0xFF], 0, ColumnType::MYSQL_TYPE_SHORT, false), Some((Value::Int(-2), 2)));
    assert_eq!(read_binary_value(&[0xFE, 0xFF], 0, ColumnType::MYSQL_TYPE_SHORT, true), Some((Value::UInt(0xFFFE), 2)));
    assert_eq!(read_binary_value(&[2, b'h', b'i'], 0, ColumnType::MYSQL_TYPE_VAR_STRING, false), Some((Value::Bytes(b"hi".to_vec()), 3)));
    assert_eq!(read_binary_value(&[5, b'h'], 0, ColumnType::MYSQL_TYPE_BLOB, false), None);
    assert_eq!(
        read_binary_value(&[4, 0xE4, 0x07, 3, 9], 0, ColumnType::MYSQL_TYPE_DATE, false),
        Some((Value::Date { year: 2020, month: 3, day: 9, hour: 0, minute: 0, second: 0, micros: 0 }, 5))
    );
}

#[test]
fn date_round_trips_through_binary_form() {
    let d = Value::Date { year: 2021, month: 12, day: 31, hour: 23, minute: 59, second: 58, micros: 7 };
    let mut out = Vec::new();
    assert!(write_binary_value(&mut out, ColumnType::MYSQL_TYPE_DATETIME, false, &d));
    assert_eq!(out.len(), 12);
    assert_eq!(read_binary_value(&out, 0, ColumnType::MYSQL_TYPE_DATETIME, false), Some((d, 12)));
}

#[test]
fn text_values_render() {
    let mut out = Vec::new();
    assert!(write_text_value(&mut out, &Value::Int(-42)));
    assert_eq!(out, b"\x03-42".to_vec());
    let mut out = Vec::new();
    assert!(write_text_value(&mut out, &Value::Null));
    assert_eq!(out, vec![0xFB]);
    let mut out = Vec::new();
    let d = Value::Date { year: 2020, month: 1, day: 2, hour: 3, minute: 4, second: 5, micros: 0 };
    assert!(write_text_value(&mut out, &d));
    assert_eq!(out[1..].to_vec(), b"2020-01-02 03:04:05".to_vec());
    let mut out = Vec::new();
    let t = Value::Time { negative: true, days: 1, hours: 2, minutes: 3, seconds: 4, micros: 0 };
    assert!(write_text_value(&mut out, &t));
    assert_eq!(out[1..].to_vec(), b"-26:03:04".to_vec());
    assert!(!write_text_value(&mut out, &Value::Double(0)));
}

#[test]
fn null_bitmap_marks_null_parameters() {
    // Three parameters, the second NULL; types sent: LONG, LONG, VAR_STRING.
    let p = vec![0b010, 1, 3, 0, 3, 0, 253, 0, 7, 0, 0, 0, 2, b'o', b'k'];
    let (vals, sent) = parse_params(&p, 3, &Vec::new(), &Vec::new()).unwrap();
    assert_eq!(vals.len(), 3);
    assert_eq!(vals[0].value, Value::Int(7));
    assert_eq!(vals[1].value, Value::Null);
    assert_eq!(vals[2].value, Value::Bytes(b"ok".to_vec()));
    assert_eq!(sent.unwrap().len(), 3);
}

#[test]
fn params_reuse_bound_types_and_long_data() {
    let bound = vec![(ColumnType::MYSQL_TYPE_BLOB, false), (ColumnType::MYSQL_TYPE_TINY, true)];
    let long = vec![(0u16, b"abc".to_vec())];
    let p = vec![0, 0, 250];
    let (vals, sent) = parse_params(&p, 2, &bound, &long).unwrap();
    assert_eq!(vals[0].value, Value::Bytes(b"abc".to_vec()));
    assert_eq!(vals[1].value, Value::UInt(250));
    assert!(sent.is_none());
}

#[test]
fn params_errors() {
    assert_eq!(parse_params(&[0, 0], 1, &Vec::new(), &Vec::new()).err(), Some(ParamError::MissingTypes));
    assert_eq!(parse_params(&[0, 1, 3, 0, 7], 1, &Vec::new(), &Vec::new()).err(), Some(ParamError::Malformed));
    assert_eq!(parse_params(&[0, 1, 99, 0], 1, &Vec::new(), &Vec::new()).err(), Some(ParamError::Malformed));
}

fn col(name: &str, t: ColumnType, flags: u16) -> Column {
    Column { table: "foo".to_string(), column: name.to_string(), coltype: t, colflags: flags }
}

#[test]
fn writer_rejects_partial_rows_and_order_errors() {
    let mut w = QueryResultWriter::new(false);
    assert_eq!(w.write_col(Value::Int(1)), Err(WriterError::OutOfOrder));
    assert_eq!(w.start(vec![col("a", ColumnType::MYSQL_TYPE_LONG, 0), col("b", ColumnType::MYSQL_TYPE_LONG, 0)]), Ok(()));
    assert_eq!(w.write_col(Value::Int(1)), Ok(()));
    assert_eq!(w.end_row(), Err(WriterError::OutOfOrder));
    assert_eq!(w.finish(), Err(WriterError::OutOfOrder));
    assert_eq!(w.write_col(Value::Double(0)), Err(WriterError::Coercion));
    assert_eq!(w.write_col(Value::Int(2)), Ok(()));
    assert_eq!(w.write_col(Value::Int(3)), Err(WriterError::OutOfOrder));
    assert_eq!(w.end_row(), Ok(()));
    assert_eq!(w.finish(), Ok(()));
    assert_eq!(w.completed(0, 0), Err(WriterError::OutOfOrder));
    let msgs = w.into_messages();
    assert_eq!(msgs.len(), 6);
    assert_eq!(msgs[4], vec![1, b'1', 1, b'2']);
}

#[test]
fn binary_writer_checks_coercion() {
    let mut w = QueryResultWriter::new(true);
    assert_eq!(w.start(vec![col("a", ColumnType::MYSQL_TYPE_TINY, UNSIGNED_FLAG)]), Ok(()));
    assert_eq!(w.write_col(Value::Int(-1)), Err(WriterError::Coercion));
    assert_eq!(w.write_col(Value::Null), Ok(()));
    assert_eq!(w.end_row(), Ok(()));
    assert_eq!(w.write_row(vec![Value::UInt(5)]), Ok(()));
    let msgs = w.into_messages();
    assert_eq!(msgs[3], vec![0, 0b100]);
    assert_eq!(msgs[4], vec![0, 0, 5]);
}

#[test]
fn error_writer_emits_err_packet() {
    let mut w = QueryResultWriter::new(false);
    assert_eq!(w.error(ErrorKind::unknown_com(), b"no"), Ok(()));
    assert_eq!(w.error(ErrorKind::unknown_com(), b"no"), Err(WriterError::OutOfOrder));
    let msgs = w.into_messages();
    assert_eq!(msgs, vec![vec![0xFF, 0x17, 0x04, b'#', b'0', b'8', b'S', b'0', b'1', b'n', b'o']]);
}

#[test]
fn write_row_needs_a_full_row() {
    let mut w = QueryResultWriter::new(false);
    assert_eq!(w.start(vec![col("a", ColumnType::MYSQL_TYPE_LONG, 0), col("b", ColumnType::MYSQL_TYPE_LONG, 0)]), Ok(()));
    assert_eq!(w.write_row(vec![Value::Int(1)]), Err(WriterError::OutOfOrder));
    let mut w = QueryResultWriter::new(false);
    assert_eq!(w.start(vec![col("a", ColumnType::MYSQL_TYPE_LONG, 0)]), Ok(()));
    assert_eq!(w.write_row(vec![Value::Int(9)]), Ok(()));
    assert_eq!(w.into_messages()[3], vec![1, b'9']);
}
