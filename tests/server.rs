use bytes::BytesMut;
use redis_starter_rust::cli::ConfigError;
use redis_starter_rust::command::{decode_command, Command};
use redis_starter_rust::dispatch::{ConnKind, Connection, Outcome};
use redis_starter_rust::handshake::{handshake_start, handshake_step, HandshakeState};
use redis_starter_rust::parser::{parse_frame_at, BufSplit, Parser, RESPError, RedisBufSplit};
use redis_starter_rust::resp::RedisValue;
use redis_starter_rust::server::{decode_hex, RedisConfig, RedisServer};

const EMPTY_RDB_HEX: &str = "524544495330303131fa0972656469732d76657205372e322e30fa0a72656469732d62697473c040fa056374696d65c26d08bc65fa08757365642d6d656dc2b0c41000fa08616f662d62617365c000fff06e3bfec0ff5aa2";
const REPLID: &str = "8371b4fb1155b71f4a04d3e1bc3e18c4a990aeeb";

fn master() -> RedisServer {
    RedisServer::with_config(RedisConfig::new())
}

fn replica() -> RedisServer {
    RedisServer::with_config(RedisConfig::new().replica_of("localhost".to_string(), 6379))
}

fn send(server: &mut RedisServer, conn: &mut Connection, bytes: &[u8], now: u64) -> Outcome {
    server.evaluate(conn, bytes, now)
}

fn joined(out: &Outcome) -> Vec<u8> {
    out.replies.concat()
}

#[test]
fn ping_replies_pong() {
    let mut s = master();
    let mut c = Connection::new(ConnKind::Client);
    let out = send(&mut s, &mut c, b"*1\r\n$4\r\nPING\r\n", 0);
    assert_eq!(out.replies, vec![b"+PONG\r\n".to_vec()]);
    assert!(!out.close);
}

#[test]
fn echo_replies_bulk() {
    let mut s = master();
    let mut c = Connection::new(ConnKind::Client);
    let out = send(&mut s, &mut c, b"*2\r\n$4\r\nECHO\r\n$3\r\nhey\r\n", 0);
    assert_eq!(joined(&out), b"$3\r\nhey\r\n".to_vec());
}

#[test]
fn set_then_get() {
    let mut s = master();
    let mut c = Connection::new(ConnKind::Client);
    let out = send(&mut s, &mut c, b"*3\r\n$3\r\nSET\r\n$3\r\nfoo\r\n$3\r\nbar\r\n", 0);
    assert_eq!(joined(&out), b"+OK\r\n".to_vec());
    let out = send(&mut s, &mut c, b"*2\r\n$3\r\nGET\r\n$3\r\nfoo\r\n", 1);
    assert_eq!(joined(&out), b"$3\r\nbar\r\n".to_vec());
}

#[test]
fn get_missing_is_null() {
    let mut s = master();
    let mut c = Connection::new(ConnKind::Client);
    let out = send(&mut s, &mut c, b"*2\r\n$3\r\nGET\r\n$4\r\nnone\r\n", 0);
    assert_eq!(joined(&out), b"$-1\r\n".to_vec());
}

#[test]
fn ttl_expiry() {
    let mut s = master();
    let mut c = Connection::new(ConnKind::Client);
    send(&mut s, &mut c, b"*5\r\n$3\r\nSET\r\n$1\r\nk\r\n$1\r\nv\r\n$2\r\nPX\r\n$3\r\n100\r\n", 1000);
    let out = send(&mut s, &mut c, b"*2\r\n$3\r\nGET\r\n$1\r\nk\r\n", 1099);
    assert_eq!(joined(&out), b"$1\r\nv\r\n".to_vec());
    let out = send(&mut s, &mut c, b"*2\r\n$3\r\nGET\r\n$1\r\nk\r\n", 1200);
    assert_eq!(joined(&out), b"$-1\r\n".to_vec());
}

#[test]
fn expiry_boundary_at_deadline() {
    let mut s = master();
    s.set(b"k", RedisValue::BulkString(b"v".to_vec()), Some(100), 0);
    assert_eq!(s.get(b"k", 99), Some(RedisValue::BulkString(b"v".to_vec())));
    assert_eq!(s.get(b"k", 100), None);
    assert_eq!(s.get(b"k", 99), None);
}

#[test]
fn ex_is_seconds() {
    let mut buf = BytesMut::from(&b"*5\r\n$3\r\nset\r\n$1\r\nk\r\n$1\r\nv\r\n$2\r\nex\r\n$1\r\n2\r\n"[..]);
    let r = Parser::parse_commands(&mut buf).unwrap();
    assert_eq!(r[0].command, Command::SetKey(b"k".to_vec(), b"v".to_vec(), Some(2000)));
}

#[test]
fn set_overwrites() {
    let mut s = master();
    s.set(b"k", RedisValue::BulkString(b"a".to_vec()), None, 0);
    s.set(b"k", RedisValue::BulkString(b"b".to_vec()), None, 0);
    assert_eq!(s.get(b"k", 5), Some(RedisValue::BulkString(b"b".to_vec())));
}

#[test]
fn info_on_master() {
    let mut s = master();
    let mut c = Connection::new(ConnKind::Client);
    let out = send(&mut s, &mut c, b"*2\r\n$4\r\nINFO\r\n$11\r\nreplication\r\n", 0);
    let body = format!("role:master\nmaster_replid:{}\nmaster_repl_offset:0", REPLID);
    let expected = format!("${}\r\n{}\r\n", body.len(), body);
    assert_eq!(joined(&out), expected.into_bytes());
}

#[test]
fn info_on_replica_and_other_section() {
    let s = replica();
    let v = s.info(b"replication");
    let body = format!("role:slave\nmaster_replid:{}\nmaster_repl_offset:0", REPLID);
    assert_eq!(v, RedisValue::BulkString(body.into_bytes()));
    assert_eq!(s.info(b"server"), RedisValue::Null);
}

#[test]
fn master_offset_counts_published_bytes() {
    let mut s = master();
    let mut c = Connection::new(ConnKind::Client);
    send(&mut s, &mut c, b"*3\r\n$3\r\nSET\r\n$3\r\nfoo\r\n$3\r\n123\r\n", 0);
    assert_eq!(s.config.master_reploffset, 31);
}

#[test]
fn unknown_and_invalid_commands() {
    let mut s = master();
    let mut c = Connection::new(ConnKind::Client);
    let out = send(&mut s, &mut c, b"*1\r\n$4\r\nNOPE\r\n*2\r\n$3\r\nSET\r\n$1\r\nk\r\n", 0);
    assert_eq!(out.replies, vec![b"-ERR unknown command\r\n".to_vec(), b"-ERR syntax error\r\n".to_vec()]);
}

#[test]
fn command_names_are_case_insensitive() {
    let c = decode_command(&vec![b"pInG".to_vec()]);
    assert_eq!(c, Command::Ping);
    let c = decode_command(&vec![b"info".to_vec()]);
    assert_eq!(c, Command::Info(b"replication".to_vec()));
    let c = decode_command(&vec![b"SET".to_vec(), b"k".to_vec(), b"v".to_vec(), b"XX".to_vec(), b"1".to_vec()]);
    assert_eq!(c, Command::Invalid);
    let c = decode_command(&vec![b"psync".to_vec(), b"?".to_vec(), b"-1".to_vec()]);
    assert_eq!(c, Command::Psync(b"?".to_vec(), b"-1".to_vec()));
}

fn master_handshake_replies() -> (RedisServer, Connection, Vec<Vec<u8>>) {
    let mut s = master();
    let mut c = Connection::new(ConnKind::Client);
    let mut input = Vec::new();
    input.extend_from_slice(b"*1\r\n$4\r\nPING\r\n");
    input.extend_from_slice(b"*3\r\n$8\r\nREPLCONF\r\n$14\r\nlistening-port\r\n$4\r\n6380\r\n");
    input.extend_from_slice(b"*3\r\n$8\r\nREPLCONF\r\n$4\r\ncapa\r\n$6\r\npsync2\r\n");
    input.extend_from_slice(b"*3\r\n$5\r\nPSYNC\r\n$1\r\n?\r\n$2\r\n-1\r\n");
    let out = send(&mut s, &mut c, &input, 0);
    (s, c, out.replies)
}

#[test]
fn master_side_of_handshake() {
    let (_s, c, replies) = master_handshake_replies();
    assert_eq!(replies[0], b"+PONG\r\n".to_vec());
    assert_eq!(replies[1], b"+OK\r\n".to_vec());
    assert_eq!(replies[2], b"+OK\r\n".to_vec());
    let rdb = decode_hex(EMPTY_RDB_HEX).unwrap();
    let mut expected = format!("+FULLRESYNC {} 0\r\n$88\r\n", REPLID).into_bytes();
    expected.extend_from_slice(&rdb);
    assert_eq!(replies[3], expected);
    assert!(c.subscribed);
}

#[test]
fn replica_handshake_and_getack() {
    assert_eq!(handshake_start(), b"*1\r\n$4\r\nPING\r\n".to_vec());
    let (st, n, out) = handshake_step(HandshakeState::AwaitPong, 6380, b"+PONG\r\n");
    assert_eq!((st, n), (HandshakeState::AwaitPortOk, 7));
    assert_eq!(out, b"*3\r\n$8\r\nREPLCONF\r\n$14\r\nlistening-port\r\n$4\r\n6380\r\n".to_vec());
    let (st, n, out) = handshake_step(st, 6380, b"+OK\r\n");
    assert_eq!((st, n), (HandshakeState::AwaitCapaOk, 5));
    assert_eq!(out, b"*3\r\n$8\r\nREPLCONF\r\n$4\r\ncapa\r\n$6\r\npsync2\r\n".to_vec());
    let (st, n, out) = handshake_step(st, 6380, b"+OK\r\n");
    assert_eq!((st, n), (HandshakeState::AwaitFullResync, 5));
    assert_eq!(out, b"*3\r\n$5\r\nPSYNC\r\n$1\r\n?\r\n$2\r\n-1\r\n".to_vec());
    let line = format!("+FULLRESYNC {} 0\r\n", REPLID).into_bytes();
    let (st, n, out) = handshake_step(st, 6380, &line);
    assert_eq!((st, n, out.len()), (HandshakeState::AwaitRdb, line.len(), 0));

    let mut stream = b"$88\r\n".to_vec();
    stream.extend_from_slice(&decode_hex(EMPTY_RDB_HEX).unwrap());
    stream.extend_from_slice(b"*3\r\n$3\r\nSET\r\n$3\r\nfoo\r\n$3\r\n123\r\n");
    stream.extend_from_slice(b"*3\r\n$8\r\nREPLCONF\r\n$6\r\nGETACK\r\n$1\r\n*\r\n");
    let (st, n, _) = handshake_step(HandshakeState::AwaitRdb, 6380, &stream[..40]);
    assert_eq!((st, n), (HandshakeState::AwaitRdb, 0));
    let (st, n, _) = handshake_step(HandshakeState::AwaitRdb, 6380, &stream);
    assert_eq!((st, n), (HandshakeState::Streaming, 93));

    let mut r = replica();
    let mut c = Connection::new(ConnKind::FromMaster);
    let out = send(&mut r, &mut c, &stream[n..], 0);
    assert_eq!(joined(&out), b"*3\r\n$8\r\nREPLCONF\r\n$3\r\nACK\r\n$2\r\n31\r\n".to_vec());
    assert_eq!(r.get(b"foo", 0), Some(RedisValue::BulkString(b"123".to_vec())));
}

#[test]
fn handshake_fails_on_unexpected_reply() {
    let (st, n, out) = handshake_step(HandshakeState::AwaitPong, 6380, b"-ERR no\r\n");
    assert_eq!((st, n, out.len()), (HandshakeState::Failed, 0, 0));
    let (st, _, _) = handshake_step(HandshakeState::AwaitPong, 6380, b"+PO");
    assert_eq!(st, HandshakeState::AwaitPong);
}

#[test]
fn getack_counts_bytes_before_it() {
    let mut r = replica();
    let mut c = Connection::new(ConnKind::FromMaster);
    let first = send(&mut r, &mut c, b"*3\r\n$8\r\nREPLCONF\r\n$6\r\nGETACK\r\n$1\r\n*\r\n", 0);
    assert_eq!(joined(&first), b"*3\r\n$8\r\nREPLCONF\r\n$3\r\nACK\r\n$1\r\n0\r\n".to_vec());
    let out = send(&mut r, &mut c, b"*1\r\n$4\r\nPING\r\n*3\r\n$8\r\nREPLCONF\r\n$6\r\nGETACK\r\n$1\r\n*\r\n", 0);
    assert_eq!(joined(&out), b"*3\r\n$8\r\nREPLCONF\r\n$3\r\nACK\r\n$2\r\n51\r\n".to_vec());
    assert_eq!(c.offset, 88);
}

#[test]
fn replica_connection_is_silent() {
    let mut r = replica();
    let mut c = Connection::new(ConnKind::FromMaster);
    let out = send(
        &mut r,
        &mut c,
        b"*1\r\n$4\r\nPING\r\n*3\r\n$3\r\nSET\r\n$1\r\na\r\n$1\r\n1\r\n*1\r\n$4\r\nNOPE\r\n*3\r\n$8\r\nREPLCONF\r\n$3\r\nACK\r\n$1\r\n0\r\n",
        0,
    );
    assert_eq!(out.replies.len(), 4);
    assert!(out.replies.iter().all(|r| r.is_empty()));
    assert!(out.publish.is_empty());
}

#[test]
fn master_publishes_sets_in_order() {
    let mut s = master();
    let mut c = Connection::new(ConnKind::Client);
    let a = b"*3\r\n$3\r\nSET\r\n$1\r\na\r\n$1\r\n1\r\n".to_vec();
    let b = b"*3\r\n$3\r\nSET\r\n$1\r\nb\r\n$1\r\n2\r\n".to_vec();
    let mut input = a.clone();
    input.extend_from_slice(b"*2\r\n$3\r\nGET\r\n$1\r\na\r\n");
    input.extend_from_slice(&b);
    let out = send(&mut s, &mut c, &input, 0);
    assert_eq!(out.publish, vec![a.clone(), b.clone()]);

    let mut r = replica();
    let mut rc = Connection::new(ConnKind::FromMaster);
    let stream = out.publish.concat();
    let mut buf = BytesMut::from(&stream[..]);
    let cmds = Parser::parse_commands(&mut buf).unwrap();
    assert_eq!(cmds[0].command, Command::SetKey(b"a".to_vec(), b"1".to_vec(), None));
    assert_eq!(cmds[1].command, Command::SetKey(b"b".to_vec(), b"2".to_vec(), None));
    send(&mut r, &mut rc, &stream, 0);
    assert_eq!(r.get(b"a", 0), Some(RedisValue::BulkString(b"1".to_vec())));
    assert_eq!(r.get(b"b", 0), Some(RedisValue::BulkString(b"2".to_vec())));
}

#[test]
fn split_input_gives_same_replies() {
    let mut input = Vec::new();
    input.extend_from_slice(b"*3\r\n$3\r\nSET\r\n$3\r\nfoo\r\n$3\r\nbar\r\n");
    input.extend_from_slice(b"*2\r\n$4\r\nECHO\r\n$3\r\nhey\r\n");
    input.extend_from_slice(b"*2\r\n$3\r\nGET\r\n$3\r\nfoo\r\n");
    let mut s = master();
    let mut c = Connection::new(ConnKind::Client);
    let whole = joined(&send(&mut s, &mut c, &input, 0));
    for i in 0..=input.len() {
        let mut s = master();
        let mut c = Connection::new(ConnKind::Client);
        let mut got = joined(&send(&mut s, &mut c, &input[..i], 0));
        got.extend(joined(&send(&mut s, &mut c, &input[i..], 0)));
        assert_eq!(got, whole, "split at {}", i);
    }
}

#[test]
fn round_trip_of_values() {
    let values = vec![
        RedisValue::String(b"OK".to_vec()),
        RedisValue::Error(b"ERR bad".to_vec()),
        RedisValue::Int(-9223372036854775808),
        RedisValue::Int(42),
        RedisValue::BulkString(b"a\r\nb".to_vec()),
        RedisValue::BulkString(Vec::new()),
        RedisValue::Array(vec![
            RedisValue::BulkString(b"SET".to_vec()),
            RedisValue::Array(vec![RedisValue::Int(0)]),
            RedisValue::Array(Vec::new()),
        ]),
    ];
    for v in values {
        let bytes = v.as_bytes();
        let (end, back) = parse_frame_at(&bytes, 0).unwrap().unwrap();
        assert_eq!(end, bytes.len());
        assert_eq!(back, v);
    }
}

#[test]
fn encodings() {
    assert_eq!(RedisValue::Null.as_bytes(), b"$-1\r\n".to_vec());
    assert_eq!(RedisValue::NullArray.as_bytes(), b"*-1\r\n".to_vec());
    assert_eq!(RedisValue::Int(-12).as_bytes(), b":-12\r\n".to_vec());
    assert_eq!(
        RedisValue::Array(vec![RedisValue::BulkString(b"hi".to_vec())]).as_bytes(),
        b"*1\r\n$2\r\nhi\r\n".to_vec()
    );
}

#[test]
fn incomplete_frames_wait() {
    assert_eq!(parse_frame_at(b"$3\r\nab", 0), Ok(None));
    assert_eq!(parse_frame_at(b"*2\r\n$1\r\na\r\n", 0), Ok(None));
    assert_eq!(parse_frame_at(b"", 0), Ok(None));
    assert_eq!(parse_frame_at(b"+OK\r", 0), Ok(None));
}

#[test]
fn decoding_errors() {
    assert_eq!(parse_frame_at(b"x", 0), Err(RESPError::UnknownStartingByte(b'x')));
    assert_eq!(parse_frame_at(b"+OK\rx", 0), Err(RESPError::BadTerminator));
    assert_eq!(parse_frame_at(b"$1\r\nab\r\n", 0), Err(RESPError::BadTerminator));
    assert_eq!(parse_frame_at(b":12a\r\n", 0), Err(RESPError::IntParseFailure(b"12a".to_vec())));
    assert_eq!(parse_frame_at(b":+1\r\n", 0), Err(RESPError::IntParseFailure(b"+1".to_vec())));
    assert_eq!(parse_frame_at(b":9223372036854775808\r\n", 0), Err(RESPError::IntParseFailure(b"9223372036854775808".to_vec())));
    assert_eq!(parse_frame_at(b"$-5\r\n", 0), Err(RESPError::BadBulkStringSize(-5)));
    assert_eq!(parse_frame_at(b"$536870913\r\n", 0), Err(RESPError::BadBulkStringSize(536870913)));
    assert_eq!(parse_frame_at(b"*-2\r\n", 0), Err(RESPError::BadArraySize(-2)));
    let mut buf = BytesMut::from(&b"$536870913\r\n"[..]);
    assert_eq!(Parser::parse_bulk_string(&mut buf, 0), Err(RESPError::BadBulkStringSize(536870913)));
    let mut buf = BytesMut::from(&b"$-2\r\n"[..]);
    assert_eq!(Parser::parse_bulk_string(&mut buf, 0), Err(RESPError::BadBulkStringSize(-2)));
    let mut buf = BytesMut::from(&b"*2000000\r\n"[..]);
    assert_eq!(Parser::parse_array(&mut buf, 0), Err(RESPError::BadArraySize(2000000)));
    let mut buf = BytesMut::from(&b"x12\r\n"[..]);
    assert_eq!(Parser::parse_int(&mut buf, 0), Err(RESPError::UnknownStartingByte(b'x')));
    let mut buf = BytesMut::from(&b":+1\r\n"[..]);
    assert_eq!(Parser::parse_int(&mut buf, 0), Err(RESPError::IntParseFailure(b"+1".to_vec())));
    let mut buf = BytesMut::from(&b"$12"[..]);
    assert_eq!(Parser::parse_int(&mut buf, 0), Err(RESPError::UnexpectedEnd));
}

#[test]
fn malformed_input_closes() {
    let mut s = master();
    let mut c = Connection::new(ConnKind::Client);
    let out = send(&mut s, &mut c, b"*1\r\n$4\r\nPING\r\n?oops", 0);
    assert!(out.close);
    assert_eq!(out.replies, vec![b"+PONG\r\n".to_vec()]);
}

#[test]
fn null_forms_decode() {
    let mut buf = BytesMut::from(&b"$-1\r\n*-1\r\n"[..]);
    let (p, v) = Parser::parse_bulk_string(&mut buf, 0).unwrap().unwrap();
    assert_eq!((p, v), (5, RedisBufSplit::NullBulkString));
    let (p, v) = Parser::parse_array(&mut buf, 5).unwrap().unwrap();
    assert_eq!((p, v), (10, RedisBufSplit::NullArray));
}

#[test]
fn split_rendering() {
    let buf = BytesMut::from(&b"ab"[..]);
    let v = RedisBufSplit::Array(vec![
        RedisBufSplit::String(BufSplit(0, 2)),
        RedisBufSplit::Int(-3),
        RedisBufSplit::NullBulkString,
    ]);
    assert_eq!(v.to_string(&buf), "[ab,-3,null]");
    assert_eq!(RedisBufSplit::NullArray.to_string(&buf), "[]");
}

#[test]
fn invalid_utf8_is_replaced() {
    let bytes = [0x66u8, 0xff, 0x67];
    assert_eq!(BufSplit(0, 3).to_string(&bytes), "f\u{fffd}g");
    assert_eq!(BufSplit(1, 3).len(), 2);
}

#[test]
fn hex_decoding() {
    let rdb = decode_hex(EMPTY_RDB_HEX).unwrap();
    assert_eq!(rdb.len(), 88);
    assert_eq!(rdb, master().rdb_dump());
    assert_eq!(decode_hex("0aFf"), Some(vec![10, 255]));
    assert_eq!(decode_hex("0g"), None);
    assert_eq!(decode_hex("abc"), None);
}

#[test]
fn skipped_bulk_strings_are_consumed() {
    let mut buf = BytesMut::from(&b"$3\r\nabc\r\n*1\r\n$4\r\nPING\r\n"[..]);
    let r = Parser::parse_commands(&mut buf).unwrap();
    assert_eq!(r.len(), 1);
    assert_eq!(r[0].command, Command::Ping);
    assert_eq!(r[0].raw, b"*1\r\n$4\r\nPING\r\n".to_vec());
}

#[test]
fn response_text() {
    let v = RedisValue::Array(vec![RedisValue::String(b"PING".to_vec())]);
    assert_eq!(v.to_response(), "*1\r\n+PING\r\n");
    assert_eq!(RedisValue::BulkString(vec![0xff]).to_response(), "$1\r\n\u{fffd}\r\n");
}

fn args(words: &[&str]) -> Vec<String> {
    words.iter().map(|w| w.to_string()).collect()
}

#[test]
fn flags_configure_the_server() {
    let s = RedisServer::new(&args(&["prog", "--port", "6380", "--dir", "/tmp", "--dbfilename", "x.rdb", "--other"])).unwrap();
    assert_eq!(s.config.port, 6380);
    assert_eq!(s.config.dir, "/tmp");
    assert_eq!(s.config.dbfilename, "x.rdb");
    assert!(!s.config.is_replica);
    let s = RedisServer::new(&args(&["prog", "--replicaof", "localhost 6379"])).unwrap();
    assert_eq!(s.config.master_host_port, Some(("localhost".to_string(), 6379)));
    assert!(s.config.is_replica);
    assert_eq!(s.config.port, 6379);
    assert_eq!(s.config.dir, ".");
    assert_eq!(s.config.dbfilename, "dump.rdb");
}

#[test]
fn bad_flags_are_rejected() {
    assert_eq!(RedisServer::new(&args(&["--port", "70000"])).err(), Some(ConfigError::InvalidPort));
    assert_eq!(RedisServer::new(&args(&["--port", "-1"])).err(), Some(ConfigError::InvalidPort));
    assert_eq!(RedisServer::new(&args(&["--replicaof", "localhost"])).err(), Some(ConfigError::InvalidReplicaOf));
    assert_eq!(RedisServer::new(&args(&["--replicaof", "h x"])).err(), Some(ConfigError::InvalidPort));
    let s = RedisServer::new(&args(&["--dir"])).unwrap();
    assert_eq!(s.config.dir, ".");
}

#[test]
fn split_wire_form() {
    let mut buf = BytesMut::from(&b"*2\r\n$3\r\nSET\r\n$3\r\nfoo\r\n"[..]);
    let (_, v) = Parser::parse_array(&mut buf, 0).unwrap().unwrap();
    assert_eq!(v.to_resp(&buf), "*2\r\n$3\r\nSET\r\n$3\r\nfoo\r\n");
    assert_eq!(RedisBufSplit::Int(7).to_resp(&buf), ":7\r\n");
    assert_eq!(RedisBufSplit::NullBulkString.to_resp(&buf), "$-1\r\n");
}

#[test]
fn value_rendering() {
    let v = RedisValue::Array(vec![
        RedisValue::BulkString(b"a".to_vec()),
        RedisValue::Int(5),
        RedisValue::Null,
        RedisValue::Array(Vec::new()),
    ]);
    assert_eq!(v.to_string(), "[a,5,null,[]]");
    assert_eq!(RedisValue::String(b"OK".to_vec()).to_string(), "OK");
}

#[test]
fn arrays_of_any_frames() {
    let v = RedisValue::Array(vec![
        RedisValue::Int(5),
        RedisValue::String(b"OK".to_vec()),
        RedisValue::Error(b"ERR x".to_vec()),
        RedisValue::Array(vec![RedisValue::BulkString(b"ab".to_vec()), RedisValue::Null]),
        RedisValue::NullArray,
    ]);
    let bytes = v.as_bytes();
    let mut buf = BytesMut::from(&bytes[..]);
    let (end, split) = Parser::parse_array(&mut buf, 0).unwrap().unwrap();
    assert_eq!(end, bytes.len());
    match split {
        RedisBufSplit::Array(items) => {
            assert_eq!(items.len(), 5);
            assert_eq!(items[0], RedisBufSplit::Int(5));
            assert_eq!(items[1].to_string(&buf), "OK");
            assert!(matches!(items[2], RedisBufSplit::Error(_)));
            assert_eq!(items[2].to_string(&buf), "ERR x");
            assert_eq!(items[3].to_string(&buf), "[ab,null]");
            assert_eq!(items[4], RedisBufSplit::NullArray);
        }
        _ => panic!("expected array"),
    }
    let mut buf = BytesMut::from(&b"*1\r\n:1\r\n"[..]);
    assert_eq!(
        Parser::parse_array(&mut buf, 0),
        Ok(Some((8, RedisBufSplit::Array(vec![RedisBufSplit::Int(1)]))))
    );
}

#[test]
fn non_array_frames_are_skipped() {
    let mut buf = BytesMut::from(&b"+OK\r\n:3\r\n-ERR\r\n$-1\r\n*1\r\n$4\r\nPING\r\n"[..]);
    let r = Parser::parse_commands(&mut buf).unwrap();
    assert_eq!(r.len(), 1);
    assert_eq!(r[0].command, Command::Ping);
    assert_eq!(r[0].bytes_read, 14);
}

#[test]
fn default_flags_give_known_master() {
    let s = RedisServer::new(&vec!["prog".to_string()]).unwrap();
    assert_eq!(s.config.master_replid, REPLID);
    assert_eq!(s.config.master_reploffset, 0);
    let body = format!("role:master\nmaster_replid:{}\nmaster_repl_offset:0", REPLID);
    assert_eq!(s.info(b"replication"), RedisValue::BulkString(body.into_bytes()));
}
