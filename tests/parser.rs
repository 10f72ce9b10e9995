use bytes::BytesMut;
use redis_starter_rust::command::Command;
use redis_starter_rust::parser::{BufSplit, Parser, RESPDataType, RedisBufSplit};

#[test]
fn test_word() {
    let mut buf = BytesMut::from(&b"*2\r\n$3\r\nSET\r\n$3\r\nfoo\r\n"[..]);
    let (pos, word) = Parser::token(&mut buf, 0).unwrap();
    assert_eq!(word, BufSplit(0, 2));
    assert_eq!(pos, 4);
}

#[test]
fn test_int() {
    let mut buf = BytesMut::from(&b"*2\r\n$10\r\nfoobarabcd\r\n"[..]);
    let (pos, u) = Parser::parse_int(&mut buf, 4)
        .map(|x| (x.0, x.1 as usize))
        .unwrap();
    assert_eq!(u, 10);
    assert_eq!(pos, 9);
    assert_eq!(buf[pos], b'f');
    assert_eq!(BufSplit(pos, pos + u).to_string(&buf), "foobarabcd");
}

#[test]
fn test_words() {
    let mut i = 0;
    let buf = BytesMut::from(&b"*2\r\n$3\r\nSET\r\n$3\r\nfoo\r\n"[..]);
    let mut words = vec![];
    while i < buf.len() {
        let (pos, word) = Parser::token(&buf, i).unwrap();
        println!("{}", String::from_utf8_lossy(&buf[word.0..word.1]));
        words.push(String::from_utf8_lossy(&buf[word.0..word.1]));
        i = pos;
    }
    assert_eq!(words.len(), 5);
    assert_eq!(words[0], "*2");
    assert_eq!(words[1], "$3");
    assert_eq!(words[2], "SET");
    assert_eq!(words[3], "$3");
    assert_eq!(words[4], "foo");
}

#[test]
fn test_bulk_string() {
    let mut buf = BytesMut::from(&b"$3\r\nSET\r\n$10\r\nfoobarabcd\r\n"[..]);
    let (pos, split) = Parser::parse_bulk_string(&mut buf, 0).unwrap().unwrap();
    match split {
        RedisBufSplit::String(word) => {
            assert_eq!(word.to_string(&buf), "SET");
        }
        _ => panic!("expected string"),
    }
    // Read the next bulk string
    let (_pos, split) = Parser::parse_bulk_string(&mut buf, pos).unwrap().unwrap();
    match split {
        RedisBufSplit::String(word) => {
            assert_eq!(word.to_string(&buf), "foobarabcd");
        }
        _ => panic!("expected string"),
    }
}

#[test]
fn test_array() {
    let mut buf = BytesMut::from(&b"*2\r\n$3\r\nSET\r\n$3\r\nfoo\r\n"[..]);
    let (_pos, split) = Parser::parse_array(&mut buf, 0).unwrap().unwrap();
    match split {
        RedisBufSplit::Array(words) => {
            assert_eq!(words.len(), 2);
            assert_eq!(words[0].to_string(&buf), "SET");
            assert_eq!(words[1].to_string(&buf), "foo");
        }
        _ => panic!("expected array"),
    }
}

#[test]
fn test_simple_string() {
    let mut buf = BytesMut::from(&b"+OK\r\n"[..]);
    let (_pos, split) = Parser::simple_string(&mut buf, 0).unwrap().unwrap();
    match split {
        RedisBufSplit::String(word) => {
            assert_eq!(word.to_string(&buf), "OK");
        }
        _ => panic!("expected string"),
    }
}

#[test]
fn test_token() {
    let pysnc_resp = b"+FULLRESYNC 75cd7bc10c49047e0d163660f3b90625b1af31dc 0\r\n$88\r\nREDIS0011\xEF\xBF\xBD       redis-ver7.2.0\xEF\xBF\xBD\r\nredis-bits\xEF\xBF\xBD@\xEF\xBF\xBDctime\xEF\xBF\xBD\xEF\xBF\xBDused-mem\xC2\xB0\xEF\xBF\xBDaof-base\xEF\xBF\xBD\xEF\xBF\xBD\xEF\xBF\xBDn;\xEF\xBF\xBD\xEF\xBF\xBDZ\xEF\xBF\xBD\r\n*3\r\n$3\r\nSET\r\n$3\r\nfoo\r\n$3\r\n123\r\n*3\r\n$3\r\nSET\r\n$3\r\nbar\r\n$3\r\n456\r\n*3\r\n$3\r\nSET\r\n$3\r\nbaz\r\n$3\r\n789\r\n";
    let mut buf = BytesMut::from(&pysnc_resp[..]);
    let mut i = 0;
    loop {
        let (pos, word) = Parser::token(&mut buf, i).unwrap();
        let word = word.to_string(&buf);
        if word.starts_with("*") {
            break;
        }
        i = pos;
    }
    let (i, split) = Parser::parse_array(&mut buf, i).unwrap().unwrap();
    match split {
        RedisBufSplit::Array(words) => {
            assert_eq!(words.len(), 3);
            assert_eq!(words[0].to_string(&buf), "SET");
            assert_eq!(words[1].to_string(&buf), "foo");
            assert_eq!(words[2].to_string(&buf), "123");
        }
        _ => panic!("expected array"),
    }
    let (i, split) = Parser::parse_array(&mut buf, i).unwrap().unwrap();
    match split {
        RedisBufSplit::Array(words) => {
            assert_eq!(words.len(), 3);
            assert_eq!(words[0].to_string(&buf), "SET");
            assert_eq!(words[1].to_string(&buf), "bar");
            assert_eq!(words[2].to_string(&buf), "456");
        }
        _ => panic!("expected array"),
    }
    let (_i, split) = Parser::parse_array(&mut buf, i).unwrap().unwrap();
    match split {
        RedisBufSplit::Array(words) => {
            assert_eq!(words.len(), 3);
            assert_eq!(words[0].to_string(&buf), "SET");
            assert_eq!(words[1].to_string(&buf), "baz");
            assert_eq!(words[2].to_string(&buf), "789");
        }
        _ => panic!("expected array"),
    }
}

#[test]
fn test_find_start_resp_type() {
    let mut buf = BytesMut::from(&"+FULLRESYNC 75cd7bc10c49047e0d163660f3b90625b1af31dc 0\r\n$88\r\nREDIS0011\u{fffd}\tredis-ver\u{5}7.2.0\u{fffd}\nredis-bits\u{fffd}@\u{fffd}\u{5}ctime\u{fffd}m\u{8}\u{fffd}e\u{fffd}\u{8}used-mem\u{b0}\u{fffd}\u{10}\u{fffd}\u{8}aof-base\u{fffd}\u{fffd}\u{fffd}n;\u{fffd}\u{fffd}\u{fffd}Z\u{fffd}*3\r\n$8\r\nREPLCONF\r\n$6\r\nGETACK\r\n$1\r\n*\r\n*2\r\n$3\r\nSET\r\n$3\r\nfoo\r\n"[..]);
    let pos = Parser::find_start_resp_data_type(&mut buf, 0, &RESPDataType::Array).unwrap();
    let (_pos, split) = Parser::parse_array(&mut buf, pos).unwrap().unwrap();
    match split {
        RedisBufSplit::Array(words) => {
            assert_eq!(words.len(), 3);
            assert_eq!(words[0].to_string(&buf), "REPLCONF");
            assert_eq!(words[1].to_string(&buf), "GETACK");
            assert_eq!(words[2].to_string(&buf), "*");
        }
        _ => panic!("expected array"),
    }
}

#[test]
fn test_parse_commands() {
    let mut buf = BytesMut::from(&b"*3\r\n$3\r\nSET\r\n$3\r\nfoo\r\n$3\r\nbar\r\n"[..]);
    let r = Parser::parse_commands(&mut buf).unwrap();
    assert_eq!(r.len(), 1);
    assert_eq!(r[0].command, Command::SetKey(b"foo".to_vec(), b"bar".to_vec(), None));
    assert_eq!(r[0].bytes_read, 31);
    // With expiry
    let mut buf = BytesMut::from(&b"*5\r\n$3\r\nSET\r\n$3\r\nfoo\r\n$3\r\nbar\r\n$2\r\nPX\r\n$2\r\n10\r\n"[..]);
    let r = Parser::parse_commands(&mut buf).unwrap();
    assert_eq!(r.len(), 1);
    assert_eq!(r[0].command, Command::SetKey(b"foo".to_vec(), b"bar".to_vec(), Some(10)));
    assert_eq!(r[0].bytes_read, 47);

    // replconf getack *
    let mut buf = BytesMut::from(&b"*3\r\n$8\r\nREPLCONF\r\n$6\r\nGETACK\r\n$1\r\n*\r\n"[..]);
    let r = Parser::parse_commands(&mut buf).unwrap();
    assert_eq!(r.len(), 1);
    assert_eq!(r[0].command, Command::ReplConf(vec![b"getack".to_vec(), b"*".to_vec()]));
    assert_eq!(r[0].bytes_read, 37);

    // ping command
    let mut buf = BytesMut::from(&b"*1\r\n$4\r\nPING\r\n"[..]);
    let r = Parser::parse_commands(&mut buf).unwrap();
    assert_eq!(r.len(), 1);
    assert_eq!(r[0].command, Command::Ping);
    assert_eq!(r[0].bytes_read, 14);

    // multiple set commands
    let mut buf = BytesMut::from(&b"*3\r\n$3\r\nSET\r\n$3\r\nfoo\r\n$3\r\nbar\r\n*3\r\n$3\r\nSET\r\n$3\r\nfoo\r\n$3\r\nbar\r\n"[..]);
    let r = Parser::parse_commands(&mut buf).unwrap();
    assert_eq!(r.len(), 2);
    assert_eq!(r[0].command, Command::SetKey(b"foo".to_vec(), b"bar".to_vec(), None));
    assert_eq!(r[0].bytes_read, 31);
    assert_eq!(r[1].command, Command::SetKey(b"foo".to_vec(), b"bar".to_vec(), None));
    assert_eq!(r[1].bytes_read, 31);
}
