//! The replica's side of the replication handshake, as a state machine:
//! each step takes the bytes received so far and says how many it used,
//! what to send next, and the next state.
use vstd::prelude::*;
use crate::resp::{RedisValue, Resp, encode, digits_of, DOLLAR, LF, MAX_BULK_LEN};
use crate::decode::{Parse, find_cr, int_value, parse_frame};
use crate::parser::{line_end, read_int, parse_frame_at};
use crate::command::eq_bytes;

verus! {

/// Where the handshake stands.
#[derive(Debug, PartialEq, Eq, Clone, Copy)]
pub enum HandshakeState {
    /// PING sent.
    AwaitPong,
    /// REPLCONF listening-port sent.
    AwaitPortOk,
    /// REPLCONF capa psync2 sent.
    AwaitCapaOk,
    /// PSYNC ? -1 sent.
    AwaitFullResync,
    /// FULLRESYNC received; the snapshot comes next.
    AwaitRdb,
    /// Snapshot skipped: what follows is the replication stream.
    Streaming,
    /// The master answered something unexpected.
    Failed,
}

pub open spec fn word_ping_upper() -> Seq<u8> {
    seq![80u8, 73, 78, 71]
}

pub open spec fn word_pong_upper() -> Seq<u8> {
    seq![80u8, 79, 78, 71]
}

pub open spec fn word_ok_upper() -> Seq<u8> {
    seq![79u8, 75]
}

pub open spec fn word_fullresync() -> Seq<u8> {
    seq![70u8, 85, 76, 76, 82, 69, 83, 89, 78, 67, 32]
}

/// The wire form of a command made of bulk strings.
pub open spec fn command_bytes(words: Seq<Seq<u8>>) -> Seq<u8> {
    encode(Resp::Array(words.map_values(|w: Seq<u8>| Resp::Bulk(w))))
}

pub open spec fn ping_command() -> Seq<u8> {
    command_bytes(seq![word_ping_upper()])
}

pub open spec fn listening_port_command(port: u16) -> Seq<u8> {
    command_bytes(
        seq![
            seq![82u8, 69, 80, 76, 67, 79, 78, 70],
            seq![108u8, 105, 115, 116, 101, 110, 105, 110, 103, 45, 112, 111, 114, 116],
            digits_of(port as nat),
        ],
    )
}

pub open spec fn capa_command() -> Seq<u8> {
    command_bytes(
        seq![seq![82u8, 69, 80, 76, 67, 79, 78, 70], seq![99u8, 97, 112, 97], seq![112u8, 115, 121, 110, 99, 50]],
    )
}

pub open spec fn psync_command() -> Seq<u8> {
    command_bytes(seq![seq![80u8, 83, 89, 78, 67], seq![63u8], seq![45u8, 49]])
}

/// The snapshot at the front of `s`: `$`, its length, CR LF, and that many
/// bytes with no CR LF after them.  `Done` gives how many bytes it takes.
pub open spec fn rdb_frame(s: Seq<u8>) -> Option<Option<nat>> {
    if s.len() == 0 {
        Some(None)
    } else if s[0] != DOLLAR {
        None
    } else {
        match find_cr(s, 1) {
            None => Some(None),
            Some(e) => if e + 1 >= s.len() {
                Some(None)
            } else if s[e + 1] != LF {
                None
            } else {
                match int_value(s.subrange(1, e)) {
                    Some(n) => if 0 <= n <= MAX_BULK_LEN {
                        if s.len() < e + 2 + n {
                            Some(None)
                        } else {
                            Some(Some((e + 2 + n) as nat))
                        }
                    } else {
                        None
                    },
                    None => None,
                }
            },
        }
    }
}

/// The next state, the bytes used, and what to send, given the bytes
/// received so far.  Incomplete input uses nothing and waits.
pub open spec fn handshake(state: HandshakeState, port: u16, s: Seq<u8>) -> (HandshakeState, nat, Seq<u8>) {
    match state {
        HandshakeState::AwaitPong | HandshakeState::AwaitPortOk | HandshakeState::AwaitCapaOk
        | HandshakeState::AwaitFullResync => match parse_frame(s) {
            Parse::Incomplete => (state, 0, Seq::empty()),
            Parse::Done(Resp::Simple(t), n) => match state {
                HandshakeState::AwaitPong => if t == word_pong_upper() {
                    (HandshakeState::AwaitPortOk, n, listening_port_command(port))
                } else {
                    (HandshakeState::Failed, 0, Seq::empty())
                },
                HandshakeState::AwaitPortOk => if t == word_ok_upper() {
                    (HandshakeState::AwaitCapaOk, n, capa_command())
                } else {
                    (HandshakeState::Failed, 0, Seq::empty())
                },
                HandshakeState::AwaitCapaOk => if t == word_ok_upper() {
                    (HandshakeState::AwaitFullResync, n, psync_command())
                } else {
                    (HandshakeState::Failed, 0, Seq::empty())
                },
                _ => if t.len() >= word_fullresync().len() && t.take(word_fullresync().len() as int) == word_fullresync() {
                    (HandshakeState::AwaitRdb, n, Seq::empty())
                } else {
                    (HandshakeState::Failed, 0, Seq::empty())
                },
            },
            _ => (HandshakeState::Failed, 0, Seq::empty()),
        },
        HandshakeState::AwaitRdb => match rdb_frame(s) {
            Some(None) => (state, 0, Seq::empty()),
            Some(Some(n)) => (HandshakeState::Streaming, n, Seq::empty()),
            None => (HandshakeState::Failed, 0, Seq::empty()),
        },
        _ => (state, 0, Seq::empty()),
    }
}

fn bulk_command(words: Vec<Vec<u8>>) -> (r: Vec<u8>)
    ensures
        r@ == command_bytes(words@.map_values(|w: Vec<u8>| w@)),
{
    let ghost ws = words@.map_values(|w: Vec<u8>| w@);
    let mut items: Vec<RedisValue> = Vec::new();
    let mut i: usize = 0;
    while i < words.len()
        invariant
            i <= words@.len(),
            ws == words@.map_values(|w: Vec<u8>| w@),
            items@.len() == i,
            forall|j: int| 0 <= j < i ==> (#[trigger] items@[j])@ == Resp::Bulk(ws[j]),
        decreases words@.len() - i,
    {
        items.push(RedisValue::BulkString(vstd::slice::slice_to_vec(words[i].as_slice())));
        i = i + 1;
    }
    let v = RedisValue::Array(items);
    assert(v@->Array_0 =~= ws.map_values(|w: Seq<u8>| Resp::Bulk(w)));
    v.as_bytes()
}

/// The first command of the handshake: PING.
pub fn handshake_start() -> (r: Vec<u8>)
    ensures
        r@ == ping_command(),
{
    let mut words: Vec<Vec<u8>> = Vec::new();
    words.push(vec![80u8, 73, 78, 71]);
    let r = bulk_command(words);
    assert(words@.map_values(|w: Vec<u8>| w@) =~= seq![word_ping_upper()]);
    r
}

} // verus!

verus! {

fn rdb_at(buf: &[u8]) -> (r: Option<Option<usize>>)
    ensures
        match rdb_frame(buf@) {
            None => r is None,
            Some(None) => r == Some(None::<usize>),
            Some(Some(n)) => r is Some && r->0 is Some && r->0->0 as nat == n,
        },
{
    assert(buf@.skip(0) =~= buf@);
    if buf.len() == 0 {
        return Some(None);
    }
    if buf[0] != DOLLAR {
        return None;
    }
    let e = match line_end(buf, 0) {
        None => {
            return Some(None);
        },
        Some(e) => e,
    };
    if e + 1 >= buf.len() {
        return Some(None);
    }
    if buf[e + 1] != LF {
        return None;
    }
    let n = match read_int(buf, 1, e) {
        None => {
            return None;
        },
        Some(n) => n,
    };
    if n < 0 || n > MAX_BULK_LEN as i64 {
        return None;
    }
    let size = n as usize;
    if buf.len() - (e + 2) < size {
        return Some(None);
    }
    Some(Some(e + 2 + size))
}

/// One step of the handshake on the bytes received so far: the next state,
/// how many bytes were used, and what to send to the master.
pub fn handshake_step(state: HandshakeState, port: u16, buf: &[u8]) -> (r: (HandshakeState, usize, Vec<u8>))
    ensures
        r.0 == handshake(state, port, buf@).0,
        r.1 as nat == handshake(state, port, buf@).1,
        r.2@ == handshake(state, port, buf@).2,
{
    assert(buf@.skip(0) =~= buf@);
    match state {
        HandshakeState::AwaitRdb => {
            return match rdb_at(buf) {
                Some(None) => (state, 0, Vec::new()),
                Some(Some(n)) => (HandshakeState::Streaming, n, Vec::new()),
                None => (HandshakeState::Failed, 0, Vec::new()),
            };
        },
        HandshakeState::Streaming | HandshakeState::Failed => {
            return (state, 0, Vec::new());
        },
        _ => {},
    }
    let (n, t) = match parse_frame_at(buf, 0) {
        Ok(None) => {
            return (state, 0, Vec::new());
        },
        Ok(Some((n, RedisValue::String(t)))) => (n, t),
        _ => {
            return (HandshakeState::Failed, 0, Vec::new());
        },
    };
    match state {
        HandshakeState::AwaitPong => {
            if eq_bytes(t.as_slice(), vec![80u8, 79, 78, 71].as_slice()) {
                let mut digits: Vec<u8> = Vec::new();
                crate::resp::push_digits(&mut digits, port as u64);
                let mut words: Vec<Vec<u8>> = Vec::new();
                words.push(vec![82u8, 69, 80, 76, 67, 79, 78, 70]);
                words.push(vec![108u8, 105, 115, 116, 101, 110, 105, 110, 103, 45, 112, 111, 114, 116]);
                words.push(digits);
                let ghost ws = words@.map_values(|w: Vec<u8>| w@);
                let cmd = bulk_command(words);
                assert(ws =~= seq![
                    seq![82u8, 69, 80, 76, 67, 79, 78, 70],
                    seq![108u8, 105, 115, 116, 101, 110, 105, 110, 103, 45, 112, 111, 114, 116],
                    digits_of(port as nat),
                ]);
                (HandshakeState::AwaitPortOk, n, cmd)
            } else {
                (HandshakeState::Failed, 0, Vec::new())
            }
        },
        HandshakeState::AwaitPortOk => {
            if eq_bytes(t.as_slice(), vec![79u8, 75].as_slice()) {
                let mut words: Vec<Vec<u8>> = Vec::new();
                words.push(vec![82u8, 69, 80, 76, 67, 79, 78, 70]);
                words.push(vec![99u8, 97, 112, 97]);
                words.push(vec![112u8, 115, 121, 110, 99, 50]);
                let ghost ws = words@.map_values(|w: Vec<u8>| w@);
                let cmd = bulk_command(words);
                assert(ws =~= seq![seq![82u8, 69, 80, 76, 67, 79, 78, 70], seq![99u8, 97, 112, 97], seq![112u8, 115, 121, 110, 99, 50]]);
                (HandshakeState::AwaitCapaOk, n, cmd)
            } else {
                (HandshakeState::Failed, 0, Vec::new())
            }
        },
        HandshakeState::AwaitCapaOk => {
            if eq_bytes(t.as_slice(), vec![79u8, 75].as_slice()) {
                let mut words: Vec<Vec<u8>> = Vec::new();
                words.push(vec![80u8, 83, 89, 78, 67]);
                let q: Vec<u8> = vec![63u8];
                assert(q@ =~= seq![63u8]);
                words.push(q);
                words.push(vec![45u8, 49]);
                let ghost ws = words@.map_values(|w: Vec<u8>| w@);
                let cmd = bulk_command(words);
                assert(ws =~= seq![seq![80u8, 83, 89, 78, 67], seq![63u8], seq![45u8, 49]]);
                (HandshakeState::AwaitFullResync, n, cmd)
            } else {
                (HandshakeState::Failed, 0, Vec::new())
            }
        },
        _ => {
            let prefix: Vec<u8> = vec![70u8, 85, 76, 76, 82, 69, 83, 89, 78, 67, 32];
            if t.len() >= prefix.len() && eq_bytes(&t.as_slice()[0..prefix.len()], prefix.as_slice()) {
                (HandshakeState::AwaitRdb, n, Vec::new())
            } else {
                (HandshakeState::Failed, 0, Vec::new())
            }
        },
    }
}

} // verus!
