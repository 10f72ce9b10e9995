//! What each command does on a connection: its reply, its effect on the
//! store, and what is propagated to replicas.
use vstd::prelude::*;
use crate::resp::{RedisValue, Resp, encode, digits_of, push_all, push_digits, push_crlf};
use crate::store::{Slot, live, deadline_of};
use crate::command::{Cmd, Command, word_getack, word_ack, views};
use crate::parser::{ParsedCommand, batch_of, parse_prefix, parsed_views, well_counted};
use crate::buffer::{buf_bytes, buf_slice, buf_extend, buf_split_to};
use crate::server::{RedisServer, info_reply, empty_rdb};

verus! {

/// Who is on the other end of a connection.
#[derive(Debug, PartialEq, Eq, Clone, Copy)]
pub enum ConnKind {
    /// A client, or a replica before it asks for the replication stream.
    Client,
    /// The master, streaming writes to this replica.
    FromMaster,
}

pub open spec fn reply_pong() -> Seq<u8> {
    seq![43u8, 80, 79, 78, 71, 13, 10]
}

pub open spec fn reply_ok() -> Seq<u8> {
    seq![43u8, 79, 75, 13, 10]
}

pub open spec fn reply_unknown() -> Seq<u8> {
    seq![45u8, 69, 82, 82, 32, 117, 110, 107, 110, 111, 119, 110, 32, 99, 111, 109, 109, 97, 110, 100, 13, 10]
}

pub open spec fn reply_syntax() -> Seq<u8> {
    seq![45u8, 69, 82, 82, 32, 115, 121, 110, 116, 97, 120, 32, 101, 114, 114, 111, 114, 13, 10]
}

pub open spec fn word_replconf_upper() -> Seq<u8> {
    seq![82u8, 69, 80, 76, 67, 79, 78, 70]
}

pub open spec fn word_ack_upper() -> Seq<u8> {
    seq![65u8, 67, 75]
}

/// The reply to `REPLCONF GETACK *` after `offset` replicated bytes.
pub open spec fn ack_reply(offset: nat) -> Seq<u8> {
    encode(Resp::Array(seq![Resp::Bulk(word_replconf_upper()), Resp::Bulk(word_ack_upper()), Resp::Bulk(digits_of(offset))]))
}

/// The reply to PSYNC: FULLRESYNC with the replication id, then the snapshot
/// as a length line and its bytes, with no CR LF after them.
pub open spec fn fullresync_reply(replid: Seq<u8>) -> Seq<u8> {
    seq![43u8, 70, 85, 76, 76, 82, 69, 83, 89, 78, 67, 32] + replid + seq![32u8, 48, 13, 10] + seq![36u8]
        + digits_of(empty_rdb().len()) + seq![13u8, 10] + empty_rdb()
}

pub open spec fn sat_add(a: nat, b: nat) -> nat {
    if a + b <= usize::MAX { a + b } else { usize::MAX as nat }
}

/// State that commands change: the store, the bytes published so far, the
/// bytes consumed on the connection, and whether it became a replica sink.
pub struct RunState {
    pub db: Map<Seq<u8>, Slot>,
    pub master_offset: nat,
    pub offset: nat,
    pub subscribed: bool,
}

/// What does not change while commands run.
pub struct Setting {
    pub replica: bool,
    pub replid: Seq<u8>,
    pub kind: ConnKind,
    pub now: nat,
}

/// The outcome of one command: the next state, the reply, and the bytes to
/// publish to replicas.
pub struct StepResult {
    pub state: RunState,
    pub reply: Seq<u8>,
    pub publish: Option<Seq<u8>>,
}

/// The reply to GET: the live value, or the null bulk string.
pub open spec fn get_reply(db: Map<Seq<u8>, Slot>, k: Seq<u8>, now: nat) -> Seq<u8> {
    if db.contains_key(k) && live(db[k], now) {
        encode(db[k].0)
    } else {
        encode(Resp::NullBulk)
    }
}

/// The store after reading `k` at `now`: an expired entry is gone.
pub open spec fn db_after_get(db: Map<Seq<u8>, Slot>, k: Seq<u8>, now: nat) -> Map<Seq<u8>, Slot> {
    if db.contains_key(k) && !live(db[k], now) {
        db.remove(k)
    } else {
        db
    }
}

/// One command on a connection that is not a replica sink.
pub open spec fn step(st: RunState, set: Setting, c: Cmd, raw: Seq<u8>) -> StepResult {
    let from_master = set.kind == ConnKind::FromMaster;
    let next = RunState { offset: sat_add(st.offset, raw.len()), ..st };
    let silent = |r: Seq<u8>| if from_master { Seq::<u8>::empty() } else { r };
    match c {
        Cmd::Ping => StepResult { state: next, reply: silent(reply_pong()), publish: None },
        Cmd::Echo(x) => StepResult { state: next, reply: encode(Resp::Bulk(x)), publish: None },
        Cmd::Get(k) => StepResult {
            state: RunState { db: db_after_get(st.db, k, set.now), ..next },
            reply: get_reply(st.db, k, set.now),
            publish: None,
        },
        Cmd::SetKey(k, v, ttl) => {
            let propagate = !from_master && !set.replica;
            StepResult {
                state: RunState {
                    db: st.db.insert(k, (Resp::Bulk(v), deadline_of(set.now, ttl))),
                    master_offset: if propagate { sat_add(st.master_offset, raw.len()) } else { st.master_offset },
                    ..next
                },
                reply: silent(reply_ok()),
                publish: if propagate { Some(raw) } else { None },
            }
        },
        Cmd::Info(section) => StepResult {
            state: next,
            reply: encode(info_reply(set.replica, set.replid, st.master_offset, section)),
            publish: None,
        },
        Cmd::ReplConf(args) => StepResult {
            state: next,
            reply: if args.len() > 0 && args[0] == word_getack() {
                ack_reply(st.offset)
            } else if args.len() > 0 && args[0] == word_ack() {
                Seq::empty()
            } else {
                silent(reply_ok())
            },
            publish: None,
        },
        Cmd::Psync(_, _) => StepResult {
            state: RunState { subscribed: !from_master, ..next },
            reply: silent(fullresync_reply(set.replid)),
            publish: None,
        },
        Cmd::Unknown => StepResult { state: next, reply: silent(reply_unknown()), publish: None },
        Cmd::Invalid => StepResult { state: next, reply: silent(reply_syntax()), publish: None },
    }
}

/// Several commands in order: the final state, one reply per command, and
/// the published bytes in order.  Once a connection is a replica sink,
/// commands on it do nothing.
pub struct RunResult {
    pub state: RunState,
    pub replies: Seq<Seq<u8>>,
    pub published: Seq<Seq<u8>>,
}

pub open spec fn run(st: RunState, set: Setting, cmds: Seq<(Cmd, Seq<u8>)>) -> RunResult
    decreases cmds.len(),
{
    if cmds.len() == 0 {
        RunResult { state: st, replies: Seq::empty(), published: Seq::empty() }
    } else {
        let before = run(st, set, cmds.drop_last());
        let (c, raw) = cmds.last();
        if before.state.subscribed {
            RunResult { replies: before.replies.push(Seq::empty()), ..before }
        } else {
            let s = step(before.state, set, c, raw);
            RunResult {
                state: s.state,
                replies: before.replies.push(s.reply),
                published: match s.publish {
                    Some(p) => before.published.push(p),
                    None => before.published,
                },
            }
        }
    }
}

} // verus!

verus! {

/// One connection's state: who is on the other end, the bytes of commands
/// consumed so far, whether it has become a replica sink, and the bytes read
/// but not yet decoded.
pub struct Connection {
    pub kind: ConnKind,
    pub offset: usize,
    pub subscribed: bool,
    pub buffer: bytes::BytesMut,
}

impl Connection {
    /// A fresh connection: nothing consumed, nothing buffered.
    pub fn new(kind: ConnKind) -> (r: Connection)
        ensures
            r.kind == kind,
            r.offset == 0,
            !r.subscribed,
            buf_bytes(r.buffer) == Seq::<u8>::empty(),
    {
        Connection { kind, offset: 0, subscribed: false, buffer: crate::buffer::buf_new() }
    }
}

pub open spec fn run_state(server: RedisServer, conn: Connection) -> RunState {
    RunState {
        db: server.db@,
        master_offset: server.config.master_reploffset as nat,
        offset: conn.offset as nat,
        subscribed: conn.subscribed,
    }
}

pub open spec fn setting(server: RedisServer, kind: ConnKind, now: u64) -> Setting {
    Setting { replica: server.config.is_replica, replid: server.replid(), kind, now: now as nat }
}

fn push_literal(out: &mut Vec<u8>, lit: Vec<u8>)
    ensures
        final(out)@ == old(out)@ + lit@,
{
    push_all(out, lit.as_slice());
}

fn ack_bytes(offset: usize) -> (r: Vec<u8>)
    ensures
        r@ == ack_reply(offset as nat),
{
    let mut digits: Vec<u8> = Vec::new();
    push_digits(&mut digits, offset as u64);
    assert(digits@ =~= digits_of(offset as nat));
    let a: Vec<u8> = vec![82u8, 69, 80, 76, 67, 79, 78, 70];
    let b: Vec<u8> = vec![65u8, 67, 75];
    assert(a@ == word_replconf_upper());
    assert(b@ == word_ack_upper());
    let mut items: Vec<RedisValue> = Vec::new();
    items.push(RedisValue::BulkString(a));
    items.push(RedisValue::BulkString(b));
    items.push(RedisValue::BulkString(digits));
    assert(items@[0]@ == Resp::Bulk(word_replconf_upper()));
    assert(items@[1]@ == Resp::Bulk(word_ack_upper()));
    assert(items@[2]@ == Resp::Bulk(digits_of(offset as nat)));
    let v = RedisValue::Array(items);
    assert(v@->Array_0 =~= seq![Resp::Bulk(word_replconf_upper()), Resp::Bulk(word_ack_upper()), Resp::Bulk(digits_of(offset as nat))]);
    v.as_bytes()
}

impl RedisServer {
    /// Runs one command on a connection that is not a replica sink: returns
    /// the reply (empty when there is none) and the bytes to publish to
    /// replicas, if any.
    pub fn execute(&mut self, conn: &mut Connection, pc: &ParsedCommand, now: u64) -> (r: (Vec<u8>, Option<Vec<u8>>))
        requires
            old(self).wf(),
            !old(conn).subscribed,
            pc.bytes_read == pc.raw@.len(),
        ensures
            final(self).wf(),
            ({
                let s = step(run_state(*old(self), *old(conn)), setting(*old(self), old(conn).kind, now), pc.command@, pc.raw@);
                &&& run_state(*final(self), *final(conn)) == s.state
                &&& r.0@ == s.reply
                &&& match s.publish {
                    Some(p) => r.1 is Some && r.1->0@ == p,
                    None => r.1 is None,
                }
            }),
            final(self).config.is_replica == old(self).config.is_replica,
            final(self).config.master_replid == old(self).config.master_replid,
            final(conn).kind == old(conn).kind,
            final(conn).buffer == old(conn).buffer,
    {
        let from_master = match conn.kind {
            ConnKind::FromMaster => true,
            ConnKind::Client => false,
        };
        let mut reply: Vec<u8> = Vec::new();
        let mut publish: Option<Vec<u8>> = None;
        let ghost st = run_state(*self, *conn);
        match &pc.command {
            Command::Ping => {
                if !from_master {
                    push_literal(&mut reply, vec![43u8, 80, 79, 78, 71, 13, 10]);
                }
            },
            Command::Echo(x) => {
                reply = RedisValue::BulkString(vstd::slice::slice_to_vec(x.as_slice())).as_bytes();
            },
            Command::Get(k) => {
                match self.get(k.as_slice(), now) {
                    Some(v) => {
                        reply = v.as_bytes();
                    },
                    None => {
                        reply = RedisValue::Null.as_bytes();
                    },
                }
            },
            Command::SetKey(k, v, ttl) => {
                self.set(k.as_slice(), RedisValue::BulkString(vstd::slice::slice_to_vec(v.as_slice())), *ttl, now);
                if !from_master {
                    push_literal(&mut reply, vec![43u8, 79, 75, 13, 10]);
                    if !self.config.is_replica {
                        self.config.master_reploffset = self.config.master_reploffset.saturating_add(pc.bytes_read);
                        publish = Some(vstd::slice::slice_to_vec(pc.raw.as_slice()));
                    }
                }
            },
            Command::Info(section) => {
                reply = self.info(section.as_slice()).as_bytes();
            },
            Command::ReplConf(args) => {
                let getack: Vec<u8> = vec![103u8, 101, 116, 97, 99, 107];
                let ack: Vec<u8> = vec![97u8, 99, 107];
                assert(getack@ == word_getack());
                assert(ack@ == word_ack());
                if args.len() > 0 {
                    assert(views(args@)[0] == args@[0]@);
                }
                if args.len() > 0 && crate::command::eq_bytes(args[0].as_slice(), getack.as_slice()) {
                    reply = ack_bytes(conn.offset);
                } else if args.len() > 0 && crate::command::eq_bytes(args[0].as_slice(), ack.as_slice()) {
                } else if !from_master {
                    push_literal(&mut reply, vec![43u8, 79, 75, 13, 10]);
                }
            },
            Command::Psync(_, _) => {
                if !from_master {
                    push_literal(&mut reply, vec![43u8, 70, 85, 76, 76, 82, 69, 83, 89, 78, 67, 32]);
                    push_all(&mut reply, self.config.master_replid.as_str().as_bytes());
                    push_literal(&mut reply, vec![32u8, 48, 13, 10, 36]);
                    let rdb = self.rdb_dump();
                    push_digits(&mut reply, rdb.len() as u64);
                    push_crlf(&mut reply);
                    push_all(&mut reply, rdb.as_slice());
                    conn.subscribed = true;
                    assert(reply@ =~= fullresync_reply(self.replid()));
                }
            },
            Command::Unknown => {
                if !from_master {
                    push_literal(
                        &mut reply,
                        vec![45u8, 69, 82, 82, 32, 117, 110, 107, 110, 111, 119, 110, 32, 99, 111, 109, 109, 97, 110, 100, 13, 10],
                    );
                }
            },
            Command::Invalid => {
                if !from_master {
                    push_literal(&mut reply, vec![45u8, 69, 82, 82, 32, 115, 121, 110, 116, 97, 120, 32, 101, 114, 114, 111, 114, 13, 10]);
                }
            },
        }
        conn.offset = conn.offset.saturating_add(pc.bytes_read);
        assert(reply@ =~= step(st, setting(*old(self), old(conn).kind, now), pc.command@, pc.raw@).reply);
        (reply, publish)
    }
}

} // verus!

verus! {

/// What a connection must do after new bytes were handled: write each reply
/// (one per command; empty ones need no write), publish the bytes to
/// replicas, and close when the input starts no frame.
pub struct Outcome {
    pub replies: Vec<Vec<u8>>,
    pub publish: Vec<Vec<u8>>,
    pub close: bool,
}

pub open spec fn byte_views(v: Seq<Vec<u8>>) -> Seq<Seq<u8>> {
    v.map_values(|x: Vec<u8>| x@)
}

impl RedisServer {
    /// Takes bytes read from a connection: appends them to its buffer, runs
    /// every complete command in order, and keeps what is left of an
    /// incomplete frame for the next read.
    pub fn evaluate(&mut self, conn: &mut Connection, input: &[u8], now: u64) -> (r: Outcome)
        requires
            old(self).wf(),
        ensures
            final(self).wf(),
            ({
                let data = buf_bytes(old(conn).buffer) + input@;
                let b = batch_of(data);
                let res = run(run_state(*old(self), *old(conn)), setting(*old(self), old(conn).kind, now), b.cmds);
                &&& run_state(*final(self), *final(conn)) == res.state
                &&& byte_views(r.replies@) == res.replies
                &&& byte_views(r.publish@) == res.published
                &&& r.close == b.malformed
                &&& buf_bytes(final(conn).buffer) == data.skip(b.consumed as int)
            }),
            final(self).config.is_replica == old(self).config.is_replica,
            final(self).config.master_replid == old(self).config.master_replid,
            final(conn).kind == old(conn).kind,
    {
        buf_extend(&mut conn.buffer, input);
        let ghost data = buf_bytes(conn.buffer);
        let (cmds, consumed, err) = parse_prefix(buf_slice(&conn.buffer));
        let ghost b = batch_of(data);
        let ghost st0 = run_state(*old(self), *old(conn));
        let ghost set = setting(*old(self), old(conn).kind, now);
        let mut replies: Vec<Vec<u8>> = Vec::new();
        let mut publish: Vec<Vec<u8>> = Vec::new();
        let mut i: usize = 0;
        assert(b.cmds.take(0) =~= Seq::<(Cmd, Seq<u8>)>::empty());
        assert(byte_views(replies@) =~= Seq::<Seq<u8>>::empty());
        assert(byte_views(publish@) =~= Seq::<Seq<u8>>::empty());
        while i < cmds.len()
            invariant
                i <= cmds@.len(),
                self.wf(),
                parsed_views(cmds@) == b.cmds,
                well_counted(cmds@),
                set == setting(*self, conn.kind, now),
                buf_bytes(conn.buffer) == data,
                self.config.master_replid == old(self).config.master_replid,
                self.config.is_replica == old(self).config.is_replica,
                conn.kind == old(conn).kind,
                ({
                    let res = run(st0, set, b.cmds.take(i as int));
                    &&& run_state(*self, *conn) == res.state
                    &&& byte_views(replies@) == res.replies
                    &&& byte_views(publish@) == res.published
                }),
            decreases cmds@.len() - i,
        {
            let ghost prev = run(st0, set, b.cmds.take(i as int));
            assert(b.cmds.take(i + 1).drop_last() =~= b.cmds.take(i as int));
            assert(b.cmds.take(i + 1).last() == b.cmds[i as int]);
            assert(b.cmds[i as int] == cmds@[i as int]@);
            let ghost old_replies = byte_views(replies@);
            let ghost old_publish = byte_views(publish@);
            if conn.subscribed {
                replies.push(Vec::new());
                assert(byte_views(replies@) =~= old_replies.push(Seq::empty()));
            } else {
                let (reply, p) = self.execute(conn, &cmds[i], now);
                replies.push(reply);
                assert(byte_views(replies@) =~= old_replies.push(reply@));
                match p {
                    Some(bytes) => {
                        publish.push(bytes);
                        assert(byte_views(publish@) =~= old_publish.push(bytes@));
                    },
                    None => {},
                }
            }
            i = i + 1;
        }
        assert(b.cmds.take(i as int) =~= b.cmds);
        let _ = buf_split_to(&mut conn.buffer, consumed);
        Outcome { replies, publish, close: err.is_some() }
    }
}

} // verus!
