//! The server: its configuration, its store, and what each command does.
use vstd::prelude::*;
use vstd::string::StringSliceAdditionalSpecFns;
use crate::resp::{RedisValue, Resp, digits_of, push_all, push_digits};
use crate::store::{Store, Slot, live, deadline_of};
use crate::command::{eq_bytes, word_replication};

verus! {

/// Settings fixed at startup.
pub struct RedisConfig {
    pub dir: String,
    pub dbfilename: String,
    pub port: u16,
    /// Host and port of the master, when this server is a replica.
    pub master_host_port: Option<(String, u16)>,
    pub is_replica: bool,
    pub master_replid: String,
    /// Bytes published to replicas so far.
    pub master_reploffset: usize,
}

/// A server: configuration and store.
pub struct RedisServer {
    pub db: Store,
    pub config: RedisConfig,
}

/// The bytes of a string.
pub open spec fn text_bytes(s: &String) -> Seq<u8> {
    vstd::utf8::encode_utf8(s@)
}

pub open spec fn word_role() -> Seq<u8> {
    seq![114u8, 111, 108, 101, 58]
}

pub open spec fn word_master() -> Seq<u8> {
    seq![109u8, 97, 115, 116, 101, 114]
}

pub open spec fn word_slave() -> Seq<u8> {
    seq![115u8, 108, 97, 118, 101]
}

pub open spec fn word_replid_line() -> Seq<u8> {
    seq![10u8, 109, 97, 115, 116, 101, 114, 95, 114, 101, 112, 108, 105, 100, 58]
}

pub open spec fn word_offset_line() -> Seq<u8> {
    seq![10u8, 109, 97, 115, 116, 101, 114, 95, 114, 101, 112, 108, 95, 111, 102, 102, 115, 101, 116, 58]
}

/// The body of the INFO replication reply.
pub open spec fn info_text(replica: bool, replid: Seq<u8>, offset: nat) -> Seq<u8> {
    word_role() + (if replica { word_slave() } else { word_master() }) + word_replid_line() + replid
        + word_offset_line() + digits_of(offset)
}

/// The INFO reply for a section: replication data, or null for any other section.
pub open spec fn info_reply(replica: bool, replid: Seq<u8>, offset: nat, section: Seq<u8>) -> Resp {
    if section == word_replication() {
        Resp::Bulk(info_text(replica, replid, offset))
    } else {
        Resp::NullBulk
    }
}

/// The snapshot of an empty database sent after FULLRESYNC.
pub open spec fn empty_rdb() -> Seq<u8> {
    seq![
        82u8, 69, 68, 73, 83, 48, 48, 49, 49, 250, 9, 114, 101, 100, 105, 115, 45, 118, 101, 114, 5, 55,
        46, 50, 46, 48, 250, 10, 114, 101, 100, 105, 115, 45, 98, 105, 116, 115, 192, 64, 250, 5, 99, 116,
        105, 109, 101, 194, 109, 8, 188, 101, 250, 8, 117, 115, 101, 100, 45, 109, 101, 109, 194, 176, 196,
        16, 0, 250, 8, 97, 111, 102, 45, 98, 97, 115, 101, 192, 0, 255, 240, 110, 59, 254, 192, 255, 90, 162
    ]
}

/// Value of a hexadecimal digit.
pub open spec fn hex_value(b: u8) -> Option<u8> {
    if 48 <= b <= 57 {
        Some((b - 48) as u8)
    } else if 97 <= b <= 102 {
        Some((b - 87) as u8)
    } else if 65 <= b <= 70 {
        Some((b - 55) as u8)
    } else {
        None
    }
}

/// Bytes written as pairs of hexadecimal digits.
pub open spec fn hex_decode(t: Seq<u8>) -> Option<Seq<u8>>
    decreases t.len(),
{
    if t.len() == 0 {
        Some(Seq::empty())
    } else if t.len() == 1 {
        None
    } else {
        match (hex_value(t[0]), hex_value(t[1]), hex_decode(t.skip(2))) {
            (Some(hi), Some(lo), Some(rest)) => Some(seq![(hi * 16 + lo) as u8] + rest),
            _ => None,
        }
    }
}

fn hex_digit(b: u8) -> (r: Option<u8>)
    ensures
        r == hex_value(b),
{
    if 48 <= b && b <= 57 {
        Some(b - 48)
    } else if 97 <= b && b <= 102 {
        Some(b - 87)
    } else if 65 <= b && b <= 70 {
        Some(b - 55)
    } else {
        None
    }
}

/// Decodes text written as pairs of hexadecimal digits.
pub fn decode_hex(s: &str) -> (r: Option<Vec<u8>>)
    ensures
        match hex_decode(s.spec_bytes()) {
            Some(b) => r is Some && r->0@ == b,
            None => r is None,
        },
{
    let t = s.as_bytes();
    let mut out: Vec<u8> = Vec::new();
    let mut i: usize = 0;
    assert(t@.skip(0) =~= t@);
    proof {
        match hex_decode(t@) {
            Some(r0) => {
                assert(out@ + r0 =~= r0);
            },
            None => {},
        }
    }
    while i < t.len()
        invariant
            i <= t@.len(),
            t@ == s.spec_bytes(),
            i % 2 == 0,
            hex_decode(t@) == match hex_decode(t@.skip(i as int)) {
                Some(rest) => Some(out@ + rest),
                None => None::<Seq<u8>>,
            },
        decreases t@.len() - i,
    {
        let ghost rest = t@.skip(i as int);
        if i + 1 == t.len() {
            return None;
        }
        assert(rest[0] == t@[i as int] && rest[1] == t@[i + 1]);
        assert(rest.skip(2) =~= t@.skip(i + 2));
        let hi = match hex_digit(t[i]) {
            Some(h) => h,
            None => {
                return None;
            },
        };
        let lo = match hex_digit(t[i + 1]) {
            Some(l) => l,
            None => {
                return None;
            },
        };
        let ghost before = out@;
        out.push(hi * 16 + lo);
        proof {
            match hex_decode(t@.skip(i + 2)) {
                Some(r2) => {
                    assert(before + (seq![(hi * 16 + lo) as u8] + r2) =~= out@ + r2);
                },
                None => {},
            }
        }
        i = i + 2;
    }
    assert(t@.skip(i as int) =~= Seq::<u8>::empty());
    assert(out@ + Seq::<u8>::empty() =~= out@);
    Some(out)
}

impl RedisConfig {
    /// The role follows the master's address, and a replica publishes
    /// nothing, so its offset is 0.
    pub open spec fn wf(&self) -> bool {
        &&& self.is_replica == self.master_host_port is Some
        &&& self.is_replica ==> self.master_reploffset == 0
    }

    /// The defaults: a master on port 6379, directory `.`, file `dump.rdb`,
    /// a fixed replication id and offset 0.
    pub fn new() -> (r: RedisConfig)
        ensures
            r.wf(),
            r.port == 6379,
            r.master_host_port is None,
            r.master_reploffset == 0,
            r.dir@ == "."@,
            r.dbfilename@ == "dump.rdb"@,
            r.master_replid@ == "8371b4fb1155b71f4a04d3e1bc3e18c4a990aeeb"@,
    {
        RedisConfig {
            dir: ".".to_owned(),
            dbfilename: "dump.rdb".to_owned(),
            port: 6379,
            master_host_port: None,
            is_replica: false,
            master_replid: "8371b4fb1155b71f4a04d3e1bc3e18c4a990aeeb".to_owned(),
            master_reploffset: 0,
        }
    }

    /// These settings made a replica of the master at `host`:`port`.
    pub fn replica_of(self, host: String, port: u16) -> (r: RedisConfig)
        ensures
            r.wf(),
            r.is_replica,
            r.master_host_port == Some((host, port)),
            r.port == self.port,
            r.dir == self.dir,
            r.dbfilename == self.dbfilename,
            r.master_replid == self.master_replid,
            r.master_reploffset == 0,
    {
        RedisConfig { master_host_port: Some((host, port)), is_replica: true, master_reploffset: 0, ..self }
    }
}

impl RedisServer {
    pub open spec fn wf(&self) -> bool {
        self.db.wf() && self.config.wf()
    }

    /// A server with an empty store.
    pub fn with_config(config: RedisConfig) -> (r: RedisServer)
        requires
            config.wf(),
        ensures
            r.wf(),
            r.config == config,
            r.db@ == Map::<Seq<u8>, Slot>::empty(),
    {
        RedisServer { db: Store::new(), config }
    }

    /// The value of `key` at `now`, if it is set and not expired; an expired
    /// entry is removed.
    pub fn get(&mut self, key: &[u8], now: u64) -> (r: Option<RedisValue>)
        requires
            old(self).wf(),
        ensures
            final(self).wf(),
            final(self).config == old(self).config,
            match old(self).db@.get(key@) {
                Some(s) => if live(s, now as nat) {
                    r is Some && r->0@ == s.0 && final(self).db@ == old(self).db@
                } else {
                    r is None && final(self).db@ == old(self).db@.remove(key@)
                },
                None => r is None && final(self).db@ == old(self).db@,
            },
    {
        self.db.lookup_live(key, now)
    }

    /// Sets `key` to `value` at `now`, expiring `duration` milliseconds later
    /// if a duration is given.
    pub fn set(&mut self, key: &[u8], value: RedisValue, duration: Option<u64>, now: u64)
        requires
            old(self).wf(),
        ensures
            final(self).wf(),
            final(self).config == old(self).config,
            final(self).db@ == old(self).db@.insert(key@, (value@, deadline_of(now as nat, match duration {
                Some(d) => Some(d as nat),
                None => None,
            }))),
    {
        let deadline = match duration {
            Some(d) => Some(now.saturating_add(d)),
            None => None,
        };
        self.db.insert(key, value, deadline);
    }

    /// The bytes of the replication id.
    pub open spec fn replid(&self) -> Seq<u8> {
        text_bytes(&self.config.master_replid)
    }

    /// The INFO reply for `section`.
    pub fn info(&self, section: &[u8]) -> (r: RedisValue)
        requires
            self.config.wf(),
        ensures
            r@ == info_reply(self.config.is_replica, self.replid(), self.config.master_reploffset as nat, section@),
    {
        let replication: Vec<u8> = vec![114u8, 101, 112, 108, 105, 99, 97, 116, 105, 111, 110];
        assert(replication@ == word_replication());
        if !eq_bytes(section, replication.as_slice()) {
            return RedisValue::Null;
        }
        let mut out: Vec<u8> = vec![114u8, 111, 108, 101, 58];
        if self.config.is_replica {
            push_all(&mut out, vec![115u8, 108, 97, 118, 101].as_slice());
        } else {
            push_all(&mut out, vec![109u8, 97, 115, 116, 101, 114].as_slice());
        }
        push_all(&mut out, vec![10u8, 109, 97, 115, 116, 101, 114, 95, 114, 101, 112, 108, 105, 100, 58].as_slice());
        push_all(&mut out, self.config.master_replid.as_str().as_bytes());
        push_all(
            &mut out,
            vec![10u8, 109, 97, 115, 116, 101, 114, 95, 114, 101, 112, 108, 95, 111, 102, 102, 115, 101, 116, 58].as_slice(),
        );
        push_digits(&mut out, self.config.master_reploffset as u64);
        assert(out@ =~= info_text(self.config.is_replica, self.replid(), self.config.master_reploffset as nat));
        RedisValue::BulkString(out)
    }

    /// The snapshot sent to a replica on full resynchronisation.
    pub fn rdb_dump(&self) -> (r: Vec<u8>)
        ensures
            r@ == empty_rdb(),
    {
        let r: Vec<u8> = vec![
            82u8, 69, 68, 73, 83, 48, 48, 49, 49, 250, 9, 114, 101, 100, 105, 115, 45, 118, 101, 114, 5, 55,
            46, 50, 46, 48, 250, 10, 114, 101, 100, 105, 115, 45, 98, 105, 116, 115, 192, 64, 250, 5, 99, 116,
            105, 109, 101, 194, 109, 8, 188, 101, 250, 8, 117, 115, 101, 100, 45, 109, 101, 109, 194, 176, 196,
            16, 0, 250, 8, 97, 111, 102, 45, 98, 97, 115, 101, 192, 0, 255, 240, 110, 59, 254, 192, 255, 90, 162,
        ];
        assert(r@ =~= empty_rdb());
        r
    }
}

} // verus!
