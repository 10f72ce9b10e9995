//! Startup flags: `--port`, `--dir`, `--dbfilename` and `--replicaof "HOST PORT"`.
use vstd::prelude::*;
use vstd::string::StringSliceAdditionalSpecFns;
use crate::resp::MINUS;
use crate::decode::int_value;
use crate::parser::read_int;
use crate::server::{RedisConfig, RedisServer};
use crate::store::Slot;

verus! {

/// Why the flags could not be used.
#[derive(Debug, PartialEq, Eq, Clone, Copy)]
pub enum ConfigError {
    /// A port that is not a decimal number from 0 to 65535.
    InvalidPort,
    /// A `--replicaof` value without a space between host and port.
    InvalidReplicaOf,
}

/// The settings the flags choose.
pub struct Flags {
    pub dir: Seq<char>,
    pub dbfilename: Seq<char>,
    pub port: nat,
    pub master: Option<(Seq<char>, nat)>,
}

/// A port written in decimal.
pub open spec fn port_of(t: Seq<char>) -> Option<nat> {
    let b = vstd::utf8::encode_utf8(t);
    if b.len() > 0 && b[0] != MINUS {
        match int_value(b) {
            Some(n) => if 0 <= n <= 65535 { Some(n as nat) } else { None },
            None => None,
        }
    } else {
        None
    }
}

/// Index of the first space in `t` at or after `i`.
pub open spec fn space_index(t: Seq<char>, i: int) -> Option<int>
    decreases t.len() - i,
{
    if i < 0 || i >= t.len() {
        None
    } else if t[i] == ' ' {
        Some(i)
    } else {
        space_index(t, i + 1)
    }
}

pub open spec fn is_flag(a: Seq<char>) -> bool {
    a == "--dir"@ || a == "--dbfilename"@ || a == "--port"@ || a == "--replicaof"@
}

/// Applies the flags from `a[i..]` to `f`, in order; a flag without a value
/// ends the list; other words are ignored.
pub open spec fn apply_flags(a: Seq<Seq<char>>, i: int, f: Flags) -> Result<Flags, ConfigError>
    decreases a.len() - i,
{
    if i < 0 || i >= a.len() {
        Ok(f)
    } else if !is_flag(a[i]) {
        apply_flags(a, i + 1, f)
    } else if i + 1 >= a.len() {
        Ok(f)
    } else {
        let v = a[i + 1];
        if a[i] == "--dir"@ {
            apply_flags(a, i + 2, Flags { dir: v, ..f })
        } else if a[i] == "--dbfilename"@ {
            apply_flags(a, i + 2, Flags { dbfilename: v, ..f })
        } else if a[i] == "--port"@ {
            match port_of(v) {
                Some(p) => apply_flags(a, i + 2, Flags { port: p, ..f }),
                None => Err(ConfigError::InvalidPort),
            }
        } else {
            match space_index(v, 0) {
                Some(k) => match port_of(v.skip(k + 1)) {
                    Some(p) => apply_flags(a, i + 2, Flags { master: Some((v.take(k), p)), ..f }),
                    None => Err(ConfigError::InvalidPort),
                },
                None => Err(ConfigError::InvalidReplicaOf),
            }
        }
    }
}

/// The settings when no flag is given.
pub open spec fn default_flags() -> Flags {
    Flags { dir: "."@, dbfilename: "dump.rdb"@, port: 6379, master: None }
}

pub open spec fn flags_of(c: RedisConfig) -> Flags {
    Flags {
        dir: c.dir@,
        dbfilename: c.dbfilename@,
        port: c.port as nat,
        master: match c.master_host_port {
            Some((h, p)) => Some((h@, p as nat)),
            None => None,
        },
    }
}

/// Relies on `str::split_once`: splits at the first space, which is dropped.
#[verifier::external_body]
fn split_at_space(s: &str) -> (r: Option<(String, String)>)
    ensures
        match space_index(s@, 0) {
            Some(k) => r is Some && (r->0).0@ == s@.take(k) && (r->0).1@ == s@.skip(k + 1),
            None => r is None,
        },
{
    s.split_once(' ').map(|(a, b)| (a.to_string(), b.to_string()))
}

fn parse_port(s: &str) -> (r: Option<u16>)
    ensures
        match port_of(s@) {
            Some(p) => r is Some && r->0 as nat == p,
            None => r is None,
        },
{
    let b = s.as_bytes();
    assert(b@ == vstd::utf8::encode_utf8(s@));
    if b.len() == 0 || b[0] == MINUS {
        return None;
    }
    assert(b@.subrange(0, b@.len() as int) =~= b@);
    match read_int(b, 0, b.len()) {
        Some(n) => if 0 <= n && n <= 65535 {
            Some(n as u16)
        } else {
            None
        },
        None => None,
    }
}

/// The configuration the flags in `args` choose, starting from the defaults.
pub fn parse_command_line(args: &Vec<String>) -> (r: Result<RedisConfig, ConfigError>)
    ensures
        match apply_flags(args@.map_values(|s: String| s@), 0, default_flags()) {
            Ok(f) => r is Ok && flags_of(r->Ok_0) == f && r->Ok_0.wf() && r->Ok_0.master_reploffset == 0
                && r->Ok_0.master_replid@ == "8371b4fb1155b71f4a04d3e1bc3e18c4a990aeeb"@,
            Err(e) => r == Err::<RedisConfig, ConfigError>(e),
        },
{
    let ghost a = args@.map_values(|s: String| s@);
    let mut config = RedisConfig::new();
    let ghost start = flags_of(config);
    assert(start == default_flags());
    let dir_flag = "--dir".to_owned();
    let file_flag = "--dbfilename".to_owned();
    let port_flag = "--port".to_owned();
    let replica_flag = "--replicaof".to_owned();
    let mut i: usize = 0;
    while i < args.len()
        invariant
            a == args@.map_values(|s: String| s@),
            i <= args@.len() + 1,
            dir_flag@ == "--dir"@,
            file_flag@ == "--dbfilename"@,
            port_flag@ == "--port"@,
            replica_flag@ == "--replicaof"@,
            config.wf(),
            config.master_reploffset == 0,
            config.master_replid@ == "8371b4fb1155b71f4a04d3e1bc3e18c4a990aeeb"@,
            start == default_flags(),
            apply_flags(a, 0, start) == apply_flags(a, i as int, flags_of(config)),
        decreases args@.len() + 1 - i,
    {
        let arg = &args[i];
        assert(a[i as int] == arg@);
        let which: u8 = if *arg == dir_flag {
            1
        } else if *arg == file_flag {
            2
        } else if *arg == port_flag {
            3
        } else if *arg == replica_flag {
            4
        } else {
            0
        };
        if which == 0 {
            i = i + 1;
        } else if i + 1 >= args.len() {
            i = args.len();
        } else {
            let value = &args[i + 1];
            assert(a[i + 1] == value@);
            if which == 1 {
                config.dir = value.clone();
            } else if which == 2 {
                config.dbfilename = value.clone();
            } else if which == 3 {
                match parse_port(value.as_str()) {
                    Some(p) => {
                        config.port = p;
                    },
                    None => {
                        return Err(ConfigError::InvalidPort);
                    },
                }
            } else {
                match split_at_space(value.as_str()) {
                    Some((host, port_text)) => match parse_port(port_text.as_str()) {
                        Some(p) => {
                            config.master_host_port = Some((host, p));
                            config.is_replica = true;
                        },
                        None => {
                            return Err(ConfigError::InvalidPort);
                        },
                    },
                    None => {
                        return Err(ConfigError::InvalidReplicaOf);
                    },
                }
            }
            i = i + 2;
        }
    }
    Ok(config)
}

} // verus!

verus! {

impl RedisServer {
    /// A server with an empty store, configured by the flags in `args`.
    pub fn new(args: &Vec<String>) -> (r: Result<RedisServer, ConfigError>)
        ensures
            match apply_flags(args@.map_values(|s: String| s@), 0, default_flags()) {
                Ok(f) => r is Ok && r->Ok_0.wf() && flags_of(r->Ok_0.config) == f
                    && r->Ok_0.config.master_reploffset == 0
                    && r->Ok_0.config.master_replid@ == "8371b4fb1155b71f4a04d3e1bc3e18c4a990aeeb"@
                    && r->Ok_0.db@ == Map::<Seq<u8>, Slot>::empty(),
                Err(e) => r == Err::<RedisServer, ConfigError>(e),
            },
    {
        match parse_command_line(args) {
            Ok(config) => Ok(RedisServer::with_config(config)),
            Err(e) => Err(e),
        }
    }
}

} // verus!
