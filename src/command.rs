//! Commands: what a decoded frame asks the server to do.
use vstd::prelude::*;
use crate::resp::{RedisValue, Resp, MINUS};
use crate::decode::{is_digits, digits_value, int_value, lemma_digits_value_nonneg};
use crate::resp::is_digit;

verus! {

/// A command as a mathematical value.
pub enum Cmd {
    SetKey(Seq<u8>, Seq<u8>, Option<nat>),
    Get(Seq<u8>),
    Ping,
    Echo(Seq<u8>),
    Info(Seq<u8>),
    ReplConf(Seq<Seq<u8>>),
    Psync(Seq<u8>, Seq<u8>),
    Unknown,
    Invalid,
}

/// A command sent by a client or by the master.
#[derive(Debug, PartialEq, Clone)]
pub enum Command {
    /// Key, value, and time to live in milliseconds.
    SetKey(Vec<u8>, Vec<u8>, Option<u64>),
    Get(Vec<u8>),
    Ping,
    Echo(Vec<u8>),
    /// The section asked for.
    Info(Vec<u8>),
    /// The subcommand, case-folded, then its arguments.
    ReplConf(Vec<Vec<u8>>),
    /// Replication id and offset, as sent.
    Psync(Vec<u8>, Vec<u8>),
    /// A command name this server does not know.
    Unknown,
    /// A known command with arguments it does not accept.
    Invalid,
}

pub open spec fn views(v: Seq<Vec<u8>>) -> Seq<Seq<u8>> {
    v.map_values(|x: Vec<u8>| x@)
}

impl View for Command {
    type V = Cmd;

    open spec fn view(&self) -> Cmd {
        match self {
            Command::SetKey(k, v, t) => Cmd::SetKey(k@, v@, match t {
                Some(ms) => Some(*ms as nat),
                None => None,
            }),
            Command::Get(k) => Cmd::Get(k@),
            Command::Ping => Cmd::Ping,
            Command::Echo(x) => Cmd::Echo(x@),
            Command::Info(x) => Cmd::Info(x@),
            Command::ReplConf(a) => Cmd::ReplConf(views(a@)),
            Command::Psync(a, b) => Cmd::Psync(a@, b@),
            Command::Unknown => Cmd::Unknown,
            Command::Invalid => Cmd::Invalid,
        }
    }
}

pub open spec fn lower_byte(b: u8) -> u8 {
    if 65 <= b <= 90 {
        (b + 32) as u8
    } else {
        b
    }
}

/// ASCII case folding.
pub open spec fn lower(s: Seq<u8>) -> Seq<u8> {
    s.map_values(|b: u8| lower_byte(b))
}

pub open spec fn word_ping() -> Seq<u8> {
    seq![112u8, 105, 110, 103]
}

pub open spec fn word_echo() -> Seq<u8> {
    seq![101u8, 99, 104, 111]
}

pub open spec fn word_get() -> Seq<u8> {
    seq![103u8, 101, 116]
}

pub open spec fn word_set() -> Seq<u8> {
    seq![115u8, 101, 116]
}

pub open spec fn word_info() -> Seq<u8> {
    seq![105u8, 110, 102, 111]
}

pub open spec fn word_replconf() -> Seq<u8> {
    seq![114u8, 101, 112, 108, 99, 111, 110, 102]
}

pub open spec fn word_psync() -> Seq<u8> {
    seq![112u8, 115, 121, 110, 99]
}

pub open spec fn word_px() -> Seq<u8> {
    seq![112u8, 120]
}

pub open spec fn word_ex() -> Seq<u8> {
    seq![101u8, 120]
}

pub open spec fn word_replication() -> Seq<u8> {
    seq![114u8, 101, 112, 108, 105, 99, 97, 116, 105, 111, 110]
}

pub open spec fn word_getack() -> Seq<u8> {
    seq![103u8, 101, 116, 97, 99, 107]
}

pub open spec fn word_ack() -> Seq<u8> {
    seq![97u8, 99, 107]
}

/// Time to live in milliseconds, from an option name (case-folded) and an amount.
pub open spec fn ttl_of(unit: Seq<u8>, amount: Seq<u8>) -> Option<nat> {
    if !is_digits(amount) || digits_value(amount) > i64::MAX {
        None
    } else if unit == word_px() {
        Some(digits_value(amount) as nat)
    } else if unit == word_ex() {
        if digits_value(amount) * 1000 <= u64::MAX {
            Some((digits_value(amount) * 1000) as nat)
        } else {
            None
        }
    } else {
        None
    }
}

/// The command named by the first argument, case-insensitively.
pub open spec fn decode_args(a: Seq<Seq<u8>>) -> Cmd {
    if a.len() == 0 {
        Cmd::Invalid
    } else {
        let name = lower(a[0]);
        if name == word_ping() {
            Cmd::Ping
        } else if name == word_echo() {
            if a.len() == 2 { Cmd::Echo(a[1]) } else { Cmd::Invalid }
        } else if name == word_get() {
            if a.len() == 2 { Cmd::Get(a[1]) } else { Cmd::Invalid }
        } else if name == word_set() {
            if a.len() == 3 {
                Cmd::SetKey(a[1], a[2], None)
            } else if a.len() == 5 {
                match ttl_of(lower(a[3]), a[4]) {
                    Some(ms) => Cmd::SetKey(a[1], a[2], Some(ms)),
                    None => Cmd::Invalid,
                }
            } else {
                Cmd::Invalid
            }
        } else if name == word_info() {
            if a.len() == 1 {
                Cmd::Info(word_replication())
            } else if a.len() == 2 {
                Cmd::Info(a[1])
            } else {
                Cmd::Invalid
            }
        } else if name == word_replconf() {
            if a.len() >= 2 { Cmd::ReplConf(seq![lower(a[1])] + a.skip(2)) } else { Cmd::Invalid }
        } else if name == word_psync() {
            if a.len() == 3 { Cmd::Psync(a[1], a[2]) } else { Cmd::Invalid }
        } else {
            Cmd::Unknown
        }
    }
}

pub open spec fn all_bulk(vs: Seq<Resp>) -> bool {
    forall|i: int| 0 <= i < vs.len() ==> (#[trigger] vs[i]) is Bulk
}

/// The command a frame carries: an array of bulk strings whose first names it.
pub open spec fn command_of(v: Resp) -> Cmd {
    match v {
        Resp::Array(vs) => if all_bulk(vs) {
            decode_args(vs.map_values(|x: Resp| x->Bulk_0))
        } else {
            Cmd::Invalid
        },
        _ => Cmd::Invalid,
    }
}

/// Whether `a` and `b` hold the same bytes.
pub fn eq_bytes(a: &[u8], b: &[u8]) -> (r: bool)
    ensures
        r == (a@ == b@),
{
    if a.len() != b.len() {
        return false;
    }
    let mut i: usize = 0;
    while i < a.len()
        invariant
            a@.len() == b@.len(),
            i <= a@.len(),
            forall|j: int| 0 <= j < i ==> a@[j] == b@[j],
        decreases a@.len() - i,
    {
        if a[i] != b[i] {
            return false;
        }
        i = i + 1;
    }
    assert(a@ =~= b@);
    true
}

/// ASCII case folding of `a`.
pub fn lower_bytes(a: &[u8]) -> (r: Vec<u8>)
    ensures
        r@ == lower(a@),
{
    let mut out: Vec<u8> = Vec::new();
    let mut i: usize = 0;
    while i < a.len()
        invariant
            i <= a@.len(),
            out@ =~= lower(a@.take(i as int)),
        decreases a@.len() - i,
    {
        let b = a[i];
        let l = if 65 <= b && b <= 90 { b + 32 } else { b };
        out.push(l);
        i = i + 1;
        assert(out@ =~= lower(a@.take(i as int)));
    }
    assert(a@.take(i as int) =~= a@);
    out
}

} // verus!

verus! {

/// Whether `a`, case-folded, is the lower-case word `w`.
fn is_word(a: &[u8], w: &[u8]) -> (r: bool)
    ensures
        r == (lower(a@) == w@),
{
    let l = lower_bytes(a);
    eq_bytes(l.as_slice(), w)
}

/// Time to live in milliseconds from a `PX`/`EX` option and its amount.
fn ttl_from(unit: &[u8], amount: &[u8]) -> (r: Option<u64>)
    ensures
        match ttl_of(lower(unit@), amount@) {
            Some(ms) => r is Some && r->0 as nat == ms,
            None => r is None,
        },
{
    let n = match crate::parser::read_int(amount, 0, amount.len()) {
        Some(n) => n,
        None => {
            proof {
                assert(amount@.subrange(0, amount@.len() as int) =~= amount@);
                if is_digits(amount@) {
                    lemma_digits_value_nonneg(amount@);
                    assert(is_digit(amount@[0]));
                    assert(int_value(amount@) == Some(digits_value(amount@)));
                }
            }
            return None;
        },
    };
    assert(amount@.subrange(0, amount@.len() as int) =~= amount@);
    assert(amount@.len() > 0);
    proof {
        if is_digits(amount@) {
            lemma_digits_value_nonneg(amount@);
            assert(is_digit(amount@[0]));
            assert(int_value(amount@) == Some(digits_value(amount@)));
        }
    }
    if amount[0] == MINUS || n < 0 {
        proof {
            if amount@[0] == MINUS {
                assert(!is_digit(amount@[0]));
            }
        }
        return None;
    }
    let px: Vec<u8> = vec![112u8, 120];
    let ex: Vec<u8> = vec![101u8, 120];
    assert(px@ == word_px());
    assert(ex@ == word_ex());
    if is_word(unit, px.as_slice()) {
        Some(n as u64)
    } else if is_word(unit, ex.as_slice()) {
        if n as u64 > 18446744073709551u64 {
            None
        } else {
            Some(n as u64 * 1000)
        }
    } else {
        None
    }
}

} // verus!

verus! {

fn copy_bytes(a: &Vec<u8>) -> (r: Vec<u8>)
    ensures
        r@ == a@,
{
    vstd::slice::slice_to_vec(a.as_slice())
}

/// Decodes the arguments of a command array; the first names the command.
pub fn decode_command(args: &Vec<Vec<u8>>) -> (r: Command)
    ensures
        r@ == decode_args(views(args@)),
{
    let ghost a = views(args@);
    if args.len() == 0 {
        return Command::Invalid;
    }
    let n = args.len();
    assert(a[0] == args@[0]@);
    let name = args[0].as_slice();
    if is_word(name, vec![112u8, 105, 110, 103].as_slice()) {
        assert(word_ping() == seq![112u8, 105, 110, 103]);
        return Command::Ping;
    }
    assert(lower(a[0]) != word_ping());
    if n >= 2 {
        assert(a[1] == args@[1]@);
    }
    if n >= 3 {
        assert(a[2] == args@[2]@);
    }
    if is_word(name, vec![101u8, 99, 104, 111].as_slice()) {
        return if n == 2 { Command::Echo(copy_bytes(&args[1])) } else { Command::Invalid };
    }
    if is_word(name, vec![103u8, 101, 116].as_slice()) {
        return if n == 2 { Command::Get(copy_bytes(&args[1])) } else { Command::Invalid };
    }
    if is_word(name, vec![115u8, 101, 116].as_slice()) {
        if n == 3 {
            return Command::SetKey(copy_bytes(&args[1]), copy_bytes(&args[2]), None);
        } else if n == 5 {
            assert(a[3] == args@[3]@);
            assert(a[4] == args@[4]@);
            return match ttl_from(args[3].as_slice(), args[4].as_slice()) {
                Some(ms) => Command::SetKey(copy_bytes(&args[1]), copy_bytes(&args[2]), Some(ms)),
                None => Command::Invalid,
            };
        } else {
            return Command::Invalid;
        }
    }
    if is_word(name, vec![105u8, 110, 102, 111].as_slice()) {
        if n == 1 {
            let section: Vec<u8> = vec![114u8, 101, 112, 108, 105, 99, 97, 116, 105, 111, 110];
            assert(section@ == word_replication());
            return Command::Info(section);
        } else if n == 2 {
            return Command::Info(copy_bytes(&args[1]));
        } else {
            return Command::Invalid;
        }
    }
    if is_word(name, vec![114u8, 101, 112, 108, 99, 111, 110, 102].as_slice()) {
        if n < 2 {
            return Command::Invalid;
        }
        let mut out: Vec<Vec<u8>> = Vec::new();
        out.push(lower_bytes(args[1].as_slice()));
        let mut i: usize = 2;
        while i < n
            invariant
                2 <= i <= n,
                n == args@.len(),
                a == views(args@),
                views(out@) =~= seq![lower(a[1])] + a.subrange(2, i as int),
            decreases n - i,
        {
            assert(a[i as int] == args@[i as int]@);
            let ghost before = views(out@);
            out.push(copy_bytes(&args[i]));
            assert(views(out@) =~= before.push(a[i as int]));
            i = i + 1;
            assert(views(out@) =~= seq![lower(a[1])] + a.subrange(2, i as int));
        }
        assert(a.subrange(2, n as int) =~= a.skip(2));
        return Command::ReplConf(out);
    }
    if is_word(name, vec![112u8, 115, 121, 110, 99].as_slice()) {
        return if n == 3 {
            Command::Psync(copy_bytes(&args[1]), copy_bytes(&args[2]))
        } else {
            Command::Invalid
        };
    }
    Command::Unknown
}

} // verus!

verus! {

/// The command a decoded frame carries.
pub fn command_from(v: &RedisValue) -> (r: Command)
    ensures
        r@ == command_of(v@),
{
    match v {
        RedisValue::Array(items) => {
            let ghost m = v@->Array_0;
            assert(v@ == Resp::Array(m));
            let mut args: Vec<Vec<u8>> = Vec::new();
            let mut i: usize = 0;
            while i < items.len()
                invariant
                    i <= items@.len(),
                    m.len() == items@.len(),
                    forall|j: int| 0 <= j < items@.len() ==> m[j] == (#[trigger] items@[j])@,
                    forall|j: int| 0 <= j < i ==> (#[trigger] m[j]) is Bulk,
                    views(args@) =~= m.take(i as int).map_values(|x: Resp| x->Bulk_0),
                    v@ == Resp::Array(m),
                decreases items@.len() - i,
            {
                assert(m[i as int] == items@[i as int]@);
                match &items[i] {
                    RedisValue::BulkString(b) => {
                        assert(m[i as int] == Resp::Bulk(b@));
                        let ghost before = views(args@);
                        args.push(vstd::slice::slice_to_vec(b.as_slice()));
                        assert(views(args@) =~= before.push(b@));
                    },
                    _ => {
                        assert(!(m[i as int] is Bulk));
                        assert(!all_bulk(m));
                        return Command::Invalid;
                    },
                }
                i = i + 1;
                assert(views(args@) =~= m.take(i as int).map_values(|x: Resp| x->Bulk_0));
            }
            assert(m.take(i as int) =~= m);
            decode_command(&args)
        },
        _ => Command::Invalid,
    }
}

} // verus!
