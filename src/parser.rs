//! Decoding RESP frames from a byte buffer, and turning frames into commands.
use vstd::prelude::*;
use crate::buffer::{buf_bytes, buf_slice};
use crate::command::{Cmd, Command, command_of, command_from};
use crate::resp::{RedisValue, Resp, encode, int_text, push_all, push_int, CR, LF, PLUS, MINUS, COLON, DOLLAR, STAR, ZERO, MAX_BULK_LEN, MAX_ARRAY_LEN, is_digit};
use crate::decode::{is_type_byte, lemma_find_cr, lemma_bulk_shape, Parse, ParseMany, find_cr, is_digits, digits_value, int_value, in_i64, parse_frame, parse_elems, prepend, lemma_digits_value_prefix, lemma_digits_value_step};

verus! {

/// Why bytes could not be decoded.
#[derive(Debug, PartialEq)]
pub enum RESPError {
    /// The input ended inside a frame.
    UnexpectedEnd,
    /// A frame began with a byte that starts no RESP type.
    UnknownStartingByte(u8),
    /// A command argument that the command does not accept.
    InvalidArgument(Vec<u8>),
    /// A length or integer that is not strict decimal text in range.
    IntParseFailure(Vec<u8>),
    BadBulkStringSize(i64),
    BadArraySize(i64),
    /// A line or a bulk string not closed by CR LF.
    BadTerminator,
}

/// Index in `buf` of the CR closing the header line of the frame at `pos`.
pub fn line_end(buf: &[u8], pos: usize) -> (r: Option<usize>)
    requires
        pos < buf@.len(),
    ensures
        r is Some <==> find_cr(buf@.skip(pos as int), 1) is Some,
        r is Some ==> find_cr(buf@.skip(pos as int), 1) == Some(r->0 - pos),
        r is Some ==> pos < r->0 < buf@.len() && buf@[r->0 as int] == CR,
{
    proof {
        lemma_find_cr(buf@.skip(pos as int), 1);
    }
    let ghost s = buf@.skip(pos as int);
    let n = buf.len();
    let mut j: usize = pos + 1;
    while j < buf.len() && buf[j] != CR
        invariant
            pos < j <= buf@.len(),
            s == buf@.skip(pos as int),
            find_cr(s, 1) == find_cr(s, j - pos),
        decreases buf@.len() - j,
    {
        assert(s[j - pos] == buf@[j as int]);
        j = j + 1;
    }
    if j < buf.len() {
        assert(s[j - pos] == buf@[j as int]);
        Some(j)
    } else {
        None
    }
}

/// The integer written as strict decimal text in `buf[a..b]`, when it fits in an `i64`.
pub fn read_int(buf: &[u8], a: usize, b: usize) -> (r: Option<i64>)
    requires
        a <= b <= buf@.len(),
    ensures
        r is Some <==> int_value(buf@.subrange(a as int, b as int)) is Some && in_i64(
            int_value(buf@.subrange(a as int, b as int))->0,
        ),
        r is Some ==> r->0 as int == int_value(buf@.subrange(a as int, b as int))->0,
{
    let ghost t = buf@.subrange(a as int, b as int);
    if a == b {
        return None;
    }
    let neg = buf[a] == MINUS;
    assert(t[0] == buf@[a as int]);
    let start: usize = if neg { a + 1 } else { a };
    let ghost u = buf@.subrange(start as int, b as int);
    assert(neg ==> u =~= t.skip(1));
    assert(!neg ==> u =~= t);
    if start == b {
        return None;
    }
    let limit: u64 = if neg { 9223372036854775808u64 } else { 9223372036854775807u64 };
    let mut acc: u64 = 0;
    let mut i: usize = start;
    while i < b
        invariant
            a <= start <= i <= b <= buf@.len(),
            u == buf@.subrange(start as int, b as int),
            forall|k: int| 0 <= k < i - start ==> is_digit(#[trigger] u[k]),
            acc as int == digits_value(u.take(i - start)),
            acc <= limit,
            neg ==> limit == 9223372036854775808u64,
            !neg ==> limit == 9223372036854775807u64,
            neg ==> t[0] == MINUS && u =~= t.skip(1),
            !neg ==> t[0] != MINUS && u =~= t,
            t.len() > 0,
            t == buf@.subrange(a as int, b as int),
        decreases b - i,
    {
        let c = buf[i];
        assert(u[i - start] == c);
        if c < ZERO || c > ZERO + 9 {
            assert(!is_digits(u));
            if neg {
                assert(!is_digits(t.skip(1)));
            } else {
                assert(!is_digits(t));
            }
            assert(int_value(t) is None);
            return None;
        }
        let d: u64 = (c - ZERO) as u64;
        proof {
            lemma_digits_value_step(u, i - start);
        }
        if acc > (limit - d) / 10 {
            proof {
                assert(acc * 10 + d > limit) by (nonlinear_arith)
                    requires acc > (limit - d) / 10, d <= 9, limit >= 9;
                assert forall|k: int| 0 <= k < i + 1 - start implies is_digit(#[trigger] u.take(i + 1 - start)[k]) by {
                    assert(u.take(i + 1 - start)[k] == u[k]);
                }
                lemma_digits_value_prefix(u.take(i + 1 - start), i + 1 - start);
                assert(u.take(i + 1 - start).take(i + 1 - start) =~= u.take(i + 1 - start));
                if is_digits(u) {
                    lemma_digits_value_prefix(u, i + 1 - start);
                    assert(digits_value(u) > limit);
                    if neg {
                        assert(t.skip(1) == u);
                        assert(int_value(t) == Some(-digits_value(u)));
                    } else {
                        assert(t == u);
                        assert(int_value(t) == Some(digits_value(u)));
                    }
                } else {
                    if neg {
                        assert(!is_digits(t.skip(1)));
                    } else {
                        assert(!is_digits(t));
                    }
                }
                assert(int_value(t) is None || !in_i64(int_value(t).unwrap()));
            }
            return None;
        }
        proof {
            assert(acc * 10 + d <= limit) by (nonlinear_arith)
                requires acc <= (limit - d) / 10, d <= 9, limit >= 9;
        }
        acc = acc * 10 + d;
        i = i + 1;
    }
    assert(u.take(i - start) =~= u);
    assert(is_digits(u));
    if neg {
        Some((-(acc as i128)) as i64)
    } else {
        Some(acc as i64)
    }
}

} // verus!

verus! {

/// What decoding the frame at `pos` of `s` must return: the frame and the
/// index just past it, `Ok(None)` when more bytes are needed, or an error.
pub open spec fn frame_outcome(
    s: Seq<u8>,
    pos: int,
    r: Result<Option<(usize, RedisValue)>, RESPError>,
) -> bool {
    match parse_frame(s.skip(pos)) {
        Parse::Done(v, n) => r is Ok && r->Ok_0 is Some && r->Ok_0->Some_0.0 == pos + n
            && r->Ok_0->Some_0.1@ == v,
        Parse::Incomplete => r == Ok::<Option<(usize, RedisValue)>, RESPError>(None),
        Parse::Malformed => r is Err,
    }
}

/// An error that a frame's first line shows.
pub enum Fault {
    Start(u8),
    Terminator,
    Int,
    BulkSize(int),
    ArraySize(int),
}

/// The error a frame's first line already shows, if any: a byte that starts
/// no frame, a CR not followed by LF, a length or integer that is not strict
/// decimal text in the `i64` range, or a length out of bounds.
pub open spec fn header_fault(s: Seq<u8>) -> Option<Fault> {
    if s.len() == 0 {
        None
    } else if !is_type_byte(s[0]) {
        Some(Fault::Start(s[0]))
    } else {
        match find_cr(s, 1) {
            None => None,
            Some(e) => if e + 1 >= s.len() {
                None
            } else if s[e + 1] != LF {
                Some(Fault::Terminator)
            } else if s[0] == PLUS || s[0] == MINUS {
                None
            } else {
                match int_value(s.subrange(1, e)) {
                    Some(n) => if !in_i64(n) {
                        Some(Fault::Int)
                    } else if s[0] == DOLLAR && (n < -1 || n > MAX_BULK_LEN) {
                        Some(Fault::BulkSize(n))
                    } else if s[0] == STAR && (n < -1 || n > MAX_ARRAY_LEN) {
                        Some(Fault::ArraySize(n))
                    } else {
                        None
                    },
                    None => Some(Fault::Int),
                }
            },
        }
    }
}

/// Whether `e` is the error `f` names; for a failed integer, its text is
/// the bytes between the type byte and CR.
pub open spec fn fault_is(s: Seq<u8>, f: Fault, e: RESPError) -> bool {
    match f {
        Fault::Start(b) => e == RESPError::UnknownStartingByte(b),
        Fault::Terminator => e == RESPError::BadTerminator,
        Fault::Int => e is IntParseFailure && e->IntParseFailure_0@ == s.subrange(1, find_cr(s, 1)->0),
        Fault::BulkSize(n) => e == RESPError::BadBulkStringSize(n as i64),
        Fault::ArraySize(n) => e == RESPError::BadArraySize(n as i64),
    }
}

proof fn lemma_prepend_assoc(a: Seq<Resp>, m: nat, b: Seq<Resp>, n: nat, r: ParseMany)
    ensures
        prepend(a, m, prepend(b, n, r)) == prepend(a + b, m + n, r),
{
    match r {
        ParseMany::Done(ws, k) => {
            assert(a + (b + ws) =~= (a + b) + ws);
        },
        _ => {},
    }
}

proof fn lemma_prepend_empty(r: ParseMany)
    ensures
        prepend(Seq::empty(), 0, r) == r,
{
    match r {
        ParseMany::Done(ws, k) => {
            assert(Seq::<Resp>::empty() + ws =~= ws);
        },
        _ => {},
    }
}

/// The frame that an array header of `h` bytes followed by the elements
/// `elems` makes.
pub open spec fn array_outcome(elems: ParseMany, h: nat) -> Parse {
    match elems {
        ParseMany::Done(vs, m) => Parse::Done(Resp::Array(vs), h + m),
        ParseMany::Incomplete => Parse::Incomplete,
        ParseMany::Malformed => Parse::Malformed,
    }
}

/// Decodes the frame that starts at `pos` of `buf`.
pub fn parse_frame_at(buf: &[u8], pos: usize) -> (r: Result<Option<(usize, RedisValue)>, RESPError>)
    requires
        pos <= buf@.len(),
    ensures
        frame_outcome(buf@, pos as int, r),
        r is Ok && r->Ok_0 is Some ==> pos < r->Ok_0->Some_0.0 <= buf@.len(),
        header_fault(buf@.skip(pos as int)) is Some ==> r is Err && fault_is(
            buf@.skip(pos as int),
            header_fault(buf@.skip(pos as int))->0,
            r->Err_0,
        ),
    decreases buf@.len() - pos,
{
    let ghost s = buf@.skip(pos as int);
    let len = buf.len();
    if pos == len {
        return Ok(None);
    }
    let t = buf[pos];
    assert(s[0] == t);
    if !(t == PLUS || t == MINUS || t == COLON || t == DOLLAR || t == STAR) {
        return Err(RESPError::UnknownStartingByte(t));
    }
    let e = match line_end(buf, pos) {
        None => {
            return Ok(None);
        },
        Some(e) => e,
    };
    assert(find_cr(s, 1) == Some((e - pos) as int));
    if e + 1 >= len {
        assert(parse_frame(s) == Parse::Incomplete);
        return Ok(None);
    }
    assert(s[e + 1 - pos] == buf@[e + 1]);
    if buf[e + 1] != LF {
        assert(parse_frame(s) == Parse::Malformed);
        return Err(RESPError::BadTerminator);
    }
    let h = e + 2;
    assert(s.subrange(1, e - pos) =~= buf@.subrange(pos + 1, e as int));
    if t == PLUS {
        let text = vstd::slice::slice_to_vec(&buf[pos + 1..e]);
        return Ok(Some((h, RedisValue::String(text))));
    }
    if t == MINUS {
        let text = vstd::slice::slice_to_vec(&buf[pos + 1..e]);
        return Ok(Some((h, RedisValue::Error(text))));
    }
    let n = match read_int(buf, pos + 1, e) {
        None => {
            return Err(RESPError::IntParseFailure(vstd::slice::slice_to_vec(&buf[pos + 1..e])));
        },
        Some(n) => n,
    };
    if t == COLON {
        return Ok(Some((h, RedisValue::Int(n))));
    }
    if n == -1 {
        if t == DOLLAR {
            return Ok(Some((h, RedisValue::Null)));
        } else {
            return Ok(Some((h, RedisValue::NullArray)));
        }
    }
    if t == DOLLAR {
        if n < -1 || n > MAX_BULK_LEN as i64 {
            return Err(RESPError::BadBulkStringSize(n));
        }
        let size = n as usize;
        if len - h < size + 2 {
            return Ok(None);
        }
        assert(s[h + size - pos] == buf@[h + size]);
        assert(s[h + size + 1 - pos] == buf@[h + size + 1]);
        if buf[h + size] != CR || buf[h + size + 1] != LF {
            return Err(RESPError::BadTerminator);
        }
        let data = vstd::slice::slice_to_vec(&buf[h..h + size]);
        assert(s.subrange(h - pos, h + size - pos) =~= buf@.subrange(h as int, h + size));
        return Ok(Some((h + size + 2, RedisValue::BulkString(data))));
    }
    if n < -1 || n > MAX_ARRAY_LEN as i64 {
        return Err(RESPError::BadArraySize(n));
    }
    let count = n as usize;
    let ghost whole = parse_elems(buf@.skip(h as int), count as nat);
    assert(s.skip(h - pos) =~= buf@.skip(h as int));
    let mut items: Vec<RedisValue> = Vec::new();
    let ghost mut vs: Seq<Resp> = Seq::empty();
    let mut p: usize = h;
    let mut i: usize = 0;
    proof {
        lemma_prepend_empty(whole);
    }
    assert(parse_frame(s) == array_outcome(whole, (h - pos) as nat));
    while i < count
        invariant
            pos < h <= p <= len,
            parse_frame(buf@.skip(pos as int)) == array_outcome(whole, (h - pos) as nat),
            header_fault(buf@.skip(pos as int)) is None,
            len == buf@.len(),
            i <= count,
            vs.len() == items@.len() == i,
            forall|j: int| 0 <= j < i ==> vs[j] == (#[trigger] items@[j])@,
            whole == prepend(vs, (p - h) as nat, parse_elems(buf@.skip(p as int), (count - i) as nat)),
        decreases count - i,
    {
        let ghost rest = buf@.skip(p as int);
        match parse_frame_at(buf, p) {
            Ok(Some((q, v))) => {
                proof {
                    let k = (q - p) as nat;
                    assert(rest.skip(k as int) =~= buf@.skip(q as int));
                    lemma_prepend_assoc(vs, (p - h) as nat, seq![v@], k, parse_elems(buf@.skip(q as int), (count - i - 1) as nat));
                    vs = vs + seq![v@];
                }
                items.push(v);
                p = q;
                i = i + 1;
            },
            Ok(None) => {
                assert(parse_elems(rest, (count - i) as nat) == ParseMany::Incomplete);
                return Ok(None);
            },
            Err(err) => {
                assert(parse_elems(rest, (count - i) as nat) == ParseMany::Malformed);
                return Err(err);
            },
        }
    }
    let r = RedisValue::Array(items);
    assert(r@ == Resp::Array(vs)) by {
        assert(r@->Array_0 =~= vs);
    }
    Ok(Some((p, r)))
}

} // verus!

verus! {

/// Commands decoded from the front of a byte sequence, each with its raw
/// bytes; how many bytes were consumed; whether decoding stopped at bytes that
/// start no frame.
pub struct Batch {
    pub cmds: Seq<(Cmd, Seq<u8>)>,
    pub consumed: nat,
    pub malformed: bool,
}

/// Decodes frames from the front of `s` until it is used up, a frame is
/// incomplete or malformed. Arrays become commands; other frames (bulk
/// strings outside arrays above all) are skipped, their bytes still consumed.
pub open spec fn batch_of(s: Seq<u8>) -> Batch
    decreases s.len(),
{
    if s.len() == 0 {
        Batch { cmds: Seq::empty(), consumed: 0, malformed: false }
    } else {
        match parse_frame(s) {
            Parse::Incomplete => Batch { cmds: Seq::empty(), consumed: 0, malformed: false },
            Parse::Malformed => Batch { cmds: Seq::empty(), consumed: 0, malformed: true },
            Parse::Done(v, n) => if 0 < n <= s.len() {
                let rest = batch_of(s.skip(n as int));
                if !(v is Array) {
                    Batch { cmds: rest.cmds, consumed: n + rest.consumed, malformed: rest.malformed }
                } else {
                    Batch {
                        cmds: seq![(command_of(v), s.take(n as int))] + rest.cmds,
                        consumed: n + rest.consumed,
                        malformed: rest.malformed,
                    }
                }
            } else {
                Batch { cmds: Seq::empty(), consumed: 0, malformed: true }
            },
        }
    }
}

/// `b` after commands `cs` that took `n` bytes.
pub open spec fn join(cs: Seq<(Cmd, Seq<u8>)>, n: nat, b: Batch) -> Batch {
    Batch { cmds: cs + b.cmds, consumed: n + b.consumed, malformed: b.malformed }
}

/// A decoded command and the bytes it came from.
#[derive(Debug, PartialEq, Clone)]
pub struct ParsedCommand {
    pub command: Command,
    /// How many bytes of input the command took.
    pub bytes_read: usize,
    /// The exact bytes of the command, as received.
    pub raw: Vec<u8>,
}

impl View for ParsedCommand {
    type V = (Cmd, Seq<u8>);

    open spec fn view(&self) -> (Cmd, Seq<u8>) {
        (self.command@, self.raw@)
    }
}

pub open spec fn parsed_views(v: Seq<ParsedCommand>) -> Seq<(Cmd, Seq<u8>)> {
    v.map_values(|c: ParsedCommand| c@)
}

pub open spec fn well_counted(v: Seq<ParsedCommand>) -> bool {
    forall|i: int| 0 <= i < v.len() ==> (#[trigger] v[i]).bytes_read == v[i].raw@.len()
}

/// Decodes the commands at the front of `buf`: returns them, how many bytes
/// they and the skipped frames took, and the error that stopped
/// decoding, if the bytes that follow start no frame.
pub fn parse_prefix(buf: &[u8]) -> (r: (Vec<ParsedCommand>, usize, Option<RESPError>))
    ensures
        parsed_views(r.0@) == batch_of(buf@).cmds,
        well_counted(r.0@),
        r.1 == batch_of(buf@).consumed,
        r.1 <= buf@.len(),
        r.2 is Some <==> batch_of(buf@).malformed,
{
    let len = buf.len();
    let mut cmds: Vec<ParsedCommand> = Vec::new();
    let mut p: usize = 0;
    assert(buf@.skip(0) =~= buf@);
    assert(parsed_views(cmds@) =~= Seq::empty());
    assert(join(Seq::empty(), 0, batch_of(buf@)).cmds =~= batch_of(buf@).cmds);
    while p < len
        invariant
            p <= len == buf@.len(),
            well_counted(cmds@),
            batch_of(buf@) == join(parsed_views(cmds@), p as nat, batch_of(buf@.skip(p as int))),
        decreases len - p,
    {
        let ghost rest = buf@.skip(p as int);
        match parse_frame_at(buf, p) {
            Ok(Some((q, v))) => {
                let ghost n = (q - p) as nat;
                assert(rest.skip(n as int) =~= buf@.skip(q as int));
                let ghost old_cmds = parsed_views(cmds@);
                match &v {
                    RedisValue::Array(_) => {
                        let raw = vstd::slice::slice_to_vec(&buf[p..q]);
                        assert(rest.take(n as int) =~= raw@);
                        let c = ParsedCommand { command: command_from(&v), bytes_read: q - p, raw };
                        cmds.push(c);
                        assert(parsed_views(cmds@) =~= old_cmds.push(c@));
                        assert(old_cmds + batch_of(rest).cmds =~= old_cmds.push(c@) + batch_of(buf@.skip(q as int)).cmds);
                    },
                    _ => {
                        assert(old_cmds + batch_of(buf@.skip(q as int)).cmds =~= old_cmds + batch_of(rest).cmds);
                    },
                }
                p = q;
            },
            Ok(None) => {
                assert(batch_of(rest) == Batch { cmds: Seq::empty(), consumed: 0, malformed: false });
                assert(parsed_views(cmds@) + Seq::empty() =~= parsed_views(cmds@));
                return (cmds, p, None);
            },
            Err(e) => {
                assert(parsed_views(cmds@) + Seq::empty() =~= parsed_views(cmds@));
                return (cmds, p, Some(e));
            },
        }
    }
    assert(buf@.skip(p as int).len() == 0);
    assert(parsed_views(cmds@) + Seq::empty() =~= parsed_views(cmds@));
    (cmds, p, None)
}

} // verus!

verus! {

/// A view of `src[self.0..self.1]`, for zero-copy values.
#[derive(Debug, PartialEq, Clone, Copy)]
pub struct BufSplit(pub usize, pub usize);

/// A frame whose strings are views into the buffer it was decoded from.
#[derive(Debug, PartialEq)]
pub enum RedisBufSplit {
    String(BufSplit),
    Error(BufSplit),
    Int(i64),
    Array(Vec<RedisBufSplit>),
    NullArray,
    NullBulkString,
}

/// The kinds of frame that `find_start_resp_data_type` can look for.
pub enum RESPDataType {
    SimpleString,
    SimpleError,
    Integer,
    BulkString,
    Array,
    Null,
}

/// Decoder of RESP frames from a byte buffer.
pub struct Parser {
    index: usize,
}

/// An integer header line at `p` of `s`: a `$`, `:` or `*`, strict decimal
/// text that fits in an `i64`, then CR.  Its value and the index after CR LF.
pub open spec fn int_header(s: Seq<u8>, p: int) -> Option<(int, int)> {
    if 0 <= p < s.len() && (s[p] == DOLLAR || s[p] == COLON || s[p] == STAR) {
        match find_cr(s.skip(p), 1) {
            Some(e) => match int_value(s.subrange(p + 1, p + e)) {
                Some(n) => if in_i64(n) { Some((n, p + e + 2)) } else { None },
                None => None,
            },
            None => None,
        }
    } else {
        None
    }
}

impl BufSplit {
    /// Number of bytes viewed.
    pub fn len(&self) -> (r: usize)
        requires
            self.0 <= self.1,
        ensures
            r == self.1 - self.0,
    {
        self.1 - self.0
    }
}

impl Parser {
    /// The line that starts at `index`: the index after its CR LF, and a view
    /// of the bytes up to its CR; `None` when no CR follows.
    pub fn token(src: &bytes::BytesMut, index: usize) -> (r: Option<(usize, BufSplit)>)
        requires
            index <= buf_bytes(*src).len() < usize::MAX,
        ensures
            match find_cr(buf_bytes(*src), index as int) {
                None => r is None,
                Some(e) => r == Some(((e + 2) as usize, BufSplit(index, e as usize))),
            },
    {
        let buf = buf_slice(src);
        let mut end = index;
        proof {
            lemma_find_cr(buf@, index as int);
        }
        while end < buf.len() && buf[end] != CR
            invariant
                index <= end <= buf@.len() < usize::MAX,
                find_cr(buf@, index as int) == find_cr(buf@, end as int),
            decreases buf@.len() - end,
        {
            end = end + 1;
        }
        if end == buf.len() {
            return None;
        }
        Some((end + 2, BufSplit(index, end)))
    }

    /// The integer of the header line at `index` (after `$`, `:` or `*`) and
    /// the index after its CR LF.
    pub fn parse_int(src: &bytes::BytesMut, index: usize) -> (r: Result<(usize, i64), RESPError>)
        requires
            index < buf_bytes(*src).len() < usize::MAX,
        ensures
            match int_header(buf_bytes(*src), index as int) {
                Some((n, q)) => r == Ok::<(usize, i64), RESPError>((q as usize, n as i64)),
                None => r is Err,
            },
            !(buf_bytes(*src)[index as int] == DOLLAR || buf_bytes(*src)[index as int] == COLON || buf_bytes(*src)[index as int] == STAR)
                ==> r == Err::<(usize, i64), RESPError>(RESPError::UnknownStartingByte(buf_bytes(*src)[index as int])),
            (buf_bytes(*src)[index as int] == DOLLAR || buf_bytes(*src)[index as int] == COLON || buf_bytes(*src)[index as int] == STAR)
                && find_cr(buf_bytes(*src).skip(index as int), 1) is None
                ==> r == Err::<(usize, i64), RESPError>(RESPError::UnexpectedEnd),
            (buf_bytes(*src)[index as int] == DOLLAR || buf_bytes(*src)[index as int] == COLON || buf_bytes(*src)[index as int] == STAR)
                && find_cr(buf_bytes(*src).skip(index as int), 1) is Some && int_header(buf_bytes(*src), index as int) is None
                ==> r is Err && r->Err_0 is IntParseFailure && r->Err_0->IntParseFailure_0@ == buf_bytes(*src).subrange(
                index + 1,
                index + find_cr(buf_bytes(*src).skip(index as int), 1)->0,
            ),
    {
        let buf = buf_slice(src);
        Self::int_line(buf, index)
    }

    fn int_line(buf: &[u8], index: usize) -> (r: Result<(usize, i64), RESPError>)
        requires
            index < buf@.len() < usize::MAX,
        ensures
            match int_header(buf@, index as int) {
                Some((n, q)) => r == Ok::<(usize, i64), RESPError>((q as usize, n as i64)),
                None => r is Err,
            },
            !(buf@[index as int] == DOLLAR || buf@[index as int] == COLON || buf@[index as int] == STAR)
                ==> r == Err::<(usize, i64), RESPError>(RESPError::UnknownStartingByte(buf@[index as int])),
            (buf@[index as int] == DOLLAR || buf@[index as int] == COLON || buf@[index as int] == STAR)
                && find_cr(buf@.skip(index as int), 1) is None
                ==> r == Err::<(usize, i64), RESPError>(RESPError::UnexpectedEnd),
            (buf@[index as int] == DOLLAR || buf@[index as int] == COLON || buf@[index as int] == STAR)
                && find_cr(buf@.skip(index as int), 1) is Some && int_header(buf@, index as int) is None
                ==> r is Err && r->Err_0 is IntParseFailure && r->Err_0->IntParseFailure_0@ == buf@.subrange(
                index + 1,
                index + find_cr(buf@.skip(index as int), 1)->0,
            ),
    {
        let t = buf[index];
        if !(t == DOLLAR || t == COLON || t == STAR) {
            return Err(RESPError::UnknownStartingByte(t));
        }
        let e = match line_end(buf, index) {
            Some(e) => e,
            None => {
                return Err(RESPError::UnexpectedEnd);
            },
        };
        assert(buf@.subrange(index + 1, e as int) == buf@.subrange(index + 1, index + (e - index)));
        match read_int(buf, index + 1, e) {
            Some(n) => {
                proof {
                    lemma_find_cr(buf@.skip(index as int), 1);
                }
                Ok((e + 2, n))
            },
            None => Err(RESPError::IntParseFailure(vstd::slice::slice_to_vec(&buf[index + 1..e]))),
        }
    }
}

} // verus!

verus! {

/// The frame a bulk string view stands for.
pub open spec fn bulk_split_view(s: Seq<u8>, r: RedisBufSplit) -> Resp {
    match r {
        RedisBufSplit::String(b) => Resp::Bulk(s.subrange(b.0 as int, b.1 as int)),
        _ => Resp::NullBulk,
    }
}

impl Parser {
    /// Decodes the bulk string at `index`, which holds `$`: a view of its
    /// bytes (or the null bulk string) and the index after it; `Ok(None)`
    /// when more bytes are needed.
    pub fn parse_bulk_string(src: &bytes::BytesMut, index: usize) -> (r: Result<
        Option<(usize, RedisBufSplit)>,
        RESPError,
    >)
        requires
            index < buf_bytes(*src).len(),
            buf_bytes(*src)[index as int] == DOLLAR,
        ensures
            Self::bulk_outcome(buf_bytes(*src), index as int, r),
            header_fault(buf_bytes(*src).skip(index as int)) is Some ==> r is Err && fault_is(
                buf_bytes(*src).skip(index as int),
                header_fault(buf_bytes(*src).skip(index as int))->0,
                r->Err_0,
            ),
    {
        let buf = buf_slice(src);
        Self::bulk_at(buf, index)
    }

    /// What decoding the bulk string at `pos` must return.
    pub open spec fn bulk_outcome(
        s: Seq<u8>,
        pos: int,
        r: Result<Option<(usize, RedisBufSplit)>, RESPError>,
    ) -> bool {
        match parse_frame(s.skip(pos)) {
            Parse::Done(v, n) => r is Ok && r->Ok_0 is Some && r->Ok_0->Some_0.0 == pos + n && {
                let b = r->Ok_0->Some_0.1;
                match v {
                    Resp::NullBulk => b == RedisBufSplit::NullBulkString,
                    _ => b is String && b->String_0.0 <= b->String_0.1 <= pos + n
                        && bulk_split_view(s, b) == v,
                }
            },
            Parse::Incomplete => r == Ok::<Option<(usize, RedisBufSplit)>, RESPError>(None),
            Parse::Malformed => r is Err,
        }
    }

    fn bulk_at(buf: &[u8], index: usize) -> (r: Result<Option<(usize, RedisBufSplit)>, RESPError>)
        requires
            index < buf@.len(),
            buf@[index as int] == DOLLAR,
        ensures
            Self::bulk_outcome(buf@, index as int, r),
            r is Ok && r->Ok_0 is Some ==> index < r->Ok_0->Some_0.0 <= buf@.len(),
            header_fault(buf@.skip(index as int)) is Some ==> r is Err && fault_is(
                buf@.skip(index as int),
                header_fault(buf@.skip(index as int))->0,
                r->Err_0,
            ),
    {
        let ghost s = buf@.skip(index as int);
        assert(s[0] == DOLLAR);
        match parse_frame_at(buf, index) {
            Ok(Some((q, v))) => {
                match v {
                    RedisValue::BulkString(d) => {
                        proof {
                            lemma_bulk_shape(s);
                        }
                        let a = q - 2 - d.len();
                        assert(s.subrange((a - index) as int, (q - 2 - index) as int) =~= buf@.subrange(a as int, q - 2));
                        Ok(Some((q, RedisBufSplit::String(BufSplit(a, q - 2)))))
                    },
                    _ => {
                        Ok(Some((q, RedisBufSplit::NullBulkString)))
                    },
                }
            },
            Ok(None) => Ok(None),
            Err(e) => Err(e),
        }
    }

    /// The simple string whose text starts at `pos + 1`: a view of its text
    /// up to the first CR and the index after CR LF; `Ok(None)` when no CR
    /// follows.
    pub fn simple_string(buf: &bytes::BytesMut, pos: usize) -> (r: Result<Option<(usize, RedisBufSplit)>, RESPError>)
        requires
            pos < buf_bytes(*buf).len() < usize::MAX,
        ensures
            match find_cr(buf_bytes(*buf), pos + 1) {
                None => r == Ok::<Option<(usize, RedisBufSplit)>, RESPError>(None),
                Some(e) => r == Ok::<Option<(usize, RedisBufSplit)>, RESPError>(
                    Some(((e + 2) as usize, RedisBufSplit::String(BufSplit((pos + 1) as usize, e as usize)))),
                ),
            },
    {
        match Parser::token(buf, pos + 1) {
            Some((p, word)) => Ok(Some((p, RedisBufSplit::String(word)))),
            None => Ok(None),
        }
    }
}

} // verus!

verus! {

impl Parser {
    /// Decodes the array at `index`, which holds `*`, with any frames as
    /// elements: views of its strings, and the index after it; `Ok(None)`
    /// when more bytes are needed.
    pub fn parse_array(src: &bytes::BytesMut, index: usize) -> (r: Result<
        Option<(usize, RedisBufSplit)>,
        RESPError,
    >)
        requires
            index < buf_bytes(*src).len(),
            buf_bytes(*src)[index as int] == STAR,
        ensures
            split_outcome(buf_bytes(*src), index as int, r),
            header_fault(buf_bytes(*src).skip(index as int)) is Some ==> r is Err && fault_is(
                buf_bytes(*src).skip(index as int),
                header_fault(buf_bytes(*src).skip(index as int))->0,
                r->Err_0,
            ),
    {
        let buf = buf_slice(src);
        split_frame_at(buf, index)
    }
}

} // verus!

verus! {

/// Whether an array header with a valid length starts at `p` of `s`.
pub open spec fn array_header_at(s: Seq<u8>, p: int) -> bool {
    0 <= p < s.len() && s[p] == STAR && int_header(s, p) is Some
}

/// The text `String::from_utf8_lossy` makes of some bytes.
pub uninterp spec fn utf8_lossy(b: Seq<u8>) -> Seq<char>;

/// Relies on `String::from_utf8_lossy`: valid UTF-8 is decoded as it is.
#[verifier::external_body]
pub(crate) fn lossy_string(b: &[u8]) -> (r: String)
    ensures
        r@ == utf8_lossy(b@),
        vstd::utf8::valid_utf8(b@) ==> r@ == vstd::utf8::decode_utf8(b@),
{
    String::from_utf8_lossy(b).to_string()
}

impl BufSplit {
    /// The viewed bytes as text; bytes that are not UTF-8 become U+FFFD.
    pub fn to_string(&self, src: &[u8]) -> (r: String)
        requires
            self.0 <= self.1 <= src@.len(),
        ensures
            r@ == utf8_lossy(src@.subrange(self.0 as int, self.1 as int)),
            vstd::utf8::valid_utf8(src@.subrange(self.0 as int, self.1 as int)) ==> r@ == vstd::utf8::decode_utf8(src@.subrange(self.0 as int, self.1 as int)),
    {
        lossy_string(&src[self.0..self.1])
    }
}

impl Parser {
    /// The first index at or after `index` where a frame of the given kind
    /// starts; only arrays with a valid length line are looked for.
    pub fn find_start_resp_data_type(
        buf: &bytes::BytesMut,
        index: usize,
        query_type: &RESPDataType,
    ) -> (r: Option<usize>)
        requires
            buf_bytes(*buf).len() < usize::MAX,
        ensures
            match query_type {
                RESPDataType::Array => match r {
                    Some(p) => index <= p && array_header_at(buf_bytes(*buf), p as int)
                        && forall|j: int| index <= j < p ==> !array_header_at(buf_bytes(*buf), j),
                    None => forall|j: int| index <= j ==> !array_header_at(buf_bytes(*buf), j),
                },
                _ => r is None,
            },
    {
        let s = buf_slice(buf);
        match query_type {
            RESPDataType::Array => {},
            _ => {
                return None;
            },
        }
        let mut pos = index;
        while pos < s.len()
            invariant
                index <= pos,
                *query_type is Array,
                s@ == buf_bytes(*buf),
                s@.len() < usize::MAX,
                forall|j: int| index <= j < pos ==> !array_header_at(s@, j),
            decreases s@.len() - pos,
        {
            if s[pos] == STAR {
                match Self::int_line(s, pos) {
                    Ok(_) => {
                        return Some(pos);
                    },
                    Err(_) => {},
                }
            }
            pos = pos + 1;
        }
        None
    }

    /// Decodes the commands in `bm`, up to its end or an incomplete frame;
    /// frames other than arrays are skipped. Fails when bytes start no frame.
    pub fn parse_commands(bm: &bytes::BytesMut) -> (r: Result<Vec<ParsedCommand>, RESPError>)
        ensures
            r is Err <==> batch_of(buf_bytes(*bm)).malformed,
            r is Ok ==> parsed_views(r->Ok_0@) == batch_of(buf_bytes(*bm)).cmds
                && well_counted(r->Ok_0@),
    {
        let (cmds, _, err) = parse_prefix(buf_slice(bm));
        match err {
            Some(e) => Err(e),
            None => Ok(cmds),
        }
    }
}

} // verus!

verus! {

/// Whether every view in `r` lies within `s`.
pub open spec fn split_in(s: Seq<u8>, r: RedisBufSplit) -> bool
    decreases r,
{
    match r {
        RedisBufSplit::String(b) => b.0 <= b.1 <= s.len(),
        RedisBufSplit::Error(b) => b.0 <= b.1 <= s.len(),
        RedisBufSplit::Array(ws) => forall|i: int| 0 <= i < ws.len() ==> split_in(s, #[trigger] ws[i]),
        _ => true,
    }
}

/// The human-readable rendering of a frame of views: strings as their
/// bytes, integers in decimal, arrays as `[a,b]`, the null array as `[]` and
/// the null bulk string as `null`.
pub open spec fn display(s: Seq<u8>, r: RedisBufSplit) -> Seq<u8>
    decreases r, 0int,
{
    match r {
        RedisBufSplit::String(b) => s.subrange(b.0 as int, b.1 as int),
        RedisBufSplit::Error(b) => s.subrange(b.0 as int, b.1 as int),
        RedisBufSplit::Int(i) => int_text(i as int),
        RedisBufSplit::Array(ws) => seq![91u8] + display_from(s, ws@, 0) + seq![93u8],
        RedisBufSplit::NullArray => seq![91u8, 93],
        RedisBufSplit::NullBulkString => seq![110u8, 117, 108, 108],
    }
}

/// The renderings of `ws[i..]`, separated by commas.
pub open spec fn display_from(s: Seq<u8>, ws: Seq<RedisBufSplit>, i: int) -> Seq<u8>
    decreases ws, ws.len() - i,
{
    if 0 <= i < ws.len() {
        (if i > 0 { seq![44u8] } else { Seq::empty() }) + display(s, ws[i]) + display_from(s, ws, i + 1)
    } else {
        Seq::empty()
    }
}

impl RedisBufSplit {
    fn write_display(&self, src: &[u8], out: &mut Vec<u8>)
        requires
            split_in(src@, *self),
        ensures
            final(out)@ == old(out)@ + display(src@, *self),
        decreases self,
    {
        let ghost start = out@;
        match self {
            RedisBufSplit::String(b) => {
                push_all(out, &src[b.0..b.1]);
            },
            RedisBufSplit::Error(b) => {
                push_all(out, &src[b.0..b.1]);
            },
            RedisBufSplit::Int(i) => {
                push_int(out, *i);
            },
            RedisBufSplit::Array(ws) => {
                out.push(91u8);
                let ghost head = out@;
                let mut i: usize = 0;
                while i < ws.len()
                    invariant
                        i <= ws@.len(),
                        *self == RedisBufSplit::Array(*ws),
                        split_in(src@, *self),
                        out@ + display_from(src@, ws@, i as int) == head + display_from(src@, ws@, 0),
                    decreases ws@.len() - i,
                {
                    proof {
                        broadcast use vstd::std_specs::vec::axiom_vec_index_decreases;
                        assert(decreases_to!(*self => self->Array_0));
                        assert(decreases_to!(*ws => ws[i as int]));
                    }
                    let ghost before = out@;
                    if i > 0 {
                        out.push(44u8);
                    }
                    assert(split_in(src@, ws@[i as int]));
                    ws[i].write_display(src, out);
                    proof {
                        assert(before + display_from(src@, ws@, i as int) =~= out@ + display_from(src@, ws@, i + 1));
                    }
                    i = i + 1;
                }
                out.push(93u8);
                assert(display_from(src@, ws@, i as int) =~= Seq::<u8>::empty());
                assert(out@ =~= start + display(src@, *self));
            },
            RedisBufSplit::NullArray => {
                out.push(91u8);
                out.push(93u8);
                assert(out@ =~= start + display(src@, *self));
            },
            RedisBufSplit::NullBulkString => {
                out.push(110u8);
                out.push(117u8);
                out.push(108u8);
                out.push(108u8);
                assert(out@ =~= start + display(src@, *self));
            },
        }
    }

    /// Human-readable rendering, for logs; bytes that are not UTF-8 become U+FFFD.
    pub fn to_string(&self, src: &bytes::BytesMut) -> (r: String)
        requires
            split_in(buf_bytes(*src), *self),
        ensures
            r@ == utf8_lossy(display(buf_bytes(*src), *self)),
            vstd::utf8::valid_utf8(display(buf_bytes(*src), *self)) ==> r@ == vstd::utf8::decode_utf8(display(buf_bytes(*src), *self)),
    {
        let buf = buf_slice(src);
        let mut out: Vec<u8> = Vec::new();
        self.write_display(buf, &mut out);
        assert(out@ =~= display(buf@, *self));
        lossy_string(out.as_slice())
    }
}

} // verus!

verus! {

/// The frame a frame of views stands for: its strings are bulk strings.
pub open spec fn split_resp(s: Seq<u8>, r: RedisBufSplit) -> Resp
    decreases r,
{
    match r {
        RedisBufSplit::String(b) => Resp::Bulk(s.subrange(b.0 as int, b.1 as int)),
        RedisBufSplit::Error(b) => Resp::Error(s.subrange(b.0 as int, b.1 as int)),
        RedisBufSplit::Int(i) => Resp::Int(i as int),
        RedisBufSplit::Array(ws) => Resp::Array(
            Seq::new(
                ws.len() as nat,
                |i: int|
                    if 0 <= i < ws.len() {
                        split_resp(s, ws[i])
                    } else {
                        Resp::NullBulk
                    },
            ),
        ),
        RedisBufSplit::NullArray => Resp::NullArray,
        RedisBufSplit::NullBulkString => Resp::NullBulk,
    }
}

impl RedisBufSplit {
    /// An owned copy of the frame, with strings as bulk strings.
    pub fn to_value(&self, src: &[u8]) -> (r: RedisValue)
        requires
            split_in(src@, *self),
        ensures
            r@ == split_resp(src@, *self),
        decreases self,
    {
        match self {
            RedisBufSplit::String(b) => RedisValue::BulkString(vstd::slice::slice_to_vec(&src[b.0..b.1])),
            RedisBufSplit::Error(b) => RedisValue::Error(vstd::slice::slice_to_vec(&src[b.0..b.1])),
            RedisBufSplit::Int(i) => RedisValue::Int(*i),
            RedisBufSplit::Array(ws) => {
                let mut out: Vec<RedisValue> = Vec::new();
                let mut i: usize = 0;
                while i < ws.len()
                    invariant
                        i <= ws@.len(),
                        *self == RedisBufSplit::Array(*ws),
                        split_in(src@, *self),
                        out@.len() == i,
                        forall|j: int| 0 <= j < i ==> (#[trigger] out@[j])@ == split_resp(src@, ws@[j]),
                    decreases ws@.len() - i,
                {
                    proof {
                        broadcast use vstd::std_specs::vec::axiom_vec_index_decreases;
                        assert(decreases_to!(*self => self->Array_0));
                        assert(decreases_to!(*ws => ws[i as int]));
                    }
                    assert(split_in(src@, ws@[i as int]));
                    out.push(ws[i].to_value(src));
                    i = i + 1;
                }
                let r = RedisValue::Array(out);
                assert(r@ =~= split_resp(src@, *self)) by {
                    assert(r@->Array_0 =~= split_resp(src@, *self)->Array_0);
                }
                r
            },
            RedisBufSplit::NullArray => RedisValue::NullArray,
            RedisBufSplit::NullBulkString => RedisValue::Null,
        }
    }

    /// The wire form of the frame, strings as bulk strings, as text; bytes
    /// that are not UTF-8 become U+FFFD.
    pub fn to_resp(&self, src: &bytes::BytesMut) -> (r: String)
        requires
            split_in(buf_bytes(*src), *self),
        ensures
            r@ == utf8_lossy(encode(split_resp(buf_bytes(*src), *self))),
            vstd::utf8::valid_utf8(encode(split_resp(buf_bytes(*src), *self))) ==> r@ == vstd::utf8::decode_utf8(encode(split_resp(buf_bytes(*src), *self))),
    {
        let buf = buf_slice(src);
        let v = self.to_value(buf);
        let b = v.as_bytes();
        lossy_string(b.as_slice())
    }
}

} // verus!

verus! {

/// Whether the frame of views `r` holds the frame `v` of `s`: strings and
/// errors view their text in `s` (simple and bulk strings alike), the rest
/// match value for value.
pub open spec fn split_holds(s: Seq<u8>, r: RedisBufSplit, v: Resp) -> bool
    decreases v,
{
    match v {
        Resp::Simple(t) => r is String && r->String_0.0 <= r->String_0.1 <= s.len()
            && s.subrange(r->String_0.0 as int, r->String_0.1 as int) == t,
        Resp::Bulk(t) => r is String && r->String_0.0 <= r->String_0.1 <= s.len()
            && s.subrange(r->String_0.0 as int, r->String_0.1 as int) == t,
        Resp::Error(t) => r is Error && r->Error_0.0 <= r->Error_0.1 <= s.len()
            && s.subrange(r->Error_0.0 as int, r->Error_0.1 as int) == t,
        Resp::Int(i) => r is Int && r->Int_0 as int == i,
        Resp::NullBulk => r is NullBulkString,
        Resp::NullArray => r is NullArray,
        Resp::Array(vs) => r is Array && r->Array_0@.len() == vs.len() && forall|j: int|
            0 <= j < vs.len() ==> split_holds(s, r->Array_0@[j], #[trigger] vs[j]),
    }
}

/// What decoding the frame at `pos` of `s` into views must return.
pub open spec fn split_outcome(
    s: Seq<u8>,
    pos: int,
    r: Result<Option<(usize, RedisBufSplit)>, RESPError>,
) -> bool {
    match parse_frame(s.skip(pos)) {
        Parse::Done(v, n) => r is Ok && r->Ok_0 is Some && r->Ok_0->Some_0.0 == pos + n
            && split_holds(s, r->Ok_0->Some_0.1, v),
        Parse::Incomplete => r == Ok::<Option<(usize, RedisBufSplit)>, RESPError>(None),
        Parse::Malformed => r is Err,
    }
}

/// Decodes the frame that starts at `pos` of `buf` into views of `buf`.
pub fn split_frame_at(buf: &[u8], pos: usize) -> (r: Result<Option<(usize, RedisBufSplit)>, RESPError>)
    requires
        pos <= buf@.len(),
    ensures
        split_outcome(buf@, pos as int, r),
        r is Ok && r->Ok_0 is Some ==> pos < r->Ok_0->Some_0.0 <= buf@.len(),
        header_fault(buf@.skip(pos as int)) is Some ==> r is Err && fault_is(
            buf@.skip(pos as int),
            header_fault(buf@.skip(pos as int))->0,
            r->Err_0,
        ),
    decreases buf@.len() - pos,
{
    let ghost s = buf@.skip(pos as int);
    let len = buf.len();
    if pos == len {
        return Ok(None);
    }
    let t = buf[pos];
    assert(s[0] == t);
    if !(t == PLUS || t == MINUS || t == COLON || t == DOLLAR || t == STAR) {
        return Err(RESPError::UnknownStartingByte(t));
    }
    let e = match line_end(buf, pos) {
        None => {
            return Ok(None);
        },
        Some(e) => e,
    };
    assert(find_cr(s, 1) == Some((e - pos) as int));
    if e + 1 >= len {
        assert(parse_frame(s) == Parse::Incomplete);
        return Ok(None);
    }
    assert(s[e + 1 - pos] == buf@[e + 1]);
    if buf[e + 1] != LF {
        assert(parse_frame(s) == Parse::Malformed);
        return Err(RESPError::BadTerminator);
    }
    let h = e + 2;
    assert(s.subrange(1, e - pos) =~= buf@.subrange(pos + 1, e as int));
    if t == PLUS {
        return Ok(Some((h, RedisBufSplit::String(BufSplit(pos + 1, e)))));
    }
    if t == MINUS {
        return Ok(Some((h, RedisBufSplit::Error(BufSplit(pos + 1, e)))));
    }
    let n = match read_int(buf, pos + 1, e) {
        None => {
            return Err(RESPError::IntParseFailure(vstd::slice::slice_to_vec(&buf[pos + 1..e])));
        },
        Some(n) => n,
    };
    if t == COLON {
        return Ok(Some((h, RedisBufSplit::Int(n))));
    }
    if n == -1 {
        if t == DOLLAR {
            return Ok(Some((h, RedisBufSplit::NullBulkString)));
        } else {
            return Ok(Some((h, RedisBufSplit::NullArray)));
        }
    }
    if t == DOLLAR {
        if n < -1 || n > MAX_BULK_LEN as i64 {
            return Err(RESPError::BadBulkStringSize(n));
        }
        let size = n as usize;
        if len - h < size + 2 {
            return Ok(None);
        }
        assert(s[h + size - pos] == buf@[h + size]);
        assert(s[h + size + 1 - pos] == buf@[h + size + 1]);
        if buf[h + size] != CR || buf[h + size + 1] != LF {
            return Err(RESPError::BadTerminator);
        }
        assert(s.subrange(h - pos, h + size - pos) =~= buf@.subrange(h as int, h + size));
        return Ok(Some((h + size + 2, RedisBufSplit::String(BufSplit(h, h + size)))));
    }
    if n < -1 || n > MAX_ARRAY_LEN as i64 {
        return Err(RESPError::BadArraySize(n));
    }
    let count = n as usize;
    let ghost whole = parse_elems(buf@.skip(h as int), count as nat);
    assert(s.skip(h - pos) =~= buf@.skip(h as int));
    let mut items: Vec<RedisBufSplit> = Vec::new();
    let ghost mut vs: Seq<Resp> = Seq::empty();
    let mut p: usize = h;
    let mut i: usize = 0;
    proof {
        lemma_prepend_empty(whole);
    }
    assert(parse_frame(s) == array_outcome(whole, (h - pos) as nat));
    while i < count
        invariant
            pos < h <= p <= len,
            parse_frame(buf@.skip(pos as int)) == array_outcome(whole, (h - pos) as nat),
            header_fault(buf@.skip(pos as int)) is None,
            len == buf@.len(),
            i <= count,
            vs.len() == items@.len() == i,
            forall|j: int| 0 <= j < i ==> split_holds(buf@, #[trigger] items@[j], vs[j]),
            whole == prepend(vs, (p - h) as nat, parse_elems(buf@.skip(p as int), (count - i) as nat)),
        decreases count - i,
    {
        let ghost rest = buf@.skip(p as int);
        match split_frame_at(buf, p) {
            Ok(Some((q, v))) => {
                let ghost fv = parse_frame(rest)->Done_0;
                proof {
                    let k = (q - p) as nat;
                    assert(rest.skip(k as int) =~= buf@.skip(q as int));
                    lemma_prepend_assoc(vs, (p - h) as nat, seq![fv], k, parse_elems(buf@.skip(q as int), (count - i - 1) as nat));
                    vs = vs + seq![fv];
                }
                items.push(v);
                p = q;
                i = i + 1;
                assert(forall|j: int| 0 <= j < i ==> split_holds(buf@, #[trigger] items@[j], vs[j]));
            },
            Ok(None) => {
                assert(parse_elems(rest, (count - i) as nat) == ParseMany::Incomplete);
                return Ok(None);
            },
            Err(err) => {
                assert(parse_elems(rest, (count - i) as nat) == ParseMany::Malformed);
                return Err(err);
            },
        }
    }
    let r = RedisBufSplit::Array(items);
    assert(split_holds(buf@, r, Resp::Array(vs)));
    Ok(Some((p, r)))
}

} // verus!
