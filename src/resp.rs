//! RESP values: the mathematical model, its wire encoding, and the encoder.
use vstd::prelude::*;

verus! {

pub const CR: u8 = 13;
pub const LF: u8 = 10;
pub const PLUS: u8 = 43;
pub const MINUS: u8 = 45;
pub const COLON: u8 = 58;
pub const DOLLAR: u8 = 36;
pub const STAR: u8 = 42;
pub const ZERO: u8 = 48;
pub const ONE: u8 = 49;

/// A RESP frame as a mathematical value.
pub enum Resp {
    Simple(Seq<u8>),
    Error(Seq<u8>),
    Int(int),
    Bulk(Seq<u8>),
    NullBulk,
    Array(Seq<Resp>),
    NullArray,
}

/// A RESP frame: used for parsed input and for replies.
#[derive(Debug, PartialEq)]
pub enum RedisValue {
    /// Simple string, `+text\r\n`.
    String(Vec<u8>),
    /// Error, `-text\r\n`.
    Error(Vec<u8>),
    Int(i64),
    BulkString(Vec<u8>),
    /// The null bulk string, `$-1\r\n`.
    Null,
    Array(Vec<RedisValue>),
    NullArray,
}

impl View for RedisValue {
    type V = Resp;

    open spec fn view(&self) -> Resp
        decreases self,
    {
        match self {
            RedisValue::String(s) => Resp::Simple(s@),
            RedisValue::Error(s) => Resp::Error(s@),
            RedisValue::Int(i) => Resp::Int(*i as int),
            RedisValue::BulkString(s) => Resp::Bulk(s@),
            RedisValue::Null => Resp::NullBulk,
            RedisValue::Array(vs) => Resp::Array(
                Seq::new(
                    vs.len() as nat,
                    |i: int|
                        if 0 <= i < vs.len() {
                            vs[i]@
                        } else {
                            Resp::NullBulk
                        },
                ),
            ),
            RedisValue::NullArray => Resp::NullArray,
        }
    }
}

pub open spec fn crlf() -> Seq<u8> {
    seq![CR, LF]
}

pub open spec fn is_digit(b: u8) -> bool {
    ZERO <= b <= ZERO + 9
}

/// Decimal digits of `n`, most significant first, without leading zeros.
pub open spec fn digits_of(n: nat) -> Seq<u8>
    decreases n,
{
    if n < 10 {
        seq![(ZERO + n) as u8]
    } else {
        digits_of(n / 10).push((ZERO + n % 10) as u8)
    }
}

/// Decimal text of an integer: an optional `-`, then its digits.
pub open spec fn int_text(i: int) -> Seq<u8> {
    if i < 0 {
        seq![MINUS] + digits_of((-i) as nat)
    } else {
        digits_of(i as nat)
    }
}

/// The wire form of a frame.
pub open spec fn encode(v: Resp) -> Seq<u8>
    decreases v, 0int,
{
    match v {
        Resp::Simple(s) => seq![PLUS] + s + crlf(),
        Resp::Error(s) => seq![MINUS] + s + crlf(),
        Resp::Int(i) => seq![COLON] + int_text(i) + crlf(),
        Resp::Bulk(s) => seq![DOLLAR] + int_text(s.len() as int) + crlf() + s + crlf(),
        Resp::NullBulk => seq![DOLLAR, MINUS, ONE, CR, LF],
        Resp::Array(vs) => seq![STAR] + int_text(vs.len() as int) + crlf() + encode_from(vs, 0),
        Resp::NullArray => seq![STAR, MINUS, ONE, CR, LF],
    }
}

/// The wire forms of `vs[i..]`, one after another.
pub open spec fn encode_from(vs: Seq<Resp>, i: int) -> Seq<u8>
    decreases vs, vs.len() - i,
{
    if 0 <= i < vs.len() {
        encode(vs[i]) + encode_from(vs, i + 1)
    } else {
        Seq::empty()
    }
}

/// Text that a simple string or error can carry: no line break.
pub open spec fn is_line_text(s: Seq<u8>) -> bool {
    forall|i: int| 0 <= i < s.len() ==> s[i] != CR && s[i] != LF
}

/// A frame whose encoding decodes back to itself: line texts hold no line
/// break, and no null appears anywhere in it.
pub open spec fn round_trips(v: Resp) -> bool
    decreases v,
{
    match v {
        Resp::Simple(s) => is_line_text(s),
        Resp::Error(s) => is_line_text(s),
        Resp::Int(i) => i64::MIN <= i <= i64::MAX,
        Resp::Bulk(s) => s.len() <= crate::resp::MAX_BULK_LEN,
        Resp::NullBulk => false,
        Resp::Array(vs) => vs.len() <= crate::resp::MAX_ARRAY_LEN && forall|i: int|
            0 <= i < vs.len() ==> round_trips(#[trigger] vs[i]),
        Resp::NullArray => false,
    }
}

/// Largest bulk string the decoder accepts (512 MiB).
pub const MAX_BULK_LEN: usize = 536870912;

/// Largest element count of an array the decoder accepts.
pub const MAX_ARRAY_LEN: usize = 1048576;

/// Appends the decimal digits of `n` to `out`.
pub fn push_digits(out: &mut Vec<u8>, n: u64)
    ensures
        final(out)@ == old(out)@ + digits_of(n as nat),
    decreases n,
{
    if n >= 10 {
        push_digits(out, n / 10);
    }
    out.push(ZERO + (n % 10) as u8);
    proof {
        assert(old(out)@ + digits_of(n as nat) =~= final(out)@);
    }
}

/// Appends the decimal text of `i` to `out`.
pub fn push_int(out: &mut Vec<u8>, i: i64)
    ensures
        final(out)@ == old(out)@ + int_text(i as int),
{
    if i < 0 {
        out.push(MINUS);
        let m: u64 = (-(i as i128)) as u64;
        push_digits(out, m);
        proof {
            assert(final(out)@ =~= old(out)@ + int_text(i as int));
        }
    } else {
        push_digits(out, i as u64);
    }
}

/// Appends the decimal text of a length to `out`.
pub fn push_len(out: &mut Vec<u8>, n: usize)
    ensures
        final(out)@ == old(out)@ + int_text(n as int),
{
    push_digits(out, n as u64);
}

/// Appends CR LF to `out`.
pub fn push_crlf(out: &mut Vec<u8>)
    ensures
        final(out)@ == old(out)@ + crlf(),
{
    out.push(CR);
    out.push(LF);
    proof {
        assert(final(out)@ =~= old(out)@ + crlf());
    }
}

/// Appends all of `data` to `out`.
pub fn push_all(out: &mut Vec<u8>, data: &[u8])
    ensures
        final(out)@ == old(out)@ + data@,
{
    let ghost start = out@;
    let mut i: usize = 0;
    while i < data.len()
        invariant
            i <= data@.len(),
            out@ == start + data@.take(i as int),
        decreases data@.len() - i,
    {
        out.push(data[i]);
        i = i + 1;
        proof {
            assert(out@ =~= start + data@.take(i as int));
        }
    }
    proof {
        assert(data@.take(i as int) =~= data@);
    }
}

impl RedisValue {
    /// Appends the wire form of this frame to `out`.
    pub fn write_to(&self, out: &mut Vec<u8>)
        ensures
            final(out)@ == old(out)@ + encode(self@),
        decreases self,
    {
        let ghost start = out@;
        match self {
            RedisValue::String(s) => {
                out.push(PLUS);
                push_all(out, s.as_slice());
                push_crlf(out);
                assert(out@ =~= start + encode(self@));
            },
            RedisValue::Error(s) => {
                out.push(MINUS);
                push_all(out, s.as_slice());
                push_crlf(out);
                assert(out@ =~= start + encode(self@));
            },
            RedisValue::Int(i) => {
                out.push(COLON);
                push_int(out, *i);
                push_crlf(out);
                assert(out@ =~= start + encode(self@));
            },
            RedisValue::BulkString(s) => {
                out.push(DOLLAR);
                push_len(out, s.len());
                push_crlf(out);
                push_all(out, s.as_slice());
                push_crlf(out);
                assert(out@ =~= start + encode(self@));
            },
            RedisValue::Null => {
                out.push(DOLLAR);
                out.push(MINUS);
                out.push(ONE);
                push_crlf(out);
                assert(out@ =~= start + seq![DOLLAR, MINUS, ONE, CR, LF]);
            },
            RedisValue::Array(vs) => {
                let ghost m = self@->Array_0;
                out.push(STAR);
                push_len(out, vs.len());
                push_crlf(out);
                let ghost head = out@;
                let mut i: usize = 0;
                while i < vs.len()
                    invariant
                        i <= vs.len(),
                        *self == RedisValue::Array(*vs),
                        m.len() == vs.len(),
                        forall|j: int| 0 <= j < vs.len() ==> m[j] == (#[trigger] vs[j])@,
                        out@ + encode_from(m, i as int) == head + encode_from(m, 0),
                    decreases vs.len() - i,
                {
                    proof {
                        broadcast use vstd::std_specs::vec::axiom_vec_index_decreases;
                        assert(decreases_to!(*self => self->Array_0));
                        assert(decreases_to!(*vs => vs[i as int]));
                    }
                    let ghost before = out@;
                    vs[i].write_to(out);
                    proof {
                        assert(encode_from(m, i as int) == encode(m[i as int]) + encode_from(m, i + 1));
                        assert(before + encode_from(m, i as int) =~= out@ + encode_from(m, i + 1));
                    }
                    i = i + 1;
                }
                assert(encode_from(m, i as int) =~= Seq::<u8>::empty());
                assert(out@ =~= start + encode(self@));
            },
            RedisValue::NullArray => {
                out.push(STAR);
                out.push(MINUS);
                out.push(ONE);
                push_crlf(out);
                assert(out@ =~= start + encode(self@));
            },
        }
    }

    /// The wire form of this frame as text; bytes that are not UTF-8 become U+FFFD.
    pub fn to_response(&self) -> (r: String)
        ensures
            r@ == crate::parser::utf8_lossy(encode(self@)),
            vstd::utf8::valid_utf8(encode(self@)) ==> r@ == vstd::utf8::decode_utf8(encode(self@)),
    {
        let b = self.as_bytes();
        crate::parser::lossy_string(b.as_slice())
    }

    /// The wire form of this frame.
    pub fn as_bytes(&self) -> (r: Vec<u8>)
        ensures
            r@ == encode(self@),
    {
        let mut out: Vec<u8> = Vec::new();
        self.write_to(&mut out);
        assert(out@ =~= encode(self@));
        out
    }
}

} // verus!

verus! {

impl RedisValue {
    /// A deep copy.
    pub fn copy_value(&self) -> (r: RedisValue)
        ensures
            r@ == self@,
        decreases self,
    {
        match self {
            RedisValue::String(s) => RedisValue::String(vstd::slice::slice_to_vec(s.as_slice())),
            RedisValue::Error(s) => RedisValue::Error(vstd::slice::slice_to_vec(s.as_slice())),
            RedisValue::Int(i) => RedisValue::Int(*i),
            RedisValue::BulkString(s) => RedisValue::BulkString(vstd::slice::slice_to_vec(s.as_slice())),
            RedisValue::Null => RedisValue::Null,
            RedisValue::Array(vs) => {
                let mut out: Vec<RedisValue> = Vec::new();
                let mut i: usize = 0;
                while i < vs.len()
                    invariant
                        i <= vs.len(),
                        *self == RedisValue::Array(*vs),
                        out@.len() == i,
                        forall|j: int| 0 <= j < i ==> (#[trigger] out@[j])@ == vs@[j]@,
                    decreases vs.len() - i,
                {
                    proof {
                        broadcast use vstd::std_specs::vec::axiom_vec_index_decreases;
                        assert(decreases_to!(*self => self->Array_0));
                        assert(decreases_to!(*vs => vs[i as int]));
                    }
                    out.push(vs[i].copy_value());
                    i = i + 1;
                }
                let r = RedisValue::Array(out);
                assert(r@ =~= self@) by {
                    assert(r@->Array_0 =~= self@->Array_0);
                }
                r
            },
            RedisValue::NullArray => RedisValue::NullArray,
        }
    }
}

} // verus!

verus! {

/// The human-readable rendering of a frame: texts as their bytes, integers
/// in decimal, arrays as `[a,b]`, the null array as `[]` and the null bulk
/// string as `null`.
pub open spec fn render(v: Resp) -> Seq<u8>
    decreases v, 0int,
{
    match v {
        Resp::Simple(s) => s,
        Resp::Error(s) => s,
        Resp::Int(i) => int_text(i),
        Resp::Bulk(s) => s,
        Resp::NullBulk => seq![110u8, 117, 108, 108],
        Resp::Array(vs) => seq![91u8] + render_from(vs, 0) + seq![93u8],
        Resp::NullArray => seq![91u8, 93],
    }
}

/// The renderings of `vs[i..]`, separated by commas.
pub open spec fn render_from(vs: Seq<Resp>, i: int) -> Seq<u8>
    decreases vs, vs.len() - i,
{
    if 0 <= i < vs.len() {
        (if i > 0 { seq![44u8] } else { Seq::empty() }) + render(vs[i]) + render_from(vs, i + 1)
    } else {
        Seq::empty()
    }
}

impl RedisValue {
    fn write_rendering(&self, out: &mut Vec<u8>)
        ensures
            final(out)@ == old(out)@ + render(self@),
        decreases self,
    {
        let ghost start = out@;
        match self {
            RedisValue::String(s) => push_all(out, s.as_slice()),
            RedisValue::Error(s) => push_all(out, s.as_slice()),
            RedisValue::Int(i) => push_int(out, *i),
            RedisValue::BulkString(s) => push_all(out, s.as_slice()),
            RedisValue::Null => {
                out.push(110u8);
                out.push(117u8);
                out.push(108u8);
                out.push(108u8);
                assert(out@ =~= start + render(self@));
            },
            RedisValue::Array(vs) => {
                let ghost m = self@->Array_0;
                out.push(91u8);
                let ghost head = out@;
                let mut i: usize = 0;
                while i < vs.len()
                    invariant
                        i <= vs.len(),
                        *self == RedisValue::Array(*vs),
                        m == self@->Array_0,
                        m.len() == vs.len(),
                        forall|j: int| 0 <= j < vs.len() ==> m[j] == (#[trigger] vs[j])@,
                        out@ + render_from(m, i as int) == head + render_from(m, 0),
                    decreases vs.len() - i,
                {
                    proof {
                        broadcast use vstd::std_specs::vec::axiom_vec_index_decreases;
                        assert(decreases_to!(*self => self->Array_0));
                        assert(decreases_to!(*vs => vs[i as int]));
                    }
                    let ghost before = out@;
                    if i > 0 {
                        out.push(44u8);
                    }
                    vs[i].write_rendering(out);
                    proof {
                        assert(before + render_from(m, i as int) =~= out@ + render_from(m, i + 1));
                    }
                    i = i + 1;
                }
                out.push(93u8);
                assert(render_from(m, i as int) =~= Seq::<u8>::empty());
                assert(out@ =~= start + render(self@));
            },
            RedisValue::NullArray => {
                out.push(91u8);
                out.push(93u8);
                assert(out@ =~= start + render(self@));
            },
        }
    }

    /// Human-readable rendering, for logs; bytes that are not UTF-8 become U+FFFD.
    pub fn to_string(&self) -> (r: String)
        ensures
            r@ == crate::parser::utf8_lossy(render(self@)),
            vstd::utf8::valid_utf8(render(self@)) ==> r@ == vstd::utf8::decode_utf8(render(self@)),
    {
        let mut out: Vec<u8> = Vec::new();
        self.write_rendering(&mut out);
        assert(out@ =~= render(self@));
        crate::parser::lossy_string(out.as_slice())
    }
}

} // verus!
