//! Laws of the codec: what decoding yields on encoded frames.
use vstd::prelude::*;
use crate::resp::{Resp, CR, LF, PLUS, MINUS, COLON, DOLLAR, STAR, ZERO, MAX_ARRAY_LEN, is_digit, digits_of, int_text, encode, encode_from, crlf, round_trips};
use crate::parser::{batch_of, join};
use crate::command::{Cmd, command_of};
use crate::decode::{Parse, ParseMany, find_cr, is_type_byte, lemma_find_cr, digits_value, int_value, parse_frame, parse_elems};

verus! {

proof fn lemma_digits_of(n: nat)
    ensures
        digits_of(n).len() >= 1,
        forall|i: int| 0 <= i < digits_of(n).len() ==> is_digit(#[trigger] digits_of(n)[i]),
        digits_value(digits_of(n)) == n,
    decreases n,
{
    if n >= 10 {
        lemma_digits_of(n / 10);
        let d = digits_of(n);
        assert(d.drop_last() =~= digits_of(n / 10));
        assert((n / 10) * 10 + n % 10 == n) by (nonlinear_arith);
        assert(d.last() == ZERO + n % 10);
        assert(digits_value(d) == digits_value(d.drop_last()) * 10 + (d.last() - ZERO));
    } else {
        let d = digits_of(n);
        assert(d.drop_last() =~= Seq::<u8>::empty());
        assert(digits_value(Seq::<u8>::empty()) == 0);
        assert(digits_value(d) == digits_value(d.drop_last()) * 10 + (d.last() - ZERO));
    }
}

proof fn lemma_int_text(i: int)
    ensures
        int_value(int_text(i)) == Some(i),
        forall|j: int| 0 <= j < int_text(i).len() ==> #[trigger] int_text(i)[j] != CR,
        int_text(i).len() >= 1,
{
    if i < 0 {
        lemma_digits_of((-i) as nat);
        assert(int_text(i).skip(1) =~= digits_of((-i) as nat));
        assert forall|j: int| 0 <= j < int_text(i).len() implies #[trigger] int_text(i)[j] != CR by {
            if j > 0 {
                assert(int_text(i)[j] == digits_of((-i) as nat)[j - 1]);
            }
        }
    } else {
        lemma_digits_of(i as nat);
    }
}

/// A CR at `e`, with none in `i..e`, is the one `find_cr` finds from `i`.
proof fn lemma_find_cr_at(s: Seq<u8>, i: int, e: int)
    requires
        0 <= i <= e < s.len(),
        s[e] == CR,
        forall|j: int| i <= j < e ==> s[j] != CR,
    ensures
        find_cr(s, i) == Some(e),
    decreases e - i,
{
    if i < e {
        lemma_find_cr_at(s, i + 1, e);
    }
}

/// A header line: type byte, text without CR, CR LF, then anything.
proof fn lemma_header(s: Seq<u8>, ty: u8, text: Seq<u8>, rest: Seq<u8>)
    requires
        s == seq![ty] + text + crlf() + rest,
        forall|j: int| 0 <= j < text.len() ==> #[trigger] text[j] != CR,
    ensures
        s.len() == text.len() + 3 + rest.len(),
        s[0] == ty,
        find_cr(s, 1) == Some(1 + text.len() as int),
        s[text.len() + 2int] == LF,
        s.subrange(1, 1 + text.len() as int) == text,
        s.skip(text.len() + 3int) == rest,
{
    let k = text.len() as int;
    assert forall|j: int| 1 <= j < 1 + k implies s[j] != CR by {
        assert(s[j] == text[j - 1]);
    }
    lemma_find_cr_at(s, 1, 1 + k);
    assert(s.subrange(1, 1 + k) =~= text);
    assert(s.skip(k + 3) =~= rest);
}

/// Decoding the encoding of a frame, followed by any bytes, yields that frame
/// and the length of its encoding.
pub proof fn lemma_parse_encode(v: Resp, t: Seq<u8>)
    requires
        round_trips(v),
    ensures
        parse_frame(encode(v) + t) == Parse::Done(v, encode(v).len()),
    decreases v, 0int,
{
    let s = encode(v) + t;
    match v {
        Resp::Simple(x) => {
            lemma_header(s, PLUS, x, t);
        },
        Resp::Error(x) => {
            lemma_header(s, MINUS, x, t);
        },
        Resp::Int(i) => {
            lemma_int_text(i);
            lemma_header(s, COLON, int_text(i), t);
        },
        Resp::Bulk(x) => {
            let n = x.len() as int;
            lemma_int_text(n);
            let it = int_text(n);
            assert(s =~= seq![DOLLAR] + it + crlf() + (x + crlf() + t));
            lemma_header(s, DOLLAR, it, x + crlf() + t);
            let h = it.len() + 3int;
            assert(s[h + n] == CR);
            assert(s[h + n + 1] == LF);
            assert(s.subrange(h, h + n) =~= x);
        },
        Resp::Array(vs) => {
            let n = vs.len() as int;
            lemma_int_text(n);
            let it = int_text(n);
            assert(s =~= seq![STAR] + it + crlf() + (encode_from(vs, 0) + t));
            lemma_header(s, STAR, it, encode_from(vs, 0) + t);
            lemma_parse_encode_from(vs, 0, t);
            assert(vs.skip(0) =~= vs);
        },
        Resp::NullBulk => {},
        Resp::NullArray => {},
    }
}

/// Decoding the encodings of `vs[i..]`, followed by any bytes, yields those frames.
pub proof fn lemma_parse_encode_from(vs: Seq<Resp>, i: int, t: Seq<u8>)
    requires
        0 <= i <= vs.len(),
        forall|j: int| 0 <= j < vs.len() ==> round_trips(#[trigger] vs[j]),
    ensures
        parse_elems(encode_from(vs, i) + t, (vs.len() - i) as nat) == ParseMany::Done(
            vs.skip(i),
            encode_from(vs, i).len(),
        ),
    decreases vs, vs.len() - i,
{
    if i < vs.len() {
        let e = encode(vs[i]);
        let r = encode_from(vs, i + 1);
        let s = encode_from(vs, i) + t;
        assert(s =~= e + (r + t));
        lemma_parse_encode(vs[i], r + t);
        assert(s.skip(e.len() as int) =~= r + t);
        lemma_parse_encode_from(vs, i + 1, t);
        assert(seq![vs[i]] + vs.skip(i + 1) =~= vs.skip(i));
    } else {
        assert(vs.skip(i) =~= Seq::<Resp>::empty());
        assert(encode_from(vs, i) + t =~= t);
    }
}

/// Round trip: a frame without nulls whose line texts hold no line break
/// decodes from its own encoding to itself, with no byte left over.
pub proof fn lemma_round_trip(v: Resp)
    requires
        round_trips(v),
    ensures
        parse_frame(encode(v)) == Parse::Done(v, encode(v).len()),
{
    lemma_parse_encode(v, Seq::empty());
    assert(encode(v) + Seq::<u8>::empty() =~= encode(v));
}

} // verus!

verus! {

/// A decoded frame lies within the bytes it was decoded from.
pub proof fn lemma_done_len(s: Seq<u8>)
    ensures
        parse_frame(s) is Done ==> 0 < parse_frame(s)->Done_1 <= s.len(),
    decreases s.len(), 0int,
{
    if s.len() > 0 && is_type_byte(s[0]) {
        lemma_find_cr(s, 1);
        match find_cr(s, 1) {
            Some(e) => {
                if e + 1 < s.len() && s[0] == STAR {
                    let h = e + 2;
                    match int_value(s.subrange(1, e)) {
                        Some(n) => {
                            if 0 <= n <= MAX_ARRAY_LEN {
                                lemma_elems_done_len(s.skip(h), n as nat);
                            }
                        },
                        None => {},
                    }
                }
            },
            None => {},
        }
    }
}

pub proof fn lemma_elems_done_len(s: Seq<u8>, k: nat)
    ensures
        parse_elems(s, k) is Done ==> parse_elems(s, k)->Done_1 <= s.len(),
    decreases s.len(), k,
{
    if k > 0 {
        lemma_done_len(s);
        match parse_frame(s) {
            Parse::Done(v, n) => {
                if n <= s.len() {
                    lemma_elems_done_len(s.skip(n as int), (k - 1) as nat);
                }
            },
            _ => {},
        }
    }
}

proof fn lemma_find_cr_extend(s: Seq<u8>, t: Seq<u8>, i: int)
    requires
        0 <= i,
        find_cr(s, i) is Some,
    ensures
        find_cr(s + t, i) == find_cr(s, i),
    decreases s.len() - i,
{
    if i < s.len() && s[i] != CR {
        lemma_find_cr_extend(s, t, i + 1);
    }
}

/// A frame decoded (or rejected) from some bytes is decoded (or rejected)
/// the same way when more bytes follow.
pub proof fn lemma_parse_extend(s: Seq<u8>, t: Seq<u8>)
    requires
        !(parse_frame(s) is Incomplete),
    ensures
        parse_frame(s + t) == parse_frame(s),
    decreases s.len(), 0int,
{
    let u = s + t;
    if s.len() > 0 && is_type_byte(s[0]) {
        assert(u[0] == s[0]);
        lemma_find_cr_extend(s, t, 1);
        let e = find_cr(s, 1)->0;
        lemma_find_cr(s, 1);
        if e + 1 < s.len() {
            assert(u[e + 1] == s[e + 1]);
            assert(u.subrange(1, e) =~= s.subrange(1, e));
            let h = e + 2;
            if s[0] == DOLLAR {
                match int_value(s.subrange(1, e)) {
                    Some(n) => {
                        if 0 <= n && s.len() >= h + n + 2 {
                            assert(u[h + n] == s[h + n]);
                            assert(u[h + n + 1] == s[h + n + 1]);
                            assert(u.subrange(h, h + n) =~= s.subrange(h, h + n));
                        }
                    },
                    None => {},
                }
            } else if s[0] == STAR {
                match int_value(s.subrange(1, e)) {
                    Some(n) => {
                        if 0 <= n <= MAX_ARRAY_LEN && s[e + 1] == LF {
                            assert(u.skip(h) =~= s.skip(h) + t);
                            assert(0 < h <= s.len());
                            assert(find_cr(s, 1) == Some(e));
                            assert(s[e + 1] == LF);
                            assert(!(s[0] == PLUS) && !(s[0] == MINUS) && !(s[0] == COLON));
                            assert(parse_frame(s) == match parse_elems(s.skip(h), n as nat) {
                                ParseMany::Done(vs, m) => Parse::Done(Resp::Array(vs), (h + m) as nat),
                                ParseMany::Incomplete => Parse::Incomplete,
                                ParseMany::Malformed => Parse::Malformed,
                            });
                            lemma_parse_elems_extend(s.skip(h), t, n as nat);
                        }
                    },
                    None => {},
                }
            }
        }
    } else if s.len() > 0 {
        assert(u[0] == s[0]);
    }
}

pub proof fn lemma_parse_elems_extend(s: Seq<u8>, t: Seq<u8>, k: nat)
    requires
        !(parse_elems(s, k) is Incomplete),
    ensures
        parse_elems(s + t, k) == parse_elems(s, k),
    decreases s.len(), k,
{
    if k > 0 {
        lemma_parse_extend(s, t);
        lemma_done_len(s);
        match parse_frame(s) {
            Parse::Done(v, n) => {
                if n <= s.len() {
                    assert((s + t).skip(n as int) =~= s.skip(n as int) + t);
                    lemma_parse_elems_extend(s.skip(n as int), t, (k - 1) as nat);
                }
            },
            _ => {},
        }
    }
}

} // verus!

verus! {

/// Decoding a prefix of `s`, then `s` from where that stopped, decodes what
/// decoding `s` at once does; a prefix found malformed makes `s` malformed.
pub proof fn lemma_batch_prefix(s: Seq<u8>, k: int)
    requires
        0 <= k <= s.len(),
    ensures
        batch_of(s.take(k)).consumed <= k,
        batch_of(s.take(k)).malformed ==> batch_of(s).malformed,
        !batch_of(s.take(k)).malformed ==> batch_of(s) == join(
            batch_of(s.take(k)).cmds,
            batch_of(s.take(k)).consumed,
            batch_of(s.skip(batch_of(s.take(k)).consumed as int)),
        ),
    decreases k,
{
    let pre = s.take(k);
    let whole = batch_of(s);
    assert(s.skip(0) =~= s);
    assert(Seq::<(Cmd, Seq<u8>)>::empty() + whole.cmds =~= whole.cmds);
    if k > 0 {
        lemma_done_len(pre);
        match parse_frame(pre) {
            Parse::Incomplete => {},
            Parse::Malformed => {
                assert(pre + s.skip(k) =~= s);
                lemma_parse_extend(pre, s.skip(k));
            },
            Parse::Done(v, n) => {
                assert(pre + s.skip(k) =~= s);
                lemma_parse_extend(pre, s.skip(k));
                let rest = s.skip(n as int);
                assert(pre.skip(n as int) =~= rest.take(k - n));
                assert(pre.take(n as int) =~= s.take(n as int));
                lemma_batch_prefix(rest, k - n);
                let q = batch_of(rest.take(k - n));
                assert(rest.skip(q.consumed as int) =~= s.skip((n + q.consumed) as int));
                if !q.malformed {
                    let c0 = seq![(command_of(v), s.take(n as int))];
                    assert(c0 + (q.cmds + batch_of(s.skip((n + q.consumed) as int)).cmds) =~= (c0 + q.cmds) + batch_of(
                        s.skip((n + q.consumed) as int),
                    ).cmds);
                }
            },
        }
    }
}

/// Incremental decoding: for bytes that decode to commands entirely,
/// decoding the first `i` bytes, keeping what was not consumed, and decoding
/// it followed by the remaining bytes yields the same commands as decoding
/// all the bytes at once.
pub proof fn lemma_incremental(b: Seq<u8>, i: int)
    requires
        0 <= i <= b.len(),
        !batch_of(b).malformed,
        batch_of(b).consumed == b.len(),
    ensures
        ({
            let first = batch_of(b.take(i));
            let second = batch_of(b.take(i).skip(first.consumed as int) + b.skip(i));
            &&& !first.malformed
            &&& !second.malformed
            &&& first.cmds + second.cmds == batch_of(b).cmds
            &&& first.consumed + second.consumed == b.len()
        }),
{
    lemma_batch_prefix(b, i);
    let first = batch_of(b.take(i));
    assert(b.take(i).skip(first.consumed as int) + b.skip(i) =~= b.skip(first.consumed as int));
}

} // verus!

verus! {

/// A decoded frame decodes the same from any prefix that still holds it.
pub proof fn lemma_parse_take(s: Seq<u8>, k: int)
    requires
        parse_frame(s) is Done,
        parse_frame(s)->Done_1 <= k <= s.len(),
    ensures
        parse_frame(s.take(k)) == parse_frame(s),
    decreases s.len(), 0int,
{
    let p = s.take(k);
    lemma_find_cr(s, 1);
    let e = find_cr(s, 1)->0;
    let h = e + 2;
    assert(h <= parse_frame(s)->Done_1);
    assert(p[e] == CR);
    assert forall|j: int| 1 <= j < e implies p[j] != CR by {
        assert(p[j] == s[j]);
    }
    lemma_find_cr_at(p, 1, e);
    assert(p[0] == s[0]);
    assert(p[e + 1] == s[e + 1]);
    assert(p.subrange(1, e) =~= s.subrange(1, e));
    if s[0] == DOLLAR {
        match int_value(s.subrange(1, e)) {
            Some(n) => {
                if 0 <= n {
                    assert(p.subrange(h, h + n) =~= s.subrange(h, h + n));
                    assert(p[h + n] == s[h + n]);
                    assert(p[h + n + 1] == s[h + n + 1]);
                }
            },
            None => {},
        }
    } else if s[0] == STAR {
        match int_value(s.subrange(1, e)) {
            Some(n) => {
                if 0 <= n <= MAX_ARRAY_LEN {
                    let m = parse_elems(s.skip(h), n as nat)->Done_1;
                    assert(p.skip(h) =~= s.skip(h).take(k - h));
                    lemma_elems_take(s.skip(h), k - h, n as nat);
                }
            },
            None => {},
        }
    }
}

pub proof fn lemma_elems_take(s: Seq<u8>, k: int, cnt: nat)
    requires
        parse_elems(s, cnt) is Done,
        parse_elems(s, cnt)->Done_1 <= k <= s.len(),
    ensures
        parse_elems(s.take(k), cnt) == parse_elems(s, cnt),
    decreases s.len(), cnt,
{
    if cnt > 0 {
        let n1 = parse_frame(s)->Done_1;
        lemma_done_len(s);
        lemma_elems_done_len(s.skip(n1 as int), (cnt - 1) as nat);
        lemma_parse_take(s, k);
        assert(s.take(k).skip(n1 as int) =~= s.skip(n1 as int).take(k - n1));
        lemma_elems_take(s.skip(n1 as int), k - n1, (cnt - 1) as nat);
    }
}

} // verus!
