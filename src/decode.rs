//! What decoding a RESP frame from the front of a byte sequence yields.
use vstd::prelude::*;
use crate::resp::{Resp, CR, LF, PLUS, MINUS, COLON, DOLLAR, STAR, ZERO, MAX_BULK_LEN, MAX_ARRAY_LEN, is_digit};

verus! {

/// Outcome of decoding one frame from the front of a byte sequence.
pub enum Parse {
    /// A frame and the number of bytes it occupies.
    Done(Resp, nat),
    /// The bytes are a proper prefix of a frame: more must be read.
    Incomplete,
    /// The bytes cannot start a frame.
    Malformed,
}

/// Outcome of decoding a given number of frames one after another.
pub enum ParseMany {
    Done(Seq<Resp>, nat),
    Incomplete,
    Malformed,
}

/// Index of the first CR in `s` at or after `i`.
pub open spec fn find_cr(s: Seq<u8>, i: int) -> Option<int>
    decreases s.len() - i,
{
    if i < 0 || i >= s.len() {
        None
    } else if s[i] == CR {
        Some(i)
    } else {
        find_cr(s, i + 1)
    }
}

pub open spec fn is_digits(t: Seq<u8>) -> bool {
    t.len() > 0 && forall|i: int| 0 <= i < t.len() ==> is_digit(#[trigger] t[i])
}

/// Value of a string of decimal digits.
pub open spec fn digits_value(t: Seq<u8>) -> int
    decreases t.len(),
{
    if t.len() == 0 {
        0
    } else {
        digits_value(t.drop_last()) * 10 + (t.last() - ZERO)
    }
}

/// Value of strict decimal text: an optional `-` and at least one digit.
pub open spec fn int_value(t: Seq<u8>) -> Option<int> {
    if t.len() > 0 && t[0] == MINUS {
        if is_digits(t.skip(1)) {
            Some(-digits_value(t.skip(1)))
        } else {
            None
        }
    } else if is_digits(t) {
        Some(digits_value(t))
    } else {
        None
    }
}

pub open spec fn is_type_byte(b: u8) -> bool {
    b == PLUS || b == MINUS || b == COLON || b == DOLLAR || b == STAR
}

pub open spec fn in_i64(n: int) -> bool {
    i64::MIN <= n <= i64::MAX
}

/// Decodes one frame from the front of `s`.
pub open spec fn parse_frame(s: Seq<u8>) -> Parse
    decreases s.len(), 0int,
{
    if s.len() == 0 {
        Parse::Incomplete
    } else if !is_type_byte(s[0]) {
        Parse::Malformed
    } else {
        match find_cr(s, 1) {
            None => Parse::Incomplete,
            Some(e) => if e + 1 >= s.len() {
                Parse::Incomplete
            } else if s[e + 1] != LF {
                Parse::Malformed
            } else {
                let body = s.subrange(1, e);
                let h = e + 2;
                if s[0] == PLUS {
                    Parse::Done(Resp::Simple(body), h as nat)
                } else if s[0] == MINUS {
                    Parse::Done(Resp::Error(body), h as nat)
                } else {
                    match int_value(body) {
                        None => Parse::Malformed,
                        Some(n) => if s[0] == COLON {
                            if in_i64(n) {
                                Parse::Done(Resp::Int(n), h as nat)
                            } else {
                                Parse::Malformed
                            }
                        } else if n == -1 {
                            if s[0] == DOLLAR {
                                Parse::Done(Resp::NullBulk, h as nat)
                            } else {
                                Parse::Done(Resp::NullArray, h as nat)
                            }
                        } else if n < -1 {
                            Parse::Malformed
                        } else if s[0] == DOLLAR {
                            if n > MAX_BULK_LEN {
                                Parse::Malformed
                            } else if s.len() < h + n + 2 {
                                Parse::Incomplete
                            } else if s[h + n] != CR || s[h + n + 1] != LF {
                                Parse::Malformed
                            } else {
                                Parse::Done(Resp::Bulk(s.subrange(h, h + n)), (h + n + 2) as nat)
                            }
                        } else if n > MAX_ARRAY_LEN {
                            Parse::Malformed
                        } else if 0 < h <= s.len() {
                            match parse_elems(s.skip(h), n as nat) {
                                ParseMany::Done(vs, m) => Parse::Done(Resp::Array(vs), (h + m) as nat),
                                ParseMany::Incomplete => Parse::Incomplete,
                                ParseMany::Malformed => Parse::Malformed,
                            }
                        } else {
                            Parse::Malformed
                        },
                    }
                }
            },
        }
    }
}

/// Decodes `k` frames one after another from the front of `s`.
pub open spec fn parse_elems(s: Seq<u8>, k: nat) -> ParseMany
    decreases s.len(), k,
{
    if k == 0 {
        ParseMany::Done(Seq::empty(), 0)
    } else {
        match parse_frame(s) {
            Parse::Done(v, n) => if n <= s.len() {
                prepend(seq![v], n, parse_elems(s.skip(n as int), (k - 1) as nat))
            } else {
                ParseMany::Malformed
            },
            Parse::Incomplete => ParseMany::Incomplete,
            Parse::Malformed => ParseMany::Malformed,
        }
    }
}

/// Puts frames occupying `n` bytes in front of the outcome `r`.
pub open spec fn prepend(vs: Seq<Resp>, n: nat, r: ParseMany) -> ParseMany {
    match r {
        ParseMany::Done(ws, m) => ParseMany::Done(vs + ws, n + m),
        other => other,
    }
}

} // verus!

verus! {

/// Digit strings have non-negative values.
pub proof fn lemma_digits_value_nonneg(u: Seq<u8>)
    requires
        forall|i: int| 0 <= i < u.len() ==> is_digit(#[trigger] u[i]),
    ensures
        digits_value(u) >= 0,
    decreases u.len(),
{
    if u.len() > 0 {
        lemma_digits_value_nonneg(u.drop_last());
    }
}

/// The value of a prefix of a digit string is at most the value of the whole.
pub proof fn lemma_digits_value_prefix(u: Seq<u8>, k: int)
    requires
        0 <= k <= u.len(),
        forall|i: int| 0 <= i < u.len() ==> is_digit(#[trigger] u[i]),
    ensures
        digits_value(u.take(k)) <= digits_value(u),
    decreases u.len(),
{
    if k < u.len() {
        let w = u.drop_last();
        lemma_digits_value_prefix(w, k);
        assert(w.take(k) =~= u.take(k));
        lemma_digits_value_nonneg(w);
    } else {
        assert(u.take(k) =~= u);
    }
}

/// One more digit: the value is ten times the previous value plus the digit.
pub proof fn lemma_digits_value_step(u: Seq<u8>, k: int)
    requires
        0 <= k < u.len(),
    ensures
        digits_value(u.take(k + 1)) == digits_value(u.take(k)) * 10 + (u[k] - ZERO),
{
    assert(u.take(k + 1).drop_last() =~= u.take(k));
}

} // verus!

verus! {

/// What `find_cr` finds: the first CR at or after `i`, or that there is none.
pub proof fn lemma_find_cr(s: Seq<u8>, i: int)
    requires
        0 <= i,
    ensures
        match find_cr(s, i) {
            Some(e) => i <= e < s.len() && s[e] == CR && forall|j: int| i <= j < e ==> s[j] != CR,
            None => forall|j: int| i <= j < s.len() ==> s[j] != CR,
        },
    decreases s.len() - i,
{
    if i < s.len() && s[i] != CR {
        lemma_find_cr(s, i + 1);
    }
}

} // verus!

verus! {

/// A decoded bulk string is the bytes just before the final CR LF.
pub proof fn lemma_bulk_shape(s: Seq<u8>)
    requires
        parse_frame(s) is Done,
        parse_frame(s)->Done_0 is Bulk,
    ensures
        ({
            let d = parse_frame(s)->Done_0->Bulk_0;
            let n = parse_frame(s)->Done_1;
            &&& d.len() + 5 <= n <= s.len()
            &&& s.subrange(n - 2 - d.len(), n - 2) == d
        }),
{
    let e = find_cr(s, 1)->0;
    lemma_find_cr(s, 1);
}

} // verus!


