//! Decimal numbers as written on the command line: an optional `+`, then
//! one or more ASCII digits, with a value no greater than the target type's
//! maximum.
use vstd::prelude::*;
use crate::text::chars_of;

verus! {

pub open spec fn is_digit(c: char) -> bool {
    '0' <= c && c <= '9'
}

/// Numeric value of an ASCII decimal digit.
pub open spec fn digit_value(c: char) -> nat {
    (c as u32 - '0' as u32) as nat
}

pub open spec fn all_digits(s: Seq<char>) -> bool {
    forall|i: int| 0 <= i < s.len() ==> is_digit(#[trigger] s[i])
}

/// Value of a digit string read most significant digit first.
pub open spec fn digits_value(s: Seq<char>) -> nat
    decreases s.len(),
{
    if s.len() == 0 {
        0
    } else {
        digits_value(s.drop_last()) * 10 + digit_value(s.last())
    }
}

/// The digits of an unsigned number, once a leading `+` is stripped.
pub open spec fn unsigned_body(s: Seq<char>) -> Seq<char> {
    if s.len() > 0 && s[0] == '+' {
        s.drop_first()
    } else {
        s
    }
}

/// The number that `s` denotes if it is a well-formed unsigned decimal no
/// greater than `max`, and `None` otherwise.
pub open spec fn parse_unsigned(s: Seq<char>, max: nat) -> Option<nat> {
    let d = unsigned_body(s);
    if d.len() > 0 && all_digits(d) && digits_value(d) <= max {
        Some(digits_value(d))
    } else {
        None
    }
}

/// Appending digits never makes a number smaller.
proof fn lemma_prefix_value_le(s: Seq<char>, k: int)
    requires
        0 <= k <= s.len(),
    ensures
        digits_value(s.subrange(0, k)) <= digits_value(s),
    decreases s.len(),
{
    if k == s.len() {
        assert(s.subrange(0, k) =~= s);
    } else {
        lemma_prefix_value_le(s.drop_last(), k);
        assert(s.drop_last().subrange(0, k) =~= s.subrange(0, k));
    }
}

/// Reads the unsigned decimal that fills `cs[from..]`, if it is one and
/// does not exceed `max`.
pub fn parse_bounded(cs: &Vec<char>, from: usize, max: u32) -> (r: Option<u32>)
    requires
        from <= cs.len(),
    ensures
        match parse_unsigned(cs@.subrange(from as int, cs@.len() as int), max as nat) {
            Some(v) => r == Some(v as u32),
            None => r is None,
        },
{
    let ghost text = cs@.subrange(from as int, cs@.len() as int);
    let n = cs.len();
    let mut i: usize = from;
    if i < n && cs[i] == '+' {
        i = i + 1;
    }
    let start = i;
    let ghost body = cs@.subrange(start as int, n as int);
    assert(unsigned_body(text) =~= body);
    if start == n {
        return None;
    }
    let mut v: u32 = 0;
    while i < n
        invariant
            start <= i <= n,
            n == cs.len(),
            body == cs@.subrange(start as int, n as int),
            unsigned_body(text) == body,
            text == cs@.subrange(from as int, n as int),
            body.len() > 0,
            v <= max,
            v == digits_value(cs@.subrange(start as int, i as int)),
            all_digits(cs@.subrange(start as int, i as int)),
        decreases n - i,
    {
        let c = cs[i];
        let ghost prefix = cs@.subrange(start as int, i as int + 1);
        assert(prefix.drop_last() =~= cs@.subrange(start as int, i as int));
        assert(prefix.last() == c);
        if !('0' <= c && c <= '9') {
            assert(body[i - start] == c);
            assert(!all_digits(body));
            return None;
        }
        let d: u32 = (c as u32) - ('0' as u32);
        let next: u64 = (v as u64) * 10 + (d as u64);
        if next > max as u64 {
            assert(digits_value(prefix) == next);
            assert(body.subrange(0, i - start + 1) =~= prefix);
            proof {
                lemma_prefix_value_le(body, i - start + 1);
            }
            assert(parse_unsigned(text, max as nat) is None);
            return None;
        }
        v = next as u32;
        i = i + 1;
    }
    assert(cs@.subrange(start as int, i as int) =~= body);
    Some(v)
}


/// Reads `s` as a port number, as `str::parse::<u16>` does.
pub fn parse_u16(s: &str) -> (r: Option<u16>)
    ensures
        match parse_unsigned(s@, 65535) {
            Some(v) => r == Some(v as u16),
            None => r is None,
        },
{
    let cs = chars_of(s);
    assert(cs@.subrange(0, cs@.len() as int) =~= s@);
    match parse_bounded(&cs, 0, 65535) {
        Some(v) => Some(v as u16),
        None => None,
    }
}

/// Reads `s` as an attempt count, as `str::parse::<u32>` does.
pub fn parse_u32(s: &str) -> (r: Option<u32>)
    ensures
        match parse_unsigned(s@, 4294967295) {
            Some(v) => r == Some(v as u32),
            None => r is None,
        },
{
    let cs = chars_of(s);
    assert(cs@.subrange(0, cs@.len() as int) =~= s@);
    parse_bounded(&cs, 0, 4294967295)
}

} // verus!
