//! Splitting a destination argument into a host and an optional embedded
//! port: `host`, `host:port`, `[ipv6]` or `[ipv6]:port`.
use vstd::prelude::*;
use crate::digits::{parse_bounded, parse_unsigned};
use crate::text::chars_of;

verus! {

/// Index of the first `c` in `s` at or after `i`.
pub open spec fn find_from(s: Seq<char>, c: char, i: int) -> Option<int>
    decreases s.len() - i,
{
    if i < 0 || i >= s.len() {
        None
    } else if s[i] == c {
        Some(i)
    } else {
        find_from(s, c, i + 1)
    }
}

/// Index of the last `c` in `s` before position `i`.
pub open spec fn rfind_before(s: Seq<char>, c: char, i: int) -> Option<int>
    decreases i,
{
    if i <= 0 || i > s.len() {
        None
    } else if s[i - 1] == c {
        Some(i - 1)
    } else {
        rfind_before(s, c, i - 1)
    }
}

pub open spec fn as_port(v: Option<nat>) -> Option<u16> {
    match v {
        Some(p) => Some(p as u16),
        None => None,
    }
}

/// Host and embedded port of a destination.
///
/// A destination that starts with `[` and has a `]` names the host between
/// the brackets; a port follows only as `]:digits`. Otherwise a port is
/// embedded only when the destination holds exactly one `:` and the text
/// after it reads as a port; the host is then what comes before. In every
/// other case, an unbracketed IPv6 literal among them, the whole destination
/// is the host.
pub open spec fn destination_parts(d: Seq<char>) -> (Seq<char>, Option<u16>) {
    let bracket = if d.len() > 0 && d[0] == '[' {
        find_from(d, ']', 0)
    } else {
        None
    };
    match bracket {
        Some(e) => {
            let port = if d.len() > e + 1 && d[e + 1] == ':' {
                parse_unsigned(d.subrange(e + 2, d.len() as int), 65535)
            } else {
                None
            };
            (d.subrange(1, e), as_port(port))
        },
        None => match rfind_before(d, ':', d.len() as int) {
            Some(c) => if rfind_before(d, ':', c) is Some {
                (d, None)
            } else {
                match parse_unsigned(d.subrange(c + 1, d.len() as int), 65535) {
                    Some(p) => (d.subrange(0, c), Some(p as u16)),
                    None => (d, None),
                }
            },
            None => (d, None),
        },
    }
}

fn find_char(cs: &Vec<char>, c: char) -> (r: Option<usize>)
    ensures
        match find_from(cs@, c, 0) {
            Some(i) => r == Some(i as usize) && 0 <= i < cs.len(),
            None => r is None,
        },
        r matches Some(i) ==> cs@[i as int] == c,
{
    let n = cs.len();
    let mut i: usize = 0;
    while i < n
        invariant
            i <= n,
            n == cs.len(),
            find_from(cs@, c, 0) == find_from(cs@, c, i as int),
        decreases n - i,
    {
        if cs[i] == c {
            return Some(i);
        }
        i = i + 1;
    }
    None
}

fn rfind_char(cs: &Vec<char>, c: char, before: usize) -> (r: Option<usize>)
    requires
        before <= cs.len(),
    ensures
        match rfind_before(cs@, c, before as int) {
            Some(i) => r == Some(i as usize) && 0 <= i < before,
            None => r is None,
        },
{
    let mut i: usize = before;
    while i > 0
        invariant
            i <= before <= cs.len(),
            rfind_before(cs@, c, before as int) == rfind_before(cs@, c, i as int),
        decreases i,
    {
        if cs[i - 1] == c {
            return Some(i - 1);
        }
        i = i - 1;
    }
    None
}

/// Splits a destination into its host and the port written in it, if any.
pub fn parse_destination(dest: &str) -> (r: (String, Option<u16>))
    ensures
        r.0@ == destination_parts(dest@).0,
        r.1 == destination_parts(dest@).1,
{
    let cs = chars_of(dest);
    let n = cs.len();
    if n > 0 && cs[0] == '[' {
        if let Some(e) = find_char(&cs, ']') {
            let host = dest.substring_char(1, e).to_owned();
            if n > e + 1 && cs[e + 1] == ':' {
                if let Some(p) = parse_bounded(&cs, e + 2, 65535) {
                    return (host, Some(p as u16));
                }
            }
            return (host, None);
        }
    }
    if let Some(c) = rfind_char(&cs, ':', n) {
        if rfind_char(&cs, ':', c).is_none() {
            if let Some(p) = parse_bounded(&cs, c + 1, 65535) {
                return (dest.substring_char(0, c).to_owned(), Some(p as u16));
            }
        }
    }
    (dest.to_owned(), None)
}

} // verus!
