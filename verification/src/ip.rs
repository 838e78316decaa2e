//! IPv4 addresses: dotted-decimal text in both directions, and IP addresses
//! of either family as endpoints carry them.

use crate::ipv6::{format_ipv6, ipv6_parse, ipv6_text, parse_ipv6_chars, sub_chars};
use crate::text::{chars_of, decimal_text, format_decimal, push_char, push_str};
use vstd::prelude::*;

verus! {

broadcast use vstd::array::group_array_axioms;

/// An IPv4 address as its four octets.
#[derive(Clone, Copy, Debug, PartialEq, Eq, Hash)]
pub struct Ipv4Address(pub [u8; 4]);

/// An IP address: four octets, or eight 16-bit segments.
#[derive(Clone, Copy, Debug, PartialEq, Eq, Hash)]
pub enum IpAddress {
    V4(Ipv4Address),
    V6([u16; 8]),
}

impl Ipv4Address {
    pub fn new(a: u8, b: u8, c: u8, d: u8) -> (out: Self)
        ensures
            out.0@ == seq![a, b, c, d],
    {
        let out = Ipv4Address([a, b, c, d]);
        proof {
            assert(out.0@ =~= seq![a, b, c, d]);
        }
        out
    }

    pub fn octets(&self) -> (out: [u8; 4])
        ensures
            out == self.0,
    {
        self.0
    }

    /// The unspecified address `0.0.0.0`.
    pub fn unspecified() -> (out: Self)
        ensures
            out.0@ == seq![0u8, 0u8, 0u8, 0u8],
    {
        Self::new(0, 0, 0, 0)
    }
}

/// Dotted-decimal text of four octets.
pub open spec fn ipv4_text(o: Seq<u8>) -> Seq<char> {
    decimal_text(o[0] as nat) + seq!['.'] + decimal_text(o[1] as nat) + seq!['.'] + decimal_text(
        o[2] as nat,
    ) + seq!['.'] + decimal_text(o[3] as nat)
}

/// The text `Ipv4Addr`'s `Display` writes.
pub fn format_ipv4(address: Ipv4Address) -> (out: String)
    ensures
        out@ == ipv4_text(address.0@),
{
    let mut out = format_decimal(address.0[0] as u64);
    push_char(&mut out, '.');
    let b = format_decimal(address.0[1] as u64);
    push_str(&mut out, b.as_str());
    push_char(&mut out, '.');
    let c = format_decimal(address.0[2] as u64);
    push_str(&mut out, c.as_str());
    push_char(&mut out, '.');
    let d = format_decimal(address.0[3] as u64);
    push_str(&mut out, d.as_str());
    out
}

/// Splits a sequence at every occurrence of `sep`, as `str::split` does.
pub open spec fn split_on(s: Seq<char>, sep: char) -> Seq<Seq<char>>
    decreases s.len(),
{
    if s.len() == 0 {
        seq![Seq::empty()]
    } else if s.last() == sep {
        split_on(s.drop_last(), sep).push(Seq::empty())
    } else {
        let parts = split_on(s.drop_last(), sep);
        parts.update(parts.len() - 1, parts.last().push(s.last()))
    }
}

/// Splitting a text always gives at least one part.
pub proof fn lemma_split_on_nonempty(s: Seq<char>, sep: char)
    ensures
        split_on(s, sep).len() >= 1,
    decreases s.len(),
{
    if s.len() > 0 {
        lemma_split_on_nonempty(s.drop_last(), sep);
    }
}

/// The parts of a string between occurrences of `sep`.
pub fn split_chars(s: &[char], sep: char) -> (out: Vec<Vec<char>>)
    ensures
        out@.len() == split_on(s@, sep).len(),
        forall|i: int| 0 <= i < out@.len() ==> #[trigger] out@[i]@ == split_on(s@, sep)[i],
{
    let mut out: Vec<Vec<char>> = Vec::new();
    out.push(Vec::new());
    let mut i: usize = 0;
    proof {
        assert(s@.take(0) =~= Seq::<char>::empty());
    }
    while i < s.len()
        invariant
            i <= s.len(),
            out@.len() == split_on(s@.take(i as int), sep).len(),
            out@.len() >= 1,
            forall|k: int| 0 <= k < out@.len() ==> #[trigger] out@[k]@ == split_on(s@.take(i as int), sep)[k],
        decreases s.len() - i,
    {
        let c = s[i];
        proof {
            assert(s@.take(i + 1).drop_last() =~= s@.take(i as int));
            assert(s@.take(i + 1).last() == c);
        }
        if c == sep {
            out.push(Vec::new());
        } else {
            let last = out.len() - 1;
            let mut part = out.pop().unwrap();
            part.push(c);
            out.push(part);
            proof {
                let prev = split_on(s@.take(i as int), sep);
                assert(split_on(s@.take(i + 1), sep) == prev.update(prev.len() - 1, prev.last().push(c)));
            }
        }
        i = i + 1;
        proof {
            assert forall|k: int| 0 <= k < out@.len() implies #[trigger] out@[k]@ == split_on(s@.take(i as int), sep)[k] by {
            }
        }
    }
    proof {
        assert(s@.take(s@.len() as int) =~= s@);
    }
    out
}

/// An ASCII decimal digit.
pub open spec fn is_digit(c: char) -> bool {
    '0' <= c && c <= '9'
}

/// The value of a sequence of decimal digits.
pub open spec fn digits_value(s: Seq<char>) -> nat
    decreases s.len(),
{
    if s.len() == 0 {
        0
    } else {
        digits_value(s.drop_last()) * 10 + ((s.last() as int) - 48) as nat
    }
}

/// What an octet text parses to: one to three ASCII digits, no leading zero
/// unless the octet is `0`, and a value of at most 255.
pub open spec fn octet_of(part: Seq<char>) -> Option<u8> {
    if 1 <= part.len() <= 3 && (forall|i: int| 0 <= i < part.len() ==> is_digit(#[trigger] part[i]))
        && !(part.len() > 1 && part[0] == '0') && digits_value(part) <= 255 {
        Some(digits_value(part) as u8)
    } else {
        None
    }
}

/// What `Ipv4Addr::from_str` gives for a text: four dot-separated octets.
pub open spec fn ipv4_parse(text: Seq<char>) -> Option<Seq<u8>> {
    let parts = split_on(text, '.');
    if parts.len() == 4 && octet_of(parts[0]) is Some && octet_of(parts[1]) is Some && octet_of(
        parts[2],
    ) is Some && octet_of(parts[3]) is Some {
        Some(
            seq![
                octet_of(parts[0])->Some_0,
                octet_of(parts[1])->Some_0,
                octet_of(parts[2])->Some_0,
                octet_of(parts[3])->Some_0,
            ],
        )
    } else {
        None
    }
}

fn parse_octet(part: &Vec<char>) -> (out: Option<u8>)
    ensures
        out == octet_of(part@),
{
    let n = part.len();
    if n < 1 || n > 3 {
        return None;
    }
    if n > 1 && part[0] == '0' {
        return None;
    }
    let mut value: u32 = 0;
    let mut i: usize = 0;
    while i < n
        invariant
            1 <= n <= 3,
            n == part@.len(),
            i <= n,
            forall|j: int| 0 <= j < i ==> is_digit(#[trigger] part@[j]),
            value == digits_value(part@.take(i as int)),
            value < 1000,
            i == 0 ==> value == 0,
            i == 1 ==> value < 10,
            i == 2 ==> value < 100,
        decreases n - i,
    {
        let c = part[i];
        if !('0' <= c && c <= '9') {
            return None;
        }
        proof {
            assert(part@.take(i + 1).drop_last() =~= part@.take(i as int));
        }
        value = value * 10 + ((c as u32) - 48);
        i = i + 1;
    }
    proof {
        assert(part@.take(n as int) =~= part@);
    }
    if value > 255 {
        return None;
    }
    Some(value as u8)
}

/// Parses dotted-decimal IPv4 characters as `Ipv4Addr::from_str` does.
pub fn parse_ipv4_chars(cs: &[char]) -> (out: Option<Ipv4Address>)
    ensures
        match ipv4_parse(cs@) {
            Some(o) => out matches Some(a) && a.0@ == o,
            None => out is None,
        },
{
    let parts = split_chars(cs, '.');
    if parts.len() != 4 {
        return None;
    }
    let a = parse_octet(&parts[0]);
    let b = parse_octet(&parts[1]);
    let c = parse_octet(&parts[2]);
    let d = parse_octet(&parts[3]);
    match (a, b, c, d) {
        (Some(a), Some(b), Some(c), Some(d)) => Some(Ipv4Address::new(a, b, c, d)),
        _ => None,
    }
}

/// Parses dotted-decimal IPv4 text as `Ipv4Addr::from_str` does.
pub fn parse_ipv4(text: &str) -> (out: Option<Ipv4Address>)
    ensures
        match ipv4_parse(text@) {
            Some(o) => out matches Some(a) && a.0@ == o,
            None => out is None,
        },
{
    let cs = chars_of(text);
    parse_ipv4_chars(cs.as_slice())
}

/// An IP address as values: four octets or eight segments.
pub enum IpModel {
    V4(Seq<u8>),
    V6(Seq<u16>),
}

/// The value of an address.
pub open spec fn ip_model(a: IpAddress) -> IpModel {
    match a {
        IpAddress::V4(v4) => IpModel::V4(v4.0@),
        IpAddress::V6(s) => IpModel::V6(s@),
    }
}

/// What `IpAddr::from_str` gives for a text: IPv4, else IPv6.
pub open spec fn ip_parse(text: Seq<char>) -> Option<IpModel> {
    if ipv4_parse(text) is Some {
        Some(IpModel::V4(ipv4_parse(text)->Some_0))
    } else if ipv6_parse(text) is Some {
        Some(IpModel::V6(ipv6_parse(text)->Some_0))
    } else {
        None
    }
}

/// The text `IpAddr`'s `Display` writes.
pub open spec fn ip_text(m: IpModel) -> Seq<char> {
    match m {
        IpModel::V4(o) => ipv4_text(o),
        IpModel::V6(s) => ipv6_text(s),
    }
}

/// Parses an IP address of either family as `IpAddr::from_str` does.
pub fn parse_ip_chars(cs: &[char]) -> (out: Option<IpAddress>)
    ensures
        match ip_parse(cs@) {
            Some(m) => out matches Some(a) && ip_model(a) == m,
            None => out is None,
        },
{
    match parse_ipv4_chars(cs) {
        Some(a) => Some(IpAddress::V4(a)),
        None => match parse_ipv6_chars(cs) {
            Some(s) => Some(IpAddress::V6(s)),
            None => None,
        },
    }
}

/// Parses an IP address of either family as `IpAddr::from_str` does.
pub fn parse_ip(text: &str) -> (out: Option<IpAddress>)
    ensures
        match ip_parse(text@) {
            Some(m) => out matches Some(a) && ip_model(a) == m,
            None => out is None,
        },
{
    let cs = chars_of(text);
    parse_ip_chars(cs.as_slice())
}

/// The text `IpAddr`'s `Display` writes.
pub fn format_ip(a: &IpAddress) -> (out: String)
    ensures
        out@ == ip_text(ip_model(*a)),
{
    match a {
        IpAddress::V4(v4) => format_ipv4(*v4),
        IpAddress::V6(s) => format_ipv6(s),
    }
}

/// The first index of `c` at or after `k`.
pub open spec fn first_index_of(s: Seq<char>, c: char, k: int) -> Option<int>
    decreases s.len() - k,
{
    if k < 0 || k >= s.len() {
        None
    } else if s[k] == c {
        Some(k)
    } else {
        first_index_of(s, c, k + 1)
    }
}

proof fn lemma_first_index_of(s: Seq<char>, c: char, j: int)
    ensures
        first_index_of(s, c, j) matches Some(k) ==> j <= k < s.len() && s[k] == c,
    decreases s.len() - j,
{
    if 0 <= j < s.len() && s[j] != c {
        lemma_first_index_of(s, c, j + 1);
    }
}

fn find_char(cs: &[char], c: char) -> (out: Option<usize>)
    ensures
        out matches Some(k) ==> k < cs@.len() && first_index_of(cs@, c, 0) == Some(k as int),
        out is None ==> first_index_of(cs@, c, 0) is None,
{
    let mut k: usize = 0;
    while k < cs.len()
        invariant
            k <= cs@.len(),
            first_index_of(cs@, c, 0) == first_index_of(cs@, c, k as int),
        decreases cs.len() - k,
    {
        if cs[k] == c {
            return Some(k);
        }
        k = k + 1;
    }
    None
}

/// Decimal digits whose value fits the bound, leading zeros allowed.
pub open spec fn decimal_number(s: Seq<char>, max: nat) -> Option<nat> {
    if s.len() >= 1 && (forall|i: int| 0 <= i < s.len() ==> is_digit(#[trigger] s[i])) && digits_value(s)
        <= max {
        Some(digits_value(s))
    } else {
        None
    }
}

proof fn lemma_digits_value_prefix(s: Seq<char>, n: int)
    requires
        0 <= n <= s.len(),
        forall|i: int| 0 <= i < s.len() ==> is_digit(#[trigger] s[i]),
    ensures
        digits_value(s.take(n)) <= digits_value(s),
    decreases s.len(),
{
    if n < s.len() {
        assert(s.drop_last().take(n) =~= s.take(n));
        lemma_digits_value_prefix(s.drop_last(), n);
    } else {
        assert(s.take(n) =~= s);
    }
}

/// Reads decimal digits as a number no greater than `max`.
fn parse_decimal(cs: &[char], max: u64) -> (out: Option<u64>)
    ensures
        match decimal_number(cs@, max as nat) {
            Some(v) => out == Some(v as u64),
            None => out is None,
        },
{
    if cs.len() == 0 {
        return None;
    }
    let mut value: u64 = 0;
    let mut i: usize = 0;
    while i < cs.len()
        invariant
            i <= cs@.len(),
            cs@.len() >= 1,
            forall|j: int| 0 <= j < i ==> is_digit(#[trigger] cs@[j]),
            value == digits_value(cs@.take(i as int)),
            value <= max,
        decreases cs.len() - i,
    {
        let c = cs[i];
        if !('0' <= c && c <= '9') {
            return None;
        }
        proof {
            assert(cs@.take(i + 1).drop_last() =~= cs@.take(i as int));
        }
        let d: u64 = (c as u64) - 48;
        let next: u128 = (value as u128) * 10 + (d as u128);
        proof {
            assert(digits_value(cs@.take(i + 1)) == next);
        }
        if next > max as u128 {
            proof {
                if forall|j: int| 0 <= j < cs@.len() ==> is_digit(#[trigger] cs@[j]) {
                    lemma_digits_value_prefix(cs@, i + 1);
                }
            }
            return None;
        }
        value = next as u64;
        i = i + 1;
    }
    proof {
        assert(cs@.take(cs@.len() as int) =~= cs@);
    }
    Some(value)
}

/// The port after a `:`: decimal digits with a value that fits `u16`.
pub open spec fn port_after(rest: Seq<char>) -> Option<u16> {
    if rest.len() >= 1 && rest[0] == ':' && decimal_number(rest.subrange(1, rest.len() as int), 65535) is Some {
        Some(decimal_number(rest.subrange(1, rest.len() as int), 65535)->Some_0 as u16)
    } else {
        None
    }
}

/// What `SocketAddr::from_str` gives for a text: `a.b.c.d:port`, or
/// `[segments]:port` with an optional `%scope` before the `]`.
pub open spec fn socket_addr_parse(text: Seq<char>) -> Option<(IpModel, u16)> {
    if text.len() > 0 && text[0] == '[' {
        match first_index_of(text, ']', 0) {
            Some(c) => {
                let inner = text.subrange(1, c);
                let addr = match first_index_of(inner, '%', 0) {
                    Some(p) => inner.subrange(0, p),
                    None => inner,
                };
                let scope_ok = match first_index_of(inner, '%', 0) {
                    Some(p) => decimal_number(inner.subrange(p + 1, inner.len() as int), 0xffff_ffff) is Some,
                    None => true,
                };
                let port = port_after(text.subrange(c + 1, text.len() as int));
                if ipv6_parse(addr) is Some && scope_ok && port is Some {
                    Some((IpModel::V6(ipv6_parse(addr)->Some_0), port->Some_0))
                } else {
                    None
                }
            },
            None => None,
        }
    } else {
        match first_index_of(text, ':', 0) {
            Some(c) => {
                let port = port_after(text.subrange(c, text.len() as int));
                if ipv4_parse(text.subrange(0, c)) is Some && port is Some {
                    Some((IpModel::V4(ipv4_parse(text.subrange(0, c))->Some_0), port->Some_0))
                } else {
                    None
                }
            },
            None => None,
        }
    }
}

fn parse_port_after(rest: &[char]) -> (out: Option<u16>)
    ensures
        out == port_after(rest@),
{
    if rest.len() == 0 || rest[0] != ':' {
        return None;
    }
    let digits = sub_chars(rest, 1, rest.len());
    match parse_decimal(digits.as_slice(), 65535) {
        Some(v) => Some(v as u16),
        None => None,
    }
}

/// Parses a socket address as `SocketAddr::from_str` does.
pub fn parse_socket_addr(text: &str) -> (out: Option<(IpAddress, u16)>)
    ensures
        match socket_addr_parse(text@) {
            Some((m, port)) => out matches Some((a, p)) && ip_model(a) == m && p == port,
            None => out is None,
        },
{
    let cs = chars_of(text);
    let n = cs.len();
    if n > 0 && cs[0] == '[' {
        let c = match find_char(cs.as_slice(), ']') {
            Some(c) => c,
            None => {
                return None;
            },
        };
        proof {
            lemma_first_index_of(cs@, ']', 0);
        }
        let inner = sub_chars(cs.as_slice(), 1, c);
        let (addr, scope_ok) = match find_char(inner.as_slice(), '%') {
            Some(p) => {
                let addr = sub_chars(inner.as_slice(), 0, p);
                let scope = sub_chars(inner.as_slice(), p + 1, inner.len());
                let ok = parse_decimal(scope.as_slice(), 0xffff_ffff).is_some();
                (addr, ok)
            },
            None => (inner.clone(), true),
        };
        let rest = sub_chars(cs.as_slice(), c + 1, n);
        let port = parse_port_after(rest.as_slice());
        let ip = parse_ipv6_chars(addr.as_slice());
        match (ip, port) {
            (Some(s), Some(p)) => {
                if scope_ok {
                    Some((IpAddress::V6(s), p))
                } else {
                    None
                }
            },
            _ => None,
        }
    } else {
        let c = match find_char(cs.as_slice(), ':') {
            Some(c) => c,
            None => {
                return None;
            },
        };
        let head = sub_chars(cs.as_slice(), 0, c);
        let rest = sub_chars(cs.as_slice(), c, n);
        let port = parse_port_after(rest.as_slice());
        match (parse_ipv4_chars(head.as_slice()), port) {
            (Some(a), Some(p)) => Some((IpAddress::V4(a), p)),
            _ => None,
        }
    }
}

} // verus!
