//! IPv6 addresses as text: the canonical form `Ipv6Addr`'s `Display`
//! writes, and the forms `Ipv6Addr::from_str` accepts.

use crate::ip::{
    format_ipv4, ipv4_parse, ipv4_text, lemma_split_on_nonempty, parse_ipv4_chars, split_chars,
    split_on, Ipv4Address,
};
use crate::text::{concat2, format_hex, hex_text, push_char, push_str};
use vstd::prelude::*;

verus! {

broadcast use vstd::array::group_array_axioms;

/// The number of zero segments starting at `i`.
pub open spec fn zero_run_at(s: Seq<u16>, i: int) -> nat
    decreases s.len() - i,
{
    if 0 <= i < s.len() && s[i] == 0 {
        1 + zero_run_at(s, i + 1)
    } else {
        0
    }
}

/// The first longest run of zero segments among those starting before `n`,
/// as (start, length).
pub open spec fn longest_zero_run(s: Seq<u16>, n: int) -> (int, nat)
    decreases n,
{
    if n <= 0 {
        (0, 0)
    } else {
        let prev = longest_zero_run(s, n - 1);
        let r = zero_run_at(s, n - 1);
        if r > prev.1 {
            (n - 1, r)
        } else {
            prev
        }
    }
}

/// Segments in lowercase hexadecimal, separated by `:`.
pub open spec fn hex_groups_text(s: Seq<u16>) -> Seq<char>
    decreases s.len(),
{
    if s.len() == 0 {
        Seq::empty()
    } else if s.len() == 1 {
        hex_text(s[0] as nat)
    } else {
        hex_groups_text(s.drop_last()) + seq![':'] + hex_text(s.last() as nat)
    }
}

/// `::ffff:a.b.c.d`, an IPv4 address mapped into IPv6.
pub open spec fn is_ipv4_mapped(s: Seq<u16>) -> bool {
    s[0] == 0 && s[1] == 0 && s[2] == 0 && s[3] == 0 && s[4] == 0 && s[5] == 0xffff
}

/// The octets of the two last segments.
pub open spec fn mapped_octets(s: Seq<u16>) -> Seq<u8> {
    seq![(s[6] / 256) as u8, (s[6] % 256) as u8, (s[7] / 256) as u8, (s[7] % 256) as u8]
}

/// The text `Ipv6Addr`'s `Display` writes for eight segments: IPv4-mapped
/// addresses as `::ffff:` and dotted decimal, otherwise hexadecimal segments
/// with the first longest run of two or more zero segments written `::`.
pub open spec fn ipv6_text(s: Seq<u16>) -> Seq<char> {
    if is_ipv4_mapped(s) {
        "::ffff:"@ + ipv4_text(mapped_octets(s))
    } else {
        let run = longest_zero_run(s, 8);
        if run.1 > 1 {
            hex_groups_text(s.subrange(0, run.0)) + "::"@ + hex_groups_text(
                s.subrange(run.0 + run.1, 8),
            )
        } else {
            hex_groups_text(s)
        }
    }
}

proof fn lemma_zero_run_bound(s: Seq<u16>, i: int)
    requires
        0 <= i <= s.len(),
    ensures
        i + zero_run_at(s, i) <= s.len(),
    decreases s.len() - i,
{
    if i < s.len() && s[i] == 0 {
        lemma_zero_run_bound(s, i + 1);
    }
}

proof fn lemma_longest_zero_run_bound(s: Seq<u16>, n: int)
    requires
        0 <= n <= s.len(),
    ensures
        0 <= longest_zero_run(s, n).0,
        longest_zero_run(s, n).0 + longest_zero_run(s, n).1 <= s.len(),
    decreases n,
{
    if n > 0 {
        lemma_longest_zero_run_bound(s, n - 1);
        lemma_zero_run_bound(s, n - 1);
    }
}

fn zero_run(s: &[u16; 8], i: usize) -> (r: usize)
    requires
        i <= 8,
    ensures
        r == zero_run_at(s@, i as int),
{
    let mut j: usize = i;
    while j < 8 && s[j] == 0
        invariant
            i <= j <= 8,
            zero_run_at(s@, i as int) == (j - i) + zero_run_at(s@, j as int),
        decreases 8 - j,
    {
        j = j + 1;
    }
    j - i
}

/// The segments from `from` to `to`, in hexadecimal, separated by `:`.
fn hex_groups(s: &[u16; 8], from: usize, to: usize) -> (out: String)
    requires
        from <= to <= 8,
    ensures
        out@ == hex_groups_text(s@.subrange(from as int, to as int)),
{
    let mut out = String::new();
    let mut k: usize = from;
    proof {
        assert(s@.subrange(from as int, from as int) =~= Seq::<u16>::empty());
    }
    while k < to
        invariant
            from <= k <= to <= 8,
            s@.len() == 8,
            out@ == hex_groups_text(s@.subrange(from as int, k as int)),
        decreases to - k,
    {
        let ghost prev = s@.subrange(from as int, k as int);
        let ghost next = s@.subrange(from as int, k + 1);
        proof {
            assert(next.drop_last() =~= prev);
            assert(next.last() == s@[k as int]);
        }
        let digits = format_hex(s[k] as u64);
        if k > from {
            push_char(&mut out, ':');
        } else {
            proof {
                assert(next.len() == 1);
            }
        }
        push_str(&mut out, digits.as_str());
        k = k + 1;
    }
    out
}

/// The text `Ipv6Addr`'s `Display` writes.
pub fn format_ipv6(s: &[u16; 8]) -> (out: String)
    ensures
        out@ == ipv6_text(s@),
{
    if s[0] == 0 && s[1] == 0 && s[2] == 0 && s[3] == 0 && s[4] == 0 && s[5] == 0xffff {
        let v4 = Ipv4Address::new(
            (s[6] / 256) as u8,
            (s[6] % 256) as u8,
            (s[7] / 256) as u8,
            (s[7] % 256) as u8,
        );
        let dotted = format_ipv4(v4);
        proof {
            assert(v4.0@ =~= mapped_octets(s@));
        }
        return concat2("::ffff:", dotted.as_str());
    }
    let mut best_start: usize = 0;
    let mut best_len: usize = 0;
    let mut i: usize = 0;
    while i < 8
        invariant
            i <= 8,
            s@.len() == 8,
            best_start as int == longest_zero_run(s@, i as int).0,
            best_len as nat == longest_zero_run(s@, i as int).1,
            best_len <= 8,
        decreases 8 - i,
    {
        let r = zero_run(s, i);
        proof {
            lemma_zero_run_bound(s@, i as int);
        }
        if r > best_len {
            best_start = i;
            best_len = r;
        }
        i = i + 1;
    }
    proof {
        lemma_longest_zero_run_bound(s@, 8);
    }
    if best_len > 1 {
        let mut out = hex_groups(s, 0, best_start);
        push_str(&mut out, "::");
        let tail = hex_groups(s, best_start + best_len, 8);
        push_str(&mut out, tail.as_str());
        out
    } else {
        let out = hex_groups(s, 0, 8);
        proof {
            assert(s@.subrange(0, 8) =~= s@);
        }
        out
    }
}

/// A hexadecimal digit, either case.
pub open spec fn is_hex_digit(c: char) -> bool {
    ('0' <= c && c <= '9') || ('a' <= c && c <= 'f') || ('A' <= c && c <= 'F')
}

/// The value of a hexadecimal digit.
pub open spec fn hex_digit_value(c: char) -> nat {
    if '0' <= c && c <= '9' {
        ((c as int) - 48) as nat
    } else if 'a' <= c && c <= 'f' {
        ((c as int) - 87) as nat
    } else {
        ((c as int) - 55) as nat
    }
}

/// The value of a sequence of hexadecimal digits.
pub open spec fn hex_digits_value(s: Seq<char>) -> nat
    decreases s.len(),
{
    if s.len() == 0 {
        0
    } else {
        hex_digits_value(s.drop_last()) * 16 + hex_digit_value(s.last())
    }
}

/// A segment as text: one to four hexadecimal digits.
pub open spec fn group_of(part: Seq<char>) -> Option<u16> {
    if 1 <= part.len() <= 4 && (forall|i: int| 0 <= i < part.len() ==> is_hex_digit(#[trigger] part[i])) {
        Some(hex_digits_value(part) as u16)
    } else {
        None
    }
}

/// The segments of parts that must all be segment texts.
pub open spec fn all_groups(parts: Seq<Seq<char>>) -> Option<Seq<u16>>
    decreases parts.len(),
{
    if parts.len() == 0 {
        Some(Seq::empty())
    } else {
        match (all_groups(parts.drop_last()), group_of(parts.last())) {
            (Some(g), Some(x)) => Some(g.push(x)),
            _ => None,
        }
    }
}

/// The two segments an embedded IPv4 address fills.
pub open spec fn v4_segments(o: Seq<u8>) -> Seq<u16> {
    seq![(o[0] * 256 + o[1]) as u16, (o[2] * 256 + o[3]) as u16]
}

/// `:`-separated segments; where `allow_v4`, the last may be an embedded
/// dotted IPv4 address, which fills two segments.
pub open spec fn parse_groups(text: Seq<char>, allow_v4: bool) -> Option<Seq<u16>> {
    let parts = split_on(text, ':');
    let init = all_groups(parts.drop_last());
    let last = parts.last();
    if init is None {
        None
    } else if group_of(last) is Some {
        Some(init->Some_0.push(group_of(last)->Some_0))
    } else if allow_v4 && ipv4_parse(last) is Some {
        Some(init->Some_0 + v4_segments(ipv4_parse(last)->Some_0))
    } else {
        None
    }
}

/// Whether `::` starts at `k`.
pub open spec fn double_colon_at(text: Seq<char>, k: int) -> bool {
    0 <= k && k + 1 < text.len() && text[k] == ':' && text[k + 1] == ':'
}

/// The first `::` at or after `k`.
pub open spec fn first_double_colon(text: Seq<char>, k: int) -> Option<int>
    decreases text.len() - k,
{
    if k < 0 || k + 1 >= text.len() {
        None
    } else if double_colon_at(text, k) {
        Some(k)
    } else {
        first_double_colon(text, k + 1)
    }
}

/// Segment lists around `::`, or `None` where the text is no segment list.
pub open spec fn optional_groups(text: Seq<char>, allow_v4: bool) -> Option<Seq<u16>> {
    if text.len() == 0 {
        Some(Seq::empty())
    } else {
        parse_groups(text, allow_v4)
    }
}

/// What `Ipv6Addr::from_str` gives for a text: eight segments, or fewer
/// around one `::` that stands for at least one zero segment; an embedded
/// IPv4 address only at the end.
pub open spec fn ipv6_parse(text: Seq<char>) -> Option<Seq<u16>> {
    match first_double_colon(text, 0) {
        Some(k) => {
            let h = optional_groups(text.subrange(0, k), false);
            let t = optional_groups(text.subrange(k + 2, text.len() as int), true);
            if h is Some && t is Some && h->Some_0.len() + t->Some_0.len() <= 7 {
                Some(
                    h->Some_0 + Seq::new(
                        (8 - h->Some_0.len() - t->Some_0.len()) as nat,
                        |i: int| 0u16,
                    ) + t->Some_0,
                )
            } else {
                None
            }
        },
        None => match parse_groups(text, true) {
            Some(g) => if g.len() == 8 {
                Some(g)
            } else {
                None
            },
            None => None,
        },
    }
}

fn hex_value(c: char) -> (out: Option<u32>)
    ensures
        out is Some <==> is_hex_digit(c),
        out matches Some(v) ==> v == hex_digit_value(c) && v < 16,
{
    if '0' <= c && c <= '9' {
        Some((c as u32) - 48)
    } else if 'a' <= c && c <= 'f' {
        Some((c as u32) - 87)
    } else if 'A' <= c && c <= 'F' {
        Some((c as u32) - 55)
    } else {
        None
    }
}

fn parse_group(part: &Vec<char>) -> (out: Option<u16>)
    ensures
        out == group_of(part@),
{
    let n = part.len();
    if n < 1 || n > 4 {
        return None;
    }
    let mut value: u32 = 0;
    let mut i: usize = 0;
    while i < n
        invariant
            1 <= n <= 4,
            n == part@.len(),
            i <= n,
            forall|j: int| 0 <= j < i ==> is_hex_digit(#[trigger] part@[j]),
            value == hex_digits_value(part@.take(i as int)),
            i == 0 ==> value == 0,
            i == 1 ==> value < 16,
            i == 2 ==> value < 256,
            i == 3 ==> value < 4096,
            i == 4 ==> value < 65536,
        decreases n - i,
    {
        let d = match hex_value(part[i]) {
            Some(d) => d,
            None => {
                return None;
            },
        };
        proof {
            assert(part@.take(i + 1).drop_last() =~= part@.take(i as int));
        }
        value = value * 16 + d;
        i = i + 1;
    }
    proof {
        assert(part@.take(n as int) =~= part@);
    }
    Some(value as u16)
}

fn v4_pair(a: Ipv4Address) -> (out: (u16, u16))
    ensures
        seq![out.0, out.1] == v4_segments(a.0@),
{
    let o = a.0;
    let hi: u16 = (o[0] as u16) * 256 + (o[1] as u16);
    let lo: u16 = (o[2] as u16) * 256 + (o[3] as u16);
    proof {
        assert(seq![hi, lo] =~= v4_segments(a.0@));
    }
    (hi, lo)
}

/// The segments of a `:`-separated list, as `parse_groups` states them.
fn groups_of_chars(cs: &[char], allow_v4: bool) -> (out: Option<Vec<u16>>)
    ensures
        match parse_groups(cs@, allow_v4) {
            Some(g) => out matches Some(v) && v@ == g,
            None => out is None,
        },
{
    let parts = split_chars(cs, ':');
    let ghost pv = split_on(cs@, ':');
    proof {
        lemma_split_on_nonempty(cs@, ':');
    }
    let last = parts.len() - 1;
    let mut groups: Vec<u16> = Vec::new();
    let mut i: usize = 0;
    proof {
        assert(pv.take(0) =~= Seq::<Seq<char>>::empty());
    }
    while i < last
        invariant
            last + 1 == parts@.len(),
            pv == split_on(cs@, ':'),
            parts@.len() == pv.len(),
            forall|k: int| 0 <= k < parts@.len() ==> #[trigger] parts@[k]@ == pv[k],
            i <= last,
            all_groups(pv.take(i as int)) == Some(groups@),
        decreases last - i,
    {
        proof {
            assert(pv.take(i + 1).drop_last() =~= pv.take(i as int));
            assert(pv.take(i + 1).last() == pv[i as int]);
        }
        match parse_group(&parts[i]) {
            Some(g) => {
                groups.push(g);
            },
            None => {
                proof {
                    assert(all_groups(pv.take(i + 1)) is None);
                    assert(pv.drop_last().take(i + 1) =~= pv.take(i + 1));
                    lemma_all_groups_prefix(pv.drop_last(), i + 1);
                    assert(all_groups(pv.drop_last()) is None);
                    assert(parse_groups(cs@, allow_v4) is None);
                }
                return None;
            },
        }
        i = i + 1;
    }
    proof {
        assert(pv.take(last as int) =~= pv.drop_last());
        assert(parts@[last as int]@ == pv.last());
    }
    match parse_group(&parts[last]) {
        Some(g) => {
            groups.push(g);
            Some(groups)
        },
        None => {
            if allow_v4 {
                match parse_ipv4_chars(parts[last].as_slice()) {
                    Some(a) => {
                        let (hi, lo) = v4_pair(a);
                        groups.push(hi);
                        groups.push(lo);
                        proof {
                            assert(groups@ =~= all_groups(pv.drop_last())->Some_0 + v4_segments(a.0@));
                        }
                        Some(groups)
                    },
                    None => None,
                }
            } else {
                None
            }
        },
    }
}

/// A prefix of parts with a failing segment fails as a whole.
proof fn lemma_all_groups_prefix(parts: Seq<Seq<char>>, n: int)
    requires
        0 <= n <= parts.len(),
        all_groups(parts.take(n)) is None,
    ensures
        all_groups(parts) is None,
    decreases parts.len(),
{
    if n < parts.len() {
        assert(parts.drop_last().take(n) =~= parts.take(n));
        lemma_all_groups_prefix(parts.drop_last(), n);
    } else {
        assert(parts.take(n) =~= parts);
    }
}

proof fn lemma_first_double_colon(text: Seq<char>, j: int)
    ensures
        first_double_colon(text, j) matches Some(k) ==> j <= k && double_colon_at(text, k),
    decreases text.len() - j,
{
    if !(j < 0 || j + 1 >= text.len()) && !double_colon_at(text, j) {
        lemma_first_double_colon(text, j + 1);
    }
}

fn find_double_colon(cs: &[char]) -> (out: Option<usize>)
    ensures
        out matches Some(k) ==> k + 1 < cs@.len() && first_double_colon(cs@, 0) == Some(k as int),
        out is None ==> first_double_colon(cs@, 0) is None,
{
    let n = cs.len();
    let mut k: usize = 0;
    while n > 0 && k < n - 1
        invariant
            n == cs@.len(),
            first_double_colon(cs@, 0) == first_double_colon(cs@, k as int),
        decreases n - k,
    {
        proof {
            lemma_first_double_colon(cs@, k as int);
        }
        if cs[k] == ':' && cs[k + 1] == ':' {
            return Some(k);
        }
        k = k + 1;
    }
    None
}

/// The characters from `from` to `to`.
pub fn sub_chars(cs: &[char], from: usize, to: usize) -> (out: Vec<char>)
    requires
        from <= to <= cs@.len(),
    ensures
        out@ == cs@.subrange(from as int, to as int),
{
    let mut out: Vec<char> = Vec::new();
    let mut i: usize = from;
    while i < to
        invariant
            from <= i <= to <= cs@.len(),
            out@ == cs@.subrange(from as int, i as int),
        decreases to - i,
    {
        out.push(cs[i]);
        proof {
            assert(cs@.subrange(from as int, i + 1) =~= cs@.subrange(from as int, i as int).push(
                cs@[i as int],
            ));
        }
        i = i + 1;
    }
    out
}

fn optional_groups_of(cs: &[char], allow_v4: bool) -> (out: Option<Vec<u16>>)
    ensures
        match optional_groups(cs@, allow_v4) {
            Some(g) => out matches Some(v) && v@ == g,
            None => out is None,
        },
{
    if cs.len() == 0 {
        let v: Vec<u16> = Vec::new();
        proof {
            assert(v@ =~= Seq::<u16>::empty());
        }
        Some(v)
    } else {
        groups_of_chars(cs, allow_v4)
    }
}

/// Parses IPv6 characters as `Ipv6Addr::from_str` does.
pub fn parse_ipv6_chars(cs: &[char]) -> (out: Option<[u16; 8]>)
    ensures
        match ipv6_parse(cs@) {
            Some(g) => out matches Some(a) && a@ == g,
            None => out is None,
        },
{
    let mut out: [u16; 8] = [0u16; 8];
    match find_double_colon(cs) {
        Some(k) => {
            let head = sub_chars(cs, 0, k);
            let n = cs.len();
            let tail = sub_chars(cs, k + 2, n);
            let h = optional_groups_of(head.as_slice(), false);
            let t = optional_groups_of(tail.as_slice(), true);
            match (h, t) {
                (Some(h), Some(t)) => {
                    if h.len() > 7 || t.len() > 7 - h.len() {
                        return None;
                    }
                    let start = 8 - t.len();
                    let mut i: usize = 0;
                    while i < 8
                        invariant
                            i <= 8,
                            h@.len() + t@.len() <= 7,
                            start == 8 - t@.len(),
                            forall|j: int| 0 <= j < i && j < h@.len() ==> out@[j] == h@[j],
                            forall|j: int| 0 <= j < i && h@.len() <= j < start ==> out@[j] == 0,
                            forall|j: int| 0 <= j < i && start <= j ==> out@[j] == t@[j - start],
                        decreases 8 - i,
                    {
                        if i < h.len() {
                            out[i] = h[i];
                        } else if i < start {
                            out[i] = 0;
                        } else {
                            out[i] = t[i - start];
                        }
                        i = i + 1;
                    }
                    proof {
                        let g = ipv6_parse(cs@)->Some_0;
                        assert(g == h@ + Seq::new((8 - h@.len() - t@.len()) as nat, |i: int| 0u16) + t@);
                        assert(out@ =~= g);
                    }
                    Some(out)
                },
                _ => None,
            }
        },
        None => match groups_of_chars(cs, true) {
            Some(g) => {
                if g.len() != 8 {
                    return None;
                }
                let mut i: usize = 0;
                while i < 8
                    invariant
                        i <= 8,
                        g@.len() == 8,
                        forall|j: int| 0 <= j < i ==> out@[j] == g@[j],
                    decreases 8 - i,
                {
                    out[i] = g[i];
                    i = i + 1;
                }
                proof {
                    assert(out@ =~= g@);
                }
                Some(out)
            },
            None => None,
        },
    }
}

} // verus!
