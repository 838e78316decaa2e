//! Character-level helpers over `String` and `&str`, stated over `Seq<char>`.

use vstd::prelude::*;

verus! {

/// Appends one character to a string (`String::push`).
#[verifier::external_body]
pub(crate) fn push_char(s: &mut String, c: char)
    ensures
        final(s)@ == old(s)@.push(c),
{
    s.push(c);
}

/// The characters of a string slice, in order.
pub fn chars_of(s: &str) -> (out: Vec<char>)
    ensures
        out@ == s@,
{
    let mut out: Vec<char> = Vec::new();
    for c in it: s.chars()
        invariant
            out@ == it.seq().take(it.index() as int),
    {
        out.push(c);
    }
    out
}

/// Builds a string from a slice of characters.
pub fn string_from_chars(cs: &[char]) -> (out: String)
    ensures
        out@ == cs@,
{
    let mut out = String::new();
    let mut i: usize = 0;
    while i < cs.len()
        invariant
            i <= cs.len(),
            out@ == cs@.take(i as int),
        decreases cs.len() - i,
    {
        push_char(&mut out, cs[i]);
        proof {
            assert(cs@.take(i as int).push(cs@[i as int]) =~= cs@.take(i + 1));
        }
        i = i + 1;
    }
    proof {
        assert(cs@.take(cs@.len() as int) =~= cs@);
    }
    out
}

/// Appends all characters of `suffix` to `s`.
pub fn push_str(s: &mut String, suffix: &str)
    ensures
        final(s)@ == old(s)@ + suffix@,
{
    s.append(suffix);
}

/// A fresh string holding the characters of `s`.
pub fn owned(s: &str) -> (out: String)
    ensures
        out@ == s@,
{
    String::from_str(s)
}

/// Concatenation of two string slices.
pub fn concat2(a: &str, b: &str) -> (out: String)
    ensures
        out@ == a@ + b@,
{
    let mut out = String::from_str(a);
    out.append(b);
    out
}

/// Concatenation of three string slices.
pub fn concat3(a: &str, b: &str, c: &str) -> (out: String)
    ensures
        out@ == a@ + b@ + c@,
{
    let mut out = String::from_str(a);
    out.append(b);
    out.append(c);
    out
}

/// Whether two string slices hold the same characters.
pub fn str_eq(a: &str, b: &str) -> (same: bool)
    ensures
        same == (a@ == b@),
{
    let x = chars_of(a);
    let y = chars_of(b);
    if x.len() != y.len() {
        return false;
    }
    let mut i: usize = 0;
    while i < x.len()
        invariant
            x@ == a@,
            y@ == b@,
            x.len() == y.len(),
            i <= x.len(),
            forall|j: int| 0 <= j < i ==> x@[j] == y@[j],
        decreases x.len() - i,
    {
        if x[i] != y[i] {
            return false;
        }
        i = i + 1;
    }
    proof {
        assert(a@ =~= b@);
    }
    true
}

/// The character of a decimal digit `d` (`0 <= d < 10`).
pub open spec fn digit_char(d: int) -> char {
    (d + 48) as char
}

/// Decimal text of a natural number, without sign or leading zeros.
pub open spec fn decimal_text(n: nat) -> Seq<char>
    decreases n,
{
    if n < 10 {
        seq![digit_char(n as int)]
    } else {
        decimal_text(n / 10).push(digit_char((n % 10) as int))
    }
}

fn digit_to_char(d: u128) -> (c: char)
    requires
        d < 10,
    ensures
        c == digit_char(d as int),
{
    let b: u8 = 48u8 + (d as u8);
    b as char
}

/// Decimal text of `n`, as `u64`'s `to_string` writes it.
pub fn format_decimal(n: u64) -> (out: String)
    ensures
        out@ == decimal_text(n as nat),
{
    format_decimal_wide(n as u128)
}

/// Decimal text of `n`, as `u128`'s `to_string` writes it.
pub fn format_decimal_wide(n: u128) -> (out: String)
    ensures
        out@ == decimal_text(n as nat),
{
    let mut reversed: Vec<char> = Vec::new();
    let mut m: u128 = n;
    let ghost mut suffix: Seq<char> = Seq::empty();
    while m >= 10
        invariant
            decimal_text(n as nat) == decimal_text(m as nat) + suffix,
            reversed@.len() == suffix.len(),
            forall|i: int| 0 <= i < suffix.len() ==> reversed@[i] == suffix[suffix.len() - 1 - i],
        decreases m,
    {
        let d = m % 10;
        let c = digit_to_char(d);
        proof {
            assert(decimal_text(m as nat) == decimal_text((m / 10) as nat).push(c));
            assert(decimal_text((m / 10) as nat).push(c) + suffix =~= decimal_text(
                (m / 10) as nat,
            ) + (seq![c] + suffix));
            suffix = seq![c] + suffix;
        }
        reversed.push(c);
        m = m / 10;
    }
    let first = digit_to_char(m);
    let mut out = String::new();
    push_char(&mut out, first);
    let mut i: usize = reversed.len();
    while i > 0
        invariant
            i <= reversed.len(),
            reversed@.len() == suffix.len(),
            forall|k: int| 0 <= k < suffix.len() ==> reversed@[k] == suffix[suffix.len() - 1 - k],
            out@ == seq![first] + suffix.take(suffix.len() - i),
        decreases i,
    {
        i = i - 1;
        push_char(&mut out, reversed[i]);
        proof {
            assert(suffix.take(suffix.len() - i) =~= suffix.take(suffix.len() - (i + 1)).push(
                suffix[suffix.len() - 1 - i],
            ));
        }
    }
    proof {
        assert(suffix.take(suffix.len() as int) =~= suffix);
        assert(decimal_text(m as nat) =~= seq![first]);
    }
    out
}

/// The lowercase hexadecimal digit of `d` (`0 <= d < 16`).
pub open spec fn hex_char(d: int) -> char {
    if d < 10 {
        (d + 48) as char
    } else {
        (d + 87) as char
    }
}

/// Lowercase hexadecimal text of a natural number, without leading zeros.
pub open spec fn hex_text(n: nat) -> Seq<char>
    decreases n,
{
    if n < 16 {
        seq![hex_char(n as int)]
    } else {
        hex_text(n / 16).push(hex_char((n % 16) as int))
    }
}

fn hex_digit_to_char(d: u64) -> (c: char)
    requires
        d < 16,
    ensures
        c == hex_char(d as int),
{
    if d < 10 {
        let b: u8 = 48u8 + (d as u8);
        b as char
    } else {
        let b: u8 = 87u8 + (d as u8);
        b as char
    }
}

/// Lowercase hexadecimal text of `n`, as the `{:x}` format writes it.
pub fn format_hex(n: u64) -> (out: String)
    ensures
        out@ == hex_text(n as nat),
{
    let mut reversed: Vec<char> = Vec::new();
    let mut m: u64 = n;
    let ghost mut suffix: Seq<char> = Seq::empty();
    while m >= 16
        invariant
            hex_text(n as nat) == hex_text(m as nat) + suffix,
            reversed@.len() == suffix.len(),
            forall|i: int| 0 <= i < suffix.len() ==> reversed@[i] == suffix[suffix.len() - 1 - i],
        decreases m,
    {
        let d = m % 16;
        let c = hex_digit_to_char(d);
        proof {
            assert(hex_text(m as nat) == hex_text((m / 16) as nat).push(c));
            assert(hex_text((m / 16) as nat).push(c) + suffix =~= hex_text((m / 16) as nat) + (
            seq![c] + suffix));
            suffix = seq![c] + suffix;
        }
        reversed.push(c);
        m = m / 16;
    }
    let first = hex_digit_to_char(m);
    let mut out = String::new();
    push_char(&mut out, first);
    let mut i: usize = reversed.len();
    while i > 0
        invariant
            i <= reversed.len(),
            reversed@.len() == suffix.len(),
            forall|k: int| 0 <= k < suffix.len() ==> reversed@[k] == suffix[suffix.len() - 1 - k],
            out@ == seq![first] + suffix.take(suffix.len() - i),
        decreases i,
    {
        i = i - 1;
        push_char(&mut out, reversed[i]);
        proof {
            assert(suffix.take(suffix.len() - i) =~= suffix.take(suffix.len() - (i + 1)).push(
                suffix[suffix.len() - 1 - i],
            ));
        }
    }
    proof {
        assert(suffix.take(suffix.len() as int) =~= suffix);
        assert(hex_text(m as nat) =~= seq![first]);
    }
    out
}

/// Whitespace as `char::is_whitespace` defines it (the Unicode `White_Space` property).
pub open spec fn is_whitespace(c: char) -> bool {
    ||| ('\t' <= c && c <= '\r')
    ||| c == ' '
    ||| c == '\u{85}'
    ||| c == '\u{a0}'
    ||| c == '\u{1680}'
    ||| ('\u{2000}' <= c && c <= '\u{200a}')
    ||| c == '\u{2028}'
    ||| c == '\u{2029}'
    ||| c == '\u{202f}'
    ||| c == '\u{205f}'
    ||| c == '\u{3000}'
}

/// Executable form of [`is_whitespace`].
pub fn char_is_whitespace(c: char) -> (b: bool)
    ensures
        b == is_whitespace(c),
{
    ('\t' <= c && c <= '\r') || c == ' ' || c == '\u{85}' || c == '\u{a0}' || c == '\u{1680}' || (
    '\u{2000}' <= c && c <= '\u{200a}') || c == '\u{2028}' || c == '\u{2029}' || c == '\u{202f}'
        || c == '\u{205f}' || c == '\u{3000}'
}

/// `s` without its leading whitespace.
pub open spec fn trim_start(s: Seq<char>) -> Seq<char>
    decreases s.len(),
{
    if s.len() > 0 && is_whitespace(s[0]) {
        trim_start(s.drop_first())
    } else {
        s
    }
}

/// `s` without its trailing whitespace.
pub open spec fn trim_end(s: Seq<char>) -> Seq<char>
    decreases s.len(),
{
    if s.len() > 0 && is_whitespace(s.last()) {
        trim_end(s.drop_last())
    } else {
        s
    }
}

/// `s` without leading and trailing whitespace, as `str::trim` returns it.
pub open spec fn trim(s: Seq<char>) -> Seq<char> {
    trim_end(trim_start(s))
}

proof fn lemma_trim_start_skip(s: Seq<char>, i: int)
    requires
        0 <= i <= s.len(),
        forall|j: int| 0 <= j < i ==> is_whitespace(#[trigger] s[j]),
    ensures
        trim_start(s) == trim_start(s.skip(i)),
    decreases i,
{
    if i > 0 {
        assert(s.skip(1) =~= s.drop_first());
        lemma_trim_start_skip(s.drop_first(), i - 1);
        assert(s.drop_first().skip(i - 1) =~= s.skip(i));
    } else {
        assert(s.skip(0) =~= s);
    }
}

proof fn lemma_trim_end_take(s: Seq<char>, i: int)
    requires
        0 <= i <= s.len(),
        forall|j: int| i <= j < s.len() ==> is_whitespace(#[trigger] s[j]),
    ensures
        trim_end(s) == trim_end(s.take(i)),
    decreases s.len() - i,
{
    if i < s.len() {
        lemma_trim_end_take(s.drop_last(), i);
        assert(s.drop_last().take(i) =~= s.take(i));
    } else {
        assert(s.take(i) =~= s);
    }
}

/// The characters of `s` between its leading and trailing whitespace.
pub fn trim_chars(s: &str) -> (out: Vec<char>)
    ensures
        out@ == trim(s@),
{
    let cs = chars_of(s);
    let mut start: usize = 0;
    while start < cs.len() && char_is_whitespace(cs[start])
        invariant
            cs@ == s@,
            start <= cs.len(),
            forall|j: int| 0 <= j < start ==> is_whitespace(#[trigger] cs@[j]),
        decreases cs.len() - start,
    {
        start = start + 1;
    }
    proof {
        lemma_trim_start_skip(s@, start as int);
    }
    let ghost rest = s@.skip(start as int);
    let mut end: usize = cs.len();
    while end > start && char_is_whitespace(cs[end - 1])
        invariant
            cs@ == s@,
            start <= end <= cs.len(),
            rest == s@.skip(start as int),
            forall|j: int| end <= j < cs.len() ==> is_whitespace(#[trigger] cs@[j]),
        decreases end,
    {
        end = end - 1;
    }
    proof {
        assert forall|j: int| end - start <= j < rest.len() implies is_whitespace(#[trigger] rest[j]) by {
            assert(rest[j] == cs@[j + start]);
        }
        lemma_trim_end_take(rest, end - start);
        if start < cs.len() {
            assert(!is_whitespace(rest[0]));
            assert(trim_start(rest) == rest);
        } else {
            assert(rest.len() == 0);
        }
    }
    let mut out: Vec<char> = Vec::new();
    let mut i: usize = start;
    while i < end
        invariant
            cs@ == s@,
            start <= i <= end <= cs.len(),
            out@ == s@.subrange(start as int, i as int),
        decreases end - i,
    {
        out.push(cs[i]);
        i = i + 1;
        proof {
            assert(out@ =~= s@.subrange(start as int, i as int));
        }
    }
    proof {
        assert(rest.take(end - start) =~= s@.subrange(start as int, end as int));
        assert(trim_start(s@) == rest);
        if end > start {
            assert(!is_whitespace(rest.take(end - start).last()));
        }
    }
    out
}

/// ASCII lowercase of one character, as `char::to_ascii_lowercase` computes it.
pub open spec fn ascii_lower(c: char) -> char {
    if 'A' <= c && c <= 'Z' {
        ((c as int) + 32) as char
    } else {
        c
    }
}

/// ASCII lowercase of every character of `s`.
pub open spec fn ascii_lowercase(s: Seq<char>) -> Seq<char> {
    s.map_values(|c: char| ascii_lower(c))
}

/// Executable form of [`ascii_lower`].
pub fn char_to_ascii_lower(c: char) -> (out: char)
    ensures
        out == ascii_lower(c),
{
    if 'A' <= c && c <= 'Z' {
        let code: u32 = c as u32;
        let lowered: u8 = (code + 32) as u8;
        lowered as char
    } else {
        c
    }
}

/// ASCII lowercase of a character sequence.
pub fn lowercase_chars(cs: &[char]) -> (out: Vec<char>)
    ensures
        out@ == ascii_lowercase(cs@),
{
    let mut out: Vec<char> = Vec::new();
    let mut i: usize = 0;
    while i < cs.len()
        invariant
            i <= cs.len(),
            out@ == ascii_lowercase(cs@.take(i as int)),
        decreases cs.len() - i,
    {
        let c = char_to_ascii_lower(cs[i]);
        out.push(c);
        i = i + 1;
        proof {
            assert(out@ =~= ascii_lowercase(cs@.take(i as int)));
        }
    }
    proof {
        assert(cs@.take(cs@.len() as int) =~= cs@);
    }
    out
}

/// Whether `s` begins with `prefix`.
pub open spec fn has_prefix(s: Seq<char>, prefix: Seq<char>) -> bool {
    prefix.len() <= s.len() && s.take(prefix.len() as int) == prefix
}

/// What `str::strip_prefix` returns: the rest after `prefix`, or `None`.
pub open spec fn strip_prefix_spec(s: Seq<char>, prefix: Seq<char>) -> Option<Seq<char>> {
    if has_prefix(s, prefix) {
        Some(s.skip(prefix.len() as int))
    } else {
        None
    }
}

/// Executable form of [`strip_prefix_spec`].
pub fn strip_prefix(s: &str, prefix: &str) -> (out: Option<String>)
    ensures
        match out {
            Some(rest) => strip_prefix_spec(s@, prefix@) == Some(rest@),
            None => strip_prefix_spec(s@, prefix@) is None,
        },
{
    let cs = chars_of(s);
    let ps = chars_of(prefix);
    if ps.len() > cs.len() {
        return None;
    }
    let mut i: usize = 0;
    while i < ps.len()
        invariant
            cs@ == s@,
            ps@ == prefix@,
            ps.len() <= cs.len(),
            i <= ps.len(),
            forall|j: int| 0 <= j < i ==> cs@[j] == ps@[j],
        decreases ps.len() - i,
    {
        if cs[i] != ps[i] {
            proof {
                assert(s@.take(prefix@.len() as int)[i as int] != prefix@[i as int]);
            }
            return None;
        }
        i = i + 1;
    }
    proof {
        assert(s@.take(prefix@.len() as int) =~= prefix@);
    }
    let mut rest: Vec<char> = Vec::new();
    let mut k: usize = ps.len();
    while k < cs.len()
        invariant
            cs@ == s@,
            ps.len() <= k <= cs.len(),
            rest@ == s@.subrange(ps.len() as int, k as int),
        decreases cs.len() - k,
    {
        rest.push(cs[k]);
        k = k + 1;
        proof {
            assert(rest@ =~= s@.subrange(ps.len() as int, k as int));
        }
    }
    proof {
        assert(s@.skip(prefix@.len() as int) =~= rest@);
    }
    Some(string_from_chars(rest.as_slice()))
}

} // verus!

verus! {

/// `s` without any trailing `c`, as `str::trim_end_matches(c)` returns it.
pub open spec fn trim_end_char(s: Seq<char>, c: char) -> Seq<char>
    decreases s.len(),
{
    if s.len() > 0 && s.last() == c {
        trim_end_char(s.drop_last(), c)
    } else {
        s
    }
}

/// `s` without any leading `c`, as `str::trim_start_matches(c)` returns it.
pub open spec fn trim_start_char(s: Seq<char>, c: char) -> Seq<char>
    decreases s.len(),
{
    if s.len() > 0 && s[0] == c {
        trim_start_char(s.drop_first(), c)
    } else {
        s
    }
}

proof fn lemma_trim_end_char_take(s: Seq<char>, c: char, i: int)
    requires
        0 <= i <= s.len(),
        forall|j: int| i <= j < s.len() ==> #[trigger] s[j] == c,
    ensures
        trim_end_char(s, c) == trim_end_char(s.take(i), c),
    decreases s.len() - i,
{
    if i < s.len() {
        lemma_trim_end_char_take(s.drop_last(), c, i);
        assert(s.drop_last().take(i) =~= s.take(i));
    } else {
        assert(s.take(i) =~= s);
    }
}

proof fn lemma_trim_start_char_skip(s: Seq<char>, c: char, i: int)
    requires
        0 <= i <= s.len(),
        forall|j: int| 0 <= j < i ==> #[trigger] s[j] == c,
    ensures
        trim_start_char(s, c) == trim_start_char(s.skip(i), c),
    decreases i,
{
    if i > 0 {
        lemma_trim_start_char_skip(s.drop_first(), c, i - 1);
        assert(s.drop_first().skip(i - 1) =~= s.skip(i));
    } else {
        assert(s.skip(0) =~= s);
    }
}

/// Executable `trim_end_matches(c)` over characters.
pub fn trim_end_char_vec(s: &[char], c: char) -> (out: Vec<char>)
    ensures
        out@ == trim_end_char(s@, c),
{
    let mut end: usize = s.len();
    while end > 0 && s[end - 1] == c
        invariant
            end <= s.len(),
            forall|j: int| end <= j < s.len() ==> #[trigger] s@[j] == c,
        decreases end,
    {
        end = end - 1;
    }
    proof {
        lemma_trim_end_char_take(s@, c, end as int);
    }
    let mut out: Vec<char> = Vec::new();
    let mut i: usize = 0;
    while i < end
        invariant
            i <= end <= s.len(),
            out@ == s@.take(i as int),
        decreases end - i,
    {
        out.push(s[i]);
        i = i + 1;
        proof {
            assert(out@ =~= s@.take(i as int));
        }
    }
    proof {
        if end > 0 {
            assert(s@.take(end as int).last() != c);
        }
    }
    out
}

/// Executable `trim_start_matches(c)` over characters.
pub fn trim_start_char_vec(s: &[char], c: char) -> (out: Vec<char>)
    ensures
        out@ == trim_start_char(s@, c),
{
    let mut start: usize = 0;
    while start < s.len() && s[start] == c
        invariant
            start <= s.len(),
            forall|j: int| 0 <= j < start ==> #[trigger] s@[j] == c,
        decreases s.len() - start,
    {
        start = start + 1;
    }
    proof {
        lemma_trim_start_char_skip(s@, c, start as int);
    }
    let mut out: Vec<char> = Vec::new();
    let mut i: usize = start;
    while i < s.len()
        invariant
            start <= i <= s.len(),
            out@ == s@.subrange(start as int, i as int),
        decreases s.len() - i,
    {
        out.push(s[i]);
        i = i + 1;
        proof {
            assert(out@ =~= s@.subrange(start as int, i as int));
        }
    }
    proof {
        assert(out@ =~= s@.skip(start as int));
        if start < s.len() {
            assert(s@.skip(start as int)[0] != c);
        }
    }
    out
}

/// Whether `s` ends with `suffix`.
pub open spec fn has_suffix(s: Seq<char>, suffix: Seq<char>) -> bool {
    suffix.len() <= s.len() && s.skip(s.len() - suffix.len()) == suffix
}

/// Executable [`has_suffix`].
pub fn ends_with(s: &[char], suffix: &[char]) -> (b: bool)
    ensures
        b == has_suffix(s@, suffix@),
{
    if suffix.len() > s.len() {
        return false;
    }
    let offset = s.len() - suffix.len();
    let mut i: usize = 0;
    while i < suffix.len()
        invariant
            offset + suffix.len() == s.len(),
            i <= suffix.len(),
            forall|j: int| 0 <= j < i ==> s@[offset + j] == suffix@[j],
        decreases suffix.len() - i,
    {
        if s[offset + i] != suffix[i] {
            proof {
                assert(s@.skip(offset as int)[i as int] != suffix@[i as int]);
            }
            return false;
        }
        i = i + 1;
    }
    proof {
        assert(s@.skip(offset as int) =~= suffix@);
    }
    true
}

/// Whether two character sequences are equal.
pub fn chars_eq(a: &[char], b: &[char]) -> (same: bool)
    ensures
        same == (a@ == b@),
{
    if a.len() != b.len() {
        return false;
    }
    let mut i: usize = 0;
    while i < a.len()
        invariant
            a.len() == b.len(),
            i <= a.len(),
            forall|j: int| 0 <= j < i ==> a@[j] == b@[j],
        decreases a.len() - i,
    {
        if a[i] != b[i] {
            return false;
        }
        i = i + 1;
    }
    proof {
        assert(a@ =~= b@);
    }
    true
}

/// The text an optional string holds.
pub open spec fn opt_text(o: Option<String>) -> Option<Seq<char>> {
    match o {
        Some(s) => Some(s@),
        None => None,
    }
}

/// A copy of an optional string.
pub fn clone_opt(o: &Option<String>) -> (out: Option<String>)
    ensures
        opt_text(out) == opt_text(*o),
{
    match o {
        Some(s) => Some(s.clone()),
        None => None,
    }
}

/// Parts joined with `sep` between them, as `join` on a slice of strings.
pub open spec fn join_with(parts: Seq<Seq<char>>, sep: Seq<char>) -> Seq<char>
    decreases parts.len(),
{
    if parts.len() == 0 {
        Seq::empty()
    } else if parts.len() == 1 {
        parts[0]
    } else {
        join_with(parts.drop_last(), sep) + sep + parts.last()
    }
}

/// The text of the `Utf8Error` that `std::str::from_utf8` gives for bytes
/// that are not UTF-8.
pub uninterp spec fn utf8_error_text(bytes: Seq<u8>) -> Seq<char>;

/// Whether `std::str::from_utf8` accepts the bytes: the text it gives, or the
/// text of its error (the named result).
#[verifier::external_body]
pub(crate) fn utf8_text(bytes: &[u8]) -> (out: Result<String, String>)
    ensures
        out is Ok <==> vstd::utf8::valid_utf8(bytes@),
        out matches Ok(s) ==> s@ == vstd::utf8::decode_utf8(bytes@),
        out matches Err(m) ==> m@ == utf8_error_text(bytes@),
{
    std::str::from_utf8(bytes).map(|s| s.to_string()).map_err(|error| error.to_string())
}

} // verus!

verus! {

/// `s` with every `from` replaced by `to`, as `str::replace` with a char pattern.
pub open spec fn replace_char(s: Seq<char>, from: char, to: Seq<char>) -> Seq<char>
    decreases s.len(),
{
    if s.len() == 0 {
        Seq::empty()
    } else if s.last() == from {
        replace_char(s.drop_last(), from, to) + to
    } else {
        replace_char(s.drop_last(), from, to).push(s.last())
    }
}

/// Executable [`replace_char`].
pub fn replace_chars(s: &[char], from: char, to: &str) -> (out: Vec<char>)
    ensures
        out@ == replace_char(s@, from, to@),
{
    let to_chars = chars_of(to);
    let mut out: Vec<char> = Vec::new();
    let mut i: usize = 0;
    while i < s.len()
        invariant
            i <= s.len(),
            to_chars@ == to@,
            out@ == replace_char(s@.take(i as int), from, to@),
        decreases s.len() - i,
    {
        proof {
            assert(s@.take(i + 1).drop_last() =~= s@.take(i as int));
        }
        if s[i] == from {
            let mut k: usize = 0;
            let ghost before = out@;
            while k < to_chars.len()
                invariant
                    k <= to_chars.len(),
                    out@ == before + to_chars@.take(k as int),
                decreases to_chars.len() - k,
            {
                out.push(to_chars[k]);
                k = k + 1;
                proof {
                    assert(out@ =~= before + to_chars@.take(k as int));
                }
            }
            proof {
                assert(to_chars@.take(to_chars@.len() as int) =~= to_chars@);
            }
        } else {
            out.push(s[i]);
        }
        i = i + 1;
    }
    proof {
        assert(s@.take(s@.len() as int) =~= s@);
    }
    out
}

/// An ASCII letter or digit.
pub open spec fn is_ascii_alphanumeric(c: char) -> bool {
    ('a' <= c && c <= 'z') || ('A' <= c && c <= 'Z') || ('0' <= c && c <= '9')
}

pub fn char_is_ascii_alphanumeric(c: char) -> (b: bool)
    ensures
        b == is_ascii_alphanumeric(c),
{
    ('a' <= c && c <= 'z') || ('A' <= c && c <= 'Z') || ('0' <= c && c <= '9')
}

} // verus!

verus! {

/// Texts in code point order, as `str`'s `Ord` compares them (UTF-8 keeps
/// code point order byte by byte).
pub open spec fn text_le(a: Seq<char>, b: Seq<char>) -> bool
    decreases a.len(),
{
    if a.len() == 0 {
        true
    } else if b.len() == 0 {
        false
    } else if a[0] != b[0] {
        (a[0] as int) < (b[0] as int)
    } else {
        text_le(a.drop_first(), b.drop_first())
    }
}

/// The order `text_le` as a relation.
pub open spec fn text_order() -> spec_fn(Seq<char>, Seq<char>) -> bool {
    |a: Seq<char>, b: Seq<char>| text_le(a, b)
}

proof fn lemma_text_le_reflexive(a: Seq<char>)
    ensures
        text_le(a, a),
    decreases a.len(),
{
    if a.len() > 0 {
        lemma_text_le_reflexive(a.drop_first());
    }
}

proof fn lemma_text_le_antisymmetric(a: Seq<char>, b: Seq<char>)
    requires
        text_le(a, b),
        text_le(b, a),
    ensures
        a == b,
    decreases a.len(),
{
    if a.len() > 0 && b.len() > 0 && a[0] == b[0] {
        lemma_text_le_antisymmetric(a.drop_first(), b.drop_first());
        assert(a =~= seq![a[0]] + a.drop_first());
        assert(b =~= seq![b[0]] + b.drop_first());
    }
    if a.len() == 0 && b.len() == 0 {
        assert(a =~= b);
    }
}

proof fn lemma_text_le_transitive(a: Seq<char>, b: Seq<char>, c: Seq<char>)
    requires
        text_le(a, b),
        text_le(b, c),
    ensures
        text_le(a, c),
    decreases a.len(),
{
    if a.len() > 0 && b.len() > 0 && c.len() > 0 && a[0] == b[0] && b[0] == c[0] {
        lemma_text_le_transitive(a.drop_first(), b.drop_first(), c.drop_first());
    }
}

proof fn lemma_text_le_total(a: Seq<char>, b: Seq<char>)
    ensures
        text_le(a, b) || text_le(b, a),
    decreases a.len(),
{
    if a.len() > 0 && b.len() > 0 && a[0] == b[0] {
        lemma_text_le_total(a.drop_first(), b.drop_first());
    }
}

/// `text_le` is a total order.
pub proof fn lemma_text_order_total()
    ensures
        vstd::relations::total_ordering(text_order()),
{
    let r = text_order();
    assert forall|x: Seq<char>| #[trigger] r(x, x) by {
        lemma_text_le_reflexive(x);
    }
    assert forall|x: Seq<char>, y: Seq<char>| #[trigger] r(x, y) && #[trigger] r(y, x) implies x == y by {
        lemma_text_le_antisymmetric(x, y);
    }
    assert forall|x: Seq<char>, y: Seq<char>, z: Seq<char>| #[trigger] r(x, y) && #[trigger] r(y, z) implies r(x, z) by {
        lemma_text_le_transitive(x, y, z);
    }
    assert forall|x: Seq<char>, y: Seq<char>| #[trigger] r(x, y) || #[trigger] r(y, x) by {
        lemma_text_le_total(x, y);
    }
}

/// Whether `a` comes before or equals `b` in code point order.
pub fn text_le_exec(a: &[char], b: &[char]) -> (out: bool)
    ensures
        out == text_le(a@, b@),
{
    let mut i: usize = 0;
    proof {
        assert(a@.skip(0) =~= a@);
        assert(b@.skip(0) =~= b@);
    }
    while i < a.len() && i < b.len()
        invariant
            i <= a@.len(),
            i <= b@.len(),
            text_le(a@, b@) == text_le(a@.skip(i as int), b@.skip(i as int)),
        decreases a.len() - i,
    {
        proof {
            assert(a@.skip(i as int)[0] == a@[i as int]);
            assert(b@.skip(i as int)[0] == b@[i as int]);
            assert(a@.skip(i as int).drop_first() =~= a@.skip(i + 1));
            assert(b@.skip(i as int).drop_first() =~= b@.skip(i + 1));
        }
        if a[i] != b[i] {
            return a[i] < b[i];
        }
        i = i + 1;
    }
    i == a.len()
}

/// The texts of character vectors.
pub open spec fn char_texts(v: Seq<Vec<char>>) -> Seq<Seq<char>> {
    v.map_values(|x: Vec<char>| x@)
}

/// Sorts texts in code point order.
pub fn sort_texts(v: Vec<Vec<char>>) -> (out: Vec<Vec<char>>)
    ensures
        char_texts(out@) == char_texts(v@).sort_by(text_order()),
{
    let ghost input = char_texts(v@);
    let mut out: Vec<Vec<char>> = Vec::new();
    let mut i: usize = 0;
    proof {
        lemma_text_order_total();
        assert(input.take(0) =~= Seq::<Seq<char>>::empty());
        assert(char_texts(out@) =~= Seq::<Seq<char>>::empty());
    }
    while i < v.len()
        invariant
            i <= v@.len(),
            input == char_texts(v@),
            vstd::relations::total_ordering(text_order()),
            vstd::relations::sorted_by(char_texts(out@), text_order()),
            char_texts(out@).to_multiset() == input.take(i as int).to_multiset(),
        decreases v.len() - i,
    {
        let x = v[i].clone();
        proof {
            assert(x@ == input[i as int]);
        }
        let mut j: usize = 0;
        while j < out.len() && text_le_exec(out[j].as_slice(), x.as_slice())
            invariant
                j <= out@.len(),
                forall|k: int| 0 <= k < j ==> text_le(#[trigger] char_texts(out@)[k], x@),
            decreases out.len() - j,
        {
            j = j + 1;
        }
        let ghost before = char_texts(out@);
        out.insert(j, x.clone());
        proof {
            let r = text_order();
            assert(char_texts(out@) =~= before.insert(j as int, x@));
            if j < before.len() {
                assert(!text_le(before[j as int], x@));
                lemma_text_le_total(before[j as int], x@);
            }
            assert forall|a: int, b: int| 0 <= a < b < char_texts(out@).len() implies #[trigger] r(
                char_texts(out@)[a],
                char_texts(out@)[b],
            ) by {
                let n = char_texts(out@);
                if a < j && b < j {
                    assert(r(before[a], before[b]));
                } else if a < j && b == j {
                    assert(text_le(before[a], x@));
                } else if a < j && b > j {
                    assert(r(before[a], before[b - 1]));
                } else if a == j {
                    assert(text_le(x@, before[j as int]));
                    if b - 1 > j {
                        assert(r(before[j as int], before[b - 1]));
                        lemma_text_le_transitive(x@, before[j as int], before[b - 1]);
                    }
                } else {
                    assert(r(before[a - 1], before[b - 1]));
                }
            }
            assert(input.take(i + 1) =~= input.take(i as int).push(input[i as int]));
            vstd::seq_lib::to_multiset_insert(before, j as int, x@);
            vstd::seq_lib::to_multiset_build(input.take(i as int), input[i as int]);
        }
        i = i + 1;
    }
    proof {
        assert(input.take(input.len() as int) =~= input);
        input.lemma_sort_by_ensures(text_order());
        vstd::seq_lib::lemma_sorted_unique(char_texts(out@), input.sort_by(text_order()), text_order());
    }
    out
}

} // verus!

verus! {

/// Text padded with spaces on the right to `width` characters, as the
/// `{:<width}` format writes it; longer text is kept whole.
pub open spec fn pad_right(s: Seq<char>, width: nat) -> Seq<char> {
    if s.len() >= width {
        s
    } else {
        s + Seq::new((width - s.len()) as nat, |i: int| ' ')
    }
}

/// Appends `s` padded with spaces on the right to `width` characters.
pub fn push_padded(out: &mut String, s: &str, width: usize)
    ensures
        final(out)@ == old(out)@ + pad_right(s@, width as nat),
{
    push_str(out, s);
    let n = chars_of(s).len();
    let ghost start = old(out)@ + s@;
    let mut k: usize = n;
    while k < width
        invariant
            n == s@.len(),
            start == old(out)@ + s@,
            n <= k,
            k <= width || k == n,
            out@ == start + Seq::new((k - n) as nat, |i: int| ' '),
        decreases width - k,
    {
        push_char(out, ' ');
        proof {
            assert(start + Seq::new((k + 1 - n) as nat, |i: int| ' ') =~= (start + Seq::new((k - n) as nat, |i: int| ' ')).push(' '));
        }
        k = k + 1;
    }
    proof {
        if n >= width {
            assert(k == n);
            assert(out@ =~= old(out)@ + s@);
        } else {
            assert(k == width);
            assert(pad_right(s@, width as nat) == s@ + Seq::new((width - n) as nat, |i: int| ' '));
            assert(out@ =~= old(out)@ + pad_right(s@, width as nat));
        }
    }
}

} // verus!
