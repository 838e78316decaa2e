//! Byte-sequence helpers: appending, comparison and the lexicographic order
//! that `<=` on byte slices uses.

use vstd::prelude::*;

verus! {

/// `N` bytes from the operating system's random source (`getrandom::fill`),
/// or the text of its failure. Nothing is stated of the bytes.
#[verifier::external_body]
pub(crate) fn random_bytes<const N: usize>() -> (out: Result<[u8; N], String>) {
    let mut bytes = [0u8; N];
    match getrandom::fill(&mut bytes) {
        Ok(()) => Ok(bytes),
        Err(error) => Err(error.to_string()),
    }
}

/// Appends `bytes` to `out`.
pub fn append_bytes(out: &mut Vec<u8>, bytes: &[u8])
    ensures
        final(out)@ == old(out)@ + bytes@,
{
    let mut i: usize = 0;
    let ghost start = out@;
    while i < bytes.len()
        invariant
            i <= bytes.len(),
            out@ == start + bytes@.take(i as int),
        decreases bytes.len() - i,
    {
        out.push(bytes[i]);
        i = i + 1;
        proof {
            assert(out@ =~= start + bytes@.take(i as int));
        }
    }
    proof {
        assert(bytes@.take(bytes@.len() as int) =~= bytes@);
    }
}

/// Whether two byte slices are equal.
pub fn bytes_eq(a: &[u8], b: &[u8]) -> (same: bool)
    ensures
        same == (a@ == b@),
{
    if a.len() != b.len() {
        return false;
    }
    let mut i: usize = 0;
    while i < a.len()
        invariant
            a.len() == b.len(),
            i <= a.len(),
            forall|j: int| 0 <= j < i ==> a@[j] == b@[j],
        decreases a.len() - i,
    {
        if a[i] != b[i] {
            return false;
        }
        i = i + 1;
    }
    proof {
        assert(a@ =~= b@);
    }
    true
}

/// Lexicographic `<=` on byte sequences, as `<=` on `[u8]` orders them.
pub open spec fn lex_le(a: Seq<u8>, b: Seq<u8>) -> bool
    decreases a.len(),
{
    if a.len() == 0 {
        true
    } else if b.len() == 0 {
        false
    } else if a[0] != b[0] {
        a[0] < b[0]
    } else {
        lex_le(a.drop_first(), b.drop_first())
    }
}

/// The lexicographic order is total and antisymmetric.
pub proof fn lemma_lex_le_total(a: Seq<u8>, b: Seq<u8>)
    ensures
        lex_le(a, b) || lex_le(b, a),
        lex_le(a, b) && lex_le(b, a) ==> a == b,
    decreases a.len(),
{
    if a.len() > 0 && b.len() > 0 && a[0] == b[0] {
        lemma_lex_le_total(a.drop_first(), b.drop_first());
        if lex_le(a, b) && lex_le(b, a) {
            assert(a =~= seq![a[0]] + a.drop_first());
            assert(b =~= seq![b[0]] + b.drop_first());
        }
    } else if a.len() == 0 && b.len() == 0 {
        assert(a =~= b);
    }
}

/// Executable form of [`lex_le`].
pub fn bytes_le(a: &[u8], b: &[u8]) -> (le: bool)
    ensures
        le == lex_le(a@, b@),
{
    let mut i: usize = 0;
    proof {
        assert(a@.skip(0) =~= a@);
        assert(b@.skip(0) =~= b@);
    }
    while i < a.len() && i < b.len() && a[i] == b[i]
        invariant
            i <= a.len(),
            i <= b.len(),
            lex_le(a@, b@) == lex_le(a@.skip(i as int), b@.skip(i as int)),
        decreases a.len() - i,
    {
        proof {
            assert(a@.skip(i as int).drop_first() =~= a@.skip(i + 1));
            assert(b@.skip(i as int).drop_first() =~= b@.skip(i + 1));
        }
        i = i + 1;
    }
    if i == a.len() {
        true
    } else if i == b.len() {
        false
    } else {
        a[i] < b[i]
    }
}

/// The two sequences joined, smaller one first.
pub open spec fn sorted_pair(left: Seq<u8>, right: Seq<u8>) -> Seq<u8> {
    if lex_le(left, right) {
        left + right
    } else {
        right + left
    }
}

/// The sorted join does not depend on the order of its arguments.
pub proof fn lemma_sorted_pair_symmetric(left: Seq<u8>, right: Seq<u8>)
    ensures
        sorted_pair(left, right) == sorted_pair(right, left),
{
    lemma_lex_le_total(left, right);
}

/// Appends the smaller of the two slices first, then the other.
pub fn append_sorted_pair(output: &mut Vec<u8>, left: &[u8], right: &[u8])
    ensures
        final(output)@ == old(output)@ + sorted_pair(left@, right@),
{
    if bytes_le(left, right) {
        append_bytes(output, left);
        append_bytes(output, right);
    } else {
        append_bytes(output, right);
        append_bytes(output, left);
    }
    proof {
        assert(old(output)@ + left@ + right@ =~= old(output)@ + (left@ + right@));
        assert(old(output)@ + right@ + left@ =~= old(output)@ + (right@ + left@));
    }
}

} // verus!
