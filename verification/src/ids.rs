//! Identifiers made of a prefix and the simple form of a fresh
//! time-ordered (version 7) UUID.

use crate::bytes::random_bytes;
use crate::text::{concat2, owned};
use vstd::prelude::*;

verus! {

/// A lowercase hexadecimal digit.
pub open spec fn is_lower_hex(c: char) -> bool {
    ('0' <= c && c <= '9') || ('a' <= c && c <= 'f')
}

/// Milliseconds since the Unix epoch by the system clock; `None` where the
/// clock reads earlier than the epoch or past what a `u64` holds. Nothing is
/// stated of the value.
#[verifier::external_body]
fn now_unix_millis() -> (out: Option<u64>) {
    std::time::SystemTime::now().duration_since(std::time::UNIX_EPOCH).ok().and_then(
        |elapsed| u64::try_from(elapsed.as_millis()).ok(),
    )
}

/// The simple form of the version 7 UUID that
/// `uuid::Builder::from_unix_timestamp_millis` builds from a Unix time in
/// milliseconds and ten counter and random bytes.
pub uninterp spec fn uuid_v7_simple(millis: u64, random: Seq<u8>) -> Seq<char>;

/// Builds a version 7 UUID from a time and ten random bytes
/// (`uuid::Builder::from_unix_timestamp_millis`) and gives its simple form:
/// the named text, which is 32 lowercase hexadecimal digits.
#[verifier::external_body]
fn uuid_v7_text(millis: u64, random: &[u8; 10]) -> (out: String)
    ensures
        out@ == uuid_v7_simple(millis, random@),
        out@.len() == 32,
        forall|i: int| 0 <= i < 32 ==> is_lower_hex(#[trigger] out@[i]),
{
    uuid::Builder::from_unix_timestamp_millis(millis, random).into_uuid().simple().to_string()
}

/// `prefix` followed by 32 lowercase hexadecimal digits.
pub open spec fn is_prefixed_id(id: Seq<char>, prefix: Seq<char>) -> bool {
    &&& id.len() == prefix.len() + 32
    &&& id.subrange(0, prefix.len() as int) == prefix
    &&& forall|i: int| prefix.len() <= i < id.len() ==> is_lower_hex(#[trigger] id[i])
}

/// The identifier for `prefix` whose UUID was made at `millis` from
/// `random`: the prefix followed by the UUID's simple form.
pub fn prefixed_id_from(prefix: &str, millis: u64, random: &[u8; 10]) -> (out: String)
    ensures
        out@ == prefix@ + uuid_v7_simple(millis, random@),
        is_prefixed_id(out@, prefix@),
{
    let suffix = uuid_v7_text(millis, random);
    let out = concat2(prefix, suffix.as_str());
    proof {
        assert(out@.subrange(0, prefix@.len() as int) =~= prefix@);
        assert forall|i: int| prefix@.len() <= i < out@.len() implies is_lower_hex(#[trigger] out@[i]) by {
            assert(out@[i] == suffix@[i - prefix@.len()]);
        }
    }
    out
}

/// A new identifier: `prefix` and the simple form of a UUID made now from
/// fresh random bytes. Fails where the clock reads before the Unix epoch, or
/// where the random source fails, with the reason.
pub fn prefixed_id(prefix: &str) -> (out: Result<String, String>)
    ensures
        out matches Ok(id) ==> is_prefixed_id(id@, prefix@),
{
    let millis = match now_unix_millis() {
        Some(millis) => millis,
        None => {
            return Err(owned("system clock reads before the Unix epoch"));
        },
    };
    let random = random_bytes::<10>()?;
    Ok(prefixed_id_from(prefix, millis, &random))
}

/// A new device id: `dev_` and a fresh UUID's simple form.
pub fn new_device_id() -> (out: Result<String, String>)
    ensures
        out matches Ok(id) ==> is_prefixed_id(id@, "dev_"@),
{
    prefixed_id("dev_")
}

} // verus!
