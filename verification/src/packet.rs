//! Reading the destination of an IPv4 packet.

use crate::error::{command_failed, failed, failed_with_number, BackendError};
use crate::ip::Ipv4Address;
use crate::text::decimal_text;
use vstd::prelude::*;

verus! {

pub const IPV4_MIN_HEADER_LEN: usize = 20;

pub const IPV4_VERSION: u8 = 4;

pub const IPV4_DESTINATION_OFFSET: usize = 16;

/// What `ipv4_destination` yields for a packet: the destination octets or the
/// error detail.
pub open spec fn ipv4_destination_spec(packet: Seq<u8>) -> Result<Seq<u8>, Seq<char>> {
    if packet.len() < IPV4_MIN_HEADER_LEN {
        Err("packet is too short for IPv4 header: "@ + decimal_text(packet.len()))
    } else if packet[0] / 16 != IPV4_VERSION {
        Err("unsupported packet IP version: "@ + decimal_text((packet[0] / 16) as nat))
    } else if (packet[0] % 16) * 4 < IPV4_MIN_HEADER_LEN || packet.len() < (packet[0] % 16) * 4 {
        Err("invalid IPv4 header length"@)
    } else {
        Ok(packet.subrange(16, 20))
    }
}

/// The destination address of an IPv4 packet.
pub fn ipv4_destination(packet: &[u8]) -> (out: Result<Ipv4Address, BackendError>)
    ensures
        match ipv4_destination_spec(packet@) {
            Ok(o) => out matches Ok(a) && a.0@ == o,
            Err(msg) => out matches Err(e) && command_failed(e, msg),
        },
{
    if packet.len() < IPV4_MIN_HEADER_LEN {
        return Err(failed_with_number("packet is too short for IPv4 header: ", packet.len() as u64));
    }
    let first: u8 = packet[0];
    let version = first >> 4u8;
    proof {
        assert(first >> 4u8 == first / 16) by (bit_vector);
        assert(first & 0x0fu8 == first % 16) by (bit_vector);
    }
    if version != IPV4_VERSION {
        return Err(failed_with_number("unsupported packet IP version: ", version as u64));
    }
    let header_len: usize = ((first & 0x0fu8) as usize) * 4;
    if header_len < IPV4_MIN_HEADER_LEN || packet.len() < header_len {
        return Err(failed("invalid IPv4 header length"));
    }
    let out = Ipv4Address::new(packet[16], packet[17], packet[18], packet[19]);
    proof {
        assert(out.0@ =~= packet@.subrange(16, 20));
    }
    Ok(out)
}

} // verus!
