//! The fixed 60-byte frame header of the custom transport and its codec.
//!
//! Layout: version, message type, flags, a reserved zero byte, the 16-byte
//! source id, the 16-byte destination id and the 24-byte nonce.

use crate::error::{command_failed, failed, failed_with_number, BackendError};
use crate::text::{decimal_text, strip_prefix, strip_prefix_spec};
use vstd::prelude::*;

verus! {

broadcast use vstd::array::group_array_axioms;

pub const FRAME_VERSION: u8 = 1;

pub const FRAME_TYPE_DATA: u8 = 1;

pub const FRAME_TYPE_PROBE: u8 = 2;

pub const FRAME_TYPE_PROBE_RESPONSE: u8 = 3;

pub const HEADER_LEN: usize = 60;

pub const DEVICE_ID_LEN: usize = 16;

pub const NONCE_LEN: usize = 24;

/// The 16-byte identifier of a device inside a frame.
#[derive(Clone, Copy, Debug, PartialEq, Eq, Hash)]
pub struct FrameDeviceId(pub [u8; DEVICE_ID_LEN]);

/// What `uuid::Uuid::parse_str` gives for a text: the 16 bytes of the UUID,
/// or the text of the parse error.
pub uninterp spec fn uuid_parse_str(text: Seq<char>) -> Result<Seq<u8>, Seq<char>>;

/// Parses a UUID in any of the textual forms `uuid::Uuid::parse_str` accepts.
/// The contract only ties the outcome to the named result `uuid_parse_str`.
#[verifier::external_body]
fn parse_uuid(text: &str) -> (out: Result<[u8; 16], String>)
    ensures
        match out {
            Ok(bytes) => uuid_parse_str(text@) == Ok::<Seq<u8>, Seq<char>>(bytes@),
            Err(msg) => uuid_parse_str(text@) == Err::<Seq<u8>, Seq<char>>(msg@),
        },
{
    match uuid::Uuid::parse_str(text) {
        Ok(id) => Ok(*id.as_bytes()),
        Err(error) => Err(error.to_string()),
    }
}

/// What `FrameDeviceId::from_device_id` gives for a device id text.
pub open spec fn device_id_frame_bytes(value: Seq<char>) -> Result<Seq<u8>, Seq<char>> {
    match strip_prefix_spec(value, "dev_"@) {
        None => Err("device ID is missing dev_ prefix"@),
        Some(rest) => uuid_parse_str(rest),
    }
}

impl FrameDeviceId {
    pub fn new(bytes: [u8; DEVICE_ID_LEN]) -> (id: Self)
        ensures
            id.0 == bytes,
    {
        FrameDeviceId(bytes)
    }

    /// The frame id of a device id of the form `dev_<uuid>`.
    pub fn from_device_id(value: &str) -> (out: Result<Self, BackendError>)
        ensures
            match device_id_frame_bytes(value@) {
                Ok(bytes) => out matches Ok(id) && id.0@ == bytes,
                Err(msg) => out matches Err(e) && command_failed(e, msg),
            },
    {
        match strip_prefix(value, "dev_") {
            None => Err(failed("device ID is missing dev_ prefix")),
            Some(encoded) => match parse_uuid(encoded.as_str()) {
                Ok(bytes) => Ok(FrameDeviceId(bytes)),
                Err(msg) => Err(BackendError::CommandFailed(msg)),
            },
        }
    }

    pub fn as_bytes(&self) -> (out: &[u8; DEVICE_ID_LEN])
        ensures
            *out == self.0,
    {
        &self.0
    }
}

/// The decoded fields of a frame header.
#[derive(Clone, Debug, PartialEq, Eq)]
pub struct FrameHeader {
    pub version: u8,
    pub message_type: u8,
    pub flags: u8,
    pub source: FrameDeviceId,
    pub destination: FrameDeviceId,
    pub nonce: [u8; NONCE_LEN],
}

/// A message type that the codec knows.
pub open spec fn known_message_type(t: u8) -> bool {
    t == FRAME_TYPE_DATA || t == FRAME_TYPE_PROBE || t == FRAME_TYPE_PROBE_RESPONSE
}

/// The wire bytes of a header, whatever its fields hold.
pub open spec fn header_bytes(h: FrameHeader) -> Seq<u8> {
    seq![h.version, h.message_type, h.flags, 0u8] + h.source.0@ + h.destination.0@ + h.nonce@
}

impl FrameHeader {
    /// A header the encoder accepts.
    pub open spec fn well_formed(&self) -> bool {
        self.version == FRAME_VERSION && known_message_type(self.message_type) && self.flags == 0
    }

    /// The error detail that `encode` reports for this header, if any.
    pub open spec fn encode_error(&self) -> Option<Seq<char>> {
        if self.version != FRAME_VERSION {
            Some("unsupported frame version: "@ + decimal_text(self.version as nat))
        } else if !known_message_type(self.message_type) {
            Some("unsupported frame message type: "@ + decimal_text(self.message_type as nat))
        } else if self.flags != 0 {
            Some("unsupported frame flags: "@ + decimal_text(self.flags as nat))
        } else {
            None
        }
    }

    pub fn new(
        source: FrameDeviceId,
        destination: FrameDeviceId,
        nonce: [u8; NONCE_LEN],
        message_type: u8,
    ) -> (h: Self)
        ensures
            h.version == FRAME_VERSION,
            h.message_type == message_type,
            h.flags == 0,
            h.source == source,
            h.destination == destination,
            h.nonce == nonce,
    {
        FrameHeader { version: FRAME_VERSION, message_type, flags: 0, source, destination, nonce }
    }

    /// A data header.
    pub fn data(source: FrameDeviceId, destination: FrameDeviceId, nonce: [u8; NONCE_LEN]) -> (h:
        Self)
        ensures
            h.version == FRAME_VERSION,
            h.message_type == FRAME_TYPE_DATA,
            h.flags == 0,
            h.source == source,
            h.destination == destination,
            h.nonce == nonce,
            h.well_formed(),
    {
        Self::new(source, destination, nonce, FRAME_TYPE_DATA)
    }

    /// The 60 wire bytes of the header; refuses a header with an unknown
    /// version, message type or non-zero flags.
    pub fn encode(&self) -> (out: Result<[u8; HEADER_LEN], BackendError>)
        ensures
            match self.encode_error() {
                None => out matches Ok(bytes) && bytes@ == header_bytes(*self),
                Some(msg) => out matches Err(e) && command_failed(e, msg),
            },
    {
        if self.version != FRAME_VERSION {
            return Err(failed_with_number("unsupported frame version: ", self.version as u64));
        }
        if !(self.message_type == FRAME_TYPE_DATA || self.message_type == FRAME_TYPE_PROBE
            || self.message_type == FRAME_TYPE_PROBE_RESPONSE) {
            return Err(
                failed_with_number("unsupported frame message type: ", self.message_type as u64),
            );
        }
        if self.flags != 0 {
            return Err(failed_with_number("unsupported frame flags: ", self.flags as u64));
        }
        let mut output = [0u8; HEADER_LEN];
        output.set(0, self.version);
        output.set(1, self.message_type);
        output.set(2, self.flags);
        output.set(3, 0);
        let mut i: usize = 0;
        while i < DEVICE_ID_LEN
            invariant
                i <= DEVICE_ID_LEN,
                output@.len() == HEADER_LEN,
                output@[0] == self.version,
                output@[1] == self.message_type,
                output@[2] == self.flags,
                output@[3] == 0,
                forall|j: int| 0 <= j < i ==> output@[4 + j] == self.source.0@[j],
                forall|j: int| 0 <= j < i ==> output@[20 + j] == self.destination.0@[j],
            decreases DEVICE_ID_LEN - i,
        {
            output.set(4 + i, self.source.0[i]);
            output.set(20 + i, self.destination.0[i]);
            i = i + 1;
        }
        let mut k: usize = 0;
        while k < NONCE_LEN
            invariant
                k <= NONCE_LEN,
                output@.len() == HEADER_LEN,
                output@[0] == self.version,
                output@[1] == self.message_type,
                output@[2] == self.flags,
                output@[3] == 0,
                forall|j: int| 0 <= j < DEVICE_ID_LEN ==> output@[4 + j] == self.source.0@[j],
                forall|j: int|
                    0 <= j < DEVICE_ID_LEN ==> output@[20 + j] == self.destination.0@[j],
                forall|j: int| 0 <= j < k ==> output@[36 + j] == self.nonce@[j],
            decreases NONCE_LEN - k,
        {
            output.set(36 + k, self.nonce[k]);
            k = k + 1;
        }
        proof {
            assert(output@ =~= header_bytes(*self));
        }
        Ok(output)
    }

    /// The error detail that `decode` reports for `input`, if any.
    pub open spec fn decode_error(input: Seq<u8>) -> Option<Seq<char>> {
        if input.len() < HEADER_LEN {
            Some("malformed frame length: "@ + decimal_text(input.len()))
        } else if input[0] != FRAME_VERSION {
            Some("unsupported frame version: "@ + decimal_text(input[0] as nat))
        } else if !known_message_type(input[1]) {
            Some("unsupported frame message type: "@ + decimal_text(input[1] as nat))
        } else if input[2] != 0 {
            Some("unsupported frame flags: "@ + decimal_text(input[2] as nat))
        } else if input[3] != 0 {
            Some("reserved frame byte must be zero"@)
        } else {
            None
        }
    }

    /// Reads a header from the first 60 bytes of `input`; the rest is ignored.
    pub fn decode(input: &[u8]) -> (out: Result<Self, BackendError>)
        ensures
            match Self::decode_error(input@) {
                None => out matches Ok(h) && header_bytes(h) == input@.take(HEADER_LEN as int)
                    && h.well_formed(),
                Some(msg) => out matches Err(e) && command_failed(e, msg),
            },
    {
        if input.len() < HEADER_LEN {
            return Err(failed_with_number("malformed frame length: ", input.len() as u64));
        }
        if input[0] != FRAME_VERSION {
            return Err(failed_with_number("unsupported frame version: ", input[0] as u64));
        }
        if !(input[1] == FRAME_TYPE_DATA || input[1] == FRAME_TYPE_PROBE || input[1]
            == FRAME_TYPE_PROBE_RESPONSE) {
            return Err(failed_with_number("unsupported frame message type: ", input[1] as u64));
        }
        if input[2] != 0 {
            return Err(failed_with_number("unsupported frame flags: ", input[2] as u64));
        }
        if input[3] != 0 {
            return Err(failed("reserved frame byte must be zero"));
        }
        let mut source = [0u8; DEVICE_ID_LEN];
        let mut destination = [0u8; DEVICE_ID_LEN];
        let mut i: usize = 0;
        while i < DEVICE_ID_LEN
            invariant
                i <= DEVICE_ID_LEN,
                input@.len() >= HEADER_LEN,
                source@.len() == DEVICE_ID_LEN,
                destination@.len() == DEVICE_ID_LEN,
                forall|j: int| 0 <= j < i ==> source@[j] == input@[4 + j],
                forall|j: int| 0 <= j < i ==> destination@[j] == input@[20 + j],
            decreases DEVICE_ID_LEN - i,
        {
            source.set(i, input[4 + i]);
            destination.set(i, input[20 + i]);
            i = i + 1;
        }
        let mut nonce = [0u8; NONCE_LEN];
        let mut k: usize = 0;
        while k < NONCE_LEN
            invariant
                k <= NONCE_LEN,
                input@.len() >= HEADER_LEN,
                nonce@.len() == NONCE_LEN,
                forall|j: int| 0 <= j < k ==> nonce@[j] == input@[36 + j],
            decreases NONCE_LEN - k,
        {
            nonce.set(k, input[36 + k]);
            k = k + 1;
        }
        let header = FrameHeader {
            version: input[0],
            message_type: input[1],
            flags: input[2],
            source: FrameDeviceId(source),
            destination: FrameDeviceId(destination),
            nonce,
        };
        proof {
            assert(header_bytes(header) =~= input@.take(HEADER_LEN as int));
        }
        Ok(header)
    }
}

/// Two headers with the same wire bytes are the same header.
pub proof fn lemma_header_bytes_injective(a: FrameHeader, b: FrameHeader)
    requires
        header_bytes(a) == header_bytes(b),
    ensures
        a == b,
{
    let x = header_bytes(a);
    let y = header_bytes(b);
    assert(a.version == x[0] && b.version == y[0]);
    assert(a.message_type == x[1] && b.message_type == y[1]);
    assert(a.flags == x[2] && b.flags == y[2]);
    assert(a.source.0@ =~= x.subrange(4, 20));
    assert(b.source.0@ =~= y.subrange(4, 20));
    assert(a.destination.0@ =~= x.subrange(20, 36));
    assert(b.destination.0@ =~= y.subrange(20, 36));
    assert(a.nonce@ =~= x.subrange(36, 60));
    assert(b.nonce@ =~= y.subrange(36, 60));
    assert(a.source.0 == b.source.0);
    assert(a.destination.0 == b.destination.0);
    assert(a.nonce == b.nonce);
}

/// Decoding the encoding of a well-formed header gives the header back.
pub proof fn lemma_header_decode_encode(h: FrameHeader)
    requires
        h.well_formed(),
    ensures
        h.encode_error() is None,
        FrameHeader::decode_error(header_bytes(h)) is None,
        header_bytes(h).len() == HEADER_LEN,
        forall|d: FrameHeader|
            header_bytes(d) == header_bytes(h).take(HEADER_LEN as int) ==> d == h,
{
    let b = header_bytes(h);
    assert(b.len() == HEADER_LEN);
    assert(b[0] == h.version && b[1] == h.message_type && b[2] == h.flags && b[3] == 0);
    assert(b.take(HEADER_LEN as int) =~= b);
    assert forall|d: FrameHeader| header_bytes(d) == b.take(HEADER_LEN as int) implies d == h by {
        lemma_header_bytes_injective(d, h);
    }
}

/// Encoding a decoded header gives back the 60 bytes it was read from.
pub proof fn lemma_header_encode_decode(input: Seq<u8>, h: FrameHeader)
    requires
        FrameHeader::decode_error(input) is None,
        header_bytes(h) == input.take(HEADER_LEN as int),
    ensures
        h.well_formed(),
        h.encode_error() is None,
        header_bytes(h) == input.take(HEADER_LEN as int),
{
    assert(header_bytes(h)[0] == h.version);
    assert(header_bytes(h)[1] == h.message_type);
    assert(header_bytes(h)[2] == h.flags);
}

/// A frame: its header and the sealed payload that follows it.
#[derive(Clone, Debug, PartialEq, Eq)]
pub struct EncodedFrame {
    pub header: FrameHeader,
    pub ciphertext: Vec<u8>,
}

impl EncodedFrame {
    /// The header bytes followed by the ciphertext.
    pub fn encode(&self) -> (out: Result<Vec<u8>, BackendError>)
        ensures
            match self.header.encode_error() {
                None => out matches Ok(bytes) && bytes@ == header_bytes(self.header)
                    + self.ciphertext@,
                Some(msg) => out matches Err(e) && command_failed(e, msg),
            },
    {
        let header = self.header.encode()?;
        let mut output: Vec<u8> = Vec::with_capacity(HEADER_LEN);
        let mut i: usize = 0;
        while i < HEADER_LEN
            invariant
                i <= HEADER_LEN,
                header@.len() == HEADER_LEN,
                output@ == header@.take(i as int),
            decreases HEADER_LEN - i,
        {
            output.push(header[i]);
            i = i + 1;
            proof {
                assert(output@ =~= header@.take(i as int));
            }
        }
        let mut k: usize = 0;
        while k < self.ciphertext.len()
            invariant
                k <= self.ciphertext.len(),
                header@.len() == HEADER_LEN,
                output@ == header@ + self.ciphertext@.take(k as int),
            decreases self.ciphertext.len() - k,
        {
            output.push(self.ciphertext[k]);
            k = k + 1;
            proof {
                assert(output@ =~= header@ + self.ciphertext@.take(k as int));
            }
        }
        proof {
            assert(header@.take(HEADER_LEN as int) =~= header@);
            assert(self.ciphertext@.take(self.ciphertext@.len() as int) =~= self.ciphertext@);
        }
        Ok(output)
    }

    /// Splits a frame into its header and the bytes after it.
    pub fn decode(input: &[u8]) -> (out: Result<Self, BackendError>)
        ensures
            match FrameHeader::decode_error(input@) {
                None => out matches Ok(f) && header_bytes(f.header) == input@.take(
                    HEADER_LEN as int,
                ) && f.header.well_formed() && f.ciphertext@ == input@.skip(HEADER_LEN as int),
                Some(msg) => out matches Err(e) && command_failed(e, msg),
            },
    {
        let header = FrameHeader::decode(input)?;
        let mut ciphertext: Vec<u8> = Vec::new();
        let mut i: usize = HEADER_LEN;
        while i < input.len()
            invariant
                HEADER_LEN <= i <= input.len(),
                ciphertext@ == input@.subrange(HEADER_LEN as int, i as int),
            decreases input.len() - i,
        {
            ciphertext.push(input[i]);
            i = i + 1;
            proof {
                assert(ciphertext@ =~= input@.subrange(HEADER_LEN as int, i as int));
            }
        }
        proof {
            assert(ciphertext@ =~= input@.skip(HEADER_LEN as int));
        }
        Ok(EncodedFrame { header, ciphertext })
    }
}

/// Decoding an encoded frame gives back its header and ciphertext.
pub proof fn lemma_frame_decode_encode(f: EncodedFrame, bytes: Seq<u8>)
    requires
        f.header.well_formed(),
        bytes == header_bytes(f.header) + f.ciphertext@,
    ensures
        FrameHeader::decode_error(bytes) is None,
        bytes.take(HEADER_LEN as int) == header_bytes(f.header),
        bytes.skip(HEADER_LEN as int) == f.ciphertext@,
{
    let hb = header_bytes(f.header);
    assert(hb.len() == HEADER_LEN);
    assert(bytes.take(HEADER_LEN as int) =~= hb);
    assert(bytes.skip(HEADER_LEN as int) =~= f.ciphertext@);
    assert(bytes[0] == hb[0] && bytes[1] == hb[1] && bytes[2] == hb[2] && bytes[3] == hb[3]);
}

} // verus!
