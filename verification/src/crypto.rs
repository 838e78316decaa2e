//! Peer credentials and the per-peer packet sealing session.
//!
//! The primitives come from outside crates behind trusted items: X25519
//! (`x25519-dalek`), HKDF-SHA256 (`hkdf`, `sha2`), XChaCha20-Poly1305
//! (`chacha20poly1305`) and unpadded URL-safe base64 (`base64`).

use crate::bytes::{append_bytes, append_sorted_pair, bytes_eq, sorted_pair, lemma_sorted_pair_symmetric};
use crate::error::{command_failed, failed, failed_with_number, BackendError};
use crate::frame::{
    header_bytes, EncodedFrame, FrameDeviceId, FrameHeader, lemma_header_bytes_injective,
    FRAME_TYPE_DATA, FRAME_VERSION, HEADER_LEN, NONCE_LEN,
};
use crate::nonce::{
    accept_spec, counter_of, nonce_bytes, ReplayWindow, SendNonceState, DIRECTION_PREFIX_LEN,
    SESSION_SALT_LEN,
};
use crate::text::{decimal_text, strip_prefix, strip_prefix_spec};
use vstd::prelude::*;
use vstd::string::StringSliceAdditionalSpecFns;
use base64::Engine as _;
use chacha20poly1305::aead::{Aead, KeyInit, Payload};

verus! {

broadcast use vstd::array::group_array_axioms;

/// The prefix of an encoded public credential.
pub const PUBLIC_CREDENTIAL_PREFIX: &'static str = "tfpk1_";

pub const IDENTITY_SCHEME: &'static str = "x25519";

pub const SESSION_SALT: &'static str = "tf-scale/custom/v1/session";

pub const SESSION_INFO_PREFIX: &'static str = "tf-scale/custom/v1/aead-key";

pub const DIRECTION_INFO_PREFIX: &'static str = "tf-scale/custom/v1/direction";

// ---------------------------------------------------------------------------
// base64 (URL-safe alphabet, no padding)

/// What `URL_SAFE_NO_PAD.encode` gives for a byte sequence.
pub uninterp spec fn base64url_encode(bytes: Seq<u8>) -> Seq<char>;

/// What `URL_SAFE_NO_PAD.decode` gives for a text: the bytes, or the text of
/// the decode error.
pub uninterp spec fn base64url_decode(text: Seq<char>) -> Result<Seq<u8>, Seq<char>>;

/// Encodes bytes with `base64::engine::general_purpose::URL_SAFE_NO_PAD`; the
/// output is the named encoding.
#[verifier::external_body]
pub(crate) fn base64_encode(bytes: &[u8]) -> (out: String)
    requires
        bytes@.len() <= usize::MAX / 2,
    ensures
        out@ == base64url_encode(bytes@),
{
    base64::engine::general_purpose::URL_SAFE_NO_PAD.encode(bytes)
}

/// Decodes text with `base64::engine::general_purpose::URL_SAFE_NO_PAD`; the
/// outcome is the named result, the error as its `Display` text. Also claims
/// the engine's documented round trip: the encoding of some bytes decodes to
/// those bytes.
#[verifier::external_body]
pub(crate) fn base64_decode(text: &str) -> (out: Result<Vec<u8>, String>)
    ensures
        match out {
            Ok(bytes) => base64url_decode(text@) == Ok::<Seq<u8>, Seq<char>>(bytes@),
            Err(msg) => base64url_decode(text@) == Err::<Seq<u8>, Seq<char>>(msg@),
        },
        forall|bytes: Seq<u8>|
            #[trigger] base64url_encode(bytes) == text@ ==> out is Ok && out->Ok_0@ == bytes,
{
    base64::engine::general_purpose::URL_SAFE_NO_PAD.decode(text.as_bytes()).map_err(
        |error| error.to_string(),
    )
}

// ---------------------------------------------------------------------------
// X25519

/// The public key `x25519_dalek::PublicKey::from(&StaticSecret::from(private))`.
pub uninterp spec fn x25519_public(private: Seq<u8>) -> Seq<u8>;

/// The shared secret `StaticSecret::from(private).diffie_hellman(&PublicKey::from(public))`.
pub uninterp spec fn x25519_shared(private: Seq<u8>, public: Seq<u8>) -> Seq<u8>;

/// The public key of a private key (`x25519_dalek`).
#[verifier::external_body]
pub(crate) fn public_key_of(private: [u8; 32]) -> (out: [u8; 32])
    ensures
        out@ == x25519_public(private@),
{
    let secret = x25519_dalek::StaticSecret::from(private);
    x25519_dalek::PublicKey::from(&secret).to_bytes()
}

/// The X25519 shared secret (`StaticSecret::diffie_hellman`). Besides naming
/// the result, claims the Diffie-Hellman agreement that the crate documents:
/// the peer holding the private key behind `public` computes the same secret
/// from its own private key and the public key of `private`.
#[verifier::external_body]
fn diffie_hellman(private: [u8; 32], public: [u8; 32]) -> (out: [u8; 32])
    ensures
        out@ == x25519_shared(private@, public@),
        forall|other: Seq<u8>|
            other.len() == 32 && #[trigger] x25519_public(other) == public@ ==> out@
                == x25519_shared(other, x25519_public(private@)),
{
    let secret = x25519_dalek::StaticSecret::from(private);
    let peer = x25519_dalek::PublicKey::from(public);
    secret.diffie_hellman(&peer).to_bytes()
}

// ---------------------------------------------------------------------------
// HKDF-SHA256

/// The first `len` bytes of HKDF-SHA256 output keying material
/// (`Hkdf::<Sha256>::new(Some(salt), secret).expand(info, ..)`).
pub uninterp spec fn hkdf_sha256(secret: Seq<u8>, salt: Seq<u8>, info: Seq<u8>, len: nat) -> Seq<u8>;

/// HKDF-SHA256 extract-and-expand into `N` bytes. `expand` fails only when
/// more than 255 hash lengths are asked for, which `requires` rules out.
#[verifier::external_body]
fn hkdf_expand<const N: usize>(secret: &[u8; 32], salt: &[u8], info: &[u8]) -> (out: [u8; N])
    requires
        N <= 255 * 32,
    ensures
        out@ == hkdf_sha256(secret@, salt@, info@, N as nat),
{
    let hkdf = hkdf::Hkdf::<sha2::Sha256>::new(Some(salt), secret);
    let mut output = [0u8; N];
    hkdf.expand(info, &mut output).expect("length is within the HKDF limit");
    output
}

// ---------------------------------------------------------------------------
// XChaCha20-Poly1305

/// The ciphertext (with tag) of XChaCha20-Poly1305 for `key`, `nonce`, message and associated data.
pub uninterp spec fn aead_seal(key: Seq<u8>, nonce: Seq<u8>, msg: Seq<u8>, aad: Seq<u8>) -> Seq<u8>;

/// The plaintext that XChaCha20-Poly1305 decryption yields, or `None` when authentication fails.
pub uninterp spec fn aead_open(key: Seq<u8>, nonce: Seq<u8>, ciphertext: Seq<u8>, aad: Seq<u8>) -> Option<
    Seq<u8>,
>;

/// The largest message `chacha20poly1305` encrypts: fewer than `u32::MAX` blocks of 64 bytes.
pub open spec fn aead_message_fits(len: nat) -> bool {
    len / 64 < 4294967295
}

/// `XChaCha20Poly1305::encrypt`. It fails exactly when the message has
/// `u32::MAX` or more 64-byte blocks (the crate's only error there). Claims the
/// named ciphertext, that it is the message's length plus the 16-byte tag
/// that `encrypt` appends, and that decrypting it with the same key, nonce and
/// associated data gives the message back (AEAD correctness). Also claims
/// that the tag is fixed by the rest: `decrypt` recomputes the Poly1305 tag
/// over the associated data and the ciphertext body with the same key and
/// nonce and compares it with the tag it was given, so a ciphertext of the
/// same length with the same body opens only if it is this ciphertext.
#[verifier::external_body]
fn aead_encrypt(key: &[u8; 32], nonce: &[u8; 24], msg: &[u8], aad: &[u8]) -> (out: Result<Vec<u8>, ()>)
    ensures
        out is Ok <==> aead_message_fits(msg@.len()),
        out matches Ok(c) ==> c@.len() == msg@.len() + 16,
        out matches Ok(c) ==> c@ == aead_seal(key@, nonce@, msg@, aad@) && aead_open(
            key@,
            nonce@,
            c@,
            aad@,
        ) == Some(msg@),
        out matches Ok(c) ==> forall|c2: Seq<u8>|
            #[trigger] aead_open(key@, nonce@, c2, aad@) is Some && c2.len() == c@.len() && c2.take(
                msg@.len() as int,
            ) == c@.take(msg@.len() as int) ==> c2 == c@,
{
    let cipher = <chacha20poly1305::XChaCha20Poly1305 as KeyInit>::new(key.into());
    cipher.encrypt(chacha20poly1305::XNonce::from_slice(nonce), Payload { msg, aad }).map_err(|_| ())
}

/// `XChaCha20Poly1305::decrypt`: the named plaintext, `Err` when it is `None`.
#[verifier::external_body]
fn aead_decrypt(key: &[u8; 32], nonce: &[u8; 24], ciphertext: &[u8], aad: &[u8]) -> (out: Result<
    Vec<u8>,
    (),
>)
    ensures
        match aead_open(key@, nonce@, ciphertext@, aad@) {
            Some(p) => out matches Ok(q) && q@ == p,
            None => out is Err,
        },
{
    let cipher = <chacha20poly1305::XChaCha20Poly1305 as KeyInit>::new(key.into());
    cipher.decrypt(chacha20poly1305::XNonce::from_slice(nonce), Payload { msg: ciphertext, aad })
        .map_err(|_| ())
}

// ---------------------------------------------------------------------------
// Credentials

/// The text of a key: unpadded URL-safe base64.
pub fn encode_key(bytes: [u8; 32]) -> (out: String)
    ensures
        out@ == base64url_encode(bytes@),
{
    base64_encode(&bytes)
}

/// The public credential text of a public key: `tfpk1_` and the key's base64.
pub open spec fn public_credential_text(key: Seq<u8>) -> Seq<char> {
    PUBLIC_CREDENTIAL_PREFIX@ + base64url_encode(key)
}

pub fn encode_public_credential(bytes: [u8; 32]) -> (out: String)
    ensures
        out@ == public_credential_text(bytes@),
{
    let key = encode_key(bytes);
    crate::text::concat2(PUBLIC_CREDENTIAL_PREFIX, key.as_str())
}

/// Decodes base64 key material.
pub fn decode_base64_key(value: &str) -> (out: Result<Vec<u8>, BackendError>)
    ensures
        match base64url_decode(value@) {
            Ok(bytes) => out matches Ok(v) && v@ == bytes,
            Err(msg) => out matches Err(e) && command_failed(e, msg),
        },
        forall|bytes: Seq<u8>|
            #[trigger] base64url_encode(bytes) == value@ ==> (out matches Ok(v) && v@ == bytes),
{
    match base64_decode(value) {
        Ok(bytes) => Ok(bytes),
        Err(msg) => Err(BackendError::CommandFailed(msg)),
    }
}

fn to_key_array(bytes: &Vec<u8>) -> (out: [u8; 32])
    requires
        bytes@.len() == 32,
    ensures
        out@ == bytes@,
{
    let mut out = [0u8; 32];
    let mut i: usize = 0;
    while i < 32
        invariant
            i <= 32,
            bytes@.len() == 32,
            out@.len() == 32,
            forall|j: int| 0 <= j < i ==> out@[j] == bytes@[j],
        decreases 32 - i,
    {
        out.set(i, bytes[i]);
        i = i + 1;
    }
    proof {
        assert(out@ =~= bytes@);
    }
    out
}

/// What `decode_key` yields for a text: the 32 key bytes or the error detail.
pub open spec fn decode_key_spec(value: Seq<char>) -> Result<Seq<u8>, Seq<char>> {
    match base64url_decode(value) {
        Err(msg) => Err(msg),
        Ok(bytes) => if bytes.len() == 32 {
            Ok(bytes)
        } else {
            Err("expected 32-byte key, got "@ + decimal_text(bytes.len()))
        },
    }
}

/// A 32-byte key from its base64 text.
pub fn decode_key(value: &str) -> (out: Result<[u8; 32], BackendError>)
    ensures
        match decode_key_spec(value@) {
            Ok(bytes) => out matches Ok(k) && k@ == bytes,
            Err(msg) => out matches Err(e) && command_failed(e, msg),
        },
        forall|key: Seq<u8>|
            key.len() == 32 && #[trigger] base64url_encode(key) == value@ ==> (out matches Ok(k)
                && k@ == key),
{
    let bytes = decode_base64_key(value)?;
    if bytes.len() != 32 {
        return Err(failed_with_number("expected 32-byte key, got ", bytes.len() as u64));
    }
    Ok(to_key_array(&bytes))
}

/// What `decode_public_credential` yields for a credential text.
pub open spec fn decode_public_credential_spec(value: Seq<char>) -> Result<Seq<u8>, Seq<char>> {
    match strip_prefix_spec(value, PUBLIC_CREDENTIAL_PREFIX@) {
        None => Err("unsupported peer credential prefix"@),
        Some(encoded) => match base64url_decode(encoded) {
            Err(msg) => Err(msg),
            Ok(bytes) => if bytes.len() == 32 {
                Ok(bytes)
            } else {
                Err("peer credential has invalid key length: "@ + decimal_text(bytes.len()))
            },
        },
    }
}

/// The public key inside a `tfpk1_` credential.
pub fn decode_public_credential(value: &str) -> (out: Result<[u8; 32], BackendError>)
    ensures
        match decode_public_credential_spec(value@) {
            Ok(bytes) => out matches Ok(k) && k@ == bytes,
            Err(msg) => out matches Err(e) && command_failed(e, msg),
        },
        forall|key: Seq<u8>|
            key.len() == 32 && #[trigger] public_credential_text(key) == value@ ==> (out matches Ok(
                k,
            ) && k@ == key),
{
    proof {
        assert forall|key: Seq<u8>| key.len() == 32 && #[trigger] public_credential_text(key) == value@ implies
            strip_prefix_spec(value@, PUBLIC_CREDENTIAL_PREFIX@) == Some(base64url_encode(key)) by {
            assert(value@.take(PUBLIC_CREDENTIAL_PREFIX@.len() as int) =~= PUBLIC_CREDENTIAL_PREFIX@);
            assert(value@.skip(PUBLIC_CREDENTIAL_PREFIX@.len() as int) =~= base64url_encode(key));
        }
    }
    let encoded = match strip_prefix(value, PUBLIC_CREDENTIAL_PREFIX) {
        Some(rest) => rest,
        None => return Err(failed("unsupported peer credential prefix")),
    };
    let bytes = decode_base64_key(encoded.as_str())?;
    if bytes.len() != 32 {
        return Err(
            failed_with_number("peer credential has invalid key length: ", bytes.len() as u64),
        );
    }
    Ok(to_key_array(&bytes))
}

/// Checks that a credential is a `tfpk1_` credential holding a 32-byte key.
pub fn validate_public_credential(value: &str) -> (out: Result<(), BackendError>)
    ensures
        match decode_public_credential_spec(value@) {
            Ok(_) => out is Ok,
            Err(msg) => out matches Err(e) && command_failed(e, msg),
        },
{
    decode_public_credential(value)?;
    Ok(())
}

/// The credential that a private key's public key has.
pub fn derive_public_credential(private_key: &str) -> (out: Result<String, BackendError>)
    ensures
        match decode_key_spec(private_key@) {
            Ok(k) => out matches Ok(c) && c@ == public_credential_text(x25519_public(k)),
            Err(msg) => out matches Err(e) && command_failed(e, msg),
        },
{
    let private = decode_key(private_key)?;
    let public = public_key_of(private);
    Ok(encode_public_credential(public))
}

// ---------------------------------------------------------------------------
// Session key schedule

/// The HKDF info that binds the session key to both ids and both credentials.
pub open spec fn session_info(
    local_credential: Seq<char>,
    peer_credential: Seq<char>,
    local_id: Seq<u8>,
    peer_id: Seq<u8>,
) -> Seq<u8> {
    SESSION_INFO_PREFIX.spec_bytes() + sorted_pair(local_id, peer_id) + sorted_pair(
        vstd::utf8::encode_utf8(local_credential),
        vstd::utf8::encode_utf8(peer_credential),
    )
}

/// The HKDF info of the nonce direction prefix from `source` to `destination`.
pub open spec fn direction_info(source: Seq<u8>, destination: Seq<u8>) -> Seq<u8> {
    DIRECTION_INFO_PREFIX.spec_bytes() + source + destination
}

/// The AEAD key of a session.
pub open spec fn session_key_spec(
    shared: Seq<u8>,
    local_credential: Seq<char>,
    peer_credential: Seq<char>,
    local_id: Seq<u8>,
    peer_id: Seq<u8>,
) -> Seq<u8> {
    hkdf_sha256(
        shared,
        SESSION_SALT.spec_bytes(),
        session_info(local_credential, peer_credential, local_id, peer_id),
        32,
    )
}

/// The nonce prefix of frames sent from `source` to `destination`.
pub open spec fn direction_prefix_spec(shared: Seq<u8>, source: Seq<u8>, destination: Seq<u8>) -> Seq<
    u8,
> {
    hkdf_sha256(shared, SESSION_SALT.spec_bytes(), direction_info(source, destination), 8)
}

fn derive_session_key(
    shared_secret: &[u8; 32],
    local_public_credential: &str,
    peer_public_credential: &str,
    local_id: FrameDeviceId,
    peer_id: FrameDeviceId,
) -> (out: [u8; 32])
    ensures
        out@ == session_key_spec(
            shared_secret@,
            local_public_credential@,
            peer_public_credential@,
            local_id.0@,
            peer_id.0@,
        ),
{
    let mut info: Vec<u8> = Vec::new();
    append_bytes(&mut info, SESSION_INFO_PREFIX.as_bytes());
    append_sorted_pair(&mut info, local_id.as_bytes(), peer_id.as_bytes());
    append_sorted_pair(
        &mut info,
        local_public_credential.as_bytes(),
        peer_public_credential.as_bytes(),
    );
    proof {
        assert(info@ =~= session_info(
            local_public_credential@,
            peer_public_credential@,
            local_id.0@,
            peer_id.0@,
        ));
    }
    hkdf_expand::<32>(shared_secret, SESSION_SALT.as_bytes(), info.as_slice())
}

fn derive_direction_prefix(shared_secret: &[u8; 32], source: FrameDeviceId, destination: FrameDeviceId) -> (out:
    [u8; 8])
    ensures
        out@ == direction_prefix_spec(shared_secret@, source.0@, destination.0@),
{
    let mut info: Vec<u8> = Vec::new();
    append_bytes(&mut info, DIRECTION_INFO_PREFIX.as_bytes());
    append_bytes(&mut info, source.as_bytes());
    append_bytes(&mut info, destination.as_bytes());
    hkdf_expand::<8>(shared_secret, SESSION_SALT.as_bytes(), info.as_slice())
}

// ---------------------------------------------------------------------------
// Session

/// A message opened from a frame: its message type and plaintext.
#[derive(Clone, Debug, PartialEq, Eq)]
pub struct OpenedMessage {
    pub message_type: u8,
    pub plaintext: Vec<u8>,
}

/// The sealing state shared with one peer. The AEAD key is kept as bytes; the
/// cipher is built from it for each frame.
#[derive(Clone, Debug)]
pub struct PeerCryptoSession {
    pub local_id: FrameDeviceId,
    pub peer_id: FrameDeviceId,
    pub session_key: [u8; 32],
    pub send_nonces: SendNonceState,
    pub receive_window: ReplayWindow,
    pub receive_direction_prefix: [u8; 8],
}

/// The wire bytes of the next frame a session seals: header, then the AEAD
/// ciphertext of the plaintext with the header as associated data.
pub open spec fn sealed_frame(s: PeerCryptoSession, message_type: u8, plaintext: Seq<u8>) -> Seq<u8> {
    let nonce = nonce_bytes(
        s.send_nonces.direction_prefix@,
        s.send_nonces.session_salt@,
        s.send_nonces.counter,
    );
    let header = seq![FRAME_VERSION, message_type, 0u8, 0u8] + s.local_id.0@ + s.peer_id.0@ + nonce;
    header + aead_seal(s.session_key@, nonce, plaintext, header)
}

/// `bad` is `frame` with its authentication tag (its last 16 bytes) changed
/// and every byte before the tag kept.
pub open spec fn tag_changed(frame: Seq<u8>, bad: Seq<u8>) -> bool {
    &&& frame.len() >= HEADER_LEN + 16
    &&& bad.len() == frame.len()
    &&& bad.take(frame.len() - 16) == frame.take(frame.len() - 16)
    &&& bad != frame
}

/// Changing one byte of a frame's tag changes the tag only.
pub proof fn lemma_tag_byte_change(frame: Seq<u8>, i: int, b: u8)
    requires
        frame.len() >= HEADER_LEN + 16,
        frame.len() - 16 <= i < frame.len(),
        b != frame[i],
    ensures
        tag_changed(frame, frame.update(i, b)),
{
    assert(frame.update(i, b).take(frame.len() - 16) =~= frame.take(frame.len() - 16));
    assert(frame.update(i, b)[i] != frame[i]);
}

/// What `open_message` yields for a frame: the message type and plaintext, or
/// the error detail.
pub open spec fn open_outcome(s: PeerCryptoSession, frame: Seq<u8>) -> Result<(u8, Seq<u8>), Seq<char>> {
    match FrameHeader::decode_error(frame) {
        Some(msg) => Err(msg),
        None => {
            let nonce = frame.subrange(36, 60);
            if frame.subrange(4, 20) != s.peer_id.0@ {
                Err("frame source does not match peer session"@)
            } else if frame.subrange(20, 36) != s.local_id.0@ {
                Err("frame destination does not match local session"@)
            } else if frame.subrange(36, 44) != s.receive_direction_prefix@ {
                Err("frame nonce direction does not match peer session"@)
            } else {
                match aead_open(s.session_key@, nonce, frame.skip(HEADER_LEN as int), frame.take(HEADER_LEN as int)) {
                    None => Err("packet authentication failed"@),
                    Some(plaintext) => match accept_spec(s.receive_window, counter_of(nonce)) {
                        Err(msg) => Err(msg),
                        Ok(_) => Ok((frame[1], plaintext)),
                    },
                }
            }
        },
    }
}

/// The session built for `local_id` talking to `peer_id`, given the shared secret.
pub open spec fn session_fields_match(
    s: PeerCryptoSession,
    shared: Seq<u8>,
    local_credential: Seq<char>,
    peer_credential: Seq<char>,
    local_id: FrameDeviceId,
    peer_id: FrameDeviceId,
) -> bool {
    &&& s.local_id == local_id
    &&& s.peer_id == peer_id
    &&& s.session_key@ == session_key_spec(shared, local_credential, peer_credential, local_id.0@, peer_id.0@)
    &&& s.send_nonces.direction_prefix@ == direction_prefix_spec(shared, local_id.0@, peer_id.0@)
    &&& s.send_nonces.counter == 0
    &&& s.receive_window == ReplayWindow { highest: None, seen: 0 }
    &&& s.receive_direction_prefix@ == direction_prefix_spec(shared, peer_id.0@, local_id.0@)
}

/// `receiver` holds the keys that open what `sender` seals: the same AEAD key,
/// swapped ids, and the sender's nonce direction as its receive direction.
pub open spec fn paired(sender: PeerCryptoSession, receiver: PeerCryptoSession) -> bool {
    &&& sender.local_id == receiver.peer_id
    &&& sender.peer_id == receiver.local_id
    &&& sender.session_key == receiver.session_key
    &&& sender.send_nonces.direction_prefix == receiver.receive_direction_prefix
}

/// Two sessions set up from one shared secret, with ids and credentials
/// swapped, can each open what the other seals.
pub proof fn lemma_matching_sessions_are_paired(
    left: PeerCryptoSession,
    right: PeerCryptoSession,
    shared: Seq<u8>,
    left_credential: Seq<char>,
    right_credential: Seq<char>,
    left_id: FrameDeviceId,
    right_id: FrameDeviceId,
)
    requires
        session_fields_match(left, shared, left_credential, right_credential, left_id, right_id),
        session_fields_match(right, shared, right_credential, left_credential, right_id, left_id),
    ensures
        paired(left, right),
        paired(right, left),
{
    lemma_sorted_pair_symmetric(left_id.0@, right_id.0@);
    lemma_sorted_pair_symmetric(
        vstd::utf8::encode_utf8(left_credential),
        vstd::utf8::encode_utf8(right_credential),
    );
    assert(session_info(left_credential, right_credential, left_id.0@, right_id.0@) == session_info(
        right_credential,
        left_credential,
        right_id.0@,
        left_id.0@,
    ));
    assert(left.session_key@ == right.session_key@);
    assert(left.send_nonces.direction_prefix@ == right.receive_direction_prefix@);
    assert(right.send_nonces.direction_prefix@ == left.receive_direction_prefix@);
    assert(left.session_key =~= right.session_key) by {
        assert forall|i: int| 0 <= i < 32 implies left.session_key[i] == right.session_key[i] by {
            assert(left.session_key@[i] == right.session_key@[i]);
        }
    }
    assert(left.send_nonces.direction_prefix =~= right.receive_direction_prefix) by {
        assert forall|i: int| 0 <= i < 8 implies left.send_nonces.direction_prefix[i]
            == right.receive_direction_prefix[i] by {
            assert(left.send_nonces.direction_prefix@[i] == right.receive_direction_prefix@[i]);
        }
    }
    assert(right.send_nonces.direction_prefix =~= left.receive_direction_prefix) by {
        assert forall|i: int| 0 <= i < 8 implies right.send_nonces.direction_prefix[i]
            == left.receive_direction_prefix[i] by {
            assert(right.send_nonces.direction_prefix@[i] == left.receive_direction_prefix@[i]);
        }
    }
}

/// A sealed frame opens only at the session it is addressed to: a session
/// that opens it has the sealing device as its peer, is the device the frame
/// is for, and expects the sender's nonce direction. Any other session
/// refuses it.
pub proof fn lemma_frame_opens_only_at_addressee(
    sender: PeerCryptoSession,
    message_type: u8,
    plaintext: Seq<u8>,
    receiver: PeerCryptoSession,
)
    requires
        open_outcome(receiver, sealed_frame(sender, message_type, plaintext)) is Ok,
    ensures
        receiver.peer_id == sender.local_id,
        receiver.local_id == sender.peer_id,
        receiver.receive_direction_prefix == sender.send_nonces.direction_prefix,
{
    let frame = sealed_frame(sender, message_type, plaintext);
    assert(frame.subrange(4, 20) =~= sender.local_id.0@);
    assert(frame.subrange(20, 36) =~= sender.peer_id.0@);
    assert(frame.subrange(36, 44) =~= sender.send_nonces.direction_prefix@);
    assert(receiver.peer_id.0 =~= sender.local_id.0) by {
        assert forall|i: int| 0 <= i < 16 implies receiver.peer_id.0[i] == sender.local_id.0[i] by {
            assert(receiver.peer_id.0@[i] == sender.local_id.0@[i]);
        }
    }
    assert(receiver.local_id.0 =~= sender.peer_id.0) by {
        assert forall|i: int| 0 <= i < 16 implies receiver.local_id.0[i] == sender.peer_id.0[i] by {
            assert(receiver.local_id.0@[i] == sender.peer_id.0@[i]);
        }
    }
    assert(receiver.receive_direction_prefix =~= sender.send_nonces.direction_prefix) by {
        assert forall|i: int| 0 <= i < 8 implies receiver.receive_direction_prefix[i]
            == sender.send_nonces.direction_prefix[i] by {
            assert(receiver.receive_direction_prefix@[i] == sender.send_nonces.direction_prefix@[i]);
        }
    }
}

/// After a frame opens, the same frame does not open again: its nonce is now
/// refused by the replay window.
pub proof fn lemma_opened_frame_is_not_reopened(s: PeerCryptoSession, frame: Seq<u8>)
    requires
        open_outcome(s, frame) is Ok,
    ensures
        open_outcome(
            PeerCryptoSession {
                receive_window: accept_spec(s.receive_window, counter_of(frame.subrange(36, 60)))->Ok_0,
                ..s
            },
            frame,
        ) is Err,
{
    let c = counter_of(frame.subrange(36, 60));
    crate::nonce::lemma_accept_keeps_refusals(s.receive_window, c, c);
    crate::nonce::lemma_refused_is_rejected(accept_spec(s.receive_window, c)->Ok_0, c);
}

impl PeerCryptoSession {
    /// Sets up the session from the local private key and both credentials,
    /// with the given session salt for the nonces it sends. It fails only
    /// where the peer's credential cannot be read.
    pub fn with_salt(
        local_private_key: [u8; 32],
        local_public_credential: &str,
        peer_public_credential: &str,
        local_id: FrameDeviceId,
        peer_id: FrameDeviceId,
        session_salt: [u8; SESSION_SALT_LEN],
    ) -> (out: Result<Self, BackendError>)
        ensures
            match decode_public_credential_spec(peer_public_credential@) {
                Err(msg) => out matches Err(e) && command_failed(e, msg),
                Ok(peer_key) => (out matches Ok(s) && s.send_nonces.session_salt == session_salt && session_fields_match(
                    s,
                    x25519_shared(local_private_key@, peer_key),
                    local_public_credential@,
                    peer_public_credential@,
                    local_id,
                    peer_id,
                )),
            },
            forall|peer_private: Seq<u8>|
                peer_private.len() == 32 && #[trigger] x25519_public(peer_private)
                    == decode_public_credential_spec(peer_public_credential@)->Ok_0
                    && decode_public_credential_spec(peer_public_credential@) is Ok && out is Ok
                    ==> session_fields_match(
                    out->Ok_0,
                    x25519_shared(peer_private, x25519_public(local_private_key@)),
                    local_public_credential@,
                    peer_public_credential@,
                    local_id,
                    peer_id,
                ),
    {
        let peer_key = decode_public_credential(peer_public_credential)?;
        let shared_secret = diffie_hellman(local_private_key, peer_key);
        let session_key = derive_session_key(
            &shared_secret,
            local_public_credential,
            peer_public_credential,
            local_id,
            peer_id,
        );
        let send_direction_prefix = derive_direction_prefix(&shared_secret, local_id, peer_id);
        let receive_direction_prefix = derive_direction_prefix(&shared_secret, peer_id, local_id);
        Ok(PeerCryptoSession {
            local_id,
            peer_id,
            session_key,
            send_nonces: SendNonceState::with_salt(send_direction_prefix, session_salt),
            receive_window: ReplayWindow { highest: None, seen: 0 },
            receive_direction_prefix,
        })
    }

    /// Sets up the session from the local private key and both credentials,
    /// with a random session salt.
    pub fn new(
        local_private_key: [u8; 32],
        local_public_credential: &str,
        peer_public_credential: &str,
        local_id: FrameDeviceId,
        peer_id: FrameDeviceId,
    ) -> (out: Result<Self, BackendError>)
        ensures
            match decode_public_credential_spec(peer_public_credential@) {
                Err(msg) => out matches Err(e) && command_failed(e, msg),
                Ok(peer_key) => (out matches Ok(s) ==> session_fields_match(
                    s,
                    x25519_shared(local_private_key@, peer_key),
                    local_public_credential@,
                    peer_public_credential@,
                    local_id,
                    peer_id,
                )) && (out matches Err(e) ==> e is CommandFailed),
            },
            forall|peer_private: Seq<u8>|
                peer_private.len() == 32 && #[trigger] x25519_public(peer_private)
                    == decode_public_credential_spec(peer_public_credential@)->Ok_0
                    && decode_public_credential_spec(peer_public_credential@) is Ok && out is Ok
                    ==> session_fields_match(
                    out->Ok_0,
                    x25519_shared(peer_private, x25519_public(local_private_key@)),
                    local_public_credential@,
                    peer_public_credential@,
                    local_id,
                    peer_id,
                ),
    {
        decode_public_credential(peer_public_credential)?;
        let session_salt = match crate::bytes::random_bytes::<SESSION_SALT_LEN>() {
            Ok(salt) => salt,
            Err(msg) => {
                return Err(BackendError::CommandFailed(msg));
            },
        };
        Self::with_salt(
            local_private_key,
            local_public_credential,
            peer_public_credential,
            local_id,
            peer_id,
            session_salt,
        )
    }

    /// Seals `plaintext` into a frame of the given message type. The nonce is
    /// taken first; a message type other than data, probe or probe response
    /// is then refused.
    pub fn seal_message(&mut self, plaintext: &[u8], message_type: u8) -> (out: Result<
        Vec<u8>,
        BackendError,
    >)
        ensures
            final(self).local_id == old(self).local_id,
            final(self).peer_id == old(self).peer_id,
            final(self).session_key == old(self).session_key,
            final(self).receive_window == old(self).receive_window,
            final(self).receive_direction_prefix == old(self).receive_direction_prefix,
            final(self).send_nonces.direction_prefix == old(self).send_nonces.direction_prefix,
            final(self).send_nonces.session_salt == old(self).send_nonces.session_salt,
            old(self).send_nonces.counter == u64::MAX ==> (out matches Err(e) && command_failed(
                e,
                "send nonce counter exhausted"@,
            ) && *final(self) == *old(self)),
            old(self).send_nonces.counter < u64::MAX ==> final(self).send_nonces.counter
                == old(self).send_nonces.counter + 1,
            old(self).send_nonces.counter < u64::MAX && !crate::frame::known_message_type(message_type) ==> (
            out matches Err(e) && command_failed(
                e,
                "unsupported frame message type: "@ + decimal_text(message_type as nat),
            )),
            old(self).send_nonces.counter < u64::MAX && crate::frame::known_message_type(message_type)
                && !aead_message_fits(plaintext@.len()) ==> (out matches Err(e) && command_failed(
                e,
                "packet encryption failed"@,
            )),
            old(self).send_nonces.counter < u64::MAX && crate::frame::known_message_type(message_type)
                && aead_message_fits(plaintext@.len()) ==> (out matches Ok(frame) && frame@ == sealed_frame(
                *old(self),
                message_type,
                plaintext@,
            )),
            out matches Ok(frame) ==> frame@.len() == HEADER_LEN + plaintext@.len() + 16,
            forall|receiver: PeerCryptoSession|
                paired(*old(self), receiver) && accept_spec(
                    receiver.receive_window,
                    old(self).send_nonces.counter,
                ) is Ok && out is Ok ==> #[trigger] open_outcome(receiver, out->Ok_0@) == Ok::<
                    (u8, Seq<u8>),
                    Seq<char>,
                >((message_type, plaintext@)),
            forall|receiver: PeerCryptoSession, bad: Seq<u8>|
                paired(*old(self), receiver) && out is Ok && tag_changed(out->Ok_0@, bad)
                    ==> #[trigger] open_outcome(receiver, bad) is Err,
    {
        let nonce = self.send_nonces.next()?;
        let header = FrameHeader::new(self.local_id, self.peer_id, nonce, message_type);
        let associated_data = header.encode()?;
        let ciphertext = match aead_encrypt(&self.session_key, &nonce, plaintext, &associated_data) {
            Ok(c) => c,
            Err(()) => return Err(failed("packet encryption failed")),
        };
        let frame = EncodedFrame { header, ciphertext };
        let out = frame.encode();
        proof {
            let hb = header_bytes(header);
            assert(hb =~= seq![FRAME_VERSION, message_type, 0u8, 0u8] + old(self).local_id.0@
                + old(self).peer_id.0@ + nonce@);
            crate::nonce::lemma_counter_of_nonce(
                old(self).send_nonces.direction_prefix@,
                old(self).send_nonces.session_salt@,
                old(self).send_nonces.counter,
            );
            let bytes = out->Ok_0@;
            assert(bytes.take(HEADER_LEN as int) =~= hb);
            assert(bytes.skip(HEADER_LEN as int) =~= ciphertext@);
            assert(bytes.subrange(4, 20) =~= old(self).local_id.0@);
            assert(bytes.subrange(20, 36) =~= old(self).peer_id.0@);
            assert(bytes.subrange(36, 60) =~= nonce@);
            assert(bytes.subrange(36, 44) =~= old(self).send_nonces.direction_prefix@);
            assert(bytes[0] == FRAME_VERSION && bytes[1] == message_type && bytes[2] == 0 && bytes[3] == 0);
            assert forall|receiver: PeerCryptoSession, bad: Seq<u8>|
                paired(*old(self), receiver) && out is Ok && tag_changed(out->Ok_0@, bad)
                    implies #[trigger] open_outcome(receiver, bad) is Err by {
                let n = bytes.len() - 16;
                assert(bad.take(HEADER_LEN as int) =~= bad.take(n).take(HEADER_LEN as int));
                assert(bytes.take(HEADER_LEN as int) =~= bytes.take(n).take(HEADER_LEN as int));
                assert(bad.take(HEADER_LEN as int) == hb);
                assert(bad.subrange(36, 60) =~= hb.subrange(36, 60));
                assert(hb.subrange(36, 60) =~= nonce@);
                let c2 = bad.skip(HEADER_LEN as int);
                assert(c2.take(plaintext@.len() as int) =~= bad.take(n).skip(HEADER_LEN as int));
                assert(ciphertext@.take(plaintext@.len() as int) =~= bytes.take(n).skip(HEADER_LEN as int));
                if aead_open(receiver.session_key@, bad.subrange(36, 60), c2, bad.take(HEADER_LEN as int)) is Some {
                    assert(c2 == ciphertext@);
                    assert(bad =~= bytes);
                }
            }
        }
        out
    }

    /// Seals a data frame.
    pub fn seal(&mut self, plaintext_packet: &[u8]) -> (out: Result<Vec<u8>, BackendError>)
        ensures
            final(self).local_id == old(self).local_id,
            final(self).peer_id == old(self).peer_id,
            final(self).session_key == old(self).session_key,
            final(self).receive_window == old(self).receive_window,
            final(self).receive_direction_prefix == old(self).receive_direction_prefix,
            final(self).send_nonces.direction_prefix == old(self).send_nonces.direction_prefix,
            final(self).send_nonces.session_salt == old(self).send_nonces.session_salt,
            old(self).send_nonces.counter == u64::MAX ==> (out matches Err(e) && command_failed(
                e,
                "send nonce counter exhausted"@,
            ) && *final(self) == *old(self)),
            old(self).send_nonces.counter < u64::MAX ==> final(self).send_nonces.counter
                == old(self).send_nonces.counter + 1,
            old(self).send_nonces.counter < u64::MAX && !aead_message_fits(plaintext_packet@.len())
                ==> (out matches Err(e) && command_failed(e, "packet encryption failed"@)),
            old(self).send_nonces.counter < u64::MAX && aead_message_fits(plaintext_packet@.len())
                ==> (out matches Ok(frame) && frame@ == sealed_frame(
                *old(self),
                FRAME_TYPE_DATA,
                plaintext_packet@,
            )),
            out matches Ok(frame) ==> frame@.len() == HEADER_LEN + plaintext_packet@.len() + 16,
            forall|receiver: PeerCryptoSession|
                paired(*old(self), receiver) && accept_spec(
                    receiver.receive_window,
                    old(self).send_nonces.counter,
                ) is Ok && out is Ok ==> #[trigger] open_outcome(receiver, out->Ok_0@) == Ok::<
                    (u8, Seq<u8>),
                    Seq<char>,
                >((FRAME_TYPE_DATA, plaintext_packet@)),
            forall|receiver: PeerCryptoSession, bad: Seq<u8>|
                paired(*old(self), receiver) && out is Ok && tag_changed(out->Ok_0@, bad)
                    ==> #[trigger] open_outcome(receiver, bad) is Err,
    {
        self.seal_message(plaintext_packet, FRAME_TYPE_DATA)
    }

    /// Opens a frame from the peer: checks the ids and the nonce direction,
    /// authenticates and decrypts, then records the nonce in the replay window.
    #[verifier::loop_isolation(false)]
    pub fn open_message(&mut self, frame: &[u8]) -> (out: Result<OpenedMessage, BackendError>)
        ensures
            final(self).local_id == old(self).local_id,
            final(self).peer_id == old(self).peer_id,
            final(self).session_key == old(self).session_key,
            final(self).send_nonces == old(self).send_nonces,
            final(self).receive_direction_prefix == old(self).receive_direction_prefix,
            match open_outcome(*old(self), frame@) {
                Ok((t, p)) => out matches Ok(m) && m.message_type == t && m.plaintext@ == p
                    && final(self).receive_window == accept_spec(
                    old(self).receive_window,
                    counter_of(frame@.subrange(36, 60)),
                )->Ok_0,
                Err(msg) => out matches Err(e) && command_failed(e, msg) && *final(self) == *old(
                    self,
                ),
            },
    {
        let encoded = EncodedFrame::decode(frame)?;
        proof {
            let hb = header_bytes(encoded.header);
            assert(hb.subrange(4, 20) =~= encoded.header.source.0@);
            assert(hb.subrange(20, 36) =~= encoded.header.destination.0@);
            assert(hb.subrange(36, 60) =~= encoded.header.nonce@);
            assert(frame@.subrange(4, 20) =~= hb.subrange(4, 20));
            assert(frame@.subrange(20, 36) =~= hb.subrange(20, 36));
            assert(frame@.subrange(36, 60) =~= hb.subrange(36, 60));
            assert(frame@.subrange(36, 44) =~= encoded.header.nonce@.take(8));
            assert(frame@[1] == hb[1]);
        }
        if !bytes_eq(encoded.header.source.as_bytes(), self.peer_id.as_bytes()) {
            return Err(failed("frame source does not match peer session"));
        }
        if !bytes_eq(encoded.header.destination.as_bytes(), self.local_id.as_bytes()) {
            return Err(failed("frame destination does not match local session"));
        }
        let mut k: usize = 0;
        while k < DIRECTION_PREFIX_LEN
            invariant
                k <= DIRECTION_PREFIX_LEN,
                forall|j: int| 0 <= j < k ==> encoded.header.nonce@[j] == self.receive_direction_prefix@[j],
                frame@.subrange(36, 44) == encoded.header.nonce@.take(8),
            decreases DIRECTION_PREFIX_LEN - k,
        {
            if encoded.header.nonce[k] != self.receive_direction_prefix[k] {
                proof {
                    assert(frame@.subrange(36, 44)[k as int] != self.receive_direction_prefix@[k as int]);
                }
                return Err(failed("frame nonce direction does not match peer session"));
            }
            k = k + 1;
        }
        proof {
            assert(encoded.header.nonce@.take(8) =~= self.receive_direction_prefix@);
        }
        let associated_data = encoded.header.encode()?;
        let plaintext = match aead_decrypt(
            &self.session_key,
            &encoded.header.nonce,
            encoded.ciphertext.as_slice(),
            &associated_data,
        ) {
            Ok(p) => p,
            Err(()) => return Err(failed("packet authentication failed")),
        };
        self.receive_window.accept(&encoded.header.nonce)?;
        Ok(OpenedMessage { message_type: encoded.header.message_type, plaintext })
    }

    /// Opens a frame and returns its plaintext.
    pub fn open(&mut self, frame: &[u8]) -> (out: Result<Vec<u8>, BackendError>)
        ensures
            final(self).local_id == old(self).local_id,
            final(self).peer_id == old(self).peer_id,
            final(self).session_key == old(self).session_key,
            final(self).send_nonces == old(self).send_nonces,
            final(self).receive_direction_prefix == old(self).receive_direction_prefix,
            match open_outcome(*old(self), frame@) {
                Ok((t, p)) => out matches Ok(q) && q@ == p && final(self).receive_window
                    == accept_spec(old(self).receive_window, counter_of(frame@.subrange(36, 60)))->Ok_0,
                Err(msg) => out matches Err(e) && command_failed(e, msg) && *final(self) == *old(
                    self,
                ),
            },
    {
        let opened = self.open_message(frame)?;
        Ok(opened.plaintext)
    }
}

} // verus!
