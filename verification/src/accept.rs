//! The Sec-WebSocket-Key and Sec-WebSocket-Accept values of the
//! handshake: 16 random bytes carried as base64, and the SHA-1-based
//! token the server must echo.

use vstd::prelude::*;
use vstd::string::StringSliceAdditionalSpecFns;
use crate::error::{HandshakeInvalidKind, WebSocketError, WebSocketResult};

verus! {

/// The base64 encoding (standard alphabet, padded) of a byte sequence.
pub uninterp spec fn base64_of(data: Seq<u8>) -> Seq<u8>;

/// What base64 decoding yields: `None` exactly on input that is not
/// valid base64.
pub uninterp spec fn base64_decoded(data: Seq<u8>) -> Option<Seq<u8>>;

/// The 20-byte SHA-1 digest of a byte sequence.
pub uninterp spec fn sha1_of(data: Seq<u8>) -> Seq<u8>;

/// Relies on base64::encode (standard alphabet, padded): the result is
/// a function of the input bytes alone, four output bytes for every
/// three of input, and base64::decode inverts it.
#[verifier::external_body]
pub(crate) fn b64_encode(data: &[u8]) -> (r: Vec<u8>)
    ensures
        r@ == base64_of(data@),
        r@.len() == 4 * ((data@.len() + 2) / 3),
        base64_decoded(r@) == Some(data@),
{
    base64::encode(data).into_bytes()
}

/// Relies on base64::decode: succeeds exactly on valid base64, and the
/// result is a function of the input bytes alone.
#[verifier::external_body]
pub(crate) fn b64_decode(data: &[u8]) -> (r: Option<Vec<u8>>)
    ensures
        r is Some <==> base64_decoded(data@) is Some,
        r is Some ==> r->Some_0@ == base64_decoded(data@)->Some_0,
{
    match base64::decode(data) {
        Ok(v) => Some(v),
        Err(_) => None,
    }
}

/// Relies on sha1::Sha1 (new, update, digest): the 20-byte SHA-1 digest,
/// a function of the input bytes alone.
#[verifier::external_body]
pub(crate) fn sha1_digest(data: &[u8]) -> (r: Vec<u8>)
    ensures
        r@ == sha1_of(data@),
        r@.len() == 20,
{
    let mut h = sha1::Sha1::new();
    h.update(data);
    h.digest().bytes().to_vec()
}

/// The fixed GUID of RFC 6455 that is appended to the client key before
/// hashing.
pub open spec fn guid_seq() -> Seq<u8> {
    "258EAFA5-E914-47DA-95CA-C5AB0DC85B11".spec_bytes()
}

/// The GUID as bytes.
pub fn guid_vec() -> (g: Vec<u8>)
    ensures
        g@ == guid_seq(),
{
    let s: &str = "258EAFA5-E914-47DA-95CA-C5AB0DC85B11";
    vstd::slice::slice_to_vec(s.as_bytes())
}

/// The accept token owed for a client key: base64 of the SHA-1 digest of
/// the key (as it appeared on the wire) followed by the GUID.
pub open spec fn accept_of(key_b64: Seq<u8>) -> Seq<u8> {
    base64_of(sha1_of(key_b64 + guid_seq()))
}

/// Compute the accept token for a client key taken verbatim from the
/// Sec-WebSocket-Key header value.
pub fn compute_accept(key_b64: &[u8]) -> (r: Vec<u8>)
    ensures
        r@ == accept_of(key_b64@),
{
    let mut buf = vstd::slice::slice_to_vec(key_b64);
    let mut g = guid_vec();
    buf.append(&mut g);
    assert(buf@ == key_b64@ + guid_seq());
    let digest = sha1_digest(buf.as_slice());
    b64_encode(digest.as_slice())
}

/// The 16 raw bytes behind a Sec-WebSocket-Key header.
#[derive(Clone, Copy, Debug, PartialEq, Eq)]
pub struct WebSocketKey(pub [u8; 16]);

impl View for WebSocketKey {
    type V = Seq<u8>;

    open spec fn view(&self) -> Seq<u8> {
        self.0@
    }
}

impl WebSocketKey {
    /// A fresh key of 16 random bytes.
    pub fn new() -> WebSocketKey {
        WebSocketKey(rand_bytes16())
    }

    /// Parse a header value: it must base64-decode to exactly 16 bytes.
    pub fn from_bytes(value: &[u8]) -> (r: WebSocketResult<WebSocketKey>)
        ensures
            r is Ok <==> (base64_decoded(value@) is Some && base64_decoded(
                value@,
            )->Some_0.len() == 16),
            r is Ok ==> r->Ok_0@ == base64_decoded(value@)->Some_0,
    {
        match b64_decode(value) {
            Some(v) => {
                if v.len() != 16 {
                    return Err(
                        WebSocketError::HandshakeInvalid(HandshakeInvalidKind::BadKey),
                    );
                }
                let mut key: [u8; 16] = [0; 16];
                let mut i: usize = 0;
                while i < 16
                    invariant
                        i <= 16,
                        v@.len() == 16,
                        forall|j: int| 0 <= j < i ==> key@[j] == v@[j],
                    decreases 16 - i,
                {
                    key[i] = v[i];
                    i = i + 1;
                }
                assert(key@ =~= v@);
                Ok(WebSocketKey(key))
            },
            None => Err(WebSocketError::HandshakeInvalid(HandshakeInvalidKind::BadKey)),
        }
    }

    /// The key as it goes on the wire: base64 of the 16 bytes, which
    /// decoding inverts.
    pub fn serialize(&self) -> (r: Vec<u8>)
        ensures
            r@ == base64_of(self@),
            base64_decoded(r@) == Some(self@),
    {
        let arr: [u8; 16] = self.0;
        b64_encode(arr.as_slice())
    }
}

/// 16 random bytes for a fresh key.
fn rand_bytes16() -> [u8; 16] {
    rand::random::<[u8; 16]>()
}

/// The token of a Sec-WebSocket-Accept header: a 20-byte SHA-1 digest.
#[derive(Clone, Debug, PartialEq, Eq)]
pub struct WebSocketAccept {
    digest: Vec<u8>,
}

impl View for WebSocketAccept {
    type V = Seq<u8>;

    closed spec fn view(&self) -> Seq<u8> {
        self.digest@
    }
}

impl WebSocketAccept {
    /// The accept value owed for a client key.  The digest is taken over
    /// the key as the client sent it: its base64 form, then the GUID.
    pub fn new(key: &WebSocketKey) -> (r: WebSocketAccept)
        ensures
            r@ == sha1_of(base64_of(key@) + guid_seq()),
            r@.len() == 20,
            base64_of(r@) == accept_of(base64_of(key@)),
    {
        let wire_key = key.serialize();
        let mut buf = wire_key;
        let mut g = guid_vec();
        buf.append(&mut g);
        assert(buf@ == base64_of(key@) + guid_seq());
        let digest = sha1_digest(buf.as_slice());
        WebSocketAccept { digest }
    }

    /// The accept value owed for a key that arrived on the wire in its
    /// base64 form.
    pub fn for_wire_key(key_b64: &[u8]) -> (r: WebSocketAccept)
        ensures
            r@ == sha1_of(key_b64@ + guid_seq()),
            r@.len() == 20,
            base64_of(r@) == accept_of(key_b64@),
    {
        let mut buf = vstd::slice::slice_to_vec(key_b64);
        let mut g = guid_vec();
        buf.append(&mut g);
        assert(buf@ == key_b64@ + guid_seq());
        let digest = sha1_digest(buf.as_slice());
        WebSocketAccept { digest }
    }

    /// Parse a header value: it must base64-decode to exactly 20 bytes.
    pub fn from_bytes(value: &[u8]) -> (r: WebSocketResult<WebSocketAccept>)
        ensures
            r is Ok <==> (base64_decoded(value@) is Some && base64_decoded(
                value@,
            )->Some_0.len() == 20),
            r is Ok ==> r->Ok_0@ == base64_decoded(value@)->Some_0,
    {
        match b64_decode(value) {
            Some(v) => {
                if v.len() != 20 {
                    return Err(
                        WebSocketError::HandshakeInvalid(HandshakeInvalidKind::BadKey),
                    );
                }
                Ok(WebSocketAccept { digest: v })
            },
            None => Err(WebSocketError::HandshakeInvalid(HandshakeInvalidKind::BadKey)),
        }
    }

    /// The token as it goes on the wire: base64 of the digest, which
    /// decoding inverts.
    pub fn serialize(&self) -> (r: Vec<u8>)
        ensures
            r@ == base64_of(self@),
            base64_decoded(r@) == Some(self@),
    {
        b64_encode(self.digest.as_slice())
    }
}

} // verus!
