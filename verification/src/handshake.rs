//! The upgrade handshake: validating a client's request, building the
//! server's response, and the client's side of the same exchange.

use vstd::prelude::*;
use vstd::string::StringSliceAdditionalSpecFns;
use crate::accept::{
    accept_of, b64_decode, base64_decoded, base64_of, compute_accept, WebSocketKey,
};
use crate::error::{HandshakeInvalidKind, WebSocketError, WebSocketResult};
use crate::headers::{joined, websocket_bytes, websocket_vec, Headers, WebSocketVersion};
use crate::http::{
    request_head_bytes, response_head_bytes, spec_parse_request, HttpServerCodec,
    HttpVersion, MessageHead, ReqParseOutcome, RequestHead,
};
use crate::machine::Endpoint;
use crate::tokens::{bytes_eq, contains_token, has_token, trim};

verus! {

/// The message-size cap of a connection accepted without an explicit
/// one.
pub const DEFAULT_MAX_MESSAGE: usize = 0x4000000;

pub open spec fn get_bytes() -> Seq<u8> {
    "GET".spec_bytes()
}

pub open spec fn host_name() -> Seq<u8> {
    "Host".spec_bytes()
}

pub open spec fn upgrade_name() -> Seq<u8> {
    "Upgrade".spec_bytes()
}

pub open spec fn connection_name() -> Seq<u8> {
    "Connection".spec_bytes()
}

pub open spec fn key_name() -> Seq<u8> {
    "Sec-WebSocket-Key".spec_bytes()
}

pub open spec fn accept_name() -> Seq<u8> {
    "Sec-WebSocket-Accept".spec_bytes()
}

pub open spec fn version_name() -> Seq<u8> {
    "Sec-WebSocket-Version".spec_bytes()
}

pub open spec fn protocol_name() -> Seq<u8> {
    "Sec-WebSocket-Protocol".spec_bytes()
}

pub open spec fn extensions_name() -> Seq<u8> {
    "Sec-WebSocket-Extensions".spec_bytes()
}

pub open spec fn origin_name() -> Seq<u8> {
    "Origin".spec_bytes()
}

pub fn get_vec() -> (r: Vec<u8>)
    ensures
        r@ == get_bytes(),
{
    vstd::slice::slice_to_vec("GET".as_bytes())
}

pub fn host_name_vec() -> (r: Vec<u8>)
    ensures
        r@ == host_name(),
{
    vstd::slice::slice_to_vec("Host".as_bytes())
}

pub fn upgrade_name_vec() -> (r: Vec<u8>)
    ensures
        r@ == upgrade_name(),
{
    vstd::slice::slice_to_vec("Upgrade".as_bytes())
}

pub fn connection_name_vec() -> (r: Vec<u8>)
    ensures
        r@ == connection_name(),
{
    vstd::slice::slice_to_vec("Connection".as_bytes())
}

pub fn key_name_vec() -> (r: Vec<u8>)
    ensures
        r@ == key_name(),
{
    vstd::slice::slice_to_vec("Sec-WebSocket-Key".as_bytes())
}

pub fn accept_name_vec() -> (r: Vec<u8>)
    ensures
        r@ == accept_name(),
{
    vstd::slice::slice_to_vec("Sec-WebSocket-Accept".as_bytes())
}

pub fn version_name_vec() -> (r: Vec<u8>)
    ensures
        r@ == version_name(),
{
    vstd::slice::slice_to_vec("Sec-WebSocket-Version".as_bytes())
}

pub fn protocol_name_vec() -> (r: Vec<u8>)
    ensures
        r@ == protocol_name(),
{
    vstd::slice::slice_to_vec("Sec-WebSocket-Protocol".as_bytes())
}

pub fn extensions_name_vec() -> (r: Vec<u8>)
    ensures
        r@ == extensions_name(),
{
    vstd::slice::slice_to_vec("Sec-WebSocket-Extensions".as_bytes())
}

pub fn origin_name_vec() -> (r: Vec<u8>)
    ensures
        r@ == origin_name(),
{
    vstd::slice::slice_to_vec("Origin".as_bytes())
}

/// A parsed client key header value: base64 that decodes to 16 bytes.
pub open spec fn key_value_ok(v: Seq<u8>) -> bool {
    base64_decoded(v) is Some && base64_decoded(v)->Some_0.len() == 16
}

/// The first rule an upgrade request breaks, if any: the method must be
/// GET over at least HTTP/1.1, the WebSocket version 13, the key 16
/// base64 bytes, and the Upgrade and Connection headers must carry
/// their tokens.
pub open spec fn spec_validate(m: Seq<u8>, v: HttpVersion, h: Seq<(Seq<u8>, Seq<u8>)>) -> Option<
    HandshakeInvalidKind,
> {
    if m != get_bytes() {
        Some(HandshakeInvalidKind::MethodNotGet)
    } else if v != HttpVersion::Http11 {
        Some(HandshakeInvalidKind::UnsupportedHttpVersion)
    } else {
        match crate::headers::spec_find_header(h, version_name()) {
            None => Some(HandshakeInvalidKind::UnsupportedWsVersion),
            Some(vv) => if trim(vv) != seq![49u8, 51u8] {
                Some(HandshakeInvalidKind::UnsupportedWsVersion)
            } else {
                match crate::headers::spec_find_header(h, key_name()) {
                    None => Some(HandshakeInvalidKind::MissingKey),
                    Some(kv) => if !key_value_ok(kv) {
                        Some(HandshakeInvalidKind::BadKey)
                    } else {
                        match crate::headers::spec_find_header(h, upgrade_name()) {
                            None => Some(HandshakeInvalidKind::MissingUpgrade),
                            Some(uv) => if !has_token(uv, websocket_bytes(), true) {
                                Some(HandshakeInvalidKind::BadUpgrade)
                            } else {
                                match crate::headers::spec_find_header(
                                    h,
                                    connection_name(),
                                ) {
                                    None => Some(HandshakeInvalidKind::MissingConnection),
                                    Some(cv) => if !has_token(cv, upgrade_name(), false) {
                                        Some(HandshakeInvalidKind::BadConnection)
                                    } else {
                                        None
                                    },
                                }
                            },
                        }
                    },
                }
            },
        }
    }
}

/// Check whether an incoming request head is a conforming WebSocket
/// upgrade attempt, reporting the first rule it breaks.
pub fn validate(head: &RequestHead) -> (r: WebSocketResult<()>)
    ensures
        match spec_validate(head.subject.0@, head.version, head.headers@) {
            None => r is Ok,
            Some(k) => r is Err && r->Err_0 == WebSocketError::HandshakeInvalid(k),
        },
{
    let get = get_vec();
    if !bytes_eq(head.subject.0.as_slice(), get.as_slice()) {
        return Err(WebSocketError::HandshakeInvalid(HandshakeInvalidKind::MethodNotGet));
    }
    if head.version != HttpVersion::Http11 {
        return Err(
            WebSocketError::HandshakeInvalid(HandshakeInvalidKind::UnsupportedHttpVersion),
        );
    }
    let version_nm = version_name_vec();
    let vv = match head.headers.get(version_nm.as_slice()) {
        None => {
            return Err(
                WebSocketError::HandshakeInvalid(
                    HandshakeInvalidKind::UnsupportedWsVersion,
                ),
            );
        },
        Some(vv) => vv,
    };
    match WebSocketVersion::from_bytes(vv.as_slice()) {
        WebSocketVersion::WebSocket13 => (),
        WebSocketVersion::Unknown(_) => {
            return Err(
                WebSocketError::HandshakeInvalid(
                    HandshakeInvalidKind::UnsupportedWsVersion,
                ),
            );
        },
    }
    let key_nm = key_name_vec();
    let kv = match head.headers.get(key_nm.as_slice()) {
        None => {
            return Err(WebSocketError::HandshakeInvalid(HandshakeInvalidKind::MissingKey));
        },
        Some(kv) => kv,
    };
    match b64_decode(kv.as_slice()) {
        Some(decoded) => {
            if decoded.len() != 16 {
                return Err(
                    WebSocketError::HandshakeInvalid(HandshakeInvalidKind::BadKey),
                );
            }
        },
        None => {
            return Err(WebSocketError::HandshakeInvalid(HandshakeInvalidKind::BadKey));
        },
    }
    let upgrade_nm = upgrade_name_vec();
    let ws = websocket_vec();
    let uv = match head.headers.get(upgrade_nm.as_slice()) {
        None => {
            return Err(
                WebSocketError::HandshakeInvalid(HandshakeInvalidKind::MissingUpgrade),
            );
        },
        Some(uv) => uv,
    };
    if !contains_token(uv.as_slice(), ws.as_slice(), true) {
        return Err(WebSocketError::HandshakeInvalid(HandshakeInvalidKind::BadUpgrade));
    }
    let connection_nm = connection_name_vec();
    let cv = match head.headers.get(connection_nm.as_slice()) {
        None => {
            return Err(
                WebSocketError::HandshakeInvalid(HandshakeInvalidKind::MissingConnection),
            );
        },
        Some(cv) => cv,
    };
    if !contains_token(cv.as_slice(), upgrade_nm.as_slice(), false) {
        return Err(WebSocketError::HandshakeInvalid(HandshakeInvalidKind::BadConnection));
    }
    Ok(())
}

/// Bytes already read off the transport beyond what has been parsed:
/// the valid window is `buf[pos..cap]`.
#[derive(Debug)]
pub struct Buffer {
    pub buf: Vec<u8>,
    pub pos: usize,
    pub cap: usize,
}

/// A half-made server session: a validated upgrade request awaiting
/// `accept` or `reject`.
#[derive(Debug)]
pub struct WsUpgrade {
    /// The headers that the handshake response will carry.
    pub headers: Headers,
    /// The validated request.
    pub request: RequestHead,
    /// Bytes read past the request head; they belong to the frame
    /// stream that follows.
    pub buffer: Buffer,
}

/// What reading an upgrade request from buffered bytes yields.
pub enum ReadRequest {
    /// The buffer does not yet hold the whole head.
    NeedMore,
    /// A validated upgrade, owning the bytes past the head.
    Upgrade(WsUpgrade),
    /// A head that parsed but failed validation, kept for a reject
    /// response.
    Invalid(RequestHead, WebSocketError),
    /// Bytes that are not an HTTP request head.
    Malformed,
}

/// Read one upgrade request head from the front of the buffered bytes.
/// On anything but `NeedMore` the head's bytes are consumed; the
/// remainder stays for the caller, or rides along in the upgrade.
pub fn read_request(src: &mut Vec<u8>) -> (r: ReadRequest)
    ensures
        match spec_parse_request(old(src)@) {
            ReqParseOutcome::NeedMore => r is NeedMore && final(src)@ == old(src)@,
            ReqParseOutcome::Bad => r is Malformed && final(src)@ == old(src)@,
            ReqParseOutcome::Parsed(m, t, v, fs, n) => {
                match spec_validate(m, v, fs) {
                    None => {
                        &&& r is Upgrade
                        &&& r->Upgrade_0.request.subject.0@ == m
                        &&& r->Upgrade_0.request.subject.1@ == t
                        &&& r->Upgrade_0.request.version == v
                        &&& r->Upgrade_0.request.headers@ == fs
                        &&& r->Upgrade_0.headers@.len() == 0
                        &&& r->Upgrade_0.buffer.buf@ == old(src)@.skip(n)
                        &&& r->Upgrade_0.buffer.pos == 0
                        &&& r->Upgrade_0.buffer.cap == r->Upgrade_0.buffer.buf@.len()
                        &&& final(src)@.len() == 0
                    },
                    Some(k) => {
                        &&& r is Invalid
                        &&& r->Invalid_1 == WebSocketError::HandshakeInvalid(k)
                        &&& r->Invalid_0.headers@ == fs
                        &&& final(src)@ == old(src)@.skip(n)
                    },
                }
            },
        },
{
    let head = match HttpServerCodec.decode(src) {
        Err(_) => { return ReadRequest::Malformed },
        Ok(None) => { return ReadRequest::NeedMore },
        Ok(Some(head)) => head,
    };
    match validate(&head) {
        Err(e) => ReadRequest::Invalid(head, e),
        Ok(()) => {
            let mut rest: Vec<u8> = Vec::new();
            core::mem::swap(&mut rest, src);
            let cap = rest.len();
            ReadRequest::Upgrade(
                WsUpgrade {
                    headers: Headers::new(),
                    request: head,
                    buffer: Buffer { buf: rest, pos: 0, cap },
                },
            )
        },
    }
}

impl WsUpgrade {
    /// The subprotocols the client asked for: the comma-separated
    /// elements of the header value, trimmed, empties dropped, in order.
    pub fn protocols(&self) -> (r: Vec<Vec<u8>>)
        ensures
            ({
                match crate::headers::spec_find_header(
                    self.request.headers@,
                    protocol_name(),
                ) {
                    Some(v) => r@.map_values(|x: Vec<u8>| x@)
                        == crate::tokens::split_nonempty(v, 0),
                    None => r@.len() == 0,
                }
            }),
    {
        let nm = protocol_name_vec();
        match self.request.headers.get(nm.as_slice()) {
            Some(v) => crate::headers::split_value_nonempty(v.as_slice()),
            None => Vec::new(),
        }
    }

    /// The extensions the client asked for, kept verbatim element by
    /// element: the library negotiates none.
    pub fn extensions(&self) -> (r: Vec<Vec<u8>>)
        ensures
            ({
                match crate::headers::spec_find_header(
                    self.request.headers@,
                    extensions_name(),
                ) {
                    Some(v) => r@.map_values(|x: Vec<u8>| x@)
                        == crate::tokens::split_nonempty(v, 0),
                    None => r@.len() == 0,
                }
            }),
    {
        let nm = extensions_name_vec();
        match self.request.headers.get(nm.as_slice()) {
            Some(v) => crate::headers::split_value_nonempty(v.as_slice()),
            None => Vec::new(),
        }
    }

    /// The client's key, decoded and checked to be 16 bytes.
    pub fn key(&self) -> (r: Option<WebSocketKey>)
        ensures
            ({
                match crate::headers::spec_find_header(self.request.headers@, key_name()) {
                    None => r is None,
                    Some(kv) => {
                        &&& r is Some <==> key_value_ok(kv)
                        &&& r is Some ==> r->0@ == base64_decoded(kv)->Some_0
                    },
                }
            }),
    {
        let nm = key_name_vec();
        match self.request.headers.get(nm.as_slice()) {
            Some(v) => match WebSocketKey::from_bytes(v.as_slice()) {
                Ok(k) => Some(k),
                Err(_) => None,
            },
            None => None,
        }
    }

    /// The client's WebSocket version header, if any.
    pub fn version(&self) -> (r: Option<WebSocketVersion>)
        ensures
            match crate::headers::spec_find_header(self.request.headers@, version_name()) {
                None => r is None,
                Some(v) => {
                    &&& r is Some
                    &&& (r->0 is WebSocket13 <==> trim(v) == seq![49u8, 51u8])
                    &&& (r->0 is Unknown ==> r->0->0@ == trim(v))
                },
            },
    {
        let nm = version_name_vec();
        match self.request.headers.get(nm.as_slice()) {
            Some(v) => Some(WebSocketVersion::from_bytes(v.as_slice())),
            None => None,
        }
    }

    /// The client's Origin header value, verbatim, if any.
    pub fn origin(&self) -> (r: Option<Vec<u8>>)
        ensures
            match crate::headers::spec_find_header(self.request.headers@, origin_name()) {
                Some(v) => r is Some && r->0@ == v,
                None => r is None,
            },
    {
        let nm = origin_name_vec();
        match self.request.headers.get(nm.as_slice()) {
            Some(v) => Some(vstd::slice::slice_to_vec(v.as_slice())),
            None => None,
        }
    }

    /// Pick subprotocols for the response.
    pub fn use_protocols(self, protocols: Vec<Vec<u8>>) -> (r: WsUpgrade)
        ensures
            r.headers@ == self.headers@.push(
                (protocol_name(), joined(protocols@.map_values(|v: Vec<u8>| v@))),
            ),
            r.request == self.request,
    {
        let mut s = self;
        let value = crate::headers::WebSocketProtocol(protocols).serialize();
        s.headers.add(protocol_name_vec(), value);
        s
    }

    /// Pick extensions for the response; they are echoed, never acted
    /// on.
    pub fn use_extensions(self, extensions: Vec<Vec<u8>>) -> (r: WsUpgrade)
        ensures
            r.headers@ == self.headers@.push(
                (extensions_name(), joined(extensions@.map_values(|v: Vec<u8>| v@))),
            ),
            r.request == self.request,
    {
        let mut s = self;
        let value = crate::headers::WebSocketProtocol(extensions).serialize();
        s.headers.add(extensions_name_vec(), value);
        s
    }

    /// Drop the connection without answering.
    pub fn drop(self) {
    }

    /// Fill in the response headers every accepted handshake owes: any
    /// custom headers first, then the accept token computed from the
    /// client's key, then `Connection: Upgrade` and `Upgrade:
    /// websocket`.  Returns the status of the response, 101.
    pub fn prepare_headers(&mut self, custom: Option<Headers>) -> (status: u16)
        requires
            crate::headers::spec_find_header(old(self).request.headers@, key_name())
                is Some,
        ensures
            status == 101,
            final(self).request == old(self).request,
            final(self).buffer.buf@ == old(self).buffer.buf@,
            final(self).buffer.pos == old(self).buffer.pos,
            final(self).buffer.cap == old(self).buffer.cap,
            ({
                let kv = crate::headers::spec_find_header(
                    old(self).request.headers@,
                    key_name(),
                )->Some_0;
                let with_custom = match custom {
                    Some(c) => old(self).headers@ + c@,
                    None => old(self).headers@,
                };
                let h1 = with_custom.push((accept_name(), accept_of(kv)));
                let h2 = h1.push((connection_name(), upgrade_name()));
                final(self).headers@ == h2.push((upgrade_name(), websocket_bytes()))
            }),
    {
        match custom {
            Some(c) => {
                let mut i: usize = 0;
                let ghost pre = self.headers@;
                let len = c.fields.len();
                while i < len
                    invariant
                        i <= len,
                        len == c.fields@.len(),
                        len == c@.len(),
                        self.headers@ == pre + c@.take(i as int),
                        self.request == old(self).request,
                        self.buffer.buf@ == old(self).buffer.buf@,
                        self.buffer.pos == old(self).buffer.pos,
                        self.buffer.cap == old(self).buffer.cap,
                    decreases len - i,
                {
                    let name = vstd::slice::slice_to_vec(c.fields[i].name.as_slice());
                    let value = vstd::slice::slice_to_vec(c.fields[i].value.as_slice());
                    proof {
                        assert(c@[i as int] == (c.fields@[i as int].name@, c.fields@[
                            i as int].value@));
                        assert(pre + c@.take(i + 1) =~= (pre + c@.take(i as int)).push(
                            c@[i as int],
                        ));
                    }
                    self.headers.add(name, value);
                    i = i + 1;
                }
                assert(c@.take(len as int) =~= c@);
            },
            None => (),
        }
        let key_nm = key_name_vec();
        let kv = match self.request.headers.get(key_nm.as_slice()) {
            Some(v) => vstd::slice::slice_to_vec(v.as_slice()),
            None => {
                proof {
                    assert(false);
                }
                Vec::new()
            },
        };
        let token = compute_accept(kv.as_slice());
        self.headers.add(accept_name_vec(), token);
        self.headers.add(connection_name_vec(), upgrade_name_vec());
        self.headers.add(upgrade_name_vec(), websocket_vec());
        101
    }

    /// Accept the handshake: the 101 response bytes to send, and the
    /// open server endpoint, which already holds any bytes that arrived
    /// after the request head.
    pub fn accept(self) -> (r: (Vec<u8>, Endpoint))
        requires
            crate::headers::spec_find_header(self.request.headers@, key_name()) is Some,
            self.buffer.pos <= self.buffer.cap <= self.buffer.buf@.len(),
        ensures
            accept_post(self, None, r),
    {
        self.internal_accept(None)
    }

    /// Accept the handshake with extra response headers; they come
    /// before the required ones, so the required ones win on collision.
    pub fn accept_with(self, custom_headers: Headers) -> (r: (Vec<u8>, Endpoint))
        requires
            crate::headers::spec_find_header(self.request.headers@, key_name()) is Some,
            self.buffer.pos <= self.buffer.cap <= self.buffer.buf@.len(),
        ensures
            accept_post(self, Some(custom_headers@), r),
    {
        self.internal_accept(Some(custom_headers))
    }

    fn internal_accept(self, custom: Option<Headers>) -> (r: (Vec<u8>, Endpoint))
        requires
            crate::headers::spec_find_header(self.request.headers@, key_name()) is Some,
            self.buffer.pos <= self.buffer.cap <= self.buffer.buf@.len(),
        ensures
            accept_post(
                self,
                match custom {
                    Some(c) => Some(c@),
                    None => None,
                },
                r,
            ),
    {
        let mut up = self;
        let status = up.prepare_headers(custom);
        let head = MessageHead { version: HttpVersion::Http11, subject: status, headers: up.headers };
        let mut out: Vec<u8> = Vec::new();
        HttpServerCodec.encode(&head, &mut out);
        let mut endpoint = Endpoint::server(DEFAULT_MAX_MESSAGE);
        let pending = vstd::slice::slice_subrange(
            up.buffer.buf.as_slice(),
            up.buffer.pos,
            up.buffer.cap,
        );
        endpoint.feed(pending);
        (out, endpoint)
    }

    /// Reject the handshake with a plain 400 response.
    pub fn reject(self) -> (r: Vec<u8>)
        ensures
            r@ == response_head_bytes(HttpVersion::Http11, 400, self.headers@),
    {
        self.internal_reject(None)
    }

    /// Reject the handshake with a 400 response and extra headers.
    pub fn reject_with(self, custom_headers: Headers) -> (r: Vec<u8>)
        ensures
            r@ == response_head_bytes(
                HttpVersion::Http11,
                400,
                self.headers@ + custom_headers@,
            ),
    {
        self.internal_reject(Some(custom_headers))
    }

    fn internal_reject(self, custom: Option<Headers>) -> (r: Vec<u8>)
        ensures
            r@ == response_head_bytes(
                HttpVersion::Http11,
                400,
                match custom {
                    Some(c) => self.headers@ + c@,
                    None => self.headers@,
                },
            ),
    {
        let mut up = self;
        match custom {
            Some(c) => {
                let ghost pre = up.headers@;
                let len = c.fields.len();
                let mut i: usize = 0;
                while i < len
                    invariant
                        i <= len,
                        len == c.fields@.len(),
                        len == c@.len(),
                        up.headers@ == pre + c@.take(i as int),
                    decreases len - i,
                {
                    let name = vstd::slice::slice_to_vec(c.fields[i].name.as_slice());
                    let value = vstd::slice::slice_to_vec(c.fields[i].value.as_slice());
                    proof {
                        assert(c@[i as int] == (c.fields@[i as int].name@, c.fields@[
                            i as int].value@));
                        assert(pre + c@.take(i + 1) =~= (pre + c@.take(i as int)).push(
                            c@[i as int],
                        ));
                    }
                    up.headers.add(name, value);
                    i = i + 1;
                }
                assert(c@.take(len as int) =~= c@);
            },
            None => (),
        }
        let head = MessageHead { version: HttpVersion::Http11, subject: 400u16, headers: up.headers };
        let mut out: Vec<u8> = Vec::new();
        HttpServerCodec.encode(&head, &mut out);
        out
    }
}

/// Everything accepting promises: the response on the wire is the 101
/// head with the prepared headers, and the endpoint is a fresh open
/// server end already fed the bytes that arrived past the request.
pub open spec fn accept_post(
    up: WsUpgrade,
    custom: Option<Seq<(Seq<u8>, Seq<u8>)>>,
    r: (Vec<u8>, Endpoint),
) -> bool {
    let kv = crate::headers::spec_find_header(up.request.headers@, key_name())->Some_0;
    let with_custom = match custom {
        Some(c) => up.headers@ + c,
        None => up.headers@,
    };
    let h1 = with_custom.push((accept_name(), accept_of(kv)));
    let h2 = h1.push((connection_name(), upgrade_name()));
    let prepared = h2.push((upgrade_name(), websocket_bytes()));
    &&& r.0@ == response_head_bytes(HttpVersion::Http11, 101, prepared)
    &&& r.1.wf()
    &&& r.1@.state == crate::machine::ConnState::Open
    &&& r.1@.server_role
    &&& r.1@.read_buf == up.buffer.buf@.subrange(
        up.buffer.pos as int,
        up.buffer.cap as int,
    )
    &&& r.1@.write_buf.len() == 0
    &&& r.1@.partial is None
    &&& r.1@.max_msg == DEFAULT_MAX_MESSAGE
}

/// A request head that some other HTTP machinery already parsed,
/// offered for upgrade.
#[derive(Debug)]
pub struct HyperRequest(pub RequestHead);

impl HyperRequest {
    /// Validate the request and turn it into a pending upgrade with no
    /// buffered bytes.
    pub fn into_upgrade(self) -> (r: Result<WsUpgrade, (RequestHead, WebSocketError)>)
        ensures
            match spec_validate(self.0.subject.0@, self.0.version, self.0.headers@) {
                None => r is Ok && r->Ok_0.request == self.0 && r->Ok_0.headers@.len()
                    == 0 && r->Ok_0.buffer.buf@.len() == 0,
                Some(k) => r is Err && (r->Err_0).1 == WebSocketError::HandshakeInvalid(
                    k,
                ) && (r->Err_0).0 == self.0,
            },
    {
        match validate(&self.0) {
            Ok(()) => Ok(
                WsUpgrade {
                    headers: Headers::new(),
                    request: self.0,
                    buffer: Buffer { buf: Vec::new(), pos: 0, cap: 0 },
                },
            ),
            Err(e) => Err((self.0, e)),
        }
    }
}

/// The client's half of the handshake that must outlive the request:
/// the key whose accept token the server owes.
#[derive(Debug)]
pub struct ClientHandshake {
    pub key: WebSocketKey,
}

/// The headers of a client upgrade request, in the order the builder
/// writes them.
pub open spec fn client_request_headers(
    host: Seq<u8>,
    key_b64: Seq<u8>,
    protocols: Seq<Seq<u8>>,
    extensions: Seq<Seq<u8>>,
    extra: Seq<(Seq<u8>, Seq<u8>)>,
) -> Seq<(Seq<u8>, Seq<u8>)> {
    let base = seq![
        (host_name(), host),
        (upgrade_name(), websocket_bytes()),
        (connection_name(), upgrade_name()),
        (key_name(), key_b64),
        (version_name(), seq![49u8, 51u8]),
    ];
    let p: Seq<(Seq<u8>, Seq<u8>)> = if protocols.len() > 0 {
        seq![(protocol_name(), joined(protocols))]
    } else {
        Seq::empty()
    };
    let e: Seq<(Seq<u8>, Seq<u8>)> = if extensions.len() > 0 {
        seq![(extensions_name(), joined(extensions))]
    } else {
        Seq::empty()
    };
    base + p + e + extra
}

/// Build a client upgrade request with a fresh random key: the bytes to
/// send, and the state the response check needs.
pub fn build_request(
    host: &[u8],
    path: &[u8],
    protocols: Vec<Vec<u8>>,
    extensions: Vec<Vec<u8>>,
    extra_headers: Headers,
) -> (r: (Vec<u8>, ClientHandshake))
    ensures
        r.0@ == request_head_bytes(
            get_bytes(),
            path@,
            HttpVersion::Http11,
            client_request_headers(
                host@,
                base64_of(r.1.key@),
                protocols@.map_values(|v: Vec<u8>| v@),
                extensions@.map_values(|v: Vec<u8>| v@),
                extra_headers@,
            ),
        ),
{
    let key = WebSocketKey::new();
    let key_b64 = key.serialize();
    let mut h = Headers::new();
    h.add(host_name_vec(), vstd::slice::slice_to_vec(host));
    h.add(upgrade_name_vec(), websocket_vec());
    h.add(connection_name_vec(), upgrade_name_vec());
    h.add(key_name_vec(), key_b64);
    let mut thirteen: Vec<u8> = Vec::new();
    thirteen.push(49);
    thirteen.push(51);
    assert(thirteen@ =~= seq![49u8, 51u8]);
    h.add(version_name_vec(), thirteen);
    let has_protocols = protocols.len() > 0;
    let has_extensions = extensions.len() > 0;
    if has_protocols {
        let value = crate::headers::WebSocketProtocol(protocols).serialize();
        h.add(protocol_name_vec(), value);
    }
    if has_extensions {
        let value = crate::headers::WebSocketProtocol(extensions).serialize();
        h.add(extensions_name_vec(), value);
    }
    let extra_len = extra_headers.fields.len();
    let ghost pre_extra = h@;
    let mut i: usize = 0;
    while i < extra_len
        invariant
            i <= extra_len,
            extra_len == extra_headers.fields@.len(),
            extra_len == extra_headers@.len(),
            h@ == pre_extra + extra_headers@.take(i as int),
        decreases extra_len - i,
    {
        let name = vstd::slice::slice_to_vec(extra_headers.fields[i].name.as_slice());
        let value = vstd::slice::slice_to_vec(extra_headers.fields[i].value.as_slice());
        proof {
            assert(extra_headers@[i as int] == (extra_headers.fields@[i as int].name@,
            extra_headers.fields@[i as int].value@));
            assert(pre_extra + extra_headers@.take(i + 1) =~= (pre_extra
                + extra_headers@.take(i as int)).push(extra_headers@[i as int]));
        }
        h.add(name, value);
        i = i + 1;
    }
    proof {
        assert(extra_headers@.take(extra_len as int) =~= extra_headers@);
        assert(h@ =~= client_request_headers(
            host@,
            base64_of(key@),
            protocols@.map_values(|v: Vec<u8>| v@),
            extensions@.map_values(|v: Vec<u8>| v@),
            extra_headers@,
        ));
    }
    let head = MessageHead {
        version: HttpVersion::Http11,
        subject: crate::http::RequestLine(get_vec(), vstd::slice::slice_to_vec(path)),
        headers: h,
    };
    let mut out: Vec<u8> = Vec::new();
    crate::http::HttpClientCodec.encode(&head, &mut out);
    (out, ClientHandshake { key })
}

/// What the client demands of the server's handshake response: status
/// 101, the accept token of the key it sent, and the Upgrade and
/// Connection tokens.
pub open spec fn spec_verify_response(
    key_b64: Seq<u8>,
    status: u16,
    h: Seq<(Seq<u8>, Seq<u8>)>,
) -> Option<HandshakeInvalidKind> {
    if status != 101 {
        Some(HandshakeInvalidKind::BadStatus)
    } else {
        match crate::headers::spec_find_header(h, accept_name()) {
            None => Some(HandshakeInvalidKind::BadAccept),
            Some(av) => if av != accept_of(key_b64) {
                Some(HandshakeInvalidKind::BadAccept)
            } else {
                match crate::headers::spec_find_header(h, upgrade_name()) {
                    None => Some(HandshakeInvalidKind::MissingUpgrade),
                    Some(uv) => if !has_token(uv, websocket_bytes(), true) {
                        Some(HandshakeInvalidKind::BadUpgrade)
                    } else {
                        match crate::headers::spec_find_header(h, connection_name()) {
                            None => Some(HandshakeInvalidKind::MissingConnection),
                            Some(cv) => if !has_token(cv, upgrade_name(), false) {
                                Some(HandshakeInvalidKind::BadConnection)
                            } else {
                                None
                            },
                        }
                    },
                }
            },
        }
    }
}

/// Check the server's handshake response against the sent key.
pub fn verify_response(state: &ClientHandshake, head: &crate::http::ResponseHead) -> (r:
    WebSocketResult<()>)
    ensures
        match spec_verify_response(base64_of(state.key@), head.subject, head.headers@) {
            None => r is Ok,
            Some(k) => r is Err && r->Err_0 == WebSocketError::HandshakeInvalid(k),
        },
{
    if head.subject != 101 {
        return Err(WebSocketError::HandshakeInvalid(HandshakeInvalidKind::BadStatus));
    }
    let accept_nm = accept_name_vec();
    let av = match head.headers.get(accept_nm.as_slice()) {
        None => {
            return Err(WebSocketError::HandshakeInvalid(HandshakeInvalidKind::BadAccept));
        },
        Some(av) => av,
    };
    let key_b64 = state.key.serialize();
    let expected = compute_accept(key_b64.as_slice());
    if !bytes_eq(av.as_slice(), expected.as_slice()) {
        return Err(WebSocketError::HandshakeInvalid(HandshakeInvalidKind::BadAccept));
    }
    let upgrade_nm = upgrade_name_vec();
    let ws = websocket_vec();
    let uv = match head.headers.get(upgrade_nm.as_slice()) {
        None => {
            return Err(
                WebSocketError::HandshakeInvalid(HandshakeInvalidKind::MissingUpgrade),
            );
        },
        Some(uv) => uv,
    };
    if !contains_token(uv.as_slice(), ws.as_slice(), true) {
        return Err(WebSocketError::HandshakeInvalid(HandshakeInvalidKind::BadUpgrade));
    }
    let connection_nm = connection_name_vec();
    let cv = match head.headers.get(connection_nm.as_slice()) {
        None => {
            return Err(
                WebSocketError::HandshakeInvalid(HandshakeInvalidKind::MissingConnection),
            );
        },
        Some(cv) => cv,
    };
    if !contains_token(cv.as_slice(), upgrade_nm.as_slice(), false) {
        return Err(WebSocketError::HandshakeInvalid(HandshakeInvalidKind::BadConnection));
    }
    Ok(())
}

} // verus!