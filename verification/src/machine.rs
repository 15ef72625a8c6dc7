//! The connection state machine: frames in, messages out, ping/pong
//! echo, the close handshake, and the limits that keep memory bounded.

use vstd::prelude::*;
use crate::error::{FrameProtocolKind, WebSocketError};
use crate::frame::{
    decode_frame, encode_frame, frame_encoding, frame_wf, spec_decode, DecodeStep, Frame,
    FrameView, Opcode, SpecDecodeOutcome,
};
use crate::mask::gen_mask;
use crate::tokens::drop_prefix;
use crate::utf8::{is_utf8, is_utf8_prefix, lemma_utf8_take_prefix, utf8_prefix_valid, utf8_valid};

verus! {

/// Where a connection stands.
#[derive(Clone, Copy, Debug, PartialEq, Eq, Structural)]
pub enum ConnState {
    /// The HTTP upgrade has not finished; the handshake module owns
    /// this phase and hands over an endpoint already in `Open`.
    Handshaking,
    Open,
    /// We sent our Close and await the peer's.
    ClosingLocal,
    /// The peer's Close arrived; ours is queued and the connection dies
    /// once it is flushed.
    ClosingRemote,
    Closed,
}

/// The code and reason of a Close message.
#[derive(Clone, Debug, PartialEq, Eq)]
pub struct CloseData {
    pub code: u16,
    pub reason: Vec<u8>,
}

/// A whole message, assembled from one or more frames.
#[derive(Clone, Debug, PartialEq, Eq)]
pub enum Message {
    /// Valid UTF-8 text, kept as its bytes.
    Text(Vec<u8>),
    Binary(Vec<u8>),
    Ping(Vec<u8>),
    Pong(Vec<u8>),
    Close(Option<CloseData>),
}

/// The mathematical shadow of a message.
pub enum MessageView {
    Text(Seq<u8>),
    Binary(Seq<u8>),
    Ping(Seq<u8>),
    Pong(Seq<u8>),
    Close(Option<(u16, Seq<u8>)>),
}

impl View for Message {
    type V = MessageView;

    open spec fn view(&self) -> MessageView {
        match self {
            Message::Text(p) => MessageView::Text(p@),
            Message::Binary(p) => MessageView::Binary(p@),
            Message::Ping(p) => MessageView::Ping(p@),
            Message::Pong(p) => MessageView::Pong(p@),
            Message::Close(d) => MessageView::Close(
                match d {
                    Some(cd) => Some((cd.code, cd.reason@)),
                    None => None,
                },
            ),
        }
    }
}

/// A close code that may appear on the wire: the defined range of
/// standard codes without the four that never travel, the registered
/// range, and the private range.
pub open spec fn close_code_ok(c: u16) -> bool {
    (1000 <= c <= 1014 && c != 1004 && c != 1005 && c != 1006) || (3000 <= c <= 4999)
}

/// What a Close frame payload means: nothing, or a code and a
/// UTF-8-checked reason.
pub open spec fn spec_parse_close(p: Seq<u8>) -> Result<
    Option<(u16, Seq<u8>)>,
    FrameProtocolKind,
> {
    if p.len() == 0 {
        Ok(None)
    } else if p.len() == 1 {
        Err(FrameProtocolKind::BadCloseCode)
    } else {
        let code = (p[0] * 256 + p[1]) as u16;
        if !close_code_ok(code) {
            Err(FrameProtocolKind::BadCloseCode)
        } else if !utf8_valid(p.skip(2)) {
            Err(FrameProtocolKind::BadUtf8)
        } else {
            Ok(Some((code, p.skip(2))))
        }
    }
}

/// The payload of a Close frame: the code in big-endian, then the reason.
pub open spec fn close_payload(code: u16, reason: Seq<u8>) -> Seq<u8> {
    seq![(code / 256) as u8, (code % 256) as u8] + reason
}

/// A Close frame the library sends.
pub open spec fn close_frame(code: u16, reason: Seq<u8>) -> FrameView {
    FrameView {
        fin: true,
        rsv1: false,
        rsv2: false,
        rsv3: false,
        opcode: Opcode::Close,
        payload: close_payload(code, reason),
    }
}

/// A Pong echoing a Ping's payload.
pub open spec fn pong_frame(payload: Seq<u8>) -> FrameView {
    FrameView {
        fin: true,
        rsv1: false,
        rsv2: false,
        rsv3: false,
        opcode: Opcode::Pong,
        payload,
    }
}

/// The mathematical shadow of an endpoint.
#[verifier::ext_equal]
pub struct EndpointView {
    pub state: ConnState,
    pub server_role: bool,
    pub read_buf: Seq<u8>,
    pub write_buf: Seq<u8>,
    pub partial: Option<(Opcode, Seq<u8>)>,
    pub peer_close: Option<(u16, Seq<u8>)>,
    pub max_msg: int,
}

/// What one frame does to the machine.
#[verifier::ext_equal]
pub struct StepResult {
    pub state: ConnState,
    pub partial: Option<(Opcode, Seq<u8>)>,
    pub peer_close: Option<(u16, Seq<u8>)>,
    /// The message surfaced to the caller, if the frame completed one.
    pub deliver: Option<MessageView>,
    /// The control frame queued for the peer, if the frame demands one.
    pub reply: Option<FrameView>,
    /// The protocol error the frame committed, if any.
    pub error: Option<FrameProtocolKind>,
}

/// A step that only moves the fragment accumulator.
pub open spec fn quiet_step(s: EndpointView, partial: Option<(Opcode, Seq<u8>)>) -> StepResult {
    StepResult {
        state: s.state,
        partial,
        peer_close: s.peer_close,
        deliver: None,
        reply: None,
        error: None,
    }
}

/// A protocol error: the connection is torn down after queueing a Close
/// frame that names the matching code.
pub open spec fn fail_step(s: EndpointView, k: FrameProtocolKind) -> StepResult {
    StepResult {
        state: ConnState::Closed,
        partial: None,
        peer_close: s.peer_close,
        deliver: None,
        reply: Some(close_frame(k.spec_close_code(), Seq::empty())),
        error: Some(k),
    }
}

/// The message a finished data frame sequence carries.
pub open spec fn data_message(op: Opcode, payload: Seq<u8>) -> MessageView {
    if op == Opcode::Text {
        MessageView::Text(payload)
    } else {
        MessageView::Binary(payload)
    }
}

/// One frame's effect on the connection.  The frame must have come out
/// of the decoder, which already enforced the frame-level rules.  In
/// `Open`, data frames feed the assembler, Ping draws a Pong, Close
/// starts the close handshake; in `ClosingLocal` only the peer's Close
/// matters; in the remaining states nothing moves.
pub open spec fn spec_step(s: EndpointView, f: FrameView) -> StepResult {
    if s.state == ConnState::Open {
        if f.opcode == Opcode::Ping {
            StepResult {
                state: s.state,
                partial: s.partial,
                peer_close: s.peer_close,
                deliver: None,
                reply: Some(pong_frame(f.payload)),
                error: None,
            }
        } else if f.opcode == Opcode::Pong {
            quiet_step(s, s.partial)
        } else if f.opcode == Opcode::Close {
            match spec_parse_close(f.payload) {
                Err(k) => fail_step(s, k),
                Ok(data) => {
                    let echo: u16 = match data {
                        Some((c, _)) => c,
                        None => 1000u16,
                    };
                    StepResult {
                        state: ConnState::ClosingRemote,
                        partial: None,
                        peer_close: data,
                        deliver: Some(MessageView::Close(data)),
                        reply: Some(close_frame(echo, Seq::empty())),
                        error: None,
                    }
                },
            }
        } else if f.opcode == Opcode::Text || f.opcode == Opcode::Binary {
            if s.partial is Some {
                fail_step(s, FrameProtocolKind::BadContinuation)
            } else if f.payload.len() > s.max_msg {
                fail_step(s, FrameProtocolKind::MessageTooBig)
            } else if f.fin {
                if f.opcode == Opcode::Text && !utf8_valid(f.payload) {
                    fail_step(s, FrameProtocolKind::BadUtf8)
                } else {
                    StepResult {
                        state: s.state,
                        partial: None,
                        peer_close: s.peer_close,
                        deliver: Some(data_message(f.opcode, f.payload)),
                        reply: None,
                        error: None,
                    }
                }
            } else if f.opcode == Opcode::Text && !utf8_prefix_valid(f.payload) {
                fail_step(s, FrameProtocolKind::BadUtf8)
            } else {
                quiet_step(s, Some((f.opcode, f.payload)))
            }
        } else {
            // Continuation
            match s.partial {
                None => fail_step(s, FrameProtocolKind::BadContinuation),
                Some((op, acc)) => {
                    let total = acc + f.payload;
                    if total.len() > s.max_msg {
                        fail_step(s, FrameProtocolKind::MessageTooBig)
                    } else if f.fin {
                        if op == Opcode::Text && !utf8_valid(total) {
                            fail_step(s, FrameProtocolKind::BadUtf8)
                        } else {
                            StepResult {
                                state: s.state,
                                partial: None,
                                peer_close: s.peer_close,
                                deliver: Some(data_message(op, total)),
                                reply: None,
                                error: None,
                            }
                        }
                    } else if op == Opcode::Text && !utf8_prefix_valid(total) {
                        fail_step(s, FrameProtocolKind::BadUtf8)
                    } else {
                        quiet_step(s, Some((op, total)))
                    }
                },
            }
        }
    } else if s.state == ConnState::ClosingLocal {
        if f.opcode == Opcode::Close {
            match spec_parse_close(f.payload) {
                Err(k) => StepResult {
                    state: ConnState::Closed,
                    partial: None,
                    peer_close: s.peer_close,
                    deliver: None,
                    reply: None,
                    error: Some(k),
                },
                Ok(data) => StepResult {
                    state: ConnState::Closed,
                    partial: None,
                    peer_close: data,
                    deliver: Some(MessageView::Close(data)),
                    reply: None,
                    error: None,
                },
            }
        } else {
            quiet_step(s, s.partial)
        }
    } else {
        quiet_step(s, s.partial)
    }
}

/// One duplex endpoint of an open connection.  It owns the byte buffers
/// but no transport: the caller feeds received bytes in and flushes the
/// queued output bytes out.
pub struct Endpoint {
    state: ConnState,
    server_role: bool,
    read_buf: Vec<u8>,
    write_buf: Vec<u8>,
    partial_opcode: Option<Opcode>,
    partial_payload: Vec<u8>,
    peer_close: Option<CloseData>,
    max_message_size: usize,
}

impl View for Endpoint {
    type V = EndpointView;

    closed spec fn view(&self) -> EndpointView {
        EndpointView {
            state: self.state,
            server_role: self.server_role,
            read_buf: self.read_buf@,
            write_buf: self.write_buf@,
            partial: match self.partial_opcode {
                Some(op) => Some((op, self.partial_payload@)),
                None => None,
            },
            peer_close: match &self.peer_close {
                Some(cd) => Some((cd.code, cd.reason@)),
                None => None,
            },
            max_msg: self.max_message_size as int,
        }
    }
}

/// The endpoint's invariant: the accumulator only ever holds a data
/// opcode, never outgrows the message cap, and exists only while the
/// connection is open.
pub open spec fn endpoint_wf(s: EndpointView) -> bool {
    &&& s.state != ConnState::Handshaking
    &&& match s.partial {
        Some((op, acc)) => (op == Opcode::Text || op == Opcode::Binary) && acc.len()
            <= s.max_msg,
        None => true,
    }
    &&& s.state != ConnState::Open ==> s.partial is None
}

impl Endpoint {
    pub open spec fn wf(self) -> bool {
        endpoint_wf(self@)
    }

    /// The server end of a connection whose handshake succeeded.
    pub fn server(max_message_size: usize) -> (e: Endpoint)
        ensures
            e.wf(),
            e@.state == ConnState::Open,
            e@.server_role,
            e@.read_buf.len() == 0,
            e@.write_buf.len() == 0,
            e@.partial is None,
            e@.peer_close is None,
            e@.max_msg == max_message_size,
    {
        Endpoint {
            state: ConnState::Open,
            server_role: true,
            read_buf: Vec::new(),
            write_buf: Vec::new(),
            partial_opcode: None,
            partial_payload: Vec::new(),
            peer_close: None,
            max_message_size,
        }
    }

    /// The client end of a connection whose handshake succeeded.
    pub fn client(max_message_size: usize) -> (e: Endpoint)
        ensures
            e.wf(),
            e@.state == ConnState::Open,
            !e@.server_role,
            e@.read_buf.len() == 0,
            e@.write_buf.len() == 0,
            e@.partial is None,
            e@.peer_close is None,
            e@.max_msg == max_message_size,
    {
        Endpoint {
            state: ConnState::Open,
            server_role: false,
            read_buf: Vec::new(),
            write_buf: Vec::new(),
            partial_opcode: None,
            partial_payload: Vec::new(),
            peer_close: None,
            max_message_size,
        }
    }

    pub fn state(&self) -> (s: ConnState)
        ensures
            s == self@.state,
    {
        self.state
    }

    pub fn is_server(&self) -> (b: bool)
        ensures
            b == self@.server_role,
    {
        self.server_role
    }

    /// Hand the endpoint bytes read from the transport.
    pub fn feed(&mut self, data: &[u8])
        ensures
            final(self)@ == (EndpointView {
                read_buf: old(self)@.read_buf + data@,
                ..old(self)@
            }),
    {
        self.read_buf.extend_from_slice(data);
    }

    /// Take the bytes owed to the transport.  Flushing after the peer's
    /// Close was answered finishes the close handshake.
    pub fn take_output(&mut self) -> (out: Vec<u8>)
        ensures
            out@ == old(self)@.write_buf,
            final(self)@ == (EndpointView {
                write_buf: Seq::empty(),
                state: if old(self)@.state == ConnState::ClosingRemote {
                    ConnState::Closed
                } else {
                    old(self)@.state
                },
                ..old(self)@
            }),
    {
        let mut out: Vec<u8> = Vec::new();
        core::mem::swap(&mut out, &mut self.write_buf);
        if matches!(self.state, ConnState::ClosingRemote) {
            self.state = ConnState::Closed;
        }
        out
    }

    /// Queue one frame for the peer, masked when we are the client.
    fn enqueue_frame(&mut self, fr: &Frame)
        requires
            frame_wf(fr@),
        ensures
            final(self)@ == (EndpointView {
                write_buf: final(self)@.write_buf,
                ..old(self)@
            }),
            sent_frame(old(self)@.write_buf, final(self)@.write_buf, fr@, old(
                self,
            )@.server_role),
    {
        if self.server_role {
            encode_frame(fr, None, &mut self.write_buf);
        } else {
            let k = gen_mask();
            encode_frame(fr, Some(k), &mut self.write_buf);
            assert(final(self)@.write_buf == old(self)@.write_buf + frame_encoding(
                fr@,
                Some(k@),
            ));
        }
    }
}

/// `post` extends `pre` by exactly one encoding of `f`: bare from a
/// server, masked with some 4-byte key from a client.
pub open spec fn sent_frame(pre: Seq<u8>, post: Seq<u8>, f: FrameView, server_role: bool) -> bool {
    if server_role {
        post == pre + frame_encoding(f, None)
    } else {
        exists|k: Seq<u8>| k.len() == 4 && post == pre + frame_encoding(f, Some(k))
    }
}

/// Check whether a close code may travel on the wire.
pub fn close_code_allowed(c: u16) -> (r: bool)
    ensures
        r == close_code_ok(c),
{
    (1000 <= c && c <= 1014 && c != 1004 && c != 1005 && c != 1006) || (3000 <= c && c
        <= 4999)
}

pub open spec fn close_data_view(d: Option<CloseData>) -> Option<(u16, Seq<u8>)> {
    match d {
        Some(cd) => Some((cd.code, cd.reason@)),
        None => None,
    }
}

/// Parse a Close frame payload into its code and reason.
pub fn parse_close_payload(p: &Vec<u8>) -> (r: Result<Option<CloseData>, FrameProtocolKind>)
    ensures
        r is Ok <==> spec_parse_close(p@) is Ok,
        r is Ok ==> close_data_view(r->Ok_0) == spec_parse_close(p@)->Ok_0,
        r is Err ==> r->Err_0 == spec_parse_close(p@)->Err_0,
{
    if p.len() == 0 {
        Ok(None)
    } else if p.len() == 1 {
        Err(FrameProtocolKind::BadCloseCode)
    } else {
        let code: u16 = (p[0] as u16) * 256 + (p[1] as u16);
        if !close_code_allowed(code) {
            Err(FrameProtocolKind::BadCloseCode)
        } else {
            let reason = vstd::slice::slice_subrange(p.as_slice(), 2, p.len());
            assert(reason@ =~= p@.skip(2));
            if !is_utf8(reason) {
                Err(FrameProtocolKind::BadUtf8)
            } else {
                Ok(Some(CloseData { code, reason: vstd::slice::slice_to_vec(reason) }))
            }
        }
    }
}

/// Build the Close frame carrying this code and reason.
pub fn make_close_frame(code: u16, reason: &[u8]) -> (f: Frame)
    ensures
        f@ == close_frame(code, reason@),
{
    let mut payload: Vec<u8> = Vec::new();
    payload.push((code / 256) as u8);
    payload.push((code % 256) as u8);
    payload.extend_from_slice(reason);
    assert(payload@ =~= close_payload(code, reason@));
    Frame::new(true, Opcode::Close, payload)
}

pub open spec fn opt_msg_view(m: Option<Message>) -> Option<MessageView> {
    match m {
        Some(x) => Some(x@),
        None => None,
    }
}

/// The error surfaced once the peer has closed: their code and reason,
/// or the default 1000 with no reason.
pub open spec fn is_peer_close_error(e: WebSocketError, pc: Option<(u16, Seq<u8>)>) -> bool {
    match e {
        WebSocketError::ClosedByPeer(c, rs) => match pc {
            Some((cc, rr)) => c == cc && rs@ == rr,
            None => c == 1000 && rs@.len() == 0,
        },
        _ => false,
    }
}

/// Everything `handle_frame` promises: the machine moves as `spec_step`
/// says, the queued reply lands in the write buffer, and the result
/// carries exactly the delivered message or the committed error.
pub open spec fn handle_frame_post(
    pre: EndpointView,
    post: EndpointView,
    f: FrameView,
    r: Result<Option<Message>, WebSocketError>,
) -> bool {
    let step = spec_step(pre, f);
    &&& post.state == step.state
    &&& post.partial == step.partial
    &&& post.peer_close == step.peer_close
    &&& post.read_buf == pre.read_buf
    &&& post.server_role == pre.server_role
    &&& post.max_msg == pre.max_msg
    &&& match step.reply {
        None => post.write_buf == pre.write_buf,
        Some(rf) => sent_frame(pre.write_buf, post.write_buf, rf, pre.server_role),
    }
    &&& match step.error {
        Some(k) => r is Err && r->Err_0 == WebSocketError::FrameProtocol(k),
        None => r is Ok && opt_msg_view(r->Ok_0) == step.deliver,
    }
}

impl Endpoint {
    /// Tear the connection down over a protocol error: queue a Close
    /// frame with the matching code and go to `Closed`.
    fn fail(&mut self, k: FrameProtocolKind)
        ensures
            final(self)@ == (EndpointView {
                state: ConnState::Closed,
                partial: None,
                write_buf: final(self)@.write_buf,
                ..old(self)@
            }),
            sent_frame(
                old(self)@.write_buf,
                final(self)@.write_buf,
                close_frame(k.spec_close_code(), Seq::empty()),
                old(self)@.server_role,
            ),
    {
        let empty: Vec<u8> = Vec::new();
        let cf = make_close_frame(k.close_code(), empty.as_slice());
        self.enqueue_frame(&cf);
        self.state = ConnState::Closed;
        self.partial_opcode = None;
        self.partial_payload = Vec::new();
    }

    /// Run one decoded frame through the machine.
    pub fn handle_frame(&mut self, f: Frame) -> (r: Result<Option<Message>, WebSocketError>)
        requires
            old(self).wf(),
            frame_wf(f@),
            old(self)@.state == ConnState::Open || old(self)@.state
                == ConnState::ClosingLocal,
        ensures
            final(self).wf(),
            handle_frame_post(old(self)@, final(self)@, f@, r),
    {
        if self.state == ConnState::Open {
            match f.opcode {
                Opcode::Ping => {
                    let pong = Frame::new(true, Opcode::Pong, f.payload);
                    self.enqueue_frame(&pong);
                    Ok(None)
                },
                Opcode::Pong => Ok(None),
                Opcode::Close => {
                    match parse_close_payload(&f.payload) {
                        Err(k) => {
                            self.fail(k);
                            Err(WebSocketError::FrameProtocol(k))
                        },
                        Ok(data) => {
                            let echo: u16 = match &data {
                                Some(cd) => cd.code,
                                None => 1000,
                            };
                            let empty: Vec<u8> = Vec::new();
                            let cf = make_close_frame(echo, empty.as_slice());
                            self.enqueue_frame(&cf);
                            self.state = ConnState::ClosingRemote;
                            self.partial_opcode = None;
                            self.partial_payload = Vec::new();
                            let delivered: Option<CloseData> = match data {
                                Some(cd) => {
                                    let code = cd.code;
                                    let reason = vstd::slice::slice_to_vec(
                                        cd.reason.as_slice(),
                                    );
                                    self.peer_close = Some(cd);
                                    Some(CloseData { code, reason })
                                },
                                None => {
                                    self.peer_close = None;
                                    None
                                },
                            };
                            Ok(Some(Message::Close(delivered)))
                        },
                    }
                },
                Opcode::Text | Opcode::Binary => {
                    if self.partial_opcode.is_some() {
                        self.fail(FrameProtocolKind::BadContinuation);
                        Err(
                            WebSocketError::FrameProtocol(
                                FrameProtocolKind::BadContinuation,
                            ),
                        )
                    } else if f.payload.len() > self.max_message_size {
                        self.fail(FrameProtocolKind::MessageTooBig);
                        Err(WebSocketError::FrameProtocol(FrameProtocolKind::MessageTooBig))
                    } else if f.fin {
                        if f.opcode == Opcode::Text && !is_utf8(f.payload.as_slice()) {
                            self.fail(FrameProtocolKind::BadUtf8);
                            Err(WebSocketError::FrameProtocol(FrameProtocolKind::BadUtf8))
                        } else if f.opcode == Opcode::Text {
                            Ok(Some(Message::Text(f.payload)))
                        } else {
                            Ok(Some(Message::Binary(f.payload)))
                        }
                    } else if f.opcode == Opcode::Text && !is_utf8_prefix(
                        f.payload.as_slice(),
                    ) {
                        self.fail(FrameProtocolKind::BadUtf8);
                        Err(WebSocketError::FrameProtocol(FrameProtocolKind::BadUtf8))
                    } else {
                        self.partial_opcode = Some(f.opcode);
                        self.partial_payload = f.payload;
                        Ok(None)
                    }
                },
                Opcode::Continuation => {
                    if self.partial_opcode.is_none() {
                        self.fail(FrameProtocolKind::BadContinuation);
                        Err(
                            WebSocketError::FrameProtocol(
                                FrameProtocolKind::BadContinuation,
                            ),
                        )
                    } else {
                        let mut fp = f.payload;
                        self.partial_payload.append(&mut fp);
                        if self.partial_payload.len() > self.max_message_size {
                            self.fail(FrameProtocolKind::MessageTooBig);
                            Err(
                                WebSocketError::FrameProtocol(
                                    FrameProtocolKind::MessageTooBig,
                                ),
                            )
                        } else if f.fin {
                            let op = match self.partial_opcode {
                                Some(op) => op,
                                None => {
                                    proof {
                                        assert(false);
                                    }
                                    Opcode::Binary
                                },
                            };
                            let mut total: Vec<u8> = Vec::new();
                            core::mem::swap(&mut total, &mut self.partial_payload);
                            self.partial_opcode = None;
                            if op == Opcode::Text && !is_utf8(total.as_slice()) {
                                self.fail(FrameProtocolKind::BadUtf8);
                                Err(WebSocketError::FrameProtocol(FrameProtocolKind::BadUtf8))
                            } else if op == Opcode::Text {
                                Ok(Some(Message::Text(total)))
                            } else {
                                Ok(Some(Message::Binary(total)))
                            }
                        } else {
                            let op = match self.partial_opcode {
                                Some(op) => op,
                                None => {
                                    proof {
                                        assert(false);
                                    }
                                    Opcode::Binary
                                },
                            };
                            if op == Opcode::Text && !is_utf8_prefix(
                                self.partial_payload.as_slice(),
                            ) {
                                self.fail(FrameProtocolKind::BadUtf8);
                                Err(WebSocketError::FrameProtocol(FrameProtocolKind::BadUtf8))
                            } else {
                                Ok(None)
                            }
                        }
                    }
                },
            }
        } else {
            // ClosingLocal: only the peer's Close still matters.
            if f.opcode == Opcode::Close {
                match parse_close_payload(&f.payload) {
                    Err(k) => {
                        self.state = ConnState::Closed;
                        self.partial_opcode = None;
                        self.partial_payload = Vec::new();
                        Err(WebSocketError::FrameProtocol(k))
                    },
                    Ok(data) => {
                        self.state = ConnState::Closed;
                        self.partial_opcode = None;
                        self.partial_payload = Vec::new();
                        let delivered: Option<CloseData> = match data {
                            Some(cd) => {
                                let code = cd.code;
                                let reason = vstd::slice::slice_to_vec(
                                    cd.reason.as_slice(),
                                );
                                self.peer_close = Some(cd);
                                Some(CloseData { code, reason })
                            },
                            None => {
                                self.peer_close = None;
                                None
                            },
                        };
                        Ok(Some(Message::Close(delivered)))
                    },
                }
            } else {
                Ok(None)
            }
        }
    }
}

/// Whatever the decoder accepts is a well-formed frame, and it takes
/// between two bytes and the whole buffer.
pub proof fn lemma_decode_wf(buf: Seq<u8>, from_client: bool)
    ensures
        match spec_decode(buf, from_client) {
            SpecDecodeOutcome::Decoded(f, n) => frame_wf(f) && 2 <= n <= buf.len(),
            _ => true,
        },
{
    match spec_decode(buf, from_client) {
        SpecDecodeOutcome::Decoded(f, n) => {
            let b1 = buf[1];
            let l7 = b1 % 128;
            if l7 == 127 {
                let s = buf.subrange(2, 10);
                assert(s[0] < 128);
                assert(s[0] * 0x100000000000000 + s[1] * 0x1000000000000 + s[2]
                    * 0x10000000000 + s[3] * 0x100000000 + s[4] * 0x1000000 + s[5]
                    * 0x10000 + s[6] * 0x100 + s[7] < 0x8000000000000000);
            }
        },
        _ => {},
    }
}

/// The opcode and payload length a frame header announces, once enough
/// of the header is there to read them.
pub open spec fn announced_frame(buf: Seq<u8>) -> Option<(u8, int)> {
    if buf.len() < 2 {
        None
    } else {
        let opnum = buf[0] % 16;
        let l7 = buf[1] % 128;
        if l7 <= 125 {
            Some((opnum, l7 as int))
        } else if l7 == 126 {
            if buf.len() < 4 {
                None
            } else {
                Some((opnum, buf[2] * 256 + buf[3]))
            }
        } else {
            if buf.len() < 10 {
                None
            } else {
                Some((opnum, crate::frame::be8_val(buf.subrange(2, 10))))
            }
        }
    }
}

/// A data frame announced too large for the message cap, seen from the
/// header alone: a fresh Text or Binary frame longer than the cap, or a
/// continuation that would push the accumulator past it.  Failing on
/// this keeps the read buffer bounded: the payload never needs to be
/// buffered.
pub open spec fn oversize_announced(s: EndpointView) -> bool {
    match announced_frame(s.read_buf) {
        Some((opnum, alen)) => if opnum == 1 || opnum == 2 {
            s.partial is None && alen > s.max_msg
        } else if opnum == 0 {
            match s.partial {
                Some((op, acc)) => acc.len() + alen > s.max_msg,
                None => false,
            }
        } else {
            false
        },
        None => false,
    }
}

/// What reading produced: more bytes are needed, a frame moved the
/// machine without finishing a message, or a whole message.
#[derive(Debug)]
pub enum RecvEvent {
    NeedMore,
    Progress,
    Msg(Message),
}

/// Everything `next_event` promises.  Once the connection is closed (or
/// the peer closed it) reading only reports that.  Otherwise the front
/// of the read buffer decides: an incomplete frame asks for more bytes
/// and changes nothing; a bad frame tears the connection down with the
/// matching Close queued; a whole frame is consumed and handed to the
/// step function.
pub open spec fn next_event_post(
    pre: EndpointView,
    post: EndpointView,
    r: Result<RecvEvent, WebSocketError>,
) -> bool {
    if pre.state == ConnState::Closed {
        post == pre && r is Err && r->Err_0 == WebSocketError::ClosedByUs
    } else if pre.state == ConnState::ClosingRemote {
        post == pre && r is Err && is_peer_close_error(r->Err_0, pre.peer_close)
    } else {
        match spec_decode(pre.read_buf, pre.server_role) {
            SpecDecodeOutcome::Incomplete => if oversize_announced(pre) {
                &&& post == (EndpointView {
                    state: ConnState::Closed,
                    partial: None,
                    write_buf: post.write_buf,
                    ..pre
                })
                &&& sent_frame(
                    pre.write_buf,
                    post.write_buf,
                    close_frame(
                        FrameProtocolKind::MessageTooBig.spec_close_code(),
                        Seq::empty(),
                    ),
                    pre.server_role,
                )
                &&& r is Err && r->Err_0 == WebSocketError::FrameProtocol(
                    FrameProtocolKind::MessageTooBig,
                )
            } else {
                post == pre && r is Ok && r->Ok_0 is NeedMore
            },
            SpecDecodeOutcome::Bad(k) => {
                &&& post == (EndpointView {
                    state: ConnState::Closed,
                    partial: None,
                    write_buf: post.write_buf,
                    ..pre
                })
                &&& sent_frame(
                    pre.write_buf,
                    post.write_buf,
                    close_frame(k.spec_close_code(), Seq::empty()),
                    pre.server_role,
                )
                &&& r is Err && r->Err_0 == WebSocketError::FrameProtocol(k)
            },
            SpecDecodeOutcome::Decoded(f, n) => {
                let mid = EndpointView { read_buf: pre.read_buf.skip(n), ..pre };
                let step = spec_step(mid, f);
                &&& post.read_buf == pre.read_buf.skip(n)
                &&& post.state == step.state
                &&& post.partial == step.partial
                &&& post.peer_close == step.peer_close
                &&& post.server_role == pre.server_role
                &&& post.max_msg == pre.max_msg
                &&& match step.reply {
                    None => post.write_buf == pre.write_buf,
                    Some(rf) => sent_frame(pre.write_buf, post.write_buf, rf, pre.server_role),
                }
                &&& match step.error {
                    Some(k) => r is Err && r->Err_0 == WebSocketError::FrameProtocol(k),
                    None => match step.deliver {
                        Some(m) => r is Ok && r->Ok_0 is Msg && r->Ok_0->Msg_0@ == m,
                        None => r is Ok && r->Ok_0 is Progress,
                    },
                }
            },
        }
    }
}

impl Endpoint {
    /// The error owed to a caller who touches a connection the peer has
    /// already closed.
    fn peer_closed_error(&self) -> (e: WebSocketError)
        ensures
            is_peer_close_error(e, self@.peer_close),
    {
        match &self.peer_close {
            Some(cd) => WebSocketError::ClosedByPeer(
                cd.code,
                vstd::slice::slice_to_vec(cd.reason.as_slice()),
            ),
            None => WebSocketError::ClosedByPeer(1000, Vec::new()),
        }
    }

    /// Whether the frame at the front announces a payload that cannot
    /// fit the message cap.
    fn announced_oversize(&self) -> (r: bool)
        requires
            self.wf(),
        ensures
            r == oversize_announced(self@),
    {
        let buf = &self.read_buf;
        if buf.len() < 2 {
            return false;
        }
        let opnum = buf[0] % 16;
        let l7 = buf[1] % 128;
        let alen: u64 = if l7 <= 125 {
            l7 as u64
        } else if l7 == 126 {
            if buf.len() < 4 {
                return false;
            }
            (buf[2] as u64) * 256 + (buf[3] as u64)
        } else {
            if buf.len() < 10 {
                return false;
            }
            (buf[2] as u64) * 0x100000000000000 + (buf[3] as u64) * 0x1000000000000 + (
            buf[4] as u64) * 0x10000000000 + (buf[5] as u64) * 0x100000000 + (
            buf[6] as u64) * 0x1000000 + (buf[7] as u64) * 0x10000 + (buf[8] as u64)
                * 0x100 + (buf[9] as u64)
        };
        if opnum == 1 || opnum == 2 {
            self.partial_opcode.is_none() && alen > (self.max_message_size as u64)
        } else if opnum == 0 {
            match self.partial_opcode {
                Some(_) => alen > ((self.max_message_size - self.partial_payload.len())
                    as u64),
                None => false,
            }
        } else {
            false
        }
    }

    /// Decode and act on the next frame of the read buffer.
    pub fn next_event(&mut self) -> (r: Result<RecvEvent, WebSocketError>)
        requires
            old(self).wf(),
        ensures
            final(self).wf(),
            next_event_post(old(self)@, final(self)@, r),
    {
        match self.state {
            ConnState::Closed => Err(WebSocketError::ClosedByUs),
            ConnState::ClosingRemote => Err(self.peer_closed_error()),
            ConnState::Handshaking => {
                proof {
                    assert(false);
                }
                Err(WebSocketError::ClosedByUs)
            },
            ConnState::Open | ConnState::ClosingLocal => {
                proof {
                    lemma_decode_wf(self.read_buf@, self.server_role);
                }
                match decode_frame(&self.read_buf, self.server_role) {
                    DecodeStep::Incomplete => {
                        if self.announced_oversize() {
                            self.fail(FrameProtocolKind::MessageTooBig);
                            Err(
                                WebSocketError::FrameProtocol(
                                    FrameProtocolKind::MessageTooBig,
                                ),
                            )
                        } else {
                            Ok(RecvEvent::NeedMore)
                        }
                    },
                    DecodeStep::Bad(k) => {
                        self.fail(k);
                        Err(WebSocketError::FrameProtocol(k))
                    },
                    DecodeStep::Decoded(f, n) => {
                        drop_prefix(&mut self.read_buf, n);
                        match self.handle_frame(f) {
                            Err(e) => Err(e),
                            Ok(Some(m)) => Ok(RecvEvent::Msg(m)),
                            Ok(None) => Ok(RecvEvent::Progress),
                        }
                    },
                }
            },
        }
    }
}

/// The single frame a message travels in when it is not fragmented.
pub open spec fn msg_frame(m: MessageView) -> FrameView {
    match m {
        MessageView::Text(p) => FrameView {
            fin: true,
            rsv1: false,
            rsv2: false,
            rsv3: false,
            opcode: Opcode::Text,
            payload: p,
        },
        MessageView::Binary(p) => FrameView {
            fin: true,
            rsv1: false,
            rsv2: false,
            rsv3: false,
            opcode: Opcode::Binary,
            payload: p,
        },
        MessageView::Ping(p) => unfragmented_frame(Opcode::Ping, p),
        MessageView::Pong(p) => unfragmented_frame(Opcode::Pong, p),
        MessageView::Close(d) => match d {
            Some((c, rs)) => close_frame(c, rs),
            None => close_frame(1000, Seq::empty()),
        },
    }
}

pub open spec fn unfragmented_frame(op: Opcode, p: Seq<u8>) -> FrameView {
    FrameView { fin: true, rsv1: false, rsv2: false, rsv3: false, opcode: op, payload: p }
}

/// Why a message may not be sent: an oversized control payload, a close
/// code that must not travel, or a payload too long for any frame.
pub open spec fn send_check(m: MessageView) -> Option<FrameProtocolKind> {
    match m {
        MessageView::Text(p) => if p.len() >= 0x8000000000000000 {
            Some(FrameProtocolKind::MessageTooBig)
        } else {
            None
        },
        MessageView::Binary(p) => if p.len() >= 0x8000000000000000 {
            Some(FrameProtocolKind::MessageTooBig)
        } else {
            None
        },
        MessageView::Ping(p) => if p.len() > 125 {
            Some(FrameProtocolKind::ControlTooLong)
        } else {
            None
        },
        MessageView::Pong(p) => if p.len() > 125 {
            Some(FrameProtocolKind::ControlTooLong)
        } else {
            None
        },
        MessageView::Close(d) => match d {
            None => None,
            Some((c, rs)) => if rs.len() > 123 {
                Some(FrameProtocolKind::ControlTooLong)
            } else if !close_code_ok(c) {
                Some(FrameProtocolKind::BadCloseCode)
            } else {
                None
            },
        },
    }
}

/// Everything `send_message` promises.  Sending is owed exactly in
/// `Open` for a message that passes `send_check`: its one frame is
/// queued, and a Close moves the connection to `ClosingLocal`.
pub open spec fn send_post(
    pre: EndpointView,
    post: EndpointView,
    m: MessageView,
    r: Result<(), WebSocketError>,
) -> bool {
    if pre.state != ConnState::Open {
        &&& post == pre
        &&& r is Err
        &&& (pre.state == ConnState::ClosingRemote ==> is_peer_close_error(
            r->Err_0,
            pre.peer_close,
        ))
        &&& (pre.state != ConnState::ClosingRemote ==> r->Err_0
            == WebSocketError::ClosedByUs)
    } else {
        match send_check(m) {
            Some(k) => post == pre && r is Err && r->Err_0 == WebSocketError::FrameProtocol(
                k,
            ),
            None => {
                &&& r is Ok
                &&& sent_frame(pre.write_buf, post.write_buf, msg_frame(m), pre.server_role)
                &&& post == (EndpointView {
                    write_buf: post.write_buf,
                    state: if m is Close {
                        ConnState::ClosingLocal
                    } else {
                        ConnState::Open
                    },
                    partial: if m is Close {
                        None
                    } else {
                        pre.partial
                    },
                    ..pre
                })
            },
        }
    }
}

impl Endpoint {
    /// Queue a whole message for the peer in a single frame.
    pub fn send_message(&mut self, m: Message) -> (r: Result<(), WebSocketError>)
        requires
            old(self).wf(),
        ensures
            final(self).wf(),
            send_post(old(self)@, final(self)@, m@, r),
    {
        if self.state != ConnState::Open {
            if self.state == ConnState::ClosingRemote {
                return Err(self.peer_closed_error());
            }
            return Err(WebSocketError::ClosedByUs);
        }
        match m {
            Message::Text(p) => {
                if (p.len() as u64) >= 0x8000000000000000u64 {
                    return Err(WebSocketError::FrameProtocol(FrameProtocolKind::MessageTooBig));
                }
                let fr = Frame::new(true, Opcode::Text, p);
                self.enqueue_frame(&fr);
                Ok(())
            },
            Message::Binary(p) => {
                if (p.len() as u64) >= 0x8000000000000000u64 {
                    return Err(WebSocketError::FrameProtocol(FrameProtocolKind::MessageTooBig));
                }
                let fr = Frame::new(true, Opcode::Binary, p);
                self.enqueue_frame(&fr);
                Ok(())
            },
            Message::Ping(p) => {
                if p.len() > 125 {
                    return Err(WebSocketError::FrameProtocol(FrameProtocolKind::ControlTooLong));
                }
                let fr = Frame::new(true, Opcode::Ping, p);
                self.enqueue_frame(&fr);
                Ok(())
            },
            Message::Pong(p) => {
                if p.len() > 125 {
                    return Err(WebSocketError::FrameProtocol(FrameProtocolKind::ControlTooLong));
                }
                let fr = Frame::new(true, Opcode::Pong, p);
                self.enqueue_frame(&fr);
                Ok(())
            },
            Message::Close(d) => {
                let (code, reason): (u16, Vec<u8>) = match d {
                    Some(cd) => {
                        if cd.reason.len() > 123 {
                            return Err(
                                WebSocketError::FrameProtocol(
                                    FrameProtocolKind::ControlTooLong,
                                ),
                            );
                        }
                        if !close_code_allowed(cd.code) {
                            return Err(
                                WebSocketError::FrameProtocol(
                                    FrameProtocolKind::BadCloseCode,
                                ),
                            );
                        }
                        (cd.code, cd.reason)
                    },
                    None => (1000u16, Vec::new()),
                };
                let fr = make_close_frame(code, reason.as_slice());
                self.enqueue_frame(&fr);
                self.state = ConnState::ClosingLocal;
                self.partial_opcode = None;
                self.partial_payload = Vec::new();
                Ok(())
            },
        }
    }

    /// Start the close handshake with this code and reason.
    pub fn close(&mut self, code: u16, reason: Vec<u8>) -> (r: Result<(), WebSocketError>)
        requires
            old(self).wf(),
        ensures
            final(self).wf(),
            send_post(
                old(self)@,
                final(self)@,
                MessageView::Close(Some((code, reason@))),
                r,
            ),
    {
        self.send_message(Message::Close(Some(CloseData { code, reason })))
    }

    /// Read until a whole message is there, more bytes are needed, or
    /// the connection dies.  `Ok(None)` means: feed more bytes and try
    /// again.  Every outcome is tied to a run of the machine over the
    /// frames consumed off the read buffer.
    pub fn recv(&mut self) -> (r: Result<Option<Message>, WebSocketError>)
        requires
            old(self).wf(),
        ensures
            final(self).wf(),
            final(self)@.server_role == old(self)@.server_role,
            final(self)@.max_msg == old(self)@.max_msg,
            old(self)@.write_buf.is_prefix_of(final(self)@.write_buf),
            r is Ok && r->Ok_0 is None ==> spec_decode(
                final(self)@.read_buf,
                final(self)@.server_role,
            ) is Incomplete,
            r is Ok && r->Ok_0 is None ==> exists|frames: Seq<FrameView>|
                #[trigger] recv_quiet_to(old(self)@, final(self)@, frames),
            r is Ok && r->Ok_0 is Some ==> final(self)@.read_buf.len() < old(
                self,
            )@.read_buf.len() && exists|frames: Seq<FrameView>, rest: Seq<u8>, m: MessageView|
                #[trigger] recv_delivered_at(old(self)@, final(self)@, frames, rest, m)
                    && m == r->Ok_0->Some_0@,
            r is Err && r->Err_0 is FrameProtocol ==> final(self)@.state
                == ConnState::Closed && exists|frames: Seq<FrameView>, rest: Seq<u8>|
                #[trigger] recv_failed_at(
                    old(self)@,
                    final(self)@,
                    frames,
                    rest,
                    r->Err_0->FrameProtocol_0,
                ),
            r is Err && r->Err_0 is ClosedByUs ==> old(self)@.state == ConnState::Closed
                && final(self)@ == old(self)@,
            r is Err && r->Err_0 is ClosedByPeer ==> old(self)@.state
                == ConnState::ClosingRemote && final(self)@ == old(self)@
                && is_peer_close_error(r->Err_0, old(self)@.peer_close),
    {
        let ghost mut frames: Seq<FrameView> = Seq::empty();
        proof {
            assert(run_view(old(self)@, frames) == old(self)@);
            assert(run_deliveries(old(self)@, frames) == Seq::<MessageView>::empty());
        }
        loop
            invariant
                self.wf(),
                self@.server_role == old(self)@.server_role,
                self@.max_msg == old(self)@.max_msg,
                self@.read_buf.len() <= old(self)@.read_buf.len(),
                old(self)@.write_buf.is_prefix_of(self@.write_buf),
                self@.state == old(self)@.state,
                old(self)@.state == ConnState::Closed ==> self@ == old(self)@,
                old(self)@.state == ConnState::ClosingRemote ==> self@ == old(self)@,
                decodes_to(
                    old(self)@.read_buf,
                    old(self)@.server_role,
                    frames,
                    self@.read_buf,
                ),
                run_clean(old(self)@, frames),
                run_deliveries(old(self)@, frames) == Seq::<MessageView>::empty(),
                self@.state == run_view(old(self)@, frames).state,
                self@.partial == run_view(old(self)@, frames).partial,
                self@.peer_close == run_view(old(self)@, frames).peer_close,
            decreases self@.read_buf.len(),
        {
            let ghost pre = self@;
            proof {
                lemma_decode_wf(pre.read_buf, pre.server_role);
            }
            match self.next_event() {
                Err(e) => {
                    proof {
                        lemma_prefix_chain(old(self)@.write_buf, pre.write_buf, self@.write_buf);
                        if pre.state == ConnState::Closed || pre.state
                            == ConnState::ClosingRemote {
                        } else {
                            let mid = run_view(old(self)@, frames);
                            match spec_decode(pre.read_buf, pre.server_role) {
                                SpecDecodeOutcome::Incomplete => {
                                    let v2 = EndpointView {
                                        read_buf: pre.read_buf,
                                        partial: mid.partial,
                                        ..old(self)@
                                    };
                                    assert(announced_frame(v2.read_buf) == announced_frame(
                                        pre.read_buf,
                                    ));
                                    assert(oversize_announced(v2) == oversize_announced(
                                        pre,
                                    ));
                                    assert(recv_failed_at(
                                        old(self)@,
                                        self@,
                                        frames,
                                        pre.read_buf,
                                        FrameProtocolKind::MessageTooBig,
                                    ));
                                },
                                SpecDecodeOutcome::Bad(k) => {
                                    assert(recv_failed_at(
                                        old(self)@,
                                        self@,
                                        frames,
                                        pre.read_buf,
                                        k,
                                    ));
                                },
                                SpecDecodeOutcome::Decoded(f, n) => {
                                    let mid_p = EndpointView {
                                        read_buf: pre.read_buf.skip(n),
                                        ..pre
                                    };
                                    lemma_run_view_keeps_config(old(self)@, frames);
                                    lemma_step_ignores_buffers(mid_p, mid, f);
                                    let k = spec_step(mid, f).error->Some_0;
                                    assert(recv_failed_at(
                                        old(self)@,
                                        self@,
                                        frames,
                                        pre.read_buf,
                                        k,
                                    ));
                                },
                            }
                        }
                    }
                    return Err(e);
                },
                Ok(RecvEvent::NeedMore) => {
                    proof {
                        assert(recv_quiet_to(old(self)@, self@, frames));
                    }
                    return Ok(None);
                },
                Ok(RecvEvent::Msg(m)) => {
                    proof {
                        lemma_prefix_chain(old(self)@.write_buf, pre.write_buf, self@.write_buf);
                        let mid = run_view(old(self)@, frames);
                        match spec_decode(pre.read_buf, pre.server_role) {
                            SpecDecodeOutcome::Decoded(f, n) => {
                                let mid_p = EndpointView {
                                    read_buf: pre.read_buf.skip(n),
                                    ..pre
                                };
                                lemma_run_view_keeps_config(old(self)@, frames);
                                lemma_step_ignores_buffers(mid_p, mid, f);
                                assert(recv_delivered_at(
                                    old(self)@,
                                    self@,
                                    frames,
                                    pre.read_buf,
                                    m@,
                                ));
                                assert(self@.read_buf.len() < old(self)@.read_buf.len());
                                assert(exists|fr: Seq<FrameView>, re: Seq<u8>|
                                    #[trigger] recv_delivered_at(
                                        old(self)@,
                                        self@,
                                        fr,
                                        re,
                                        m@,
                                    ));
                            },
                            _ => {
                                assert(false);
                            },
                        }
                    }
                    return Ok(Some(m));
                },
                Ok(RecvEvent::Progress) => {
                    proof {
                        lemma_prefix_chain(old(self)@.write_buf, pre.write_buf, self@.write_buf);
                        let mid = run_view(old(self)@, frames);
                        match spec_decode(pre.read_buf, pre.server_role) {
                            SpecDecodeOutcome::Decoded(f, n) => {
                                let mid_p = EndpointView {
                                    read_buf: pre.read_buf.skip(n),
                                    ..pre
                                };
                                lemma_run_view_keeps_config(old(self)@, frames);
                                lemma_step_ignores_buffers(mid_p, mid, f);
                                lemma_quiet_step_keeps_state(mid, f);
                                lemma_decodes_to_push(
                                    old(self)@.read_buf,
                                    old(self)@.server_role,
                                    frames,
                                    pre.read_buf,
                                    f,
                                    n,
                                );
                                lemma_run_clean_push(old(self)@, frames, f);
                                lemma_run_deliveries_push(old(self)@, frames, f);
                                lemma_run_view_push(old(self)@, frames, f);
                                frames = frames.push(f);
                                assert(run_deliveries(old(self)@, frames)
                                    =~= Seq::<MessageView>::empty());
                            },
                            _ => {
                                assert(false);
                            },
                        }
                    }
                },
            }
        }
    }
}

/// `frames` decode one after another off the front of `buf`, leaving
/// `rest`.
pub open spec fn decodes_to(
    buf: Seq<u8>,
    from_client: bool,
    frames: Seq<FrameView>,
    rest: Seq<u8>,
) -> bool
    decreases frames.len(),
{
    if frames.len() == 0 {
        rest == buf
    } else {
        match spec_decode(buf, from_client) {
            SpecDecodeOutcome::Decoded(f, n) => f == frames[0] && decodes_to(
                buf.skip(n),
                from_client,
                frames.skip(1),
                rest,
            ),
            _ => false,
        }
    }
}

/// `recv` ran the machine quietly over `frames`: they decode in order
/// off the read buffer, none errs, none delivers, and the machine's
/// fields moved exactly as the steps say.
pub open spec fn recv_quiet_to(
    pre: EndpointView,
    post: EndpointView,
    frames: Seq<FrameView>,
) -> bool {
    &&& decodes_to(pre.read_buf, pre.server_role, frames, post.read_buf)
    &&& run_clean(pre, frames)
    &&& run_deliveries(pre, frames) == Seq::<MessageView>::empty()
    &&& post.state == run_view(pre, frames).state
    &&& post.partial == run_view(pre, frames).partial
    &&& post.peer_close == run_view(pre, frames).peer_close
}

/// After a quiet run leaving `rest` in the buffer, one more decoded
/// frame delivered the message, and the machine moved as its step says.
pub open spec fn recv_delivered_at(
    pre: EndpointView,
    post: EndpointView,
    frames: Seq<FrameView>,
    rest: Seq<u8>,
    m: MessageView,
) -> bool {
    let mid = run_view(pre, frames);
    &&& decodes_to(pre.read_buf, pre.server_role, frames, rest)
    &&& run_clean(pre, frames)
    &&& run_deliveries(pre, frames) == Seq::<MessageView>::empty()
    &&& (spec_decode(rest, pre.server_role) matches SpecDecodeOutcome::Decoded(f, n) && ({
        let st = spec_step(mid, f);
        &&& st.error is None
        &&& st.deliver == Some(m)
        &&& post.read_buf == rest.skip(n)
        &&& post.state == st.state
        &&& post.partial == st.partial
        &&& post.peer_close == st.peer_close
    }))
}

/// After a quiet run leaving `rest` in the buffer, the connection died
/// with the protocol error `k`: the decoder refused the next frame, its
/// announced size broke the cap, or its step committed the error.
pub open spec fn recv_failed_at(
    pre: EndpointView,
    post: EndpointView,
    frames: Seq<FrameView>,
    rest: Seq<u8>,
    k: FrameProtocolKind,
) -> bool {
    let mid = run_view(pre, frames);
    &&& decodes_to(pre.read_buf, pre.server_role, frames, rest)
    &&& run_clean(pre, frames)
    &&& run_deliveries(pre, frames) == Seq::<MessageView>::empty()
    &&& post.state == ConnState::Closed
    &&& post.partial is None
    &&& ({
        ||| (spec_decode(rest, pre.server_role) == SpecDecodeOutcome::Bad(k)
            && post.read_buf == rest)
        ||| (spec_decode(rest, pre.server_role) is Incomplete && k
            == FrameProtocolKind::MessageTooBig && oversize_announced(
            EndpointView { read_buf: rest, partial: mid.partial, ..pre },
        ) && post.read_buf == rest)
        ||| (spec_decode(rest, pre.server_role) matches SpecDecodeOutcome::Decoded(f, n)
            && spec_step(mid, f).error == Some(k) && post.read_buf == rest.skip(n))
    })
}

/// A decode chain extends by the next frame of its remainder.
proof fn lemma_decodes_to_push(
    buf: Seq<u8>,
    from_client: bool,
    frames: Seq<FrameView>,
    rest: Seq<u8>,
    f: FrameView,
    n: int,
)
    requires
        decodes_to(buf, from_client, frames, rest),
        spec_decode(rest, from_client) == SpecDecodeOutcome::Decoded(f, n),
    ensures
        decodes_to(buf, from_client, frames.push(f), rest.skip(n)),
    decreases frames.len(),
{
    if frames.len() == 0 {
        assert(frames.push(f)[0] == f);
        assert(frames.push(f).skip(1) =~= Seq::<FrameView>::empty());
        assert(decodes_to(
            buf.skip(n),
            from_client,
            Seq::<FrameView>::empty(),
            rest.skip(n),
        ));
    } else {
        assert(frames.push(f)[0] == frames[0]);
        assert(frames.push(f).skip(1) =~= frames.skip(1).push(f));
        match spec_decode(buf, from_client) {
            SpecDecodeOutcome::Decoded(f0, n0) => {
                lemma_decodes_to_push(buf.skip(n0), from_client, frames.skip(1), rest, f, n);
            },
            _ => {
                assert(false);
            },
        }
    }
}

/// Appending a frame to a run steps the final view once more.
proof fn lemma_run_view_push(s: EndpointView, frames: Seq<FrameView>, f: FrameView)
    ensures
        run_view(s, frames.push(f)) == step_view(run_view(s, frames), f),
    decreases frames.len(),
{
    if frames.len() == 0 {
        assert(frames.push(f)[0] == f);
        assert(frames.push(f).skip(1) =~= Seq::<FrameView>::empty());
        assert(run_view(s, frames) == s);
        assert(run_view(step_view(s, f), Seq::<FrameView>::empty()) == step_view(s, f));
    } else {
        assert(frames.push(f)[0] == frames[0]);
        assert(frames.push(f).skip(1) =~= frames.skip(1).push(f));
        lemma_run_view_push(step_view(s, frames[0]), frames.skip(1), f);
    }
}

/// A clean run stays clean when the appended frame's step commits no
/// error.
proof fn lemma_run_clean_push(s: EndpointView, frames: Seq<FrameView>, f: FrameView)
    requires
        run_clean(s, frames),
        spec_step(run_view(s, frames), f).error is None,
    ensures
        run_clean(s, frames.push(f)),
    decreases frames.len(),
{
    if frames.len() == 0 {
        assert(frames.push(f)[0] == f);
        assert(frames.push(f).skip(1) =~= Seq::<FrameView>::empty());
        assert(run_view(s, frames) == s);
        assert(run_clean(step_view(s, f), Seq::<FrameView>::empty()));
    } else {
        assert(frames.push(f)[0] == frames[0]);
        assert(frames.push(f).skip(1) =~= frames.skip(1).push(f));
        lemma_run_clean_push(step_view(s, frames[0]), frames.skip(1), f);
    }
}

/// Appending a frame appends whatever its step delivers.
proof fn lemma_run_deliveries_push(s: EndpointView, frames: Seq<FrameView>, f: FrameView)
    ensures
        run_deliveries(s, frames.push(f)) == run_deliveries(s, frames) + (
        match spec_step(run_view(s, frames), f).deliver {
            Some(m) => seq![m],
            None => Seq::<MessageView>::empty(),
        }),
    decreases frames.len(),
{
    if frames.len() == 0 {
        assert(frames.push(f)[0] == f);
        assert(frames.push(f).skip(1) =~= Seq::<FrameView>::empty());
        assert(run_view(s, frames) == s);
        assert(run_deliveries(s, frames) == Seq::<MessageView>::empty());
        assert(run_deliveries(step_view(s, f), Seq::<FrameView>::empty())
            == Seq::<MessageView>::empty());
        assert(run_deliveries(s, frames.push(f)) =~= run_deliveries(s, frames) + (
        match spec_step(run_view(s, frames), f).deliver {
            Some(m) => seq![m],
            None => Seq::<MessageView>::empty(),
        }));
    } else {
        assert(frames.push(f)[0] == frames[0]);
        assert(frames.push(f).skip(1) =~= frames.skip(1).push(f));
        lemma_run_deliveries_push(step_view(s, frames[0]), frames.skip(1), f);
        assert(run_deliveries(s, frames.push(f)) =~= run_deliveries(s, frames) + (
        match spec_step(run_view(s, frames), f).deliver {
            Some(m) => seq![m],
            None => Seq::<MessageView>::empty(),
        }));
    }
}

/// A run never touches the role, the cap, or the buffers the steps
/// carry along.
proof fn lemma_run_view_keeps_config(s: EndpointView, frames: Seq<FrameView>)
    ensures
        run_view(s, frames).server_role == s.server_role,
        run_view(s, frames).max_msg == s.max_msg,
    decreases frames.len(),
{
    if frames.len() > 0 {
        lemma_run_view_keeps_config(step_view(s, frames[0]), frames.skip(1));
    }
}

/// A step reads only the machine's state fields, never its buffers.
proof fn lemma_step_ignores_buffers(a: EndpointView, b: EndpointView, f: FrameView)
    requires
        a.state == b.state,
        a.partial == b.partial,
        a.peer_close == b.peer_close,
        a.max_msg == b.max_msg,
    ensures
        spec_step(a, f) == spec_step(b, f),
{
    assert(spec_step(a, f) =~= spec_step(b, f));
}

/// A step that neither delivers nor errs leaves the state unchanged.
proof fn lemma_quiet_step_keeps_state(s: EndpointView, f: FrameView)
    requires
        spec_step(s, f).deliver is None,
        spec_step(s, f).error is None,
    ensures
        spec_step(s, f).state == s.state,
{
}

/// Prefixes chain: what was a prefix stays one as the buffer grows.
proof fn lemma_prefix_chain(a: Seq<u8>, b: Seq<u8>, c: Seq<u8>)
    requires
        a.is_prefix_of(b),
        b.is_prefix_of(c) || b == c || (exists|t: Seq<u8>| c == b + t),
    ensures
        a.is_prefix_of(c),
{
    if b.is_prefix_of(c) || b == c {
        assert(a =~= c.subrange(0, a.len() as int));
    } else {
        let t = choose|t: Seq<u8>| c == b + t;
        assert(a =~= c.subrange(0, a.len() as int));
    }
}

/// The order the connection moves through: open, closing, closed.
pub open spec fn state_rank(s: ConnState) -> int {
    match s {
        ConnState::Handshaking => 0,
        ConnState::Open => 1,
        ConnState::ClosingLocal => 2,
        ConnState::ClosingRemote => 2,
        ConnState::Closed => 3,
    }
}

/// A step never moves the connection away from Closed, nor backwards:
/// the state only ever advances toward Closed.
pub proof fn lemma_step_monotone(s: EndpointView, f: FrameView)
    ensures
        state_rank(spec_step(s, f).state) >= state_rank(s.state),
{
}

/// Closed is final: no frame moves a closed connection.
pub proof fn lemma_closed_is_final(s: EndpointView, f: FrameView)
    requires
        s.state == ConnState::Closed,
    ensures
        spec_step(s, f) == quiet_step(s, s.partial),
{
}

/// The memory bound: a step never grows the fragment accumulator past
/// the configured cap.
pub proof fn lemma_step_bounded_memory(s: EndpointView, f: FrameView)
    requires
        endpoint_wf(s),
    ensures
        match spec_step(s, f).partial {
            Some((op, acc)) => (op == Opcode::Text || op == Opcode::Binary) && acc.len()
                <= s.max_msg,
            None => true,
        },
{
}

/// A Ping between fragments does not disturb the assembler: the
/// accumulator and the state stay, only the Pong is queued.
pub proof fn lemma_ping_preserves_assembly(s: EndpointView, p: Seq<u8>)
    requires
        s.state == ConnState::Open,
    ensures
        spec_step(s, unfragmented_frame(Opcode::Ping, p)) == (StepResult {
            state: s.state,
            partial: s.partial,
            peer_close: s.peer_close,
            deliver: None,
            reply: Some(pong_frame(p)),
            error: None,
        }),
{
}

/// One step keeps the endpoint invariant: whatever frame arrives, the
/// accumulator stays a bounded data accumulator.
pub proof fn lemma_step_preserves_wf(s: EndpointView, f: FrameView)
    requires
        endpoint_wf(s),
    ensures
        endpoint_wf(step_view(s, f)),
{
}

/// No run of frames ever breaks the endpoint invariant: memory stays
/// bounded by the configured cap along every path.
pub proof fn lemma_run_preserves_wf(s: EndpointView, frames: Seq<FrameView>)
    requires
        endpoint_wf(s),
    ensures
        endpoint_wf(run_view(s, frames)),
    decreases frames.len(),
{
    if frames.len() > 0 {
        lemma_step_preserves_wf(s, frames[0]);
        lemma_run_preserves_wf(step_view(s, frames[0]), frames.skip(1));
    }
}

/// No run of frames moves the connection backwards: every path walks
/// toward Closed.
pub proof fn lemma_run_monotone(s: EndpointView, frames: Seq<FrameView>)
    ensures
        state_rank(run_view(s, frames).state) >= state_rank(s.state),
    decreases frames.len(),
{
    if frames.len() > 0 {
        lemma_step_monotone(s, frames[0]);
        lemma_run_monotone(step_view(s, frames[0]), frames.skip(1));
    }
}

/// The frames a data message travels in when split into these pieces:
/// the first carries the data opcode, the rest are continuations, and
/// only the last is final.
pub open spec fn fragment_frames(op: Opcode, pieces: Seq<Seq<u8>>) -> Seq<FrameView> {
    Seq::new(
        pieces.len(),
        |i: int|
            FrameView {
                fin: i == pieces.len() - 1,
                rsv1: false,
                rsv2: false,
                rsv3: false,
                opcode: if i == 0 {
                    op
                } else {
                    Opcode::Continuation
                },
                payload: pieces[i],
            },
    )
}

/// The continuation frames of pieces that follow an opening fragment.
pub open spec fn cont_frames(pieces: Seq<Seq<u8>>) -> Seq<FrameView> {
    Seq::new(
        pieces.len(),
        |i: int|
            FrameView {
                fin: i == pieces.len() - 1,
                rsv1: false,
                rsv2: false,
                rsv3: false,
                opcode: Opcode::Continuation,
                payload: pieces[i],
            },
    )
}

/// The machine after one step, buffers aside.
pub open spec fn step_view(s: EndpointView, f: FrameView) -> EndpointView {
    let st = spec_step(s, f);
    EndpointView { state: st.state, partial: st.partial, peer_close: st.peer_close, ..s }
}

/// No step of this run commits a protocol error.
pub open spec fn run_clean(s: EndpointView, frames: Seq<FrameView>) -> bool
    decreases frames.len(),
{
    frames.len() == 0 || (spec_step(s, frames[0]).error is None && run_clean(
        step_view(s, frames[0]),
        frames.skip(1),
    ))
}

/// The machine after a run of frames, buffers aside.
pub open spec fn run_view(s: EndpointView, frames: Seq<FrameView>) -> EndpointView
    decreases frames.len(),
{
    if frames.len() == 0 {
        s
    } else {
        run_view(step_view(s, frames[0]), frames.skip(1))
    }
}

/// The messages a run of frames delivers, in order.
pub open spec fn run_deliveries(s: EndpointView, frames: Seq<FrameView>) -> Seq<MessageView>
    decreases frames.len(),
{
    if frames.len() == 0 {
        Seq::empty()
    } else {
        let st = spec_step(s, frames[0]);
        (match st.deliver {
            Some(m) => seq![m],
            None => Seq::<MessageView>::empty(),
        }) + run_deliveries(step_view(s, frames[0]), frames.skip(1))
    }
}

/// Feeding the trailing continuation fragments of a message completes
/// exactly that message and empties the accumulator.
proof fn lemma_continuation_run(s: EndpointView, op: Opcode, acc: Seq<u8>, pieces: Seq<Seq<u8>>)
    requires
        s.state == ConnState::Open,
        s.partial == Some((op, acc)),
        op == Opcode::Text || op == Opcode::Binary,
        pieces.len() >= 1,
        acc.len() + pieces.flatten().len() <= s.max_msg,
        op == Opcode::Text ==> utf8_valid(acc + pieces.flatten()),
    ensures
        run_clean(s, cont_frames(pieces)),
        run_deliveries(s, cont_frames(pieces)) == seq![
            data_message(op, acc + pieces.flatten()),
        ],
        run_view(s, cont_frames(pieces)) == (EndpointView { partial: None, ..s }),
    decreases pieces.len(),
{
    let frames = cont_frames(pieces);
    let f0 = frames[0];
    if pieces.len() == 1 {
        assert(pieces.flatten() =~= pieces[0]);
        assert(f0.fin);
        let total = acc + pieces[0];
        let st = spec_step(s, f0);
        assert(st.deliver == Some(data_message(op, acc + pieces.flatten())));
        assert(frames.skip(1).len() == 0);
        let s1 = step_view(s, f0);
        assert(run_deliveries(s1, frames.skip(1)) == Seq::<MessageView>::empty());
        assert(run_view(s1, frames.skip(1)) == s1);
        assert(run_clean(s1, frames.skip(1)));
        assert(run_deliveries(s, frames) =~= seq![data_message(op, acc + pieces.flatten())]);
        assert(s1 =~= (EndpointView { partial: None, ..s }));
    } else {
        assert(!f0.fin);
        let total0 = acc + pieces[0];
        assert(pieces.flatten() == pieces[0] + pieces.drop_first().flatten());
        assert(pieces.flatten().len() >= pieces[0].len());
        if op == Opcode::Text {
            assert((acc + pieces.flatten()).take(total0.len() as int) =~= total0);
            lemma_utf8_take_prefix(acc + pieces.flatten(), total0.len() as int);
        }
        let st = spec_step(s, f0);
        assert(st.error is None && st.deliver is None);
        let s1 = step_view(s, f0);
        assert(s1.partial == Some((op, total0)));
        assert(total0 + pieces.drop_first().flatten() =~= acc + pieces.flatten());
        lemma_continuation_run(s1, op, total0, pieces.drop_first());
        assert(frames.skip(1) =~= cont_frames(pieces.drop_first()));
        assert(run_deliveries(s1, frames.skip(1)) == seq![
            data_message(op, acc + pieces.flatten()),
        ]);
        assert(run_deliveries(s, frames) =~= seq![data_message(op, acc + pieces.flatten())]);
        assert(run_view(s, frames) == run_view(s1, frames.skip(1)));
        assert((EndpointView { partial: None, ..s1 }) =~= (EndpointView {
            partial: None,
            ..s
        }));
    }
}

/// Fragmentation equivalence: however a Text or Binary message is split
/// into fragments, feeding the fragments through the machine delivers
/// exactly the one reassembled message, commits no error, and returns
/// the machine to the state it started in.
pub proof fn lemma_fragmentation_equivalence(s: EndpointView, op: Opcode, pieces: Seq<Seq<u8>>)
    requires
        s.state == ConnState::Open,
        s.partial is None,
        op == Opcode::Text || op == Opcode::Binary,
        pieces.len() >= 1,
        pieces.flatten().len() <= s.max_msg,
        op == Opcode::Text ==> utf8_valid(pieces.flatten()),
    ensures
        run_clean(s, fragment_frames(op, pieces)),
        run_deliveries(s, fragment_frames(op, pieces)) == seq![
            data_message(op, pieces.flatten()),
        ],
        run_view(s, fragment_frames(op, pieces)) == s,
{
    let frames = fragment_frames(op, pieces);
    let f0 = frames[0];
    if pieces.len() == 1 {
        assert(pieces.drop_first().flatten() == Seq::<u8>::empty());
        assert(pieces.flatten() =~= pieces[0]);
        assert(f0.fin && f0.opcode == op);
        let st = spec_step(s, f0);
        assert(st.deliver == Some(data_message(op, pieces.flatten())));
        assert(frames.skip(1).len() == 0);
        let s1 = step_view(s, f0);
        assert(run_deliveries(s1, frames.skip(1)) == Seq::<MessageView>::empty());
        assert(run_view(s1, frames.skip(1)) == s1);
        assert(run_clean(s1, frames.skip(1)));
        assert(run_deliveries(s, frames) =~= seq![data_message(op, pieces.flatten())]);
        assert(s1 =~= s);
    } else {
        assert(!f0.fin && f0.opcode == op);
        assert(pieces.flatten() == pieces[0] + pieces.drop_first().flatten());
        assert(pieces.flatten().len() >= pieces[0].len());
        if op == Opcode::Text {
            assert(pieces.flatten().take(pieces[0].len() as int) =~= pieces[0]);
            lemma_utf8_take_prefix(pieces.flatten(), pieces[0].len() as int);
        }
        let st = spec_step(s, f0);
        assert(st.error is None && st.deliver is None);
        let s1 = step_view(s, f0);
        assert(s1.partial == Some((op, pieces[0])));
        assert(pieces[0] + pieces.drop_first().flatten() =~= pieces.flatten());
        lemma_continuation_run(s1, op, pieces[0], pieces.drop_first());
        assert(frames.skip(1) =~= cont_frames(pieces.drop_first()));
        assert(run_deliveries(s, frames) =~= seq![data_message(op, pieces.flatten())]);
        assert(run_view(s, frames) == run_view(s1, frames.skip(1)));
        assert((EndpointView { partial: None, ..s1 }) =~= s);
    }
}

} // verus!
