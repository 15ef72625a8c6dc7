//! The RFC 6455 frame codec: one frame to and from bytes, with
//! masking, the three length forms, and the control-frame rules.

use vstd::prelude::*;
use crate::error::FrameProtocolKind;
use crate::mask::{lemma_mask_involution, mask_data, masked_seq};

verus! {

#[derive(Clone, Copy, Debug, PartialEq, Eq, Structural)]
pub enum Opcode {
    Continuation,
    Text,
    Binary,
    Close,
    Ping,
    Pong,
}

/// The wire number of an opcode.
pub open spec fn opcode_num(op: Opcode) -> u8 {
    match op {
        Opcode::Continuation => 0u8,
        Opcode::Text => 1u8,
        Opcode::Binary => 2u8,
        Opcode::Close => 8u8,
        Opcode::Ping => 9u8,
        Opcode::Pong => 10u8,
    }
}

/// The opcode behind a wire number; reserved numbers have none.
pub open spec fn opcode_of_num(n: u8) -> Option<Opcode> {
    if n == 0 {
        Some(Opcode::Continuation)
    } else if n == 1 {
        Some(Opcode::Text)
    } else if n == 2 {
        Some(Opcode::Binary)
    } else if n == 8 {
        Some(Opcode::Close)
    } else if n == 9 {
        Some(Opcode::Ping)
    } else if n == 10 {
        Some(Opcode::Pong)
    } else {
        None
    }
}

impl Opcode {
    /// Close, Ping and Pong are control opcodes.
    pub open spec fn spec_is_control(self) -> bool {
        opcode_num(self) >= 8
    }

    #[verifier::when_used_as_spec(spec_is_control)]
    pub fn is_control(self) -> (r: bool)
        ensures
            r == self.spec_is_control(),
    {
        match self {
            Opcode::Close | Opcode::Ping | Opcode::Pong => true,
            _ => false,
        }
    }

    pub fn to_number(self) -> (r: u8)
        ensures
            r == opcode_num(self),
    {
        match self {
            Opcode::Continuation => 0,
            Opcode::Text => 1,
            Opcode::Binary => 2,
            Opcode::Close => 8,
            Opcode::Ping => 9,
            Opcode::Pong => 10,
        }
    }

    pub fn from_number(n: u8) -> (r: Option<Opcode>)
        ensures
            r == opcode_of_num(n),
    {
        if n == 0 {
            Some(Opcode::Continuation)
        } else if n == 1 {
            Some(Opcode::Text)
        } else if n == 2 {
            Some(Opcode::Binary)
        } else if n == 8 {
            Some(Opcode::Close)
        } else if n == 9 {
            Some(Opcode::Ping)
        } else if n == 10 {
            Some(Opcode::Pong)
        } else {
            None
        }
    }
}

/// A decoded frame as callers see it: the mask never surfaces, payload
/// bytes are always the unmasked ones.
#[derive(Clone, Debug, PartialEq, Eq)]
pub struct Frame {
    pub fin: bool,
    pub rsv1: bool,
    pub rsv2: bool,
    pub rsv3: bool,
    pub opcode: Opcode,
    pub payload: Vec<u8>,
}

/// The mathematical shadow of a frame.
#[verifier::ext_equal]
pub struct FrameView {
    pub fin: bool,
    pub rsv1: bool,
    pub rsv2: bool,
    pub rsv3: bool,
    pub opcode: Opcode,
    pub payload: Seq<u8>,
}

impl View for Frame {
    type V = FrameView;

    open spec fn view(&self) -> FrameView {
        FrameView {
            fin: self.fin,
            rsv1: self.rsv1,
            rsv2: self.rsv2,
            rsv3: self.rsv3,
            opcode: self.opcode,
            payload: self.payload@,
        }
    }
}

/// A frame the library will put on the wire: no reserved bits (no
/// extension is ever negotiated), control frames final and short, and a
/// length whose top bit is clear in the 8-byte form.
pub open spec fn frame_wf(f: FrameView) -> bool {
    &&& !f.rsv1
    &&& !f.rsv2
    &&& !f.rsv3
    &&& f.opcode.spec_is_control() ==> f.fin && f.payload.len() <= 125
    &&& f.payload.len() < 0x8000000000000000
}

impl Frame {
    /// A data or control frame with nothing reserved set.
    pub fn new(fin: bool, opcode: Opcode, payload: Vec<u8>) -> (f: Frame)
        ensures
            f@ == (FrameView {
                fin,
                rsv1: false,
                rsv2: false,
                rsv3: false,
                opcode,
                payload: payload@,
            }),
    {
        Frame { fin, rsv1: false, rsv2: false, rsv3: false, opcode, payload }
    }
}

/// Big-endian bytes of a 16-bit length.
pub open spec fn be2(n: int) -> Seq<u8> {
    seq![(n / 256) as u8, (n % 256) as u8]
}

/// Big-endian bytes of a 64-bit length.
pub open spec fn be8(n: int) -> Seq<u8> {
    seq![
        (n / 0x100000000000000) as u8,
        ((n / 0x1000000000000) % 256) as u8,
        ((n / 0x10000000000) % 256) as u8,
        ((n / 0x100000000) % 256) as u8,
        ((n / 0x1000000) % 256) as u8,
        ((n / 0x10000) % 256) as u8,
        ((n / 0x100) % 256) as u8,
        (n % 256) as u8,
    ]
}

/// The value carried by 8 big-endian bytes.
pub open spec fn be8_val(s: Seq<u8>) -> int {
    s[0] * 0x100000000000000 + s[1] * 0x1000000000000 + s[2] * 0x10000000000 + s[3]
        * 0x100000000 + s[4] * 0x1000000 + s[5] * 0x10000 + s[6] * 0x100 + s[7]
}

/// The 7-bit length code: the length itself, or 126/127 announcing an
/// extended form.
pub open spec fn len_code(n: int) -> u8 {
    if n <= 125 {
        n as u8
    } else if n <= 0xFFFF {
        126u8
    } else {
        127u8
    }
}

/// The extended length bytes, empty for the short form.
pub open spec fn len_field(n: int) -> Seq<u8> {
    if n <= 125 {
        Seq::empty()
    } else if n <= 0xFFFF {
        be2(n)
    } else {
        be8(n)
    }
}

pub open spec fn bool_bit(b: bool, v: u8) -> u8 {
    if b {
        v
    } else {
        0u8
    }
}

/// The first header byte: fin, the reserved bits, and the opcode.
pub open spec fn head_byte0(f: FrameView) -> u8 {
    (bool_bit(f.fin, 128) + bool_bit(f.rsv1, 64) + bool_bit(f.rsv2, 32) + bool_bit(
        f.rsv3,
        16,
    ) + opcode_num(f.opcode)) as u8
}

pub open spec fn mask_view(m: Option<[u8; 4]>) -> Option<Seq<u8>> {
    match m {
        Some(k) => Some(k@),
        None => None,
    }
}

/// Everything a frame puts on the wire: two header bytes, the extended
/// length, the mask key if any, and the (masked) payload.
pub open spec fn frame_encoding(f: FrameView, mask: Option<Seq<u8>>) -> Seq<u8> {
    let n = f.payload.len() as int;
    let key_bytes = match mask {
        Some(k) => k,
        None => Seq::<u8>::empty(),
    };
    let body = match mask {
        Some(k) => masked_seq(k, f.payload),
        None => f.payload,
    };
    seq![head_byte0(f), (bool_bit(mask is Some, 128) + len_code(n)) as u8] + len_field(n)
        + key_bytes + body
}

/// What decoding a buffer prefix yields.
pub enum SpecDecodeOutcome {
    /// The buffer does not yet hold a whole frame; nothing is consumed.
    Incomplete,
    /// The frame at the front breaks the protocol.
    Bad(FrameProtocolKind),
    /// A whole frame, and how many bytes of the buffer it took.
    Decoded(FrameView, int),
}

/// Decode one frame from the front of the buffer.  `from_client` says
/// which direction the bytes travelled: frames from a client must be
/// masked, frames from a server must not be.
pub open spec fn spec_decode(buf: Seq<u8>, from_client: bool) -> SpecDecodeOutcome {
    if buf.len() < 2 {
        SpecDecodeOutcome::Incomplete
    } else {
        let b0 = buf[0];
        let b1 = buf[1];
        let fin = b0 / 128 == 1;
        let rsv1 = (b0 / 64) % 2 == 1;
        let rsv2 = (b0 / 32) % 2 == 1;
        let rsv3 = (b0 / 16) % 2 == 1;
        let opnum = b0 % 16;
        let masked = b1 / 128 == 1;
        let l7 = b1 % 128;
        if rsv1 || rsv2 || rsv3 {
            SpecDecodeOutcome::Bad(FrameProtocolKind::ReservedBits)
        } else if opcode_of_num(opnum) is None {
            SpecDecodeOutcome::Bad(FrameProtocolKind::ReservedOpcode)
        } else if opnum >= 8 && !fin {
            SpecDecodeOutcome::Bad(FrameProtocolKind::ControlFragmented)
        } else if opnum >= 8 && l7 > 125 {
            SpecDecodeOutcome::Bad(FrameProtocolKind::ControlTooLong)
        } else if masked != from_client {
            if from_client {
                SpecDecodeOutcome::Bad(FrameProtocolKind::UnmaskedFromClient)
            } else {
                SpecDecodeOutcome::Bad(FrameProtocolKind::MaskedFromServer)
            }
        } else if l7 == 127 && buf.len() >= 3 && buf[2] >= 128 {
            SpecDecodeOutcome::Bad(FrameProtocolKind::BadLength)
        } else {
            let ext: int = if l7 == 126 {
                2
            } else if l7 == 127 {
                8
            } else {
                0
            };
            if buf.len() < 2 + ext {
                SpecDecodeOutcome::Incomplete
            } else {
                let plen: int = if l7 == 126 {
                    buf[2] * 256 + buf[3]
                } else if l7 == 127 {
                    be8_val(buf.subrange(2, 10))
                } else {
                    l7 as int
                };
                let mask_off = 2 + ext;
                let hlen = mask_off + if masked {
                    4int
                } else {
                    0int
                };
                if buf.len() < hlen + plen {
                    SpecDecodeOutcome::Incomplete
                } else {
                    let raw = buf.subrange(hlen, hlen + plen);
                    let payload = if masked {
                        masked_seq(buf.subrange(mask_off, mask_off + 4), raw)
                    } else {
                        raw
                    };
                    SpecDecodeOutcome::Decoded(
                        FrameView {
                            fin,
                            rsv1: false,
                            rsv2: false,
                            rsv3: false,
                            opcode: opcode_of_num(opnum)->Some_0,
                            payload,
                        },
                        hlen + plen,
                    )
                }
            }
        }
    }
}

/// The executable twin of `SpecDecodeOutcome`.
#[derive(Debug)]
pub enum DecodeStep {
    Incomplete,
    Bad(FrameProtocolKind),
    Decoded(Frame, usize),
}

impl View for DecodeStep {
    type V = SpecDecodeOutcome;

    open spec fn view(&self) -> SpecDecodeOutcome {
        match self {
            DecodeStep::Incomplete => SpecDecodeOutcome::Incomplete,
            DecodeStep::Bad(k) => SpecDecodeOutcome::Bad(*k),
            DecodeStep::Decoded(f, n) => SpecDecodeOutcome::Decoded(f@, *n as int),
        }
    }
}

/// Decode one frame from the front of `buf`.  The buffer is not
/// touched: the second half of a `Decoded` result says how many bytes
/// the caller should now drop from the front.
pub fn decode_frame(buf: &Vec<u8>, from_client: bool) -> (r: DecodeStep)
    ensures
        r@ == spec_decode(buf@, from_client),
{
    if buf.len() < 2 {
        return DecodeStep::Incomplete;
    }
    let b0 = buf[0];
    let b1 = buf[1];
    let fin = b0 / 128 == 1;
    let rsv1 = (b0 / 64) % 2 == 1;
    let rsv2 = (b0 / 32) % 2 == 1;
    let rsv3 = (b0 / 16) % 2 == 1;
    let opnum = b0 % 16;
    let masked = b1 / 128 == 1;
    let l7 = b1 % 128;
    if rsv1 || rsv2 || rsv3 {
        return DecodeStep::Bad(FrameProtocolKind::ReservedBits);
    }
    let op = match Opcode::from_number(opnum) {
        Some(op) => op,
        None => { return DecodeStep::Bad(FrameProtocolKind::ReservedOpcode) },
    };
    if opnum >= 8 && !fin {
        return DecodeStep::Bad(FrameProtocolKind::ControlFragmented);
    }
    if opnum >= 8 && l7 > 125 {
        return DecodeStep::Bad(FrameProtocolKind::ControlTooLong);
    }
    if masked != from_client {
        return DecodeStep::Bad(
            if from_client {
                FrameProtocolKind::UnmaskedFromClient
            } else {
                FrameProtocolKind::MaskedFromServer
            },
        );
    }
    if l7 == 127 && buf.len() >= 3 && buf[2] >= 128 {
        return DecodeStep::Bad(FrameProtocolKind::BadLength);
    }
    let ext: usize = if l7 == 126 {
        2
    } else if l7 == 127 {
        8
    } else {
        0
    };
    if buf.len() < 2 + ext {
        return DecodeStep::Incomplete;
    }
    let plen64: u64 = if l7 == 126 {
        (buf[2] as u64) * 256 + (buf[3] as u64)
    } else if l7 == 127 {
        (buf[2] as u64) * 0x100000000000000 + (buf[3] as u64) * 0x1000000000000 + (
        buf[4] as u64) * 0x10000000000 + (buf[5] as u64) * 0x100000000 + (buf[6] as u64)
            * 0x1000000 + (buf[7] as u64) * 0x10000 + (buf[8] as u64) * 0x100 + (
        buf[9] as u64)
    } else {
        l7 as u64
    };
    let mask_off: usize = 2 + ext;
    let hlen: usize = mask_off + if masked {
        4
    } else {
        0
    };
    if (buf.len() as u64) < (hlen as u64) + plen64 {
        return DecodeStep::Incomplete;
    }
    let plen: usize = plen64 as usize;
    let raw = vstd::slice::slice_subrange(buf.as_slice(), hlen, hlen + plen);
    let payload: Vec<u8> = if masked {
        let key: [u8; 4] = [buf[mask_off], buf[mask_off + 1], buf[mask_off + 2], buf[mask_off
            + 3]];
        proof {
            assert(key@ =~= buf@.subrange(mask_off as int, mask_off + 4));
        }
        mask_data(key, raw)
    } else {
        vstd::slice::slice_to_vec(raw)
    };
    let frame = Frame { fin, rsv1: false, rsv2: false, rsv3: false, opcode: op, payload };
    DecodeStep::Decoded(frame, hlen + plen)
}

/// Encode a frame onto the tail of `out`.  A client passes its fresh
/// mask key; a server passes `None`.
#[verifier::rlimit(60)]
pub fn encode_frame(f: &Frame, mask: Option<[u8; 4]>, out: &mut Vec<u8>)
    requires
        frame_wf(f@),
    ensures
        final(out)@ == old(out)@ + frame_encoding(f@, mask_view(mask)),
{
    let ghost enc = frame_encoding(f@, mask_view(mask));
    let n: usize = f.payload.len();
    let mut b0: u8 = f.opcode.to_number();
    if f.fin {
        b0 = b0 + 128;
    }
    assert(b0 == head_byte0(f@));
    out.push(b0);
    let lc: u8 = if n <= 125 {
        n as u8
    } else if n <= 0xFFFF {
        126
    } else {
        127
    };
    assert(lc == len_code(n as int));
    let b1: u8 = if mask.is_some() {
        128 + lc
    } else {
        lc
    };
    out.push(b1);
    if n > 125 && n <= 0xFFFF {
        out.push((n / 256) as u8);
        out.push((n % 256) as u8);
        assert(out@.subrange(out@.len() - 2, out@.len() as int) =~= len_field(n as int));
    } else if n > 0xFFFF {
        let m: u64 = n as u64;
        out.push((m / 0x100000000000000) as u8);
        out.push(((m / 0x1000000000000) % 256) as u8);
        out.push(((m / 0x10000000000) % 256) as u8);
        out.push(((m / 0x100000000) % 256) as u8);
        out.push(((m / 0x1000000) % 256) as u8);
        out.push(((m / 0x10000) % 256) as u8);
        out.push(((m / 0x100) % 256) as u8);
        out.push((m % 256) as u8);
        assert(out@.subrange(out@.len() - 8, out@.len() as int) =~= len_field(n as int));
    }
    match mask {
        Some(k) => {
            out.push(k[0]);
            out.push(k[1]);
            out.push(k[2]);
            out.push(k[3]);
            let mut body = mask_data(k, f.payload.as_slice());
            out.append(&mut body);
        },
        None => {
            out.extend_from_slice(f.payload.as_slice());
        },
    }
    assert(out@ =~= old(out)@ + enc);
}

/// The two header bytes come apart again: the fin bit, the clear
/// reserved bits, and the opcode out of the first byte; the mask bit and
/// the length code out of the second.
proof fn lemma_head_bytes(fb: u8, op: u8, mb: u8, lc: u8)
    requires
        fb <= 1,
        op <= 10,
        mb <= 1,
        lc <= 127,
    ensures
        ((fb * 128 + op) as u8) / 128 == fb,
        (((fb * 128 + op) as u8) / 64) % 2 == 0,
        (((fb * 128 + op) as u8) / 32) % 2 == 0,
        (((fb * 128 + op) as u8) / 16) % 2 == 0,
        ((fb * 128 + op) as u8) % 16 == op,
        ((mb * 128 + lc) as u8) / 128 == mb,
        ((mb * 128 + lc) as u8) % 128 == lc,
{
    assert(((fb * 128 + op) as u8) / 128 == fb && (((fb * 128 + op) as u8) / 64) % 2 == 0
        && (((fb * 128 + op) as u8) / 32) % 2 == 0 && (((fb * 128 + op) as u8) / 16) % 2
        == 0 && ((fb * 128 + op) as u8) % 16 == op && ((mb * 128 + lc) as u8) / 128 == mb
        && ((mb * 128 + lc) as u8) % 128 == lc) by (bit_vector)
        requires
            fb <= 1,
            op <= 10,
            mb <= 1,
            lc <= 127,
    ;
}

/// The base-256 expansion of a 64-bit value comes back together.
proof fn lemma_be8_inverse(m: u64)
    ensures
        (m / 0x100000000000000) * 0x100000000000000 + ((m / 0x1000000000000) % 256)
            * 0x1000000000000 + ((m / 0x10000000000) % 256) * 0x10000000000 + ((m
            / 0x100000000) % 256) * 0x100000000 + ((m / 0x1000000) % 256) * 0x1000000 + (
        (m / 0x10000) % 256) * 0x10000 + ((m / 0x100) % 256) * 0x100 + m % 256 == m,
        m / 0x100000000000000 < 256,
{
    assert((m / 0x100000000000000) * 0x100000000000000 + ((m / 0x1000000000000) % 256)
        * 0x1000000000000 + ((m / 0x10000000000) % 256) * 0x10000000000 + ((m
        / 0x100000000) % 256) * 0x100000000 + ((m / 0x1000000) % 256) * 0x1000000 + ((m
        / 0x10000) % 256) * 0x10000 + ((m / 0x100) % 256) * 0x100 + m % 256 == m && m
        / 0x100000000000000 < 256) by (bit_vector);
}

/// The decomposition of the two header bytes of an encoded frame.
proof fn lemma_encoding_heads(f: FrameView, mask: Option<Seq<u8>>)
    requires
        frame_wf(f),
    ensures
        ({
            let enc = frame_encoding(f, mask);
            let n = f.payload.len() as int;
            &&& enc[0] / 128 == (if f.fin { 1u8 } else { 0u8 })
            &&& (enc[0] / 64) % 2 == 0
            &&& (enc[0] / 32) % 2 == 0
            &&& (enc[0] / 16) % 2 == 0
            &&& enc[0] % 16 == opcode_num(f.opcode)
            &&& enc[1] / 128 == (if mask is Some { 1u8 } else { 0u8 })
            &&& enc[1] % 128 == len_code(n)
        }),
{
    let enc = frame_encoding(f, mask);
    let n = f.payload.len() as int;
    let fb: u8 = if f.fin { 1 } else { 0 };
    let mb: u8 = if mask is Some { 1 } else { 0 };
    let op: u8 = opcode_num(f.opcode);
    let lc: u8 = len_code(n);
    assert(op <= 10);
    assert(lc <= 127);
    assert(enc[0] == (fb * 128 + op) as u8);
    assert(enc[1] == (mb * 128 + lc) as u8);
    lemma_head_bytes(fb, op, mb, lc);
}

/// Frame round trip: decoding what encode put on the wire gives the
/// same frame back, consuming exactly its bytes.  The decoding side is
/// the opposite role: it expects a mask exactly when one was applied.
pub proof fn lemma_frame_round_trip(f: FrameView, mask: Option<Seq<u8>>)
    requires
        frame_wf(f),
        mask is Some ==> mask->Some_0.len() == 4,
    ensures
        spec_decode(frame_encoding(f, mask), mask is Some) == SpecDecodeOutcome::Decoded(
            f,
            frame_encoding(f, mask).len() as int,
        ),
{
    let enc = frame_encoding(f, mask);
    let n = f.payload.len() as int;
    let masked = mask is Some;
    let lc: u8 = len_code(n);
    let lf = len_field(n);
    let key_bytes = match mask {
        Some(k) => k,
        None => Seq::<u8>::empty(),
    };
    let body = match mask {
        Some(k) => masked_seq(k, f.payload),
        None => f.payload,
    };
    lemma_encoding_heads(f, mask);
    assert(enc =~= seq![enc[0], enc[1]] + lf + key_bytes + body);
    let ext: int = if lc == 126 {
        2
    } else if lc == 127 {
        8
    } else {
        0
    };
    assert(lf.len() == ext);
    let mask_off = 2 + ext;
    let hlen = mask_off + if masked {
        4int
    } else {
        0int
    };
    assert(enc.len() == hlen + n);
    // The opcode number maps back to the opcode.
    assert(opcode_of_num(opcode_num(f.opcode)) == Some(f.opcode));
    // The payload length is recovered in each of the three forms.
    if n > 125 && n <= 0xFFFF {
        assert(enc[2] == (n / 256) as u8 && enc[3] == (n % 256) as u8);
        assert(n / 256 < 256);
        assert(enc[2] * 256 + enc[3] == n);
    } else if n > 0xFFFF {
        let m: u64 = n as u64;
        lemma_be8_inverse(m);
        assert(m / 0x100000000000000 < 128) by (bit_vector)
            requires
                m < 0x8000000000000000,
        ;
        let s = enc.subrange(2, 10);
        assert(s =~= be8(n));
        assert(be8_val(s) == n);
        assert(enc[2] < 128);
    }
    // The mask key and the payload sit where the decoder looks.
    if masked {
        let k = mask->Some_0;
        assert(enc.subrange(mask_off, mask_off + 4) =~= k);
        assert(enc.subrange(hlen, hlen + n) =~= masked_seq(k, f.payload));
        lemma_mask_involution(k, f.payload);
    } else {
        assert(enc.subrange(hlen, hlen + n) =~= f.payload);
    }
    match spec_decode(enc, masked) {
        SpecDecodeOutcome::Decoded(v, c) => {
            assert(v =~= f);
            assert(c == enc.len());
        },
        _ => {
            assert(false);
        },
    }
}

/// A control frame that is fragmented, or longer than 125 bytes, never
/// makes it through the decoder.
pub proof fn lemma_control_frame_rejected(f: FrameView, mask: Option<Seq<u8>>)
    requires
        f.opcode.spec_is_control(),
        !f.fin || f.payload.len() > 125,
        !f.rsv1 && !f.rsv2 && !f.rsv3,
        f.payload.len() < 0x8000000000000000,
    ensures
        spec_decode(frame_encoding(f, mask), mask is Some) == SpecDecodeOutcome::Bad(
            if !f.fin {
                FrameProtocolKind::ControlFragmented
            } else {
                FrameProtocolKind::ControlTooLong
            },
        ),
{
    let enc = frame_encoding(f, mask);
    let n = f.payload.len() as int;
    let fb: u8 = if f.fin { 1 } else { 0 };
    let mb: u8 = if mask is Some { 1 } else { 0 };
    let op: u8 = opcode_num(f.opcode);
    let lc: u8 = len_code(n);
    assert(op <= 10);
    assert(lc <= 127);
    assert(enc[0] == (fb * 128 + op) as u8);
    assert(enc[1] == (mb * 128 + lc) as u8);
    lemma_head_bytes(fb, op, mb, lc);
    assert(opcode_of_num(op) == Some(f.opcode));
    if f.fin {
        assert(n > 125);
        assert(lc > 125);
    }
}

} // verus!
