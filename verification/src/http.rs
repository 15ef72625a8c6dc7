//! The HTTP/1.x head codec of the handshake: one request or response
//! head to and from bytes, restartable on a short buffer.

use vstd::prelude::*;
use crate::headers::{serialized_fields, Headers};
use crate::tokens::{byte_offset, drop_prefix, find_byte, lemma_byte_offset, trim, trim_slice};
use vstd::string::StringSliceAdditionalSpecFns;

verus! {

/// The HTTP versions the handshake can meet.
#[derive(Clone, Copy, Debug, PartialEq, Eq, Structural)]
pub enum HttpVersion {
    Http10,
    Http11,
}

/// The request line's subject: method and target.
#[derive(Clone, Debug, PartialEq, Eq)]
pub struct RequestLine(pub Vec<u8>, pub Vec<u8>);

/// A parsed message head: start line subject, version, headers.
#[derive(Debug)]
pub struct MessageHead<T> {
    pub version: HttpVersion,
    pub subject: T,
    pub headers: Headers,
}

/// An incoming request head.
pub type RequestHead = MessageHead<RequestLine>;

/// An incoming response head; the subject is the status code.
pub type ResponseHead = MessageHead<u16>;

/// The byte spans of one header within a buffer.
#[derive(Clone, Copy, Debug)]
pub struct HeaderIndices {
    pub name: (usize, usize),
    pub value: (usize, usize),
}

pub open spec fn indices_wf(h: HeaderIndices, len: int) -> bool {
    h.name.0 <= h.name.1 <= len && h.value.0 <= h.value.1 <= len
}

/// Collect the header fields whose spans `indices` name within `bytes`.
pub fn record_header_indices(bytes: &[u8], indices: &Vec<HeaderIndices>) -> (h: Headers)
    requires
        forall|i: int|
            0 <= i < indices@.len() ==> indices_wf(#[trigger] indices@[i], bytes@.len() as int),
    ensures
        h@.len() == indices@.len(),
        forall|i: int|
            0 <= i < indices@.len() ==> #[trigger] h@[i] == (
                bytes@.subrange(indices@[i].name.0 as int, indices@[i].name.1 as int),
                bytes@.subrange(indices@[i].value.0 as int, indices@[i].value.1 as int),
            ),
{
    let mut h = Headers::new();
    let len = indices.len();
    let mut i: usize = 0;
    while i < len
        invariant
            i <= len,
            len == indices@.len(),
            forall|k: int|
                0 <= k < len ==> indices_wf(#[trigger] indices@[k], bytes@.len() as int),
            h@.len() == i,
            forall|k: int|
                0 <= k < i ==> #[trigger] h@[k] == (
                    bytes@.subrange(indices@[k].name.0 as int, indices@[k].name.1 as int),
                    bytes@.subrange(
                        indices@[k].value.0 as int,
                        indices@[k].value.1 as int,
                    ),
                ),
        decreases len - i,
    {
        let idx = indices[i];
        let name = vstd::slice::slice_to_vec(
            vstd::slice::slice_subrange(bytes, idx.name.0, idx.name.1),
        );
        let value = vstd::slice::slice_to_vec(
            vstd::slice::slice_subrange(bytes, idx.value.0, idx.value.1),
        );
        h.add(name, value);
        i = i + 1;
    }
    h
}

/// How far into the buffer the first line break sits; the length when
/// there is none.
pub open spec fn crlf_offset(s: Seq<u8>) -> nat
    decreases s.len(),
{
    if s.len() < 2 {
        s.len()
    } else if s[0] == 13 && s[1] == 10 {
        0
    } else {
        1 + crlf_offset(s.skip(1))
    }
}

/// How far into the buffer the head terminator (a blank line) sits; the
/// length when there is none.
pub open spec fn term_offset(s: Seq<u8>) -> nat
    decreases s.len(),
{
    if s.len() < 4 {
        s.len()
    } else if s[0] == 13 && s[1] == 10 && s[2] == 13 && s[3] == 10 {
        0
    } else {
        1 + term_offset(s.skip(1))
    }
}

/// Find the first line break at or after `from`: its index, or the
/// length when there is none.
pub fn find_crlf(s: &[u8], from: usize) -> (r: usize)
    requires
        from <= s@.len(),
    ensures
        r == from + crlf_offset(s@.skip(from as int)),
{
    let len = s.len();
    let mut i: usize = from;
    proof {
        assert(s@.skip(from as int).skip(0) =~= s@.skip(from as int));
    }
    while !(len - i < 2 || (s[i] == 13 && s[i + 1] == 10))
        invariant
            from <= i <= len,
            len == s@.len(),
            crlf_offset(s@.skip(from as int)) == i - from + crlf_offset(s@.skip(i as int)),
        decreases len - i,
    {
        proof {
            let t = s@.skip(i as int);
            assert(t[0] == s@[i as int] && t[1] == s@[i + 1]);
            assert(t.skip(1) =~= s@.skip(i + 1));
        }
        i = i + 1;
    }
    if len - i < 2 {
        proof {
            let t = s@.skip(i as int);
            assert(crlf_offset(t) == t.len());
        }
        len
    } else {
        proof {
            let t = s@.skip(i as int);
            assert(t[0] == s@[i as int] && t[1] == s@[i + 1]);
            assert(crlf_offset(t) == 0);
        }
        i
    }
}

/// Find the head terminator: its index, or the length when there is
/// none.
pub fn find_terminator(s: &[u8]) -> (r: usize)
    ensures
        r == term_offset(s@),
{
    let len = s.len();
    let mut i: usize = 0;
    proof {
        assert(s@.skip(0) =~= s@);
    }
    while !(len - i < 4 || (s[i] == 13 && s[i + 1] == 10 && s[i + 2] == 13 && s[i + 3]
        == 10))
        invariant
            i <= len,
            len == s@.len(),
            term_offset(s@) == i + term_offset(s@.skip(i as int)),
        decreases len - i,
    {
        proof {
            let t = s@.skip(i as int);
            assert(t[0] == s@[i as int] && t[1] == s@[i + 1] && t[2] == s@[i + 2] && t[3]
                == s@[i + 3]);
            assert(t.skip(1) =~= s@.skip(i + 1));
        }
        i = i + 1;
    }
    if len - i < 4 {
        proof {
            let t = s@.skip(i as int);
            assert(term_offset(t) == t.len());
        }
        len
    } else {
        proof {
            let t = s@.skip(i as int);
            assert(t[0] == s@[i as int] && t[1] == s@[i + 1] && t[2] == s@[i + 2] && t[3]
                == s@[i + 3]);
            assert(term_offset(t) == 0);
        }
        i
    }
}

pub open spec fn http11_bytes() -> Seq<u8> {
    seq![72u8, 84u8, 84u8, 80u8, 47u8, 49u8, 46u8, 49u8]
}

pub open spec fn http10_bytes() -> Seq<u8> {
    seq![72u8, 84u8, 84u8, 80u8, 47u8, 49u8, 46u8, 48u8]
}

pub open spec fn version_bytes(v: HttpVersion) -> Seq<u8> {
    match v {
        HttpVersion::Http10 => http10_bytes(),
        HttpVersion::Http11 => http11_bytes(),
    }
}

/// The version named by a token, if any.
pub open spec fn spec_parse_version(s: Seq<u8>) -> Option<HttpVersion> {
    if s == http11_bytes() {
        Some(HttpVersion::Http11)
    } else if s == http10_bytes() {
        Some(HttpVersion::Http10)
    } else {
        None
    }
}

/// The version token `HTTP/1.1` or `HTTP/1.0`.
pub fn version_vec(v: HttpVersion) -> (r: Vec<u8>)
    ensures
        r@ == version_bytes(v),
{
    let mut out: Vec<u8> = Vec::new();
    out.push(72);
    out.push(84);
    out.push(84);
    out.push(80);
    out.push(47);
    out.push(49);
    out.push(46);
    match v {
        HttpVersion::Http10 => {
            out.push(48);
            assert(out@ =~= http10_bytes());
        },
        HttpVersion::Http11 => {
            out.push(49);
            assert(out@ =~= http11_bytes());
        },
    }
    out
}

/// Parse a version token.
pub fn parse_version(s: &[u8]) -> (r: Option<HttpVersion>)
    ensures
        r == spec_parse_version(s@),
{
    let v11 = version_vec(HttpVersion::Http11);
    let v10 = version_vec(HttpVersion::Http10);
    if crate::tokens::bytes_eq(s, v11.as_slice()) {
        Some(HttpVersion::Http11)
    } else if crate::tokens::bytes_eq(s, v10.as_slice()) {
        Some(HttpVersion::Http10)
    } else {
        None
    }
}

/// What a request line means: a non-empty method, a non-empty target,
/// and a known version, separated by single spaces.
pub open spec fn spec_parse_request_line(line: Seq<u8>) -> Option<
    (Seq<u8>, Seq<u8>, HttpVersion),
> {
    let sp1 = byte_offset(line, 0, 32) as int;
    if sp1 >= line.len() || sp1 == 0 {
        None
    } else {
        let method = line.take(sp1);
        let rest = line.skip(sp1 + 1);
        let sp2 = byte_offset(rest, 0, 32) as int;
        if sp2 >= rest.len() || sp2 == 0 {
            None
        } else {
            let target = rest.take(sp2);
            match spec_parse_version(rest.skip(sp2 + 1)) {
                Some(v) => Some((method, target, v)),
                None => None,
            }
        }
    }
}

/// Parse a request line.
pub fn parse_request_line(line: &[u8]) -> (r: Option<(Vec<u8>, Vec<u8>, HttpVersion)>)
    ensures
        r is Some <==> spec_parse_request_line(line@) is Some,
        r is Some ==> ((r->0).0@, (r->0).1@, (r->0).2) == spec_parse_request_line(line@)->0,
{
    proof {
        lemma_byte_offset(line@, 0, 32);
    }
    let sp1 = find_byte(line, 0, 32);
    if sp1 >= line.len() || sp1 == 0 {
        return None;
    }
    let method = vstd::slice::slice_to_vec(vstd::slice::slice_subrange(line, 0, sp1));
    let rest = vstd::slice::slice_subrange(line, sp1 + 1, line.len());
    assert(rest@ =~= line@.skip(sp1 + 1));
    proof {
        lemma_byte_offset(rest@, 0, 32);
    }
    let sp2 = find_byte(rest, 0, 32);
    if sp2 >= rest.len() || sp2 == 0 {
        return None;
    }
    let target = vstd::slice::slice_to_vec(vstd::slice::slice_subrange(rest, 0, sp2));
    let vtok = vstd::slice::slice_subrange(rest, sp2 + 1, rest.len());
    assert(vtok@ =~= rest@.skip(sp2 + 1));
    match parse_version(vtok) {
        Some(v) => Some((method, target, v)),
        None => None,
    }
}

/// A header name byte: a printable character that is not a separator.
pub open spec fn name_byte_ok(b: u8) -> bool {
    33 <= b <= 126 && b != 58
}

/// What a header line means: a non-empty separator-free name before the
/// colon, and the value with its optional whitespace stripped.
pub open spec fn spec_parse_field_line(line: Seq<u8>) -> Option<(Seq<u8>, Seq<u8>)> {
    let c = byte_offset(line, 0, 58) as int;
    if c >= line.len() || c == 0 {
        None
    } else {
        let name = line.take(c);
        if forall|i: int| 0 <= i < name.len() ==> name_byte_ok(#[trigger] name[i]) {
            Some((name, trim(line.skip(c + 1))))
        } else {
            None
        }
    }
}

/// Parse one header line.
pub fn parse_field_line(line: &[u8]) -> (r: Option<(Vec<u8>, Vec<u8>)>)
    ensures
        r is Some <==> spec_parse_field_line(line@) is Some,
        r is Some ==> ((r->0).0@, (r->0).1@) == spec_parse_field_line(line@)->0,
{
    proof {
        lemma_byte_offset(line@, 0, 58);
    }
    let c = find_byte(line, 0, 58);
    if c >= line.len() || c == 0 {
        return None;
    }
    let name_slice = vstd::slice::slice_subrange(line, 0, c);
    let mut i: usize = 0;
    while i < c
        invariant
            i <= c,
            0 < c < line@.len(),
            c == byte_offset(line@, 0, 58),
            name_slice@ == line@.take(c as int),
            name_slice@.len() == c,
            forall|j: int| 0 <= j < i ==> name_byte_ok(#[trigger] name_slice@[j]),
        decreases c - i,
    {
        let b = name_slice[i];
        if !(33 <= b && b <= 126 && b != 58) {
            assert(!name_byte_ok(line@.take(byte_offset(line@, 0, 58) as int)[i as int]));
            return None;
        }
        i = i + 1;
    }
    let name = vstd::slice::slice_to_vec(name_slice);
    let value_slice = vstd::slice::slice_subrange(line, c + 1, line.len());
    assert(value_slice@ =~= line@.skip(c + 1));
    let value = vstd::slice::slice_to_vec(trim_slice(value_slice));
    Some((name, value))
}

/// What the header block of a head means: each line a well-formed
/// field, every line closed by a line break.
pub open spec fn spec_parse_fields(s: Seq<u8>) -> Option<Seq<(Seq<u8>, Seq<u8>)>>
    decreases s.len(),
{
    if s.len() == 0 {
        Some(Seq::empty())
    } else {
        let e = crlf_offset(s) as int;
        if e + 2 > s.len() {
            None
        } else {
            match spec_parse_field_line(s.take(e)) {
                None => None,
                Some(f) => match spec_parse_fields(s.skip(e + 2)) {
                    None => None,
                    Some(rest) => Some(seq![f] + rest),
                },
            }
        }
    }
}

/// Parse the header block between the start line and the terminator.
pub fn parse_fields(area: &[u8]) -> (r: Option<Headers>)
    ensures
        r is Some <==> spec_parse_fields(area@) is Some,
        r is Some ==> r->0@ == spec_parse_fields(area@)->0,
{
    let len = area.len();
    let mut h = Headers::new();
    let mut pos: usize = 0;
    proof {
        assert(area@.skip(0) =~= area@);
    }
    loop
        invariant
            pos <= len,
            len == area@.len(),
            match spec_parse_fields(area@.skip(pos as int)) {
                Some(rest) => spec_parse_fields(area@) is Some && spec_parse_fields(
                    area@,
                )->0 == h@ + rest,
                None => spec_parse_fields(area@) is None,
            },
        decreases len - pos,
    {
        let ghost suffix = area@.skip(pos as int);
        if pos == len {
            assert(suffix.len() == 0);
            assert(h@ + Seq::<(Seq<u8>, Seq<u8>)>::empty() =~= h@);
            return Some(h);
        }
        let e = find_crlf(area, pos);
        proof {
            assert(crlf_offset(suffix) == e - pos);
        }
        if len - pos < 2 || e > len - 2 {
            assert(crlf_offset(suffix) + 2 > suffix.len());
            assert(spec_parse_fields(suffix) is None);
            return None;
        }
        let line = vstd::slice::slice_subrange(area, pos, e);
        assert(line@ =~= suffix.take(e - pos));
        match parse_field_line(line) {
            None => {
                assert(spec_parse_fields(suffix) is None);
                return None;
            },
            Some((name, value)) => {
                let ghost f = (name@, value@);
                h.add(name, value);
                proof {
                    assert(suffix.skip(e - pos + 2) =~= area@.skip(e + 2));
                }
                pos = e + 2;
                proof {
                    let ghost new_suffix = area@.skip(pos as int);
                    match spec_parse_fields(new_suffix) {
                        Some(rest) => {
                            assert(spec_parse_fields(suffix) == Some(seq![f] + rest));
                            assert(h@ + rest =~= (h@.drop_last() + (seq![f] + rest)));
                        },
                        None => {
                            assert(spec_parse_fields(suffix) is None);
                        },
                    }
                }
            },
        }
    }
}

/// The first line break comes no later than the head terminator, which
/// opens with a line break itself.
pub proof fn lemma_crlf_le_term(s: Seq<u8>)
    requires
        term_offset(s) + 4 <= s.len(),
    ensures
        crlf_offset(s) <= term_offset(s),
    decreases s.len(),
{
    if s.len() >= 4 {
        if s[0] == 13 && s[1] == 10 {
        } else {
            lemma_crlf_le_term(s.skip(1));
        }
    }
}

/// What a whole request head means: nothing yet without its blank-line
/// terminator; else the request line and the header block, or a parse
/// failure.
pub enum ReqParseOutcome {
    NeedMore,
    Bad,
    Parsed(Seq<u8>, Seq<u8>, HttpVersion, Seq<(Seq<u8>, Seq<u8>)>, int),
}

pub open spec fn spec_parse_request(buf: Seq<u8>) -> ReqParseOutcome {
    let p = term_offset(buf) as int;
    if p + 4 > buf.len() {
        ReqParseOutcome::NeedMore
    } else {
        let e0 = crlf_offset(buf) as int;
        match spec_parse_request_line(buf.take(e0)) {
            None => ReqParseOutcome::Bad,
            Some((m, t, v)) => match spec_parse_fields(buf.subrange(e0 + 2, p + 2)) {
                None => ReqParseOutcome::Bad,
                Some(fs) => ReqParseOutcome::Parsed(m, t, v, fs, p + 4),
            },
        }
    }
}

/// What a status line means: a known version, a three-digit code of at
/// least 100, and at most a reason after a space.
pub open spec fn spec_parse_status_line(line: Seq<u8>) -> Option<(HttpVersion, u16)> {
    let sp1 = byte_offset(line, 0, 32) as int;
    if sp1 >= line.len() {
        None
    } else {
        match spec_parse_version(line.take(sp1)) {
            None => None,
            Some(v) => {
                let rest = line.skip(sp1 + 1);
                if rest.len() < 3 || !(48 <= rest[0] <= 57 && 48 <= rest[1] <= 57 && 48
                    <= rest[2] <= 57) {
                    None
                } else {
                    let code = (rest[0] - 48) * 100 + (rest[1] - 48) * 10 + (rest[2]
                        - 48);
                    if code < 100 {
                        None
                    } else if rest.len() > 3 && rest[3] != 32 {
                        None
                    } else {
                        Some((v, code as u16))
                    }
                }
            },
        }
    }
}

/// What a whole response head means.
pub enum RespParseOutcome {
    NeedMore,
    Bad,
    Parsed(HttpVersion, u16, Seq<(Seq<u8>, Seq<u8>)>, int),
}

pub open spec fn spec_parse_response(buf: Seq<u8>) -> RespParseOutcome {
    let p = term_offset(buf) as int;
    if p + 4 > buf.len() {
        RespParseOutcome::NeedMore
    } else {
        let e0 = crlf_offset(buf) as int;
        match spec_parse_status_line(buf.take(e0)) {
            None => RespParseOutcome::Bad,
            Some((v, code)) => match spec_parse_fields(buf.subrange(e0 + 2, p + 2)) {
                None => RespParseOutcome::Bad,
                Some(fs) => RespParseOutcome::Parsed(v, code, fs, p + 4),
            },
        }
    }
}

/// Parse a status line.
pub fn parse_status_line(line: &[u8]) -> (r: Option<(HttpVersion, u16)>)
    ensures
        r == spec_parse_status_line(line@),
{
    proof {
        lemma_byte_offset(line@, 0, 32);
    }
    let sp1 = find_byte(line, 0, 32);
    if sp1 >= line.len() {
        return None;
    }
    let vtok = vstd::slice::slice_subrange(line, 0, sp1);
    let v = match parse_version(vtok) {
        Some(v) => v,
        None => { return None },
    };
    let rest = vstd::slice::slice_subrange(line, sp1 + 1, line.len());
    assert(rest@ =~= line@.skip(sp1 + 1));
    if rest.len() < 3 {
        return None;
    }
    let d0 = rest[0];
    let d1 = rest[1];
    let d2 = rest[2];
    if !(48 <= d0 && d0 <= 57 && 48 <= d1 && d1 <= 57 && 48 <= d2 && d2 <= 57) {
        return None;
    }
    let code: u16 = ((d0 - 48) as u16) * 100 + ((d1 - 48) as u16) * 10 + ((d2 - 48) as u16);
    if code < 100 {
        return None;
    }
    if rest.len() > 3 && rest[3] != 32 {
        return None;
    }
    Some((v, code))
}

/// Any error in reading or writing an HTTP head.
#[derive(Clone, Copy, Debug, PartialEq, Eq, Structural)]
pub enum HttpCodecError {
    /// An invalid method.
    Method,
    /// An invalid HTTP version.
    Version,
    /// An invalid request target.
    Uri,
    /// A malformed header or start line.
    Header,
    /// A head too large to be reasonable.
    TooLarge,
    /// An invalid status.
    Status,
    /// A transport failure while the head moved.
    Io,
}

impl HttpCodecError {
    /// A short description of the error, in words.
    pub fn describe(&self) -> &'static str {
        match self {
            HttpCodecError::Method => "invalid method specified",
            HttpCodecError::Version => "invalid HTTP version specified",
            HttpCodecError::Uri => "invalid URI",
            HttpCodecError::Header => "invalid header provided",
            HttpCodecError::TooLarge => "message head is too large",
            HttpCodecError::Status => "invalid status provided",
            HttpCodecError::Io => "transport failure",
        }
    }
}

/// Parse a request head from the front of the buffer without touching
/// it; the second half of a parsed result says how many bytes it took.
pub fn parse_request(buf: &Vec<u8>) -> (r: Result<Option<(RequestHead, usize)>, HttpCodecError>)
    ensures
        match spec_parse_request(buf@) {
            ReqParseOutcome::NeedMore => r is Ok && r->Ok_0 is None,
            ReqParseOutcome::Bad => r == Err::<
                Option<(RequestHead, usize)>,
                HttpCodecError,
            >(HttpCodecError::Header),
            ReqParseOutcome::Parsed(m, t, v, fs, n) => r is Ok && r->Ok_0 is Some && ({
                let (head, consumed) = r->Ok_0->0;
                &&& head.subject.0@ == m
                &&& head.subject.1@ == t
                &&& head.version == v
                &&& head.headers@ == fs
                &&& consumed == n
            }),
        },
{
    let len = buf.len();
    let p = find_terminator(buf.as_slice());
    if len < 4 || p > len - 4 {
        return Ok(None);
    }
    proof {
        lemma_crlf_le_term(buf@);
    }
    let e0 = find_crlf(buf.as_slice(), 0);
    proof {
        assert(buf@.skip(0) =~= buf@);
        assert(e0 == crlf_offset(buf@));
        assert(e0 <= p);
    }
    let line = vstd::slice::slice_subrange(buf.as_slice(), 0, e0);
    assert(line@ =~= buf@.take(e0 as int));
    let (method, target, version) = match parse_request_line(line) {
        Some(x) => x,
        None => { return Err(HttpCodecError::Header) },
    };
    let area = vstd::slice::slice_subrange(buf.as_slice(), e0 + 2, p + 2);
    let headers = match parse_fields(area) {
        Some(h) => h,
        None => { return Err(HttpCodecError::Header) },
    };
    let head = MessageHead {
        version,
        subject: RequestLine(method, target),
        headers,
    };
    Ok(Some((head, p + 4)))
}

/// Parse a response head from the front of the buffer without touching
/// it.
pub fn parse_response(buf: &Vec<u8>) -> (r: Result<
    Option<(ResponseHead, usize)>,
    HttpCodecError,
>)
    ensures
        match spec_parse_response(buf@) {
            RespParseOutcome::NeedMore => r is Ok && r->Ok_0 is None,
            RespParseOutcome::Bad => r == Err::<
                Option<(ResponseHead, usize)>,
                HttpCodecError,
            >(HttpCodecError::Header),
            RespParseOutcome::Parsed(v, code, fs, n) => r is Ok && r->Ok_0 is Some && ({
                let (head, consumed) = r->Ok_0->0;
                &&& head.version == v
                &&& head.subject == code
                &&& head.headers@ == fs
                &&& consumed == n
            }),
        },
{
    let len = buf.len();
    let p = find_terminator(buf.as_slice());
    if len < 4 || p > len - 4 {
        return Ok(None);
    }
    proof {
        lemma_crlf_le_term(buf@);
    }
    let e0 = find_crlf(buf.as_slice(), 0);
    proof {
        assert(buf@.skip(0) =~= buf@);
        assert(e0 == crlf_offset(buf@));
        assert(e0 <= p);
    }
    let line = vstd::slice::slice_subrange(buf.as_slice(), 0, e0);
    assert(line@ =~= buf@.take(e0 as int));
    let (version, code) = match parse_status_line(line) {
        Some(x) => x,
        None => { return Err(HttpCodecError::Header) },
    };
    let area = vstd::slice::slice_subrange(buf.as_slice(), e0 + 2, p + 2);
    let headers = match parse_fields(area) {
        Some(h) => h,
        None => { return Err(HttpCodecError::Header) },
    };
    let head = MessageHead { version, subject: code, headers };
    Ok(Some((head, p + 4)))
}

/// The canonical reason phrase of the status codes the library emits.
pub open spec fn reason_bytes(code: u16) -> Seq<u8> {
    if code == 101 {
        "Switching Protocols".spec_bytes()
    } else if code == 200 {
        "OK".spec_bytes()
    } else if code == 400 {
        "Bad Request".spec_bytes()
    } else if code == 404 {
        "Not Found".spec_bytes()
    } else if code == 500 {
        "Internal Server Error".spec_bytes()
    } else {
        Seq::empty()
    }
}

/// The reason phrase for a status code; empty when none is known.
pub fn reason_vec(code: u16) -> (r: Vec<u8>)
    ensures
        r@ == reason_bytes(code),
{
    let s: &str = if code == 101 {
        "Switching Protocols"
    } else if code == 200 {
        "OK"
    } else if code == 400 {
        "Bad Request"
    } else if code == 404 {
        "Not Found"
    } else if code == 500 {
        "Internal Server Error"
    } else {
        ""
    };
    proof {
        if !(code == 101 || code == 200 || code == 400 || code == 404 || code == 500) {
            reveal_strlit("");
            assert(s.spec_bytes() =~= Seq::<u8>::empty());
        }
    }
    vstd::slice::slice_to_vec(s.as_bytes())
}

/// What an outgoing request head looks like on the wire.
pub open spec fn request_head_bytes(
    m: Seq<u8>,
    t: Seq<u8>,
    v: HttpVersion,
    h: Seq<(Seq<u8>, Seq<u8>)>,
) -> Seq<u8> {
    m + seq![32u8] + t + seq![32u8] + version_bytes(v) + seq![13u8, 10u8]
        + serialized_fields(h) + seq![13u8, 10u8]
}

/// What an outgoing response head looks like on the wire.
pub open spec fn response_head_bytes(v: HttpVersion, code: u16, h: Seq<(Seq<u8>, Seq<u8>)>) -> Seq<
    u8,
> {
    version_bytes(v) + seq![32u8] + crate::headers::dec_digits(code as int) + seq![32u8]
        + reason_bytes(code) + seq![13u8, 10u8] + serialized_fields(h) + seq![13u8, 10u8]
}

/// Writes request heads and reads response heads: the client half of
/// the handshake's HTTP exchange.
#[derive(Clone, Copy, Debug)]
pub struct HttpClientCodec;

impl HttpClientCodec {
    /// Serialise a request head onto the tail of `dst`.
    pub fn encode(&self, item: &MessageHead<RequestLine>, dst: &mut Vec<u8>)
        ensures
            final(dst)@ == old(dst)@ + request_head_bytes(
                item.subject.0@,
                item.subject.1@,
                item.version,
                item.headers@,
            ),
    {
        let ghost pre = dst@;
        dst.extend_from_slice(item.subject.0.as_slice());
        dst.push(32);
        dst.extend_from_slice(item.subject.1.as_slice());
        dst.push(32);
        let mut v = version_vec(item.version);
        dst.append(&mut v);
        dst.push(13);
        dst.push(10);
        item.headers.serialize_into(dst);
        dst.push(13);
        dst.push(10);
        assert(dst@ =~= pre + request_head_bytes(
            item.subject.0@,
            item.subject.1@,
            item.version,
            item.headers@,
        ));
    }

    /// Read one response head off the front of `src`, consuming it.
    pub fn decode(&self, src: &mut Vec<u8>) -> (r: Result<
        Option<ResponseHead>,
        HttpCodecError,
    >)
        ensures
            match spec_parse_response(old(src)@) {
                RespParseOutcome::NeedMore => r is Ok && r->Ok_0 is None && final(src)@
                    == old(src)@,
                RespParseOutcome::Bad => r is Err && final(src)@ == old(src)@,
                RespParseOutcome::Parsed(v, code, fs, n) => {
                    &&& r is Ok
                    &&& r->Ok_0 is Some
                    &&& r->Ok_0->0.version == v
                    &&& r->Ok_0->0.subject == code
                    &&& r->Ok_0->0.headers@ == fs
                    &&& final(src)@ == old(src)@.skip(n)
                },
            },
    {
        match parse_response(src) {
            Err(e) => Err(e),
            Ok(None) => Ok(None),
            Ok(Some((head, consumed))) => {
                drop_prefix(src, consumed);
                Ok(Some(head))
            },
        }
    }
}

/// Reads request heads and writes response heads: the server half of
/// the handshake's HTTP exchange.
#[derive(Clone, Copy, Debug)]
pub struct HttpServerCodec;

impl HttpServerCodec {
    /// Serialise a response head onto the tail of `dst`.
    pub fn encode(&self, item: &MessageHead<u16>, dst: &mut Vec<u8>)
        ensures
            final(dst)@ == old(dst)@ + response_head_bytes(
                item.version,
                item.subject,
                item.headers@,
            ),
    {
        let ghost pre = dst@;
        let mut v = version_vec(item.version);
        dst.append(&mut v);
        dst.push(32);
        crate::headers::push_decimal(item.subject, dst);
        dst.push(32);
        let mut reason = reason_vec(item.subject);
        dst.append(&mut reason);
        dst.push(13);
        dst.push(10);
        item.headers.serialize_into(dst);
        dst.push(13);
        dst.push(10);
        assert(dst@ =~= pre + response_head_bytes(item.version, item.subject, item.headers@));
    }

    /// Read one request head off the front of `src`, consuming it.
    pub fn decode(&self, src: &mut Vec<u8>) -> (r: Result<Option<RequestHead>, HttpCodecError>)
        ensures
            match spec_parse_request(old(src)@) {
                ReqParseOutcome::NeedMore => r is Ok && r->Ok_0 is None && final(src)@
                    == old(src)@,
                ReqParseOutcome::Bad => r is Err && final(src)@ == old(src)@,
                ReqParseOutcome::Parsed(m, t, v, fs, n) => {
                    &&& r is Ok
                    &&& r->Ok_0 is Some
                    &&& r->Ok_0->0.subject.0@ == m
                    &&& r->Ok_0->0.subject.1@ == t
                    &&& r->Ok_0->0.version == v
                    &&& r->Ok_0->0.headers@ == fs
                    &&& final(src)@ == old(src)@.skip(n)
                },
            },
    {
        match parse_request(src) {
            Err(e) => Err(e),
            Ok(None) => Ok(None),
            Ok(Some((head, consumed))) => {
                drop_prefix(src, consumed);
                Ok(Some(head))
            },
        }
    }
}

} // verus!
