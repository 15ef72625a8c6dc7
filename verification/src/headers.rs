//! The header model of the handshake: a multimap of byte-string fields
//! that keeps insertion order and duplicates, and the typed values of
//! the headers the protocol reads.

use vstd::prelude::*;
use crate::tokens::{bytes_eq, eq_ignore_case, lower_seq, trim, trim_slice};

verus! {

/// One header field, name and value as they sit on the wire.
#[derive(Debug)]
pub struct HeaderField {
    pub name: Vec<u8>,
    pub value: Vec<u8>,
}

/// The headers of a request or response head, in order, duplicates
/// kept.
#[derive(Debug)]
pub struct Headers {
    pub fields: Vec<HeaderField>,
}

impl View for Headers {
    type V = Seq<(Seq<u8>, Seq<u8>)>;

    open spec fn view(&self) -> Seq<(Seq<u8>, Seq<u8>)> {
        self.fields@.map_values(|f: HeaderField| (f.name@, f.value@))
    }
}

/// The value of the first field whose name matches, ASCII case aside.
pub open spec fn spec_find_header(h: Seq<(Seq<u8>, Seq<u8>)>, name: Seq<u8>) -> Option<
    Seq<u8>,
>
    decreases h.len(),
{
    if h.len() == 0 {
        None
    } else if lower_seq(h[0].0) == lower_seq(name) {
        Some(h[0].1)
    } else {
        spec_find_header(h.skip(1), name)
    }
}

/// One serialised header line: `name: value` and the line break.
pub open spec fn field_line(nm: Seq<u8>, v: Seq<u8>) -> Seq<u8> {
    nm + seq![58u8, 32u8] + v + seq![13u8, 10u8]
}

/// All fields serialised in order.
pub open spec fn serialized_fields(h: Seq<(Seq<u8>, Seq<u8>)>) -> Seq<u8>
    decreases h.len(),
{
    if h.len() == 0 {
        Seq::empty()
    } else {
        field_line(h[0].0, h[0].1) + serialized_fields(h.skip(1))
    }
}

/// Appending a field serialises at the tail.
pub proof fn lemma_serialized_push(h: Seq<(Seq<u8>, Seq<u8>)>, nm: Seq<u8>, v: Seq<u8>)
    ensures
        serialized_fields(h.push((nm, v))) == serialized_fields(h) + field_line(nm, v),
    decreases h.len(),
{
    if h.len() == 0 {
        let e = Seq::<(Seq<u8>, Seq<u8>)>::empty();
        assert(h.push((nm, v)).skip(1) =~= e);
        assert(serialized_fields(e) == Seq::<u8>::empty());
        assert(h =~= e);
        assert(h.push((nm, v))[0] == (nm, v));
        assert(serialized_fields(h.push((nm, v))) =~= serialized_fields(h) + field_line(
            nm,
            v,
        ));
    } else {
        assert(h.push((nm, v)).skip(1) =~= h.skip(1).push((nm, v)));
        lemma_serialized_push(h.skip(1), nm, v);
        assert(serialized_fields(h.push((nm, v))) =~= serialized_fields(h) + field_line(
            nm,
            v,
        ));
    }
}

impl Headers {
    pub fn new() -> (h: Headers)
        ensures
            h@.len() == 0,
    {
        Headers { fields: Vec::new() }
    }

    /// Append a field, keeping order and duplicates.
    pub fn add(&mut self, name: Vec<u8>, value: Vec<u8>)
        ensures
            final(self)@ == old(self)@.push((name@, value@)),
    {
        let ghost pre = self@;
        self.fields.push(HeaderField { name, value });
        assert(self@ =~= pre.push((name@, value@)));
    }

    pub fn len(&self) -> (n: usize)
        ensures
            n == self@.len(),
    {
        self.fields.len()
    }

    /// The value of the first field with this name, ASCII case aside.
    pub fn get(&self, name: &[u8]) -> (r: Option<&Vec<u8>>)
        ensures
            match r {
                Some(v) => spec_find_header(self@, name@) == Some(v@),
                None => spec_find_header(self@, name@) is None,
            },
    {
        let len = self.fields.len();
        let mut i: usize = 0;
        proof {
            assert(self@.skip(0) =~= self@);
        }
        while i < len
            invariant
                i <= len,
                len == self.fields@.len(),
                spec_find_header(self@, name@) == spec_find_header(
                    self@.skip(i as int),
                    name@,
                ),
            decreases len - i,
        {
            proof {
                assert(self@.skip(i as int)[0] == self@[i as int]);
                assert(self@.skip(i as int).skip(1) =~= self@.skip(i + 1));
            }
            let f = &self.fields[i];
            if eq_ignore_case(f.name.as_slice(), name) {
                return Some(&self.fields[i].value);
            }
            i = i + 1;
        }
        None
    }

    /// Whether a field with this name exists at all.
    pub fn contains(&self, name: &[u8]) -> (r: bool)
        ensures
            r == (spec_find_header(self@, name@) is Some),
    {
        match self.get(name) {
            Some(_) => true,
            None => false,
        }
    }

    /// Serialise every field onto the tail of `out`.
    pub fn serialize_into(&self, out: &mut Vec<u8>)
        ensures
            final(out)@ == old(out)@ + serialized_fields(self@),
    {
        let len = self.fields.len();
        let mut i: usize = 0;
        while i < len
            invariant
                i <= len,
                len == self.fields@.len(),
                out@ == old(out)@ + serialized_fields(self@.take(i as int)),
            decreases len - i,
        {
            let f = &self.fields[i];
            let ghost pre = out@;
            out.extend_from_slice(f.name.as_slice());
            out.push(58);
            out.push(32);
            out.extend_from_slice(f.value.as_slice());
            out.push(13);
            out.push(10);
            proof {
                assert(out@ =~= pre + field_line(self@[i as int].0, self@[i as int].1));
                assert(self@.take(i + 1) =~= self@.take(i as int).push(self@[i as int]));
                lemma_serialized_push(
                    self@.take(i as int),
                    self@[i as int].0,
                    self@[i as int].1,
                );
            }
            i = i + 1;
        }
        assert(self@.take(len as int) =~= self@);
    }
}

/// A Host header: hostname and optional port.
#[derive(Clone, Debug, PartialEq, Eq)]
pub struct Host {
    hostname: Vec<u8>,
    port: Option<u16>,
}

impl View for Host {
    type V = (Seq<u8>, Option<u16>);

    closed spec fn view(&self) -> (Seq<u8>, Option<u16>) {
        (self.hostname@, self.port)
    }
}

/// The decimal digits of a number.
pub open spec fn dec_digits(n: int) -> Seq<u8>
    decreases n,
{
    if n < 10 {
        seq![(48 + if n >= 0 {
            n
        } else {
            0
        }) as u8]
    } else {
        dec_digits(n / 10) + seq![(48 + n % 10) as u8]
    }
}

/// Write a number in decimal onto the tail of `out`.
pub fn push_decimal(n: u16, out: &mut Vec<u8>)
    ensures
        final(out)@ == old(out)@ + dec_digits(n as int),
    decreases n,
{
    if n < 10 {
        out.push(48 + (n as u8));
        assert(final(out)@ =~= old(out)@ + dec_digits(n as int));
    } else {
        push_decimal(n / 10, out);
        out.push(48 + ((n % 10) as u8));
        assert(final(out)@ =~= old(out)@ + dec_digits(n as int));
    }
}

impl Host {
    /// A host from its parts.
    pub fn new(hostname: Vec<u8>, port: Option<u16>) -> (h: Host)
        ensures
            h@ == (hostname@, port),
    {
        Host { hostname, port }
    }

    pub fn hostname(&self) -> (r: &Vec<u8>)
        ensures
            r@ == self@.0,
    {
        &self.hostname
    }

    pub fn port(&self) -> (r: Option<u16>)
        ensures
            r == self@.1,
    {
        self.port
    }

    /// The header value: the hostname, with `:port` unless the port is
    /// absent or a default one.
    pub fn serialize(&self) -> (r: Vec<u8>)
        ensures
            r@ == spec_host_value(self@),
    {
        let mut out: Vec<u8> = Vec::new();
        out.extend_from_slice(self.hostname.as_slice());
        match self.port {
            None => (),
            Some(p) => {
                if p != 80 && p != 443 {
                    out.push(58);
                    push_decimal(p, &mut out);
                }
            },
        }
        assert(out@ =~= spec_host_value(self@));
        out
    }
}

/// What a Host value looks like on the wire.
pub open spec fn spec_host_value(h: (Seq<u8>, Option<u16>)) -> Seq<u8> {
    match h.1 {
        None => h.0,
        Some(p) => if p == 80 || p == 443 {
            h.0
        } else {
            h.0 + seq![58u8] + dec_digits(p as int)
        },
    }
}

/// An Origin header: a scheme and a host, or the opaque null origin.
#[derive(Clone, Debug, PartialEq, Eq)]
pub enum Origin {
    Tuple { scheme: Vec<u8>, host: Host },
    Null,
}

impl Origin {
    /// An origin from its parts.
    pub fn new(scheme: Vec<u8>, hostname: Vec<u8>, port: Option<u16>) -> (o: Origin)
        ensures
            o is Tuple,
            o->scheme@ == scheme@,
            o->host@ == (hostname@, port),
    {
        Origin::Tuple { scheme, host: Host::new(hostname, port) }
    }

    /// The null origin.
    pub fn null() -> (o: Origin)
        ensures
            o is Null,
    {
        Origin::Null
    }

    pub fn is_null(&self) -> (r: bool)
        ensures
            r == (*self is Null),
    {
        matches!(self, Origin::Null)
    }

    pub fn scheme(&self) -> (r: Option<&Vec<u8>>)
        ensures
            *self is Tuple ==> r is Some && r->0@ == self->scheme@,
            *self is Null ==> r is None,
    {
        match self {
            Origin::Tuple { scheme, .. } => Some(scheme),
            Origin::Null => None,
        }
    }

    pub fn host(&self) -> (r: Option<&Host>)
        ensures
            *self is Tuple ==> r is Some && r->0@ == self->host@,
            *self is Null ==> r is None,
    {
        match self {
            Origin::Tuple { host, .. } => Some(host),
            Origin::Null => None,
        }
    }

    /// The header value: `scheme://host`, or `null`.
    pub fn serialize(&self) -> (r: Vec<u8>)
        ensures
            *self is Tuple ==> r@ == self->scheme@ + seq![58u8, 47u8, 47u8]
                + spec_host_value(self->host@),
            *self is Null ==> r@ == seq![110u8, 117u8, 108u8, 108u8],
    {
        match self {
            Origin::Tuple { scheme, host } => {
                let mut out: Vec<u8> = Vec::new();
                out.extend_from_slice(scheme.as_slice());
                out.push(58);
                out.push(47);
                out.push(47);
                let mut hv = host.serialize();
                out.append(&mut hv);
                assert(out@ =~= self->scheme@ + seq![58u8, 47u8, 47u8] + spec_host_value(
                    self->host@,
                ));
                out
            },
            Origin::Null => {
                let mut out: Vec<u8> = Vec::new();
                out.push(110);
                out.push(117);
                out.push(108);
                out.push(108);
                assert(out@ =~= seq![110u8, 117u8, 108u8, 108u8]);
                out
            },
        }
    }
}

/// A Sec-WebSocket-Version header value.
#[derive(Clone, Debug, PartialEq, Eq)]
pub enum WebSocketVersion {
    /// The version of RFC 6455.
    WebSocket13,
    /// Any other version token, kept verbatim.
    Unknown(Vec<u8>),
}

impl WebSocketVersion {
    /// Parse a header value: the trimmed token `13`, or anything else
    /// kept as unknown.
    pub fn from_bytes(value: &[u8]) -> (r: WebSocketVersion)
        ensures
            r is WebSocket13 <==> trim(value@) == seq![49u8, 51u8],
            r is Unknown ==> r->0@ == trim(value@),
    {
        let t = trim_slice(value);
        if t.len() == 2 && t[0] == 49 && t[1] == 51 {
            assert(t@ =~= seq![49u8, 51u8]);
            WebSocketVersion::WebSocket13
        } else {
            assert(t@ != seq![49u8, 51u8]);
            WebSocketVersion::Unknown(vstd::slice::slice_to_vec(t))
        }
    }

    /// The header value.
    pub fn serialize(&self) -> (r: Vec<u8>)
        ensures
            *self is WebSocket13 ==> r@ == seq![49u8, 51u8],
            *self is Unknown ==> r@ == self->0@,
    {
        match self {
            WebSocketVersion::WebSocket13 => {
                let mut out: Vec<u8> = Vec::new();
                out.push(49);
                out.push(51);
                assert(out@ =~= seq![49u8, 51u8]);
                out
            },
            WebSocketVersion::Unknown(v) => vstd::slice::slice_to_vec(v.as_slice()),
        }
    }
}

/// A Sec-WebSocket-Protocol header: the requested subprotocol names.
#[derive(Clone, Debug, PartialEq, Eq)]
pub struct WebSocketProtocol(pub Vec<Vec<u8>>);

/// The names joined with a comma and a space.
pub open spec fn joined(items: Seq<Seq<u8>>) -> Seq<u8>
    decreases items.len(),
{
    if items.len() == 0 {
        Seq::empty()
    } else if items.len() == 1 {
        items[0]
    } else {
        items[0] + seq![44u8, 32u8] + joined(items.skip(1))
    }
}

impl View for WebSocketProtocol {
    type V = Seq<Seq<u8>>;

    open spec fn view(&self) -> Seq<Seq<u8>> {
        self.0@.map_values(|v: Vec<u8>| v@)
    }
}

impl WebSocketProtocol {
    /// Parse a header value: the comma-separated names, each trimmed,
    /// in order, empties kept.
    pub fn from_bytes(value: &[u8]) -> (r: WebSocketProtocol)
        ensures
            r@ == crate::tokens::split_list(value@, 0),
    {
        let mut items: Vec<Vec<u8>> = Vec::new();
        let len = value.len();
        let mut from: usize = 0;
        proof {
        assert(items@.map_values(|v: Vec<u8>| v@) + crate::tokens::split_list(value@, 0)
                =~= crate::tokens::split_list(value@, 0));
        }
        loop
            invariant_except_break
                crate::tokens::split_list(value@, 0) == items@.map_values(
                    |v: Vec<u8>| v@,
                ) + crate::tokens::split_list(value@, from as int),
            invariant
                from <= len,
                len == value@.len(),
            ensures
                crate::tokens::split_list(value@, 0) == items@.map_values(
                    |v: Vec<u8>| v@,
                ),
            decreases len - from,
        {
            proof {
                crate::tokens::lemma_byte_offset(value@, from as int, 44);
            }
            let j = crate::tokens::find_byte(value, from, 44);
            let seg = vstd::slice::slice_subrange(value, from, j);
            let t = trim_slice(seg);
            let ghost pre = items@.map_values(|v: Vec<u8>| v@);
            items.push(vstd::slice::slice_to_vec(t));
            proof {
                assert(items@.map_values(|v: Vec<u8>| v@) =~= pre + seq![t@]);
            }
            if j >= len {
                proof {
                    assert(crate::tokens::split_list(value@, from as int) == seq![t@]);
                    assert(pre + seq![t@] =~= pre + crate::tokens::split_list(
                        value@,
                        from as int,
                    ));
                }
                break ;
            }
            proof {
                assert(crate::tokens::split_list(value@, from as int) == seq![t@]
                    + crate::tokens::split_list(value@, j + 1));
                assert(pre + (seq![t@] + crate::tokens::split_list(value@, j + 1)) =~= (
                pre + seq![t@]) + crate::tokens::split_list(value@, j + 1));
            }
            from = j + 1;
        }
        WebSocketProtocol(items)
    }

    /// The header value: the names joined with `, `.
    pub fn serialize(&self) -> (r: Vec<u8>)
        ensures
            r@ == joined(self@),
    {
        let mut out: Vec<u8> = Vec::new();
        let len = self.0.len();
        let mut i: usize = 0;
        while i < len
            invariant
                i <= len,
                len == self.0@.len(),
                len == self@.len(),
                i == 0 ==> out@ == Seq::<u8>::empty(),
                1 <= i < len ==> out@ + seq![44u8, 32u8] + joined(self@.skip(i as int))
                    == joined(self@),
                i == len && len >= 1 ==> out@ == joined(self@),
            decreases len - i,
        {
            proof {
                lemma_joined_unfold(self@, i as int);
            }
            if i > 0 {
                out.push(44);
                out.push(32);
            }
            out.extend_from_slice(self.0[i].as_slice());
            proof {
                assert(self@[i as int] == self.0@[i as int]@);
                if i + 1 < len {
                    assert(out@ + seq![44u8, 32u8] + joined(self@.skip(i + 1)) =~= joined(
                        self@,
                    ));
                } else {
                    assert(out@ =~= joined(self@));
                }
            }
            i = i + 1;
        }
        out
    }
}

/// Unfolding the join at position `i`: the tail starting at `i` is its
/// head, the separator, and the tail starting after it.
proof fn lemma_joined_unfold(items: Seq<Seq<u8>>, i: int)
    requires
        0 <= i < items.len(),
    ensures
        i + 1 < items.len() ==> joined(items.skip(i)) == items[i] + seq![44u8, 32u8]
            + joined(items.skip(i + 1)),
        i + 1 == items.len() ==> joined(items.skip(i)) == items[i],
{
    assert(items.skip(i)[0] == items[i]);
    assert(items.skip(i).skip(1) =~= items.skip(i + 1));
    if i + 1 == items.len() {
        assert(items.skip(i).len() == 1);
    }
}

/// The value of one digit string, most significant first.
pub open spec fn dec_val(d: Seq<u8>) -> int
    decreases d.len(),
{
    if d.len() == 0 {
        0
    } else {
        dec_val(d.drop_last()) * 10 + (d.last() - 48)
    }
}

pub open spec fn all_digits(d: Seq<u8>) -> bool {
    forall|i: int| 0 <= i < d.len() ==> (48 <= #[trigger] d[i] && d[i] <= 57)
}

/// What a port suffix means, read the way `u16` parsing reads a
/// number: an optional leading plus sign, then at least one digit,
/// leading zeros allowed, with a value that fits a port.
pub open spec fn spec_parse_port(d: Seq<u8>) -> Option<u16> {
    let body = if d.len() >= 1 && d[0] == 43 {
        d.skip(1)
    } else {
        d
    };
    if body.len() >= 1 && all_digits(body) && 0 <= dec_val(body) <= 65535 {
        Some(dec_val(body) as u16)
    } else {
        None
    }
}

/// Parse a port suffix.
pub fn parse_port(d: &[u8]) -> (r: Option<u16>)
    ensures
        r == spec_parse_port(d@),
{
    let len = d.len();
    let start: usize = if len >= 1 && d[0] == 43 {
        1
    } else {
        0
    };
    let body = vstd::slice::slice_subrange(d, start, len);
    proof {
        if start == 1 {
            assert(body@ =~= d@.skip(1));
        } else {
            assert(body@ =~= d@);
        }
    }
    let blen = body.len();
    if blen < 1 {
        return None;
    }
    let mut val: u32 = 0;
    let mut overflow: bool = false;
    let mut i: usize = 0;
    while i < blen
        invariant
            i <= blen,
            blen == body@.len(),
            body@ == (if d@.len() >= 1 && d@[0] == 43 {
                d@.skip(1)
            } else {
                d@
            }),
            forall|j: int| 0 <= j < i ==> (48 <= #[trigger] body@[j] && body@[j] <= 57),
            !overflow ==> val == dec_val(body@.take(i as int)) && val <= 65535,
            overflow ==> dec_val(body@.take(i as int)) > 65535,
        decreases blen - i,
    {
        let c = body[i];
        if c < 48 || c > 57 {
            assert(!all_digits(body@));
            return None;
        }
        proof {
            assert(body@.take(i + 1).drop_last() =~= body@.take(i as int));
            assert(body@.take(i + 1).last() == body@[i as int]);
        }
        if overflow {
            proof {
                assert(dec_val(body@.take(i + 1)) == dec_val(body@.take(i as int)) * 10
                    + (body@[i as int] - 48));
            }
        } else {
            let next: u32 = val * 10 + ((c - 48) as u32);
            assert(next == dec_val(body@.take(i + 1)));
            if next > 65535 {
                overflow = true;
            } else {
                val = next;
            }
        }
        i = i + 1;
    }
    proof {
        assert(body@.take(blen as int) =~= body@);
        assert(all_digits(body@));
    }
    if overflow {
        None
    } else {
        Some(val as u16)
    }
}

/// How far from the end the last colon sits; the whole length when
/// there is none.
pub open spec fn rcolon_offset(s: Seq<u8>) -> nat
    decreases s.len(),
{
    if s.len() == 0 {
        0
    } else if s.last() == 58 {
        0
    } else {
        1 + rcolon_offset(s.drop_last())
    }
}

/// Find the last colon: its index, or the length when there is none.
fn rfind_colon(s: &[u8]) -> (r: usize)
    ensures
        r <= s@.len(),
        r < s@.len() ==> rcolon_offset(s@) == s@.len() - 1 - r && s@[r as int] == 58,
        r == s@.len() ==> rcolon_offset(s@) == s@.len(),
{
    let len = s.len();
    let mut i: usize = len;
    proof {
        assert(s@.take(len as int) =~= s@);
    }
    while i > 0
        invariant
            i <= len,
            len == s@.len(),
            rcolon_offset(s@) == (len - i) + rcolon_offset(s@.take(i as int)),
            forall|j: int| i <= j < len ==> s@[j] != 58,
        decreases i,
    {
        proof {
            assert(s@.take(i as int).last() == s@[i - 1]);
            assert(s@.take(i as int).drop_last() =~= s@.take(i - 1));
        }
        if s[i - 1] == 58 {
            return i - 1;
        }
        i = i - 1;
    }
    assert(s@.take(0) =~= Seq::<u8>::empty());
    len
}

impl Host {
    /// Parse a Host header value: everything after the last colon is the
    /// port if it parses as one, else the whole value is the hostname.
    pub fn parse(s: &[u8]) -> (h: Host)
        ensures
            h@ == spec_parse_host(s@),
    {
        let len = s.len();
        let p = rfind_colon(s);
        if p < len {
            let digits = vstd::slice::slice_subrange(s, p + 1, len);
            assert(digits@ =~= s@.skip(p + 1));
            match parse_port(digits) {
                Some(port) => {
                    let hostname = vstd::slice::slice_to_vec(
                        vstd::slice::slice_subrange(s, 0, p),
                    );
                    return Host { hostname, port: Some(port) };
                },
                None => (),
            }
        }
        Host { hostname: vstd::slice::slice_to_vec(s), port: None }
    }
}

/// What parsing a Host value yields.
pub open spec fn spec_parse_host(s: Seq<u8>) -> (Seq<u8>, Option<u16>) {
    let off = rcolon_offset(s);
    if off < s.len() {
        let p = s.len() - 1 - off;
        match spec_parse_port(s.skip(p + 1)) {
            Some(port) => (s.take(p as int), Some(port)),
            None => (s, None),
        }
    } else {
        (s, None)
    }
}

/// How far into the value the `://` separator sits; the whole length
/// when there is none.
pub open spec fn scheme_sep_offset(s: Seq<u8>) -> nat
    decreases s.len(),
{
    if s.len() < 3 {
        s.len()
    } else if s[0] == 58 && s[1] == 47 && s[2] == 47 {
        0
    } else {
        1 + scheme_sep_offset(s.skip(1))
    }
}

impl Origin {
    /// Parse an Origin header value: `scheme://host`, or nothing when
    /// the separator is missing.
    pub fn parse(s: &[u8]) -> (r: Option<Origin>)
        ensures
            r is Some <==> scheme_sep_offset(s@) + 3 <= s@.len(),
            r is Some ==> r->0 is Tuple && r->0->scheme@ == s@.take(
                scheme_sep_offset(s@) as int,
            ) && r->0->host@ == spec_parse_host(s@.skip(scheme_sep_offset(s@) + 3int)),
    {
        let len = s.len();
        let mut i: usize = 0;
        proof {
            assert(s@.skip(0) =~= s@);
        }
        while !(len - i < 3 || (s[i] == 58 && s[i + 1] == 47 && s[i + 2] == 47))
            invariant
                i <= len,
                len == s@.len(),
                scheme_sep_offset(s@) == i + scheme_sep_offset(s@.skip(i as int)),
            decreases len - i,
        {
            proof {
                let t = s@.skip(i as int);
                assert(t[0] == s@[i as int] && t[1] == s@[i + 1] && t[2] == s@[i + 2]);
                assert(t.skip(1) =~= s@.skip(i + 1));
            }
            i = i + 1;
        }
        proof {
            let t = s@.skip(i as int);
            if len - i >= 3 {
                assert(t[0] == s@[i as int] && t[1] == s@[i + 1] && t[2] == s@[i + 2]);
                assert(scheme_sep_offset(s@) == i);
            } else {
                assert(scheme_sep_offset(t) == t.len());
                assert(scheme_sep_offset(s@) == len);
            }
        }
        if len - i < 3 {
            return None;
        }
        let scheme = vstd::slice::slice_to_vec(vstd::slice::slice_subrange(s, 0, i));
        let rest = vstd::slice::slice_subrange(s, i + 3, len);
        assert(rest@ =~= s@.skip(i + 3));
        let host = Host::parse(rest);
        Some(Origin::Tuple { scheme, host })
    }
}

/// The protocol named by an Upgrade header element.
#[derive(Clone, Debug, PartialEq, Eq)]
pub enum ProtocolName {
    HTTP,
    TLS,
    WebSocket,
    H2C,
    Unregistered(Vec<u8>),
}

pub open spec fn websocket_bytes() -> Seq<u8> {
    seq![119u8, 101u8, 98u8, 115u8, 111u8, 99u8, 107u8, 101u8, 116u8]
}

pub open spec fn http_name_bytes() -> Seq<u8> {
    seq![72u8, 84u8, 84u8, 80u8]
}

pub open spec fn tls_name_bytes() -> Seq<u8> {
    seq![84u8, 76u8, 83u8]
}

pub open spec fn h2c_name_bytes() -> Seq<u8> {
    seq![104u8, 50u8, 99u8]
}

/// How a parsed protocol name relates to its token: the three
/// registered names matched exactly, `websocket` matched
/// ASCII-case-insensitively, anything else kept verbatim.
pub open spec fn protocol_name_matches(n: ProtocolName, s: Seq<u8>) -> bool {
    if s == http_name_bytes() {
        n is HTTP
    } else if s == tls_name_bytes() {
        n is TLS
    } else if s == h2c_name_bytes() {
        n is H2C
    } else if lower_seq(s) == lower_seq(websocket_bytes()) {
        n is WebSocket
    } else {
        n is Unregistered && n->0@ == s
    }
}

impl ProtocolName {
    /// Parse a protocol token.
    pub fn from_bytes(s: &[u8]) -> (r: ProtocolName)
        ensures
            protocol_name_matches(r, s@),
    {
        let mut http: Vec<u8> = Vec::new();
        http.push(72);
        http.push(84);
        http.push(84);
        http.push(80);
        assert(http@ =~= http_name_bytes());
        let mut tls: Vec<u8> = Vec::new();
        tls.push(84);
        tls.push(76);
        tls.push(83);
        assert(tls@ =~= tls_name_bytes());
        let mut h2c: Vec<u8> = Vec::new();
        h2c.push(104);
        h2c.push(50);
        h2c.push(99);
        assert(h2c@ =~= h2c_name_bytes());
        let ws = websocket_vec();
        if bytes_eq(s, http.as_slice()) {
            ProtocolName::HTTP
        } else if bytes_eq(s, tls.as_slice()) {
            ProtocolName::TLS
        } else if bytes_eq(s, h2c.as_slice()) {
            ProtocolName::H2C
        } else if eq_ignore_case(s, ws.as_slice()) {
            ProtocolName::WebSocket
        } else {
            ProtocolName::Unregistered(vstd::slice::slice_to_vec(s))
        }
    }

    /// The wire name of the protocol.
    pub fn serialize(&self) -> (r: Vec<u8>)
        ensures
            r@ == name_bytes(*self),
    {
        match self {
            ProtocolName::HTTP => {
                let mut out: Vec<u8> = Vec::new();
                out.push(72);
                out.push(84);
                out.push(84);
                out.push(80);
                assert(out@ =~= http_name_bytes());
                out
            },
            ProtocolName::TLS => {
                let mut out: Vec<u8> = Vec::new();
                out.push(84);
                out.push(76);
                out.push(83);
                assert(out@ =~= tls_name_bytes());
                out
            },
            ProtocolName::WebSocket => {
                let out = websocket_vec();
                out
            },
            ProtocolName::H2C => {
                let mut out: Vec<u8> = Vec::new();
                out.push(104);
                out.push(50);
                out.push(99);
                assert(out@ =~= h2c_name_bytes());
                out
            },
            ProtocolName::Unregistered(v) => vstd::slice::slice_to_vec(v.as_slice()),
        }
    }
}

/// The wire form of a protocol name.
pub open spec fn name_bytes(n: ProtocolName) -> Seq<u8> {
    match n {
        ProtocolName::HTTP => http_name_bytes(),
        ProtocolName::TLS => tls_name_bytes(),
        ProtocolName::WebSocket => websocket_bytes(),
        ProtocolName::H2C => h2c_name_bytes(),
        ProtocolName::Unregistered(v) => v@,
    }
}

/// The wire form of an Upgrade element.
pub open spec fn protocol_bytes(p: Protocol) -> Seq<u8> {
    name_bytes(p.name) + (match p.version {
        Some(v) => seq![47u8] + v@,
        None => Seq::<u8>::empty(),
    })
}

/// The token `websocket`.
pub fn websocket_vec() -> (r: Vec<u8>)
    ensures
        r@ == websocket_bytes(),
{
    let mut ws: Vec<u8> = Vec::new();
    ws.push(119);
    ws.push(101);
    ws.push(98);
    ws.push(115);
    ws.push(111);
    ws.push(99);
    ws.push(107);
    ws.push(101);
    ws.push(116);
    assert(ws@ =~= websocket_bytes());
    ws
}

/// One element of an Upgrade header: a protocol name and an optional
/// version after a slash.
#[derive(Clone, Debug, PartialEq, Eq)]
pub struct Protocol {
    pub name: ProtocolName,
    pub version: Option<Vec<u8>>,
}

/// How a parsed Upgrade element relates to its token: the name parsed
/// from everything before the first slash, the version kept verbatim
/// after it.
pub open spec fn protocol_matches(p: Protocol, s: Seq<u8>) -> bool {
    let cut = crate::tokens::byte_offset(s, 0, 47) as int;
    if cut < s.len() {
        &&& protocol_name_matches(p.name, s.take(cut))
        &&& p.version is Some
        &&& p.version->0@ == s.skip(cut + 1)
    } else {
        &&& protocol_name_matches(p.name, s)
        &&& p.version is None
    }
}

impl Protocol {
    /// A protocol from its parts.
    pub fn new(name: ProtocolName, version: Option<Vec<u8>>) -> (p: Protocol)
        ensures
            p.name == name,
            p.version == version,
    {
        Protocol { name, version }
    }

    /// Parse one Upgrade element: the name before the first slash and
    /// the version after it.
    pub fn from_bytes(s: &[u8]) -> (p: Protocol)
        ensures
            protocol_matches(p, s@),
    {
        proof {
            crate::tokens::lemma_byte_offset(s@, 0, 47);
        }
        let cut = crate::tokens::find_byte(s, 0, 47);
        if cut < s.len() {
            let name = ProtocolName::from_bytes(vstd::slice::slice_subrange(s, 0, cut));
            let version = vstd::slice::slice_to_vec(
                vstd::slice::slice_subrange(s, cut + 1, s.len()),
            );
            assert(version@ =~= s@.skip(cut + 1));
            Protocol { name, version: Some(version) }
        } else {
            Protocol { name: ProtocolName::from_bytes(s), version: None }
        }
    }

    /// The wire form: the name, with `/version` when one is set.
    pub fn serialize(&self) -> (r: Vec<u8>)
        ensures
            r@ == protocol_bytes(*self),
    {
        let mut out = self.name.serialize();
        match &self.version {
            Some(v) => {
                out.push(47);
                out.extend_from_slice(v.as_slice());
            },
            None => (),
        }
        assert(out@ =~= protocol_bytes(*self));
        out
    }
}

/// Split a comma-separated header value into its elements, each
/// trimmed, empties dropped.
pub fn split_value_nonempty(value: &[u8]) -> (r: Vec<Vec<u8>>)
    ensures
        r@.map_values(|x: Vec<u8>| x@) == crate::tokens::split_nonempty(value@, 0),
{
    let mut items: Vec<Vec<u8>> = Vec::new();
    let len = value.len();
    let mut from: usize = 0;
    proof {
        assert(items@.map_values(|x: Vec<u8>| x@) + crate::tokens::split_nonempty(
            value@,
            0,
        ) =~= crate::tokens::split_nonempty(value@, 0));
    }
    loop
        invariant_except_break
            crate::tokens::split_nonempty(value@, 0) == items@.map_values(
                |x: Vec<u8>| x@,
            ) + crate::tokens::split_nonempty(value@, from as int),
        invariant
            from <= len,
            len == value@.len(),
        ensures
            crate::tokens::split_nonempty(value@, 0) == items@.map_values(
                |x: Vec<u8>| x@,
            ),
        decreases len - from,
    {
        proof {
            crate::tokens::lemma_byte_offset(value@, from as int, 44);
        }
        let j = crate::tokens::find_byte(value, from, 44);
        let seg = vstd::slice::slice_subrange(value, from, j);
        let t = trim_slice(seg);
        let ghost pre = items@.map_values(|x: Vec<u8>| x@);
        if t.len() > 0 {
            items.push(vstd::slice::slice_to_vec(t));
            proof {
                assert(items@.map_values(|x: Vec<u8>| x@) =~= pre + seq![t@]);
            }
        }
        if j >= len {
            proof {
                let tail = crate::tokens::split_nonempty(value@, from as int);
                if t@.len() == 0 {
                    assert(tail =~= Seq::<Seq<u8>>::empty());
                    assert(pre + tail =~= pre);
                } else {
                    assert(tail =~= seq![t@]);
                    assert(pre + tail =~= pre + seq![t@]);
                }
            }
            break ;
        }
        proof {
            let rest = crate::tokens::split_nonempty(value@, j + 1);
            if t@.len() == 0 {
                assert(crate::tokens::split_nonempty(value@, from as int) == rest);
            } else {
                assert(crate::tokens::split_nonempty(value@, from as int) == seq![t@]
                    + rest);
                assert(pre + (seq![t@] + rest) =~= (pre + seq![t@]) + rest);
            }
        }
        from = j + 1;
    }
    items
}

/// Parse an Upgrade header value: its comma-separated protocol
/// elements, each trimmed, empties dropped.
pub fn parse_protocol_list(value: &[u8]) -> (r: Vec<Protocol>)
    ensures
        ({
            let segs = crate::tokens::split_nonempty(value@, 0);
            r@.len() == segs.len() && forall|i: int|
                0 <= i < segs.len() ==> protocol_matches(#[trigger] r@[i], segs[i])
        }),
{
    let mut items: Vec<Protocol> = Vec::new();
    let ghost mut done: Seq<Seq<u8>> = Seq::empty();
    let len = value.len();
    let mut from: usize = 0;
    proof {
        assert(done + crate::tokens::split_nonempty(value@, 0)
            =~= crate::tokens::split_nonempty(value@, 0));
    }
    loop
        invariant_except_break
            crate::tokens::split_nonempty(value@, 0) == done
                + crate::tokens::split_nonempty(value@, from as int),
        invariant
            from <= len,
            len == value@.len(),
            items@.len() == done.len(),
            forall|i: int|
                0 <= i < done.len() ==> protocol_matches(#[trigger] items@[i], done[i]),
        ensures
            crate::tokens::split_nonempty(value@, 0) == done,
        decreases len - from,
    {
        proof {
            crate::tokens::lemma_byte_offset(value@, from as int, 44);
        }
        let j = crate::tokens::find_byte(value, from, 44);
        let seg = vstd::slice::slice_subrange(value, from, j);
        let t = trim_slice(seg);
        let ghost pre = done;
        if t.len() > 0 {
            items.push(Protocol::from_bytes(t));
            proof {
                done = pre.push(t@);
            }
        }
        if j >= len {
            proof {
                let tail = crate::tokens::split_nonempty(value@, from as int);
                if t@.len() == 0 {
                    assert(tail =~= Seq::<Seq<u8>>::empty());
                    assert(pre + tail =~= pre);
                } else {
                    assert(tail =~= seq![t@]);
                    assert(pre + tail =~= done);
                }
            }
            break ;
        }
        proof {
            let rest = crate::tokens::split_nonempty(value@, j + 1);
            if t@.len() == 0 {
                assert(crate::tokens::split_nonempty(value@, from as int) == rest);
            } else {
                assert(crate::tokens::split_nonempty(value@, from as int) == seq![t@]
                    + rest);
                assert(pre + (seq![t@] + rest) =~= done + rest);
            }
        }
        from = j + 1;
    }
    items
}

/// One element of a Connection header.
#[derive(Clone, Debug, PartialEq, Eq)]
pub enum ConnectionOption {
    KeepAlive,
    Close,
    ConnectionHeader(Vec<u8>),
}

pub open spec fn keep_alive_bytes() -> Seq<u8> {
    seq![107u8, 101u8, 101u8, 112u8, 45u8, 97u8, 108u8, 105u8, 118u8, 101u8]
}

pub open spec fn close_bytes() -> Seq<u8> {
    seq![99u8, 108u8, 111u8, 115u8, 101u8]
}

/// The wire form of a Connection element.
pub open spec fn opt_bytes(o: ConnectionOption) -> Seq<u8> {
    match o {
        ConnectionOption::KeepAlive => keep_alive_bytes(),
        ConnectionOption::Close => close_bytes(),
        ConnectionOption::ConnectionHeader(v) => v@,
    }
}

/// How a parsed Connection element relates to its trimmed segment: an
/// unrecognized token is kept case-folded, so that two spellings of one
/// token parse to equal values.
pub open spec fn opt_matches(o: ConnectionOption, seg: Seq<u8>) -> bool {
    &&& (o is KeepAlive <==> lower_seq(seg) == lower_seq(keep_alive_bytes()))
    &&& (o is Close <==> lower_seq(seg) == lower_seq(close_bytes()))
    &&& (o is ConnectionHeader ==> o->0@ == lower_seq(seg))
}

impl ConnectionOption {
    /// Parse one Connection element, ASCII case aside; an unrecognized
    /// token is kept in its case-folded form.
    pub fn from_bytes(s: &[u8]) -> (r: ConnectionOption)
        ensures
            opt_matches(r, s@),
    {
        let mut ka: Vec<u8> = Vec::new();
        ka.push(107);
        ka.push(101);
        ka.push(101);
        ka.push(112);
        ka.push(45);
        ka.push(97);
        ka.push(108);
        ka.push(105);
        ka.push(118);
        ka.push(101);
        assert(ka@ =~= keep_alive_bytes());
        let mut cl: Vec<u8> = Vec::new();
        cl.push(99);
        cl.push(108);
        cl.push(111);
        cl.push(115);
        cl.push(101);
        assert(cl@ =~= close_bytes());
        proof {
            assert(lower_seq(ka@).len() == 10);
            assert(lower_seq(cl@).len() == 5);
            assert(lower_seq(s@).len() == s@.len());
        }
        if eq_ignore_case(s, ka.as_slice()) {
            ConnectionOption::KeepAlive
        } else if eq_ignore_case(s, cl.as_slice()) {
            ConnectionOption::Close
        } else {
            ConnectionOption::ConnectionHeader(crate::tokens::to_lower_vec(s))
        }
    }

    /// The wire form of the element.
    pub fn serialize(&self) -> (r: Vec<u8>)
        ensures
            r@ == opt_bytes(*self),
    {
        match self {
            ConnectionOption::KeepAlive => {
                let mut out: Vec<u8> = Vec::new();
                out.push(107);
                out.push(101);
                out.push(101);
                out.push(112);
                out.push(45);
                out.push(97);
                out.push(108);
                out.push(105);
                out.push(118);
                out.push(101);
                assert(out@ =~= keep_alive_bytes());
                out
            },
            ConnectionOption::Close => {
                let mut out: Vec<u8> = Vec::new();
                out.push(99);
                out.push(108);
                out.push(111);
                out.push(115);
                out.push(101);
                assert(out@ =~= close_bytes());
                out
            },
            ConnectionOption::ConnectionHeader(v) => vstd::slice::slice_to_vec(
                v.as_slice(),
            ),
        }
    }
}

/// A Connection header: its elements in order.
#[derive(Clone, Debug, PartialEq, Eq)]
pub struct Connection(pub Vec<ConnectionOption>);

impl Connection {
    /// A Connection header that closes the connection.
    pub fn close() -> (c: Connection)
        ensures
            c.0@.len() == 1 && c.0@[0] is Close,
    {
        let mut v: Vec<ConnectionOption> = Vec::new();
        v.push(ConnectionOption::Close);
        Connection(v)
    }

    /// A Connection header that keeps the connection alive.
    pub fn keep_alive() -> (c: Connection)
        ensures
            c.0@.len() == 1 && c.0@[0] is KeepAlive,
    {
        let mut v: Vec<ConnectionOption> = Vec::new();
        v.push(ConnectionOption::KeepAlive);
        Connection(v)
    }

    /// Parse a Connection header value: its comma-separated elements,
    /// each trimmed, empties dropped.
    pub fn from_bytes(value: &[u8]) -> (c: Connection)
        ensures
            ({
                let segs = crate::tokens::split_nonempty(value@, 0);
                c.0@.len() == segs.len() && forall|i: int|
                    0 <= i < segs.len() ==> opt_matches(#[trigger] c.0@[i], segs[i])
            }),
    {
        let mut items: Vec<ConnectionOption> = Vec::new();
        let ghost mut done: Seq<Seq<u8>> = Seq::empty();
        let len = value.len();
        let mut from: usize = 0;
        proof {
            assert(done + crate::tokens::split_nonempty(value@, 0)
                =~= crate::tokens::split_nonempty(value@, 0));
        }
        loop
            invariant_except_break
                crate::tokens::split_nonempty(value@, 0) == done
                    + crate::tokens::split_nonempty(value@, from as int),
            invariant
                from <= len,
                len == value@.len(),
                items@.len() == done.len(),
                forall|i: int|
                    0 <= i < done.len() ==> opt_matches(#[trigger] items@[i], done[i]),
            ensures
                crate::tokens::split_nonempty(value@, 0) == done,
            decreases len - from,
        {
            proof {
                crate::tokens::lemma_byte_offset(value@, from as int, 44);
            }
            let j = crate::tokens::find_byte(value, from, 44);
            let seg = vstd::slice::slice_subrange(value, from, j);
            let t = trim_slice(seg);
            let ghost pre = done;
            if t.len() > 0 {
                items.push(ConnectionOption::from_bytes(t));
                proof {
                    done = pre.push(t@);
                }
            }
            if j >= len {
                proof {
                    let tail = crate::tokens::split_nonempty(value@, from as int);
                    if t@.len() == 0 {
                        assert(tail =~= Seq::<Seq<u8>>::empty());
                        assert(pre + tail =~= pre);
                    } else {
                        assert(tail =~= seq![t@]);
                        assert(pre + tail =~= done);
                    }
                }
                break ;
            }
            proof {
                let rest = crate::tokens::split_nonempty(value@, j + 1);
                if t@.len() == 0 {
                    assert(crate::tokens::split_nonempty(value@, from as int) == rest);
                } else {
                    assert(crate::tokens::split_nonempty(value@, from as int) == seq![t@]
                        + rest);
                    assert(pre + (seq![t@] + rest) =~= done + rest);
                }
            }
            from = j + 1;
        }
        Connection(items)
    }

    /// The wire form: the elements joined with `, `.
    pub fn serialize(&self) -> (r: Vec<u8>)
        ensures
            r@ == joined(self.0@.map_values(|o: ConnectionOption| opt_bytes(o))),
    {
        let ghost m = self.0@.map_values(|o: ConnectionOption| opt_bytes(o));
        let mut out: Vec<u8> = Vec::new();
        let len = self.0.len();
        let mut i: usize = 0;
        while i < len
            invariant
                i <= len,
                len == self.0@.len(),
                len == m.len(),
                m == self.0@.map_values(|o: ConnectionOption| opt_bytes(o)),
                i == 0 ==> out@ == Seq::<u8>::empty(),
                1 <= i < len ==> out@ + seq![44u8, 32u8] + joined(m.skip(i as int))
                    == joined(m),
                i == len && len >= 1 ==> out@ == joined(m),
            decreases len - i,
        {
            proof {
                lemma_joined_unfold(m, i as int);
            }
            if i > 0 {
                out.push(44);
                out.push(32);
            }
            let mut piece = self.0[i].serialize();
            proof {
                assert(m[i as int] == opt_bytes(self.0@[i as int]));
            }
            out.append(&mut piece);
            proof {
                if i + 1 < len {
                    assert(out@ + seq![44u8, 32u8] + joined(m.skip(i + 1)) =~= joined(m));
                } else {
                    assert(out@ =~= joined(m));
                }
            }
            i = i + 1;
        }
        out
    }
}

} // verus!
