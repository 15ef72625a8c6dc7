//! Byte-level text utilities of the handshake: ASCII case folding,
//! optional-whitespace trimming, byte scanning, and comma-list tokens.

use vstd::prelude::*;

verus! {

/// ASCII lower-casing of one byte.
pub open spec fn lower(b: u8) -> u8 {
    if 65 <= b <= 90 {
        (b + 32) as u8
    } else {
        b
    }
}

/// ASCII lower-casing of a byte sequence.
pub open spec fn lower_seq(s: Seq<u8>) -> Seq<u8> {
    s.map_values(|b: u8| lower(b))
}

/// Case-insensitive equality of two byte strings.
pub fn eq_ignore_case(a: &[u8], b: &[u8]) -> (r: bool)
    ensures
        r == (lower_seq(a@) == lower_seq(b@)),
{
    if a.len() != b.len() {
        assert(lower_seq(a@).len() != lower_seq(b@).len());
        return false;
    }
    let len = a.len();
    let mut i: usize = 0;
    while i < len
        invariant
            i <= len,
            len == a@.len() == b@.len(),
            forall|j: int| 0 <= j < i ==> lower(a@[j]) == lower(b@[j]),
        decreases len - i,
    {
        let ca = a[i];
        let cb = b[i];
        let la = if 65 <= ca && ca <= 90 {
            ca + 32
        } else {
            ca
        };
        let lb = if 65 <= cb && cb <= 90 {
            cb + 32
        } else {
            cb
        };
        if la != lb {
            assert(lower_seq(a@)[i as int] != lower_seq(b@)[i as int]);
            return false;
        }
        i = i + 1;
    }
    assert(lower_seq(a@) =~= lower_seq(b@));
    true
}

/// ASCII-lower-case a byte string.
pub fn to_lower_vec(s: &[u8]) -> (r: Vec<u8>)
    ensures
        r@ == lower_seq(s@),
{
    let len = s.len();
    let mut out: Vec<u8> = Vec::new();
    let mut i: usize = 0;
    while i < len
        invariant
            i <= len,
            len == s@.len(),
            out@.len() == i,
            forall|j: int| 0 <= j < i ==> out@[j] == lower(s@[j]),
        decreases len - i,
    {
        let c = s[i];
        out.push(
            if 65 <= c && c <= 90 {
                c + 32
            } else {
                c
            },
        );
        i = i + 1;
    }
    assert(out@ =~= lower_seq(s@));
    out
}

/// Exact equality of two byte strings.
pub fn bytes_eq(a: &[u8], b: &[u8]) -> (r: bool)
    ensures
        r == (a@ == b@),
{
    if a.len() != b.len() {
        return false;
    }
    let len = a.len();
    let mut i: usize = 0;
    while i < len
        invariant
            i <= len,
            len == a@.len() == b@.len(),
            forall|j: int| 0 <= j < i ==> a@[j] == b@[j],
        decreases len - i,
    {
        if a[i] != b[i] {
            return false;
        }
        i = i + 1;
    }
    assert(a@ =~= b@);
    true
}

/// Optional whitespace: space or horizontal tab.
pub open spec fn is_ows(b: u8) -> bool {
    b == 32 || b == 9
}

pub open spec fn trim_start(s: Seq<u8>) -> Seq<u8>
    decreases s.len(),
{
    if s.len() == 0 {
        s
    } else if is_ows(s[0]) {
        trim_start(s.skip(1))
    } else {
        s
    }
}

pub open spec fn trim_end(s: Seq<u8>) -> Seq<u8>
    decreases s.len(),
{
    if s.len() == 0 {
        s
    } else if is_ows(s.last()) {
        trim_end(s.drop_last())
    } else {
        s
    }
}

/// A byte string without its leading and trailing optional whitespace.
pub open spec fn trim(s: Seq<u8>) -> Seq<u8> {
    trim_end(trim_start(s))
}

/// Cut the leading and trailing optional whitespace off a slice.
pub fn trim_slice<'a>(s: &'a [u8]) -> (r: &'a [u8])
    ensures
        r@ == trim(s@),
{
    let len = s.len();
    let mut a: usize = 0;
    proof {
        assert(s@.skip(0) =~= s@);
    }
    while a < len && (s[a] == 32 || s[a] == 9)
        invariant
            a <= len,
            len == s@.len(),
            trim_start(s@) == trim_start(s@.skip(a as int)),
        decreases len - a,
    {
        proof {
            assert(s@.skip(a as int)[0] == s@[a as int]);
            assert(s@.skip(a as int).skip(1) =~= s@.skip(a + 1));
        }
        a = a + 1;
    }
    proof {
        if a < len {
            assert(s@.skip(a as int)[0] == s@[a as int]);
        }
        assert(trim_start(s@) == s@.skip(a as int));
    }
    let mut b: usize = len;
    while b > a && (s[b - 1] == 32 || s[b - 1] == 9)
        invariant
            a <= b <= len,
            len == s@.len(),
            trim_start(s@) == s@.skip(a as int),
            trim_end(s@.skip(a as int)) == trim_end(s@.subrange(a as int, b as int)),
        decreases b,
    {
        proof {
            let cur = s@.subrange(a as int, b as int);
            assert(cur.last() == s@[b - 1]);
            assert(cur.drop_last() =~= s@.subrange(a as int, b - 1));
        }
        b = b - 1;
    }
    proof {
        let cur = s@.subrange(a as int, b as int);
        if b > a {
            assert(cur.last() == s@[b - 1]);
        }
        assert(trim_end(cur) == cur);
    }
    vstd::slice::slice_subrange(s, a, b)
}

/// How far from `from` the first `b` sits; the rest of the sequence's
/// length when there is none.
pub open spec fn byte_offset(s: Seq<u8>, from: int, b: u8) -> nat
    decreases s.len() - from,
{
    if from >= s.len() || from < 0 {
        0
    } else if s[from] == b {
        0
    } else {
        1 + byte_offset(s, from + 1, b)
    }
}

/// The byte at `from + byte_offset` is the first hit, and everything
/// before it misses.
pub proof fn lemma_byte_offset(s: Seq<u8>, from: int, b: u8)
    requires
        0 <= from <= s.len(),
    ensures
        from + byte_offset(s, from, b) <= s.len(),
        from + byte_offset(s, from, b) < s.len() ==> s[from + byte_offset(s, from, b)]
            == b,
        forall|j: int|
            from <= j < from + byte_offset(s, from, b) ==> s[j] != b,
    decreases s.len() - from,
{
    if from < s.len() && s[from] != b {
        lemma_byte_offset(s, from + 1, b);
    }
}

/// Find the first `b` at or after `from`: its index, or the length when
/// there is none.
pub fn find_byte(s: &[u8], from: usize, b: u8) -> (r: usize)
    requires
        from <= s@.len(),
    ensures
        r == from + byte_offset(s@, from as int, b),
{
    let len = s.len();
    let mut i: usize = from;
    while i < len && s[i] != b
        invariant
            from <= i <= len,
            len == s@.len(),
            byte_offset(s@, from as int, b) == i - from + byte_offset(s@, i as int, b),
            forall|j: int| from <= j < i ==> s@[j] != b,
        decreases len - i,
    {
        i = i + 1;
    }
    i
}

/// A list element, trimmed; when `cut_slash` is set, anything from the
/// first slash on is disregarded, the way an Upgrade protocol carries a
/// version after its name.
pub open spec fn segment_token(seg: Seq<u8>, cut_slash: bool) -> Seq<u8> {
    let t = trim(seg);
    if cut_slash {
        t.take(byte_offset(t, 0, 47) as int)
    } else {
        t
    }
}

/// Whether the comma-separated list in `s`, from position `from` on,
/// holds the token, compared ASCII-case-insensitively.
pub open spec fn has_token_from(s: Seq<u8>, from: int, token: Seq<u8>, cut_slash: bool) -> bool
    decreases s.len() - from,
{
    if !(0 <= from <= s.len()) {
        false
    } else {
        let j = from + byte_offset(s, from, 44);
        let matched = lower_seq(segment_token(s.subrange(from, j as int), cut_slash))
            == lower_seq(token);
        if j >= s.len() {
            matched
        } else {
            matched || has_token_from(s, j + 1, token, cut_slash)
        }
    }
}

/// Whether a comma-separated header value holds the token.
pub open spec fn has_token(s: Seq<u8>, token: Seq<u8>, cut_slash: bool) -> bool {
    has_token_from(s, 0, token, cut_slash)
}

/// Check a comma-separated header value for a token.
pub fn contains_token(s: &[u8], token: &[u8], cut_slash: bool) -> (r: bool)
    ensures
        r == has_token(s@, token@, cut_slash),
{
    let len = s.len();
    let mut from: usize = 0;
    loop
        invariant
            0 <= from <= len,
            len == s@.len(),
            has_token(s@, token@, cut_slash) == has_token_from(
                s@,
                from as int,
                token@,
                cut_slash,
            ),
        decreases len - from,
    {
        proof {
            lemma_byte_offset(s@, from as int, 44);
        }
        let j = find_byte(s, from, 44);
        let seg = vstd::slice::slice_subrange(s, from, j);
        let t0 = trim_slice(seg);
        let t = if cut_slash {
            proof {
                lemma_byte_offset(t0@, 0, 47);
            }
            let sl = find_byte(t0, 0, 47);
            vstd::slice::slice_subrange(t0, 0, sl)
        } else {
            t0
        };
        assert(t@ == segment_token(s@.subrange(from as int, j as int), cut_slash));
        if eq_ignore_case(t, token) {
            return true;
        }
        if j >= len {
            return false;
        }
        from = j + 1;
    }
}

/// Drop the first `n` bytes of a buffer.
pub fn drop_prefix(v: &mut Vec<u8>, n: usize)
    requires
        n <= old(v)@.len(),
    ensures
        final(v)@ == old(v)@.skip(n as int),
{
    let len = v.len();
    let mut out: Vec<u8> = Vec::new();
    let mut i: usize = n;
    while i < len
        invariant
            n <= i <= len,
            len == v@.len(),
            v@ == old(v)@,
            out@ == v@.subrange(n as int, i as int),
        decreases len - i,
    {
        let b = v[i];
        out.push(b);
        assert(out@ =~= v@.subrange(n as int, i + 1));
        i = i + 1;
    }
    assert(out@ =~= old(v)@.skip(n as int));
    *v = out;
}

/// The comma-separated list from position `from` on: every element,
/// trimmed, empties kept.
pub open spec fn split_list(s: Seq<u8>, from: int) -> Seq<Seq<u8>>
    decreases s.len() - from,
{
    if !(0 <= from <= s.len()) {
        Seq::empty()
    } else {
        let j = from + byte_offset(s, from, 44);
        let item = trim(s.subrange(from, j as int));
        if j >= s.len() {
            seq![item]
        } else {
            seq![item] + split_list(s, j + 1)
        }
    }
}

/// The comma-separated list from position `from` on: every element,
/// trimmed, empties dropped.
pub open spec fn split_nonempty(s: Seq<u8>, from: int) -> Seq<Seq<u8>>
    decreases s.len() - from,
{
    if !(0 <= from <= s.len()) {
        Seq::empty()
    } else {
        let j = from + byte_offset(s, from, 44);
        let item = trim(s.subrange(from, j as int));
        let rest: Seq<Seq<u8>> = if j >= s.len() {
            Seq::empty()
        } else {
            split_nonempty(s, j + 1)
        };
        if item.len() == 0 {
            rest
        } else {
            seq![item] + rest
        }
    }
}

} // verus!
