//! The 4-byte XOR mask a client applies to every payload byte.

use vstd::prelude::*;

verus! {

/// What masking means: byte `i` of the data is XORed with key byte
/// `i mod 4`.  Applying the same key twice gives the data back.
pub open spec fn masked_seq_from(key: Seq<u8>, start: int, data: Seq<u8>) -> Seq<u8> {
    Seq::new(data.len(), |i: int| data[i] ^ key[(start + i) % 4])
}

/// Masking that starts at the beginning of the key.
pub open spec fn masked_seq(key: Seq<u8>, data: Seq<u8>) -> Seq<u8> {
    masked_seq_from(key, 0, data)
}

/// Masking is an involution: the same key applied twice restores the data.
pub proof fn lemma_mask_involution(key: Seq<u8>, data: Seq<u8>)
    requires
        key.len() == 4,
    ensures
        masked_seq(key, masked_seq(key, data)) == data,
{
    lemma_mask_involution_from(key, 0, data);
}

/// The involution holds from any starting offset of the key cycle.
pub proof fn lemma_mask_involution_from(key: Seq<u8>, start: int, data: Seq<u8>)
    requires
        key.len() == 4,
    ensures
        masked_seq_from(key, start, masked_seq_from(key, start, data)) == data,
{
    let twice = masked_seq_from(key, start, masked_seq_from(key, start, data));
    assert forall|i: int| 0 <= i < data.len() implies twice[i] == data[i] by {
        let k = key[(start + i) % 4];
        let b = data[i];
        assert((b ^ k) ^ k == b) by (bit_vector);
    }
    assert(twice =~= data);
}

/// The masked bytes of a chunked stream: each chunk is masked where the
/// previous one left off in the key cycle, as `Masker::process` does.
pub open spec fn masked_chunks(key: Seq<u8>, start: int, chunks: Seq<Seq<u8>>) -> Seq<u8>
    decreases chunks.len(),
{
    if chunks.len() == 0 {
        Seq::empty()
    } else {
        masked_seq_from(key, start, chunks[0]) + masked_chunks(
            key,
            (start + chunks[0].len()) % 4,
            chunks.skip(1),
        )
    }
}

/// Streaming masking is chunking-independent: however the data is split
/// into chunks, the concatenation of the masked chunks equals the
/// masking of the concatenated data.
pub proof fn lemma_masker_chunking(key: Seq<u8>, start: int, chunks: Seq<Seq<u8>>)
    requires
        0 <= start < 4,
    ensures
        masked_chunks(key, start, chunks) == masked_seq_from(key, start, chunks.flatten()),
    decreases chunks.len(),
{
    if chunks.len() == 0 {
        assert(masked_seq_from(key, start, chunks.flatten()) =~= Seq::<u8>::empty());
    } else {
        let head = chunks[0];
        let rest = chunks.skip(1);
        let mid = (start + head.len()) % 4;
        assert(chunks.flatten() == head + rest.flatten());
        lemma_masker_chunking(key, mid, rest);
        assert forall|i: int| 0 <= i < rest.flatten().len() implies masked_seq_from(
            key,
            start,
            chunks.flatten(),
        )[head.len() + i] == masked_seq_from(key, mid, rest.flatten())[i] by {
            vstd::arithmetic::div_mod::lemma_add_mod_noop(start + head.len(), i, 4);
            vstd::arithmetic::div_mod::lemma_add_mod_noop(mid, i, 4);
            assert((start + head.len() + i) % 4 == (mid + i) % 4);
        }
        assert(masked_seq_from(key, start, chunks.flatten()) =~= masked_seq_from(
            key,
            start,
            head,
        ) + masked_seq_from(key, mid, rest.flatten()));
    }
}

/// Relies on rand::random: draws a value of any type that the standard
/// distribution covers; nothing is promised of the value drawn.
pub assume_specification<T>[ rand::random::<T> ]() -> (r: T)
    where
        rand::distributions::Standard: rand::distributions::Distribution<T>,
;

/// A fresh random masking key.  Nothing is promised of its value: every
/// contract downstream holds for any 4 bytes.
pub fn gen_mask() -> [u8; 4] {
    rand::random::<[u8; 4]>()
}

/// Mask (or unmask) a whole buffer with the given key.
pub fn mask_data(mask: [u8; 4], data: &[u8]) -> (out: Vec<u8>)
    ensures
        out@ == masked_seq(mask@, data@),
{
    let mut out: Vec<u8> = Vec::new();
    let mut i: usize = 0;
    while i < data.len()
        invariant
            i <= data.len(),
            out@.len() == i,
            forall|j: int| 0 <= j < i ==> out@[j] == (data@[j] ^ mask@[j % 4]),
        decreases data.len() - i,
    {
        out.push(data[i] ^ mask[i % 4]);
        i = i + 1;
    }
    assert(out@ =~= masked_seq(mask@, data@));
    out
}

/// Masks a stream of buffers, carrying the key position across calls so
/// that the concatenation of the outputs equals the masking of the
/// concatenation of the inputs.
pub struct Masker {
    key: [u8; 4],
    pos: usize,
}

impl Masker {
    /// Where in the 4-byte key cycle the next input byte will land.
    pub closed spec fn position(self) -> int {
        self.pos as int
    }

    pub closed spec fn key_seq(self) -> Seq<u8> {
        self.key@
    }

    pub closed spec fn wf(self) -> bool {
        self.pos < 4
    }

    /// A masker that starts at the beginning of the key.
    pub fn new(key: [u8; 4]) -> (m: Masker)
        ensures
            m.wf(),
            m.key_seq() == key@,
            m.position() == 0,
    {
        Masker { key, pos: 0 }
    }

    /// Mask the next chunk of the stream.
    pub fn process(&mut self, data: &[u8]) -> (out: Vec<u8>)
        requires
            old(self).wf(),
        ensures
            final(self).wf(),
            final(self).key_seq() == old(self).key_seq(),
            out@ == masked_seq_from(old(self).key_seq(), old(self).position(), data@),
            final(self).position() == (old(self).position() + data@.len()) % 4,
    {
        let mut out: Vec<u8> = Vec::new();
        let mut i: usize = 0;
        while i < data.len()
            invariant
                i <= data.len(),
                self.pos < 4,
                self.key == old(self).key,
                self.pos as int == (old(self).pos + i) % 4,
                out@.len() == i,
                forall|j: int| 0 <= j < i
                    ==> out@[j] == (data@[j] ^ self.key@[(old(self).pos + j) % 4]),
            decreases data.len() - i,
        {
            out.push(data[i] ^ self.key[self.pos]);
            self.pos = if self.pos == 3 {
                0
            } else {
                self.pos + 1
            };
            i = i + 1;
        }
        assert(out@ =~= masked_seq_from(old(self).key_seq(), old(self).position(), data@));
        out
    }
}

} // verus!
