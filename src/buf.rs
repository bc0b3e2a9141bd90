//! The output buffer: one contiguous byte buffer, or an ordered list of fragments.
use vstd::prelude::*;
use bytes::{Bytes, BytesMut};
use crate::bytebuf::{bytes_mut_new, bytes_mut_of, bytes_of, bytes_slice, put_slice};

verus! {

/// One fragment of a segmented buffer.
pub enum EncodedBuf {
    /// Bytes that live for the whole run of the program.
    Static(&'static [u8]),
    /// Shared bytes, taken in without copying.
    Buf(Bytes),
}

impl EncodedBuf {
    pub open spec fn bytes(self) -> Seq<u8> {
        match self {
            EncodedBuf::Static(s) => s@,
            EncodedBuf::Buf(b) => bytes_of(b),
        }
    }
}

/// The concatenation of the fragments, in order.
pub open spec fn concat_fragments(s: Seq<EncodedBuf>) -> Seq<u8>
    decreases s.len(),
{
    if s.len() == 0 {
        Seq::empty()
    } else {
        concat_fragments(s.drop_last()) + s.last().bytes()
    }
}

/// The buffer a connection writes its response bytes into.
pub enum WriteBuf {
    /// A single growable byte buffer.
    Flat(BytesMut),
    /// Fragments in write order.
    List(Vec<EncodedBuf>),
}

impl WriteBuf {
    /// The bytes written so far, in order.
    pub open spec fn bytes(self) -> Seq<u8> {
        match self {
            WriteBuf::Flat(b) => bytes_mut_of(b),
            WriteBuf::List(l) => concat_fragments(l@),
        }
    }

    pub open spec fn is_flat(self) -> bool {
        self is Flat
    }

    /// An empty contiguous buffer.
    pub fn new_flat() -> (r: WriteBuf)
        ensures
            r.bytes() == Seq::<u8>::empty(),
            r.is_flat(),
    {
        WriteBuf::Flat(bytes_mut_new())
    }

    /// An empty list of fragments.
    pub fn new_list() -> (r: WriteBuf)
        ensures
            r.bytes() == Seq::<u8>::empty(),
            !r.is_flat(),
    {
        let r = WriteBuf::List(Vec::new());
        assert(r.bytes() =~= Seq::<u8>::empty());
        r
    }

    /// Appends a fragment that lives for the whole program run.
    pub fn put_static(&mut self, s: &'static [u8])
        ensures
            final(self).bytes() == old(self).bytes() + s@,
            final(self).is_flat() == old(self).is_flat(),
    {
        match self {
            WriteBuf::Flat(v) => {
                put_slice(v, s);
            },
            WriteBuf::List(l) => {
                let ghost before = l@;
                l.push(EncodedBuf::Static(s));
                assert(l@.drop_last() =~= before);
            },
        }
    }

    /// Appends shared bytes; a list takes them in without copying.
    pub fn put_bytes(&mut self, b: Bytes)
        ensures
            final(self).bytes() == old(self).bytes() + bytes_of(b),
            final(self).is_flat() == old(self).is_flat(),
    {
        match self {
            WriteBuf::Flat(v) => {
                put_slice(v, bytes_slice(&b));
            },
            WriteBuf::List(l) => {
                let ghost before = l@;
                let ghost bv = bytes_of(b);
                l.push(EncodedBuf::Buf(b));
                assert(l@.drop_last() =~= before);
                assert(l@.last().bytes() == bv);
            },
        }
    }
}

} // verus!
