//! Body framing: end-of-stream, length-delimited, chunked and raw pass-through.
use vstd::prelude::*;
use crate::buf::WriteBuf;
use crate::context::ConnectionType;
use bytes::Bytes;
use crate::bytebuf::{bytes_from_vec, bytes_len, bytes_of, split_to};
use crate::text::{ascii_bytes, digit_byte, format_hex, hex_upper, static_bytes};

verus! {

/// The framing state of one response body.
#[derive(Clone, Copy, Debug, PartialEq, Eq, Structural)]
pub enum Kind {
    /// No framing: the end of the stream ends the body.
    Eof,
    /// Chunked framing; `true` once the terminating chunk is written.
    EncodeChunked(bool),
    /// Exactly this many more bytes are expected.
    Length(u64),
    /// A stream on an upgraded connection, passed through without framing.
    PlainChunked,
}

/// Error of body framing.
#[derive(Clone, Copy, Debug, PartialEq, Eq, Structural)]
pub enum EncodeError {
    /// The body ended before its declared length was written.
    UnexpectedEof,
}

/// The frame of one non-empty chunk: its length in hex, CRLF, the bytes, CRLF.
pub open spec fn chunk_frame(c: Seq<u8>) -> Seq<u8> {
    hex_upper(c.len()) + ascii_bytes("\r\n"@) + c + ascii_bytes("\r\n"@)
}

/// The zero-length chunk that ends a chunked body.
pub open spec fn terminator() -> Seq<u8> {
    ascii_bytes("0\r\n\r\n"@)
}

pub open spec fn min(a: int, b: int) -> int {
    if a <= b {
        a
    } else {
        b
    }
}

/// The bytes that encoding `msg` writes in state `k`.
pub open spec fn encode_out(k: Kind, msg: Seq<u8>) -> Seq<u8> {
    match k {
        Kind::Eof | Kind::PlainChunked => msg,
        Kind::EncodeChunked(finished) => {
            if finished {
                Seq::empty()
            } else if msg.len() == 0 {
                terminator()
            } else {
                chunk_frame(msg)
            }
        },
        Kind::Length(rem) => {
            if rem == 0 || msg.len() == 0 {
                Seq::empty()
            } else {
                msg.take(min(rem as int, msg.len() as int))
            }
        },
    }
}

/// The state after encoding `msg` in state `k`.
pub open spec fn encode_kind(k: Kind, msg: Seq<u8>) -> Kind {
    match k {
        Kind::EncodeChunked(finished) => Kind::EncodeChunked(finished || msg.len() == 0),
        Kind::Length(rem) => {
            if rem == 0 || msg.len() == 0 {
                k
            } else {
                Kind::Length((rem - min(rem as int, msg.len() as int)) as u64)
            }
        },
        _ => k,
    }
}

/// Whether the body is complete after encoding `msg` in state `k`.
pub open spec fn encode_done(k: Kind, msg: Seq<u8>) -> bool {
    match k {
        Kind::Eof | Kind::PlainChunked => msg.len() == 0,
        _ => match encode_kind(k, msg) {
            Kind::EncodeChunked(finished) => finished,
            Kind::Length(rem) => rem == 0,
            _ => false,
        },
    }
}

/// The bytes that ending the body writes in state `k`.
pub open spec fn eof_out(k: Kind) -> Seq<u8> {
    match k {
        Kind::EncodeChunked(false) => terminator(),
        _ => Seq::empty(),
    }
}

/// The state after ending the body.
pub open spec fn eof_kind(k: Kind) -> Kind {
    match k {
        Kind::EncodeChunked(_) => Kind::EncodeChunked(true),
        _ => k,
    }
}

/// Ending the body succeeds unless a declared length is still owed.
pub open spec fn eof_ok(k: Kind) -> bool {
    match k {
        Kind::Length(rem) => rem == 0,
        _ => true,
    }
}

/// Encodes a body, chunk by chunk, in framing state `kind`.
#[derive(Debug)]
pub struct TransferEncoding {
    pub kind: Kind,
}

impl TransferEncoding {
    pub fn eof() -> (r: TransferEncoding)
        ensures
            r.kind == Kind::Eof,
    {
        TransferEncoding { kind: Kind::Eof }
    }

    pub fn chunked() -> (r: TransferEncoding)
        ensures
            r.kind == Kind::EncodeChunked(false),
    {
        TransferEncoding { kind: Kind::EncodeChunked(false) }
    }

    pub fn plain_chunked() -> (r: TransferEncoding)
        ensures
            r.kind == Kind::PlainChunked,
    {
        TransferEncoding { kind: Kind::PlainChunked }
    }

    pub fn length(len: u64) -> (r: TransferEncoding)
        ensures
            r.kind == Kind::Length(len),
    {
        TransferEncoding { kind: Kind::Length(len) }
    }

    /// Encodes one chunk of the body; returns whether the body is complete.
    /// A length-delimited body drops what exceeds the declared length.
    pub fn encode(&mut self, msg: Bytes, buf: &mut WriteBuf) -> (r: Result<bool, EncodeError>)
        ensures
            r == Ok::<bool, EncodeError>(encode_done(old(self).kind, bytes_of(msg))),
            final(self).kind == encode_kind(old(self).kind, bytes_of(msg)),
            final(buf).bytes() == old(buf).bytes() + encode_out(old(self).kind, bytes_of(msg)),
            final(buf).is_flat() == old(buf).is_flat(),
    {
        let ghost start = buf.bytes();
        let ghost m = bytes_of(msg);
        let msg_len = bytes_len(&msg);
        match self.kind {
            Kind::Eof | Kind::PlainChunked => {
                let eof = msg_len == 0;
                buf.put_bytes(msg);
                Ok(eof)
            },
            Kind::EncodeChunked(finished) => {
                if finished {
                    assert(buf.bytes() =~= start + encode_out(Kind::EncodeChunked(true), m));
                    return Ok(true);
                }
                proof {
                    reveal_strlit("0\r\n\r\n");
                    reveal_strlit("\r\n");
                }
                let empty = msg_len == 0;
                if empty {
                    self.kind = Kind::EncodeChunked(true);
                    buf.put_static(static_bytes("0\r\n\r\n"));
                } else {
                    let mut line = format_hex(msg_len);
                    line.push(13);
                    line.push(10);
                    assert(line@ =~= hex_upper(m.len()) + ascii_bytes("\r\n"@));
                    buf.put_bytes(bytes_from_vec(line));
                    buf.put_bytes(msg);
                    buf.put_static(static_bytes("\r\n"));
                    assert(buf.bytes() =~= start + chunk_frame(m));
                }
                Ok(empty)
            },
            Kind::Length(remaining) => {
                if remaining > 0 {
                    if msg_len == 0 {
                        assert(buf.bytes() =~= start + encode_out(Kind::Length(remaining), m));
                        return Ok(false);
                    }
                    let len: u64 = if remaining < msg_len as u64 {
                        remaining
                    } else {
                        msg_len as u64
                    };
                    let mut msg = msg;
                    let head = split_to(&mut msg, len as usize);
                    buf.put_bytes(head);
                    let rem = remaining - len;
                    self.kind = Kind::Length(rem);
                    Ok(rem == 0)
                } else {
                    assert(buf.bytes() =~= start + encode_out(Kind::Length(0), m));
                    Ok(true)
                }
            },
        }
    }

    /// Ends the body. Fails when a declared length is still owed.
    pub fn encode_eof(&mut self, buf: &mut WriteBuf) -> (r: Result<(), EncodeError>)
        ensures
            r is Ok <==> eof_ok(old(self).kind),
            r is Err ==> r == Err::<(), EncodeError>(EncodeError::UnexpectedEof),
            final(self).kind == eof_kind(old(self).kind),
            final(buf).bytes() == old(buf).bytes() + eof_out(old(self).kind),
            final(buf).is_flat() == old(buf).is_flat(),
    {
        let ghost start = buf.bytes();
        match self.kind {
            Kind::Eof | Kind::PlainChunked => {
                assert(buf.bytes() =~= start + eof_out(self.kind));
                Ok(())
            },
            Kind::Length(rem) => {
                assert(buf.bytes() =~= start + eof_out(self.kind));
                if rem != 0 {
                    Err(EncodeError::UnexpectedEof)
                } else {
                    Ok(())
                }
            },
            Kind::EncodeChunked(finished) => {
                if !finished {
                    self.kind = Kind::EncodeChunked(true);
                    proof {
                        reveal_strlit("0\r\n\r\n");
                    }
                    buf.put_static(static_bytes("0\r\n\r\n"));
                } else {
                    assert(buf.bytes() =~= start + eof_out(Kind::EncodeChunked(true)));
                }
                Ok(())
            },
        }
    }
}

/// A response body: none, bytes held in memory, or a stream of chunks.
pub enum ResponseBody<B> {
    Empty,
    Bytes { bytes: Bytes },
    Stream { stream: B },
}

/// The framing a body gets on a connection of type `ctype`.
pub open spec fn body_kind<B>(body: ResponseBody<B>, ctype: ConnectionType) -> Kind {
    match body {
        ResponseBody::Empty => Kind::Eof,
        ResponseBody::Bytes { bytes } => Kind::Length(bytes_of(bytes).len() as u64),
        ResponseBody::Stream { .. } => {
            if ctype == ConnectionType::Upgrade {
                Kind::PlainChunked
            } else {
                Kind::EncodeChunked(false)
            }
        },
    }
}

impl<B> ResponseBody<B> {
    /// The framing for this body: an empty body ends at once, bytes are
    /// length-delimited, a stream is chunked, or passed through raw on an
    /// upgraded connection.
    pub fn encoder(&self, ctype: ConnectionType) -> (r: TransferEncoding)
        ensures
            r.kind == body_kind(*self, ctype),
    {
        match self {
            ResponseBody::Empty => TransferEncoding::eof(),
            ResponseBody::Bytes { bytes } => TransferEncoding::length(bytes_len(bytes) as u64),
            ResponseBody::Stream { .. } => {
                if ctype == ConnectionType::Upgrade {
                    TransferEncoding::plain_chunked()
                } else {
                    TransferEncoding::chunked()
                }
            },
        }
    }
}

/// The concatenation of the chunks, in order.
pub open spec fn concat_chunks(chunks: Seq<Seq<u8>>) -> Seq<u8>
    decreases chunks.len(),
{
    if chunks.len() == 0 {
        Seq::empty()
    } else {
        concat_chunks(chunks.drop_last()) + chunks.last()
    }
}

/// Encodes the chunks in order from state `k`: the final state and all the
/// bytes written.
pub open spec fn run_encode(k: Kind, chunks: Seq<Seq<u8>>) -> (Kind, Seq<u8>)
    decreases chunks.len(),
{
    if chunks.len() == 0 {
        (k, Seq::empty())
    } else {
        let prev = run_encode(k, chunks.drop_last());
        (encode_kind(prev.0, chunks.last()), prev.1 + encode_out(prev.0, chunks.last()))
    }
}

/// The frames of the chunks, in order.
pub open spec fn chunk_frames(chunks: Seq<Seq<u8>>) -> Seq<u8>
    decreases chunks.len(),
{
    if chunks.len() == 0 {
        Seq::empty()
    } else {
        chunk_frames(chunks.drop_last()) + chunk_frame(chunks.last())
    }
}

/// A body of declared length `n` fed with any chunks: what is written is
/// the first `n` bytes of their concatenation (all of it when shorter),
/// the remaining count drops by as much, and ending the body succeeds
/// exactly when at least `n` bytes were offered.
pub proof fn lemma_length_body(n: u64, chunks: Seq<Seq<u8>>)
    ensures
        run_encode(Kind::Length(n), chunks).1 == concat_chunks(chunks).take(
            min(n as int, concat_chunks(chunks).len() as int),
        ),
        run_encode(Kind::Length(n), chunks).0 == Kind::Length(
            (n - min(n as int, concat_chunks(chunks).len() as int)) as u64,
        ),
        eof_ok(run_encode(Kind::Length(n), chunks).0) <==> concat_chunks(chunks).len() >= n,
        eof_ok(run_encode(Kind::Length(n), chunks).0) ==> run_encode(Kind::Length(n), chunks).1.len()
            == n,
        eof_out(run_encode(Kind::Length(n), chunks).0) == Seq::<u8>::empty(),
    decreases chunks.len(),
{
    if chunks.len() == 0 {
        assert(concat_chunks(chunks).take(0) =~= Seq::<u8>::empty());
    } else {
        let init = chunks.drop_last();
        let c = chunks.last();
        lemma_length_body(n, init);
        let t = concat_chunks(init);
        let all = concat_chunks(chunks);
        assert(all == t + c);
        let m = min(n as int, t.len() as int);
        if m == n as int {
            assert(all.take(n as int) =~= t.take(n as int));
        } else if c.len() == 0 {
            assert(all =~= t);
        } else {
            let l = min((n - m) as int, c.len() as int);
            assert(min(n as int, all.len() as int) == m + l);
            assert(all.take(m + l) =~= t.take(m) + c.take(l));
        }
    }
}

/// A chunked body fed with non-empty chunks and then ended: what is written
/// is the frame of each chunk in order and then the terminating chunk.
pub proof fn lemma_chunked_body(chunks: Seq<Seq<u8>>)
    requires
        forall|i: int| 0 <= i < chunks.len() ==> #[trigger] chunks[i].len() > 0,
    ensures
        run_encode(Kind::EncodeChunked(false), chunks) == (
            Kind::EncodeChunked(false),
            chunk_frames(chunks),
        ),
        run_encode(Kind::EncodeChunked(false), chunks).1 + eof_out(
            run_encode(Kind::EncodeChunked(false), chunks).0,
        ) == chunk_frames(chunks) + terminator(),
        eof_ok(run_encode(Kind::EncodeChunked(false), chunks).0),
    decreases chunks.len(),
{
    if chunks.len() > 0 {
        let init = chunks.drop_last();
        assert forall|i: int| 0 <= i < init.len() implies #[trigger] init[i].len() > 0 by {
            assert(init[i] == chunks[i]);
        }
        lemma_chunked_body(init);
        assert(chunks.last() == chunks[chunks.len() - 1]);
    }
}

/// Ending a body a second time, after a first end that succeeded, writes
/// nothing and changes nothing.
pub proof fn lemma_eof_twice(k: Kind)
    requires
        eof_ok(k),
    ensures
        eof_ok(eof_kind(k)),
        eof_kind(eof_kind(k)) == eof_kind(k),
        eof_out(eof_kind(k)) == Seq::<u8>::empty(),
{
}

/// Ending an already finished chunked body, or a length-delimited body with
/// nothing owed, writes nothing and leaves the state as it is.
pub proof fn lemma_eof_finished_noop(k: Kind)
    requires
        k == Kind::EncodeChunked(true) || k == Kind::Length(0),
    ensures
        eof_ok(k),
        eof_kind(k) == k,
        eof_out(k) == Seq::<u8>::empty(),
{
}

/// An ASCII hexadecimal digit, either case.
pub open spec fn is_hex_digit(b: u8) -> bool {
    (48 <= b && b <= 57) || (65 <= b && b <= 70) || (97 <= b && b <= 102)
}

pub open spec fn hex_digit_value(b: u8) -> nat {
    if 48 <= b && b <= 57 {
        (b - 48) as nat
    } else if 65 <= b && b <= 70 {
        (b - 55) as nat
    } else {
        (b - 87) as nat
    }
}

/// The number of hexadecimal digits at the start of `s`.
pub open spec fn hex_run(s: Seq<u8>) -> nat
    decreases s.len(),
{
    if s.len() > 0 && is_hex_digit(s[0]) {
        1 + hex_run(s.drop_first())
    } else {
        0
    }
}

/// The number that a sequence of hexadecimal digits denotes.
pub open spec fn hex_value(d: Seq<u8>) -> nat
    decreases d.len(),
{
    if d.len() == 0 {
        0
    } else {
        hex_value(d.drop_last()) * 16 + hex_digit_value(d.last())
    }
}

pub open spec fn crlf() -> Seq<u8> {
    seq![13u8, 10u8]
}

/// Reads a chunked body: each chunk is a hexadecimal length, CRLF, that many
/// bytes and CRLF, up to the chunk of length zero, which is followed by CRLF
/// and nothing else. `None` when `s` is not such a body.
pub open spec fn decode_chunked(s: Seq<u8>) -> Option<Seq<u8>>
    decreases s.len(),
{
    let k = hex_run(s) as int;
    if k == 0 || k + 2 > s.len() || s.subrange(k, k + 2) != crlf() {
        None
    } else {
        let n = hex_value(s.take(k)) as int;
        if n == 0 {
            if s.skip(k + 2) == crlf() {
                Some(Seq::empty())
            } else {
                None
            }
        } else if k + n + 4 > s.len() || s.subrange(k + n + 2, k + n + 4) != crlf() {
            None
        } else {
            match decode_chunked(s.skip(k + n + 4)) {
                Some(b) => Some(s.subrange(k + 2, k + n + 2) + b),
                None => None,
            }
        }
    }
}

proof fn lemma_digit_byte(d: nat)
    requires
        d < 16,
    ensures
        is_hex_digit(digit_byte(d)),
        hex_digit_value(digit_byte(d)) == d,
        digit_byte(d) != 13,
{
}

proof fn lemma_hex_upper(n: nat)
    ensures
        hex_upper(n).len() > 0,
        forall|i: int| 0 <= i < hex_upper(n).len() ==> is_hex_digit(#[trigger] hex_upper(n)[i]),
        hex_value(hex_upper(n)) == n,
    decreases n,
{
    if n < 16 {
        lemma_digit_byte(n);
        assert(hex_upper(n).drop_last() =~= Seq::<u8>::empty());
        assert(hex_upper(n).last() == digit_byte(n));
        assert(hex_value(Seq::<u8>::empty()) == 0);
    } else {
        lemma_hex_upper(n / 16);
        lemma_digit_byte(n % 16);
        assert(hex_upper(n).drop_last() =~= hex_upper(n / 16));
        assert(hex_upper(n).last() == digit_byte(n % 16));
        assert(hex_value(hex_upper(n)) == hex_value(hex_upper(n / 16)) * 16 + hex_digit_value(
            digit_byte(n % 16),
        ));
        assert((n / 16) * 16 + n % 16 == n) by (nonlinear_arith);
    }
}

proof fn lemma_hex_run(d: Seq<u8>, r: Seq<u8>)
    requires
        forall|i: int| 0 <= i < d.len() ==> is_hex_digit(#[trigger] d[i]),
        r.len() > 0,
        !is_hex_digit(r[0]),
    ensures
        hex_run(d + r) == d.len(),
    decreases d.len(),
{
    if d.len() == 0 {
        assert(d + r =~= r);
    } else {
        assert((d + r).drop_first() =~= d.drop_first() + r);
        assert(is_hex_digit(d[0]));
        assert forall|i: int| 0 <= i < d.drop_first().len() implies is_hex_digit(
            #[trigger] d.drop_first()[i],
        ) by {
            assert(d.drop_first()[i] == d[i + 1]);
        }
        lemma_hex_run(d.drop_first(), r);
    }
}

proof fn lemma_frame_then_rest(c: Seq<u8>, rest: Seq<u8>)
    requires
        c.len() > 0,
    ensures
        decode_chunked(chunk_frame(c) + rest) == (match decode_chunked(rest) {
            Some(b) => Some(c + b),
            None => None::<Seq<u8>>,
        }),
{
    reveal_strlit("\r\n");
    assert(ascii_bytes("\r\n"@) =~= crlf());
    let h = hex_upper(c.len());
    lemma_hex_upper(c.len());
    let s = chunk_frame(c) + rest;
    assert(s =~= h + (crlf() + c + crlf() + rest));
    lemma_hex_run(h, crlf() + c + crlf() + rest);
    let k = h.len() as int;
    let n = c.len() as int;
    assert(s.take(k) =~= h);
    assert(s.subrange(k, k + 2) =~= crlf());
    assert(s.subrange(k + n + 2, k + n + 4) =~= crlf());
    assert(s.skip(k + n + 4) =~= rest);
    assert(s.subrange(k + 2, k + n + 2) =~= c);
}

proof fn lemma_terminator()
    ensures
        decode_chunked(terminator()) == Some(Seq::<u8>::empty()),
{
    reveal_strlit("0\r\n\r\n");
    let t = terminator();
    assert(t =~= seq![48u8, 13u8, 10u8, 13u8, 10u8]);
    assert(t.drop_first() =~= seq![13u8, 10u8, 13u8, 10u8]);
    assert(hex_run(t.drop_first()) == 0);
    assert(hex_run(t) == 1);
    assert(t.take(1).drop_last() =~= Seq::<u8>::empty());
    assert(t.take(1).last() == 48u8);
    assert(hex_value(Seq::<u8>::empty()) == 0);
    assert(hex_value(t.take(1)) == 0);
    assert(t.subrange(1, 3) =~= crlf());
    assert(t.skip(3) =~= crlf());
}

/// A chunked body followed by anything decodes chunk by chunk.
proof fn lemma_frames_decode(chunks: Seq<Seq<u8>>)
    requires
        forall|i: int| 0 <= i < chunks.len() ==> #[trigger] chunks[i].len() > 0,
    ensures
        decode_chunked(chunk_frames(chunks) + terminator()) == Some(concat_chunks(chunks)),
    decreases chunks.len(),
{
    lemma_terminator();
    if chunks.len() == 0 {
        assert(chunk_frames(chunks) + terminator() =~= terminator());
    } else {
        let tail = chunks.drop_first();
        assert forall|i: int| 0 <= i < tail.len() implies #[trigger] tail[i].len() > 0 by {
            assert(tail[i] == chunks[i + 1]);
        }
        lemma_frames_decode(tail);
        lemma_frames_front(chunks);
        lemma_concat_front(chunks);
        let rest = chunk_frames(tail) + terminator();
        assert(chunk_frames(chunks) + terminator() =~= chunk_frame(chunks[0]) + rest);
        lemma_frame_then_rest(chunks[0], rest);
    }
}

proof fn lemma_frames_front(chunks: Seq<Seq<u8>>)
    requires
        chunks.len() > 0,
    ensures
        chunk_frames(chunks) == chunk_frame(chunks[0]) + chunk_frames(chunks.drop_first()),
    decreases chunks.len(),
{
    if chunks.len() == 1 {
        assert(chunks.drop_last() =~= Seq::<Seq<u8>>::empty());
        assert(chunks.drop_first() =~= Seq::<Seq<u8>>::empty());
        assert(chunk_frames(Seq::<Seq<u8>>::empty()) == Seq::<u8>::empty());
        assert(chunks.last() == chunks[0]);
        assert(chunk_frames(chunks) =~= chunk_frame(chunks[0]));
    } else {
        lemma_frames_front(chunks.drop_last());
        assert(chunks.drop_last().drop_first() =~= chunks.drop_first().drop_last());
        assert(chunks.drop_first().last() == chunks.last());
        assert(chunks.drop_last()[0] == chunks[0]);
        vstd::seq_lib::lemma_concat_associative(
            chunk_frame(chunks[0]),
            chunk_frames(chunks.drop_first().drop_last()),
            chunk_frame(chunks.last()),
        );
    }
}

proof fn lemma_concat_front(chunks: Seq<Seq<u8>>)
    requires
        chunks.len() > 0,
    ensures
        concat_chunks(chunks) == chunks[0] + concat_chunks(chunks.drop_first()),
    decreases chunks.len(),
{
    if chunks.len() == 1 {
        assert(chunks.drop_last() =~= Seq::<Seq<u8>>::empty());
        assert(chunks.drop_first() =~= Seq::<Seq<u8>>::empty());
        assert(concat_chunks(Seq::<Seq<u8>>::empty()) == Seq::<u8>::empty());
        assert(chunks.last() == chunks[0]);
        assert(concat_chunks(chunks) =~= chunks[0]);
    } else {
        lemma_concat_front(chunks.drop_last());
        assert(chunks.drop_last().drop_first() =~= chunks.drop_first().drop_last());
        assert(chunks.drop_first().last() == chunks.last());
        assert(chunks.drop_last()[0] == chunks[0]);
        vstd::seq_lib::lemma_concat_associative(
            chunks[0],
            concat_chunks(chunks.drop_first().drop_last()),
            chunks.last(),
        );
    }
}

/// A chunked body of non-empty chunks, once ended, decodes with a chunked
/// decoder to the concatenation of the chunks.
pub proof fn lemma_chunked_round_trip(chunks: Seq<Seq<u8>>)
    requires
        forall|i: int| 0 <= i < chunks.len() ==> #[trigger] chunks[i].len() > 0,
    ensures
        decode_chunked(
            run_encode(Kind::EncodeChunked(false), chunks).1 + eof_out(
                run_encode(Kind::EncodeChunked(false), chunks).0,
            ),
        ) == Some(concat_chunks(chunks)),
{
    lemma_chunked_body(chunks);
    lemma_frames_decode(chunks);
}

} // verus!
