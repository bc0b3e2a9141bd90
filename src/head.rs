//! Encoding of the status line and header block of a response.
use vstd::prelude::*;
use bytes::BytesMut;
use crate::buf::WriteBuf;
use crate::bytebuf::{bytes_mut_new, bytes_mut_of, bytes_of, put_slice, split_freeze};
use crate::context::{ConnectionType, Context};
use crate::message::{BodySize, HeaderField, ResponseHead, Version};
use crate::text::{
    ascii_bytes, decimal, digit_byte, eq_ignore_ascii_case, format_decimal, lower, put_str,
    static_bytes, trim, trim_bounds,
};

verus! {

/// What made a response head impossible to encode.
#[derive(Clone, Copy, Debug, PartialEq, Eq, Structural)]
pub enum Parse {
    /// An informational status other than 101.
    StatusCode,
    /// A `Connection` value that is not visible ASCII text.
    HeaderValue,
    /// A header field without a name.
    HeaderName,
    /// A `Content-Length` or `Transfer-Encoding` header where the framing is
    /// already decided: by the status, by the request method, or by an earlier
    /// such header.
    FramingHeader,
}

/// Error of the HTTP/1 protocol layer.
#[derive(Clone, Copy, Debug, PartialEq, Eq, Structural)]
pub enum ProtoError {
    Parse(Parse),
}

/// The registered reason phrase of a status code, if it has one.
pub uninterp spec fn reason_phrase(code: u16) -> Option<Seq<u8>>;

/// Relies on `http::StatusCode::from_u16` and `StatusCode::canonical_reason`:
/// the registered reason phrase of a status code in 100..=999.
#[verifier::external_body]
fn canonical_reason(code: u16) -> (r: Option<&'static [u8]>)
    requires
        100 <= code <= 999,
    ensures
        r is Some ==> reason_phrase(code) == Some(r->0@),
        r is None ==> reason_phrase(code) is None,
{
    match http::StatusCode::from_u16(code) {
        Ok(status) => status.canonical_reason().map(str::as_bytes),
        Err(_) => None,
    }
}

pub open spec fn version_token(v: Version) -> Seq<u8> {
    if v == Version::Http10 {
        ascii_bytes("HTTP/1.0 "@)
    } else {
        ascii_bytes("HTTP/1.1 "@)
    }
}

/// The three decimal digits of a status code.
pub open spec fn status_digits(code: u16) -> Seq<u8> {
    seq![
        digit_byte((code / 100) as nat),
        digit_byte(((code / 10) % 10) as nat),
        digit_byte((code % 10) as nat),
    ]
}

/// The reason phrase written for a code: the registered one, else `<none>`.
pub open spec fn written_reason(code: u16) -> Seq<u8> {
    match reason_phrase(code) {
        Some(r) => r,
        None => ascii_bytes("<none>"@),
    }
}

/// The status line: version, code, reason, CRLF. Versions other than
/// HTTP/1.0 are written as HTTP/1.1; `200` on HTTP/1.1 is written as the
/// literal `HTTP/1.1 200 OK`.
pub open spec fn status_line(v: Version, code: u16) -> Seq<u8> {
    if v == Version::Http11 && code == 200 {
        ascii_bytes("HTTP/1.1 200 OK\r\n"@)
    } else {
        version_token(v) + status_digits(code) + ascii_bytes(" "@) + written_reason(code)
            + ascii_bytes("\r\n"@)
    }
}

/// Writes the status line of a response.
pub fn encode_version_status_reason(buf: &mut BytesMut, version: Version, status: u16)
    requires
        100 <= status <= 999,
    ensures
        bytes_mut_of(*final(buf)) == bytes_mut_of(*old(buf)) + status_line(version, status),
{
    if version == Version::Http11 && status == 200 {
        proof {
            reveal_strlit("HTTP/1.1 200 OK\r\n");
        }
        put_str(buf, "HTTP/1.1 200 OK\r\n");
        return;
    }
    let ghost start = bytes_mut_of(*buf);
    proof {
        reveal_strlit("HTTP/1.0 ");
        reveal_strlit("HTTP/1.1 ");
        reveal_strlit(" ");
        reveal_strlit("<none>");
        reveal_strlit("\r\n");
    }
    match version {
        Version::Http10 => put_str(buf, "HTTP/1.0 "),
        _ => put_str(buf, "HTTP/1.1 "),
    }
    let ghost after_version = bytes_mut_of(*buf);
    let digits: [u8; 3] = [
        48 + (status / 100) as u8,
        48 + ((status / 10) % 10) as u8,
        48 + (status % 10) as u8,
    ];
    put_slice(buf, digits.as_slice());
    assert(bytes_mut_of(*buf) =~= after_version + status_digits(status));
    put_str(buf, " ");
    match canonical_reason(status) {
        Some(reason) => put_slice(buf, reason),
        None => put_str(buf, "<none>"),
    }
    put_str(buf, "\r\n");
    assert(bytes_mut_of(*buf) =~= start + status_line(version, status));
}

/// How the head encoder treats a header, by name.
#[derive(Clone, Copy, Debug, PartialEq, Eq, Structural)]
pub enum HeaderKind {
    /// `Content-Length` or `Transfer-Encoding`.
    Framing,
    Connection,
    Date,
    Other,
}

/// The kind of a header name, compared without ASCII case.
pub open spec fn kind_of(name: Seq<u8>) -> HeaderKind {
    if lower(name) == lower(ascii_bytes("content-length"@)) || lower(name) == lower(
        ascii_bytes("transfer-encoding"@),
    ) {
        HeaderKind::Framing
    } else if lower(name) == lower(ascii_bytes("connection"@)) {
        HeaderKind::Connection
    } else if lower(name) == lower(ascii_bytes("date"@)) {
        HeaderKind::Date
    } else {
        HeaderKind::Other
    }
}

pub fn header_kind(name: &[u8]) -> (r: HeaderKind)
    ensures
        r == kind_of(name@),
{
    proof {
        reveal_strlit("content-length");
        reveal_strlit("transfer-encoding");
        reveal_strlit("connection");
        reveal_strlit("date");
    }
    if eq_ignore_ascii_case(name, static_bytes("content-length")) || eq_ignore_ascii_case(
        name,
        static_bytes("transfer-encoding"),
    ) {
        HeaderKind::Framing
    } else if eq_ignore_ascii_case(name, static_bytes("connection")) {
        HeaderKind::Connection
    } else if eq_ignore_ascii_case(name, static_bytes("date")) {
        HeaderKind::Date
    } else {
        HeaderKind::Other
    }
}

/// A named header of the given kind.
pub open spec fn is_kind(h: HeaderField, k: HeaderKind) -> bool {
    match h.name {
        Some(n) => kind_of(n@) == k,
        None => false,
    }
}

/// Some header of `hs` is of kind `k`.
pub open spec fn has_kind(hs: Seq<HeaderField>, k: HeaderKind) -> bool
    decreases hs.len(),
{
    hs.len() > 0 && (has_kind(hs.drop_last(), k) || is_kind(hs.last(), k))
}

/// Visible ASCII or horizontal tab: the bytes a header value may hold to be read as text.
pub open spec fn is_text_byte(b: u8) -> bool {
    (32 <= b && b < 127) || b == 9
}

pub open spec fn is_text(v: Seq<u8>) -> bool {
    forall|i: int| 0 <= i < v.len() ==> is_text_byte(#[trigger] v[i])
}

pub fn value_is_text(v: &[u8]) -> (r: bool)
    ensures
        r == is_text(v@),
{
    let mut i: usize = 0;
    while i < v.len()
        invariant
            0 <= i <= v@.len(),
            forall|j: int| 0 <= j < i ==> is_text_byte(#[trigger] v@[j]),
        decreases v@.len() - i,
    {
        let b = v[i];
        if !((32 <= b && b < 127) || b == 9) {
            return false;
        }
        i = i + 1;
    }
    true
}

/// The connection type named by one token of a `Connection` value, or `ct`
/// when it names none.
pub open spec fn token_ctype(t: Seq<u8>, ct: ConnectionType) -> ConnectionType {
    if lower(t) == lower(ascii_bytes("close"@)) {
        ConnectionType::Close
    } else if lower(t) == lower(ascii_bytes("keep-alive"@)) {
        ConnectionType::KeepAlive
    } else if lower(t) == lower(ascii_bytes("upgrade"@)) {
        ConnectionType::Upgrade
    } else {
        ct
    }
}

/// Scans the comma-separated tokens of `v` from position `i`, the current
/// token starting at `start`; each token that names a connection type
/// replaces `ct`, so the last such token wins.
pub open spec fn scan_tokens(ct: ConnectionType, v: Seq<u8>, start: int, i: int) -> ConnectionType
    decreases v.len() - i,
{
    if i >= v.len() {
        token_ctype(trim(v.subrange(start, v.len() as int)), ct)
    } else if v[i] == 44 {
        scan_tokens(token_ctype(trim(v.subrange(start, i)), ct), v, i + 1, i + 1)
    } else {
        scan_tokens(ct, v, start, i + 1)
    }
}

/// The connection type after reading a `Connection` value.
pub open spec fn connection_value_ctype(ct: ConnectionType, v: Seq<u8>) -> ConnectionType {
    scan_tokens(ct, v, 0, 0)
}

fn token_to_ctype(v: &[u8], start: usize, end: usize, ct: ConnectionType) -> (r: ConnectionType)
    requires
        start <= end <= v@.len(),
    ensures
        r == token_ctype(trim(v@.subrange(start as int, end as int)), ct),
{
    let (lo, hi) = trim_bounds(v, start, end);
    let t = slice_range(v, lo, hi);
    proof {
        reveal_strlit("close");
        reveal_strlit("keep-alive");
        reveal_strlit("upgrade");
    }
    if eq_ignore_ascii_case(t.as_slice(), static_bytes("close")) {
        ConnectionType::Close
    } else if eq_ignore_ascii_case(t.as_slice(), static_bytes("keep-alive")) {
        ConnectionType::KeepAlive
    } else if eq_ignore_ascii_case(t.as_slice(), static_bytes("upgrade")) {
        ConnectionType::Upgrade
    } else {
        ct
    }
}

/// A copy of `v[lo..hi]`.
fn slice_range(v: &[u8], lo: usize, hi: usize) -> (r: Vec<u8>)
    requires
        lo <= hi <= v@.len(),
    ensures
        r@ == v@.subrange(lo as int, hi as int),
{
    let mut r: Vec<u8> = Vec::new();
    let mut i = lo;
    while i < hi
        invariant
            lo <= i <= hi <= v@.len(),
            r@ == v@.subrange(lo as int, i as int),
        decreases hi - i,
    {
        r.push(v[i]);
        i = i + 1;
        assert(r@ =~= v@.subrange(lo as int, i as int));
    }
    r
}

/// Reads the tokens of a `Connection` value, left to right.
pub fn scan_connection(v: &[u8], ct: ConnectionType) -> (r: ConnectionType)
    ensures
        r == connection_value_ctype(ct, v@),
{
    let mut cur = ct;
    let mut start: usize = 0;
    let mut i: usize = 0;
    while i < v.len()
        invariant
            0 <= start <= i <= v@.len(),
            scan_tokens(cur, v@, start as int, i as int) == connection_value_ctype(ct, v@),
        decreases v@.len() - i,
    {
        if v[i] == 44 {
            cur = token_to_ctype(v, start, i, cur);
            start = i + 1;
        }
        i = i + 1;
    }
    token_to_ctype(v, start, v.len(), cur)
}

/// The status answers a CONNECT request with success, or switches protocols:
/// no framing header may be written.
pub open spec fn status_skips_len(connect: bool, status: u16) -> bool {
    status == 101 || (connect && 200 <= status < 300)
}

/// An informational status that cannot be sent as a response.
pub open spec fn status_rejected(status: u16) -> bool {
    100 <= status < 200 && status != 101
}

/// The error a single header raises, given whether framing is already decided.
pub open spec fn field_error(h: HeaderField, skip_len: bool, force_close: bool) -> Option<Parse> {
    match h.name {
        None => Some(Parse::HeaderName),
        Some(n) => {
            if kind_of(n@) == HeaderKind::Framing && skip_len {
                Some(Parse::FramingHeader)
            } else if kind_of(n@) == HeaderKind::Connection && !force_close && !is_text(
                h.value@,
            ) {
                Some(Parse::HeaderValue)
            } else {
                None
            }
        },
    }
}

/// The error of the first header, in order, that raises one.
pub open spec fn headers_error(hs: Seq<HeaderField>, skip_len: bool, force_close: bool) -> Option<
    Parse,
>
    decreases hs.len(),
{
    if hs.len() == 0 {
        None
    } else {
        match headers_error(hs.drop_last(), skip_len, force_close) {
            Some(e) => Some(e),
            None => field_error(
                hs.last(),
                skip_len || has_kind(hs.drop_last(), HeaderKind::Framing),
                force_close,
            ),
        }
    }
}

/// The error encoding a head raises, if any.
pub open spec fn head_error(head: ResponseHead, connect: bool, force_close: bool) -> Option<Parse> {
    if status_rejected(head.status) {
        Some(Parse::StatusCode)
    } else {
        headers_error(head.headers@, status_skips_len(connect, head.status), force_close)
    }
}

/// The connection type after reading the `Connection` headers of `hs`.
/// Under force-close they are not read.
pub open spec fn headers_ctype(ct: ConnectionType, hs: Seq<HeaderField>, force_close: bool) -> ConnectionType
    decreases hs.len(),
{
    if hs.len() == 0 {
        ct
    } else {
        let c = headers_ctype(ct, hs.drop_last(), force_close);
        if !force_close && is_kind(hs.last(), HeaderKind::Connection) {
            connection_value_ctype(c, hs.last().value@)
        } else {
            c
        }
    }
}

/// `name: value` and CRLF.
pub open spec fn header_line(h: HeaderField) -> Seq<u8> {
    match h.name {
        Some(n) => n@ + ascii_bytes(": "@) + h.value@ + ascii_bytes("\r\n"@),
        None => Seq::empty(),
    }
}

/// The lines of the given headers, in order; under force-close the
/// `Connection` headers are left out.
pub open spec fn header_lines(hs: Seq<HeaderField>, force_close: bool) -> Seq<u8>
    decreases hs.len(),
{
    if hs.len() == 0 {
        Seq::empty()
    } else if force_close && is_kind(hs.last(), HeaderKind::Connection) {
        header_lines(hs.drop_last(), force_close)
    } else {
        header_lines(hs.drop_last(), force_close) + header_line(hs.last())
    }
}

/// The framing header a body size calls for.
pub open spec fn length_line(size: BodySize) -> Seq<u8> {
    match size {
        BodySize::Empty => Seq::empty(),
        BodySize::Stream => ascii_bytes("transfer-encoding: chunked\r\n"@),
        BodySize::Sized(n) => ascii_bytes("content-length: "@) + decimal(n as nat) + ascii_bytes(
            "\r\n"@,
        ),
    }
}

/// The generated framing header: none where the status forbids one or the
/// headers already hold one.
pub open spec fn framing_part(
    status: u16,
    hs: Seq<HeaderField>,
    connect: bool,
    size: BodySize,
) -> Seq<u8> {
    if status_skips_len(connect, status) || has_kind(hs, HeaderKind::Framing) {
        Seq::empty()
    } else {
        length_line(size)
    }
}

/// The end of the head: a generated `date` line unless the headers hold
/// one, then the blank line.
pub open spec fn date_part(hs: Seq<HeaderField>, date: Seq<u8>) -> Seq<u8> {
    if has_kind(hs, HeaderKind::Date) {
        ascii_bytes("\r\n"@)
    } else {
        ascii_bytes("date: "@) + date + ascii_bytes("\r\n\r\n"@)
    }
}

pub open spec fn force_close_part(force_close: bool) -> Seq<u8> {
    if force_close {
        ascii_bytes("connection: close\r\n"@)
    } else {
        Seq::empty()
    }
}

/// The bytes of an encoded response head.
pub open spec fn head_bytes(
    head: ResponseHead,
    connect: bool,
    force_close: bool,
    size: BodySize,
    date: Seq<u8>,
) -> Seq<u8> {
    status_line(head.version, head.status) + header_lines(head.headers@, force_close)
        + force_close_part(force_close) + framing_part(head.status, head.headers@, connect, size)
        + date_part(head.headers@, date)
}

/// A successful answer to a CONNECT request gets no generated framing
/// header, whatever the body size.
pub proof fn lemma_connect_success_no_framing(
    status: u16,
    hs: Seq<HeaderField>,
    size: BodySize,
)
    requires
        200 <= status < 300,
    ensures
        framing_part(status, hs, true, size) == Seq::<u8>::empty(),
{
}

proof fn lemma_error_persists(hs: Seq<HeaderField>, n: int, skip_len: bool, force_close: bool)
    requires
        0 <= n <= hs.len(),
        headers_error(hs.subrange(0, n), skip_len, force_close) is Some,
    ensures
        headers_error(hs, skip_len, force_close) == headers_error(
            hs.subrange(0, n),
            skip_len,
            force_close,
        ),
    decreases hs.len() - n,
{
    if n < hs.len() {
        assert(hs.subrange(0, n + 1).drop_last() =~= hs.subrange(0, n));
        lemma_error_persists(hs, n + 1, skip_len, force_close);
    } else {
        assert(hs.subrange(0, n) =~= hs);
    }
}

/// Checks every header before anything is written.
fn check_headers(hs: &Vec<HeaderField>, skip_len: bool, force_close: bool) -> (r: Result<(), Parse>)
    ensures
        r is Ok <==> headers_error(hs@, skip_len, force_close) is None,
        r is Err ==> headers_error(hs@, skip_len, force_close) == Some(r->Err_0),
{
    let mut seen_framing = false;
    let mut i: usize = 0;
    while i < hs.len()
        invariant
            0 <= i <= hs@.len(),
            headers_error(hs@.subrange(0, i as int), skip_len, force_close) is None,
            seen_framing == has_kind(hs@.subrange(0, i as int), HeaderKind::Framing),
        decreases hs@.len() - i,
    {
        let h = &hs[i];
        assert(hs@.subrange(0, i + 1).drop_last() =~= hs@.subrange(0, i as int));
        match &h.name {
            None => {
                proof {
                    lemma_error_persists(hs@, i + 1, skip_len, force_close);
                }
                return Err(Parse::HeaderName);
            },
            Some(name) => {
                let kind = header_kind(name.as_slice());
                if kind == HeaderKind::Framing {
                    if skip_len || seen_framing {
                        proof {
                            lemma_error_persists(hs@, i + 1, skip_len, force_close);
                        }
                        return Err(Parse::FramingHeader);
                    }
                    seen_framing = true;
                } else if kind == HeaderKind::Connection && !force_close {
                    if !value_is_text(h.value.as_slice()) {
                        proof {
                            lemma_error_persists(hs@, i + 1, skip_len, force_close);
                        }
                        return Err(Parse::HeaderValue);
                    }
                }
            },
        }
        i = i + 1;
    }
    assert(hs@.subrange(0, hs@.len() as int) =~= hs@);
    Ok(())
}

impl<'a> Context<'a> {
    /// Writes the interim `HTTP/1.1 100 Continue` response.
    pub fn encode_continue(&self, buf: &mut WriteBuf)
        requires
            self.expect_flag(),
        ensures
            final(buf).bytes() == old(buf).bytes() + ascii_bytes(
                "HTTP/1.1 100 Continue\r\n\r\n"@,
            ),
            final(buf).is_flat() == old(buf).is_flat(),
    {
        proof {
            reveal_strlit("HTTP/1.1 100 Continue\r\n\r\n");
        }
        buf.put_static(static_bytes("HTTP/1.1 100 Continue\r\n\r\n"));
    }
}

/// Writes `connection: close` when the connection is forced to close.
fn write_force_close(force_close: bool, buf: &mut BytesMut)
    ensures
        bytes_mut_of(*final(buf)) == bytes_mut_of(*old(buf)) + force_close_part(force_close),
{
    if force_close {
        proof {
            reveal_strlit("connection: close\r\n");
        }
        put_str(buf, "connection: close\r\n");
    } else {
        assert(bytes_mut_of(*buf) =~= bytes_mut_of(*buf) + force_close_part(force_close));
    }
}

/// Writes the framing header a body size calls for.
fn write_length(size: BodySize, buf: &mut BytesMut)
    ensures
        bytes_mut_of(*final(buf)) == bytes_mut_of(*old(buf)) + length_line(size),
{
    let ghost start = bytes_mut_of(*buf);
    match size {
        BodySize::Empty => {},
        BodySize::Stream => {
            proof {
                reveal_strlit("transfer-encoding: chunked\r\n");
            }
            put_str(buf, "transfer-encoding: chunked\r\n");
        },
        BodySize::Sized(n) => {
            proof {
                reveal_strlit("content-length: ");
                reveal_strlit("\r\n");
            }
            put_str(buf, "content-length: ");
            let digits = format_decimal(n);
            put_slice(buf, digits.as_slice());
            put_str(buf, "\r\n");
        },
    }
    assert(bytes_mut_of(*buf) =~= start + length_line(size));
}

/// Writes the `date` line unless one was given, then the blank line.
fn write_date_part(skip_date: bool, date: &[u8], buf: &mut BytesMut)
    ensures
        bytes_mut_of(*final(buf)) == bytes_mut_of(*old(buf)) + (if skip_date {
            ascii_bytes("\r\n"@)
        } else {
            ascii_bytes("date: "@) + date@ + ascii_bytes("\r\n\r\n"@)
        }),
{
    let ghost start = bytes_mut_of(*buf);
    proof {
        reveal_strlit("date: ");
        reveal_strlit("\r\n\r\n");
        reveal_strlit("\r\n");
    }
    if !skip_date {
        put_str(buf, "date: ");
        put_slice(buf, date);
        put_str(buf, "\r\n\r\n");
        assert(bytes_mut_of(*buf) =~= start + (ascii_bytes("date: "@) + date@ + ascii_bytes("\r\n\r\n"@)));
    } else {
        put_str(buf, "\r\n");
    }
}

impl<'a> Context<'a> {
    /// Encodes the head of `head` into `buf`, with the framing header that
    /// `size` calls for, and keeps the emptied header storage for the next
    /// request. On error nothing is written and the context is unchanged.
    pub fn encode_head(&mut self, head: ResponseHead, size: BodySize, buf: &mut WriteBuf) -> (r:
        Result<(), ProtoError>)
        requires
            100 <= head.status <= 999,
        ensures
            r is Err <==> head_error(head, old(self).connect_flag(), old(self).force_close_flag())
                is Some,
            r is Err ==> head_error(head, old(self).connect_flag(), old(self).force_close_flag())
                == Some(r->Err_0->Parse_0),
            r is Err ==> *final(self) == *old(self) && final(buf).bytes() == old(buf).bytes(),
            r is Ok ==> final(buf).bytes() == old(buf).bytes() + head_bytes(
                head,
                old(self).connect_flag(),
                old(self).force_close_flag(),
                size,
                old(self).date_ref()@,
            ),
            r is Ok ==> final(self).spec_ctype() == headers_ctype(
                old(self).spec_ctype(),
                head.headers@,
                old(self).force_close_flag(),
            ),
            r is Ok ==> final(self).cache() is Some && final(self).wf(),
            final(self).flags() == old(self).flags(),
            final(self).date_ref() == old(self).date_ref(),
            final(buf).is_flat() == old(buf).is_flat(),
    {
        match buf {
            WriteBuf::List(list) => {
                let mut bytes = bytes_mut_new();
                let r = self.encode_head_inner(head, size, &mut bytes);
                if r.is_ok() {
                    let ghost before = list@;
                    let frozen = split_freeze(&mut bytes);
                    let ghost bv = bytes_of(frozen);
                    list.push(crate::buf::EncodedBuf::Buf(frozen));
                    assert(list@.drop_last() =~= before);
                    assert(list@.last().bytes() == bv);
                }
                r
            },
            WriteBuf::Flat(bytes) => self.encode_head_inner(head, size, bytes),
        }
    }

    /// Writes the header lines, in order, reading each `Connection` value
    /// unless the connection is forced to close. Returns whether a `Date`
    /// and whether a framing header were among them.
    fn write_headers(&mut self, hs_exec: &Vec<HeaderField>, force_close: bool, buf: &mut BytesMut) -> (r: (bool, bool))
        requires
            force_close == old(self).force_close_flag(),
        ensures
            bytes_mut_of(*final(buf)) == bytes_mut_of(*old(buf)) + header_lines(hs_exec@, force_close),
            final(self).spec_ctype() == headers_ctype(old(self).spec_ctype(), hs_exec@, force_close),
            r.0 == has_kind(hs_exec@, HeaderKind::Date),
            r.1 == has_kind(hs_exec@, HeaderKind::Framing),
            final(self).flags() == old(self).flags(),
            final(self).date_ref() == old(self).date_ref(),
            final(self).cache() == old(self).cache(),
    {
        let ghost start = bytes_mut_of(*buf);
        let ghost hs = hs_exec@;
        let ghost ct0 = self.spec_ctype();
        let mut skip_date = false;
        let mut has_framing = false;
        let mut i: usize = 0;
        while i < hs_exec.len()
            invariant
                hs == hs_exec@,
                0 <= i <= hs.len(),
                bytes_mut_of(*buf) == start + header_lines(
                    hs.subrange(0, i as int),
                    force_close,
                ),
                self.spec_ctype() == headers_ctype(ct0, hs.subrange(0, i as int), force_close),
                skip_date == has_kind(hs.subrange(0, i as int), HeaderKind::Date),
                has_framing == has_kind(hs.subrange(0, i as int), HeaderKind::Framing),
                self.flags() == old(self).flags(),
                self.date_ref() == old(self).date_ref(),
                self.cache() == old(self).cache(),
                force_close == self.force_close_flag(),
            decreases hs.len() - i,
        {
            let ghost before = bytes_mut_of(*buf);
            assert(hs.subrange(0, i + 1).drop_last() =~= hs.subrange(0, i as int));
            let h = &hs_exec[i];
            match &h.name {
                None => {},
                Some(name) => {
                    let kind = header_kind(name.as_slice());
                    let mut write = true;
                    if kind == HeaderKind::Framing {
                        has_framing = true;
                    } else if kind == HeaderKind::Connection {
                        if force_close {
                            write = false;
                        } else {
                            let ct = scan_connection(h.value.as_slice(), self.ctype());
                            self.set_ctype(ct);
                        }
                    } else if kind == HeaderKind::Date {
                        skip_date = true;
                    }
                    if write {
                        proof {
                            reveal_strlit(": ");
                            reveal_strlit("\r\n");
                        }
                        put_slice(buf, name.as_slice());
                        put_str(buf, ": ");
                        put_slice(buf, h.value.as_slice());
                        put_str(buf, "\r\n");
                        assert(bytes_mut_of(*buf) =~= before + header_line(*h));
                    }
                },
            }
            i = i + 1;
        }
        assert(hs.subrange(0, hs.len() as int) =~= hs);
        (skip_date, has_framing)
    }

    /// Writes a head that raised no error.
    fn write_head(&mut self, head: &ResponseHead, skip_len: bool, size: BodySize, buf: &mut BytesMut)
        requires
            100 <= head.status <= 999,
            skip_len == status_skips_len(old(self).connect_flag(), head.status),
        ensures
            bytes_mut_of(*final(buf)) == bytes_mut_of(*old(buf)) + head_bytes(
                *head,
                old(self).connect_flag(),
                old(self).force_close_flag(),
                size,
                old(self).date_ref()@,
            ),
            final(self).spec_ctype() == headers_ctype(
                old(self).spec_ctype(),
                head.headers@,
                old(self).force_close_flag(),
            ),
            final(self).flags() == old(self).flags(),
            final(self).date_ref() == old(self).date_ref(),
            final(self).cache() == old(self).cache(),
    {
        let version = head.version;
        let status = head.status;
        let connect = self.is_connect_method();
        let force_close = self.is_force_close();
        let ghost start = bytes_mut_of(*buf);
        let ghost hs = head.headers@;
        let ghost date = self.date_ref()@;
        encode_version_status_reason(buf, version, status);
        let (skip_date, has_framing) = self.write_headers(&head.headers, force_close, buf);
        let ghost after_headers = bytes_mut_of(*buf);
        write_force_close(force_close, buf);
        let ghost after_close = bytes_mut_of(*buf);
        if !skip_len && !has_framing {
            write_length(size, buf);
        }
        let ghost after_framing = bytes_mut_of(*buf);
        write_date_part(skip_date, self.date().date(), buf);
        proof {
            let sl = status_line(version, status);
            let hl = header_lines(hs, force_close);
            let fc = force_close_part(force_close);
            let fp = framing_part(status, hs, connect, size);
            let dp = date_part(hs, date);
            assert(after_framing == after_close + fp);
            assert(bytes_mut_of(*buf) == after_framing + dp);
            vstd::seq_lib::lemma_concat_associative(start, sl, hl);
            vstd::seq_lib::lemma_concat_associative(start, sl + hl, fc);
            vstd::seq_lib::lemma_concat_associative(start, sl + hl + fc, fp);
            vstd::seq_lib::lemma_concat_associative(start, sl + hl + fc + fp, dp);
        }
    }

    /// Encodes a response head into a contiguous buffer.
    pub fn encode_head_inner(&mut self, head: ResponseHead, size: BodySize, buf: &mut BytesMut) -> (r:
        Result<(), ProtoError>)
        requires
            100 <= head.status <= 999,
        ensures
            r is Err <==> head_error(head, old(self).connect_flag(), old(self).force_close_flag())
                is Some,
            r is Err ==> head_error(head, old(self).connect_flag(), old(self).force_close_flag())
                == Some(r->Err_0->Parse_0),
            r is Err ==> *final(self) == *old(self) && bytes_mut_of(*final(buf)) == bytes_mut_of(*old(buf)),
            r is Ok ==> bytes_mut_of(*final(buf)) == bytes_mut_of(*old(buf)) + head_bytes(
                head,
                old(self).connect_flag(),
                old(self).force_close_flag(),
                size,
                old(self).date_ref()@,
            ),
            r is Ok ==> final(self).spec_ctype() == headers_ctype(
                old(self).spec_ctype(),
                head.headers@,
                old(self).force_close_flag(),
            ),
            r is Ok ==> final(self).cache() is Some && final(self).wf(),
            final(self).flags() == old(self).flags(),
            final(self).date_ref() == old(self).date_ref(),
    {
        let status = head.status;
        let connect = self.is_connect_method();
        let force_close = self.is_force_close();

        // decide whether the framing header is left out.
        let skip_len = if status == 101 {
            true
        } else if connect && 200 <= status && status < 300 {
            true
        } else if 100 <= status && status < 200 {
            return Err(ProtoError::Parse(Parse::StatusCode));
        } else {
            false
        };
        match check_headers(&head.headers, skip_len, force_close) {
            Err(e) => {
                return Err(ProtoError::Parse(e));
            },
            Ok(()) => {},
        }

        self.write_head(&head, skip_len, size, buf);

        // keep the emptied header storage for the next request.
        let mut headers = head.headers;
        headers.clear();
        self.set_header_cache(headers);
        Ok(())
    }
}

} // verus!
