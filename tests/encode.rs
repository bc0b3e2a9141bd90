use bytes::{Bytes, BytesMut};
use h1_wire::buf::{EncodedBuf, WriteBuf};
use h1_wire::builder::HttpServiceBuilder;
use h1_wire::context::{ConnectionType, Context, ContextState, Date, CONNECT, EXPECT, FORCE_CLOSE};
use h1_wire::head::{encode_version_status_reason, scan_connection, Parse, ProtoError};
use h1_wire::message::{BodySize, HeaderField, ResponseHead, Version};
use h1_wire::transfer::{EncodeError, Kind, ResponseBody, TransferEncoding};

const DATE: &str = "Sun, 06 Nov 1994 08:49:37 GMT";

fn field(name: &str, value: &str) -> HeaderField {
    HeaderField { name: Some(name.as_bytes().to_vec()), value: value.as_bytes().to_vec() }
}

fn head(version: Version, status: u16, headers: Vec<HeaderField>) -> ResponseHead {
    ResponseHead { version, status, headers }
}

fn contents(buf: &WriteBuf) -> Vec<u8> {
    match buf {
        WriteBuf::Flat(b) => b.to_vec(),
        WriteBuf::List(list) => {
            let mut out = Vec::new();
            for f in list {
                match f {
                    EncodedBuf::Static(s) => out.extend_from_slice(s),
                    EncodedBuf::Buf(b) => out.extend_from_slice(b),
                }
            }
            out
        }
    }
}

fn text(buf: &WriteBuf) -> String {
    String::from_utf8(contents(buf)).unwrap()
}

fn chunk(b: &[u8]) -> Bytes {
    Bytes::copy_from_slice(b)
}

fn encode(ctx: &mut Context, h: ResponseHead, size: BodySize) -> (Result<(), ProtoError>, String) {
    let mut buf = WriteBuf::new_flat();
    let r = ctx.encode_head(h, size, &mut buf);
    (r, text(&buf))
}

#[test]
fn status_line_ok_fast_path() {
    let mut v = BytesMut::new();
    encode_version_status_reason(&mut v, Version::Http11, 200);
    assert_eq!(&v[..], &b"HTTP/1.1 200 OK\r\n"[..]);
}

#[test]
fn status_line_general_path() {
    let mut v = BytesMut::new();
    encode_version_status_reason(&mut v, Version::Http11, 404);
    assert_eq!(&v[..], &b"HTTP/1.1 404 Not Found\r\n"[..]);
    let mut v = BytesMut::new();
    encode_version_status_reason(&mut v, Version::Http10, 200);
    assert_eq!(&v[..], &b"HTTP/1.0 200 OK\r\n"[..]);
    let mut v = BytesMut::new();
    encode_version_status_reason(&mut v, Version::Http2, 500);
    assert_eq!(&v[..], &b"HTTP/1.1 500 Internal Server Error\r\n"[..]);
}

#[test]
fn status_line_without_reason() {
    let mut v = BytesMut::new();
    encode_version_status_reason(&mut v, Version::Http11, 599);
    assert_eq!(&v[..], &b"HTTP/1.1 599 <none>\r\n"[..]);
}

#[test]
fn full_head_sized() {
    let date = Date::new(DATE.as_bytes().to_vec());
    let mut ctx = Context::new(&date);
    let (r, out) = encode(
        &mut ctx,
        head(Version::Http11, 200, vec![field("content-type", "text/plain")]),
        BodySize::Sized(1234),
    );
    assert_eq!(r, Ok(()));
    assert_eq!(
        out,
        format!("HTTP/1.1 200 OK\r\ncontent-type: text/plain\r\ncontent-length: 1234\r\ndate: {}\r\n\r\n", DATE)
    );
    assert_eq!(ctx.ctype(), ConnectionType::Init);
}

#[test]
fn full_head_stream_and_empty() {
    let date = Date::new(DATE.as_bytes().to_vec());
    let mut ctx = Context::new(&date);
    let (r, out) = encode(&mut ctx, head(Version::Http11, 200, vec![]), BodySize::Stream);
    assert_eq!(r, Ok(()));
    assert_eq!(out, format!("HTTP/1.1 200 OK\r\ntransfer-encoding: chunked\r\ndate: {}\r\n\r\n", DATE));
    let (r, out) = encode(&mut ctx, head(Version::Http11, 204, vec![]), BodySize::Empty);
    assert_eq!(r, Ok(()));
    assert_eq!(out, format!("HTTP/1.1 204 No Content\r\ndate: {}\r\n\r\n", DATE));
}

#[test]
fn connect_success_has_no_length_header() {
    let date = Date::new(DATE.as_bytes().to_vec());
    for size in [BodySize::Sized(5), BodySize::Stream, BodySize::Empty] {
        let mut ctx = Context::new(&date);
        ctx.set_connect_method();
        let (r, out) = encode(&mut ctx, head(Version::Http11, 200, vec![]), size);
        assert_eq!(r, Ok(()));
        assert!(!out.contains("content-length"));
        assert!(!out.contains("transfer-encoding"));
        assert_eq!(out, format!("HTTP/1.1 200 OK\r\ndate: {}\r\n\r\n", DATE));
    }
}

#[test]
fn connect_non_success_keeps_length_header() {
    let date = Date::new(DATE.as_bytes().to_vec());
    let mut ctx = Context::new(&date);
    ctx.set_connect_method();
    let (r, out) = encode(&mut ctx, head(Version::Http11, 404, vec![]), BodySize::Sized(3));
    assert_eq!(r, Ok(()));
    assert!(out.contains("content-length: 3\r\n"));
}

#[test]
fn switching_protocols_has_no_length_header() {
    let date = Date::new(DATE.as_bytes().to_vec());
    let mut ctx = Context::new(&date);
    let (r, out) = encode(&mut ctx, head(Version::Http11, 101, vec![]), BodySize::Stream);
    assert_eq!(r, Ok(()));
    assert_eq!(out, format!("HTTP/1.1 101 Switching Protocols\r\ndate: {}\r\n\r\n", DATE));
}

#[test]
fn informational_status_is_rejected() {
    let date = Date::new(DATE.as_bytes().to_vec());
    let mut ctx = Context::new(&date);
    let (r, out) = encode(&mut ctx, head(Version::Http11, 100, vec![]), BodySize::Empty);
    assert_eq!(r, Err(ProtoError::Parse(Parse::StatusCode)));
    assert_eq!(out, "");
    let (r, _) = encode(&mut ctx, head(Version::Http11, 103, vec![]), BodySize::Empty);
    assert_eq!(r, Err(ProtoError::Parse(Parse::StatusCode)));
}

#[test]
fn connection_close_sets_close() {
    let date = Date::new(DATE.as_bytes().to_vec());
    let mut ctx = Context::new(&date);
    ctx.reset();
    let (r, out) = encode(&mut ctx, head(Version::Http11, 200, vec![field("connection", "close")]), BodySize::Empty);
    assert_eq!(r, Ok(()));
    assert_eq!(ctx.ctype(), ConnectionType::Close);
    assert!(out.contains("connection: close\r\n"));
}

#[test]
fn connection_last_token_wins() {
    let date = Date::new(DATE.as_bytes().to_vec());
    let mut ctx = Context::new(&date);
    let (r, _) = encode(
        &mut ctx,
        head(Version::Http11, 200, vec![field("Connection", "keep-alive, upgrade")]),
        BodySize::Empty,
    );
    assert_eq!(r, Ok(()));
    assert_eq!(ctx.ctype(), ConnectionType::Upgrade);
}

#[test]
fn connection_tokens_scanned() {
    assert_eq!(scan_connection(b" Keep-Alive ", ConnectionType::Init), ConnectionType::KeepAlive);
    assert_eq!(scan_connection(b"upgrade,\tCLOSE", ConnectionType::Init), ConnectionType::Close);
    assert_eq!(scan_connection(b"foo, bar", ConnectionType::KeepAlive), ConnectionType::KeepAlive);
    assert_eq!(scan_connection(b"", ConnectionType::Upgrade), ConnectionType::Upgrade);
    assert_eq!(scan_connection(b"closed", ConnectionType::Init), ConnectionType::Init);
}

#[test]
fn force_close_replaces_connection_header() {
    let date = Date::new(DATE.as_bytes().to_vec());
    let mut ctx = Context::new(&date);
    ctx.reset();
    ctx.set_force_close();
    let (r, out) = encode(
        &mut ctx,
        head(Version::Http11, 200, vec![field("connection", "keep-alive")]),
        BodySize::Empty,
    );
    assert_eq!(r, Ok(()));
    assert!(out.contains("connection: close\r\n"));
    assert!(!out.contains("keep-alive"));
    assert_eq!(ctx.ctype(), ConnectionType::KeepAlive);
}

#[test]
fn generated_date_once() {
    let date = Date::new(DATE.as_bytes().to_vec());
    let mut ctx = Context::new(&date);
    let (r, out) = encode(&mut ctx, head(Version::Http11, 200, vec![field("server", "x")]), BodySize::Empty);
    assert_eq!(r, Ok(()));
    assert_eq!(out.matches("date: ").count(), 1);
    assert!(out.ends_with(&format!("date: {}\r\n\r\n", DATE)));
}

#[test]
fn supplied_date_wins() {
    let date = Date::new(DATE.as_bytes().to_vec());
    let mut ctx = Context::new(&date);
    let (r, out) = encode(&mut ctx, head(Version::Http11, 200, vec![field("date", "today")]), BodySize::Empty);
    assert_eq!(r, Ok(()));
    assert_eq!(out, "HTTP/1.1 200 OK\r\ndate: today\r\n\r\n");
}

#[test]
fn supplied_length_suppresses_generated_one() {
    let date = Date::new(DATE.as_bytes().to_vec());
    let mut ctx = Context::new(&date);
    let (r, out) = encode(&mut ctx, head(Version::Http11, 200, vec![field("content-length", "7")]), BodySize::Sized(7));
    assert_eq!(r, Ok(()));
    assert_eq!(out.matches("content-length").count(), 1);
}

#[test]
fn framing_header_errors() {
    let date = Date::new(DATE.as_bytes().to_vec());
    let mut ctx = Context::new(&date);
    ctx.set_connect_method();
    let (r, out) = encode(&mut ctx, head(Version::Http11, 200, vec![field("content-length", "7")]), BodySize::Empty);
    assert_eq!(r, Err(ProtoError::Parse(Parse::FramingHeader)));
    assert_eq!(out, "");
    let mut ctx = Context::new(&date);
    let two = vec![field("content-length", "7"), field("transfer-encoding", "chunked")];
    let (r, _) = encode(&mut ctx, head(Version::Http11, 200, two), BodySize::Empty);
    assert_eq!(r, Err(ProtoError::Parse(Parse::FramingHeader)));
}

#[test]
fn header_name_and_value_errors() {
    let date = Date::new(DATE.as_bytes().to_vec());
    let mut ctx = Context::new(&date);
    let unnamed = vec![field("x", "1"), HeaderField { name: None, value: b"2".to_vec() }];
    let (r, out) = encode(&mut ctx, head(Version::Http11, 200, unnamed), BodySize::Empty);
    assert_eq!(r, Err(ProtoError::Parse(Parse::HeaderName)));
    assert_eq!(out, "");
    let bad = vec![HeaderField { name: Some(b"connection".to_vec()), value: vec![b'c', 0x80] }];
    let (r, _) = encode(&mut ctx, head(Version::Http11, 200, bad), BodySize::Empty);
    assert_eq!(r, Err(ProtoError::Parse(Parse::HeaderValue)));
    assert_eq!(ctx.ctype(), ConnectionType::Init);
}

#[test]
fn list_buffer_matches_flat() {
    let date = Date::new(DATE.as_bytes().to_vec());
    let mut ctx = Context::new(&date);
    let mut flat = WriteBuf::new_flat();
    let mut list = WriteBuf::new_list();
    ctx.encode_head(head(Version::Http11, 404, vec![field("a", "b")]), BodySize::Stream, &mut flat).unwrap();
    ctx.encode_head(head(Version::Http11, 404, vec![field("a", "b")]), BodySize::Stream, &mut list).unwrap();
    let mut te1 = TransferEncoding::chunked();
    let mut te2 = TransferEncoding::chunked();
    te1.encode(chunk(b"hello"), &mut flat).unwrap();
    te2.encode(chunk(b"hello"), &mut list).unwrap();
    te1.encode_eof(&mut flat).unwrap();
    te2.encode_eof(&mut list).unwrap();
    assert_eq!(contents(&flat), contents(&list));
}

#[test]
fn encode_continue_writes_interim_response() {
    let date = Date::new(DATE.as_bytes().to_vec());
    let mut ctx = Context::new(&date);
    ctx.set_expect_header();
    assert!(ctx.is_expect_header());
    let mut buf = WriteBuf::new_list();
    ctx.encode_continue(&mut buf);
    assert_eq!(text(&buf), "HTTP/1.1 100 Continue\r\n\r\n");
}

#[test]
fn context_flags_and_reset() {
    let date = Date::new(DATE.as_bytes().to_vec());
    let mut ctx = Context::new(&date);
    assert!(!ctx.is_expect_header() && !ctx.is_connect_method() && !ctx.is_force_close());
    ctx.set_connect_method();
    ctx.set_force_close();
    assert!(ctx.is_connect_method() && ctx.is_force_close() && !ctx.is_expect_header());
    ctx.set_ctype(ConnectionType::Upgrade);
    assert_eq!(ctx.ctype(), ConnectionType::Upgrade);
    ctx.reset();
    assert_eq!(ctx.ctype(), ConnectionType::KeepAlive);
    assert!(!ctx.is_expect_header() && !ctx.is_connect_method() && !ctx.is_force_close());
}

#[test]
fn header_storage_kept_after_encoding() {
    let date = Date::new(DATE.as_bytes().to_vec());
    let mut ctx = Context::new(&date);
    assert!(ctx.take_header_cache().is_none());
    encode(&mut ctx, head(Version::Http11, 200, vec![field("a", "b")]), BodySize::Empty).0.unwrap();
    let cached = ctx.take_header_cache().unwrap();
    assert!(cached.is_empty());
    assert!(ctx.take_header_cache().is_none());
}

#[test]
fn context_state_bits() {
    let mut s = ContextState::new();
    assert!(!s.contains(EXPECT));
    s.insert(CONNECT);
    assert!(s.contains(CONNECT));
    assert!(!s.contains(FORCE_CLOSE));
    s.insert(FORCE_CLOSE);
    assert!(s.contains(CONNECT) && s.contains(FORCE_CLOSE));
    assert_eq!(s.0, 0b0110);
}

#[test]
fn length_body_clamps_and_checks_eof() {
    let mut buf = WriteBuf::new_flat();
    let mut te = TransferEncoding::length(5);
    assert_eq!(te.encode(chunk(b"abc"), &mut buf), Ok(false));
    assert_eq!(te.encode(Bytes::new(), &mut buf), Ok(false));
    assert_eq!(te.encode(chunk(b"defgh"), &mut buf), Ok(true));
    assert_eq!(te.kind, Kind::Length(0));
    assert_eq!(te.encode(chunk(b"zz"), &mut buf), Ok(true));
    assert_eq!(contents(&buf), b"abcde".to_vec());
    assert_eq!(te.encode_eof(&mut buf), Ok(()));
    assert_eq!(te.encode_eof(&mut buf), Ok(()));
    assert_eq!(contents(&buf), b"abcde".to_vec());
}

#[test]
fn length_body_short_fails_eof() {
    let mut buf = WriteBuf::new_list();
    let mut te = TransferEncoding::length(4);
    assert_eq!(te.encode(chunk(b"ab"), &mut buf), Ok(false));
    assert_eq!(te.encode_eof(&mut buf), Err(EncodeError::UnexpectedEof));
    assert_eq!(contents(&buf), b"ab".to_vec());
}

#[test]
fn chunked_body_frames() {
    let mut buf = WriteBuf::new_flat();
    let mut te = TransferEncoding::chunked();
    assert_eq!(te.encode(chunk(b"hello"), &mut buf), Ok(false));
    assert_eq!(te.encode(Bytes::from(vec![b'x'; 26]), &mut buf), Ok(false));
    assert_eq!(te.encode(Bytes::from(vec![b'y'; 255]), &mut buf), Ok(false));
    assert_eq!(te.encode_eof(&mut buf), Ok(()));
    assert_eq!(te.encode_eof(&mut buf), Ok(()));
    let expected = format!("5\r\nhello\r\n1A\r\n{}\r\nFF\r\n{}\r\n0\r\n\r\n", "x".repeat(26), "y".repeat(255));
    assert_eq!(text(&buf), expected);
    assert_eq!(te.encode(chunk(b"more"), &mut buf), Ok(true));
    assert_eq!(text(&buf), expected);
}

#[test]
fn chunked_empty_chunk_terminates() {
    let mut buf = WriteBuf::new_list();
    let mut te = TransferEncoding::chunked();
    assert_eq!(te.encode(Bytes::new(), &mut buf), Ok(true));
    assert_eq!(te.kind, Kind::EncodeChunked(true));
    te.encode_eof(&mut buf).unwrap();
    assert_eq!(text(&buf), "0\r\n\r\n");
}

#[test]
fn plain_and_eof_pass_through() {
    for mut te in [TransferEncoding::plain_chunked(), TransferEncoding::eof()] {
        let mut buf = WriteBuf::new_flat();
        assert_eq!(te.encode(chunk(b"raw"), &mut buf), Ok(false));
        assert_eq!(te.encode(Bytes::new(), &mut buf), Ok(true));
        assert_eq!(te.encode_eof(&mut buf), Ok(()));
        assert_eq!(text(&buf), "raw");
    }
}

#[test]
fn body_selects_encoder() {
    let none: ResponseBody<()> = ResponseBody::Empty;
    assert_eq!(none.encoder(ConnectionType::KeepAlive).kind, Kind::Eof);
    let bytes: ResponseBody<()> = ResponseBody::Bytes { bytes: chunk(b"12345") };
    assert_eq!(bytes.encoder(ConnectionType::KeepAlive).kind, Kind::Length(5));
    let stream: ResponseBody<u8> = ResponseBody::Stream { stream: 0 };
    assert_eq!(stream.encoder(ConnectionType::KeepAlive).kind, Kind::EncodeChunked(false));
    assert_eq!(stream.encoder(ConnectionType::Upgrade).kind, Kind::PlainChunked);
}

#[test]
fn builder_swaps_tls_factory() {
    let b = HttpServiceBuilder { factory: 1u8, expect: 2u16, upgrade: 3u32, tls_factory: (), config: "cfg" };
    let o = b.openssl("ossl");
    assert_eq!(o.tls_factory.acceptor, "ossl");
    assert_eq!((o.factory, o.expect, o.upgrade, o.config), (1, 2, 3, "cfg"));
    let r = o.rustls(7u64);
    assert_eq!(r.tls_factory.config, 7);
    let n = r.native_tls('n');
    assert_eq!(n.tls_factory.acceptor, 'n');
    assert_eq!((n.factory, n.expect, n.upgrade, n.config), (1, 2, 3, "cfg"));
}
