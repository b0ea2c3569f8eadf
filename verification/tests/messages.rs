use arnelify_server::ws::{admit_connection, ping_expired, release, route, Route};
use arnelify_server::wt::{pong_frame, wt_session_step, WtAction, WtEvent, WtSession};
use arnelify_server::error::{ErrorKind, Reason};
use arnelify_server::json::Json;
use arnelify_server::uds::{Progress, UnixDomainSocketOpts, UnixDomainSocketReq, UnixDomainSocketStream};
use arnelify_server::ws::{WebSocketOpts, WebSocketReq, WebSocketStream};
use arnelify_server::wt::{WebTransportOpts, WebTransportReq, WebTransportStream};

fn s(t: &str) -> Json {
    Json::Str(t.as_bytes().to_vec())
}

fn obj(members: Vec<(&str, Json)>) -> Json {
    Json::Object(members.into_iter().map(|(k, v)| (k.as_bytes().to_vec(), v)).collect())
}

fn wt_opts(max_kb: u64) -> WebTransportOpts {
    WebTransportOpts {
        block_size_kb: 64,
        cert_pem: String::from("cert.pem"),
        compression: false,
        handshake_timeout: 30,
        key_pem: String::from("key.pem"),
        max_message_size_kb: max_kb,
        ping_timeout: 30,
        port: 4433,
        send_timeout: 30,
        thread_limit: 4,
    }
}

fn ws_opts(max_kb: u64) -> WebSocketOpts {
    WebSocketOpts {
        block_size_kb: 64,
        compression: false,
        max_message_size_kb: max_kb,
        ping_timeout: 30,
        port: 4433,
        rate_limit: 5,
        read_timeout: 30,
        send_timeout: 30,
        thread_limit: 4,
    }
}

#[test]
fn frame_then_read_gives_back_message_and_bytes() {
    let mut out = WebTransportStream::new(wt_opts(64));
    out.set_topic("chat");
    let framed = out.push(Json::Object(vec![]), b"xyz");
    assert_eq!(framed[..6].to_vec(), b"29+3:{".to_vec());
    let mut req = WebTransportReq::new(wt_opts(64));
    req.add(&framed);
    req.add(b"rest");
    assert_eq!(req.read_block(), Ok(Progress::Ready));
    assert_eq!(req.get_bytes(), b"xyz".to_vec());
    assert_eq!(req.get_topic(), b"chat".to_vec());
    assert_eq!(req.get_ctx().topic, s("chat"));
    assert!(!req.is_empty());
}

#[test]
fn webtransport_message_over_the_limit_is_refused() {
    let mut req = WebTransportReq::new(wt_opts(0));
    req.add(b"2+0:{}");
    let e = req.read_block().unwrap_err();
    assert_eq!(e.kind, ErrorKind::InvalidData);
    assert_eq!(e.reason, Reason::MessageTooLarge);
}

#[test]
fn webtransport_meta_without_plus_is_refused() {
    let mut req = WebTransportReq::new(wt_opts(64));
    req.add(b"12:");
    let e = req.read_block().unwrap_err();
    assert_eq!(e.reason, Reason::MetaPlusMissing);
    assert_eq!(e.message(), "Missing '+' in meta");
}

#[test]
fn webtransport_message_needs_topic_and_payload() {
    let mut req = WebTransportReq::new(wt_opts(64));
    req.add(b"2+0:{}");
    let e = req.read_block().unwrap_err();
    assert_eq!(e.reason, Reason::InvalidMessage);
}

#[test]
fn webtransport_close_sends_x() {
    let mut out = WebTransportStream::new(wt_opts(64));
    out.set_compression(Some(String::from("br")));
    assert_eq!(out.close(), b"x".to_vec());
}

#[test]
fn envelope_announces_compression_and_topic() {
    let mut out = WebTransportStream::new(wt_opts(64));
    out.set_topic("news");
    out.set_compression(Some(String::from("br")));
    assert_eq!(
        out.envelope(Json::Null),
        obj(vec![("topic", s("news")), ("payload", Json::Null), ("compression", s("br"))])
    );
    assert_eq!(
        out.bytes_envelope(),
        obj(vec![("topic", s("news")), ("payload", s("<bytes>")), ("compression", s("br"))])
    );
    assert_eq!(
        out.push_json(Json::Null),
        b"50+0:{\"compression\":\"br\",\"payload\":null,\"topic\":\"news\"}".to_vec()
    );
}

#[test]
fn websocket_handshake_then_message() {
    let mut req = WebSocketReq::new(ws_opts(64));
    req.set_addr("1.1.1.1:9");
    req.add(b"GET /chat?room=1 HTTP/1.1\r\nX-Real-IP: 10.0.0.7\r\nCF-Connecting-IP: 10.0.0.8\r\n\r\n");
    req.add(b"39+2:{\"topic\":\"say\",\"payload\":{\"text\":\"hi\"}}ab");
    assert_eq!(req.read_block(), Ok(Progress::Ready));
    assert_eq!(req.get_ip(), b"10.0.0.7".to_vec());
    assert_eq!(req.get_topic(), b"say".to_vec());
    assert_eq!(req.get_bytes(), b"ab".to_vec());
    let ctx = req.get_ctx();
    assert_eq!(ctx.path, s("/chat"));
    assert_eq!(ctx.protocol, b"WebSocket".to_vec());
    assert_eq!(ctx.body, obj(vec![("text", s("hi"))]));
    assert_eq!(ctx.query, Json::Object(vec![]));
    assert_eq!(ctx.addr, Some(s("1.1.1.1:9")));
    req.reset();
    let ctx = req.get_ctx();
    assert_eq!(ctx.topic, Json::Null);
    assert_eq!(ctx.body, Json::Object(vec![]));
    assert_eq!(ctx.path, s("/chat"));
}

#[test]
fn websocket_handshake_must_be_get() {
    let mut req = WebSocketReq::new(ws_opts(64));
    req.add(b"POST / HTTP/1.1\r\nHost: h\r\n\r\n");
    let e = req.read_block().unwrap_err();
    assert_eq!(e.reason, Reason::UnknownMethod);
}

#[test]
fn websocket_payload_must_be_an_object() {
    let mut req = WebSocketReq::new(ws_opts(64));
    req.add(b"GET / HTTP/1.1\r\nHost: h\r\n\r\n25+0:{\"topic\":\"t\",\"payload\":1}");
    let e = req.read_block().unwrap_err();
    assert_eq!(e.kind, ErrorKind::InvalidInput);
    assert_eq!(e.reason, Reason::InvalidApplicationJson);
    assert_eq!(req.get_topic(), b"t".to_vec());
    assert!(req.is_empty());
}

#[test]
fn websocket_without_forwarding_headers_has_no_ip() {
    let mut req = WebSocketReq::new(ws_opts(64));
    req.add(b"GET / HTTP/1.1\r\nHost: a\r\n\r\n");
    assert_eq!(req.read_block(), Ok(Progress::Pending));
    assert_eq!(req.get_ip(), b"_".to_vec());
    assert_eq!(req.get_compression(), None);
}

#[test]
fn websocket_stream_frames_bytes_with_a_bytes_payload() {
    let mut out = WebSocketStream::new(ws_opts(64));
    out.set_topic("t");
    assert_eq!(out.bytes_envelope(), obj(vec![("topic", s("t")), ("payload", s("<bytes>"))]));
    assert_eq!(out.push_bytes(b"zz"), b"33+2:{\"payload\":\"<bytes>\",\"topic\":\"t\"}zz".to_vec());
    assert_eq!(out.push(Json::Object(vec![]), b""), b"26+0:{\"payload\":{},\"topic\":\"t\"}".to_vec());
    assert_eq!(out.close(), b"x".to_vec());
}

#[test]
fn session_channel_reads_topic_and_payload() {
    let opts = UnixDomainSocketOpts { block_size_kb: 64, socket_path: String::from("/tmp/s.sock"), thread_limit: 1 };
    let mut out = UnixDomainSocketStream::new(UnixDomainSocketOpts { block_size_kb: 64, socket_path: String::from("/tmp/s.sock"), thread_limit: 1 });
    let env = out.envelope("job", obj(vec![("n", Json::Number(b"1".to_vec()))]));
    assert_eq!(env, obj(vec![("topic", s("job")), ("payload", obj(vec![("n", Json::Number(b"1".to_vec()))]))]));
    let sent = out.push("job", obj(vec![("n", Json::Number(b"1".to_vec()))]), b"", true);
    assert!(sent.flush);
    let mut req = UnixDomainSocketReq::new(opts);
    req.add(&sent.chunk);
    assert_eq!(req.read_block(), Ok(Progress::Ready));
    assert_eq!(req.get_topic(), b"job".to_vec());
    assert_eq!(req.get_ctx(), obj(vec![("n", Json::Number(b"1".to_vec()))]));
    assert!(req.is_empty());
}

#[test]
fn session_channel_meta_without_plus_has_its_wording() {
    let opts = UnixDomainSocketOpts { block_size_kb: 64, socket_path: String::from("/tmp/s.sock"), thread_limit: 1 };
    let mut req = UnixDomainSocketReq::new(opts);
    req.add(b"abc:");
    let e = req.read_block().unwrap_err();
    assert_eq!(e.reason, Reason::MetaSeparatorMissing);
    assert_eq!(e.message(), "Missing '+' in meta.");
}

#[test]
fn webtransport_message_at_the_limit_is_taken() {
    let mut req = WebTransportReq::new(wt_opts(1));
    let message = b"{\"topic\":\"t\",\"payload\":{}}";
    let bytes = vec![7u8; 1024 - message.len()];
    let mut framed = format!("{}+{}:", message.len(), bytes.len()).into_bytes();
    framed.extend_from_slice(message);
    framed.extend_from_slice(&bytes);
    req.add(&framed);
    assert_eq!(req.read_block(), Ok(Progress::Ready));
    assert_eq!(req.get_bytes(), bytes);
}

#[test]
fn webtransport_message_one_byte_over_the_limit_is_refused() {
    let mut req = WebTransportReq::new(wt_opts(1));
    req.add(b"24+1001:");
    let e = req.read_block().unwrap_err();
    assert_eq!(e.reason, Reason::MessageTooLarge);
    assert_eq!(e.message(), "The maximum size of the message has been exceeded.");
}

#[test]
fn webtransport_meta_whose_lengths_overflow_is_detected() {
    let mut req = WebTransportReq::new(wt_opts(64));
    req.add(format!("{}+1:", usize::MAX).as_bytes());
    assert!(req.meta_overflows_next());
    let mut ok = WebTransportReq::new(wt_opts(64));
    ok.add(b"2+0:{}");
    assert!(!ok.meta_overflows_next());
}

#[test]
fn websocket_meta_whose_lengths_overflow_is_detected_after_the_handshake() {
    let mut req = WebSocketReq::new(ws_opts(64));
    req.add(format!("GET / HTTP/1.1\r\nHost: h\r\n\r\n{}+1:", usize::MAX).as_bytes());
    assert!(!req.meta_overflows_next());
    let mut done = WebSocketReq::new(ws_opts(64));
    done.add(b"GET / HTTP/1.1\r\nHost: h\r\n\r\n");
    assert_eq!(done.read_block(), Ok(Progress::Pending));
    done.add(format!("{}+1:", usize::MAX).as_bytes());
    assert!(done.meta_overflows_next());
}

#[test]
fn webtransport_frame_split_in_the_binary_part_reads_alike() {
    let m = br#"{"topic":"t","payload":{}}"#;
    assert_eq!(m.len(), 26);
    let d = vec![b'a'; 30];
    let mut f = b"26+30:".to_vec();
    f.extend_from_slice(m);
    f.extend_from_slice(&d);
    let mut r1 = WebTransportReq::new(wt_opts(64));
    r1.add(&f);
    assert_eq!(r1.read_block(), Ok(Progress::Ready));
    let mut r2 = WebTransportReq::new(wt_opts(64));
    r2.add(&f[..59]);
    assert_eq!(r2.read_block(), Ok(Progress::Pending));
    r2.add(&f[59..]);
    assert_eq!(r2.read_block(), Ok(Progress::Ready));
    for r in [&r1, &r2] {
        assert_eq!(r.get_topic(), b"t".to_vec());
        assert_eq!(r.get_bytes(), d);
        assert_eq!(r.get_ctx().body, Json::Object(vec![]));
    }
}

#[test]
fn websocket_session_decisions() {
    assert_eq!(admit_connection(0, 5), Some(1));
    assert_eq!(admit_connection(5, 5), None);
    assert_eq!(release(1), None);
    assert_eq!(release(3), Some(2));
    assert!(ping_expired(100, 60, 30));
    assert!(!ping_expired(100, 70, 30));
    assert!(!ping_expired(50, 70, 30));
    assert_eq!(route(true, true), Some(Route::Topic));
    assert_eq!(route(false, true), Some(Route::Default));
    assert_eq!(route(false, false), None);
}

#[test]
fn webtransport_session_pings_refresh_and_silence_closes() {
    let s = WtSession { last_ping: 100, ping_timeout: 30 };
    let (s1, a1) = wt_session_step(s, WtEvent::Message(b"ping".to_vec(), 120));
    assert_eq!(a1, WtAction::Refreshed);
    assert_eq!(s1.last_ping, 120);
    let (s2, a2) = wt_session_step(s1, WtEvent::Message(b"chat".to_vec(), 125));
    assert_eq!(a2, WtAction::Dispatch);
    assert_eq!(s2, s1);
    assert_eq!(wt_session_step(s2, WtEvent::Tick(140)).1, WtAction::SendPong);
    assert_eq!(wt_session_step(s2, WtEvent::Tick(151)).1, WtAction::Close);
    assert_eq!(pong_frame(), b"29+0:{\"payload\":{},\"topic\":\"pong\"}".to_vec());
}

#[test]
fn session_channel_round_trip_gives_back_topic_payload_and_bytes() {
    let o = || UnixDomainSocketOpts { block_size_kb: 64, socket_path: String::from("/tmp/s.sock"), thread_limit: 1 };
    let mut out = UnixDomainSocketStream::new(o());
    let payload = obj(vec![("k", s("v")), ("n", Json::Number(b"2".to_vec()))]);
    let sent = out.push("t", payload.deep_clone(), b"bin", false);
    let mut req = UnixDomainSocketReq::new(o());
    req.add(&sent.chunk);
    assert_eq!(&sent.chunk[..6], b"39+3:{".as_slice());
    assert_eq!(req.read_block(), Ok(Progress::Ready));
    assert_eq!(req.get_topic(), b"t".to_vec());
    assert_eq!(req.get_ctx(), payload);
    assert_eq!(req.get_bytes(), b"bin".to_vec());
    assert!(req.is_empty());
}

#[test]
fn websocket_push_is_read_back_after_the_handshake() {
    let mut out = WebSocketStream::new(ws_opts(64));
    out.set_topic("t");
    let payload = obj(vec![("k", s("v"))]);
    let f = out.push(payload.deep_clone(), b"ab");
    let mut req = WebSocketReq::new(ws_opts(64));
    req.add(b"GET / HTTP/1.1\r\nHost: h\r\n\r\n");
    assert_eq!(req.read_block(), Ok(Progress::Pending));
    req.add(&f);
    assert_eq!(f[..f.len() - 2].to_vec(), b"33+2:{\"payload\":{\"k\":\"v\"},\"topic\":\"t\"}".to_vec());
    assert_eq!(req.read_block(), Ok(Progress::Ready));
    assert_eq!(req.get_topic(), b"t".to_vec());
    assert_eq!(req.get_ctx().body, payload);
    assert_eq!(req.get_bytes(), b"ab".to_vec());
}

#[test]
fn webtransport_message_that_does_not_parse_is_refused_and_dropped() {
    let mut req = WebTransportReq::new(wt_opts(64));
    req.add(b"3+0:{x}");
    let e = req.read_block().unwrap_err();
    assert_eq!(e.kind, ErrorKind::InvalidInput);
    assert_eq!(e.reason, Reason::InvalidJson);
    assert!(req.is_empty());
}

#[test]
fn session_channel_message_without_a_string_topic_is_refused() {
    let opts = UnixDomainSocketOpts { block_size_kb: 64, socket_path: String::from("/tmp/s.sock"), thread_limit: 1 };
    let mut req = UnixDomainSocketReq::new(opts);
    req.add(b"24+0:{\"topic\":1,\"payload\":{}}");
    let e = req.read_block().unwrap_err();
    assert_eq!(e.reason, Reason::InvalidMessage);
}
