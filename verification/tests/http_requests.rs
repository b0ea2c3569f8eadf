use arnelify_server::error::{ErrorKind, Reason};
use arnelify_server::http1::{Http1Opts, Http1Req};
use arnelify_server::http2::{Http2Opts, Http2Req};
use arnelify_server::json::Json;
use arnelify_server::request::WriteOutcome;
use arnelify_server::uds::Progress;

fn opts1() -> Http1Opts {
    Http1Opts {
        allow_empty_files: false,
        block_size_kb: 64,
        charset: String::from("utf-8"),
        compression: false,
        keep_alive: 30,
        keep_extensions: true,
        max_fields: 10,
        max_fields_size_total_mb: 1,
        max_files: 3,
        max_files_size_total_mb: 4,
        max_file_size_mb: 2,
        port: 4433,
        storage_path: String::from("/tmp/uploads/"),
        thread_limit: 4,
    }
}

fn opts2() -> Http2Opts {
    Http2Opts {
        allow_empty_files: false,
        block_size_kb: 64,
        cert_pem: String::from("cert.pem"),
        charset: String::from("utf-8"),
        compression: false,
        keep_alive: 30,
        keep_extensions: false,
        key_pem: String::from("key.pem"),
        max_fields: 10,
        max_fields_size_total_mb: 1,
        max_files: 3,
        max_files_size_total_mb: 4,
        max_file_size_mb: 2,
        port: 4433,
        storage_path: String::from("/tmp/uploads"),
        thread_limit: 4,
    }
}

fn s(t: &str) -> Json {
    Json::Str(t.as_bytes().to_vec())
}

fn obj(members: Vec<(&str, Json)>) -> Json {
    Json::Object(members.into_iter().map(|(k, v)| (k.as_bytes().to_vec(), v)).collect())
}

fn member<'a>(j: &'a Json, key: &str) -> Option<&'a Json> {
    match j {
        Json::Object(m) => m.iter().find(|(k, _)| k.as_slice() == key.as_bytes()).map(|(_, v)| v),
        _ => None,
    }
}

#[test]
fn http1_get_reads_path_query_headers_and_cookies() {
    let mut req = Http1Req::new(opts1());
    req.add(b"GET /hello%20world?x=1&y=a+b HTTP/1.1\r\nHost: example\r\nCookie: a=1; b=2\r\n\r\n");
    assert_eq!(req.read_block(), Ok(Progress::Ready));
    assert_eq!(req.get_path(), b"/hello world".to_vec());
    let ctx = req.get_ctx();
    assert_eq!(ctx.method, s("GET"));
    assert_eq!(ctx.path, s("/hello world"));
    assert_eq!(ctx.protocol, b"HTTP/1.1".to_vec());
    assert_eq!(
        ctx.query,
        obj(vec![("x", Json::Array(vec![s("1")])), ("y", Json::Array(vec![s("a b")]))])
    );
    assert_eq!(
        ctx.headers,
        vec![
            (b"Host".to_vec(), s("example")),
            (b"Cookie".to_vec(), s("a=1; b=2")),
        ]
    );
    assert_eq!(ctx.cookie, vec![(b"a".to_vec(), s("1")), (b"b".to_vec(), s("2"))]);
    assert!(req.is_empty());
}

#[test]
fn http1_head_arriving_in_pieces_is_read_once_complete() {
    let mut req = Http1Req::new(opts1());
    req.add(b"GE");
    assert_eq!(req.read_block(), Ok(Progress::Pending));
    req.add(b"T /a HT");
    assert_eq!(req.read_block(), Ok(Progress::Pending));
    req.add(b"TP/1.1\r\nHost: x\r\n");
    assert_eq!(req.read_block(), Ok(Progress::Pending));
    req.add(b"\r\n");
    assert_eq!(req.read_block(), Ok(Progress::Ready));
    assert_eq!(req.get_path(), b"/a".to_vec());
}

#[test]
fn http1_long_method_is_refused() {
    let mut req = Http1Req::new(opts1());
    req.add(b"LONGMETHOD / HTTP/1.1\r\n\r\n");
    let e = req.read_block().unwrap_err();
    assert_eq!(e.kind, ErrorKind::InvalidData);
    assert_eq!(e.reason, Reason::MethodTooLong);
    assert_eq!(e.message(), "The maximum size of the method has been exceeded.");
    assert!(req.is_empty());
}

#[test]
fn http1_unknown_method_is_refused() {
    let mut req = Http1Req::new(opts1());
    req.add(b"FETCH / HTTP/1.1\r\n\r\n");
    let e = req.read_block().unwrap_err();
    assert_eq!(e.reason, Reason::UnknownMethod);
    assert_eq!(e.message(), "Unknown request method.");
}

#[test]
fn http1_path_with_dot_dot_is_replaced() {
    let mut req = Http1Req::new(opts1());
    req.add(b"GET /a/../secret HTTP/1.1\r\nHost: h\r\n\r\n");
    assert_eq!(req.read_block(), Ok(Progress::Ready));
    assert_eq!(req.get_path(), b"_".to_vec());
    assert_eq!(req.get_ctx().path, s("_"));
}

#[test]
fn http2_path_with_dot_dot_is_kept() {
    let mut req = Http2Req::new(opts2());
    req.add(b"GET /a/../b HTTP/1.1\r\nHost: h\r\n\r\n");
    assert_eq!(req.read_block(), Ok(Progress::Ready));
    assert_eq!(req.get_path(), b"/a/../b".to_vec());
    let ctx = req.get_ctx();
    assert_eq!(ctx.protocol, b"HTTP/2.0".to_vec());
    assert_eq!(ctx.topic, Json::Null);
    assert!(ctx.addr.is_none());
}

#[test]
fn http1_long_url_is_refused() {
    let mut req = Http1Req::new(opts1());
    let mut line = b"GET /".to_vec();
    line.extend(std::iter::repeat(b'a').take(3000));
    req.add(&line);
    let e = req.read_block().unwrap_err();
    assert_eq!(e.reason, Reason::UrlTooLong);
}

#[test]
fn http1_chunked_encoding_is_refused() {
    let mut req = Http1Req::new(opts1());
    req.add(b"POST / HTTP/1.1\r\nTransfer-Encoding: gzip, Chunked\r\n\r\n");
    let e = req.read_block().unwrap_err();
    assert_eq!(e.kind, ErrorKind::InvalidData);
    assert_eq!(e.reason, Reason::ChunkedUnsupported);
}

#[test]
fn http2_chunked_encoding_is_not_checked() {
    let mut req = Http2Req::new(opts2());
    req.add(b"GET / HTTP/1.1\r\nTransfer-Encoding: chunked\r\n\r\n");
    assert_eq!(req.read_block(), Ok(Progress::Ready));
}

#[test]
fn http1_content_length_must_be_a_number() {
    let mut req = Http1Req::new(opts1());
    req.add(b"POST / HTTP/1.1\r\nContent-Length: 12a\r\n\r\n");
    let e = req.read_block().unwrap_err();
    assert_eq!(e.reason, Reason::ContentLengthNotNumber);
    assert_eq!(e.message(), "Content-Length must be a number.");
}

#[test]
fn http1_json_body_is_parsed_and_judged() {
    let mut req = Http1Req::new(opts1());
    let body = b"{\"a\": \"hi\"}";
    let head = format!(
        "POST /api HTTP/1.1\r\nContent-Type: application/json\r\nContent-Length: {}\r\n\r\n",
        body.len()
    );
    req.add(head.as_bytes());
    assert_eq!(req.read_block(), Ok(Progress::Pending));
    req.add(body);
    assert_eq!(req.read_block(), Ok(Progress::Ready));
    assert_eq!(req.get_ctx().body, obj(vec![("a", s("hi"))]));
    assert_eq!(req.get_ctx().method, s("POST"));
    assert!(req.is_empty());
}

#[test]
fn http1_json_body_must_be_an_object() {
    let mut req = Http1Req::new(opts1());
    req.add(b"POST / HTTP/1.1\r\nContent-Type: application/json\r\nContent-Length: 2\r\n\r\n[]");
    let e = req.read_block().unwrap_err();
    assert_eq!(e.kind, ErrorKind::InvalidInput);
    assert_eq!(e.reason, Reason::InvalidApplicationJson);
    assert!(req.is_empty());
}

#[test]
fn http1_json_that_does_not_parse_is_refused() {
    let mut req = Http1Req::new(opts1());
    req.add(b"POST / HTTP/1.1\r\nContent-Type: application/json\r\nContent-Length: 3\r\n\r\n{x}");
    let e = req.read_block().unwrap_err();
    assert_eq!(e.reason, Reason::InvalidApplicationJson);
    assert_eq!(e.message(), "Invalid application/json.");
}

#[test]
fn http2_json_body_may_be_any_value() {
    let mut req = Http2Req::new(opts2());
    req.add(b"PUT / HTTP/1.1\r\nContent-Type: application/json\r\nContent-Length: 2\r\n\r\n[]");
    assert_eq!(req.read_block(), Ok(Progress::Ready));
    assert_eq!(req.get_ctx().body, Json::Array(vec![]));
}

#[test]
fn http1_json_body_over_the_fields_cap_is_refused() {
    let mut req = Http1Req::new(opts1());
    req.add(b"POST / HTTP/1.1\r\nContent-Type: application/json\r\nContent-Length: 1048577\r\n\r\n{}");
    let e = req.read_block().unwrap_err();
    assert_eq!(e.kind, ErrorKind::InvalidData);
    assert_eq!(e.reason, Reason::FieldsTooLarge);
}

#[test]
fn http1_form_body_is_stored_by_field_names() {
    let mut req = Http1Req::new(opts1());
    let body = "a=1&b%5B%5D=2&b%5B%5D=3&c=%20";
    let head = format!(
        "POST /f HTTP/1.1\r\nContent-Type: application/x-www-form-urlencoded\r\nContent-Length: {}\r\n\r\n{}",
        body.len(),
        body
    );
    req.add(head.as_bytes());
    assert_eq!(req.read_block(), Ok(Progress::Ready));
    assert_eq!(
        req.get_ctx().body,
        obj(vec![
            ("a", Json::Array(vec![s("1")])),
            ("b", Json::Array(vec![s("2"), s("3")])),
            ("c", Json::Array(vec![])),
        ])
    );
}

#[test]
fn http1_form_name_through_an_object_is_refused_and_the_body_skipped() {
    let mut req = Http1Req::new(opts1());
    let body = "a[b]=1&a=2";
    let head = format!(
        "POST /f HTTP/1.1\r\nContent-Type: application/x-www-form-urlencoded\r\nContent-Length: {}\r\n\r\n{}",
        body.len(),
        body
    );
    req.add(head.as_bytes());
    let e = req.read_block().unwrap_err();
    assert_eq!(e.kind, ErrorKind::InvalidInput);
    assert_eq!(e.reason, Reason::InvalidFieldName);
    assert!(req.is_empty());
    assert_eq!(req.read_block(), Ok(Progress::Pending));
    req.add(b"0123456789");
    assert_eq!(req.read_block(), Ok(Progress::Ready));
    assert!(req.is_empty());
}

#[test]
fn http1_reset_gives_a_fresh_reader_but_keeps_buffered_bytes() {
    let mut req = Http1Req::new(opts1());
    req.set_addr("10.0.0.1:5000");
    req.add(b"GET /x?q=1 HTTP/1.1\r\nHost: h\r\n\r\nGET /y");
    assert_eq!(req.read_block(), Ok(Progress::Ready));
    req.reset();
    let ctx = req.get_ctx();
    assert_eq!(ctx.path, s("/"));
    assert_eq!(ctx.method, s("GET"));
    assert_eq!(ctx.addr, Some(Json::Null));
    assert_eq!(ctx.topic, s("_"));
    assert!(ctx.headers.is_empty());
    assert_eq!(ctx.query, Json::Object(vec![]));
    assert!(!req.is_empty());
    req.add(b" HTTP/1.1\r\nHost: h\r\n\r\n");
    assert_eq!(req.read_block(), Ok(Progress::Ready));
    assert_eq!(req.get_path(), b"/y".to_vec());
}

#[test]
fn http1_head_without_header_lines_stays_pending() {
    let mut req = Http1Req::new(opts1());
    req.add(b"GET / HTTP/1.1\r\n\r\n");
    assert_eq!(req.read_block(), Ok(Progress::Pending));
    req.add(b"\r\n");
    assert_eq!(req.read_block(), Ok(Progress::Ready));
}

#[test]
fn http1_set_addr_is_kept_in_the_context() {
    let mut req = Http1Req::new(opts1());
    req.set_addr("127.0.0.1:1234");
    assert_eq!(req.get_ctx().addr, Some(s("127.0.0.1:1234")));
    assert_eq!(req.get_compression(), None);
}

fn multipart_request(boundary: &str, body: &str) -> String {
    format!(
        "POST /upload HTTP/1.1\r\nContent-Type: multipart/form-data; boundary={}\r\nContent-Length: {}\r\n\r\n{}",
        boundary,
        body.len(),
        body
    )
}

#[test]
fn http1_multipart_fields_and_files_are_read() {
    let body = "--XyZ\r\nContent-Disposition: form-data; name=\"title\"\r\n\r\nhello\r\n--XyZ\r\nContent-Disposition: form-data; name=\"doc\"; filename=\"a.txt\"\r\nContent-Type: text/plain\r\n\r\nfile-data\r\n--XyZ--\r\n";
    let mut req = Http1Req::new(opts1());
    req.add(multipart_request("XyZ", body).as_bytes());
    let (path, bytes) = match req.read_block() {
        Ok(Progress::Write(p, b)) => (p, b),
        other => panic!("expected a write, got {:?}", other),
    };
    assert_eq!(bytes, b"file-data".to_vec());
    let path = String::from_utf8(path).unwrap();
    assert!(path.starts_with("/tmp/uploads/"));
    assert!(path.ends_with(".txt"));
    let stamp = &path["/tmp/uploads/".len()..path.len() - 4];
    assert!(!stamp.is_empty());
    assert!(stamp.bytes().all(|b| b.is_ascii_digit()));
    assert_eq!(req.write_done(WriteOutcome::Written), Ok(Progress::Ready));
    let ctx = req.get_ctx();
    assert_eq!(ctx.body, obj(vec![("title", Json::Array(vec![s("hello")]))]));
    let files = member(&ctx.files, "doc").unwrap();
    let record = match files {
        Json::Array(items) => {
            assert_eq!(items.len(), 1);
            &items[0]
        },
        other => panic!("expected an array, got {:?}", other),
    };
    assert_eq!(member(record, "ext"), Some(&s("txt")));
    assert_eq!(member(record, "mime"), Some(&s("text/plain")));
    assert_eq!(member(record, "name"), Some(&s(stamp)));
    assert_eq!(member(record, "path"), Some(&s(&path)));
    assert_eq!(member(record, "real"), Some(&s("a.txt")));
    assert_eq!(member(record, "size"), Some(&Json::Number(b"9".to_vec())));
}

#[test]
fn http1_multipart_file_write_failure_is_reported() {
    let body = "--B\r\nContent-Disposition: form-data; name=\"f\"; filename=\"x.bin\"\r\n\r\nabc\r\n--B--\r\n";
    let mut req = Http1Req::new(opts1());
    req.add(multipart_request("B", body).as_bytes());
    match req.read_block() {
        Ok(Progress::Write(_, b)) => assert_eq!(b, b"abc".to_vec()),
        other => panic!("expected a write, got {:?}", other),
    }
    let e = req.write_done(WriteOutcome::OpenFailed).unwrap_err();
    assert_eq!(e.kind, ErrorKind::PermissionDenied);
    assert_eq!(e.reason, Reason::FileSaveError);
    assert_eq!(e.message(), "File save error.");
}

#[test]
fn http1_multipart_too_many_fields_is_refused() {
    let mut o = opts1();
    o.max_fields = 1;
    let body = "--B\r\nContent-Disposition: form-data; name=\"a\"\r\n\r\n1\r\n--B\r\nContent-Disposition: form-data; name=\"b\"\r\n\r\n2\r\n--B--\r\n";
    let mut req = Http1Req::new(o);
    req.add(multipart_request("B", body).as_bytes());
    let e = req.read_block().unwrap_err();
    assert_eq!(e.kind, ErrorKind::PermissionDenied);
    assert_eq!(e.reason, Reason::TooManyFields);
    assert_eq!(req.read_block(), Ok(Progress::Ready));
}

#[test]
fn http1_multipart_empty_file_is_refused() {
    let body = "--B\r\nContent-Disposition: form-data; name=\"f\"; filename=\"e.txt\"\r\n\r\n\r\n--B--\r\n";
    let mut req = Http1Req::new(opts1());
    req.add(multipart_request("B", body).as_bytes());
    let e = req.read_block().unwrap_err();
    assert_eq!(e.reason, Reason::EmptyFile);
    assert_eq!(e.message(), "Empty files are not allowed.");
}

#[test]
fn http1_multipart_waits_while_a_boundary_may_be_cut() {
    let mut req = Http1Req::new(opts1());
    req.add(b"POST /u HTTP/1.1\r\nContent-Type: multipart/form-data; boundary=B\r\nContent-Length: 100\r\n\r\n--");
    assert_eq!(req.read_block(), Ok(Progress::Pending));
    assert!(!req.is_empty());
}

#[test]
fn http2_multipart_overflow_uses_its_own_wording() {
    let body = "--B\r\nContent-Disposition: form-data; name=\"a\"\r\n\r\n1234567890\r\n--B--\r\n";
    let head = format!(
        "POST /u HTTP/1.1\r\nContent-Type: multipart/form-data; boundary=B\r\nContent-Length: {}\r\n\r\n{}",
        52,
        body
    );
    let mut req = Http2Req::new(opts2());
    req.add(head.as_bytes());
    let e = req.read_block().unwrap_err();
    assert_eq!(e.kind, ErrorKind::InvalidData);
    assert_eq!(e.reason, Reason::BodyTooLargeShort);
    assert_eq!(e.message(), "The maximum size of body has been exceeded.");
}

#[test]
fn rewritten_head_is_read_like_a_raw_one() {
    let head = arnelify_server::rewrite::rewrite_head(
        b"POST",
        b"/items?id=7",
        &[(b"content-length".to_vec(), b"0".to_vec()), (b"x-a".to_vec(), b"b".to_vec())],
    );
    assert_eq!(
        head,
        b"POST /items?id=7 HTTP/1.1\r\ncontent-length: 0\r\nx-a: b\r\n\r\n".to_vec()
    );
    let mut req = Http2Req::new(opts2());
    req.add(&head);
    assert_eq!(req.read_block(), Ok(Progress::Ready));
    let ctx = req.get_ctx();
    assert_eq!(ctx.method, s("POST"));
    assert_eq!(ctx.query, obj(vec![("id", Json::Array(vec![s("7")]))]));
    assert_eq!(member(&Json::Object(ctx.headers), "x-a"), Some(&s("b")));
}

#[test]
fn announced_content_length_reads_back() {
    let mut st = arnelify_server::http1::Http1Stream::new(opts1());
    let body = b"0123456789abcdef";
    let chunks = st.push_bytes_at(body, false, 0);
    let head = chunks[0].clone();
    let mut req = Http1Req::new(opts1());
    let mut raw = b"PUT /echo HTTP/1.1\r\n".to_vec();
    let text = String::from_utf8(head).unwrap();
    let line = text.lines().find(|l| l.starts_with("Content-Length")).unwrap().to_string();
    raw.extend_from_slice(line.as_bytes());
    raw.extend_from_slice(b"\r\nContent-Type: application/json\r\n\r\n");
    req.add(&raw);
    assert_eq!(req.read_block(), Ok(Progress::Pending));
    req.add(b"{\"k\":\"01234567\"}!");
    assert_eq!(req.read_block(), Ok(Progress::Ready));
    assert_eq!(req.get_ctx().body, obj(vec![("k", s("01234567"))]));
    assert_eq!(req.get_ctx().query, Json::Object(vec![]));
    assert!(!req.is_empty());
}

#[test]
fn http1_multipart_too_many_files_is_refused() {
    let mut o = opts1();
    o.max_files = 1;
    let body = "--B\r\nContent-Disposition: form-data; name=\"f\"; filename=\"a.txt\"\r\n\r\nabc\r\n--B\r\nContent-Disposition: form-data; name=\"g\"; filename=\"b.txt\"\r\n\r\nxyz\r\n--B--\r\n";
    let mut req = Http1Req::new(o);
    req.add(multipart_request("B", body).as_bytes());
    match req.read_block() {
        Ok(Progress::Write(_, b)) => assert_eq!(b, b"abc".to_vec()),
        other => panic!("expected a write, got {:?}", other),
    }
    let e = req.write_done(WriteOutcome::Written).unwrap_err();
    assert_eq!(e.kind, ErrorKind::PermissionDenied);
    assert_eq!(e.reason, Reason::TooManyFiles);
    assert_eq!(e.message(), "The maximum number of files has been exceeded.");
}

#[test]
fn http1_multipart_fields_within_the_count_are_read() {
    let mut o = opts1();
    o.max_fields = 2;
    let body = "--B\r\nContent-Disposition: form-data; name=\"a\"\r\n\r\n1\r\n--B\r\nContent-Disposition: form-data; name=\"b\"\r\n\r\n2\r\n--B--\r\n";
    let mut req = Http1Req::new(o);
    req.add(multipart_request("B", body).as_bytes());
    assert_eq!(req.read_block(), Ok(Progress::Ready));
}

#[test]
fn http1_stored_file_is_named_by_the_clock_in_the_storage_path() {
    let body = "--B\r\nContent-Disposition: form-data; name=\"f\"; filename=\"photo.j-pg\"\r\n\r\nabc\r\n--B--\r\n";
    let mut req = Http1Req::new(opts1());
    req.add(multipart_request("B", body).as_bytes());
    let path = match req.read_block() {
        Ok(Progress::Write(p, _)) => p,
        other => panic!("expected a write, got {:?}", other),
    };
    let text = String::from_utf8(path).unwrap();
    let name = text.strip_prefix("/tmp/uploads/").unwrap();
    let (stamp, ext) = name.split_once('.').unwrap();
    assert!(!stamp.is_empty());
    assert!(stamp.bytes().all(|b| b.is_ascii_digit()));
    assert_eq!(ext, "j_pg");
}

#[test]
fn http1_multipart_empty_file_is_taken_when_allowed() {
    let mut o = opts1();
    o.allow_empty_files = true;
    let body = "--B\r\nContent-Disposition: form-data; name=\"f\"; filename=\"e.txt\"\r\n\r\n\r\n--B--\r\n";
    let mut req = Http1Req::new(o);
    req.add(multipart_request("B", body).as_bytes());
    match req.read_block() {
        Ok(Progress::Write(_, b)) => assert!(b.is_empty()),
        other => panic!("expected a write, got {:?}", other),
    }
    assert_eq!(req.write_done(WriteOutcome::Written), Ok(Progress::Ready));
}

#[test]
fn http1_multipart_field_split_before_the_closing_boundary_reads_alike() {
    let h = "POST /f HTTP/1.1\r\nContent-Type: multipart/form-data; boundary=XY\r\nContent-Length: 65\r\n\r\n";
    let b = "--XY\r\nContent-Disposition: form-data; name=\"a\"\r\n\r\nhello\r\n--XY--\r\n";
    assert_eq!(b.len(), 65);
    let mut r1 = Http1Req::new(opts1());
    r1.add(format!("{}{}", h, b).as_bytes());
    assert_eq!(r1.read_block(), Ok(Progress::Ready));
    let mut r2 = Http1Req::new(opts1());
    r2.add(format!("{}{}", h, &b[..57]).as_bytes());
    assert_eq!(r2.read_block(), Ok(Progress::Pending));
    r2.add(b[57..].as_bytes());
    assert_eq!(r2.read_block(), Ok(Progress::Ready));
    let expected = obj(vec![("a", Json::Array(vec![s("hello")]))]);
    assert_eq!(r1.get_ctx().body, expected);
    assert_eq!(r2.get_ctx().body, expected);
    let (c1, c2) = (r1.get_ctx(), r2.get_ctx());
    assert_eq!(c1.headers, c2.headers);
    assert_eq!(c1.files, c2.files);
    assert_eq!(c1.query, c2.query);
    assert_eq!(c1.path, c2.path);
    assert!(r1.is_empty());
}

#[test]
fn http1_json_body_is_limited_in_megabytes() {
    let mut o = opts1();
    o.max_fields_size_total_mb = 1;
    let mut body = String::from("{\"a\":\"");
    while body.len() < 2000 {
        body.push('x');
    }
    body.push_str("\"}");
    let head = format!(
        "POST /api HTTP/1.1\r\nContent-Type: application/json\r\nContent-Length: {}\r\n\r\n",
        body.len()
    );
    let mut req = Http1Req::new(o);
    req.add(head.as_bytes());
    req.add(body.as_bytes());
    assert_eq!(req.read_block(), Ok(Progress::Ready));
    let ctx = req.get_ctx();
    match member(&ctx.body, "a") {
        Some(Json::Str(t)) => assert_eq!(t.len(), 1994),
        other => panic!("expected the field, got {:?}", other),
    }
    let mut big = opts1();
    big.max_fields_size_total_mb = 1;
    let mut req = Http1Req::new(big);
    req.add(b"POST /api HTTP/1.1\r\nContent-Type: application/json\r\nContent-Length: 1048577\r\n\r\n");
    let e = req.read_block().unwrap_err();
    assert_eq!(e.reason, Reason::FieldsTooLarge);
}

#[test]
fn http1_body_less_request_split_anywhere_reads_alike() {
    let q = b"GET /a?x=1 HTTP/1.1\r\nHost: h\r\n\r\n";
    let mut r1 = Http1Req::new(opts1());
    r1.add(q);
    assert_eq!(r1.read_block(), Ok(Progress::Ready));
    for cut in 1..q.len() {
        let mut r2 = Http1Req::new(opts1());
        r2.add(&q[..cut]);
        assert_eq!(r2.read_block(), Ok(Progress::Pending));
        r2.add(&q[cut..]);
        assert_eq!(r2.read_block(), Ok(Progress::Ready));
        assert_eq!(r2.get_path(), r1.get_path());
        let (c1, c2) = (r1.get_ctx(), r2.get_ctx());
        assert_eq!(c1.query, c2.query);
        assert_eq!(c1.headers, c2.headers);
        assert_eq!(c1.path, c2.path);
        assert!(r2.is_empty());
    }
}

#[test]
fn http1_json_numbers_and_nesting_are_read_by_serde_json() {
    let mut req = Http1Req::new(opts1());
    let body = b"{\"z\": [1, 2.5, -3e2], \"a\": {\"t\": true, \"n\": null}}";
    let head = format!(
        "POST /api HTTP/1.1\r\nContent-Type: application/json\r\nContent-Length: {}\r\n\r\n",
        body.len()
    );
    req.add(head.as_bytes());
    req.add(body);
    assert_eq!(req.read_block(), Ok(Progress::Ready));
    let n = |t: &str| Json::Number(t.as_bytes().to_vec());
    assert_eq!(
        req.get_ctx().body,
        obj(vec![
            ("a", obj(vec![("n", Json::Null), ("t", Json::Bool(true))])),
            ("z", Json::Array(vec![n("1"), n("2.5"), n("-300.0")])),
        ])
    );
}

#[test]
fn http1_json_body_that_is_not_utf8_is_refused() {
    let mut req = Http1Req::new(opts1());
    req.add(b"POST / HTTP/1.1\r\nContent-Type: application/json\r\nContent-Length: 4\r\n\r\n\"\xff\"}");
    let e = req.read_block().unwrap_err();
    assert_eq!(e.reason, Reason::InvalidUtf8);
}

#[test]
fn http1_refused_file_skips_exactly_the_rest_of_its_body() {
    let mut o = opts1();
    o.max_file_size_mb = 0;
    let first = "--XY\r\nContent-Disposition: form-data; name=\"f\"; filename=\"a.txt\"\r\n\r\nA\r";
    let rest = "\nmore\r\n--XY--\r\n";
    let head = format!(
        "POST /upload HTTP/1.1\r\nContent-Type: multipart/form-data; boundary=XY\r\nContent-Length: {}\r\n\r\n{}",
        first.len() + rest.len(),
        first
    );
    let mut req = Http1Req::new(o);
    req.add(head.as_bytes());
    let e = req.read_block().unwrap_err();
    assert_eq!(e.kind, ErrorKind::PermissionDenied);
    assert_eq!(e.reason, Reason::FileTooLarge);
    req.add(rest.as_bytes());
    req.add(b"GET /next HTTP/1.1\r\nHost: h\r\n\r\n");
    assert_eq!(req.read_block(), Ok(Progress::Ready));
    req.reset();
    assert_eq!(req.read_block(), Ok(Progress::Ready));
    assert_eq!(req.get_path(), b"/next".to_vec());
    assert!(req.is_empty());
}

#[test]
fn http1_and_http2_read_a_multipart_body_alike() {
    let body = "--Q\r\nContent-Disposition: form-data; name=\"a\"\r\n\r\none\r\n--Q\r\nContent-Disposition: form-data; name=\"f\"; filename=\"n.txt\"\r\n\r\ndata\r\n--Q--\r\n";
    let raw = multipart_request("Q", body);
    let mut o1 = opts1();
    o1.storage_path = String::from("/tmp/uploads");
    o1.keep_extensions = false;
    let mut r1 = Http1Req::new(o1);
    let mut r2 = Http2Req::new(opts2());
    r1.add(raw.as_bytes());
    r2.add(raw.as_bytes());
    let w1 = match r1.read_block() {
        Ok(Progress::Write(_, b)) => b,
        other => panic!("expected a write, got {:?}", other),
    };
    let w2 = match r2.read_block() {
        Ok(Progress::Write(_, b)) => b,
        other => panic!("expected a write, got {:?}", other),
    };
    assert_eq!(w1, b"data".to_vec());
    assert_eq!(w1, w2);
    assert_eq!(r1.write_done(WriteOutcome::Written), Ok(Progress::Ready));
    assert_eq!(r2.write_done(WriteOutcome::Written), Ok(Progress::Ready));
    let (c1, c2) = (r1.get_ctx(), r2.get_ctx());
    assert_eq!(c1.body, c2.body);
    assert_eq!(c1.body, obj(vec![("a", Json::Array(vec![s("one")]))]));
    assert!(r1.is_empty());
}

#[test]
fn http1_multipart_cut_inside_a_part_head_reads_alike() {
    let body = "--B\r\nContent-Disposition: form-data; name=\"a\"\r\n\r\none\r\n--B\r\nContent-Disposition: form-data; name=\"b\"\r\n\r\ntwo\r\n--B--\r\n";
    let raw = multipart_request("B", body);
    let mut r1 = Http1Req::new(opts1());
    r1.add(raw.as_bytes());
    assert_eq!(r1.read_block(), Ok(Progress::Ready));
    let cut = raw.find("\r\n--B\r\nContent-Disposition: form-data; name=\"b\"").unwrap() + 20;
    let mut r2 = Http1Req::new(opts1());
    r2.add(raw[..cut].as_bytes());
    assert_eq!(r2.read_block(), Ok(Progress::Pending));
    r2.add(raw[cut..].as_bytes());
    assert_eq!(r2.read_block(), Ok(Progress::Ready));
    assert_eq!(r1.get_ctx().body, r2.get_ctx().body);
    assert_eq!(
        r2.get_ctx().body,
        obj(vec![("a", Json::Array(vec![s("one")])), ("b", Json::Array(vec![s("two")]))])
    );
    assert!(r1.is_empty() && r2.is_empty());
}
