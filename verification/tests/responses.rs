use arnelify_server::http1::{Http1Opts, Http1Stream};
use arnelify_server::http2::{Http2Opts, Http2Stream};
use arnelify_server::json::Json;
use arnelify_server::error::{refusal_answer, ErrorKind, Reason, ReqError};

fn opts1() -> Http1Opts {
    Http1Opts {
        allow_empty_files: false,
        block_size_kb: 64,
        charset: String::from("utf-8"),
        compression: false,
        keep_alive: 30,
        keep_extensions: true,
        max_fields: 10,
        max_fields_size_total_mb: 1,
        max_files: 3,
        max_files_size_total_mb: 4,
        max_file_size_mb: 2,
        port: 4433,
        storage_path: String::from("/tmp/uploads"),
        thread_limit: 4,
    }
}

fn opts2() -> Http2Opts {
    Http2Opts {
        allow_empty_files: false,
        block_size_kb: 64,
        cert_pem: String::from("cert.pem"),
        charset: String::from("utf-8"),
        compression: false,
        keep_alive: 30,
        keep_extensions: false,
        key_pem: String::from("key.pem"),
        max_fields: 10,
        max_fields_size_total_mb: 1,
        max_files: 3,
        max_files_size_total_mb: 4,
        max_file_size_mb: 2,
        port: 4433,
        storage_path: String::from("/tmp/uploads"),
        thread_limit: 4,
    }
}

fn pair(k: &str, v: &str) -> (String, String) {
    (String::from(k), String::from(v))
}

#[test]
fn add_header_keeps_single_headers_single() {
    let mut st = Http2Stream::new(opts2());
    st.add_header("Content-Type", "text/plain");
    st.add_header("content-type", "application/json");
    st.add_header("CONTENT-LENGTH", "3");
    st.add_header("Content-Length", "4");
    st.add_header("X-Tag", "a");
    st.add_header("X-Tag", "b");
    assert_eq!(
        st.get_headers(),
        vec![
            pair("Content-Type", "text/plain"),
            pair("CONTENT-LENGTH", "3"),
            pair("X-Tag", "a"),
            pair("X-Tag", "b"),
            pair("Server", "Arnelify Server"),
        ]
    );
}

#[test]
fn http1_head_has_status_line_headers_and_server() {
    let mut st = Http1Stream::new(opts1());
    st.set_code(404);
    st.add_header("X", "1");
    assert_eq!(
        st.get_headers(),
        b"HTTP/1.1 404 Not Found\r\nConnection: keep-alive\r\nX: 1\r\nServer: Arnelify Server\r\n\r\n"
            .to_vec()
    );
}

#[test]
fn http1_push_bytes_sends_head_then_body() {
    let mut st = Http1Stream::new(opts1());
    let chunks = st.push_bytes_at(b"hi", false, 0);
    assert_eq!(
        chunks,
        vec![
            b"HTTP/1.1 200 OK\r\nConnection: keep-alive\r\nContent-Length: 2\r\nContent-Type: application/json\r\nServer: Arnelify Server\r\n\r\n".to_vec(),
            b"hi".to_vec(),
        ]
    );
    let more = st.push_bytes_at(b"!!", false, 0);
    assert_eq!(more, vec![b"!!".to_vec()]);
}

#[test]
fn http1_attachment_is_named_by_the_clock() {
    let mut st = Http1Stream::new(opts1());
    let chunks = st.push_bytes_at(b"abc", true, 1700000000123);
    assert_eq!(
        chunks[0],
        b"HTTP/1.1 200 OK\r\nConnection: keep-alive\r\nContent-Disposition: attachment; filename=\"1700000000123\"\r\nContent-Length: 3\r\nContent-Type: application/json\r\nServer: Arnelify Server\r\n\r\n".to_vec()
    );
}

#[test]
fn http1_push_bytes_with_the_clock_names_attachments_by_digits() {
    let mut st = Http1Stream::new(opts1());
    let chunks = st.push_bytes(b"abc", true);
    let head = String::from_utf8(chunks[0].clone()).unwrap();
    let start = head.find("filename=\"").unwrap() + 10;
    let end = start + head[start..].find('"').unwrap();
    assert!(end > start);
    assert!(head[start..end].bytes().all(|b| b.is_ascii_digit()));
    assert_eq!(chunks[1], b"abc".to_vec());
}

#[test]
fn http1_push_json_sends_the_text() {
    let mut st = Http1Stream::new(opts1());
    st.set_code(409);
    let chunks = st.push_json(Json::Object(vec![(b"code".to_vec(), Json::Number(b"409".to_vec()))]), false);
    assert_eq!(chunks.len(), 2);
    assert!(chunks[0].starts_with(b"HTTP/1.1 409 Conflict\r\n"));
    assert_eq!(chunks[1], b"{\"code\":409}".to_vec());
}

#[test]
fn http1_push_file_announces_length_type_and_name() {
    let mut st = Http1Stream::new(opts1());
    let head = st.push_file("/srv/files/report.css", true, 10).unwrap();
    assert_eq!(
        head,
        b"HTTP/1.1 200 OK\r\nConnection: keep-alive\r\nContent-Disposition: attachment; filename=\"report.css.css\"\r\nContent-Length: 10\r\nContent-Type: text/css; charset=utf-8\r\nServer: Arnelify Server\r\n\r\n".to_vec()
    );
}

#[test]
fn http2_push_file_without_extension_is_octet_stream() {
    let mut st = Http2Stream::new(opts2());
    let (code, headers) = st.push_file("/srv/files/blob", false, 5).unwrap();
    assert_eq!(code, 200);
    assert_eq!(
        headers,
        vec![
            pair("Content-Length", "5"),
            pair("Content-Type", "application/octet-stream"),
            pair("Server", "Arnelify Server"),
        ]
    );
}

#[test]
fn http2_push_bytes_keeps_the_body_and_sends_status_once() {
    let mut st = Http2Stream::new(opts2());
    st.set_code(201);
    let (head, body) = st.push_bytes_at(b"ok", false, 0);
    let (code, headers) = head.unwrap();
    assert_eq!(code, 201);
    assert_eq!(
        headers,
        vec![
            pair("Content-Length", "2"),
            pair("Content-Type", "application/json"),
            pair("Server", "Arnelify Server"),
        ]
    );
    assert_eq!(body, b"ok".to_vec());
    let (again, body2) = st.push_bytes_at(b"more", false, 0);
    assert!(again.is_none());
    assert_eq!(body2, b"more".to_vec());
}

#[test]
fn get_mime_follows_the_table_and_the_charset() {
    let mut st = Http1Stream::new(opts1());
    st.set_encoding(String::from("latin1"));
    assert_eq!(st.get_mime(".css"), "text/css; charset=latin1");
    assert_eq!(st.get_mime(".png"), "image/png");
    assert_eq!(st.get_mime(".htm"), "text/html; charset=latin1");
    assert_eq!(st.get_mime(".woff2"), "font/woff2");
    assert_eq!(st.get_mime(".zzz"), "application/octet-stream");
}

#[test]
fn end_sends_an_empty_flushing_chunk_and_resets() {
    let mut st = Http1Stream::new(opts1());
    st.set_code(500);
    st.add_header("X", "1");
    st.set_compression(Some(String::from("br")));
    let last = st.end();
    assert!(last.chunk.is_empty());
    assert!(last.flush);
    assert_eq!(
        st.get_headers(),
        b"HTTP/1.1 200 OK\r\nConnection: keep-alive\r\nServer: Arnelify Server\r\n\r\n".to_vec()
    );
}

#[test]
fn set_headers_replaces_the_list() {
    let mut st = Http2Stream::new(opts2());
    st.add_header("A", "1");
    st.set_headers(vec![pair("B", "2")]);
    assert_eq!(st.get_headers(), vec![pair("B", "2"), pair("Server", "Arnelify Server")]);
    st.reset();
    assert_eq!(st.get_headers(), vec![pair("Server", "Arnelify Server")]);
}

#[test]
fn refusals_are_answered_with_409_or_end_the_connection() {
    let e = ReqError::new(ErrorKind::InvalidInput, Reason::InvalidQuery);
    let (code, answer) = refusal_answer(&e).unwrap();
    assert_eq!(code, 409);
    assert_eq!(
        answer,
        Json::Object(vec![
            (b"code".to_vec(), Json::Number(b"409".to_vec())),
            (b"error".to_vec(), Json::Str(b"Invalid query.".to_vec())),
        ])
    );
    assert!(refusal_answer(&ReqError::new(ErrorKind::InvalidData, Reason::UrlTooLong)).is_none());
    let (code, answer) = arnelify_server::http1::not_found_answer();
    assert_eq!(code, 404);
    assert_eq!(answer, Json::Object(vec![
        (b"code".to_vec(), Json::Number(b"404".to_vec())),
        (b"error".to_vec(), Json::Str(b"Not found.".to_vec())),
    ]));
    let mut st = Http1Stream::new(opts1());
    st.set_code(404);
    let chunks = st.push_json(answer, false);
    assert_eq!(chunks[1], b"{\"code\":404,\"error\":\"Not found.\"}".to_vec());
}
