use arnelify_server::command::{
    decode_http_command, server_settings, decode_message_command, get_bool, get_int, get_str, get_u64, number_text_u64,
    HttpAction, HttpCommand, IntWidth, MessageAction, MessageCommand, OptProblem,
};
use arnelify_server::json::Json;

fn n(t: &str) -> Json {
    Json::Number(t.as_bytes().to_vec())
}

fn s(t: &str) -> Json {
    Json::Str(t.as_bytes().to_vec())
}

fn obj(members: Vec<(&str, Json)>) -> Json {
    Json::Object(members.into_iter().map(|(k, v)| (k.as_bytes().to_vec(), v)).collect())
}

#[test]
fn number_text_reads_unsigned_integers_only() {
    assert_eq!(number_text_u64(b"0"), Some(0));
    assert_eq!(number_text_u64(b"18446744073709551615"), Some(u64::MAX));
    assert_eq!(number_text_u64(b"18446744073709551616"), None);
    assert_eq!(number_text_u64(b"-1"), None);
    assert_eq!(number_text_u64(b"1.5"), None);
    assert_eq!(number_text_u64(b"1e3"), None);
    assert_eq!(number_text_u64(b""), None);
}

#[test]
fn add_header_command_reads_stream_key_and_value() {
    let args = Json::Array(vec![n("7"), s("X-Key"), s("v")]);
    match decode_http_command(HttpAction::AddHeader, &args) {
        Some(HttpCommand::AddHeader { stream, key, value }) => {
            assert_eq!(stream, 7);
            assert_eq!(key, b"X-Key".to_vec());
            assert_eq!(value, b"v".to_vec());
        },
        _ => panic!("expected an added header"),
    }
}

#[test]
fn command_arguments_of_other_types_fall_back() {
    let args = Json::Array(vec![s("x"), n("1"), Json::Null]);
    match decode_http_command(HttpAction::PushFile, &args) {
        Some(HttpCommand::PushFile { stream, path, attachment }) => {
            assert_eq!(stream, 0);
            assert_eq!(path, Vec::<u8>::new());
            assert!(!attachment);
        },
        _ => panic!("expected a file push"),
    }
}

#[test]
fn command_arguments_that_are_not_an_array_do_nothing() {
    assert!(decode_http_command(HttpAction::End, &obj(vec![])).is_none());
    assert!(decode_message_command(MessageAction::Close, &n("1")).is_none());
}

#[test]
fn set_code_is_cut_to_sixteen_bits() {
    let args = Json::Array(vec![n("1"), n("65736")]);
    match decode_http_command(HttpAction::SetCode, &args) {
        Some(HttpCommand::SetCode { stream, code }) => {
            assert_eq!(stream, 1);
            assert_eq!(code, 200);
        },
        _ => panic!("expected a status code"),
    }
}

#[test]
fn empty_compression_means_none() {
    let args = Json::Array(vec![n("2"), s("")]);
    match decode_http_command(HttpAction::SetCompression, &args) {
        Some(HttpCommand::SetCompression { compression, .. }) => assert!(compression.is_none()),
        _ => panic!("expected a compression"),
    }
    let args = Json::Array(vec![n("2"), s("br")]);
    match decode_message_command(MessageAction::SetCompression, &args) {
        Some(MessageCommand::SetCompression { stream, compression }) => {
            assert_eq!(stream, 2);
            assert_eq!(compression, Some(b"br".to_vec()));
        },
        _ => panic!("expected a compression"),
    }
}

#[test]
fn set_headers_keeps_texts_numbers_and_booleans() {
    let headers = obj(vec![
        ("A", s("x")),
        ("B", n("12")),
        ("C", Json::Bool(true)),
        ("D", Json::Null),
        ("E", Json::Bool(false)),
    ]);
    let args = Json::Array(vec![n("3"), headers]);
    match decode_http_command(HttpAction::SetHeaders, &args) {
        Some(HttpCommand::SetHeaders { stream, headers }) => {
            assert_eq!(stream, 3);
            assert_eq!(
                headers,
                vec![
                    (b"A".to_vec(), b"x".to_vec()),
                    (b"B".to_vec(), b"12".to_vec()),
                    (b"C".to_vec(), b"true".to_vec()),
                    (b"E".to_vec(), b"false".to_vec()),
                ]
            );
        },
        _ => panic!("expected headers"),
    }
    let args = Json::Array(vec![n("3")]);
    match decode_http_command(HttpAction::SetHeaders, &args) {
        Some(HttpCommand::SetHeaders { headers, .. }) => assert!(headers.is_empty()),
        _ => panic!("expected headers"),
    }
}

#[test]
fn message_push_carries_its_payload() {
    let payload = obj(vec![("k", s("v"))]);
    let args = Json::Array(vec![n("4"), payload.deep_clone()]);
    match decode_message_command(MessageAction::Push, &args) {
        Some(MessageCommand::Push { stream, json }) => {
            assert_eq!(stream, 4);
            assert_eq!(json, payload);
        },
        _ => panic!("expected a push"),
    }
}

#[test]
fn settings_are_read_by_type() {
    let opts = obj(vec![("port", n("4433")), ("path", s("/tmp")), ("on", Json::Bool(true)), ("big", n("70000"))]);
    assert_eq!(get_u64(&opts, "port").ok(), Some(4433));
    assert_eq!(get_str(&opts, "path").ok(), Some(String::from("/tmp")));
    assert_eq!(get_bool(&opts, "on").ok(), Some(true));
    assert_eq!(get_int(&opts, "port", IntWidth::U16).ok(), Some(4433));
    let e = get_int(&opts, "big", IntWidth::U16).err().unwrap();
    assert_eq!(e.problem, OptProblem::OutOfRange(IntWidth::U16));
    assert_eq!(e.message(), b"[Arnelify Server]: Rust PYO3 error: 'big' out of u16 range.".to_vec());
}

#[test]
fn missing_settings_are_named_in_the_message() {
    let opts = obj(vec![("port", s("4433"))]);
    let e = get_u64(&opts, "port").err().unwrap();
    assert_eq!(e.problem, OptProblem::NotU64);
    assert_eq!(e.message(), b"[Arnelify Server]: Rust PYO3 error: 'port' missing or not a u64.".to_vec());
    let e = get_str(&opts, "cert_pem").err().unwrap();
    assert_eq!(e.message(), b"[Arnelify Server]: Rust PYO3 error: 'cert_pem' missing or not a string.".to_vec());
    let e = get_bool(&opts, "compression").err().unwrap();
    assert_eq!(e.message(), b"[Arnelify Server]: Rust PYO3 error: 'compression' missing or not a bool.".to_vec());
}

#[test]
fn server_settings_take_the_next_id_only_for_json() {
    match server_settings(b"{\"port\": 3001, \"charset\": \"UTF-8\"}", 4) {
        Some((id, opts)) => {
            assert_eq!(id, 5);
            assert_eq!(
                opts,
                Json::Object(vec![
                    (b"charset".to_vec(), Json::Str(b"UTF-8".to_vec())),
                    (b"port".to_vec(), Json::Number(b"3001".to_vec())),
                ])
            );
        },
        None => panic!("settings are JSON"),
    }
    assert_eq!(server_settings(b"{port: 3001}", 4), None);
    assert_eq!(server_settings(b"", 0), None);
}
