//! The reader of HTTP request heads, shared by HTTP/1.1, HTTP/2 (whose
//! head is rewritten into HTTP/1.1 form before it is read) and the
//! WebSocket handshake: request line, then header lines.
use vstd::prelude::*;
use vstd::string::StringSliceAdditionalSpecFns;
use vstd::utf8::*;
use vstd::string::StrSliceExecFns;
use crate::sys::{clock_stamp, is_stamp, path_extension, path_extension_of, path_stem, path_stem_of};
use crate::ctx::{empty_object_json, fresh_ctx, make_ctx, str_json, text_bytes, CtxV, RequestCtx};
use crate::error::{err, ErrorKind, Reason, ReqError};
use crate::uds::{read_out, Progress, ReadOut};
use crate::framing::{copy_range, drain_front};
use crate::serialize::{json_parse_of, parse_json};
use crate::head::{
    blank_text, form_after, form_fold, form_pair, is_blank, store_form, FormEnd, FormOut, PairOut,
    boundary_exec, boundary_of, cookie_after, endings_of, query_after, set_cookie, store_query,
    QueryOut,
};
use crate::json::{
    ensure_path, ensure_path_exec, entries_view, keys_view, lemma_object_view, push_at, push_at_exec,
    upsert, upsert_entry, Json, JsonV, PushOutcome,
};
use crate::split::{pattern_keys, pattern_keys_exec, pieces_view, split_on, trim_bytes, utf8_trim};
use crate::text::{
    byte_pos, bytes_eq_ignore_case, bytes_equal, starts_with, ends_with, contains_seq, eq_ignore_case, find_byte, find_seq,
    lemma_contains_iff_pos, lower_bytes, lower_seq, parse_usize, parse_usize_spec, percent_decode,
    percent_decode_bytes, seq_pos, utf8_str, decimal, decimal_bytes, lemma_ascii_valid_utf8,
};

verus! {

/// Which protocol a request head belongs to.
#[derive(PartialEq, Eq, Structural, Clone, Copy)]
pub enum Dialect {
    Http1,
    Http2,
    WebSocket,
}

/// The state of an [`HttpReq`], as values.
pub struct HttpReqV {
    pub dialect: Dialect,
    pub has_body: bool,
    pub has_headers: bool,
    pub has_method: bool,
    pub has_path: bool,
    pub has_protocol: bool,
    pub path: Seq<u8>,
    pub buff: Seq<u8>,
    pub content_type: Seq<u8>,
    pub content_length: usize,
    pub boundary: Seq<u8>,
    pub endings: Seq<Seq<u8>>,
    pub keys: Seq<Seq<u8>>,
    pub ip: Option<Seq<u8>>,
    pub ctx: CtxV,
    pub opts: BodyOpts,
    /// Body bytes accounted for.
    pub size: usize,
    /// Body bytes still to be dropped after a refusal.
    pub skip: usize,
    /// The text of the form field being read.
    pub body: Seq<u8>,
    pub fields: usize,
    pub fields_size_total: usize,
    pub files: usize,
    pub files_size_total: usize,
    pub file_size: usize,
    pub file_mime: Seq<u8>,
    pub file_path: Seq<u8>,
    pub file_real: Seq<u8>,
    /// The part being read is a file.
    pub is_write: bool,
    /// A file write handed out and not yet answered.
    pub pending: Option<WriteAt>,
}

/// The limits and the storage that request bodies are read under.
pub struct BodyOpts {
    pub allow_empty_files: bool,
    pub keep_extensions: bool,
    pub max_fields: u32,
    pub max_fields_size_total_mb: usize,
    pub max_files: u32,
    pub max_files_size_total_mb: usize,
    pub max_file_size_mb: usize,
    pub storage_path: String,
}

/// The limits in bytes fit in a `usize`.
pub open spec fn body_opts_ok(o: BodyOpts) -> bool {
    &&& o.max_fields_size_total_mb * 1024 * 1024 <= usize::MAX
    &&& o.max_files_size_total_mb * 1024 * 1024 <= usize::MAX
    &&& o.max_file_size_mb * 1024 * 1024 <= usize::MAX
}

/// Where a handed-out file write stands in a multipart body: the part
/// before a boundary at this position, or this many bytes of the buffer.
#[derive(PartialEq, Eq, Structural, Clone, Copy)]
pub enum WriteAt {
    Chunk(usize),
    Tail(usize),
}

/// What one stage of reading comes to.
pub enum StageOut {
    /// The stage is complete.
    Next,
    /// More bytes are needed.
    Pending,
    /// The input was refused.
    Fail(ReqError),
    /// The server fails on this input (a string cut inside a character, or
    /// a field path through a value that is not an object).
    Panic,
}

/// The executable form of [`StageOut`] (a reader never fails).
pub enum Stage {
    Next,
    Pending,
    Fail(ReqError),
}

impl Stage {
    pub open spec fn out(self) -> StageOut {
        match self {
            Stage::Next => StageOut::Next,
            Stage::Pending => StageOut::Pending,
            Stage::Fail(e) => StageOut::Fail(e),
        }
    }
}

pub open spec fn clear_buff(s: HttpReqV) -> HttpReqV {
    HttpReqV { buff: seq![], ..s }
}

/// Reading the head leaves the body's bookkeeping alone.
pub open spec fn body_same(a: HttpReqV, b: HttpReqV) -> bool {
    &&& b.dialect == a.dialect
    &&& b.opts == a.opts
    &&& b.size == a.size
    &&& b.skip == a.skip
    &&& b.fields == a.fields
    &&& b.files == a.files
    &&& b.fields_size_total == a.fields_size_total
    &&& b.files_size_total == a.files_size_total
    &&& b.file_size == a.file_size
    &&& b.body == a.body
    &&& b.file_path == a.file_path
    &&& b.pending == a.pending
}

// ---------------------------------------------------------------------------
// Request method
// ---------------------------------------------------------------------------

pub open spec fn is_http_method(m: Seq<u8>) -> bool {
    ||| m == "GET".spec_bytes()
    ||| m == "POST".spec_bytes()
    ||| m == "PUT".spec_bytes()
    ||| m == "DELETE".spec_bytes()
    ||| m == "HEAD".spec_bytes()
    ||| m == "OPTIONS".spec_bytes()
    ||| m == "PATCH".spec_bytes()
    ||| m == "CONNECT".spec_bytes()
    ||| m == "TRACE".spec_bytes()
}

/// Methods whose requests carry a body.
pub open spec fn method_has_body(m: Seq<u8>) -> bool {
    ||| m == "PATCH".spec_bytes()
    ||| m == "POST".spec_bytes()
    ||| m == "PUT".spec_bytes()
    ||| m == "DELETE".spec_bytes()
}

pub open spec fn method_allowed(d: Dialect, m: Seq<u8>) -> bool {
    if d == Dialect::WebSocket {
        m == "GET".spec_bytes()
    } else {
        is_http_method(m)
    }
}

/// Reading the method: up to the first space, at most 8 bytes.
pub open spec fn method_step(s: HttpReqV) -> (HttpReqV, StageOut) {
    match byte_pos(s.buff, 32) {
        None => if s.buff.len() > 8 {
            (clear_buff(s), StageOut::Fail(err(ErrorKind::InvalidData, Reason::MethodTooLong)))
        } else {
            (s, StageOut::Pending)
        },
        Some(e) => {
            let m = s.buff.subrange(0, e);
            if e > 8 {
                (clear_buff(s), StageOut::Fail(err(ErrorKind::InvalidData, Reason::MethodTooLong)))
            } else if !method_allowed(s.dialect, m) {
                (clear_buff(s), StageOut::Fail(err(ErrorKind::InvalidData, Reason::UnknownMethod)))
            } else {
                (
                    HttpReqV {
                        has_body: if s.dialect == Dialect::WebSocket || method_has_body(m) {
                            false
                        } else {
                            s.has_body
                        },
                        has_method: true,
                        buff: s.buff.subrange(e + 1, s.buff.len() as int),
                        ctx: CtxV { method: JsonV::Str(m), ..s.ctx },
                        ..s
                    },
                    StageOut::Next,
                )
            }
        },
    }
}

// ---------------------------------------------------------------------------
// Request target
// ---------------------------------------------------------------------------

/// `..` or a NUL byte: such a path is replaced by `_`.
pub open spec fn is_unsafe_path(p: Seq<u8>) -> bool {
    contains_seq(p, seq![46u8, 46u8]) || contains_seq(p, seq![0u8])
}

/// The path that a decoded target path is stored as.
pub open spec fn stored_path(d: Dialect, p: Seq<u8>) -> Seq<u8> {
    if d != Dialect::Http2 && is_unsafe_path(p) {
        "_".spec_bytes()
    } else {
        p
    }
}

/// Reading the target: up to the next space, at most 2048 bytes; the path
/// is percent-decoded, and (HTTP only) the query string is stored.
pub open spec fn path_step(s: HttpReqV) -> (HttpReqV, StageOut) {
    match byte_pos(s.buff, 32) {
        None => if s.buff.len() > 2048 {
            (clear_buff(s), StageOut::Fail(err(ErrorKind::InvalidData, Reason::UrlTooLong)))
        } else {
            (s, StageOut::Pending)
        },
        Some(e) => {
            if e > 2048 {
                (clear_buff(s), StageOut::Fail(err(ErrorKind::InvalidData, Reason::UrlTooLong)))
            } else {
                let loc = s.buff.subrange(0, e);
                let (path_enc, query) = match byte_pos(loc, 63) {
                    Some(q) => (loc.subrange(0, q), Some(loc.subrange(q + 1, loc.len() as int))),
                    None => (loc, None),
                };
                let p = percent_decode(path_enc);
                if !valid_utf8(p) {
                    (clear_buff(s), StageOut::Fail(err(ErrorKind::InvalidData, Reason::InvalidUtf8)))
                } else {
                    let sp = stored_path(s.dialect, p);
                    let s1 = HttpReqV {
                        path: if s.dialect == Dialect::WebSocket {
                            s.path
                        } else {
                            sp
                        },
                        ctx: CtxV { path: JsonV::Str(sp), ..s.ctx },
                        ..s
                    };
                    let done = HttpReqV {
                        has_path: true,
                        buff: s1.buff.subrange(e + 1, s1.buff.len() as int),
                        ..s1
                    };
                    match query {
                        Some(qs) if s.dialect != Dialect::WebSocket => match query_after(
                            s1.ctx.query,
                            s1.keys,
                            percent_decode(qs),
                        ) {
                            QueryOut::Stuck => (s1, StageOut::Panic),
                            QueryOut::Fail(t, k, e2, clear) => {
                                let s2 = HttpReqV { keys: k, ctx: CtxV { query: t, ..s1.ctx }, ..s1 };
                                (
                                    if clear {
                                        clear_buff(s2)
                                    } else {
                                        s2
                                    },
                                    StageOut::Fail(e2),
                                )
                            },
                            QueryOut::Done(t, k) => (
                                HttpReqV { keys: k, ctx: CtxV { query: t, ..s1.ctx }, ..done },
                                StageOut::Next,
                            ),
                        },
                        _ => (done, StageOut::Next),
                    }
                }
            }
        },
    }
}

// ---------------------------------------------------------------------------
// Protocol
// ---------------------------------------------------------------------------

pub open spec fn crlf() -> Seq<u8> {
    seq![13u8, 10u8]
}

pub open spec fn crlf2() -> Seq<u8> {
    seq![13u8, 10u8, 13u8, 10u8]
}

/// Reading the protocol: up to the line end, at most 12 bytes.
pub open spec fn protocol_step(s: HttpReqV) -> (HttpReqV, StageOut) {
    match seq_pos(s.buff, crlf()) {
        None => if s.buff.len() > 12 {
            (clear_buff(s), StageOut::Fail(err(ErrorKind::InvalidData, Reason::ProtocolTooLong)))
        } else {
            (s, StageOut::Pending)
        },
        Some(e) => if e > 12 {
            (clear_buff(s), StageOut::Fail(err(ErrorKind::InvalidData, Reason::ProtocolTooLong)))
        } else {
            (
                HttpReqV {
                    has_protocol: true,
                    buff: s.buff.subrange(e + 2, s.buff.len() as int),
                    ..s
                },
                StageOut::Next,
            )
        },
    }
}

// ---------------------------------------------------------------------------
// Header lines
// ---------------------------------------------------------------------------

/// What reading a header line comes to.
pub enum LineOut {
    Cont(HttpReqV),
    Fail(HttpReqV, ReqError),
    Panic,
}

/// `chunked`
pub open spec fn chunked() -> Seq<u8> {
    seq![99u8, 104u8, 117u8, 110u8, 107u8, 101u8, 100u8]
}

/// The content type after a `Content-Type` value: before a body is known
/// to follow, a value with `;` adds what precedes it and its boundary;
/// otherwise the whole value is added.
pub open spec fn content_type_after(s: HttpReqV, value: Seq<u8>) -> HttpReqV {
    match byte_pos(value, 59) {
        Some(pos) if !s.has_body => {
            let s1 = HttpReqV { content_type: s.content_type + value.subrange(0, pos), ..s };
            match boundary_of(value) {
                Some(b) => HttpReqV { boundary: b, endings: endings_of(b), ..s1 },
                None => s1,
            }
        },
        _ => HttpReqV { content_type: s.content_type + value, ..s },
    }
}

/// The client address announced by a handshake header, the first of
/// `X-Forwarded-For` (which always wins), `X-Real-IP`, `CF-Connecting-IP`,
/// `CF-Connecting-IPv6`.
pub open spec fn ip_after(ip: Option<Seq<u8>>, key: Seq<u8>, value: Seq<u8>) -> Option<Seq<u8>> {
    let ip1 = if key == "X-Forwarded-For".spec_bytes() {
        Some(value)
    } else {
        ip
    };
    let ip2 = if ip1 is None && key == "X-Real-IP".spec_bytes() {
        Some(value)
    } else {
        ip1
    };
    let ip3 = if ip2 is None && key == "CF-Connecting-IP".spec_bytes() {
        Some(value)
    } else {
        ip2
    };
    if ip3 is None && key == "CF-Connecting-IPv6".spec_bytes() {
        Some(value)
    } else {
        ip3
    }
}

/// Recording the header `key: value` (both trimmed).
#[verifier::opaque]
pub open spec fn header_entry(s: HttpReqV, key: Seq<u8>, value: Seq<u8>) -> LineOut {
    let s0 = if s.dialect == Dialect::WebSocket {
        HttpReqV { ip: ip_after(s.ip, key, value), ..s }
    } else {
        s
    };
    let s1 = HttpReqV {
        ctx: CtxV { headers: upsert(s0.ctx.headers, key, JsonV::Str(value)), ..s0.ctx },
        ..s0
    };
    if s.dialect == Dialect::Http1 && eq_ignore_case(key, "Transfer-Encoding".spec_bytes())
        && contains_seq(lower_seq(value), chunked()) {
        LineOut::Fail(s1, err(ErrorKind::InvalidData, Reason::ChunkedUnsupported))
    } else if eq_ignore_case(key, "Cookie".spec_bytes()) {
        match cookie_after(s1.ctx.cookie, value) {
            None => LineOut::Panic,
            Some(c) => LineOut::Cont(HttpReqV { ctx: CtxV { cookie: c, ..s1.ctx }, ..s1 }),
        }
    } else if s.dialect == Dialect::WebSocket {
        LineOut::Cont(s1)
    } else if eq_ignore_case(key, "Content-Type".spec_bytes()) {
        LineOut::Cont(content_type_after(s1, value))
    } else if eq_ignore_case(key, "Content-Length".spec_bytes()) {
        match parse_usize_spec(value) {
            None => LineOut::Fail(s1, err(ErrorKind::InvalidData, Reason::ContentLengthNotNumber)),
            Some(n) => LineOut::Cont(HttpReqV { content_length: n, ..s1 }),
        }
    } else {
        LineOut::Cont(s1)
    }
}

/// Reading one header line: lines without `:` are skipped; key and value
/// must be UTF-8 text and are trimmed.
#[verifier::opaque]
pub open spec fn line_step(s: HttpReqV, line: Seq<u8>) -> LineOut {
    match byte_pos(line, 58) {
        None => LineOut::Cont(s),
        Some(c) => {
            let kb = line.subrange(0, c);
            let vb = line.subrange(c + 1, line.len() as int);
            if !valid_utf8(kb) || !valid_utf8(vb) {
                LineOut::Fail(clear_buff(s), err(ErrorKind::InvalidData, Reason::InvalidUtf8))
            } else {
                header_entry(s, trim_bytes(kb), trim_bytes(vb))
            }
        },
    }
}

/// Reading the header lines of `s.buff` from `start`, the block ending at
/// `e` (where `\r\n\r\n` begins).
pub open spec fn headers_fold(s: HttpReqV, e: int, start: int) -> LineOut
    decreases e + 2 - start,
{
    if start < 0 || start >= e || e + 2 > s.buff.len() {
        LineOut::Cont(s)
    } else {
        let w = s.buff.subrange(start, e + 2);
        match seq_pos(w, crlf()) {
            None => LineOut::Cont(s),
            Some(pos) => {
                proof {
                    lemma_contains_iff_pos(w, crlf());
                }
                match line_step(s, s.buff.subrange(start, start + pos)) {
                    LineOut::Cont(t) => headers_fold(t, e, start + pos + 2),
                    other => other,
                }
            },
        }
    }
}

/// Recording a header leaves the buffer and the body's bookkeeping alone.
proof fn lemma_entry_keeps_buff(s: HttpReqV, key: Seq<u8>, value: Seq<u8>)
    ensures
        header_entry(s, key, value) matches LineOut::Cont(t) ==> t.buff == s.buff && body_same(s, t)
            && t.has_headers == s.has_headers,
        header_entry(s, key, value) matches LineOut::Fail(t, _) ==> body_same(s, t)
            && t.has_headers == s.has_headers,
{
    reveal(header_entry);
    let s0 = if s.dialect == Dialect::WebSocket {
        HttpReqV { ip: ip_after(s.ip, key, value), ..s }
    } else {
        s
    };
    let s1 = HttpReqV {
        ctx: CtxV { headers: upsert(s0.ctx.headers, key, JsonV::Str(value)), ..s0.ctx },
        ..s0
    };
    assert(s1.buff == s.buff && body_same(s, s1));
    assert(content_type_after(s1, value).buff == s.buff);
    assert(body_same(s, content_type_after(s1, value)));
}

/// A header line leaves the body's bookkeeping alone, and the buffer too
/// when reading goes on.
pub proof fn lemma_line_keeps_buff(s: HttpReqV, line: Seq<u8>)
    ensures
        line_step(s, line) matches LineOut::Cont(t) ==> t.buff == s.buff && body_same(s, t)
            && t.has_headers == s.has_headers,
        line_step(s, line) matches LineOut::Fail(t, _) ==> body_same(s, t)
            && t.has_headers == s.has_headers,
{
    reveal(line_step);
    match byte_pos(line, 58) {
        None => {},
        Some(c) => {
            let kb = line.subrange(0, c);
            let vb = line.subrange(c + 1, line.len() as int);
            lemma_entry_keeps_buff(s, trim_bytes(kb), trim_bytes(vb));
        },
    }
}

/// Header lines leave the body's bookkeeping alone.
pub proof fn lemma_headers_fold_keeps(s: HttpReqV, e: int, start: int)
    ensures
        headers_fold(s, e, start) matches LineOut::Cont(t) ==> t.buff == s.buff && body_same(s, t)
            && t.has_headers == s.has_headers,
        headers_fold(s, e, start) matches LineOut::Fail(t, _) ==> body_same(s, t)
            && t.has_headers == s.has_headers,
    decreases e + 2 - start,
{
    if start < 0 || start >= e || e + 2 > s.buff.len() {
    } else {
        let w = s.buff.subrange(start, e + 2);
        match seq_pos(w, crlf()) {
            None => {},
            Some(pos) => {
                lemma_contains_iff_pos(w, crlf());
                let line = s.buff.subrange(start, start + pos);
                lemma_line_keeps_buff(s, line);
                match line_step(s, line) {
                    LineOut::Cont(t) => lemma_headers_fold_keeps(t, e, start + pos + 2),
                    _ => {},
                }
            },
        }
    }
}

/// Reading the headers: up to `\r\n\r\n`, at most 8192 bytes.
pub open spec fn headers_step(s: HttpReqV) -> (HttpReqV, StageOut) {
    match seq_pos(s.buff, crlf2()) {
        None => if s.buff.len() > 8192 {
            (clear_buff(s), StageOut::Fail(err(ErrorKind::InvalidData, Reason::HeadersTooLarge)))
        } else {
            (s, StageOut::Pending)
        },
        Some(e) => if e > 8192 {
            (clear_buff(s), StageOut::Fail(err(ErrorKind::InvalidData, Reason::HeadersTooLarge)))
        } else {
            match headers_fold(s, e, 0) {
                LineOut::Cont(t) => (
                    HttpReqV {
                        has_headers: true,
                        buff: t.buff.subrange(e + 4, t.buff.len() as int),
                        ..t
                    },
                    StageOut::Next,
                ),
                LineOut::Fail(t, e2) => (t, StageOut::Fail(e2)),
                LineOut::Panic => (s, StageOut::Panic),
            }
        },
    }
}

// ---------------------------------------------------------------------------
// Bodies
// ---------------------------------------------------------------------------

/// `s` with the first `n` bytes of its buffer dropped.
pub open spec fn drop_front(s: HttpReqV, n: int) -> HttpReqV {
    HttpReqV { buff: s.buff.subrange(n, s.buff.len() as int), ..s }
}

/// `application/json` and `application/x-www-form-urlencoded` bodies may be
/// at most this long, in bytes: the fields limit, in megabytes.
pub open spec fn fields_cap(s: HttpReqV) -> int {
    mb(s.opts.max_fields_size_total_mb)
}

/// Reading an `application/json` body: once all of it is there, its text
/// is handed out to be parsed.
pub open spec fn json_step(s: HttpReqV) -> (HttpReqV, ReadOut) {
    if s.content_length > fields_cap(s) {
        (clear_buff(s), ReadOut::Fail(err(ErrorKind::InvalidData, Reason::FieldsTooLarge)))
    } else if s.buff.len() >= s.content_length {
        let text = s.buff.subrange(0, s.content_length as int);
        let s1 = HttpReqV { size: s.content_length, ..s };
        if valid_utf8(text) {
            (s1, ReadOut::ParseJson(text))
        } else {
            (
                HttpReqV { skip: 0, ..drop_front(s1, s.content_length as int) },
                ReadOut::Fail(err(ErrorKind::InvalidInput, Reason::InvalidUtf8)),
            )
        }
    } else {
        (s, ReadOut::Pending)
    }
}

/// A JSON body is waiting to be judged.
pub open spec fn json_waiting(s: HttpReqV) -> bool {
    &&& s.has_headers
    &&& !s.has_body
    &&& s.skip == 0
    &&& s.content_type == json_type()
    &&& s.size == s.content_length
    &&& s.buff.len() >= s.content_length
}

/// Judging the parsed JSON body (`None`: it did not parse). HTTP/1.1 also
/// wants an object.
pub open spec fn json_accept(s: HttpReqV, parsed: Option<JsonV>) -> (HttpReqV, ReadOut) {
    let dropped = HttpReqV { skip: 0, ..drop_front(s, s.content_length as int) };
    match parsed {
        Some(j) => if s.dialect != Dialect::Http1 || j is Object {
            (
                HttpReqV { has_body: true, ctx: CtxV { body: j, ..dropped.ctx }, ..dropped },
                ReadOut::Ready,
            )
        } else {
            (dropped, ReadOut::Fail(err(ErrorKind::InvalidInput, Reason::InvalidApplicationJson)))
        },
        None => (
            dropped,
            ReadOut::Fail(err(ErrorKind::InvalidInput, Reason::InvalidApplicationJson)),
        ),
    }
}

/// Reading an `application/x-www-form-urlencoded` body: once all of it is
/// there, it is percent-decoded and its pairs are stored (see
/// [`form_after`]).
pub open spec fn form_step(s: HttpReqV) -> (HttpReqV, ReadOut) {
    if s.content_length > fields_cap(s) {
        (clear_buff(s), ReadOut::Fail(err(ErrorKind::InvalidData, Reason::FieldsTooLarge)))
    } else if s.buff.len() >= s.content_length {
        let cl = s.content_length as int;
        let s1 = HttpReqV { size: s.content_length, ..s };
        let decoded = percent_decode(s.buff.subrange(0, cl));
        match form_after(s1.ctx.body, s1.keys, s1.body, decoded) {
            FormOut::Stuck => (s1, ReadOut::Panic),
            FormOut::BadUtf8(b, k, t) => (
                HttpReqV {
                    skip: 0,
                    ..drop_front(HttpReqV { keys: k, body: t, ctx: CtxV { body: b, ..s1.ctx }, ..s1 }, cl)
                },
                ReadOut::Fail(err(ErrorKind::InvalidInput, Reason::InvalidUtf8)),
            ),
            FormOut::NotArray(b, k, t) => (
                HttpReqV {
                    skip: s.content_length,
                    ..drop_front(HttpReqV { keys: k, body: t, ctx: CtxV { body: b, ..s1.ctx }, ..s1 }, cl)
                },
                ReadOut::Fail(err(ErrorKind::InvalidInput, Reason::InvalidFieldName)),
            ),
            FormOut::Done(b, k, t) => (
                HttpReqV {
                    has_body: true,
                    ..drop_front(HttpReqV { keys: k, body: t, ctx: CtxV { body: b, ..s1.ctx }, ..s1 }, cl)
                },
                ReadOut::Ready,
            ),
        }
    } else {
        (s, ReadOut::Pending)
    }
}

/// `application/json`
pub open spec fn json_type() -> Seq<u8> {
    "application/json".spec_bytes()
}

/// `application/x-www-form-urlencoded`
pub open spec fn form_type() -> Seq<u8> {
    "application/x-www-form-urlencoded".spec_bytes()
}

/// `multipart/form-data`
pub open spec fn multipart_type() -> Seq<u8> {
    "multipart/form-data".spec_bytes()
}

/// Reading the body, by its content type; a body of another type is not
/// read.
pub open spec fn body_step(s: HttpReqV, stamp: Seq<char>) -> (HttpReqV, ReadOut) {
    if s.size > s.content_length {
        (s, ReadOut::Fail(err(ErrorKind::InvalidData, Reason::BodyTooLarge)))
    } else if s.content_type == json_type() {
        json_step(s)
    } else if s.content_type == multipart_type() && s.boundary.len() > 0 {
        multipart_step(s, stamp)
    } else if s.content_type == form_type() {
        form_step(s)
    } else {
        (s, ReadOut::Ready)
    }
}

// ---------------------------------------------------------------------------
// multipart/form-data
// ---------------------------------------------------------------------------

/// `n` megabytes, in bytes.
pub open spec fn mb(n: usize) -> int {
    n * 1024 * 1024
}

/// The reason given when a multipart body outgrows its announced length
/// at a part boundary.
pub open spec fn part_too_large(d: Dialect) -> Reason {
    if d == Dialect::Http2 {
        Reason::BodyTooLargeShort
    } else {
        Reason::BodyTooLarge
    }
}

/// The refusal given after the first `n` buffered bytes are dropped: the
/// rest of the announced body is skipped.
pub open spec fn refuse_after(s: HttpReqV, n: int, e: ReqError) -> (HttpReqV, ReadOut) {
    (HttpReqV { skip: (s.content_length - s.size) as usize, ..drop_front(s, n) }, ReadOut::Fail(e))
}

/// `s` starts with `p`.
pub open spec fn has_prefix(s: Seq<u8>, p: Seq<u8>) -> bool {
    p.len() <= s.len() && s.subrange(0, p.len() as int) == p
}

/// `s` ends with `p`.
pub open spec fn has_suffix(s: Seq<u8>, p: Seq<u8>) -> bool {
    p.len() <= s.len() && s.subrange(s.len() - p.len(), s.len() as int) == p
}

/// What storing a field's text or a file's record comes to.
pub enum StoreOut {
    Stored(JsonV),
    NotArray(JsonV),
    Stuck,
}

/// Appends `item` to the array at `keys` in `t`.
pub open spec fn store_at(t: JsonV, keys: Seq<Seq<u8>>, item: JsonV) -> StoreOut {
    match push_at(t, keys, item) {
        PushOutcome::Pushed(t2) => StoreOut::Stored(t2),
        PushOutcome::NotArray(t2) => StoreOut::NotArray(t2),
        PushOutcome::Stuck => StoreOut::Stuck,
    }
}

/// Storing the field text read so far, unless it is blank.
pub open spec fn field_store(s: HttpReqV) -> StoreOut {
    if blank_text(s.body) {
        StoreOut::Stored(s.ctx.body)
    } else {
        store_at(s.ctx.body, s.keys, JsonV::Str(s.body))
    }
}

/// The record of a received file.
pub open spec fn file_record(s: HttpReqV) -> JsonV {
    JsonV::Object(
        seq![
            ("ext".spec_bytes(), JsonV::Str(opt_text(path_extension_of(decode_utf8(s.file_path))))),
            ("mime".spec_bytes(), JsonV::Str(s.file_mime)),
            ("name".spec_bytes(), JsonV::Str(opt_text(path_stem_of(decode_utf8(s.file_path))))),
            ("path".spec_bytes(), JsonV::Str(s.file_path)),
            ("real".spec_bytes(), JsonV::Str(s.file_real)),
            ("size".spec_bytes(), JsonV::Number(decimal(s.file_size as nat))),
        ],
    )
}

/// The UTF-8 bytes of an optional text; empty for `None`.
pub open spec fn opt_text(t: Option<Seq<char>>) -> Seq<u8> {
    match t {
        Some(c) => encode_utf8(c),
        None => seq![],
    }
}

/// Storing the record of the received file (nothing when the part named no
/// file).
pub open spec fn file_store(s: HttpReqV) -> StoreOut {
    if s.file_real.len() == 0 {
        StoreOut::Stored(s.ctx.files)
    } else {
        store_at(s.ctx.files, s.keys, file_record(s))
    }
}

/// One step of the multipart loop.
pub enum MpOut {
    /// Go on with this state.
    Next(HttpReqV),
    /// Stop with this state and outcome.
    Stop(HttpReqV, ReadOut),
}

/// The text before a boundary at `bs > 0` (the part's content and the line
/// end before the boundary): file content is handed out to be written,
/// field text is stored.
pub open spec fn chunk_step(s: HttpReqV, bs: int) -> MpOut {
    if s.size + bs >= s.content_length {
        MpOut::Stop(
            clear_buff(s),
            ReadOut::Fail(err(ErrorKind::InvalidData, part_too_large(s.dialect))),
        )
    } else if bs < 2 {
        MpOut::Stop(s, ReadOut::Panic)
    } else {
        let s1 = HttpReqV { size: (s.size + bs) as usize, ..s };
        let cl = bs - 2;
        let chunk = s.buff.subrange(0, cl);
        if s.is_write {
            if s.file_real.len() > 0 && !s.opts.allow_empty_files && cl == 0 {
                let (t, o) = refuse_after(s1, bs, err(ErrorKind::PermissionDenied, Reason::EmptyFile));
                MpOut::Stop(t, o)
            } else {
                let s2 = HttpReqV {
                    file_size: (s.file_size + cl) as usize,
                    files_size_total: (s.files_size_total + cl) as usize,
                    ..s1
                };
                if s2.file_size > mb(s.opts.max_file_size_mb) {
                    let (t, o) = refuse_after(s2, bs, err(ErrorKind::PermissionDenied, Reason::FileTooLarge));
                    MpOut::Stop(t, o)
                } else if s2.files_size_total > mb(s.opts.max_files_size_total_mb) {
                    let (t, o) = refuse_after(s2, bs, err(ErrorKind::PermissionDenied, Reason::FilesTooLarge));
                    MpOut::Stop(t, o)
                } else if s.file_real.len() > 0 {
                    MpOut::Stop(
                        HttpReqV { pending: Some(WriteAt::Chunk(bs as usize)), ..s2 },
                        ReadOut::Write(s.file_path, chunk),
                    )
                } else {
                    MpOut::Next(HttpReqV { is_write: false, ..drop_front(s2, bs) })
                }
            }
        } else {
            let s2 = HttpReqV { fields_size_total: (s.fields_size_total + cl) as usize, ..s1 };
            if s2.fields_size_total > mb(s.opts.max_fields_size_total_mb) {
                let (t, o) = refuse_after(s2, bs, err(ErrorKind::PermissionDenied, Reason::FieldsTooLarge));
                MpOut::Stop(t, o)
            } else if !valid_utf8(chunk) {
                let (t, o) = refuse_after(s2, bs, err(ErrorKind::InvalidInput, Reason::InvalidUtf8));
                MpOut::Stop(t, o)
            } else {
                let s3 = HttpReqV { body: s2.body + chunk, ..s2 };
                match field_store(s3) {
                    StoreOut::Stuck => MpOut::Stop(s3, ReadOut::Panic),
                    StoreOut::NotArray(b) => {
                        let (t, o) = refuse_after(
                            HttpReqV { ctx: CtxV { body: b, ..s3.ctx }, ..s3 },
                            bs,
                            err(ErrorKind::InvalidInput, Reason::InvalidFieldName),
                        );
                        MpOut::Stop(t, o)
                    },
                    StoreOut::Stored(b) => MpOut::Next(
                        drop_front(HttpReqV { ctx: CtxV { body: b, ..s3.ctx }, ..s3 }, bs),
                    ),
                }
            }
        }
    }
}

/// The file content before a boundary at `bs` was written (`None`) or not:
/// the file's record is stored and the loop goes on.
pub open spec fn chunk_written(s: HttpReqV, bs: int, failed: Option<ReqError>) -> MpOut {
    let s0 = HttpReqV { pending: None, ..s };
    match failed {
        Some(e) => {
            let (t, o) = refuse_after(s0, bs, e);
            MpOut::Stop(t, o)
        },
        None => match file_store(s0) {
            StoreOut::Stuck => MpOut::Stop(s0, ReadOut::Panic),
            StoreOut::NotArray(f) => {
                let (t, o) = refuse_after(
                    HttpReqV { ctx: CtxV { files: f, ..s0.ctx }, ..s0 },
                    bs,
                    err(ErrorKind::InvalidInput, Reason::InvalidFieldName),
                );
                MpOut::Stop(t, o)
            },
            StoreOut::Stored(f) => MpOut::Next(
                HttpReqV { is_write: false, ..drop_front(HttpReqV { ctx: CtxV { files: f, ..s0.ctx }, ..s0 }, bs) },
            ),
        },
    }
}

/// `--\r\n`
pub open spec fn closing_tail() -> Seq<u8> {
    seq![45u8, 45u8, 13u8, 10u8]
}

/// The buffer starts with the closing boundary (the boundary, then `--`
/// and a line end).
pub open spec fn at_closing(s: HttpReqV) -> bool {
    let bl = s.boundary.len() as int;
    has_prefix(s.buff, s.boundary) && has_prefix(s.buff.subrange(bl, s.buff.len() as int), closing_tail())
}

/// The closing boundary ends the body.
pub open spec fn closing_step(s: HttpReqV) -> (HttpReqV, ReadOut) {
    let bl = s.boundary.len() as int;
    if s.size + bl + 4 > s.content_length {
        (clear_buff(s), ReadOut::Fail(err(ErrorKind::InvalidData, Reason::BodyTooLarge)))
    } else {
        (
            HttpReqV { size: (s.size + bl + 4) as usize, has_body: true, ..drop_front(s, bl + 4) },
            ReadOut::Ready,
        )
    }
}

/// The header lines of a part lie between `be + 2` and `me + 2`, and the
/// empty line after them ends at `me + 4`: they are counted and read.
pub open spec fn meta_read(s: HttpReqV, be: int, me: int, stamp: Seq<char>) -> MpOut {
    if s.size + me + 4 >= s.content_length {
        MpOut::Stop(clear_buff(s), ReadOut::Fail(err(ErrorKind::InvalidData, Reason::BodyTooLarge)))
    } else {
        let s1 = HttpReqV { size: (s.size + me + 4) as usize, ..s };
        let meta = s.buff.subrange(be + 2, me + 2);
        match meta_fold(s1, meta, 0, stamp) {
            MetaOut::Done(t) => MpOut::Next(drop_front(t, me + 4)),
            MetaOut::Fail(t, e) => {
                let (t2, o) = refuse_after(t, me + 4, e);
                MpOut::Stop(t2, o)
            },
            MetaOut::Panic => MpOut::Stop(s1, ReadOut::Panic),
        }
    }
}

/// A part begins: its header lines, up to an empty line, are read (see
/// [`meta_read`]).
pub open spec fn meta_step(s: HttpReqV, stamp: Seq<char>) -> MpOut {
    match seq_pos(s.buff, crlf()) {
        None => MpOut::Stop(s, ReadOut::Pending),
        Some(be) => match seq_pos(s.buff.subrange(be + 2, s.buff.len() as int), crlf2()) {
            None => MpOut::Stop(s, ReadOut::Pending),
            Some(m) => meta_read(s, be, m + be + 2, stamp),
        },
    }
}

/// At a boundary at the start of the buffer: the closing boundary ends the
/// body; otherwise a part begins.
pub open spec fn part_step(s: HttpReqV, stamp: Seq<char>) -> MpOut {
    if at_closing(s) {
        let (t, o) = closing_step(s);
        MpOut::Stop(t, o)
    } else {
        meta_step(s, stamp)
    }
}

/// The longest suffix of `b`, no longer than `k`, that is a proper prefix of
/// `d`: its length.
pub open spec fn held_from(b: Seq<u8>, d: Seq<u8>, k: int) -> int
    decreases k,
{
    if k <= 0 {
        0
    } else if k <= b.len() && k < d.len() && b.subrange(b.len() - k, b.len() as int) == d.subrange(0, k) {
        k
    } else {
        held_from(b, d, k - 1)
    }
}

/// How many bytes at the end of the buffer may begin the next delimiter
/// (`\r\n` and the boundary): they are held back until more bytes come.
pub open spec fn held(s: HttpReqV) -> int {
    held_from(s.buff, crlf() + s.boundary, s.boundary.len() as int + 1)
}

pub proof fn lemma_held_from_bounds(b: Seq<u8>, d: Seq<u8>, k: int)
    ensures
        0 <= held_from(b, d, k) <= b.len(),
        k >= 0 ==> held_from(b, d, k) <= k,
    decreases k,
{
    if k > 0 && !(k <= b.len() && k < d.len() && b.subrange(b.len() - k, b.len() as int) == d.subrange(0, k)) {
        lemma_held_from_bounds(b, d, k - 1);
    }
}

/// What remains when no boundary is in the buffer, except the bytes held
/// back (see [`held`]): it is counted, and file content is handed out to
/// be written, field text kept.
pub open spec fn tail_step(s: HttpReqV) -> (HttpReqV, ReadOut) {
    let len = s.buff.len() - held(s);
    let part = s.buff.subrange(0, len);
    if len <= 0 {
        (s, ReadOut::Pending)
    } else if s.size + len >= s.content_length {
        (clear_buff(s), ReadOut::Fail(err(ErrorKind::InvalidData, Reason::BodyTooLarge)))
    } else {
        let s1 = HttpReqV { size: (s.size + len) as usize, ..s };
        if s.is_write {
            let s2 = HttpReqV { file_size: (s.file_size + len) as usize, ..s1 };
            if s2.file_size > mb(s.opts.max_file_size_mb) {
                (
                    HttpReqV { skip: (s2.content_length - s2.size) as usize, ..drop_front(s2, len) },
                    ReadOut::Fail(err(ErrorKind::PermissionDenied, Reason::FileTooLarge)),
                )
            } else {
                let s3 = HttpReqV { files_size_total: (s.files_size_total + len) as usize, ..s2 };
                if s3.files_size_total > mb(s.opts.max_files_size_total_mb) {
                    (
                        HttpReqV { skip: (s3.content_length - s3.size) as usize, ..drop_front(s3, len) },
                        ReadOut::Fail(err(ErrorKind::PermissionDenied, Reason::FilesTooLarge)),
                    )
                } else if s.file_real.len() > 0 {
                    (
                        HttpReqV { pending: Some(WriteAt::Tail(len as usize)), ..s3 },
                        ReadOut::Write(s.file_path, part),
                    )
                } else {
                    (drop_front(s3, len), ReadOut::Pending)
                }
            }
        } else {
            let s2 = HttpReqV { fields_size_total: (s.fields_size_total + len) as usize, ..s1 };
            if s2.fields_size_total > mb(s.opts.max_fields_size_total_mb) {
                (
                    HttpReqV { skip: (s2.content_length - s2.size) as usize, ..drop_front(s2, len) },
                    ReadOut::Fail(err(ErrorKind::PermissionDenied, Reason::FieldsTooLarge)),
                )
            } else if !valid_utf8(part) {
                (
                    HttpReqV { skip: (s2.content_length - s2.size) as usize, ..drop_front(s2, len) },
                    ReadOut::Fail(err(ErrorKind::InvalidInput, Reason::InvalidUtf8)),
                )
            } else {
                (drop_front(HttpReqV { body: s2.body + part, ..s2 }, len), ReadOut::Pending)
            }
        }
    }
}

/// The first `n` bytes of the buffer were written (`None`) or not.
pub open spec fn tail_written(s: HttpReqV, n: int, failed: Option<ReqError>) -> (HttpReqV, ReadOut) {
    match failed {
        Some(e) => (HttpReqV { pending: None, ..s }, ReadOut::Fail(e)),
        None => (HttpReqV { pending: None, ..drop_front(s, n) }, ReadOut::Pending),
    }
}

/// What reading a part's header lines comes to.
pub enum MetaOut {
    Done(HttpReqV),
    Fail(HttpReqV, ReqError),
    /// A field name leads through a value that is not an object, or names
    /// no member at all.
    Panic,
}

/// `Content-Disposition`
pub open spec fn disposition_name() -> Seq<u8> {
    "Content-Disposition".spec_bytes()
}

/// `Content-Type`
pub open spec fn part_type_name() -> Seq<u8> {
    "Content-Type".spec_bytes()
}

/// `name="`
pub open spec fn name_marker() -> Seq<u8> {
    seq![110u8, 97u8, 109u8, 101u8, 61u8, 34u8]
}

/// `filename="`
pub open spec fn filename_marker() -> Seq<u8> {
    seq![102u8, 105u8, 108u8, 101u8, 110u8, 97u8, 109u8, 101u8, 61u8, 34u8]
}

/// `: `
pub open spec fn colon_space() -> Seq<u8> {
    seq![58u8, 32u8]
}

/// `b` without the bytes `x` at its end.
pub open spec fn trim_end_byte(b: Seq<u8>, x: u8) -> Seq<u8>
    decreases b.len(),
{
    if b.len() > 0 && b.last() == x {
        trim_end_byte(b.drop_last(), x)
    } else {
        b
    }
}

/// An ASCII letter or digit.
pub open spec fn is_ascii_alnum(c: char) -> bool {
    ('0' <= c && c <= '9') || ('a' <= c && c <= 'z') || ('A' <= c && c <= 'Z')
}

/// A file extension made safe: every character that is not an ASCII letter
/// or digit becomes `_`.
pub open spec fn sanitized(e: Seq<char>) -> Seq<u8> {
    Seq::new(e.len(), |i: int| if is_ascii_alnum(e[i]) { e[i] as u8 } else { 95u8 })
}

/// Where a received file is stored: `<storage>/<stamp>`, with `.` and the
/// sanitized extension of the client's file name when extensions are kept
/// and that is not empty.
pub open spec fn file_path_for(o: BodyOpts, stamp: Seq<char>, given: Seq<u8>) -> Seq<u8> {
    let base = trim_end_byte(encode_utf8(o.storage_path@), 47) + seq![47u8] + encode_utf8(stamp);
    let ext = match path_extension_of(decode_utf8(given)) {
        Some(e) => sanitized(e),
        None => seq![],
    };
    if o.keep_extensions && ext.len() > 0 {
        base + seq![46u8] + ext
    } else {
        base
    }
}

/// Removing trailing `/` keeps text well-formed.
proof fn lemma_trim_slash_valid(b: Seq<u8>)
    requires
        valid_utf8(b),
    ensures
        valid_utf8(trim_end_byte(b, 47)),
    decreases b.len(),
{
    if b.len() > 0 && b.last() == 47 {
        let i = b.len() - 1;
        assert(!is_continuation_byte(b[i]));
        is_char_boundary_iff_not_is_continuation_byte(b, i);
        valid_utf8_split(b, i);
        assert(b.subrange(0, i) =~= b.drop_last());
        lemma_trim_slash_valid(b.drop_last());
    }
}

/// Storage paths are well-formed text.
pub proof fn lemma_file_path_valid(o: BodyOpts, stamp: Seq<char>, given: Seq<u8>)
    ensures
        valid_utf8(file_path_for(o, stamp, given)),
{
    encode_utf8_valid_utf8(o.storage_path@);
    encode_utf8_valid_utf8(stamp);
    let t = trim_end_byte(encode_utf8(o.storage_path@), 47);
    lemma_trim_slash_valid(encode_utf8(o.storage_path@));
    lemma_ascii_valid_utf8(seq![47u8]);
    lemma_ascii_valid_utf8(seq![46u8]);
    valid_utf8_concat(t, seq![47u8]);
    valid_utf8_concat(t + seq![47u8], encode_utf8(stamp));
    let base = t + seq![47u8] + encode_utf8(stamp);
    match path_extension_of(decode_utf8(given)) {
        Some(e) => {
            let x = sanitized(e);
            assert forall|i: int| 0 <= i < x.len() implies x[i] < 128 by {
                if is_ascii_alnum(e[i]) {
                    assert(x[i] == e[i] as u8);
                }
            }
            lemma_ascii_valid_utf8(x);
            valid_utf8_concat(base, seq![46u8]);
            valid_utf8_concat(base + seq![46u8], x);
        },
        None => {},
    }
}

/// Builds the storage path of a received file (see [`file_path_for`]).
fn file_path_exec(o: &BodyOpts, stamp: &String, given: &str) -> (r: Vec<u8>)
    ensures
        r@ == file_path_for(*o, stamp@, given.spec_bytes()),
{
    let storage = o.storage_path.as_str().as_bytes();
    let mut n: usize = storage.len();
    assert(storage@.subrange(0, storage@.len() as int) =~= storage@);
    while n > 0 && storage[n - 1] == 47u8
        invariant
            n <= storage@.len(),
            trim_end_byte(storage@.subrange(0, n as int), 47) == trim_end_byte(storage@, 47),
        decreases n,
    {
        assert(storage@.subrange(0, n - 1) =~= storage@.subrange(0, n as int).drop_last());
        n = n - 1;
    }
    let mut r = copy_range(storage, 0, n);
    r.push(47u8);
    let sb = stamp.as_str().as_bytes();
    r.extend_from_slice(sb);
    let ghost base = r@;
    proof {
        encode_utf8_decode_utf8(given@);
    }
    let ext: Vec<u8> = match path_extension(given) {
        Some(e) => {
            let es = e.as_str();
            let len = es.unicode_len();
            let mut x: Vec<u8> = Vec::new();
            let mut i: usize = 0;
            while i < len
                invariant
                    i <= len,
                    len == es@.len(),
                    x@.len() == i,
                    forall|k: int| 0 <= k < i ==> x@[k] == sanitized(es@)[k],
                decreases len - i,
            {
                let c = es.get_char(i);
                let b: u8 = if ('0' <= c && c <= '9') || ('a' <= c && c <= 'z') || ('A' <= c && c <= 'Z') {
                    c as u8
                } else {
                    95u8
                };
                x.push(b);
                i = i + 1;
            }
            assert(x@ =~= sanitized(es@));
            x
        },
        None => Vec::new(),
    };
    if o.keep_extensions && ext.len() > 0 {
        r.push(46u8);
        r.extend_from_slice(ext.as_slice());
    }
    proof {
        assert(base =~= trim_end_byte(encode_utf8(o.storage_path@), 47) + seq![47u8] + encode_utf8(
            stamp@,
        ));
        if o.keep_extensions && ext@.len() > 0 {
            assert(r@ =~= base + seq![46u8] + ext@);
        }
    }
    r
}

/// The names of a field or file path to `pattern` are created in the body
/// (or the files) tree and kept.
pub open spec fn keys_set(s: HttpReqV, pattern: Seq<u8>, in_files: bool) -> MetaOut {
    let ks = pattern_keys(pattern);
    let tree = if in_files {
        s.ctx.files
    } else {
        s.ctx.body
    };
    match ensure_path(tree, ks) {
        None => MetaOut::Panic,
        Some(t) => MetaOut::Done(
            if in_files {
                HttpReqV { keys: ks, ctx: CtxV { files: t, ..s.ctx }, ..s }
            } else {
                HttpReqV { keys: ks, ctx: CtxV { body: t, ..s.ctx }, ..s }
            },
        ),
    }
}

/// A `Content-Disposition` line of a part: the field's name (and file
/// name) are checked and counted; a file gets its storage path.
#[verifier::opaque]
pub open spec fn disposition_meta(s: HttpReqV, header: Seq<u8>, stamp: Seq<char>) -> MetaOut {
    let bad = err(ErrorKind::InvalidInput, Reason::InvalidContentDisposition);
    match seq_pos(header, name_marker()) {
        None => MetaOut::Fail(s, bad),
        Some(ns) => match byte_pos(header.subrange(ns + 6, header.len() as int), 34) {
            None => MetaOut::Fail(s, bad),
            Some(q) => {
                let ne = q + ns + 6;
                if ne - ns + 6 > 2048 {
                    MetaOut::Fail(s, err(ErrorKind::InvalidInput, Reason::FieldNameTooLong))
                } else {
                    let s1 = HttpReqV { fields: (s.fields + 1) as usize, ..s };
                    let pattern = header.subrange(ns + 6, ne);
                    if s1.fields > s.opts.max_fields {
                        MetaOut::Fail(s1, err(ErrorKind::PermissionDenied, Reason::TooManyFields))
                    } else if !valid_utf8(pattern) {
                        MetaOut::Fail(s1, err(ErrorKind::InvalidInput, Reason::InvalidUtf8))
                    } else {
                        let s2 = HttpReqV { body: seq![], ..s1 };
                        match seq_pos(header, filename_marker()) {
                            None => keys_set(s2, pattern, false),
                            Some(fs) => match byte_pos(header.subrange(fs + 10, header.len() as int), 34) {
                                None => MetaOut::Fail(
                                    s2,
                                    err(ErrorKind::InvalidInput, Reason::InvalidFilename),
                                ),
                                Some(q2) => {
                                    let fe = q2 + fs + 10;
                                    let fname = header.subrange(fs + 10, fe);
                                    if fe - fs + 10 > 255 {
                                        MetaOut::Fail(s2, err(ErrorKind::InvalidInput, Reason::FilenameTooLong))
                                    } else if !valid_utf8(fname) {
                                        MetaOut::Fail(s2, err(ErrorKind::InvalidInput, Reason::InvalidUtf8))
                                    } else {
                                        let s3 = HttpReqV { files: (s2.files + 1) as usize, ..s2 };
                                        if s3.files > s.opts.max_files {
                                            MetaOut::Fail(s3, err(ErrorKind::PermissionDenied, Reason::TooManyFiles))
                                        } else {
                                            keys_set(
                                                HttpReqV {
                                                    file_real: fname,
                                                    file_path: file_path_for(s.opts, stamp, fname),
                                                    file_size: 0,
                                                    is_write: true,
                                                    ..s3
                                                },
                                                pattern,
                                                true,
                                            )
                                        }
                                    }
                                },
                            },
                        }
                    }
                }
            },
        },
    }
}

/// One header line of a part: `Content-Disposition` and `Content-Type`
/// are read, others skipped.
#[verifier::opaque]
pub open spec fn header_meta(s: HttpReqV, header: Seq<u8>, stamp: Seq<char>) -> MetaOut {
    if has_prefix(header, disposition_name()) {
        disposition_meta(s, header, stamp)
    } else if has_prefix(header, part_type_name()) {
        match seq_pos(header, colon_space()) {
            None => MetaOut::Fail(s, err(ErrorKind::InvalidInput, Reason::InvalidPartContentType)),
            Some(ms) => {
                let mime = header.subrange(ms + 2, header.len() as int);
                if !valid_utf8(mime) {
                    MetaOut::Fail(s, err(ErrorKind::InvalidInput, Reason::InvalidUtf8))
                } else {
                    MetaOut::Done(HttpReqV { file_mime: mime, ..s })
                }
            },
        }
    } else {
        MetaOut::Done(s)
    }
}

/// Reading the header lines `meta[start..]` of a part, each ended by
/// `\r\n`.
pub open spec fn meta_fold(s: HttpReqV, meta: Seq<u8>, start: int, stamp: Seq<char>) -> MetaOut
    decreases meta.len() - start,
{
    if start < 0 || start > meta.len() {
        MetaOut::Done(s)
    } else {
        let w = meta.subrange(start, meta.len() as int);
        match seq_pos(w, crlf()) {
            None => MetaOut::Done(s),
            Some(pos) => {
                proof {
                    lemma_contains_iff_pos(w, crlf());
                }
                match header_meta(s, meta.subrange(start, start + pos), stamp) {
                    MetaOut::Done(t) => meta_fold(t, meta, start + pos + 2, stamp),
                    other => other,
                }
            },
        }
    }
}

/// Reading a part's header lines changes only the field and file
/// bookkeeping, and keeps it sound.
pub open spec fn meta_keeps(a: HttpReqV, b: HttpReqV) -> bool {
    &&& b.dialect == a.dialect
    &&& b.opts == a.opts
    &&& b.buff == a.buff
    &&& b.size == a.size
    &&& b.skip == a.skip
    &&& b.content_length == a.content_length
    &&& b.has_headers == a.has_headers
    &&& b.has_body == a.has_body
    &&& b.boundary == a.boundary
    &&& b.endings == a.endings
    &&& b.fields_size_total == a.fields_size_total
    &&& b.files_size_total == a.files_size_total
    &&& b.file_size <= a.file_size
    &&& b.pending == a.pending
    &&& b.fields >= a.fields
    &&& (a.files <= a.fields ==> b.files <= b.fields)
    &&& (valid_utf8(a.body) ==> valid_utf8(b.body))
    &&& (valid_utf8(a.file_path) ==> valid_utf8(b.file_path))
}

/// Reading a part's header lines keeps what a reader keeps true.
proof fn lemma_meta_inv(s: HttpReqV, s1: HttpReqV, t: HttpReqV, ml: int, me: int)
    requires
        req_inv(s),
        s.has_headers,
        s.pending is None,
        s1 == (HttpReqV { size: (s.size + me + 4) as usize, ..s }),
        s.size + me + 4 < s.content_length,
        0 <= ml <= me,
        meta_keeps(s1, t),
        t.fields <= s1.fields + ml,
        me + 4 <= t.buff.len(),
    ensures
        req_inv(drop_front(t, me + 4)),
        req_inv(HttpReqV { skip: (t.content_length - t.size) as usize, ..drop_front(t, me + 4) }),
{
}

/// One turn of the multipart loop: the text before the next boundary, the
/// boundary itself, or what remains when there is none.
pub open spec fn mp_turn(s: HttpReqV, stamp: Seq<char>) -> MpOut {
    match seq_pos(s.buff, s.boundary) {
        None => {
            let (t, o) = tail_step(s);
            MpOut::Stop(t, o)
        },
        Some(bs) => if bs > 0 {
            chunk_step(s, bs)
        } else {
            part_step(s, stamp)
        },
    }
}

/// A turn that goes on keeps the head and the boundary, and hands out no
/// write.
pub proof fn lemma_turn_keeps(s: HttpReqV, stamp: Seq<char>)
    requires
        s.pending is None,
    ensures
        mp_turn(s, stamp) matches MpOut::Next(t) ==> t.has_headers == s.has_headers && t.pending
            is None && t.boundary == s.boundary,
{
    match seq_pos(s.buff, s.boundary) {
        None => {},
        Some(bs) => if bs > 0 {
        } else if !at_closing(s) {
            match seq_pos(s.buff, crlf()) {
                None => {},
                Some(be) => match seq_pos(s.buff.subrange(be + 2, s.buff.len() as int), crlf2()) {
                    None => {},
                    Some(m) => {
                        let me = m + be + 2;
                        if s.size + me + 4 < s.content_length {
                            let s1 = HttpReqV { size: (s.size + me + 4) as usize, ..s };
                            let meta = s.buff.subrange(be + 2, me + 2);
                            lemma_meta_fold_keeps(s1, meta, 0, stamp);
                        }
                    },
                },
            }
        },
    }
}

/// Reading header lines keeps the head, the boundary and the write state.
pub proof fn lemma_meta_fold_keeps(s: HttpReqV, meta: Seq<u8>, start: int, stamp: Seq<char>)
    ensures
        meta_fold(s, meta, start, stamp) matches MetaOut::Done(t) ==> t.has_headers == s.has_headers
            && t.pending == s.pending && t.boundary == s.boundary,
    decreases meta.len() - start,
{
    if start < 0 || start > meta.len() {
    } else {
        let w = meta.subrange(start, meta.len() as int);
        match seq_pos(w, crlf()) {
            None => {},
            Some(pos) => {
                lemma_contains_iff_pos(w, crlf());
                lemma_header_meta_keeps(s, meta.subrange(start, start + pos), stamp);
                match header_meta(s, meta.subrange(start, start + pos), stamp) {
                    MetaOut::Done(t) => lemma_meta_fold_keeps(t, meta, start + pos + 2, stamp),
                    _ => {},
                }
            },
        }
    }
}

proof fn lemma_header_meta_keeps(s: HttpReqV, header: Seq<u8>, stamp: Seq<char>)
    ensures
        header_meta(s, header, stamp) matches MetaOut::Done(t) ==> t.has_headers == s.has_headers
            && t.pending == s.pending && t.boundary == s.boundary,
{
    reveal(header_meta);
    reveal(disposition_meta);
}

/// The multipart loop: turns until one stops. Every turn that goes on
/// shortens the buffer.
pub open spec fn mp_loop(s: HttpReqV, stamp: Seq<char>) -> (HttpReqV, ReadOut)
    decreases s.buff.len(),
{
    match mp_turn(s, stamp) {
        MpOut::Stop(t, o) => (t, o),
        MpOut::Next(t) => if t.buff.len() < s.buff.len() {
            mp_loop(t, stamp)
        } else {
            (t, ReadOut::Pending)
        },
    }
}

/// Reading a `multipart/form-data` body: nothing is done while the buffer
/// ends with a proper prefix of the boundary (it may be cut there).
pub open spec fn multipart_step(s: HttpReqV, stamp: Seq<char>) -> (HttpReqV, ReadOut) {
    if exists|k: int| 0 <= k < s.endings.len() && has_suffix(s.buff, #[trigger] s.endings[k]) {
        (s, ReadOut::Pending)
    } else {
        mp_loop(s, stamp)
    }
}

/// The answer to a handed-out file write (`None`: written).
pub open spec fn write_step(s: HttpReqV, failed: Option<ReqError>, stamp: Seq<char>) -> (HttpReqV, ReadOut) {
    match s.pending {
        Some(WriteAt::Chunk(bs)) => match chunk_written(s, bs as int, failed) {
            MpOut::Stop(t, o) => (t, o),
            MpOut::Next(t) => mp_loop(t, stamp),
        },
        Some(WriteAt::Tail(n)) => tail_written(s, n as int, failed),
        None => (s, ReadOut::Pending),
    }
}

/// A head stage, run when its flag is not yet set.
pub open spec fn stage_if(done: bool, s: HttpReqV, step: (HttpReqV, StageOut)) -> (HttpReqV, StageOut) {
    if done {
        (s, StageOut::Next)
    } else {
        step
    }
}

/// Reading the head: method, target, protocol, headers, each once.
pub open spec fn head_step(s: HttpReqV) -> (HttpReqV, StageOut) {
    let (s1, o1) = stage_if(s.has_method, s, method_step(s));
    if !(o1 is Next) {
        (s1, o1)
    } else {
        let (s2, o2) = stage_if(s1.has_path, s1, path_step(s1));
        if !(o2 is Next) {
            (s2, o2)
        } else {
            let (s3, o3) = stage_if(s2.has_protocol, s2, protocol_step(s2));
            if !(o3 is Next) {
                (s3, o3)
            } else {
                stage_if(s3.has_headers, s3, headers_step(s3))
            }
        }
    }
}

/// What a reader keeps true survives a change that leaves the body's
/// bookkeeping alone, if the announced length and the end of the head stay
/// or nothing of the body was counted yet.
pub proof fn lemma_inv_transfer(a: HttpReqV, b: HttpReqV)
    requires
        req_inv(a),
        a.pending is None,
        body_same(a, b),
        a.size == 0 || (b.content_length == a.content_length && b.has_headers == a.has_headers),
    ensures
        req_inv(b),
{
}

/// The head stages leave the body's bookkeeping alone, and only the
/// headers stage changes the announced length or ends the head.
pub proof fn lemma_head_inv(s: HttpReqV)
    requires
        req_inv(s),
        s.pending is None,
        !(head_step(s).1 is Panic),
    ensures
        req_inv(head_step(s).0),
        head_step(s).0.pending is None,
        head_step(s).1 is Next ==> head_step(s).0.has_headers,
{
    let (s1, o1) = stage_if(s.has_method, s, method_step(s));
    assert(body_same(s, s1) && s1.content_length == s.content_length && s1.has_headers == s.has_headers);
    lemma_inv_transfer(s, s1);
    if o1 is Next {
        let (s2, o2) = stage_if(s1.has_path, s1, path_step(s1));
        if !(o2 is Panic) {
            assert(body_same(s1, s2) && s2.content_length == s1.content_length && s2.has_headers
                == s1.has_headers);
            lemma_inv_transfer(s1, s2);
            if o2 is Next {
                let (s3, o3) = stage_if(s2.has_protocol, s2, protocol_step(s2));
                assert(body_same(s2, s3) && s3.content_length == s2.content_length && s3.has_headers
                    == s2.has_headers);
                lemma_inv_transfer(s2, s3);
                if o3 is Next && !s3.has_headers {
                    match seq_pos(s3.buff, crlf2()) {
                        None => {},
                        Some(e) => if e <= 8192 {
                            lemma_headers_fold_keeps(s3, e, 0);
                        },
                    }
                    let (s4, o4) = headers_step(s3);
                    assert(body_same(s3, s4));
                    lemma_inv_transfer(s3, s4);
                }
            }
        }
    }
}

/// Reading the head keeps the dialect, and a complete head has its
/// headers.
pub proof fn lemma_head_shape(s: HttpReqV)
    ensures
        head_step(s).0.dialect == s.dialect,
        head_step(s).1 is Next ==> head_step(s).0.has_headers,
        !(head_step(s).1 is Next) ==> head_step(s).0.has_headers == s.has_headers,
{
    let (s1, o1) = stage_if(s.has_method, s, method_step(s));
    if o1 is Next {
        let (s2, o2) = stage_if(s1.has_path, s1, path_step(s1));
        if o2 is Next {
            let (s3, o3) = stage_if(s2.has_protocol, s2, protocol_step(s2));
            if o3 is Next && !s3.has_headers {
                match seq_pos(s3.buff, crlf2()) {
                    None => {},
                    Some(e) => if e <= 8192 {
                        lemma_headers_fold_keeps(s3, e, 0);
                    },
                }
            }
        }
    }
}

/// The field text that storing a form body leaves is text.
pub proof fn lemma_form_text_valid(
    b: JsonV,
    keys: Seq<Seq<u8>>,
    text: Seq<u8>,
    pairs: Seq<Seq<u8>>,
    k: int,
)
    requires
        valid_utf8(text),
    ensures
        form_fold(b, keys, text, pairs, k) matches FormOut::Done(_, _, t) ==> valid_utf8(t),
        form_fold(b, keys, text, pairs, k) matches FormOut::BadUtf8(_, _, t) ==> valid_utf8(t),
        form_fold(b, keys, text, pairs, k) matches FormOut::NotArray(_, _, t) ==> valid_utf8(t),
    decreases pairs.len() - k,
{
    if k < 0 || k >= pairs.len() {
    } else {
        match form_pair(b, keys, text, pairs[k]) {
            PairOut::Next(b1, k1, t1) => lemma_form_text_valid(b1, k1, t1, pairs, k + 1),
            PairOut::End(_) => {},
        }
    }
}

/// How a handed-out file write went.
#[derive(PartialEq, Eq, Structural, Clone, Copy)]
pub enum WriteOutcome {
    Written,
    /// The file could not be opened for appending.
    OpenFailed,
    /// The bytes could not be written.
    WriteFailed,
}

/// The refusal that a failed write brings.
pub open spec fn write_failure(w: WriteOutcome) -> Option<ReqError> {
    match w {
        WriteOutcome::Written => None,
        WriteOutcome::OpenFailed => Some(err(ErrorKind::PermissionDenied, Reason::FileSaveError)),
        WriteOutcome::WriteFailed => Some(err(ErrorKind::WriteZero, Reason::FileWriteError)),
    }
}

/// A head stage's outcome as a read outcome (`Next` is not one).
pub open spec fn stage_read(o: StageOut) -> ReadOut {
    match o {
        StageOut::Next => ReadOut::Ready,
        StageOut::Pending => ReadOut::Pending,
        StageOut::Fail(e) => ReadOut::Fail(e),
        StageOut::Panic => ReadOut::Panic,
    }
}

/// One reading step of an HTTP request: bytes left over from a refused
/// body are dropped first; then the head, then the body. `stamp` names the
/// files that the body brings.
pub open spec fn req_step(s: HttpReqV, stamp: Seq<char>) -> (HttpReqV, ReadOut) {
    if s.skip > 0 {
        if s.buff.len() >= s.skip {
            (HttpReqV { skip: 0, ..drop_front(s, s.skip as int) }, ReadOut::Ready)
        } else {
            (HttpReqV { buff: seq![], skip: (s.skip - s.buff.len()) as usize, ..s }, ReadOut::Pending)
        }
    } else {
        let (h, o) = head_step(s);
        if !(o is Next) {
            (h, stage_read(o))
        } else if !h.has_body {
            body_step(h, stamp)
        } else {
            (h, ReadOut::Ready)
        }
    }
}

/// One call of a reader's `read_block`: a step of [`req_step`], where a
/// JSON body that it hands out is parsed at once (see [`json_parse_of`])
/// and judged (see [`json_accept`]).
pub open spec fn read_step(s: HttpReqV, stamp: Seq<char>) -> (HttpReqV, ReadOut) {
    match req_step(s, stamp) {
        (t, ReadOut::ParseJson(text)) => json_accept(t, json_parse_of(text)),
        other => other,
    }
}

/// A turn of the multipart loop hands out no JSON text.
proof fn lemma_turn_no_text(s: HttpReqV, stamp: Seq<char>)
    ensures
        !(mp_turn(s, stamp) matches MpOut::Stop(_, o) && o is ParseJson),
{
}

/// The multipart loop hands out no JSON text.
pub(crate) proof fn lemma_loop_no_text(s: HttpReqV, stamp: Seq<char>)
    ensures
        !(mp_loop(s, stamp).1 is ParseJson),
    decreases s.buff.len(),
{
    lemma_turn_no_text(s, stamp);
    match mp_turn(s, stamp) {
        MpOut::Stop(t, o) => {},
        MpOut::Next(t) => if t.buff.len() < s.buff.len() {
            lemma_loop_no_text(t, stamp);
        },
    }
}

/// A step that hands out a JSON body leaves its reader waiting for the
/// judgement, with nothing handed out to be written.
pub proof fn lemma_parse_waits(s: HttpReqV, stamp: Seq<char>)
    requires
        s.pending is None,
        req_step(s, stamp).1 is ParseJson,
    ensures
        json_waiting(req_step(s, stamp).0),
        req_step(s, stamp).0.pending is None,
        req_step(s, stamp).1->ParseJson_0 == req_step(s, stamp).0.buff.subrange(
            0,
            req_step(s, stamp).0.content_length as int,
        ),
{
    lemma_head_shape(s);
    crate::settings::lemma_head_same(s);
    let h = head_step(s).0;
    lemma_loop_no_text(h, stamp);
}

/// What a reader keeps true: body bytes are counted once, against the
/// announced length, and the counters of fields and files stay below them;
/// the field text and the storage path are text; a handed-out write of
/// the content before a boundary lies within the buffer.
pub open spec fn req_inv(s: HttpReqV) -> bool {
    &&& body_opts_ok(s.opts)
    &&& s.size <= s.content_length
    &&& !s.has_headers ==> s.size == 0
    &&& s.files <= s.fields
    &&& s.fields <= s.size
    &&& s.fields_size_total + s.files_size_total <= s.size
    &&& s.file_size <= s.size
    &&& valid_utf8(s.body)
    &&& valid_utf8(s.file_path)
    &&& s.pending matches Some(WriteAt::Chunk(bs)) ==> 2 <= bs <= s.buff.len()
    &&& s.pending matches Some(WriteAt::Tail(n)) ==> n <= s.buff.len()
}

// ---------------------------------------------------------------------------
// The reader
// ---------------------------------------------------------------------------

/// Reads request heads (and keeps what their bodies need).
pub struct HttpReq {
    pub(crate) dialect: Dialect,
    pub(crate) has_body: bool,
    pub(crate) has_headers: bool,
    pub(crate) has_method: bool,
    pub(crate) has_path: bool,
    pub(crate) has_protocol: bool,
    pub(crate) path: Vec<u8>,
    pub(crate) buff: Vec<u8>,
    pub(crate) content_type: Vec<u8>,
    pub(crate) content_length: usize,
    pub(crate) boundary: Vec<u8>,
    pub(crate) endings: Vec<Vec<u8>>,
    pub(crate) keys: Vec<Vec<u8>>,
    pub(crate) ip: Option<Vec<u8>>,
    pub(crate) ctx: RequestCtx,
    pub(crate) opts: BodyOpts,
    pub(crate) size: usize,
    pub(crate) skip: usize,
    pub(crate) body: Vec<u8>,
    pub(crate) fields: usize,
    pub(crate) fields_size_total: usize,
    pub(crate) files: usize,
    pub(crate) files_size_total: usize,
    pub(crate) file_size: usize,
    pub(crate) file_mime: Vec<u8>,
    pub(crate) file_path: Vec<u8>,
    pub(crate) file_real: Vec<u8>,
    pub(crate) is_write: bool,
    pub(crate) pending: Option<WriteAt>,
}

/// The context of a fresh request of this dialect.
pub open spec fn fresh_req_ctx(d: Dialect) -> CtxV {
    let get = JsonV::Str("GET".spec_bytes());
    let root = JsonV::Str("/".spec_bytes());
    match d {
        Dialect::Http1 => fresh_ctx(
            Some(JsonV::Null),
            get,
            root,
            "HTTP/1.1".spec_bytes(),
            JsonV::Str("_".spec_bytes()),
        ),
        Dialect::Http2 => fresh_ctx(None, get, root, "HTTP/2.0".spec_bytes(), JsonV::Null),
        Dialect::WebSocket => fresh_ctx(
            Some(JsonV::Null),
            get,
            root,
            "WebSocket".spec_bytes(),
            JsonV::Str("_".spec_bytes()),
        ),
    }
}

/// A fresh reader: nothing read, nothing buffered. An HTTP request is
/// taken to have no body until its method says otherwise.
pub open spec fn fresh_req(d: Dialect, opts: BodyOpts) -> HttpReqV {
    HttpReqV {
        dialect: d,
        has_body: d != Dialect::WebSocket,
        has_headers: false,
        has_method: false,
        has_path: false,
        has_protocol: false,
        path: seq![],
        buff: seq![],
        content_type: seq![],
        content_length: 0,
        boundary: seq![],
        endings: seq![],
        keys: seq![],
        ip: None,
        ctx: fresh_req_ctx(d),
        opts,
        size: 0,
        skip: 0,
        body: seq![],
        fields: 0,
        fields_size_total: 0,
        files: 0,
        files_size_total: 0,
        file_size: 0,
        file_mime: seq![],
        file_path: seq![],
        file_real: seq![],
        is_write: false,
        pending: None,
    }
}

impl HttpReq {
    pub closed spec fn view(&self) -> HttpReqV {
        HttpReqV {
            dialect: self.dialect,
            has_body: self.has_body,
            has_headers: self.has_headers,
            has_method: self.has_method,
            has_path: self.has_path,
            has_protocol: self.has_protocol,
            path: self.path@,
            buff: self.buff@,
            content_type: self.content_type@,
            content_length: self.content_length,
            boundary: self.boundary@,
            endings: pieces_view(self.endings@),
            keys: pieces_view(self.keys@),
            ip: match self.ip {
                Some(v) => Some(v@),
                None => None,
            },
            ctx: self.ctx@,
            opts: self.opts,
            size: self.size,
            skip: self.skip,
            body: self.body@,
            fields: self.fields,
            fields_size_total: self.fields_size_total,
            files: self.files,
            files_size_total: self.files_size_total,
            file_size: self.file_size,
            file_mime: self.file_mime@,
            file_path: self.file_path@,
            file_real: self.file_real@,
            is_write: self.is_write,
            pending: self.pending,
        }
    }

    /// The settings it reads bodies under.
    pub closed spec fn body_opts(&self) -> BodyOpts {
        self.opts
    }

    fn fresh_ctx_exec(d: Dialect) -> (r: RequestCtx)
        ensures
            r@ == fresh_req_ctx(d),
    {
        match d {
            Dialect::Http1 => make_ctx(Some(Json::Null), str_json("GET"), str_json("/"), "HTTP/1.1", str_json("_")),
            Dialect::Http2 => make_ctx(None, str_json("GET"), str_json("/"), "HTTP/2.0", Json::Null),
            Dialect::WebSocket => make_ctx(Some(Json::Null), str_json("GET"), str_json("/"), "WebSocket", str_json("_")),
        }
    }

    /// A fresh reader (see [`fresh_req`]).
    pub fn new(d: Dialect, opts: BodyOpts) -> (r: HttpReq)
        ensures
            r@ == fresh_req(d, opts),
    {
        let r = HttpReq {
            dialect: d,
            has_body: d != Dialect::WebSocket,
            has_headers: false,
            has_method: false,
            has_path: false,
            has_protocol: false,
            path: Vec::new(),
            buff: Vec::new(),
            content_type: Vec::new(),
            content_length: 0,
            boundary: Vec::new(),
            endings: Vec::new(),
            keys: Vec::new(),
            ip: None,
            ctx: HttpReq::fresh_ctx_exec(d),
            opts,
            size: 0,
            skip: 0,
            body: Vec::new(),
            fields: 0,
            fields_size_total: 0,
            files: 0,
            files_size_total: 0,
            file_size: 0,
            file_mime: Vec::new(),
            file_path: Vec::new(),
            file_real: Vec::new(),
            is_write: false,
            pending: None,
        };
        assert(pieces_view(r.endings@) =~= Seq::<Seq<u8>>::empty());
        assert(pieces_view(r.keys@) =~= Seq::<Seq<u8>>::empty());
        r
    }

    /// Gets ready for the next request: everything but the buffered bytes
    /// is as in a fresh reader.
    pub fn reset(&mut self)
        ensures
            final(self)@ == (HttpReqV { buff: old(self)@.buff, ..fresh_req(old(self)@.dialect, old(self)@.opts) }),
    {
        self.has_body = self.dialect != Dialect::WebSocket;
        self.has_headers = false;
        self.has_method = false;
        self.has_path = false;
        self.has_protocol = false;
        self.path = Vec::new();
        self.content_type = Vec::new();
        self.content_length = 0;
        self.boundary = Vec::new();
        self.endings = Vec::new();
        self.keys = Vec::new();
        self.ip = None;
        self.ctx = HttpReq::fresh_ctx_exec(self.dialect);
        self.size = 0;
        self.skip = 0;
        self.body = Vec::new();
        self.fields = 0;
        self.fields_size_total = 0;
        self.files = 0;
        self.files_size_total = 0;
        self.file_size = 0;
        self.file_mime = Vec::new();
        self.file_path = Vec::new();
        self.file_real = Vec::new();
        self.is_write = false;
        self.pending = None;
        assert(pieces_view(self.endings@) =~= Seq::<Seq<u8>>::empty());
        assert(pieces_view(self.keys@) =~= Seq::<Seq<u8>>::empty());
    }

    /// Appends received bytes.
    pub fn add(&mut self, block: &[u8])
        ensures
            final(self)@ == (HttpReqV { buff: old(self)@.buff + block@, ..old(self)@ }),
    {
        self.buff.extend_from_slice(block);
        assert(self.buff@ =~= old(self).buff@ + block@);
    }

    /// The context read so far.
    pub fn get_ctx(&self) -> (r: RequestCtx)
        ensures
            r@ == self@.ctx,
    {
        self.ctx.deep_clone()
    }

    /// The decoded request path (`_` for a refused one).
    pub fn get_path(&self) -> (r: Vec<u8>)
        ensures
            r@ == self@.path,
    {
        vstd::slice::slice_to_vec(self.path.as_slice())
    }

    /// No bytes are buffered.
    pub fn is_empty(&self) -> (r: bool)
        ensures
            r == (self@.buff.len() == 0),
    {
        self.buff.len() == 0
    }

    /// Records the client's address.
    pub fn set_addr(&mut self, addr: &str)
        ensures
            final(self)@ == (HttpReqV {
                ctx: CtxV { addr: Some(JsonV::Str(addr.spec_bytes())), ..old(self)@.ctx },
                ..old(self)@
            }),
    {
        self.ctx.addr = Some(str_json(addr));
    }

    /// The cap on `application/json` and form bodies, in bytes.
    fn fields_cap_exec(&self) -> (r: usize)
        requires
            body_opts_ok(self@.opts),
        ensures
            r == fields_cap(self@),
    {
        self.opts.max_fields_size_total_mb * 1024 * 1024
    }

    /// Reads an `application/json` body (see [`json_step`]).
    fn read_json(&mut self) -> (r: Result<Progress, ReqError>)
        requires
            body_opts_ok(old(self)@.opts),
        ensures
            (final(self)@, read_out(r)) == json_step(old(self)@),
    {
        if self.content_length > self.fields_cap_exec() {
            self.buff.clear();
            return Err(ReqError::new(ErrorKind::InvalidData, Reason::FieldsTooLarge));
        }
        if self.buff.len() >= self.content_length {
            let cl = self.content_length;
            self.size = cl;
            let text = copy_range(self.buff.as_slice(), 0, cl);
            if utf8_str(text.as_slice()).is_some() {
                return Ok(Progress::ParseJson(text));
            }
            drain_front(&mut self.buff, cl);
            self.skip = 0;
            return Err(ReqError::new(ErrorKind::InvalidInput, Reason::InvalidUtf8));
        }
        Ok(Progress::Pending)
    }

    /// Judges the parsed JSON body that the last step handed out (`None`
    /// when it did not parse); see [`json_accept`].
    pub fn accept_json(&mut self, parsed: Option<Json>) -> (r: Result<Progress, ReqError>)
        requires
            json_waiting(old(self)@),
        ensures
            (final(self)@, read_out(r)) == json_accept(
                old(self)@,
                match parsed {
                    Some(j) => Some(j.view()),
                    None => None,
                },
            ),
    {
        let cl = self.content_length;
        drain_front(&mut self.buff, cl);
        self.skip = 0;
        match parsed {
            Some(j) => {
                let ok = match &j {
                    Json::Object(_) => true,
                    _ => self.dialect != Dialect::Http1,
                };
                if ok {
                    self.ctx.body = j;
                    self.has_body = true;
                    Ok(Progress::Ready)
                } else {
                    Err(ReqError::new(ErrorKind::InvalidInput, Reason::InvalidApplicationJson))
                }
            },
            None => Err(ReqError::new(ErrorKind::InvalidInput, Reason::InvalidApplicationJson)),
        }
    }

    /// Reads an `application/x-www-form-urlencoded` body (see
    /// [`form_step`]).
    fn read_form(&mut self) -> (r: Result<Progress, ReqError>)
        requires
            body_opts_ok(old(self)@.opts),
            !(form_step(old(self)@).1 is Panic),
        ensures
            (final(self)@, read_out(r)) == form_step(old(self)@),
    {
        if self.content_length > self.fields_cap_exec() {
            self.buff.clear();
            return Err(ReqError::new(ErrorKind::InvalidData, Reason::FieldsTooLarge));
        }
        if self.buff.len() < self.content_length {
            return Ok(Progress::Pending);
        }
        let cl = self.content_length;
        self.size = cl;
        let decoded = percent_decode_bytes(&self.buff.as_slice()[0..cl]);
        let mut tree = Json::Null;
        std::mem::swap(&mut tree, &mut self.ctx.body);
        let mut keys: Vec<Vec<u8>> = Vec::new();
        std::mem::swap(&mut keys, &mut self.keys);
        let mut text: Vec<u8> = Vec::new();
        std::mem::swap(&mut text, &mut self.body);
        let (t, k, x, end) = store_form(tree, keys, text, decoded.as_slice());
        self.ctx.body = t;
        self.keys = k;
        self.body = x;
        drain_front(&mut self.buff, cl);
        match end {
            FormEnd::Done => {
                self.has_body = true;
                Ok(Progress::Ready)
            },
            FormEnd::BadUtf8 => {
                self.skip = 0;
                Err(ReqError::new(ErrorKind::InvalidInput, Reason::InvalidUtf8))
            },
            FormEnd::NotArray => {
                self.skip = cl;
                Err(ReqError::new(ErrorKind::InvalidInput, Reason::InvalidFieldName))
            },
        }
    }

    /// Stores the field text read so far (see [`field_store`]); `false` when
    /// the node its name leads to is not an array.
    fn store_field(&mut self) -> (r: bool)
        requires
            !(field_store(old(self)@) is Stuck),
            valid_utf8(old(self)@.body),
        ensures
            match field_store(old(self)@) {
                StoreOut::Stored(b) => r && final(self)@ == (HttpReqV {
                    ctx: CtxV { body: b, ..old(self)@.ctx },
                    ..old(self)@
                }),
                StoreOut::NotArray(b) => !r && final(self)@ == (HttpReqV {
                    ctx: CtxV { body: b, ..old(self)@.ctx },
                    ..old(self)@
                }),
                StoreOut::Stuck => false,
            },
    {
        if is_blank(self.body.as_slice()) {
            return true;
        }
        let mut tree = Json::Null;
        std::mem::swap(&mut tree, &mut self.ctx.body);
        proof {
            assert(keys_view(self.keys@) =~= pieces_view(self.keys@));
        }
        let item = Json::Str(vstd::slice::slice_to_vec(self.body.as_slice()));
        let (t, ok) = push_at_exec(tree, self.keys.as_slice(), item);
        self.ctx.body = t;
        ok
    }

    /// The record of the received file (see [`file_record`]).
    fn file_record_exec(&self) -> (r: Json)
        requires
            valid_utf8(self@.file_path),
        ensures
            r.view() == file_record(self@),
    {
        let p = match utf8_str(self.file_path.as_slice()) {
            Some(p) => p,
            None => {
                proof {
                    assert(false);
                }
                ""
            },
        };
        proof {
            encode_utf8_decode_utf8(p@);
        }
        let ext: Vec<u8> = match path_extension(p) {
            Some(e) => vstd::slice::slice_to_vec(e.as_str().as_bytes()),
            None => Vec::new(),
        };
        let name: Vec<u8> = match path_stem(p) {
            Some(e) => vstd::slice::slice_to_vec(e.as_str().as_bytes()),
            None => Vec::new(),
        };
        let mut entries: Vec<(Vec<u8>, Json)> = Vec::new();
        entries.push((text_bytes("ext"), Json::Str(ext)));
        entries.push((text_bytes("mime"), Json::Str(vstd::slice::slice_to_vec(self.file_mime.as_slice()))));
        entries.push((text_bytes("name"), Json::Str(name)));
        entries.push((text_bytes("path"), Json::Str(vstd::slice::slice_to_vec(self.file_path.as_slice()))));
        entries.push((text_bytes("real"), Json::Str(vstd::slice::slice_to_vec(self.file_real.as_slice()))));
        entries.push((text_bytes("size"), Json::Number(decimal_bytes(self.file_size))));
        proof {
            lemma_object_view(entries);
            assert(entries_view(entries@) =~= file_record(self@)->Object_0);
        }
        Json::Object(entries)
    }

    /// Stores the record of the received file (see [`file_store`]); `false`
    /// when the node its name leads to is not an array.
    fn store_file(&mut self) -> (r: bool)
        requires
            !(file_store(old(self)@) is Stuck),
            valid_utf8(old(self)@.file_path),
        ensures
            match file_store(old(self)@) {
                StoreOut::Stored(f) => r && final(self)@ == (HttpReqV {
                    ctx: CtxV { files: f, ..old(self)@.ctx },
                    ..old(self)@
                }),
                StoreOut::NotArray(f) => !r && final(self)@ == (HttpReqV {
                    ctx: CtxV { files: f, ..old(self)@.ctx },
                    ..old(self)@
                }),
                StoreOut::Stuck => false,
            },
    {
        if self.file_real.len() == 0 {
            return true;
        }
        let item = self.file_record_exec();
        let mut tree = Json::Null;
        std::mem::swap(&mut tree, &mut self.ctx.files);
        proof {
            assert(keys_view(self.keys@) =~= pieces_view(self.keys@));
        }
        let (t, ok) = push_at_exec(tree, self.keys.as_slice(), item);
        self.ctx.files = t;
        ok
    }

    /// `n` megabytes, in bytes.
    fn mb_exec(n: usize, Ghost(o): Ghost<BodyOpts>) -> (r: usize)
        requires
            body_opts_ok(o),
            n == o.max_fields_size_total_mb || n == o.max_files_size_total_mb || n == o.max_file_size_mb,
        ensures
            r == mb(n),
    {
        n * 1024 * 1024
    }

    /// The text before a boundary at `bs` (see [`chunk_step`]); `None` to go
    /// on.
    #[verifier::rlimit(60)]
    fn chunk_exec(&mut self, bs: usize) -> (r: Option<Result<Progress, ReqError>>)
        requires
            req_inv(old(self)@),
            old(self)@.has_headers,
            old(self)@.pending is None,
            0 < bs <= old(self)@.buff.len(),
            !(chunk_step(old(self)@, bs as int) matches MpOut::Stop(_, ReadOut::Panic)),
        ensures
            req_inv(final(self)@),
            match chunk_step(old(self)@, bs as int) {
                MpOut::Next(t) => r is None && final(self)@ == t,
                MpOut::Stop(t, o) => r matches Some(x) && final(self)@ == t && read_out(x) == o,
            },
    {
        let ghost o = self.opts;
        if bs >= self.content_length - self.size {
            self.buff.clear();
            let reason = if self.dialect == Dialect::Http2 {
                Reason::BodyTooLargeShort
            } else {
                Reason::BodyTooLarge
            };
            return Some(Err(ReqError::new(ErrorKind::InvalidData, reason)));
        }
        self.size = self.size + bs;
        let cl = bs - 2;
        let chunk = copy_range(self.buff.as_slice(), 0, cl);
        if self.is_write {
            if self.file_real.len() > 0 && !self.opts.allow_empty_files && cl == 0 {
                drain_front(&mut self.buff, bs);
                self.skip = self.content_length - self.size;
                return Some(Err(ReqError::new(ErrorKind::PermissionDenied, Reason::EmptyFile)));
            }
            self.file_size = self.file_size + cl;
            self.files_size_total = self.files_size_total + cl;
            if self.file_size > HttpReq::mb_exec(self.opts.max_file_size_mb, Ghost(o)) {
                drain_front(&mut self.buff, bs);
                self.skip = self.content_length - self.size;
                return Some(Err(ReqError::new(ErrorKind::PermissionDenied, Reason::FileTooLarge)));
            }
            if self.files_size_total > HttpReq::mb_exec(self.opts.max_files_size_total_mb, Ghost(o)) {
                drain_front(&mut self.buff, bs);
                self.skip = self.content_length - self.size;
                return Some(Err(ReqError::new(ErrorKind::PermissionDenied, Reason::FilesTooLarge)));
            }
            if self.file_real.len() > 0 {
                self.pending = Some(WriteAt::Chunk(bs));
                let path = vstd::slice::slice_to_vec(self.file_path.as_slice());
                return Some(Ok(Progress::Write(path, chunk)));
            }
            self.is_write = false;
            drain_front(&mut self.buff, bs);
            return None;
        }
        self.fields_size_total = self.fields_size_total + cl;
        if self.fields_size_total > HttpReq::mb_exec(self.opts.max_fields_size_total_mb, Ghost(o)) {
            drain_front(&mut self.buff, bs);
            self.skip = self.content_length - self.size;
            return Some(Err(ReqError::new(ErrorKind::PermissionDenied, Reason::FieldsTooLarge)));
        }
        if utf8_str(chunk.as_slice()).is_none() {
            drain_front(&mut self.buff, bs);
            self.skip = self.content_length - self.size;
            return Some(Err(ReqError::new(ErrorKind::InvalidInput, Reason::InvalidUtf8)));
        }
        proof {
            valid_utf8_concat(self.body@, chunk@);
        }
        self.body.extend_from_slice(chunk.as_slice());
        proof {
            let s1 = HttpReqV { size: (old(self)@.size + bs) as usize, ..old(self)@ };
            let s2 = HttpReqV { fields_size_total: (old(self)@.fields_size_total + cl) as usize, ..s1 };
            assert(self.body@ =~= s2.body + chunk@);
            assert(self@ == HttpReqV { body: s2.body + chunk@, ..s2 });
        }
        let ok = self.store_field();
        drain_front(&mut self.buff, bs);
        if !ok {
            self.skip = self.content_length - self.size;
            return Some(Err(ReqError::new(ErrorKind::InvalidInput, Reason::InvalidFieldName)));
        }
        None
    }

    /// Creates the member path that `pattern` names (see [`keys_set`]).
    fn keys_set_exec(&mut self, pattern: &[u8], in_files: bool)
        requires
            !(keys_set(old(self)@, pattern@, in_files) is Panic),
        ensures
            keys_set(old(self)@, pattern@, in_files) == MetaOut::Done(final(self)@),
    {
        let ks = pattern_keys_exec(pattern);
        proof {
            assert(keys_view(ks@) =~= pieces_view(ks@));
        }
        if in_files {
            let mut tree = Json::Null;
            std::mem::swap(&mut tree, &mut self.ctx.files);
            self.ctx.files = ensure_path_exec(tree, ks.as_slice());
        } else {
            let mut tree = Json::Null;
            std::mem::swap(&mut tree, &mut self.ctx.body);
            self.ctx.body = ensure_path_exec(tree, ks.as_slice());
        }
        self.keys = ks;
    }

    /// Reads a `Content-Disposition` line of a part (see
    /// [`disposition_meta`]).
    #[verifier::rlimit(60)]
    fn disposition_exec(&mut self, header: &[u8], stamp: &String) -> (r: Result<(), ReqError>)
        requires
            !(disposition_meta(old(self)@, header@, stamp@) is Panic),
            old(self)@.fields < usize::MAX,
            old(self)@.files <= old(self)@.fields,
        ensures
            meta_keeps(old(self)@, final(self)@),
            final(self)@.fields <= old(self)@.fields + 1,
            match disposition_meta(old(self)@, header@, stamp@) {
                MetaOut::Done(t) => r is Ok && final(self)@ == t,
                MetaOut::Fail(t, e) => r == Err::<(), ReqError>(e) && final(self)@ == t,
                MetaOut::Panic => false,
            },
    {
        reveal(disposition_meta);
        let bad = ReqError::new(ErrorKind::InvalidInput, Reason::InvalidContentDisposition);
        let nm: [u8; 6] = [110u8, 97u8, 109u8, 101u8, 61u8, 34u8];
        assert(nm@ =~= name_marker());
        let hl = header.len();
        let ns = match find_seq(header, nm.as_slice()) {
            None => {
                return Err(bad);
            },
            Some(ns) => ns,
        };
        let q = match find_byte(&header[ns + 6..hl], 34u8) {
            None => {
                return Err(bad);
            },
            Some(q) => q,
        };
        let ne = q + ns + 6;
        if ne - ns > 2042 {
            return Err(ReqError::new(ErrorKind::InvalidInput, Reason::FieldNameTooLong));
        }
        self.fields = self.fields + 1;
        if self.fields > self.opts.max_fields as usize {
            return Err(ReqError::new(ErrorKind::PermissionDenied, Reason::TooManyFields));
        }
        let pattern = copy_range(header, ns + 6, ne);
        if utf8_str(pattern.as_slice()).is_none() {
            return Err(ReqError::new(ErrorKind::InvalidInput, Reason::InvalidUtf8));
        }
        self.body = Vec::new();
        proof {
            lemma_ascii_valid_utf8(self.body@);
        }
        let fm: [u8; 10] = [102u8, 105u8, 108u8, 101u8, 110u8, 97u8, 109u8, 101u8, 61u8, 34u8];
        assert(fm@ =~= filename_marker());
        match find_seq(header, fm.as_slice()) {
            None => {
                self.keys_set_exec(pattern.as_slice(), false);
                Ok(())
            },
            Some(fs) => {
                let q2 = match find_byte(&header[fs + 10..hl], 34u8) {
                    None => {
                        return Err(ReqError::new(ErrorKind::InvalidInput, Reason::InvalidFilename));
                    },
                    Some(q2) => q2,
                };
                let fe = q2 + fs + 10;
                if fe - fs > 245 {
                    return Err(ReqError::new(ErrorKind::InvalidInput, Reason::FilenameTooLong));
                }
                let fname = copy_range(header, fs + 10, fe);
                let fstr = match utf8_str(fname.as_slice()) {
                    None => {
                        return Err(ReqError::new(ErrorKind::InvalidInput, Reason::InvalidUtf8));
                    },
                    Some(f) => f,
                };
                self.files = self.files + 1;
                if self.files > self.opts.max_files as usize {
                    return Err(ReqError::new(ErrorKind::PermissionDenied, Reason::TooManyFiles));
                }
                self.file_path = file_path_exec(&self.opts, stamp, fstr);
                proof {
                    lemma_file_path_valid(self.opts, stamp@, fname@);
                }
                self.file_real = fname;
                self.file_size = 0;
                self.is_write = true;
                self.keys_set_exec(pattern.as_slice(), true);
                Ok(())
            },
        }
    }

    /// Reads one header line of a part (see [`header_meta`]).
    fn header_meta_exec(&mut self, header: &[u8], stamp: &String) -> (r: Result<(), ReqError>)
        requires
            !(header_meta(old(self)@, header@, stamp@) is Panic),
            old(self)@.fields < usize::MAX,
            old(self)@.files <= old(self)@.fields,
        ensures
            meta_keeps(old(self)@, final(self)@),
            final(self)@.fields <= old(self)@.fields + 1,
            match header_meta(old(self)@, header@, stamp@) {
                MetaOut::Done(t) => r is Ok && final(self)@ == t,
                MetaOut::Fail(t, e) => r == Err::<(), ReqError>(e) && final(self)@ == t,
                MetaOut::Panic => false,
            },
    {
        reveal(header_meta);
        if starts_with(header, "Content-Disposition".as_bytes()) {
            return self.disposition_exec(header, stamp);
        }
        if starts_with(header, "Content-Type".as_bytes()) {
            let cs: [u8; 2] = [58u8, 32u8];
            let css = cs.as_slice();
            assert(css@ =~= colon_space());
            let ms = match find_seq(header, css) {
                None => {
                    return Err(ReqError::new(ErrorKind::InvalidInput, Reason::InvalidPartContentType));
                },
                Some(ms) => ms,
            };
            let hl = header.len();
            let mime = copy_range(header, ms + 2, hl);
            if utf8_str(mime.as_slice()).is_none() {
                return Err(ReqError::new(ErrorKind::InvalidInput, Reason::InvalidUtf8));
            }
            self.file_mime = mime;
            return Ok(());
        }
        Ok(())
    }

    /// Reads the header lines of a part (see [`meta_fold`]).
    fn meta_exec(&mut self, meta: &[u8], stamp: &String) -> (r: Result<(), ReqError>)
        requires
            !(meta_fold(old(self)@, meta@, 0, stamp@) is Panic),
            old(self)@.fields + meta@.len() <= usize::MAX,
            old(self)@.files <= old(self)@.fields,
        ensures
            meta_keeps(old(self)@, final(self)@),
            final(self)@.fields <= old(self)@.fields + meta@.len(),
            match meta_fold(old(self)@, meta@, 0, stamp@) {
                MetaOut::Done(t) => r is Ok && final(self)@ == t,
                MetaOut::Fail(t, e) => r == Err::<(), ReqError>(e) && final(self)@ == t,
                MetaOut::Panic => false,
            },
    {
        let ghost goal = meta_fold(old(self)@, meta@, 0, stamp@);
        let crlf_pat: [u8; 2] = [13u8, 10u8];
        assert(crlf_pat@ =~= crlf());
        let ml = meta.len();
        let mut start: usize = 0;
        loop
            invariant
                start <= ml,
                ml == meta@.len(),
                crlf_pat@ == crlf(),
                meta_fold(self@, meta@, start as int, stamp@) == goal,
                goal == meta_fold(old(self)@, meta@, 0, stamp@),
                !(goal is Panic),
                meta_keeps(old(self)@, self@),
                old(self)@.files <= old(self)@.fields,
                self@.fields + (ml - start) <= old(self)@.fields + ml,
                old(self)@.fields + ml <= usize::MAX,
            decreases ml - start,
        {
            let w = &meta[start..ml];
            assert(w@ == meta@.subrange(start as int, ml as int));
            let pos = match find_seq(w, crlf_pat.as_slice()) {
                None => {
                    return Ok(());
                },
                Some(pos) => pos,
            };
            proof {
                lemma_contains_iff_pos(w@, crlf());
            }
            let header = copy_range(meta, start, start + pos);
            match self.header_meta_exec(header.as_slice(), stamp) {
                Ok(()) => {},
                Err(e) => {
                    return Err(e);
                },
            }
            start = start + pos + 2;
        }
    }

    /// Whether the buffer starts with the closing boundary.
    fn at_closing_exec(&self) -> (r: bool)
        ensures
            r == at_closing(self@),
    {
        let bl = self.boundary.len();
        let tail: [u8; 4] = [45u8, 45u8, 13u8, 10u8];
        let ts = tail.as_slice();
        assert(ts@ =~= closing_tail());
        let blen = self.buff.len();
        starts_with(self.buff.as_slice(), self.boundary.as_slice()) && starts_with(
            &self.buff.as_slice()[bl..blen],
            ts,
        )
    }

    /// The closing boundary (see [`closing_step`]).
    fn closing_exec(&mut self) -> (r: Result<Progress, ReqError>)
        requires
            req_inv(old(self)@),
            old(self)@.has_headers,
            old(self)@.pending is None,
            at_closing(old(self)@),
        ensures
            req_inv(final(self)@),
            (final(self)@, read_out(r)) == closing_step(old(self)@),
    {
        let bl = self.boundary.len();
        let blen = self.buff.len();
        if bl + 4 > self.content_length - self.size {
            self.buff.clear();
            return Err(ReqError::new(ErrorKind::InvalidData, Reason::BodyTooLarge));
        }
        self.size = self.size + bl + 4;
        self.has_body = true;
        drain_front(&mut self.buff, bl + 4);
        Ok(Progress::Ready)
    }

    /// A part's header lines (see [`meta_step`]); `None` to go on.
    fn meta_part_exec(&mut self, stamp: &String) -> (r: Option<Result<Progress, ReqError>>)
        requires
            req_inv(old(self)@),
            old(self)@.has_headers,
            old(self)@.pending is None,
            !(meta_step(old(self)@, stamp@) matches MpOut::Stop(_, ReadOut::Panic)),
        ensures
            req_inv(final(self)@),
            match meta_step(old(self)@, stamp@) {
                MpOut::Next(t) => r is None && final(self)@ == t,
                MpOut::Stop(t, o) => r matches Some(x) && final(self)@ == t && read_out(x) == o,
            },
    {
        let blen = self.buff.len();
        let c2: [u8; 2] = [13u8, 10u8];
        let c2s = c2.as_slice();
        assert(c2s@ =~= crlf());
        let be = match find_seq(self.buff.as_slice(), c2s) {
            None => {
                return Some(Ok(Progress::Pending));
            },
            Some(be) => be,
        };
        let c4: [u8; 4] = [13u8, 10u8, 13u8, 10u8];
        let c4s = c4.as_slice();
        assert(c4s@ =~= crlf2());
        let rest = &self.buff.as_slice()[be + 2..blen];
        assert(rest@ == self.buff@.subrange(be + 2, blen as int));
        let m = match find_seq(rest, c4s) {
            None => {
                return Some(Ok(Progress::Pending));
            },
            Some(m) => m,
        };
        let me = m + be + 2;
        self.meta_read_exec(be, me, stamp)
    }

    /// Counts and reads the header lines of a part (see [`meta_read`]).
    #[verifier::rlimit(60)]
    fn meta_read_exec(&mut self, be: usize, me: usize, stamp: &String) -> (r: Option<Result<Progress, ReqError>>)
        requires
            req_inv(old(self)@),
            old(self)@.has_headers,
            old(self)@.pending is None,
            be + 2 <= me + 2,
            me + 4 <= old(self)@.buff.len(),
            !(meta_read(old(self)@, be as int, me as int, stamp@) matches MpOut::Stop(_, ReadOut::Panic)),
        ensures
            req_inv(final(self)@),
            match meta_read(old(self)@, be as int, me as int, stamp@) {
                MpOut::Next(t) => r is None && final(self)@ == t,
                MpOut::Stop(t, o) => r matches Some(x) && final(self)@ == t && read_out(x) == o,
            },
    {
        let blen = self.buff.len();
        if me + 4 >= self.content_length - self.size {
            self.buff.clear();
            return Some(Err(ReqError::new(ErrorKind::InvalidData, Reason::BodyTooLarge)));
        }
        self.size = self.size + me + 4;
        let ghost s1 = self@;
        let meta = copy_range(self.buff.as_slice(), be + 2, me + 2);
        assert(meta@ == s1.buff.subrange(be + 2, me + 2));
        let res = self.meta_exec(meta.as_slice(), stamp);
        let ghost t = self@;
        proof {
            lemma_meta_inv(old(self)@, s1, t, meta@.len() as int, me as int);
        }
        match res {
            Ok(()) => {
                drain_front(&mut self.buff, me + 4);
                None
            },
            Err(e) => {
                drain_front(&mut self.buff, me + 4);
                self.skip = self.content_length - self.size;
                Some(Err(e))
            },
        }
    }

    /// What remains when no boundary is buffered (see [`tail_step`]).
    #[verifier::rlimit(60)]
    fn tail_exec(&mut self) -> (r: Result<Progress, ReqError>)
        requires
            req_inv(old(self)@),
            old(self)@.has_headers,
            old(self)@.pending is None,
        ensures
            req_inv(final(self)@),
            (final(self)@, read_out(r)) == tail_step(old(self)@),
    {
        let ghost o = self.opts;
        let h = self.held_exec();
        proof {
            lemma_held_from_bounds(self@.buff, crlf() + self@.boundary, self@.boundary.len() as int + 1);
        }
        let len = self.buff.len() - h;
        if len == 0 {
            return Ok(Progress::Pending);
        }
        if len >= self.content_length - self.size {
            self.buff.clear();
            return Err(ReqError::new(ErrorKind::InvalidData, Reason::BodyTooLarge));
        }
        let part = copy_range(self.buff.as_slice(), 0, len);
        self.size = self.size + len;
        if self.is_write {
            self.file_size = self.file_size + len;
            if self.file_size > HttpReq::mb_exec(self.opts.max_file_size_mb, Ghost(o)) {
                drain_front(&mut self.buff, len);
                self.skip = self.content_length - self.size;
                return Err(ReqError::new(ErrorKind::PermissionDenied, Reason::FileTooLarge));
            }
            self.files_size_total = self.files_size_total + len;
            if self.files_size_total > HttpReq::mb_exec(self.opts.max_files_size_total_mb, Ghost(o)) {
                drain_front(&mut self.buff, len);
                self.skip = self.content_length - self.size;
                return Err(ReqError::new(ErrorKind::PermissionDenied, Reason::FilesTooLarge));
            }
            if self.file_real.len() > 0 {
                self.pending = Some(WriteAt::Tail(len));
                let path = vstd::slice::slice_to_vec(self.file_path.as_slice());
                return Ok(Progress::Write(path, part));
            }
            drain_front(&mut self.buff, len);
            return Ok(Progress::Pending);
        }
        self.fields_size_total = self.fields_size_total + len;
        if self.fields_size_total > HttpReq::mb_exec(self.opts.max_fields_size_total_mb, Ghost(o)) {
            drain_front(&mut self.buff, len);
            self.skip = self.content_length - self.size;
            return Err(ReqError::new(ErrorKind::PermissionDenied, Reason::FieldsTooLarge));
        }
        if utf8_str(part.as_slice()).is_none() {
            drain_front(&mut self.buff, len);
            self.skip = self.content_length - self.size;
            return Err(ReqError::new(ErrorKind::InvalidInput, Reason::InvalidUtf8));
        }
        proof {
            valid_utf8_concat(self.body@, part@);
        }
        let ghost before = self.body@;
        self.body.extend_from_slice(part.as_slice());
        assert(self.body@ =~= before + part@);
        drain_front(&mut self.buff, len);
        Ok(Progress::Pending)
    }

    /// The bytes held back at the end of the buffer (see [`held`]).
    fn held_exec(&self) -> (r: usize)
        ensures
            r == held(self@),
    {
        let mut d: Vec<u8> = Vec::new();
        d.push(13u8);
        d.push(10u8);
        d.extend_from_slice(self.boundary.as_slice());
        assert(d@ =~= crlf() + self@.boundary);
        let mut k: usize = d.len() - 1;
        let b = self.buff.as_slice();
        while k > 0
            invariant
                d@ == crlf() + self@.boundary,
                b@ == self@.buff,
                k <= self@.boundary.len() + 1,
                held(self@) == held_from(b@, d@, k as int),
            decreases k,
        {
            if k <= b.len() && k < d.len() {
                let pre = copy_range(d.as_slice(), 0, k);
                if ends_with(b, pre.as_slice()) {
                    return k;
                }
            }
            k = k - 1;
        }
        0
    }

    /// One turn of the multipart loop (see [`mp_turn`]); `None` to go on.
    fn turn_exec(&mut self, stamp: &String) -> (r: Option<Result<Progress, ReqError>>)
        requires
            req_inv(old(self)@),
            old(self)@.has_headers,
            old(self)@.pending is None,
            old(self)@.boundary.len() > 0,
            !(mp_turn(old(self)@, stamp@) matches MpOut::Stop(_, ReadOut::Panic)),
        ensures
            req_inv(final(self)@),
            match mp_turn(old(self)@, stamp@) {
                MpOut::Next(t) => r is None && final(self)@ == t,
                MpOut::Stop(t, o) => r matches Some(x) && final(self)@ == t && read_out(x) == o,
            },
    {
        match find_seq(self.buff.as_slice(), self.boundary.as_slice()) {
            None => Some(self.tail_exec()),
            Some(bs) => {
                if bs > 0 {
                    self.chunk_exec(bs)
                } else if self.at_closing_exec() {
                    Some(self.closing_exec())
                } else {
                    self.meta_part_exec(stamp)
                }
            },
        }
    }

    /// The multipart loop (see [`mp_loop`]).
    fn loop_exec(&mut self, stamp: &String) -> (r: Result<Progress, ReqError>)
        requires
            req_inv(old(self)@),
            old(self)@.has_headers,
            old(self)@.pending is None,
            old(self)@.boundary.len() > 0,
            !(mp_loop(old(self)@, stamp@).1 is Panic),
        ensures
            req_inv(final(self)@),
            (final(self)@, read_out(r)) == mp_loop(old(self)@, stamp@),
    {
        let ghost goal = mp_loop(old(self)@, stamp@);
        loop
            invariant
                req_inv(self@),
                self@.has_headers,
                self@.pending is None,
                self@.boundary.len() > 0,
                mp_loop(self@, stamp@) == goal,
                goal == mp_loop(old(self)@, stamp@),
                !(goal.1 is Panic),
            decreases self@.buff.len(),
        {
            let before = self.buff.len();
            let ghost s0 = self@;
            match self.turn_exec(stamp) {
                Some(r) => {
                    return r;
                },
                None => {},
            }
            assert(self@.has_headers && self@.pending is None && self@.boundary == s0.boundary) by {
                lemma_turn_keeps(s0, stamp@);
            }
            if self.buff.len() >= before {
                return Ok(Progress::Pending);
            }
        }
    }

    /// Reads a `multipart/form-data` body (see [`multipart_step`]).
    fn multipart_exec(&mut self, stamp: &String) -> (r: Result<Progress, ReqError>)
        requires
            req_inv(old(self)@),
            old(self)@.has_headers,
            old(self)@.pending is None,
            old(self)@.boundary.len() > 0,
            !(multipart_step(old(self)@, stamp@).1 is Panic),
        ensures
            req_inv(final(self)@),
            (final(self)@, read_out(r)) == multipart_step(old(self)@, stamp@),
    {
        let mut k: usize = 0;
        while k < self.endings.len()
            invariant
                k <= self@.endings.len(),
                self@ == old(self)@,
                req_inv(old(self)@),
                forall|j: int| 0 <= j < k ==> !has_suffix(self@.buff, #[trigger] self@.endings[j]),
            decreases self@.endings.len() - k,
        {
            let hit = ends_with(self.buff.as_slice(), self.endings[k].as_slice());
            assert(self@.endings[k as int] == self.endings@[k as int]@);
            if hit {
                return Ok(Progress::Pending);
            }
            k = k + 1;
        }
        self.loop_exec(stamp)
    }

    /// Goes on after a handed-out file write (see [`write_step`]).
    #[verifier::rlimit(100)]
    pub fn write_done_at(&mut self, outcome: WriteOutcome, stamp: &String) -> (r: Result<Progress, ReqError>)
        requires
            req_inv(old(self)@),
            old(self)@.has_headers,
            old(self)@.pending is Some,
            old(self)@.boundary.len() > 0,
            !(write_step(old(self)@, write_failure(outcome), stamp@).1 is Panic),
        ensures
            req_inv(final(self)@),
            (final(self)@, read_out(r)) == write_step(old(self)@, write_failure(outcome), stamp@),
    {
        let failed = match outcome {
            WriteOutcome::Written => None,
            WriteOutcome::OpenFailed => Some(ReqError::new(ErrorKind::PermissionDenied, Reason::FileSaveError)),
            WriteOutcome::WriteFailed => Some(ReqError::new(ErrorKind::WriteZero, Reason::FileWriteError)),
        };
        let at = match self.pending {
            Some(a) => a,
            None => {
                return Ok(Progress::Pending);
            },
        };
        self.pending = None;
        match at {
            WriteAt::Chunk(bs) => {
                match failed {
                    Some(e) => {
                        drain_front(&mut self.buff, bs);
                        self.skip = self.content_length - self.size;
                        Err(e)
                    },
                    None => {
                        let ok = self.store_file();
                        drain_front(&mut self.buff, bs);
                        if !ok {
                            self.skip = self.content_length - self.size;
                            return Err(ReqError::new(ErrorKind::InvalidInput, Reason::InvalidFieldName));
                        }
                        self.is_write = false;
                        self.loop_exec(stamp)
                    },
                }
            },
            WriteAt::Tail(n) => {
                match failed {
                    Some(e) => Err(e),
                    None => {
                        drain_front(&mut self.buff, n);
                        Ok(Progress::Pending)
                    },
                }
            },
        }
    }

    /// Goes on after a handed-out file write, naming any further file by
    /// the clock; see [`write_step`].
    pub fn write_done(&mut self, outcome: WriteOutcome) -> (r: Result<Progress, ReqError>)
        requires
            req_inv(old(self)@),
            old(self)@.has_headers,
            old(self)@.pending is Some,
            old(self)@.boundary.len() > 0,
            forall|st: Seq<char>| !(#[trigger] write_step(old(self)@, write_failure(outcome), st).1 is Panic),
        ensures
            req_inv(final(self)@),
            exists|st: Seq<char>| is_stamp(st) && (final(self)@, read_out(r)) == #[trigger] write_step(old(self)@, write_failure(outcome), st),
    {
        let stamp = clock_stamp();
        assert(!(write_step(old(self)@, write_failure(outcome), stamp@).1 is Panic));
        self.write_done_at(outcome, &stamp)
    }

    /// Reads the body (see [`body_step`]).
    fn read_body_exec(&mut self, stamp: &String) -> (r: Result<Progress, ReqError>)
        requires
            req_inv(old(self)@),
            old(self)@.has_headers,
            old(self)@.pending is None,
            !(body_step(old(self)@, stamp@).1 is Panic),
        ensures
            req_inv(final(self)@),
            (final(self)@, read_out(r)) == body_step(old(self)@, stamp@),
    {
        if self.size > self.content_length {
            return Err(ReqError::new(ErrorKind::InvalidData, Reason::BodyTooLarge));
        }
        let ct = self.content_type.as_slice();
        if bytes_equal(ct, "application/json".as_bytes()) {
            return self.read_json();
        }
        if bytes_equal(ct, "multipart/form-data".as_bytes()) && self.boundary.len() > 0 {
            return self.multipart_exec(stamp);
        }
        if bytes_equal(ct, "application/x-www-form-urlencoded".as_bytes()) {
            let cl = self.content_length;
            let ghost s0 = self@;
            let r = self.read_form();
            proof {
                if s0.content_length <= fields_cap(s0) && s0.buff.len() >= s0.content_length {
                    let s1 = HttpReqV { size: s0.content_length, ..s0 };
                    lemma_form_text_valid(
                        s1.ctx.body,
                        s1.keys,
                        s1.body,
                        split_on(percent_decode(s0.buff.subrange(0, cl as int)), 38),
                        0,
                    );
                }
            }
            return r;
        }
        Ok(Progress::Ready)
    }

    /// One reading step with the given stamp for stored files; a JSON body
    /// is parsed and judged in the same call (see [`read_step`]).
    pub fn read_block_at(&mut self, stamp: &String) -> (r: Result<Progress, ReqError>)
        requires
            req_inv(old(self)@),
            old(self)@.pending is None,
            !(req_step(old(self)@, stamp@).1 is Panic),
        ensures
            req_inv(final(self)@),
            (final(self)@, read_out(r)) == read_step(old(self)@, stamp@),
    {
        let ghost s0 = self@;
        let r = self.step_at(stamp);
        match r {
            Ok(Progress::ParseJson(text)) => {
                proof {
                    lemma_parse_waits(s0, stamp@);
                }
                let parsed = parse_json(text.as_slice());
                self.accept_json(parsed)
            },
            other => other,
        }
    }

    /// One step of [`req_step`], handing a JSON body out unparsed.
    fn step_at(&mut self, stamp: &String) -> (r: Result<Progress, ReqError>)
        requires
            req_inv(old(self)@),
            old(self)@.pending is None,
            !(req_step(old(self)@, stamp@).1 is Panic),
        ensures
            req_inv(final(self)@),
            (final(self)@, read_out(r)) == req_step(old(self)@, stamp@),
    {
        if self.skip > 0 {
            let len = self.buff.len();
            if len >= self.skip {
                let n = self.skip;
                drain_front(&mut self.buff, n);
                self.skip = 0;
                return Ok(Progress::Ready);
            }
            self.skip = self.skip - len;
            self.buff.clear();
            return Ok(Progress::Pending);
        }
        proof {
            lemma_head_inv(old(self)@);
        }
        match self.read_head() {
            Stage::Next => {},
            Stage::Pending => {
                return Ok(Progress::Pending);
            },
            Stage::Fail(e) => {
                return Err(e);
            },
        }
        if !self.has_body {
            return self.read_body_exec(stamp);
        }
        Ok(Progress::Ready)
    }

    /// One reading step, naming any stored file by the clock; see
    /// [`read_step`].
    pub fn read_block(&mut self) -> (r: Result<Progress, ReqError>)
        requires
            req_inv(old(self)@),
            old(self)@.pending is None,
            forall|st: Seq<char>| !(#[trigger] req_step(old(self)@, st).1 is Panic),
        ensures
            req_inv(final(self)@),
            exists|st: Seq<char>| is_stamp(st) && (final(self)@, read_out(r)) == #[trigger] read_step(old(self)@, st),
    {
        let stamp = clock_stamp();
        assert(!(req_step(old(self)@, stamp@).1 is Panic));
        self.read_block_at(&stamp)
    }

    /// Reads the head (see [`head_step`]).
    pub fn read_head(&mut self) -> (r: Stage)
        requires
            !(head_step(old(self)@).1 is Panic),
        ensures
            (final(self)@, r.out()) == head_step(old(self)@),
    {
        if !self.has_method {
            match self.read_method() {
                Stage::Next => {},
                other => {
                    return other;
                },
            }
        }
        if !self.has_path {
            match self.read_path() {
                Stage::Next => {},
                other => {
                    return other;
                },
            }
        }
        if !self.has_protocol {
            match self.read_protocol() {
                Stage::Next => {},
                other => {
                    return other;
                },
            }
        }
        if !self.has_headers {
            return self.read_headers();
        }
        Stage::Next
    }

    /// Takes the buffered bytes out.
    pub fn take_buff(&mut self) -> (r: Vec<u8>)
        ensures
            r@ == old(self)@.buff,
            final(self)@ == clear_buff(old(self)@),
    {
        let mut out: Vec<u8> = Vec::new();
        std::mem::swap(&mut out, &mut self.buff);
        out
    }

    /// The address announced by the handshake headers, if any.
    pub fn get_ip(&self) -> (r: Option<Vec<u8>>)
        ensures
            match r {
                Some(v) => self@.ip == Some(v@),
                None => self@.ip is None,
            },
    {
        match &self.ip {
            Some(v) => Some(vstd::slice::slice_to_vec(v.as_slice())),
            None => None,
        }
    }

    /// Sets the context's topic.
    pub fn set_ctx_topic(&mut self, t: Json)
        ensures
            final(self)@ == (HttpReqV { ctx: CtxV { topic: t.view(), ..old(self)@.ctx }, ..old(self)@ }),
    {
        self.ctx.topic = t;
    }

    /// Sets the context's body.
    pub fn set_ctx_body(&mut self, b: Json)
        ensures
            final(self)@ == (HttpReqV { ctx: CtxV { body: b.view(), ..old(self)@.ctx }, ..old(self)@ }),
    {
        self.ctx.body = b;
    }

    /// Clears what a message put into the context: the topic becomes null,
    /// the parameters empty objects.
    pub fn clear_message_ctx(&mut self)
        ensures
            final(self)@ == (HttpReqV {
                ctx: CtxV {
                    topic: JsonV::Null,
                    files: JsonV::Object(seq![]),
                    body: JsonV::Object(seq![]),
                    query: JsonV::Object(seq![]),
                    ..old(self)@.ctx
                },
                ..old(self)@
            }),
    {
        self.ctx.topic = Json::Null;
        self.ctx.files = empty_object_json();
        self.ctx.body = empty_object_json();
        self.ctx.query = empty_object_json();
    }

    /// The head is complete.
    pub fn has_headers_exec(&self) -> (r: bool)
        ensures
            r == self@.has_headers,
    {
        self.has_headers
    }

    /// Reads the method (see [`method_step`]).
    pub fn read_method(&mut self) -> (r: Stage)
        ensures
            final(self)@ == method_step(old(self)@).0,
            r.out() == method_step(old(self)@).1,
    {
        let e = match find_byte(self.buff.as_slice(), 32u8) {
            None => {
                if self.buff.len() > 8 {
                    self.buff.clear();
                    return Stage::Fail(ReqError::new(ErrorKind::InvalidData, Reason::MethodTooLong));
                }
                return Stage::Pending;
            },
            Some(e) => e,
        };
        if e > 8 {
            self.buff.clear();
            return Stage::Fail(ReqError::new(ErrorKind::InvalidData, Reason::MethodTooLong));
        }
        let m = copy_range(self.buff.as_slice(), 0, e);
        let ms = m.as_slice();
        let allowed = if self.dialect == Dialect::WebSocket {
            bytes_equal(ms, "GET".as_bytes())
        } else {
            bytes_equal(ms, "GET".as_bytes()) || bytes_equal(ms, "POST".as_bytes())
                || bytes_equal(ms, "PUT".as_bytes()) || bytes_equal(ms, "DELETE".as_bytes())
                || bytes_equal(ms, "HEAD".as_bytes()) || bytes_equal(ms, "OPTIONS".as_bytes())
                || bytes_equal(ms, "PATCH".as_bytes()) || bytes_equal(ms, "CONNECT".as_bytes())
                || bytes_equal(ms, "TRACE".as_bytes())
        };
        if !allowed {
            self.buff.clear();
            return Stage::Fail(ReqError::new(ErrorKind::InvalidData, Reason::UnknownMethod));
        }
        if self.dialect == Dialect::WebSocket || bytes_equal(ms, "PATCH".as_bytes())
            || bytes_equal(ms, "POST".as_bytes()) || bytes_equal(ms, "PUT".as_bytes())
            || bytes_equal(ms, "DELETE".as_bytes()) {
            self.has_body = false;
        }
        self.ctx.method = Json::Str(m);
        self.has_method = true;
        drain_front(&mut self.buff, e + 1);
        Stage::Next
    }

    /// Reads the request target (see [`path_step`]).
    #[verifier::rlimit(40)]
    pub fn read_path(&mut self) -> (r: Stage)
        requires
            !(path_step(old(self)@).1 is Panic),
        ensures
            final(self)@ == path_step(old(self)@).0,
            r.out() == path_step(old(self)@).1,
    {
        let e = match find_byte(self.buff.as_slice(), 32u8) {
            None => {
                if self.buff.len() > 2048 {
                    self.buff.clear();
                    return Stage::Fail(ReqError::new(ErrorKind::InvalidData, Reason::UrlTooLong));
                }
                return Stage::Pending;
            },
            Some(e) => e,
        };
        if e > 2048 {
            self.buff.clear();
            return Stage::Fail(ReqError::new(ErrorKind::InvalidData, Reason::UrlTooLong));
        }
        let loc = copy_range(self.buff.as_slice(), 0, e);
        let q = find_byte(loc.as_slice(), 63u8);
        let path_end: usize = match q {
            Some(q) => q,
            None => e,
        };
        let p = percent_decode_bytes(&loc.as_slice()[0..path_end]);
        proof {
            if q is None {
                assert(loc@.subrange(0, e as int) =~= loc@);
            }
        }
        if utf8_str(p.as_slice()).is_none() {
            self.buff.clear();
            return Stage::Fail(ReqError::new(ErrorKind::InvalidData, Reason::InvalidUtf8));
        }
        let dots: [u8; 2] = [46u8, 46u8];
        let nul: [u8; 1] = [0u8];
        let is_unsafe = find_seq(p.as_slice(), dots.as_slice()).is_some() || find_seq(
            p.as_slice(),
            nul.as_slice(),
        ).is_some();
        proof {
            assert(dots@ =~= seq![46u8, 46u8]);
            assert(nul@ =~= seq![0u8]);
            lemma_contains_iff_pos(p@, seq![46u8, 46u8]);
            lemma_contains_iff_pos(p@, seq![0u8]);
        }
        let sp: Vec<u8> = if self.dialect != Dialect::Http2 && is_unsafe {
            crate::ctx::text_bytes("_")
        } else {
            vstd::slice::slice_to_vec(p.as_slice())
        };
        if self.dialect != Dialect::WebSocket {
            self.path = vstd::slice::slice_to_vec(sp.as_slice());
        }
        self.ctx.path = Json::Str(sp);
        if let Some(qp) = q {
            if self.dialect != Dialect::WebSocket {
                let decoded = percent_decode_bytes(&loc.as_slice()[qp + 1..e]);
                let mut tree = Json::Null;
                std::mem::swap(&mut tree, &mut self.ctx.query);
                let mut keys: Vec<Vec<u8>> = Vec::new();
                std::mem::swap(&mut keys, &mut self.keys);
                let (t, k, failure) = store_query(tree, keys, decoded.as_slice());
                self.ctx.query = t;
                self.keys = k;
                if let Some((er, clear)) = failure {
                    if clear {
                        self.buff.clear();
                    }
                    return Stage::Fail(er);
                }
            }
        }
        self.has_path = true;
        drain_front(&mut self.buff, e + 1);
        Stage::Next
    }

    /// Reads the protocol (see [`protocol_step`]).
    pub fn read_protocol(&mut self) -> (r: Stage)
        ensures
            final(self)@ == protocol_step(old(self)@).0,
            r.out() == protocol_step(old(self)@).1,
    {
        let pat: [u8; 2] = [13u8, 10u8];
        assert(pat@ =~= crlf());
        let e = match find_seq(self.buff.as_slice(), pat.as_slice()) {
            None => {
                if self.buff.len() > 12 {
                    self.buff.clear();
                    return Stage::Fail(
                        ReqError::new(ErrorKind::InvalidData, Reason::ProtocolTooLong),
                    );
                }
                return Stage::Pending;
            },
            Some(e) => e,
        };
        if e > 12 {
            self.buff.clear();
            return Stage::Fail(ReqError::new(ErrorKind::InvalidData, Reason::ProtocolTooLong));
        }
        self.has_protocol = true;
        drain_front(&mut self.buff, e + 2);
        Stage::Next
    }

    /// Sets the content type from a `Content-Type` value (see
    /// [`content_type_after`]).
    fn set_content_type(&mut self, value: &[u8])
        ensures
            final(self)@ == content_type_after(old(self)@, value@),
    {
        if !self.has_body {
            if let Some(pos) = find_byte(value, 59u8) {
                self.content_type.extend_from_slice(&value[0..pos]);
                assert(self.content_type@ =~= old(self).content_type@ + value@.subrange(0, pos as int));
                if let Some((b, endings)) = boundary_exec(value) {
                    self.boundary = b;
                    self.endings = endings;
                }
                return;
            }
        }
        self.content_type.extend_from_slice(value);
        assert(self.content_type@ =~= old(self).content_type@ + value@);
    }

    /// Records the header `key: value` (see [`header_entry`]).
    fn set_header(&mut self, key: Vec<u8>, value: Vec<u8>) -> (r: Result<(), ReqError>)
        requires
            !(header_entry(old(self)@, key@, value@) is Panic),
        ensures
            match header_entry(old(self)@, key@, value@) {
                LineOut::Cont(t) => r is Ok && final(self)@ == t,
                LineOut::Fail(t, e) => r == Err::<(), ReqError>(e) && final(self)@ == t,
                LineOut::Panic => false,
            },
    {
        reveal(header_entry);
        let ks = key.as_slice();
        let vs = value.as_slice();
        if self.dialect == Dialect::WebSocket {
            if bytes_equal(ks, "X-Forwarded-For".as_bytes()) {
                self.ip = Some(vstd::slice::slice_to_vec(vs));
            }
            if self.ip.is_none() && bytes_equal(ks, "X-Real-IP".as_bytes()) {
                self.ip = Some(vstd::slice::slice_to_vec(vs));
            }
            if self.ip.is_none() && bytes_equal(ks, "CF-Connecting-IP".as_bytes()) {
                self.ip = Some(vstd::slice::slice_to_vec(vs));
            }
            if self.ip.is_none() && bytes_equal(ks, "CF-Connecting-IPv6".as_bytes()) {
                self.ip = Some(vstd::slice::slice_to_vec(vs));
            }
        }
        upsert_entry(
            &mut self.ctx.headers,
            vstd::slice::slice_to_vec(ks),
            Json::Str(vstd::slice::slice_to_vec(vs)),
        );
        if self.dialect == Dialect::Http1 && bytes_eq_ignore_case(ks, "Transfer-Encoding".as_bytes()) {
            let lower = lower_bytes(vs);
            let pat: [u8; 7] = [99u8, 104u8, 117u8, 110u8, 107u8, 101u8, 100u8];
            assert(pat@ =~= chunked());
            let found = find_seq(lower.as_slice(), pat.as_slice());
            proof {
                lemma_contains_iff_pos(lower@, chunked());
            }
            if found.is_some() {
                return Err(ReqError::new(ErrorKind::InvalidData, Reason::ChunkedUnsupported));
            }
        }
        if bytes_eq_ignore_case(ks, "Cookie".as_bytes()) {
            set_cookie(&mut self.ctx.cookie, vs);
            return Ok(());
        }
        if self.dialect == Dialect::WebSocket {
            return Ok(());
        }
        if bytes_eq_ignore_case(ks, "Content-Type".as_bytes()) {
            self.set_content_type(vs);
            return Ok(());
        }
        if bytes_eq_ignore_case(ks, "Content-Length".as_bytes()) {
            match parse_usize(vs) {
                None => {
                    return Err(
                        ReqError::new(ErrorKind::InvalidData, Reason::ContentLengthNotNumber),
                    );
                },
                Some(n) => {
                    self.content_length = n;
                },
            }
        }
        Ok(())
    }

    /// Reads one header line (see [`line_step`]).
    #[verifier::rlimit(90)]
    fn read_line(&mut self, line: &[u8]) -> (r: Result<(), ReqError>)
        requires
            !(line_step(old(self)@, line@) is Panic),
        ensures
            match line_step(old(self)@, line@) {
                LineOut::Cont(t) => r is Ok && final(self)@ == t,
                LineOut::Fail(t, e) => r == Err::<(), ReqError>(e) && final(self)@ == t,
                LineOut::Panic => false,
            },
    {
        reveal(line_step);
        match find_byte(line, 58u8) {
            None => Ok(()),
            Some(c) => {
                let ll: usize = line.len();
                let key = utf8_trim(&line[0..c]);
                let value = utf8_trim(&line[c + 1..ll]);
                match (key, value) {
                    (Some(k), Some(v)) => self.set_header(k, v),
                    _ => {
                        self.buff.clear();
                        Err(ReqError::new(ErrorKind::InvalidData, Reason::InvalidUtf8))
                    },
                }
            },
        }
    }

    /// Reads the headers (see [`headers_step`]).
    pub fn read_headers(&mut self) -> (r: Stage)
        requires
            !(headers_step(old(self)@).1 is Panic),
        ensures
            final(self)@ == headers_step(old(self)@).0,
            r.out() == headers_step(old(self)@).1,
    {
        let pat: [u8; 4] = [13u8, 10u8, 13u8, 10u8];
        assert(pat@ =~= crlf2());
        let e = match find_seq(self.buff.as_slice(), pat.as_slice()) {
            None => {
                if self.buff.len() > 8192 {
                    self.buff.clear();
                    return Stage::Fail(
                        ReqError::new(ErrorKind::InvalidData, Reason::HeadersTooLarge),
                    );
                }
                return Stage::Pending;
            },
            Some(e) => e,
        };
        if e > 8192 {
            self.buff.clear();
            return Stage::Fail(ReqError::new(ErrorKind::InvalidData, Reason::HeadersTooLarge));
        }
        let ghost goal = headers_fold(old(self)@, e as int, 0);
        let crlf_pat: [u8; 2] = [13u8, 10u8];
        assert(crlf_pat@ =~= crlf());
        let blen: usize = self.buff.len();
        let mut start: usize = 0;
        while start < e
            invariant
                e + 4 <= blen,
                blen == self.buff@.len(),
                self.buff@ == old(self).buff@,
                crlf_pat@ == crlf(),
                headers_fold(self@, e as int, start as int) == goal,
                goal == headers_fold(old(self)@, e as int, 0),
                seq_pos(old(self)@.buff, crlf2()) == Some(e as int),
                e <= 8192,
                !(goal is Panic),
                start <= e + 2,
            decreases e + 2 - start,
        {
            let window = &self.buff.as_slice()[start..e + 2];
            assert(window@ == self.buff@.subrange(start as int, e + 2));
            let pos = match find_seq(window, crlf_pat.as_slice()) {
                None => {
                    start = e;
                    continue;
                },
                Some(p) => p,
            };
            proof {
                lemma_contains_iff_pos(window@, crlf());
                lemma_line_keeps_buff(self@, self.buff@.subrange(start as int, start + pos));
            }
            let line = copy_range(self.buff.as_slice(), start, start + pos);
            match self.read_line(line.as_slice()) {
                Ok(()) => {},
                Err(er) => {
                    return Stage::Fail(er);
                },
            }
            start = start + pos + 2;
        }
        self.has_headers = true;
        drain_front(&mut self.buff, e + 4);
        Stage::Next
    }
}

} // verus!
