//! HTTP/2: the settings, the request reader (over heads rewritten into
//! HTTP/1.1 form) and the response writer.
use vstd::prelude::*;
use vstd::string::StringSliceAdditionalSpecFns;
use crate::serialize::{json_text, json_text_of};
use crate::ctx::RequestCtx;
use crate::error::ReqError;
use crate::json::Json;
use crate::dialects::lemma_steps_keep_dialect;
use crate::request::{
    body_opts_ok, fresh_req, json_accept, json_waiting, read_step, req_inv, req_step, write_failure,
    write_step, BodyOpts, Dialect, HttpReq, HttpReqV, WriteOutcome,
};
use crate::response::{
    announce_body, announce_file, fresh_resp, head_pairs, mime_of, pairs_view, push_allowed,
    status_text, take_body, take_file, with_header, RespV, Response,
};
use crate::sys::{clock_millis, is_stamp};
use crate::uds::{read_out, Outgoing, Progress};

verus! {

/// Settings of an HTTP/2 server.
#[derive(Clone)]
pub struct Http2Opts {
    pub allow_empty_files: bool,
    pub block_size_kb: usize,
    pub cert_pem: String,
    pub charset: String,
    pub compression: bool,
    pub keep_alive: u8,
    pub keep_extensions: bool,
    pub key_pem: String,
    pub max_fields: u32,
    pub max_fields_size_total_mb: usize,
    pub max_files: u32,
    pub max_files_size_total_mb: usize,
    pub max_file_size_mb: usize,
    pub port: u16,
    pub storage_path: String,
    pub thread_limit: u64,
}

/// The body limits of the settings.
pub open spec fn http2_body_opts(o: Http2Opts) -> BodyOpts {
    BodyOpts {
        allow_empty_files: o.allow_empty_files,
        keep_extensions: o.keep_extensions,
        max_fields: o.max_fields,
        max_fields_size_total_mb: o.max_fields_size_total_mb,
        max_files: o.max_files,
        max_files_size_total_mb: o.max_files_size_total_mb,
        max_file_size_mb: o.max_file_size_mb,
        storage_path: o.storage_path,
    }
}

impl Http2Opts {
    /// The body limits of the settings (see [`http2_body_opts`]).
    pub fn body_opts(&self) -> (r: BodyOpts)
        ensures
            r == http2_body_opts(*self),
    {
        BodyOpts {
            allow_empty_files: self.allow_empty_files,
            keep_extensions: self.keep_extensions,
            max_fields: self.max_fields,
            max_fields_size_total_mb: self.max_fields_size_total_mb,
            max_files: self.max_files,
            max_files_size_total_mb: self.max_files_size_total_mb,
            max_file_size_mb: self.max_file_size_mb,
            storage_path: self.storage_path.clone(),
        }
    }
}

/// Reads HTTP/2 requests off one connection.
pub struct Http2Req {
    req: HttpReq,
}

impl Http2Req {
    pub closed spec fn view(&self) -> HttpReqV {
        self.req@
    }


    /// A fresh reader.
    pub fn new(opts: Http2Opts) -> (r: Http2Req)
        requires
            body_opts_ok(http2_body_opts(opts)),
        ensures
            r@ == fresh_req(Dialect::Http2, http2_body_opts(opts)),
            req_inv(r@),
    {
        let r = Http2Req { req: HttpReq::new(Dialect::Http2, opts.body_opts()) };
        proof {
            crate::text::lemma_ascii_valid_utf8(Seq::<u8>::empty());
        }
        r
    }

    /// Appends received bytes.
    pub fn add(&mut self, block: &[u8])
        requires
            req_inv(old(self)@),
            old(self)@.dialect == Dialect::Http2,
        ensures
            final(self)@ == (HttpReqV { buff: old(self)@.buff + block@, ..old(self)@ }),
            req_inv(final(self)@),
            final(self)@.dialect == Dialect::Http2,
    {
        self.req.add(block);
    }

    /// The compression asked for by the client (this reader never sets one).
    pub fn get_compression(&self) -> (r: Option<String>)
        ensures
            r is None,
    {
        None
    }

    /// The context read so far.
    pub fn get_ctx(&self) -> (r: RequestCtx)
        ensures
            r@ == self@.ctx,
    {
        self.req.get_ctx()
    }

    /// The decoded request path (`_` for a refused one).
    pub fn get_path(&self) -> (r: Vec<u8>)
        ensures
            r@ == self@.path,
    {
        self.req.get_path()
    }

    /// One reading step, naming any stored file by the clock; a JSON body
    /// is parsed and judged in the same call (see [`read_step`]). The reader
    /// stays an HTTP/2 reader and never counts more body bytes than the
    /// request announced.
    pub fn read_block(&mut self) -> (r: Result<Progress, ReqError>)
        requires
            req_inv(old(self)@),
            old(self)@.dialect == Dialect::Http2,
            old(self)@.pending is None,
            forall|st: Seq<char>| !(#[trigger] req_step(old(self)@, st).1 is Panic),
        ensures
            req_inv(final(self)@),
            final(self)@.dialect == Dialect::Http2,
            final(self)@.size <= final(self)@.content_length,
            exists|st: Seq<char>| is_stamp(st) && (final(self)@, read_out(r)) == #[trigger] read_step(old(self)@, st),
            !(r matches Ok(Progress::ParseJson(_))),
    {
        let r = self.req.read_block();
        proof {
            let st = choose|st: Seq<char>| is_stamp(st) && (self@, read_out(r)) == #[trigger] read_step(old(self)@, st);
            lemma_steps_keep_dialect(old(self)@, None, st);
        }
        r
    }

    /// Judges the parsed JSON body that the last step handed out (see
    /// [`json_accept`]).
    pub fn accept_json(&mut self, parsed: Option<Json>) -> (r: Result<Progress, ReqError>)
        requires
            req_inv(old(self)@),
            old(self)@.dialect == Dialect::Http2,
            old(self)@.pending is None,
            json_waiting(old(self)@),
        ensures
            req_inv(final(self)@),
            final(self)@.dialect == Dialect::Http2,
            (final(self)@, read_out(r)) == json_accept(
                old(self)@,
                match parsed {
                    Some(j) => Some(j.view()),
                    None => None,
                },
            ),
    {
        self.req.accept_json(parsed)
    }

    /// Goes on after a handed-out file write (see [`write_step`]); as
    /// [`Self::read_block`], it keeps the dialect and the count of body
    /// bytes within the announced length.
    pub fn write_done(&mut self, outcome: WriteOutcome) -> (r: Result<Progress, ReqError>)
        requires
            req_inv(old(self)@),
            old(self)@.dialect == Dialect::Http2,
            old(self)@.has_headers,
            old(self)@.pending is Some,
            old(self)@.boundary.len() > 0,
            forall|st: Seq<char>| !(#[trigger] write_step(old(self)@, write_failure(outcome), st).1 is Panic),
        ensures
            req_inv(final(self)@),
            final(self)@.dialect == Dialect::Http2,
            final(self)@.size <= final(self)@.content_length,
            exists|st: Seq<char>| is_stamp(st) && (final(self)@, read_out(r)) == #[trigger] write_step(old(self)@, write_failure(outcome), st),
    {
        let r = self.req.write_done(outcome);
        proof {
            let st = choose|st: Seq<char>|
                is_stamp(st) && (self@, read_out(r)) == #[trigger] write_step(old(self)@, write_failure(outcome), st);
            lemma_steps_keep_dialect(old(self)@, write_failure(outcome), st);
        }
        r
    }

    /// Gets ready for the next request (the buffered bytes stay).
    pub fn reset(&mut self)
        requires
            req_inv(old(self)@),
            old(self)@.dialect == Dialect::Http2,
        ensures
            final(self)@ == (HttpReqV { buff: old(self)@.buff, ..fresh_req(old(self)@.dialect, old(self)@.opts) }),
            req_inv(final(self)@),
            final(self)@.dialect == Dialect::Http2,
    {
        self.req.reset();
        proof {
            crate::text::lemma_ascii_valid_utf8(Seq::<u8>::empty());
        }
    }
}

/// Pushing a body of bytes: the status and headers are handed out first if
/// they were not, then the bytes; the body is kept.
pub open spec fn push_body2(s: RespV, bytes: Seq<u8>, is_attachment: bool, millis: u64) -> (RespV, Option<(u16, Seq<(Seq<char>, Seq<char>)>)>, Seq<u8>) {
    let s2 = take_body(s, bytes, is_attachment);
    if !s2.headers_sent {
        let s3 = announce_body(s2, millis);
        (RespV { headers_sent: true, ..s3 }, Some((s3.code, head_pairs(s3.headers))), bytes)
    } else {
        (s2, None, bytes)
    }
}

/// Pushing a file: the status and headers announcing it are handed out
/// first if they were not; the file's bytes follow.
pub open spec fn push_file2(s: RespV, path: Seq<char>, is_attachment: bool, file_len: u64) -> (RespV, Option<(u16, Seq<(Seq<char>, Seq<char>)>)>) {
    let s2 = take_file(s, path, is_attachment);
    if !s2.headers_sent {
        let s3 = announce_file(s2, path, file_len);
        (RespV { headers_sent: true, ..s3 }, Some((s3.code, head_pairs(s3.headers))))
    } else {
        (s2, None)
    }
}

/// The status and headers handed out, as values.
pub open spec fn head_view(h: Option<(u16, Vec<(String, String)>)>) -> Option<(u16, Seq<(Seq<char>, Seq<char>)>)> {
    match h {
        Some((c, v)) => Some((c, pairs_view(v@))),
        None => None,
    }
}

/// Writes one HTTP/2 response.
pub struct Http2Stream {
    opts: Http2Opts,
    resp: Response,
}

impl Http2Stream {
    pub closed spec fn view(&self) -> RespV {
        self.resp@
    }

    pub fn new(opts: Http2Opts) -> (r: Http2Stream)
        ensures
            r@ == fresh_resp(),
    {
        Http2Stream { opts, resp: Response::new() }
    }

    /// Adds a header; `Content-Disposition`, `Content-Length` and
    /// `Content-Type` are carried once (see [`with_header`]).
    pub fn add_header(&mut self, key: &str, value: &str)
        ensures
            final(self)@ == (RespV { headers: with_header(old(self)@.headers, key@, value@), ..old(self)@ }),
    {
        self.resp.add_header(key, value);
    }

    /// Ends the response: the last chunk is empty and closes the stream;
    /// the writer is fresh again.
    pub fn end(&mut self) -> (r: Outgoing)
        ensures
            r.chunk@ == Seq::<u8>::empty(),
            r.flush,
            final(self)@ == fresh_resp(),
    {
        self.reset();
        Outgoing { chunk: Vec::new(), flush: true }
    }

    /// The headers of the response (see [`head_pairs`]).
    pub fn get_headers(&self) -> (r: Vec<(String, String)>)
        ensures
            pairs_view(r@) == head_pairs(self@.headers),
    {
        self.resp.head_http2()
    }

    /// The media type of a file extension (with its dot).
    pub fn get_mime(&self, ext: &str) -> (r: String)
        ensures
            r@ == mime_of(vstd::string::StringSliceAdditionalSpecFns::spec_bytes(ext), self@.encoding),
    {
        self.resp.get_mime(ext)
    }

    pub fn set_encoding(&mut self, encoding: String)
        ensures
            final(self)@ == (RespV { encoding: encoding@, ..old(self)@ }),
    {
        self.resp.set_encoding(encoding);
    }

    pub fn set_code(&mut self, code: u16)
        ensures
            final(self)@ == (RespV { code, ..old(self)@ }),
    {
        self.resp.set_code(code);
    }

    pub fn set_compression(&mut self, compression: Option<String>)
        ensures
            final(self)@ == (RespV { compression, ..old(self)@ }),
    {
        self.resp.set_compression(compression);
    }

    pub fn set_headers(&mut self, headers: Vec<(String, String)>)
        ensures
            final(self)@ == (RespV { headers: pairs_view(headers@), ..old(self)@ }),
    {
        self.resp.set_headers(headers);
    }

    /// Pushes a body of bytes, with `millis` as the download name of an
    /// attachment (see [`push_body2`]); gives the status and headers to
    /// send first, if any, and the bytes.
    pub fn push_bytes_at(&mut self, bytes: &[u8], is_attachment: bool, millis: u64) -> (r: (Option<(u16, Vec<(String, String)>)>, Vec<u8>))
        requires
            push_allowed(old(self)@, is_attachment),
            old(self)@.file_path is None,
        ensures
            (final(self)@, head_view(r.0), r.1@) == push_body2(old(self)@, bytes@, is_attachment, millis),
    {
        self.resp.take_body(bytes, is_attachment);
        let mut head: Option<(u16, Vec<(String, String)>)> = None;
        if !self.resp.headers_sent() {
            self.resp.announce_body(millis);
            head = Some((self.resp.code(), self.resp.head_http2()));
            self.resp.mark_sent();
        }
        (head, self.resp.body_copy())
    }

    /// Pushes a body of bytes (see [`Self::push_bytes_at`]); an attachment
    /// is named by the clock.
    pub fn push_bytes(&mut self, bytes: &[u8], is_attachment: bool) -> (r: (Option<(u16, Vec<(String, String)>)>, Vec<u8>))
        requires
            push_allowed(old(self)@, is_attachment),
            old(self)@.file_path is None,
        ensures
            exists|m: u64| (final(self)@, head_view(r.0), r.1@) == #[trigger] push_body2(old(self)@, bytes@, is_attachment, m),
    {
        let m = clock_millis();
        self.push_bytes_at(bytes, is_attachment, m)
    }

    /// Pushes `json` as a body: its JSON text (see [`Self::push_bytes`]).
    pub fn push_json(&mut self, json: Json, is_attachment: bool) -> (r: (Option<(u16, Vec<(String, String)>)>, Vec<u8>))
        requires
            push_allowed(old(self)@, is_attachment),
            old(self)@.file_path is None,
        ensures
            exists|m: u64| (final(self)@, head_view(r.0), r.1@) == #[trigger] push_body2(old(self)@, json_text_of(json.view()), is_attachment, m),
    {
        let text = json_text(&json);
        self.push_bytes(text.as_slice(), is_attachment)
    }

    /// Pushes a file of `file_len` bytes (see [`push_file2`]); gives the
    /// status and headers to send first, if any. The file's bytes follow.
    pub fn push_file(&mut self, file_path: &str, is_attachment: bool, file_len: u64) -> (r: Option<(u16, Vec<(String, String)>)>)
        requires
            push_allowed(old(self)@, is_attachment),
            old(self)@.body is None,
        ensures
            (final(self)@, head_view(r)) == push_file2(old(self)@, file_path@, is_attachment, file_len),
    {
        self.resp.take_file(file_path, is_attachment);
        if !self.resp.headers_sent() {
            self.resp.announce_file(file_path, file_len);
            let h = (self.resp.code(), self.resp.head_http2());
            self.resp.mark_sent();
            return Some(h);
        }
        None
    }

    /// Back to a fresh response.
    pub fn reset(&mut self)
        ensures
            final(self)@ == fresh_resp(),
    {
        self.resp.reset();
    }
}


/// The answer to a request that no handler takes: `{"code": 404, "error":
/// "Not Found."}`, sent with status 404.
pub fn not_found_answer() -> (r: (u16, Json))
    ensures
        r.0 == 404,
        r.1.view() == crate::error::answer_view(seq![52u8, 48u8, 52u8], "Not Found.".spec_bytes()),
{
    (404, crate::error::answer_json(vec![52u8, 48u8, 52u8], vstd::slice::slice_to_vec("Not Found.".as_bytes())))
}

} // verus!
