//! WebSocket sessions: an HTTP handshake, then framed messages.
use vstd::prelude::*;
use crate::serialize::{json_parse_of, json_text, json_text_of, parse_json};
use vstd::string::StringSliceAdditionalSpecFns;
use crate::ctx::{CtxV, RequestCtx};
use crate::error::{err, ErrorKind, Reason, ReqError};
use crate::framing::{after_json, frame, framed, frame_step, meta_overflows, MessageReader, MsgV};
use crate::json::{member, Json, JsonV};
use crate::request::{
    fresh_req, head_step, lemma_head_shape, stage_read, BodyOpts, Dialect, HttpReq, HttpReqV, Stage,
    StageOut,
};
use crate::uds::{
    frame_progress, frame_read_out, json_pending, member_of, payload_key, read_out, topic_key,
    Progress, ReadOut,
};
use crate::wt::{close_chunk, envelope_for, envelope_view, topic_text, topic_text_exec, MsgStreamV};

verus! {

/// Settings of a WebSocket server.
pub struct WebSocketOpts {
    pub block_size_kb: usize,
    pub compression: bool,
    pub max_message_size_kb: u64,
    pub ping_timeout: u64,
    pub port: u16,
    pub rate_limit: u64,
    pub read_timeout: u64,
    pub send_timeout: u64,
    pub thread_limit: u64,
}

/// Bytes handed out with a message.
pub type WebSocketBytes = Vec<u8>;

/// The settings can be used: the message limit in bytes fits in a `u64`.
pub open spec fn ws_opts_ok(opts: WebSocketOpts) -> bool {
    opts.max_message_size_kb * 1024 <= u64::MAX
}

/// The largest message, in bytes.
pub open spec fn ws_max(opts: WebSocketOpts) -> usize {
    (opts.max_message_size_kb * 1024) as u64 as usize
}

/// The state of a [`WebSocketReq`], as values: the handshake, the message
/// being read, and its topic.
pub struct WsReqV {
    pub head: HttpReqV,
    pub msg: MsgV,
    pub topic: Seq<u8>,
}

/// Reading a message once the handshake is complete.
pub open spec fn ws_body(s: WsReqV, opts: WebSocketOpts) -> (WsReqV, ReadOut) {
    if s.msg.has_body {
        (s, ReadOut::Ready)
    } else {
        let (m, o) = frame_step(s.msg, Some(ws_max(opts)), Reason::MetaPlusMissing);
        (WsReqV { msg: m, ..s }, frame_read_out(o))
    }
}

/// One reading step of a session: the handshake head first; the bytes
/// after it are the messages.
pub open spec fn ws_step(s: WsReqV, opts: WebSocketOpts) -> (WsReqV, ReadOut) {
    if !s.head.has_headers {
        let (h, o) = head_step(s.head);
        if !(o is Next) {
            (WsReqV { head: h, ..s }, stage_read(o))
        } else {
            ws_body(
                WsReqV {
                    head: HttpReqV { buff: seq![], ..h },
                    msg: MsgV { buff: s.msg.buff + h.buff, ..s.msg },
                    ..s
                },
                opts,
            )
        }
    } else {
        ws_body(s, opts)
    }
}

/// One call of `read_block`: a step of [`ws_step`], where a JSON part that
/// it hands out is parsed at once (see [`json_parse_of`]) and judged (see
/// [`ws_accept`]).
pub open spec fn ws_block(s: WsReqV, opts: WebSocketOpts) -> (WsReqV, ReadOut) {
    match ws_step(s, opts) {
        (t, ReadOut::ParseJson(text)) => ws_accept(t, json_parse_of(text)),
        other => other,
    }
}

/// Judging the parsed JSON part: the message needs a `topic` and a
/// `payload`; the topic goes into the context, and the payload, which must
/// be an object, becomes the body.
pub open spec fn ws_accept(s: WsReqV, parsed: Option<JsonV>) -> (WsReqV, ReadOut) {
    match parsed {
        None => (
            WsReqV { msg: MsgV { buff: seq![], ..s.msg }, ..s },
            ReadOut::Fail(err(ErrorKind::InvalidInput, Reason::InvalidJson)),
        ),
        Some(j) => {
            if member(j, topic_key()) is None || member(j, payload_key()) is None {
                (s, ReadOut::Fail(err(ErrorKind::InvalidInput, Reason::InvalidMessage)))
            } else {
                let tv = member(j, topic_key())->0;
                let p = member(j, payload_key())->0;
                let s1 = WsReqV {
                    topic: topic_text(tv),
                    head: HttpReqV { ctx: CtxV { topic: tv, ..s.head.ctx }, ..s.head },
                    ..s
                };
                if !(p is Object) {
                    (
                        WsReqV { msg: MsgV { buff: seq![], ..s1.msg }, ..s1 },
                        ReadOut::Fail(err(ErrorKind::InvalidInput, Reason::InvalidApplicationJson)),
                    )
                } else {
                    let (m, o) = after_json(s1.msg);
                    (
                        WsReqV {
                            msg: m,
                            head: HttpReqV { ctx: CtxV { body: p, ..s1.head.ctx }, ..s1.head },
                            ..s1
                        },
                        frame_read_out(o),
                    )
                }
            }
        },
    }
}

/// What a session reader keeps true: it reads a WebSocket handshake, and
/// its bytes wait in the handshake reader until the head is complete, in
/// the message reader after.
pub open spec fn ws_inv(s: WsReqV) -> bool {
    &&& s.head.dialect == Dialect::WebSocket
    &&& s.head.has_headers ==> s.head.buff.len() == 0
    &&& !s.head.has_headers ==> s.msg.buff.len() == 0
}

/// Reads the handshake and the messages of one WebSocket session.
pub struct WebSocketReq {
    opts: WebSocketOpts,
    head: HttpReq,
    reader: MessageReader,
    topic: Vec<u8>,
}

impl WebSocketReq {
    pub closed spec fn view(&self) -> WsReqV {
        WsReqV { head: self.head@, msg: self.reader@, topic: self.topic@ }
    }

    pub closed spec fn opts(&self) -> WebSocketOpts {
        self.opts
    }

    pub fn new(opts: WebSocketOpts) -> (r: WebSocketReq)
        ensures
            r@ == (WsReqV {
                head: fresh_req(Dialect::WebSocket, r@.head.opts),
                msg: MsgV {
                    buff: seq![],
                    has_meta: false,
                    has_body: false,
                    json_length: 0,
                    binary_length: 0,
                    binary: seq![],
                },
                topic: seq![],
            }),
            ws_inv(r@),
            r.opts() == opts,
    {
        let bo = BodyOpts {
            allow_empty_files: false,
            keep_extensions: false,
            max_fields: 0,
            max_fields_size_total_mb: 0,
            max_files: 0,
            max_files_size_total_mb: 0,
            max_file_size_mb: 0,
            storage_path: String::new(),
        };
        WebSocketReq {
            opts,
            head: HttpReq::new(Dialect::WebSocket, bo),
            reader: MessageReader::new(),
            topic: Vec::new(),
        }
    }

    /// Appends received bytes.
    pub fn add(&mut self, block: &[u8])
        requires
            ws_inv(old(self)@),
        ensures
            ws_inv(final(self)@),
            final(self).opts() == old(self).opts(),
            old(self)@.head.has_headers ==> final(self)@ == (WsReqV {
                msg: MsgV { buff: old(self)@.msg.buff + block@, ..old(self)@.msg },
                ..old(self)@
            }),
            !old(self)@.head.has_headers ==> final(self)@ == (WsReqV {
                head: HttpReqV { buff: old(self)@.head.buff + block@, ..old(self)@.head },
                ..old(self)@
            }),
    {
        if self.head_done() {
            self.reader.buff.extend_from_slice(block);
            assert(self.reader.buff@ =~= old(self).reader.buff@ + block@);
        } else {
            self.head.add(block);
        }
    }

    fn head_done(&self) -> (r: bool)
        ensures
            r == self@.head.has_headers,
    {
        self.head.has_headers_exec()
    }

    /// The binary part of the last message.
    pub fn get_bytes(&self) -> (r: Vec<u8>)
        ensures
            r@ == self@.msg.binary,
    {
        vstd::slice::slice_to_vec(self.reader.binary.as_slice())
    }

    /// The compression asked for by the client (this reader never sets one).
    pub fn get_compression(&self) -> (r: Option<String>)
        ensures
            r is None,
    {
        None
    }

    /// The context of the session and of its last message.
    pub fn get_ctx(&self) -> (r: RequestCtx)
        ensures
            r@ == self@.head.ctx,
    {
        self.head.get_ctx()
    }

    /// The client address announced by the handshake, or `_`.
    pub fn get_ip(&self) -> (r: Vec<u8>)
        ensures
            r@ == match self@.head.ip {
                Some(v) => v,
                None => seq![95u8],
            },
    {
        match self.head.get_ip() {
            Some(v) => v,
            None => {
                let r: Vec<u8> = vec![95u8];
                assert(r@ =~= seq![95u8]);
                r
            },
        }
    }

    /// The topic of the last message.
    pub fn get_topic(&self) -> (r: Vec<u8>)
        ensures
            r@ == self@.topic,
    {
        vstd::slice::slice_to_vec(self.topic.as_slice())
    }

    /// Records the client's address.
    pub fn set_addr(&mut self, addr: &str)
        requires
            ws_inv(old(self)@),
        ensures
            ws_inv(final(self)@),
            final(self).opts() == old(self).opts(),
            final(self)@ == (WsReqV {
                head: HttpReqV {
                    ctx: CtxV { addr: Some(JsonV::Str(addr.spec_bytes())), ..old(self)@.head.ctx },
                    ..old(self)@.head
                },
                ..old(self)@
            }),
    {
        self.head.set_addr(addr);
    }

    /// No bytes are waiting.
    pub fn is_empty(&self) -> (r: bool)
        ensures
            r == (self@.head.buff.len() == 0 && self@.msg.buff.len() == 0),
    {
        self.head.is_empty() && self.reader.buff.len() == 0
    }

    /// Whether, the handshake read, the next step would meet a meta whose
    /// two lengths add up past `usize::MAX`; [`Self::read_block`] must not
    /// be called then.
    pub fn meta_overflows_next(&self) -> (r: bool)
        requires
            ws_opts_ok(self.opts()),
        ensures
            r == (self@.head.has_headers && meta_overflows(
                self@.msg,
                Some(ws_max(self.opts())),
                Reason::MetaPlusMissing,
            )),
    {
        if !self.head_done() {
            return false;
        }
        let max: usize = (self.opts.max_message_size_kb * 1024) as usize;
        self.reader.overflows_with(Some(max), Reason::MetaPlusMissing)
    }

    /// One reading step; a JSON part is parsed and judged in the same call
    /// (see [`ws_block`]).
    pub fn read_block(&mut self) -> (r: Result<Progress, ReqError>)
        requires
            ws_inv(old(self)@),
            ws_opts_ok(old(self).opts()),
            !(ws_step(old(self)@, old(self).opts()).1 is Panic),
            old(self)@.head.has_headers ==> !meta_overflows(
                old(self)@.msg,
                Some(ws_max(old(self).opts())),
                Reason::MetaPlusMissing,
            ),
            !old(self)@.head.has_headers && !(head_step(old(self)@.head).1 is Panic)
                && head_step(old(self)@.head).1 is Next ==> !meta_overflows(
                MsgV { buff: old(self)@.msg.buff + head_step(old(self)@.head).0.buff, ..old(self)@.msg },
                Some(ws_max(old(self).opts())),
                Reason::MetaPlusMissing,
            ),
        ensures
            ws_inv(final(self)@),
            final(self).opts() == old(self).opts(),
            (final(self)@, read_out(r)) == ws_block(old(self)@, old(self).opts()),
            !(r matches Ok(Progress::ParseJson(_))),
    {
        let r = self.frame_read();
        match r {
            Ok(Progress::ParseJson(text)) => {
                proof {
                    lemma_head_shape(old(self)@.head);
                }
                let parsed = parse_json(text.as_slice());
                self.accept_json(parsed)
            },
            other => other,
        }
    }

    /// One step of [`ws_step`], handing a JSON part out unparsed.
    fn frame_read(&mut self) -> (r: Result<Progress, ReqError>)
        requires
            ws_inv(old(self)@),
            ws_opts_ok(old(self).opts()),
            !(ws_step(old(self)@, old(self).opts()).1 is Panic),
            old(self)@.head.has_headers ==> !meta_overflows(
                old(self)@.msg,
                Some(ws_max(old(self).opts())),
                Reason::MetaPlusMissing,
            ),
            !old(self)@.head.has_headers && !(head_step(old(self)@.head).1 is Panic)
                && head_step(old(self)@.head).1 is Next ==> !meta_overflows(
                MsgV { buff: old(self)@.msg.buff + head_step(old(self)@.head).0.buff, ..old(self)@.msg },
                Some(ws_max(old(self).opts())),
                Reason::MetaPlusMissing,
            ),
        ensures
            ws_inv(final(self)@),
            final(self).opts() == old(self).opts(),
            (final(self)@, read_out(r)) == ws_step(old(self)@, old(self).opts()),
    {
        if !self.head_done() {
            proof {
                lemma_head_shape(old(self)@.head);
            }
            match self.head.read_head() {
                Stage::Next => {},
                Stage::Pending => {
                    return Ok(Progress::Pending);
                },
                Stage::Fail(e) => {
                    return Err(e);
                },
            }
            let rest = self.head.take_buff();
            self.reader.buff.extend_from_slice(rest.as_slice());
            assert(self.reader.buff@ =~= old(self).reader.buff@ + rest@);
        }
        if self.reader.has_body {
            return Ok(Progress::Ready);
        }
        let max: usize = (self.opts.max_message_size_kb * 1024) as usize;
        let s = self.reader.step(Some(max), Reason::MetaPlusMissing);
        frame_progress(s)
    }

    /// Judges the parsed JSON part that the last step asked for (`None`
    /// when it did not parse); see [`ws_accept`].
    pub fn accept_json(&mut self, parsed: Option<Json>) -> (r: Result<Progress, ReqError>)
        requires
            ws_inv(old(self)@),
            old(self)@.head.has_headers,
            json_pending(old(self)@.msg),
        ensures
            ws_inv(final(self)@),
            final(self).opts() == old(self).opts(),
            (final(self)@, read_out(r)) == ws_accept(
                old(self)@,
                match parsed {
                    Some(j) => Some(j.view()),
                    None => None,
                },
            ),
    {
        let j = match parsed {
            None => {
                self.reader.buff.clear();
                return Err(ReqError::new(ErrorKind::InvalidInput, Reason::InvalidJson));
            },
            Some(j) => j,
        };
        let topic_name: [u8; 5] = [116u8, 111u8, 112u8, 105u8, 99u8];
        let payload_name: [u8; 7] = [112u8, 97u8, 121u8, 108u8, 111u8, 97u8, 100u8];
        assert(topic_name@ =~= topic_key());
        assert(payload_name@ =~= payload_key());
        let tv = member_of(&j, topic_name.as_slice());
        let p = member_of(&j, payload_name.as_slice());
        match (tv, p) {
            (Some(tv), Some(p)) => {
                self.topic = topic_text_exec(&tv);
                self.head.set_ctx_topic(tv);
                match p {
                    Json::Object(_) => {},
                    _ => {
                        self.reader.buff.clear();
                        return Err(
                            ReqError::new(ErrorKind::InvalidInput, Reason::InvalidApplicationJson),
                        );
                    },
                }
                self.head.set_ctx_body(p);
                let s = self.reader.accept_json();
                frame_progress(s)
            },
            _ => Err(ReqError::new(ErrorKind::InvalidInput, Reason::InvalidMessage)),
        }
    }

    /// Gets ready for the next message of the session: the handshake stays,
    /// the message state and what messages put into the context are cleared.
    pub fn reset(&mut self)
        requires
            ws_inv(old(self)@),
        ensures
            ws_inv(final(self)@),
            final(self).opts() == old(self).opts(),
            final(self)@ == (WsReqV {
                head: HttpReqV {
                    ctx: CtxV {
                        topic: JsonV::Null,
                        files: JsonV::Object(seq![]),
                        body: JsonV::Object(seq![]),
                        query: JsonV::Object(seq![]),
                        ..old(self)@.head.ctx
                    },
                    ..old(self)@.head
                },
                msg: MsgV {
                    has_body: false,
                    has_meta: false,
                    binary: seq![],
                    binary_length: 0,
                    json_length: 0,
                    ..old(self)@.msg
                },
                topic: seq![],
            }),
    {
        self.reader.has_body = false;
        self.reader.has_meta = false;
        self.reader.binary.clear();
        self.reader.binary_length = 0;
        self.reader.json_length = 0;
        self.topic.clear();
        self.head.clear_message_ctx();
    }
}

/// Writes messages to one WebSocket session.
pub struct WebSocketStream {
    opts: WebSocketOpts,
    compression: Option<String>,
    headers_sent: bool,
    topic: String,
}

/// `<bytes>`: the payload announced for a message of bytes alone.
pub open spec fn bytes_payload() -> JsonV {
    JsonV::Str(seq![60u8, 98u8, 121u8, 116u8, 101u8, 115u8, 62u8])
}

impl WebSocketStream {
    pub closed spec fn view(&self) -> MsgStreamV {
        MsgStreamV {
            compression: self.compression,
            headers_sent: self.headers_sent,
            topic: self.topic@,
        }
    }

    pub fn new(opts: WebSocketOpts) -> (r: WebSocketStream)
        ensures
            r@ == (MsgStreamV { compression: None, headers_sent: false, topic: seq![] }),
    {
        WebSocketStream { opts, compression: None, headers_sent: false, topic: String::new() }
    }

    /// Forgets the compression and gives the chunk that closes the session.
    pub fn close(&mut self) -> (r: Vec<u8>)
        ensures
            final(self)@ == (MsgStreamV { compression: None, headers_sent: false, ..old(self)@ }),
            r@ == close_chunk(),
    {
        self.compression = None;
        self.headers_sent = false;
        let r: Vec<u8> = vec![120u8];
        assert(r@ =~= close_chunk());
        r
    }

    /// The message sent for `payload` (see [`envelope_view`]); the
    /// compression is announced until headers are sent, which this stream
    /// never records.
    pub fn envelope(&self, payload: Json) -> (r: Json)
        ensures
            r.view() == envelope_view(
                self@.topic,
                if self@.headers_sent {
                    None
                } else {
                    self@.compression
                },
                payload.view(),
            ),
    {
        if self.headers_sent {
            envelope_for(&self.topic, &None, payload)
        } else {
            envelope_for(&self.topic, &self.compression, payload)
        }
    }

    /// The message sent with bytes alone: its payload is `<bytes>`.
    pub fn bytes_envelope(&self) -> (r: Json)
        ensures
            r.view() == envelope_view(
                self@.topic,
                if self@.headers_sent {
                    None
                } else {
                    self@.compression
                },
                bytes_payload(),
            ),
    {
        let p: Vec<u8> = vec![60u8, 98u8, 121u8, 116u8, 101u8, 115u8, 62u8];
        let pj = Json::Str(p);
        assert(pj.view() == bytes_payload());
        self.envelope(pj)
    }

    /// Sends `payload` with `bytes`: the message (see [`Self::envelope`]) as
    /// JSON text, framed with the bytes.
    pub fn push(&mut self, payload: Json, bytes: &[u8]) -> (r: Vec<u8>)
        ensures
            r@ == framed(
                json_text_of(envelope_view(old(self)@.topic, if old(self)@.headers_sent { None } else { old(self)@.compression }, payload.view())),
                bytes@,
            ),
            final(self)@ == old(self)@,
    {
        let message = json_text(&self.envelope(payload));
        frame(message.as_slice(), bytes)
    }

    /// Sends `bytes` alone: the bytes message (see [`Self::bytes_envelope`])
    /// as JSON text, framed with the bytes.
    pub fn push_bytes(&mut self, bytes: &[u8]) -> (r: Vec<u8>)
        ensures
            r@ == framed(
                json_text_of(envelope_view(old(self)@.topic, if old(self)@.headers_sent { None } else { old(self)@.compression }, bytes_payload())),
                bytes@,
            ),
            final(self)@ == old(self)@,
    {
        let message = json_text(&self.bytes_envelope());
        frame(message.as_slice(), bytes)
    }

    /// Sends `payload` without bytes.
    pub fn push_json(&mut self, payload: Json) -> (r: Vec<u8>)
        ensures
            r@ == framed(
                json_text_of(envelope_view(old(self)@.topic, if old(self)@.headers_sent { None } else { old(self)@.compression }, payload.view())),
                seq![],
            ),
            final(self)@ == old(self)@,
    {
        let message = json_text(&self.envelope(payload));
        let none: [u8; 0] = [];
        assert(none@ =~= Seq::<u8>::empty());
        frame(message.as_slice(), none.as_slice())
    }

    /// Sets the compression to announce.
    pub fn set_compression(&mut self, compression: Option<String>)
        ensures
            final(self)@ == (MsgStreamV { compression, headers_sent: false, ..old(self)@ }),
    {
        self.compression = compression;
        self.headers_sent = false;
    }

    /// Sets the topic of the messages sent.
    pub fn set_topic(&mut self, topic: &str)
        ensures
            final(self)@ == (MsgStreamV { topic: topic@, ..old(self)@ }),
    {
        self.topic = topic.to_owned();
    }
}


/// Admission of a new connection from an address that already holds
/// `count` of them: refused (`None`) once the count has reached
/// `rate_limit`, else the count with the new one.
pub fn admit_connection(count: u64, rate_limit: u64) -> (r: Option<u64>)
    ensures
        r == (if count >= rate_limit {
            None
        } else {
            Some((count + 1) as u64)
        }),
{
    if count >= rate_limit {
        None
    } else {
        Some(count + 1)
    }
}

/// The count of an address after one of its connections closed: `None`
/// when none is left (the address is forgotten).
pub fn release(count: u64) -> (r: Option<u64>)
    ensures
        r == (if count <= 1 {
            None
        } else {
            Some((count - 1) as u64)
        }),
{
    if count <= 1 {
        None
    } else {
        Some(count - 1)
    }
}

/// The peer has not answered a ping for longer than `ping_timeout`
/// seconds: the last answer came at `last`, and it is now `now`.
pub fn ping_expired(now: u64, last: u64, ping_timeout: u64) -> (r: bool)
    ensures
        r == (now > last && now - last > ping_timeout),
{
    now > last && now - last > ping_timeout
}

/// Which handler takes a message or a request.
#[derive(PartialEq, Eq, Structural, Clone, Copy, Debug)]
pub enum Route {
    /// The handler of the message's topic.
    Topic,
    /// The handler of `_`, for topics that have none.
    Default,
}

/// The handler of the topic (or path) when there is one, else that of `_`,
/// else none.
pub fn route(has_topic: bool, has_default: bool) -> (r: Option<Route>)
    ensures
        r == (if has_topic {
            Some(Route::Topic)
        } else if has_default {
            Some(Route::Default)
        } else {
            None
        }),
{
    if has_topic {
        Some(Route::Topic)
    } else if has_default {
        Some(Route::Default)
    } else {
        None
    }
}

} // verus!
