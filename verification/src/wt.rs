//! WebTransport sessions: framed messages over a bidirectional stream.
use vstd::prelude::*;
use crate::serialize::{json_parse_of, json_text, json_text_of, parse_json};
use vstd::string::StringSliceAdditionalSpecFns;
use crate::ctx::{fresh_ctx, make_ctx, str_json, CtxV, RequestCtx};
use crate::error::{err, ErrorKind, Reason, ReqError};
use crate::framing::{
    after_json, frame, framed, frame_step, meta_overflows, MessageReader, MsgV,
};
use crate::json::{entries_view, lemma_object_view, member, Json, JsonV};
use crate::uds::{
    frame_progress, frame_read_out, json_pending, member_of, payload_key, read_out, topic_key,
    Progress, ReadOut,
};

verus! {

/// Settings of a WebTransport server.
pub struct WebTransportOpts {
    pub block_size_kb: usize,
    pub cert_pem: String,
    pub compression: bool,
    pub handshake_timeout: u64,
    pub key_pem: String,
    pub max_message_size_kb: u64,
    pub ping_timeout: u64,
    pub port: u16,
    pub send_timeout: u64,
    pub thread_limit: u64,
}

/// Bytes handed out with a message.
pub type WebTransportBytes = Vec<u8>;

/// The settings can be used: the message limit in bytes fits in a `u64`.
pub open spec fn wt_opts_ok(opts: WebTransportOpts) -> bool {
    opts.max_message_size_kb * 1024 <= u64::MAX
}

/// The largest message, in bytes.
pub open spec fn wt_max(opts: WebTransportOpts) -> usize {
    (opts.max_message_size_kb * 1024) as u64 as usize
}

/// The context of a fresh session.
pub open spec fn wt_initial_ctx() -> CtxV {
    fresh_ctx(None, JsonV::Null, JsonV::Null, "WebTransport".spec_bytes(), JsonV::Str("_".spec_bytes()))
}

/// The state of a [`WebTransportReq`], as values.
pub struct WtReqV {
    pub msg: MsgV,
    pub topic: Seq<u8>,
    pub ctx: CtxV,
}

/// One reading step of a WebTransport session.
pub open spec fn wt_read(s: WtReqV, opts: WebTransportOpts) -> (WtReqV, ReadOut) {
    if s.msg.has_body {
        (s, ReadOut::Ready)
    } else {
        let (m, o) = frame_step(s.msg, Some(wt_max(opts)), Reason::MetaPlusMissing);
        (WtReqV { msg: m, ..s }, frame_read_out(o))
    }
}

/// One call of `read_block`: a step of [`wt_read`], where a JSON part that
/// it hands out is parsed at once (see [`json_parse_of`]) and judged (see
/// [`wt_accept`]).
pub open spec fn wt_block(s: WtReqV, opts: WebTransportOpts) -> (WtReqV, ReadOut) {
    match wt_read(s, opts) {
        (t, ReadOut::ParseJson(text)) => wt_accept(t, json_parse_of(text)),
        other => other,
    }
}

/// Judging the parsed JSON part: the message needs a `topic` and a
/// `payload`; the topic text (empty unless a string) names the handler, the
/// topic value and the payload go into the context.
pub open spec fn wt_accept(s: WtReqV, parsed: Option<JsonV>) -> (WtReqV, ReadOut) {
    match parsed {
        None => (
            WtReqV { msg: MsgV { buff: seq![], ..s.msg }, ..s },
            ReadOut::Fail(err(ErrorKind::InvalidInput, Reason::InvalidJson)),
        ),
        Some(j) => {
            if member(j, topic_key()) is None || member(j, payload_key()) is None {
                (s, ReadOut::Fail(err(ErrorKind::InvalidInput, Reason::InvalidMessage)))
            } else {
                let tv = member(j, topic_key())->0;
                let p = member(j, payload_key())->0;
                let (m, o) = after_json(s.msg);
                (
                    WtReqV {
                        msg: m,
                        topic: topic_text(tv),
                        ctx: CtxV { topic: tv, body: p, ..s.ctx },
                    },
                    frame_read_out(o),
                )
            }
        },
    }
}

/// The text of a string value; empty for anything else.
pub open spec fn topic_text(v: JsonV) -> Seq<u8> {
    match v {
        JsonV::Str(t) => t,
        _ => seq![],
    }
}

/// The text of a string value, copied.
pub fn topic_text_exec(v: &Json) -> (r: Vec<u8>)
    ensures
        r@ == topic_text(v.view()),
{
    match v {
        Json::Str(t) => vstd::slice::slice_to_vec(t.as_slice()),
        _ => Vec::new(),
    }
}

/// Reads the messages of one WebTransport session.
pub struct WebTransportReq {
    opts: WebTransportOpts,
    reader: MessageReader,
    topic: Vec<u8>,
    compression: Option<String>,
    ctx: RequestCtx,
}

impl WebTransportReq {
    pub closed spec fn view(&self) -> WtReqV {
        WtReqV { msg: self.reader@, topic: self.topic@, ctx: self.ctx@ }
    }

    pub closed spec fn opts(&self) -> WebTransportOpts {
        self.opts
    }

    pub closed spec fn compression(&self) -> Option<String> {
        self.compression
    }

    pub fn new(opts: WebTransportOpts) -> (r: WebTransportReq)
        ensures
            r@ == (WtReqV {
                msg: MsgV {
                    buff: seq![],
                    has_meta: false,
                    has_body: false,
                    json_length: 0,
                    binary_length: 0,
                    binary: seq![],
                },
                topic: seq![],
                ctx: wt_initial_ctx(),
            }),
            r.opts() == opts,
            r.compression() is None,
    {
        WebTransportReq {
            opts,
            reader: MessageReader::new(),
            topic: Vec::new(),
            compression: None,
            ctx: make_ctx(None, Json::Null, Json::Null, "WebTransport", str_json("_")),
        }
    }

    /// Appends a block of received bytes.
    pub fn add(&mut self, block: &[u8])
        ensures
            final(self)@ == (WtReqV {
                msg: MsgV { buff: old(self)@.msg.buff + block@, ..old(self)@.msg },
                ..old(self)@
            }),
            final(self).opts() == old(self).opts(),
            final(self).compression() == old(self).compression(),
    {
        self.reader.buff.extend_from_slice(block);
        assert(self.reader.buff@ =~= old(self).reader.buff@ + block@);
    }

    /// The binary part of the last message.
    pub fn get_bytes(&self) -> (r: Vec<u8>)
        ensures
            r@ == self@.msg.binary,
    {
        vstd::slice::slice_to_vec(self.reader.binary.as_slice())
    }

    /// The compression asked for by the client (never set by this reader).
    pub fn get_compression(&self) -> (r: Option<String>)
        ensures
            r == self.compression(),
    {
        self.compression.clone()
    }

    /// The context of the last message.
    pub fn get_ctx(&self) -> (r: RequestCtx)
        ensures
            r@ == self@.ctx,
    {
        self.ctx.deep_clone()
    }

    /// The topic of the last message.
    pub fn get_topic(&self) -> (r: Vec<u8>)
        ensures
            r@ == self@.topic,
    {
        vstd::slice::slice_to_vec(self.topic.as_slice())
    }

    /// No bytes are waiting.
    pub fn is_empty(&self) -> (r: bool)
        ensures
            r == (self@.msg.buff.len() == 0),
    {
        self.reader.buff.len() == 0
    }

    /// Whether the next step would meet a meta whose two lengths add up past
    /// `usize::MAX`; [`Self::read_block`] must not be called then.
    pub fn meta_overflows_next(&self) -> (r: bool)
        requires
            wt_opts_ok(self.opts()),
        ensures
            r == meta_overflows(self@.msg, Some(wt_max(self.opts())), Reason::MetaPlusMissing),
    {
        let max: usize = (self.opts.max_message_size_kb * 1024) as usize;
        self.reader.overflows_with(Some(max), Reason::MetaPlusMissing)
    }

    /// One reading step; a JSON part is parsed and judged in the same call
    /// (see [`wt_block`]).
    pub fn read_block(&mut self) -> (r: Result<Progress, ReqError>)
        requires
            wt_opts_ok(old(self).opts()),
            !meta_overflows(old(self)@.msg, Some(wt_max(old(self).opts())), Reason::MetaPlusMissing),
        ensures
            (final(self)@, read_out(r)) == wt_block(old(self)@, old(self).opts()),
            !(r matches Ok(Progress::ParseJson(_))),
            final(self).opts() == old(self).opts(),
            final(self).compression() == old(self).compression(),
    {
        let r = self.frame_read();
        match r {
            Ok(Progress::ParseJson(text)) => {
                let parsed = parse_json(text.as_slice());
                self.accept_json(parsed)
            },
            other => other,
        }
    }

    /// One step of [`wt_read`], handing a JSON part out unparsed.
    fn frame_read(&mut self) -> (r: Result<Progress, ReqError>)
        requires
            wt_opts_ok(old(self).opts()),
            !meta_overflows(old(self)@.msg, Some(wt_max(old(self).opts())), Reason::MetaPlusMissing),
        ensures
            final(self)@ == wt_read(old(self)@, old(self).opts()).0,
            read_out(r) == wt_read(old(self)@, old(self).opts()).1,
            final(self).opts() == old(self).opts(),
            final(self).compression() == old(self).compression(),
    {
        if self.reader.has_body {
            return Ok(Progress::Ready);
        }
        let max: usize = (self.opts.max_message_size_kb * 1024) as usize;
        let s = self.reader.step(Some(max), Reason::MetaPlusMissing);
        frame_progress(s)
    }

    /// Judges the parsed JSON part that the last step asked for (`None`
    /// when it did not parse); see [`wt_accept`].
    pub fn accept_json(&mut self, parsed: Option<Json>) -> (r: Result<Progress, ReqError>)
        requires
            json_pending(old(self)@.msg),
        ensures
            final(self)@ == wt_accept(
                old(self)@,
                match parsed {
                    Some(j) => Some(j.view()),
                    None => None,
                },
            ).0,
            read_out(r) == wt_accept(
                old(self)@,
                match parsed {
                    Some(j) => Some(j.view()),
                    None => None,
                },
            ).1,
            final(self).opts() == old(self).opts(),
            final(self).compression() == old(self).compression(),
    {
        let j = match parsed {
            None => {
                self.reader.buff.clear();
                return Err(ReqError::new(ErrorKind::InvalidInput, Reason::InvalidJson));
            },
            Some(j) => j,
        };
        let topic_name: [u8; 5] = [116u8, 111u8, 112u8, 105u8, 99u8];
        let payload_name: [u8; 7] = [112u8, 97u8, 121u8, 108u8, 111u8, 97u8, 100u8];
        assert(topic_name@ =~= topic_key());
        assert(payload_name@ =~= payload_key());
        let tv = member_of(&j, topic_name.as_slice());
        let p = member_of(&j, payload_name.as_slice());
        match (tv, p) {
            (Some(tv), Some(p)) => {
                self.topic = topic_text_exec(&tv);
                self.ctx.topic = tv;
                self.ctx.body = p;
                let s = self.reader.accept_json();
                frame_progress(s)
            },
            _ => Err(ReqError::new(ErrorKind::InvalidInput, Reason::InvalidMessage)),
        }
    }

    /// Gets ready for the next message.
    pub fn reset(&mut self)
        ensures
            final(self)@ == (WtReqV {
                msg: MsgV {
                    has_body: false,
                    has_meta: false,
                    binary: seq![],
                    binary_length: 0,
                    json_length: 0,
                    ..old(self)@.msg
                },
                topic: seq![],
                ctx: wt_initial_ctx(),
            }),
            final(self).opts() == old(self).opts(),
            final(self).compression() is None,
    {
        self.reader.has_body = false;
        self.reader.has_meta = false;
        self.reader.binary.clear();
        self.reader.binary_length = 0;
        self.reader.json_length = 0;
        self.topic.clear();
        self.compression = None;
        self.ctx = make_ctx(None, Json::Null, Json::Null, "WebTransport", str_json("_"));
    }
}

/// The message sent for a payload: `{"topic", "payload"}`, plus
/// `"compression"` when one is set.
pub open spec fn envelope_view(topic: Seq<char>, compression: Option<String>, payload: JsonV) -> JsonV {
    let base = seq![
        (topic_key(), JsonV::Str(vstd::utf8::encode_utf8(topic))),
        (payload_key(), payload),
    ];
    match compression {
        Some(c) => JsonV::Object(base.push((compression_key(), JsonV::Str(vstd::utf8::encode_utf8(c@))))),
        None => JsonV::Object(base),
    }
}

/// `compression`
pub open spec fn compression_key() -> Seq<u8> {
    seq![99u8, 111u8, 109u8, 112u8, 114u8, 101u8, 115u8, 115u8, 105u8, 111u8, 110u8]
}

/// Builds the message sent for a payload (see [`envelope_view`]).
pub fn envelope_for(topic: &String, compression: &Option<String>, payload: Json) -> (r: Json)
    ensures
        r.view() == envelope_view(topic@, *compression, payload.view()),
{
    let mut entries: Vec<(Vec<u8>, Json)> = Vec::new();
    let k1: Vec<u8> = vec![116u8, 111u8, 112u8, 105u8, 99u8];
    let k2: Vec<u8> = vec![112u8, 97u8, 121u8, 108u8, 111u8, 97u8, 100u8];
    let ghost pv = payload.view();
    let t = vstd::slice::slice_to_vec(topic.as_str().as_bytes());
    entries.push((k1, Json::Str(t)));
    entries.push((k2, payload));
    let ghost base = entries_view(entries@);
    proof {
        lemma_object_view(entries);
        assert(k1@ =~= topic_key());
        assert(k2@ =~= payload_key());
        assert(base =~= seq![
            (topic_key(), JsonV::Str(vstd::utf8::encode_utf8(topic@))),
            (payload_key(), pv),
        ]);
    }
    match compression {
        Some(c) => {
            let k3: Vec<u8> = vec![99u8, 111u8, 109u8, 112u8, 114u8, 101u8, 115u8, 115u8, 105u8, 111u8, 110u8];
            let cv = vstd::slice::slice_to_vec(c.as_str().as_bytes());
            entries.push((k3, Json::Str(cv)));
            proof {
                lemma_object_view(entries);
                assert(k3@ =~= compression_key());
                assert(entries_view(entries@) =~= base.push(
                    (compression_key(), JsonV::Str(vstd::utf8::encode_utf8(c@))),
                ));
            }
        },
        None => {},
    }
    Json::Object(entries)
}

/// `x`: the chunk that tells the writer to close the session.
pub open spec fn close_chunk() -> Seq<u8> {
    seq![120u8]
}

/// Writes messages to one WebTransport session.
pub struct WebTransportStream {
    opts: WebTransportOpts,
    compression: Option<String>,
    headers_sent: bool,
    topic: String,
}

/// The state of a message writer, as values.
pub struct MsgStreamV {
    pub compression: Option<String>,
    pub headers_sent: bool,
    pub topic: Seq<char>,
}

impl WebTransportStream {
    pub closed spec fn view(&self) -> MsgStreamV {
        MsgStreamV {
            compression: self.compression,
            headers_sent: self.headers_sent,
            topic: self.topic@,
        }
    }

    pub fn new(opts: WebTransportOpts) -> (r: WebTransportStream)
        ensures
            r@ == (MsgStreamV { compression: None, headers_sent: false, topic: seq![] }),
    {
        WebTransportStream { opts, compression: None, headers_sent: false, topic: String::new() }
    }

    /// Forgets the compression and gives the chunk that closes the session.
    pub fn close(&mut self) -> (r: Vec<u8>)
        ensures
            final(self)@ == (MsgStreamV { compression: None, headers_sent: false, ..old(self)@ }),
            r@ == close_chunk(),
    {
        self.compression = None;
        self.headers_sent = false;
        let r: Vec<u8> = vec![120u8];
        assert(r@ =~= close_chunk());
        r
    }

    /// The message sent for `payload` (see [`envelope_view`]); the
    /// compression is announced until headers are sent, which this stream
    /// never records.
    pub fn envelope(&self, payload: Json) -> (r: Json)
        ensures
            r.view() == envelope_view(
                self@.topic,
                if self@.headers_sent {
                    None
                } else {
                    self@.compression
                },
                payload.view(),
            ),
    {
        if self.headers_sent {
            envelope_for(&self.topic, &None, payload)
        } else {
            envelope_for(&self.topic, &self.compression, payload)
        }
    }

    /// Sends `payload` with `bytes`: the message (see [`Self::envelope`]) as
    /// JSON text, framed with the bytes.
    pub fn push(&mut self, payload: Json, bytes: &[u8]) -> (r: Vec<u8>)
        ensures
            r@ == framed(
                json_text_of(envelope_view(old(self)@.topic, if old(self)@.headers_sent { None } else { old(self)@.compression }, payload.view())),
                bytes@,
            ),
            final(self)@ == old(self)@,
    {
        let message = json_text(&self.envelope(payload));
        frame(message.as_slice(), bytes)
    }

    /// The message sent with bytes alone: its payload is `<bytes>`.
    pub fn bytes_envelope(&self) -> (r: Json)
        ensures
            r.view() == envelope_view(
                self@.topic,
                if self@.headers_sent {
                    None
                } else {
                    self@.compression
                },
                crate::ws::bytes_payload(),
            ),
    {
        let p: Vec<u8> = vec![60u8, 98u8, 121u8, 116u8, 101u8, 115u8, 62u8];
        let pj = Json::Str(p);
        assert(pj.view() == crate::ws::bytes_payload());
        self.envelope(pj)
    }

    /// Sends `bytes` alone: the bytes message (see [`Self::bytes_envelope`])
    /// as JSON text, framed with the bytes.
    pub fn push_bytes(&mut self, bytes: &[u8]) -> (r: Vec<u8>)
        ensures
            r@ == framed(
                json_text_of(envelope_view(old(self)@.topic, if old(self)@.headers_sent { None } else { old(self)@.compression }, crate::ws::bytes_payload())),
                bytes@,
            ),
            final(self)@ == old(self)@,
    {
        let message = json_text(&self.bytes_envelope());
        frame(message.as_slice(), bytes)
    }

    /// Sends `payload` without bytes.
    pub fn push_json(&mut self, payload: Json) -> (r: Vec<u8>)
        ensures
            r@ == framed(
                json_text_of(envelope_view(old(self)@.topic, if old(self)@.headers_sent { None } else { old(self)@.compression }, payload.view())),
                seq![],
            ),
            final(self)@ == old(self)@,
    {
        let message = json_text(&self.envelope(payload));
        let none: [u8; 0] = [];
        assert(none@ =~= Seq::<u8>::empty());
        frame(message.as_slice(), none.as_slice())
    }

    /// Sets the compression to announce.
    pub fn set_compression(&mut self, compression: Option<String>)
        ensures
            final(self)@ == (MsgStreamV { compression, headers_sent: false, ..old(self)@ }),
    {
        self.compression = compression;
        self.headers_sent = false;
    }

    /// Sets the topic of the messages sent.
    pub fn set_topic(&mut self, topic: &str)
        ensures
            final(self)@ == (MsgStreamV { topic: topic@, ..old(self)@ }),
    {
        self.topic = topic.to_owned();
    }
}


/// What a WebTransport session remembers between events: when the peer
/// last pinged, in seconds since the epoch, and how long it may stay
/// silent.
#[derive(PartialEq, Eq, Structural, Clone, Copy, Debug)]
pub struct WtSession {
    pub last_ping: u64,
    pub ping_timeout: u64,
}

/// What happens to a session.
pub enum WtEvent {
    /// A message with this topic arrived at this time.
    Message(Vec<u8>, u64),
    /// The pong timer fired at this time.
    Tick(u64),
}

/// What the session owner is to do.
#[derive(PartialEq, Eq, Structural, Clone, Copy, Debug)]
pub enum WtAction {
    /// Hand the message to the handler of its topic.
    Dispatch,
    /// Nothing: a ping refreshed the session.
    Refreshed,
    /// Send a pong (see [`pong_frame`]).
    SendPong,
    /// The peer stayed silent too long: end the session.
    Close,
}

/// `ping`
pub open spec fn ping_topic() -> Seq<u8> {
    seq![112u8, 105u8, 110u8, 103u8]
}

/// The session's next state and action: a `ping` message refreshes the
/// deadline and goes to no handler, another message goes to its handler; at
/// a tick the session ends when the peer has been silent longer than the
/// ping timeout, and a pong is sent otherwise.
pub open spec fn wt_session_next(s: WtSession, e: WtEvent) -> (WtSession, WtAction) {
    match e {
        WtEvent::Message(topic, now) => if topic@ == ping_topic() {
            (WtSession { last_ping: now, ..s }, WtAction::Refreshed)
        } else {
            (s, WtAction::Dispatch)
        },
        WtEvent::Tick(now) => if now > s.last_ping && now - s.last_ping > s.ping_timeout {
            (s, WtAction::Close)
        } else {
            (s, WtAction::SendPong)
        },
    }
}

/// Takes one event of a session (see [`wt_session_next`]).
pub fn wt_session_step(s: WtSession, e: WtEvent) -> (r: (WtSession, WtAction))
    ensures
        r == wt_session_next(s, e),
{
    match e {
        WtEvent::Message(topic, now) => {
            let ping: [u8; 4] = [112u8, 105u8, 110u8, 103u8];
            assert(ping@ =~= ping_topic());
            if crate::text::bytes_equal(topic.as_slice(), ping.as_slice()) {
                (WtSession { last_ping: now, ..s }, WtAction::Refreshed)
            } else {
                (s, WtAction::Dispatch)
            }
        },
        WtEvent::Tick(now) => if crate::ws::ping_expired(now, s.last_ping, s.ping_timeout) {
            (s, WtAction::Close)
        } else {
            (s, WtAction::SendPong)
        },
    }
}

/// `pong`
pub open spec fn pong_topic() -> Seq<u8> {
    seq![112u8, 111u8, 110u8, 103u8]
}

/// The pong frame: the message `{"topic": "pong", "payload": {}}` as JSON
/// text, without bytes.
pub fn pong_frame() -> (r: Vec<u8>)
    ensures
        r@ == framed(
            json_text_of(
                JsonV::Object(seq![(topic_key(), JsonV::Str(pong_topic())), (payload_key(), JsonV::Object(seq![]))]),
            ),
            seq![],
        ),
{
    let mut t: Vec<u8> = Vec::new();
    t.push(116u8);
    t.push(111u8);
    t.push(112u8);
    t.push(105u8);
    t.push(99u8);
    let mut pl: Vec<u8> = Vec::new();
    pl.push(112u8);
    pl.push(97u8);
    pl.push(121u8);
    pl.push(108u8);
    pl.push(111u8);
    pl.push(97u8);
    pl.push(100u8);
    let pong: Vec<u8> = vec![112u8, 111u8, 110u8, 103u8];
    assert(t@ =~= topic_key());
    assert(pl@ =~= payload_key());
    assert(pong@ =~= pong_topic());
    let empty: Vec<(Vec<u8>, Json)> = Vec::new();
    proof {
        lemma_object_view(empty);
        assert(entries_view(empty@) =~= Seq::<(Seq<u8>, JsonV)>::empty());
    }
    let mut entries: Vec<(Vec<u8>, Json)> = Vec::new();
    entries.push((t, Json::Str(pong)));
    entries.push((pl, Json::Object(empty)));
    proof {
        lemma_object_view(entries);
        assert(entries_view(entries@) =~= seq![
            (topic_key(), JsonV::Str(pong_topic())),
            (payload_key(), JsonV::Object(seq![])),
        ]);
    }
    let message = json_text(&Json::Object(entries));
    let none: [u8; 0] = [];
    assert(none@ =~= Seq::<u8>::empty());
    frame(message.as_slice(), none.as_slice())
}

} // verus!
