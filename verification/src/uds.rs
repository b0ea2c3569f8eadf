//! The session channel between the server and the process that runs the
//! handlers: framed messages `{"topic": .., "payload": ..}` plus bytes.
use vstd::prelude::*;
use crate::serialize::{json_parse_of, json_text, json_text_of, parse_json};
use vstd::string::StringSliceAdditionalSpecFns;
use crate::error::{err, ErrorKind, Reason, ReqError};
use crate::framing::{
    after_json, frame, framed, frame_step, FrameOut, FrameStep, MessageReader,
    MsgV,
};
use crate::json::{entries_view, key_index, lemma_object_view, member, Json, JsonV};

verus! {

/// Settings of the session channel.
pub struct UnixDomainSocketOpts {
    pub block_size_kb: usize,
    pub socket_path: String,
    pub thread_limit: u64,
}

/// Bytes handed out with a message.
pub type UnixDomainSocketBytes = Vec<u8>;

/// Where a request reader stands after a step.
#[derive(Debug, PartialEq, Eq)]
pub enum Progress {
    /// More bytes are needed.
    Pending,
    /// A request or message is complete.
    Ready,
    /// This JSON text must be parsed, and the outcome given back (a step
    /// inside the readers; their `read_block` parses it and never returns
    /// it).
    ParseJson(Vec<u8>),
    /// These bytes must be appended to the file at this path, and the
    /// outcome given back.
    Write(Vec<u8>, Vec<u8>),
}

/// [`Progress`] and refusals, as values.
pub enum ReadOut {
    Pending,
    Ready,
    ParseJson(Seq<u8>),
    Write(Seq<u8>, Seq<u8>),
    Fail(ReqError),
    /// The server fails on this input.
    Panic,
}

/// The view of a step's result.
pub open spec fn read_out(r: Result<Progress, ReqError>) -> ReadOut {
    match r {
        Ok(Progress::Pending) => ReadOut::Pending,
        Ok(Progress::Ready) => ReadOut::Ready,
        Ok(Progress::ParseJson(t)) => ReadOut::ParseJson(t@),
        Ok(Progress::Write(p, b)) => ReadOut::Write(p@, b@),
        Err(e) => ReadOut::Fail(e),
    }
}

/// A frame step, as a read outcome.
pub open spec fn frame_read_out(o: FrameOut) -> ReadOut {
    match o {
        FrameOut::Pending => ReadOut::Pending,
        FrameOut::Json(t) => ReadOut::ParseJson(t),
        FrameOut::Done => ReadOut::Ready,
        FrameOut::Fail(e) => ReadOut::Fail(e),
    }
}

pub fn frame_progress(s: FrameStep) -> (r: Result<Progress, ReqError>)
    ensures
        read_out(r) == frame_read_out(s.out()),
{
    match s {
        FrameStep::Pending => Ok(Progress::Pending),
        FrameStep::Json(t) => Ok(Progress::ParseJson(t)),
        FrameStep::Done => Ok(Progress::Ready),
        FrameStep::Fail(e) => Err(e),
    }
}

/// The state of a [`UnixDomainSocketReq`], as values.
pub struct UdsReqV {
    pub msg: MsgV,
    pub topic: Seq<u8>,
    pub ctx: JsonV,
}

/// `{"topic": null, "payload": {}}`
pub open spec fn uds_blank_ctx() -> JsonV {
    JsonV::Object(
        seq![(topic_key(), JsonV::Null), (payload_key(), JsonV::Object(Seq::empty()))],
    )
}

pub open spec fn topic_key() -> Seq<u8> {
    seq![116u8, 111u8, 112u8, 105u8, 99u8]
}

pub open spec fn payload_key() -> Seq<u8> {
    seq![112u8, 97u8, 121u8, 108u8, 111u8, 97u8, 100u8]
}

/// One reading step of the session channel.
pub open spec fn uds_read(s: UdsReqV) -> (UdsReqV, ReadOut) {
    if s.msg.has_body {
        (s, ReadOut::Ready)
    } else {
        let (m, o) = frame_step(s.msg, None, Reason::MetaSeparatorMissing);
        (UdsReqV { msg: m, ..s }, frame_read_out(o))
    }
}

/// One call of `read_block`: a step of [`uds_read`], where a JSON part that
/// it hands out is parsed at once (see [`json_parse_of`]) and judged (see
/// [`uds_accept`]).
pub open spec fn uds_block(s: UdsReqV) -> (UdsReqV, ReadOut) {
    match uds_read(s) {
        (t, ReadOut::ParseJson(text)) => uds_accept(t, json_parse_of(text)),
        other => other,
    }
}

/// Judging the parsed JSON part: the message needs a string `topic` and a
/// `payload`, which becomes the context.
pub open spec fn uds_accept(s: UdsReqV, parsed: Option<JsonV>) -> (UdsReqV, ReadOut) {
    match parsed {
        None => (
            UdsReqV { msg: MsgV { buff: seq![], ..s.msg }, ..s },
            ReadOut::Fail(err(ErrorKind::InvalidInput, Reason::InvalidJson)),
        ),
        Some(j) => match member(j, topic_key()) {
            Some(JsonV::Str(t)) => match member(j, payload_key()) {
                None => (
                    UdsReqV { topic: t, ..s },
                    ReadOut::Fail(err(ErrorKind::InvalidInput, Reason::InvalidMessage)),
                ),
                Some(p) => {
                    let (m, o) = after_json(s.msg);
                    (UdsReqV { msg: m, topic: t, ctx: p }, frame_read_out(o))
                },
            },
            _ => (s, ReadOut::Fail(err(ErrorKind::InvalidInput, Reason::InvalidMessage))),
        },
    }
}

/// A JSON part is waiting to be judged: the meta was read, the body is not
/// complete, and the JSON part is all there.
pub open spec fn json_pending(m: MsgV) -> bool {
    &&& m.has_meta
    &&& !m.has_body
    &&& m.json_length != 0
    &&& m.buff.len() >= m.json_length
}

/// The member named `key`, copied.
pub fn member_of(j: &Json, key: &[u8]) -> (r: Option<Json>)
    ensures
        match r {
            Some(v) => member(j.view(), key@) == Some(v.view()),
            None => member(j.view(), key@) is None,
        },
{
    match j {
        Json::Object(entries) => {
            proof {
                lemma_object_view(*entries);
            }
            match key_index(entries, key) {
                Some(i) => Some(entries[i].1.deep_clone()),
                None => None,
            }
        },
        _ => None,
    }
}

/// Reads messages that the handler process sends over the session channel.
pub struct UnixDomainSocketReq {
    opts: UnixDomainSocketOpts,
    reader: MessageReader,
    topic: Vec<u8>,
    ctx: Json,
}

impl UnixDomainSocketReq {
    pub closed spec fn view(&self) -> UdsReqV {
        UdsReqV { msg: self.reader@, topic: self.topic@, ctx: self.ctx.view() }
    }

    pub fn new(opts: UnixDomainSocketOpts) -> (r: UnixDomainSocketReq)
        ensures
            r@ == (UdsReqV {
                msg: MsgV {
                    buff: seq![],
                    has_meta: false,
                    has_body: false,
                    json_length: 0,
                    binary_length: 0,
                    binary: seq![],
                },
                topic: seq![],
                ctx: JsonV::Null,
            }),
    {
        UnixDomainSocketReq {
            opts,
            reader: MessageReader::new(),
            topic: Vec::new(),
            ctx: Json::Null,
        }
    }

    /// Appends a block of received bytes.
    pub fn add(&mut self, block: &[u8])
        ensures
            final(self)@ == (UdsReqV {
                msg: MsgV { buff: old(self)@.msg.buff + block@, ..old(self)@.msg },
                ..old(self)@
            }),
    {
        self.reader.buff.extend_from_slice(block);
        assert(self.reader.buff@ =~= old(self).reader.buff@ + block@);
    }

    /// The binary part of the last message.
    pub fn get_bytes(&self) -> (r: Vec<u8>)
        ensures
            r@ == self@.msg.binary,
    {
        vstd::slice::slice_to_vec(self.reader.binary.as_slice())
    }

    /// The payload of the last message.
    pub fn get_ctx(&self) -> (r: Json)
        ensures
            r.view() == self@.ctx,
    {
        self.ctx.deep_clone()
    }

    /// The topic of the last message.
    pub fn get_topic(&self) -> (r: Vec<u8>)
        ensures
            r@ == self@.topic,
    {
        vstd::slice::slice_to_vec(self.topic.as_slice())
    }

    /// No bytes are waiting.
    pub fn is_empty(&self) -> (r: bool)
        ensures
            r == (self@.msg.buff.len() == 0),
    {
        self.reader.buff.len() == 0
    }

    /// One reading step; a JSON part is parsed and judged in the same call
    /// (see [`uds_block`]).
    pub fn read_block(&mut self) -> (r: Result<Progress, ReqError>)
        ensures
            (final(self)@, read_out(r)) == uds_block(old(self)@),
            !(r matches Ok(Progress::ParseJson(_))),
    {
        let r = self.frame_read();
        match r {
            Ok(Progress::ParseJson(text)) => {
                let parsed = parse_json(text.as_slice());
                self.accept_json(parsed)
            },
            other => other,
        }
    }

    /// One step of [`uds_read`], handing a JSON part out unparsed.
    fn frame_read(&mut self) -> (r: Result<Progress, ReqError>)
        ensures
            final(self)@ == uds_read(old(self)@).0,
            read_out(r) == uds_read(old(self)@).1,
    {
        if self.reader.has_body {
            return Ok(Progress::Ready);
        }
        let s = self.reader.step(None, Reason::MetaSeparatorMissing);
        frame_progress(s)
    }

    /// Judges the parsed JSON part that the last step asked for (`None`
    /// when it did not parse); see [`uds_accept`].
    pub fn accept_json(&mut self, parsed: Option<Json>) -> (r: Result<Progress, ReqError>)
        requires
            json_pending(old(self)@.msg),
        ensures
            final(self)@ == uds_accept(
                old(self)@,
                match parsed {
                    Some(j) => Some(j.view()),
                    None => None,
                },
            ).0,
            read_out(r) == uds_accept(
                old(self)@,
                match parsed {
                    Some(j) => Some(j.view()),
                    None => None,
                },
            ).1,
    {
        let j = match parsed {
            None => {
                self.reader.buff.clear();
                return Err(ReqError::new(ErrorKind::InvalidInput, Reason::InvalidJson));
            },
            Some(j) => j,
        };
        let topic_name: [u8; 5] = [116u8, 111u8, 112u8, 105u8, 99u8];
        let payload_name: [u8; 7] = [112u8, 97u8, 121u8, 108u8, 111u8, 97u8, 100u8];
        assert(topic_name@ =~= topic_key());
        assert(payload_name@ =~= payload_key());
        match member_of(&j, topic_name.as_slice()) {
            Some(Json::Str(t)) => {
                self.topic = t;
            },
            _ => {
                return Err(ReqError::new(ErrorKind::InvalidInput, Reason::InvalidMessage));
            },
        }
        match member_of(&j, payload_name.as_slice()) {
            None => Err(ReqError::new(ErrorKind::InvalidInput, Reason::InvalidMessage)),
            Some(p) => {
                self.ctx = p;
                let s = self.reader.accept_json();
                frame_progress(s)
            },
        }
    }

    /// Gets ready for the next message.
    pub fn reset(&mut self)
        ensures
            final(self)@ == (UdsReqV {
                msg: MsgV {
                    has_body: false,
                    has_meta: false,
                    binary: seq![],
                    binary_length: 0,
                    json_length: 0,
                    ..old(self)@.msg
                },
                topic: seq![],
                ctx: uds_blank_ctx(),
            }),
    {
        self.reader.has_body = false;
        self.reader.has_meta = false;
        self.reader.binary.clear();
        self.reader.binary_length = 0;
        self.reader.json_length = 0;
        self.topic.clear();
        self.ctx = blank_ctx();
    }
}

/// `{"topic": null, "payload": {}}`
fn blank_ctx() -> (r: Json)
    ensures
        r.view() == uds_blank_ctx(),
{
    let mut entries: Vec<(Vec<u8>, Json)> = Vec::new();
    let mut k1: Vec<u8> = Vec::new();
    k1.push(116u8);
    k1.push(111u8);
    k1.push(112u8);
    k1.push(105u8);
    k1.push(99u8);
    let mut k2: Vec<u8> = Vec::new();
    k2.push(112u8);
    k2.push(97u8);
    k2.push(121u8);
    k2.push(108u8);
    k2.push(111u8);
    k2.push(97u8);
    k2.push(100u8);
    let inner: Vec<(Vec<u8>, Json)> = Vec::new();
    proof {
        lemma_object_view(inner);
        assert(entries_view(inner@) =~= Seq::<(Seq<u8>, JsonV)>::empty());
    }
    entries.push((k1, Json::Null));
    entries.push((k2, Json::Object(inner)));
    proof {
        lemma_object_view(entries);
        assert(k1@ =~= topic_key());
        assert(k2@ =~= payload_key());
        assert(entries_view(entries@) =~= seq![
            (topic_key(), JsonV::Null),
            (payload_key(), JsonV::Object(Seq::empty())),
        ]);
    }
    Json::Object(entries)
}

/// A chunk to write to the peer, and whether to flush after it.
pub struct Outgoing {
    pub chunk: Vec<u8>,
    pub flush: bool,
}

/// Writes messages to the handler process over the session channel.
pub struct UnixDomainSocketStream {
    opts: UnixDomainSocketOpts,
}

impl UnixDomainSocketStream {
    pub fn new(opts: UnixDomainSocketOpts) -> (r: UnixDomainSocketStream) {
        UnixDomainSocketStream { opts }
    }

    /// The message `{"topic": topic, "payload": payload}`.
    pub fn envelope(&self, topic: &str, payload: Json) -> (r: Json)
        ensures
            r.view() == JsonV::Object(
                seq![(topic_key(), JsonV::Str(topic.spec_bytes())), (payload_key(), payload.view())],
            ),
    {
        let mut entries: Vec<(Vec<u8>, Json)> = Vec::new();
        let mut k1: Vec<u8> = Vec::new();
        k1.push(116u8);
        k1.push(111u8);
        k1.push(112u8);
        k1.push(105u8);
        k1.push(99u8);
        let mut k2: Vec<u8> = Vec::new();
        k2.push(112u8);
        k2.push(97u8);
        k2.push(121u8);
        k2.push(108u8);
        k2.push(111u8);
        k2.push(97u8);
        k2.push(100u8);
        let t = vstd::slice::slice_to_vec(topic.as_bytes());
        let ghost pv = payload.view();
        entries.push((k1, Json::Str(t)));
        entries.push((k2, payload));
        proof {
            lemma_object_view(entries);
            assert(k1@ =~= topic_key());
            assert(k2@ =~= payload_key());
            assert(entries_view(entries@) =~= seq![
                (topic_key(), JsonV::Str(topic.spec_bytes())),
                (payload_key(), pv),
            ]);
        }
        Json::Object(entries)
    }

    /// Sends `payload` under `topic` with `bytes`: the message (see
    /// [`Self::envelope`]) as JSON text, framed with the bytes.
    pub fn push(&mut self, topic: &str, payload: Json, bytes: &[u8], flush: bool) -> (r: Outgoing)
        ensures
            r.chunk@ == framed(
                json_text_of(
                    JsonV::Object(
                        seq![(topic_key(), JsonV::Str(topic.spec_bytes())), (payload_key(), payload.view())],
                    ),
                ),
                bytes@,
            ),
            r.flush == flush,
    {
        let message = json_text(&self.envelope(topic, payload));
        Outgoing { chunk: frame(message.as_slice(), bytes), flush }
    }
}

} // verus!
