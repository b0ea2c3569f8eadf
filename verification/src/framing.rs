//! Framed messages: `<json length>+<binary length>:<json><binary>`.
//!
//! The session channel, WebSocket and WebTransport sessions all carry this
//! frame. [`frame`] writes one; [`MessageReader`] reads them back from a
//! stream of blocks, handing the JSON text to its owner to parse and judge.
use vstd::prelude::*;
use crate::error::{err, ErrorKind, Reason, ReqError};
use crate::text::{
    lemma_byte_pos_extend,
    byte_pos, decimal, decimal_bytes, find_byte, is_digit, lemma_byte_pos_is, lemma_decimal_parses,
    parse_usize, parse_usize_spec, utf8_str,
};
use vstd::utf8::valid_utf8;

verus! {

/// The bytes of a frame carrying `message` and `binary`.
pub open spec fn framed(message: Seq<u8>, binary: Seq<u8>) -> Seq<u8> {
    decimal(message.len()) + seq![43u8] + decimal(binary.len()) + seq![58u8] + message + binary
}

/// Writes a frame carrying `message` and `binary`.
pub fn frame(message: &[u8], binary: &[u8]) -> (r: Vec<u8>)
    ensures
        r@ == framed(message@, binary@),
{
    let mut out = decimal_bytes(message.len());
    out.push(43u8);
    let n = decimal_bytes(binary.len());
    out.extend_from_slice(n.as_slice());
    out.push(58u8);
    out.extend_from_slice(message);
    out.extend_from_slice(binary);
    out
}

/// Reads the meta `buff[..meta_end]`: `<digits>+<digits>`. On failure, the
/// error and the json length that was already read, if any.
pub open spec fn parse_meta(meta: Seq<u8>, plus_missing: Reason) -> Result<(usize, usize), (ReqError, Option<usize>)> {
    match byte_pos(meta, 43) {
        None => Err((err(ErrorKind::InvalidData, plus_missing), None)),
        Some(pos) => {
            let a = meta.subrange(0, pos);
            let b = meta.subrange(pos + 1, meta.len() as int);
            if !valid_utf8(a) {
                Err((err(ErrorKind::InvalidData, Reason::InvalidUtf8), None))
            } else {
                match parse_usize_spec(a) {
                    None => Err((err(ErrorKind::InvalidData, Reason::InvalidMeta), None)),
                    Some(j) => {
                        if !valid_utf8(b) {
                            Err((err(ErrorKind::InvalidData, Reason::InvalidUtf8), Some(j)))
                        } else {
                            match parse_usize_spec(b) {
                                None => Err(
                                    (err(ErrorKind::InvalidData, Reason::InvalidMeta), Some(j)),
                                ),
                                Some(k) => Ok((j, k)),
                            }
                        }
                    },
                }
            }
        },
    }
}

/// The state of a [`MessageReader`], as values.
pub struct MsgV {
    pub buff: Seq<u8>,
    pub has_meta: bool,
    pub has_body: bool,
    pub json_length: usize,
    pub binary_length: usize,
    pub binary: Seq<u8>,
}

/// What one reading step came to.
pub enum FrameOut {
    /// More bytes are needed.
    Pending,
    /// The JSON part is complete and is valid UTF-8; its text.
    Json(Seq<u8>),
    /// The message is complete.
    Done,
    /// The input was refused.
    Fail(ReqError),
}

/// The json length that a failed meta leaves in place.
pub open spec fn json_length_after(s: MsgV, partial: Option<usize>) -> usize {
    match partial {
        Some(j) => j,
        None => s.json_length,
    }
}

/// Outcome of reading the meta.
pub enum MetaOut {
    /// The meta is read (or was read before); the state after it.
    Ready(MsgV),
    /// No `:` yet.
    Wait,
    /// Refused; the state left behind.
    Fail(MsgV, ReqError),
}

/// The sum of the two lengths that the meta in `s.buff` announces is past
/// `usize::MAX`.
pub open spec fn meta_overflows(s: MsgV, max: Option<usize>, plus_missing: Reason) -> bool {
    &&& max is Some
    &&& !s.has_meta
    &&& byte_pos(s.buff, 58) matches Some(end)
    &&& parse_meta(s.buff.subrange(0, end), plus_missing) matches Ok((j, k))
    &&& j + k > usize::MAX
}

/// Reading the meta, when it has not been read yet.
pub open spec fn meta_step(s: MsgV, max: Option<usize>, plus_missing: Reason) -> MetaOut {
    if s.has_meta {
        MetaOut::Ready(s)
    } else {
        match byte_pos(s.buff, 58) {
            None => {
                if s.buff.len() > 8192 {
                    MetaOut::Fail(
                        MsgV { buff: seq![], ..s },
                        err(ErrorKind::InvalidData, Reason::MetaTooLarge),
                    )
                } else {
                    MetaOut::Wait
                }
            },
            Some(end) => match parse_meta(s.buff.subrange(0, end), plus_missing) {
                Err((e, partial)) => MetaOut::Fail(
                    MsgV { buff: seq![], json_length: json_length_after(s, partial), ..s },
                    e,
                ),
                Ok((j, k)) => {
                    if max matches Some(m) && j + k > m {
                        MetaOut::Fail(
                            MsgV { buff: seq![], json_length: j, binary_length: k, ..s },
                            err(ErrorKind::InvalidData, Reason::MessageTooLarge),
                        )
                    } else {
                        MetaOut::Ready(
                            MsgV {
                                buff: s.buff.subrange(end + 1, s.buff.len() as int),
                                has_meta: true,
                                json_length: j,
                                binary_length: k,
                                ..s
                            },
                        )
                    }
                },
            },
        }
    }
}

/// The binary part, once the JSON part is settled.
pub open spec fn binary_step(s: MsgV) -> (MsgV, FrameOut) {
    if s.binary_length != 0 && s.buff.len() >= s.binary_length {
        (
            MsgV {
                binary: s.buff.subrange(0, s.binary_length as int),
                has_body: true,
                buff: s.buff.subrange(s.binary_length as int, s.buff.len() as int),
                ..s
            },
            FrameOut::Done,
        )
    } else {
        (s, FrameOut::Pending)
    }
}

/// One reading step: the meta if needed, then the JSON part if it is
/// complete, else the binary part.
pub open spec fn frame_step(s: MsgV, max: Option<usize>, plus_missing: Reason) -> (MsgV, FrameOut) {
    match meta_step(s, max, plus_missing) {
        MetaOut::Wait => (s, FrameOut::Pending),
        MetaOut::Fail(t, e) => (t, FrameOut::Fail(e)),
        MetaOut::Ready(t) => {
            if t.json_length != 0 && t.buff.len() >= t.json_length {
                let text = t.buff.subrange(0, t.json_length as int);
                if valid_utf8(text) {
                    (t, FrameOut::Json(text))
                } else {
                    (
                        MsgV { buff: seq![], ..t },
                        FrameOut::Fail(err(ErrorKind::InvalidInput, Reason::InvalidUtf8)),
                    )
                }
            } else {
                binary_step(t)
            }
        },
    }
}

/// After the owner accepted the JSON part: drop it (the JSON part is then
/// settled), then finish when no binary part follows, else read the binary
/// part.
pub open spec fn after_json(s: MsgV) -> (MsgV, FrameOut) {
    let t = MsgV { buff: s.buff.subrange(s.json_length as int, s.buff.len() as int), json_length: 0, ..s };
    if t.binary_length == 0 {
        (MsgV { has_body: true, ..t }, FrameOut::Done)
    } else {
        binary_step(t)
    }
}

/// Reads a meta `<digits>+<digits>` (see [`parse_meta`]).
pub fn parse_meta_exec(meta: &[u8], plus_missing: Reason) -> (r: Result<(usize, usize), (ReqError, Option<usize>)>)
    ensures
        r == parse_meta(meta@, plus_missing),
{
    let pos = match find_byte(meta, 43u8) {
        Some(p) => p,
        None => {
            return Err((ReqError::new(ErrorKind::InvalidData, plus_missing), None));
        },
    };
    let a = &meta[0..pos];
    if utf8_str(a).is_none() {
        return Err((ReqError::new(ErrorKind::InvalidData, Reason::InvalidUtf8), None));
    }
    let j = match parse_usize(a) {
        Some(j) => j,
        None => {
            return Err((ReqError::new(ErrorKind::InvalidData, Reason::InvalidMeta), None));
        },
    };
    let n: usize = meta.len();
    let b = &meta[pos + 1..n];
    if utf8_str(b).is_none() {
        return Err((ReqError::new(ErrorKind::InvalidData, Reason::InvalidUtf8), Some(j)));
    }
    match parse_usize(b) {
        Some(k) => Ok((j, k)),
        None => Err((ReqError::new(ErrorKind::InvalidData, Reason::InvalidMeta), Some(j))),
    }
}

/// A frame, once read, gives back what was framed: the first step hands out
/// the message (the JSON part) and the announced lengths; once the message
/// is accepted, the binary part comes out and the bytes after the frame stay.
pub proof fn lemma_frame_roundtrip(
    message: Seq<u8>,
    binary: Seq<u8>,
    rest: Seq<u8>,
    s: MsgV,
    max: Option<usize>,
    plus_missing: Reason,
)
    requires
        !s.has_meta,
        s.buff == framed(message, binary) + rest,
        message.len() > 0,
        valid_utf8(message),
        message.len() <= usize::MAX,
        binary.len() <= usize::MAX,
        max matches Some(x) ==> message.len() + binary.len() <= x,
    ensures
        frame_step(s, max, plus_missing) == (
        MsgV {
            buff: message + binary + rest,
            has_meta: true,
            json_length: message.len() as usize,
            binary_length: binary.len() as usize,
            ..s
        },
        FrameOut::Json(message)),
        after_json(frame_step(s, max, plus_missing).0) == (
        MsgV {
            buff: rest,
            has_meta: true,
            has_body: true,
            json_length: 0,
            binary_length: binary.len() as usize,
            binary: if binary.len() == 0 {
                s.binary
            } else {
                binary
            },
        },
        FrameOut::Done),
{
    let j = message.len() as usize;
    let k = binary.len() as usize;
    let dj = decimal(j as nat);
    let dk = decimal(k as nat);
    lemma_decimal_parses(j);
    lemma_decimal_parses(k);
    let meta = dj + seq![43u8] + dk;
    let buff = s.buff;
    assert(buff =~= meta + seq![58u8] + (message + binary + rest));
    let end = meta.len() as int;
    assert forall|i: int| 0 <= i < end implies buff[i] != 58 by {
        if i < dj.len() {
            assert(is_digit(dj[i]));
        } else if i > dj.len() {
            assert(is_digit(dk[i - dj.len() - 1]));
        }
    }
    lemma_byte_pos_is(buff, 58, end);
    assert(buff.subrange(0, end) =~= meta);
    assert forall|i: int| 0 <= i < dj.len() implies meta[i] != 43 by {
        assert(is_digit(dj[i]));
    }
    lemma_byte_pos_is(meta, 43, dj.len() as int);
    assert(meta.subrange(0, dj.len() as int) =~= dj);
    assert(meta.subrange(dj.len() as int + 1, meta.len() as int) =~= dk);
    assert(buff.subrange(end + 1, buff.len() as int) =~= message + binary + rest);
    let t = frame_step(s, max, plus_missing).0;
    assert((message + binary + rest).subrange(0, j as int) =~= message);
    assert(t.buff.subrange(j as int, t.buff.len() as int) =~= binary + rest);
    assert((binary + rest).subrange(0, k as int) =~= binary);
    assert((binary + rest).subrange(k as int, (binary + rest).len() as int) =~= rest);
}

/// Once a meta is read, the lengths it announced are within the limit
/// `max` (no limit: `None`).
pub open spec fn announced_within(s: MsgV, max: Option<usize>) -> bool {
    s.has_meta ==> (max matches Some(m) ==> s.json_length + s.binary_length <= m)
}

/// No message over the limit is taken: a reading step that does not refuse
/// keeps the announced lengths within `max`, and so does accepting the JSON
/// part; a message that comes out complete is no longer than `max`.
pub proof fn lemma_message_within_limit(s: MsgV, max: Option<usize>, plus_missing: Reason)
    requires
        announced_within(s, max),
    ensures
        !(frame_step(s, max, plus_missing).1 is Fail) ==> announced_within(
            frame_step(s, max, plus_missing).0,
            max,
        ),
        announced_within(after_json(s).0, max),
        frame_step(s, max, plus_missing).1 is Done ==> (max matches Some(m) ==> frame_step(s, max, plus_missing).0.json_length
            + frame_step(s, max, plus_missing).0.binary_length <= m),
{
}

/// Reading on the fly: a step that waits for more bytes loses nothing.
/// When the bytes `b` arrive after it, the next step gives what a single
/// step on all the bytes would have given.
pub proof fn lemma_frame_step_on_the_fly(s: MsgV, b: Seq<u8>, max: Option<usize>, plus_missing: Reason)
    requires
        frame_step(s, max, plus_missing).1 is Pending,
    ensures
        frame_step(
            MsgV { buff: frame_step(s, max, plus_missing).0.buff + b, ..frame_step(s, max, plus_missing).0 },
            max,
            plus_missing,
        ) == frame_step(MsgV { buff: s.buff + b, ..s }, max, plus_missing),
{
    let whole = MsgV { buff: s.buff + b, ..s };
    if !s.has_meta {
        match byte_pos(s.buff, 58) {
            None => {},
            Some(end) => {
                lemma_byte_pos_extend(s.buff, b, 58, end);
                assert(whole.buff.subrange(0, end) =~= s.buff.subrange(0, end));
                assert(whole.buff.subrange(end + 1, whole.buff.len() as int) =~= s.buff.subrange(
                    end + 1,
                    s.buff.len() as int,
                ) + b);
            },
        }
    }
}

/// The same holds after the owner accepted the JSON part: when the rest of
/// the binary part arrives later, the next step gives what accepting on all
/// the bytes would have given.
pub proof fn lemma_after_json_on_the_fly(s: MsgV, b: Seq<u8>, max: Option<usize>, plus_missing: Reason)
    requires
        s.has_meta,
        s.json_length <= s.buff.len(),
        after_json(s).1 is Pending,
    ensures
        frame_step(MsgV { buff: after_json(s).0.buff + b, ..after_json(s).0 }, max, plus_missing)
            == after_json(MsgV { buff: s.buff + b, ..s }),
{
    let whole = MsgV { buff: s.buff + b, ..s };
    assert(whole.buff.subrange(s.json_length as int, whole.buff.len() as int) =~= s.buff.subrange(
        s.json_length as int,
        s.buff.len() as int,
    ) + b);
}

/// Reads framed messages out of the blocks given to it.
pub struct MessageReader {
    pub buff: Vec<u8>,
    pub has_meta: bool,
    pub has_body: bool,
    pub json_length: usize,
    pub binary_length: usize,
    pub binary: Vec<u8>,
}

/// Drops the first `n` bytes of `v`.
pub fn drain_front(v: &mut Vec<u8>, n: usize)
    requires
        n <= old(v)@.len(),
    ensures
        final(v)@ == old(v)@.subrange(n as int, old(v)@.len() as int),
{
    let rest = v.split_off(n);
    *v = rest;
}

/// Copies `s[a..b]`.
pub fn copy_range(s: &[u8], a: usize, b: usize) -> (r: Vec<u8>)
    requires
        a <= b <= s@.len(),
    ensures
        r@ == s@.subrange(a as int, b as int),
{
    vstd::slice::slice_to_vec(&s[a..b])
}

impl MessageReader {
    pub open spec fn view(&self) -> MsgV {
        MsgV {
            buff: self.buff@,
            has_meta: self.has_meta,
            has_body: self.has_body,
            json_length: self.json_length,
            binary_length: self.binary_length,
            binary: self.binary@,
        }
    }

    pub fn new() -> (r: MessageReader)
        ensures
            r@ == (MsgV {
                buff: seq![],
                has_meta: false,
                has_body: false,
                json_length: 0,
                binary_length: 0,
                binary: seq![],
            }),
    {
        MessageReader {
            buff: Vec::new(),
            has_meta: false,
            has_body: false,
            json_length: 0,
            binary_length: 0,
            binary: Vec::new(),
        }
    }

    /// Whether the meta waiting in the buffer announces two lengths whose
    /// sum is past `usize::MAX` while a limit is set (see
    /// [`meta_overflows`]): a step must not be taken then.
    pub fn overflows_with(&self, max: Option<usize>, plus_missing: Reason) -> (r: bool)
        ensures
            r == meta_overflows(self@, max, plus_missing),
    {
        if max.is_none() || self.has_meta {
            return false;
        }
        match find_byte(self.buff.as_slice(), 58u8) {
            None => false,
            Some(end) => match parse_meta_exec(&self.buff.as_slice()[0..end], plus_missing) {
                Ok((j, k)) => j.checked_add(k).is_none(),
                Err(_) => false,
            },
        }
    }

    /// One reading step (see [`frame_step`]). `max` bounds the sum of the
    /// two announced lengths.
    pub fn step(&mut self, max: Option<usize>, plus_missing: Reason) -> (r: FrameStep)
        requires
            !meta_overflows(old(self)@, max, plus_missing),
        ensures
            final(self)@ == frame_step(old(self)@, max, plus_missing).0,
            r.out() == frame_step(old(self)@, max, plus_missing).1,
    {
        if !self.has_meta {
            let blen: usize = self.buff.len();
            let end = match find_byte(self.buff.as_slice(), 58u8) {
                Some(e) => e,
                None => {
                    if self.buff.len() > 8192 {
                        self.buff.clear();
                        return FrameStep::Fail(
                            ReqError::new(ErrorKind::InvalidData, Reason::MetaTooLarge),
                        );
                    }
                    return FrameStep::Pending;
                },
            };
            match parse_meta_exec(&self.buff.as_slice()[0..end], plus_missing) {
                Err((e, partial)) => {
                    if let Some(j) = partial {
                        self.json_length = j;
                    }
                    self.buff.clear();
                    return FrameStep::Fail(e);
                },
                Ok((j, k)) => {
                    self.json_length = j;
                    self.binary_length = k;
                    if let Some(m) = max {
                        if j + k > m {
                            self.buff.clear();
                            return FrameStep::Fail(
                                ReqError::new(ErrorKind::InvalidData, Reason::MessageTooLarge),
                            );
                        }
                    }
                    self.has_meta = true;
                    drain_front(&mut self.buff, end + 1);
                },
            }
        }
        if self.json_length != 0 && self.buff.len() >= self.json_length {
            let text = copy_range(self.buff.as_slice(), 0, self.json_length);
            if utf8_str(text.as_slice()).is_none() {
                self.buff.clear();
                return FrameStep::Fail(ReqError::new(ErrorKind::InvalidInput, Reason::InvalidUtf8));
            }
            return FrameStep::Json(text);
        }
        self.binary_part()
    }

    fn binary_part(&mut self) -> (r: FrameStep)
        ensures
            final(self)@ == binary_step(old(self)@).0,
            r.out() == binary_step(old(self)@).1,
    {
        if self.binary_length != 0 && self.buff.len() >= self.binary_length {
            self.binary = copy_range(self.buff.as_slice(), 0, self.binary_length);
            self.has_body = true;
            drain_front(&mut self.buff, self.binary_length);
            FrameStep::Done
        } else {
            FrameStep::Pending
        }
    }

    /// Continues after the owner accepted the JSON part (see [`after_json`]).
    pub fn accept_json(&mut self) -> (r: FrameStep)
        requires
            old(self).json_length <= old(self).buff@.len(),
        ensures
            final(self)@ == after_json(old(self)@).0,
            r.out() == after_json(old(self)@).1,
    {
        drain_front(&mut self.buff, self.json_length);
        self.json_length = 0;
        if self.binary_length == 0 {
            self.has_body = true;
            FrameStep::Done
        } else {
            self.binary_part()
        }
    }
}

/// What one reading step came to (the executable form of [`FrameOut`]).
pub enum FrameStep {
    Pending,
    Json(Vec<u8>),
    Done,
    Fail(ReqError),
}

impl FrameStep {
    pub open spec fn out(self) -> FrameOut {
        match self {
            FrameStep::Pending => FrameOut::Pending,
            FrameStep::Json(t) => FrameOut::Json(t@),
            FrameStep::Done => FrameOut::Done,
            FrameStep::Fail(e) => FrameOut::Fail(e),
        }
    }
}

} // verus!
