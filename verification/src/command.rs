//! Commands from the handler process, and the settings it gives: JSON
//! arguments read into the calls a response or message writer takes.
use vstd::prelude::*;
use crate::json::{copy_bytes, entries_view, lemma_object_view, member, Json, JsonV};
use crate::text::{all_digits, digits_value, is_digit, utf8_str};
use crate::uds::member_of;
use crate::serialize::{json_parse_of, parse_json};
use vstd::string::StringSliceAdditionalSpecFns;
use vstd::utf8::*;

verus! {

/// The settings that a call creating a server gives, read as JSON, with the
/// id of the server they make: the one after the last id handed out. Text
/// that is not JSON makes no server and uses up no id.
pub fn server_settings(py_opts: &[u8], last_id: usize) -> (r: Option<(usize, Json)>)
    requires
        last_id < usize::MAX,
    ensures
        r is None <==> json_parse_of(py_opts@) is None,
        r matches Some((id, j)) ==> id == last_id + 1 && json_parse_of(py_opts@) == Some(j.view()),
{
    match parse_json(py_opts) {
        Some(j) => Some((last_id + 1, j)),
        None => None,
    }
}

/// The unsigned integer that the text of a JSON number stands for: digits
/// only (no sign, fraction or exponent), within `u64`.
pub open spec fn number_u64(t: Seq<u8>) -> Option<u64> {
    if t.len() > 0 && all_digits(t) && digits_value(t) <= u64::MAX {
        Some(digits_value(t) as u64)
    } else {
        None
    }
}

/// Reads the text of a JSON number as an unsigned integer (see
/// [`number_u64`]).
pub fn number_text_u64(t: &[u8]) -> (r: Option<u64>)
    ensures
        r == number_u64(t@),
{
    if t.len() == 0 {
        return None;
    }
    let mut acc: u64 = 0;
    let mut over = false;
    let mut i: usize = 0;
    while i < t.len()
        invariant
            i <= t@.len(),
            forall|j: int| 0 <= j < i ==> is_digit(#[trigger] t@[j]),
            !over ==> acc == digits_value(t@.subrange(0, i as int)),
            over ==> digits_value(t@.subrange(0, i as int)) > u64::MAX,
        decreases t@.len() - i,
    {
        let c = t[i];
        if c < 48u8 || c > 57u8 {
            return None;
        }
        let ghost p = t@.subrange(0, i as int + 1);
        proof {
            assert(p.drop_last() =~= t@.subrange(0, i as int));
            assert(p.last() == c);
        }
        let d: u64 = (c - 48u8) as u64;
        if !over {
            if acc > (u64::MAX - d) / 10 {
                over = true;
                proof {
                    assert(digits_value(p) == 10 * acc + d);
                    assert(10 * acc + d > u64::MAX) by (nonlinear_arith)
                        requires
                            acc > (u64::MAX - d) / 10,
                            d <= 9,
                    ;
                }
            } else {
                proof {
                    assert(10 * acc + d <= u64::MAX) by (nonlinear_arith)
                        requires
                            acc <= (u64::MAX - d) / 10,
                            d <= 9,
                    ;
                }
                acc = acc * 10 + d;
            }
        } else {
            proof {
                assert(digits_value(p) >= 10 * digits_value(p.drop_last()));
            }
        }
        i = i + 1;
    }
    proof {
        assert(t@.subrange(0, i as int) =~= t@);
    }
    if over {
        None
    } else {
        Some(acc)
    }
}

/// A JSON value as an unsigned integer: a number as [`number_u64`] reads
/// it; anything else is none.
pub open spec fn arg_u64(j: JsonV) -> Option<u64> {
    match j {
        JsonV::Number(t) => number_u64(t),
        _ => None,
    }
}

/// A JSON value as an unsigned integer, zero when it is none.
pub open spec fn u64_or_zero(j: JsonV) -> u64 {
    match arg_u64(j) {
        Some(v) => v,
        None => 0,
    }
}

/// The text of a JSON string, empty for any other value.
pub open spec fn text_or_empty(j: JsonV) -> Seq<u8> {
    match j {
        JsonV::Str(s) => s,
        _ => seq![],
    }
}

/// A flag argument: an unsigned integer other than zero.
pub open spec fn flag_of(j: JsonV) -> bool {
    u64_or_zero(j) != 0
}

/// The stream a command names: its first argument as an unsigned integer
/// (zero when it is none).
pub open spec fn stream_of(args: Seq<JsonV>) -> usize {
    u64_or_zero(args[0]) as usize
}

/// A compression argument: its text, none when that is empty.
pub open spec fn compression_of(j: JsonV) -> Option<Seq<u8>> {
    if text_or_empty(j).len() > 0 {
        Some(text_or_empty(j))
    } else {
        None
    }
}

/// Reads a JSON value as an unsigned integer (see [`arg_u64`]).
pub fn json_u64(j: &Json) -> (r: u64)
    ensures
        r == u64_or_zero(j.view()),
{
    match j {
        Json::Number(t) => match number_text_u64(t.as_slice()) {
            Some(v) => v,
            None => 0,
        },
        _ => 0,
    }
}

/// The text of a JSON string, empty for any other value.
pub fn json_text(j: &Json) -> (r: Vec<u8>)
    ensures
        r@ == text_or_empty(j.view()),
{
    match j {
        Json::Str(s) => copy_bytes(s),
        _ => Vec::new(),
    }
}

/// `true`
pub open spec fn true_text() -> Seq<u8> {
    seq![116u8, 114u8, 117u8, 101u8]
}

/// `false`
pub open spec fn false_text() -> Seq<u8> {
    seq![102u8, 97u8, 108u8, 115u8, 101u8]
}

/// A header value given as JSON: a string's text, a number's text, `true`
/// or `false`; other values give none.
pub open spec fn header_value(j: JsonV) -> Option<Seq<u8>> {
    match j {
        JsonV::Str(s) => Some(s),
        JsonV::Number(t) => Some(t),
        JsonV::Bool(b) => Some(if b { true_text() } else { false_text() }),
        _ => None,
    }
}

/// The headers that the members of an object give, in their order; members
/// whose value gives no text are left out.
pub open spec fn header_texts(e: Seq<(Seq<u8>, JsonV)>) -> Seq<(Seq<u8>, Seq<u8>)>
    decreases e.len(),
{
    if e.len() == 0 {
        seq![]
    } else {
        let rest = header_texts(e.drop_last());
        match header_value(e.last().1) {
            Some(t) => rest.push((e.last().0, t)),
            None => rest,
        }
    }
}

/// What a response writer is asked to do.
#[derive(PartialEq, Eq, Structural, Clone, Copy, Debug)]
pub enum HttpAction {
    AddHeader,
    End,
    PushBytes,
    PushFile,
    PushJson,
    SetCode,
    SetCompression,
    SetHeaders,
}

/// How many arguments an action reads by position.
pub open spec fn http_arity(a: HttpAction) -> nat {
    match a {
        HttpAction::AddHeader => 3,
        HttpAction::End => 1,
        HttpAction::PushBytes => 2,
        HttpAction::PushFile => 3,
        HttpAction::PushJson => 3,
        HttpAction::SetCode => 2,
        HttpAction::SetCompression => 2,
        HttpAction::SetHeaders => 1,
    }
}

/// A call on a response writer, with its arguments read.
pub enum HttpCommand {
    AddHeader { stream: usize, key: Vec<u8>, value: Vec<u8> },
    End { stream: usize },
    PushBytes { stream: usize, attachment: bool },
    PushFile { stream: usize, path: Vec<u8>, attachment: bool },
    PushJson { stream: usize, json: Json, attachment: bool },
    SetCode { stream: usize, code: u16 },
    SetCompression { stream: usize, compression: Option<Vec<u8>> },
    SetHeaders { stream: usize, headers: Vec<(Vec<u8>, Vec<u8>)> },
}

/// An [`HttpCommand`], as values.
pub enum HttpCommandV {
    AddHeader { stream: usize, key: Seq<u8>, value: Seq<u8> },
    End { stream: usize },
    PushBytes { stream: usize, attachment: bool },
    PushFile { stream: usize, path: Seq<u8>, attachment: bool },
    PushJson { stream: usize, json: JsonV, attachment: bool },
    SetCode { stream: usize, code: u16 },
    SetCompression { stream: usize, compression: Option<Seq<u8>> },
    SetHeaders { stream: usize, headers: Seq<(Seq<u8>, Seq<u8>)> },
}

/// Byte pairs, as values.
pub open spec fn byte_pairs_view(h: Seq<(Vec<u8>, Vec<u8>)>) -> Seq<(Seq<u8>, Seq<u8>)> {
    Seq::new(h.len(), |i: int| (h[i].0@, h[i].1@))
}

/// Optional bytes, as values.
pub open spec fn opt_bytes_view(o: Option<Vec<u8>>) -> Option<Seq<u8>> {
    match o {
        Some(v) => Some(v@),
        None => None,
    }
}

impl HttpCommand {
    pub open spec fn view(&self) -> HttpCommandV {
        match self {
            HttpCommand::AddHeader { stream, key, value } => HttpCommandV::AddHeader {
                stream: *stream,
                key: key@,
                value: value@,
            },
            HttpCommand::End { stream } => HttpCommandV::End { stream: *stream },
            HttpCommand::PushBytes { stream, attachment } => HttpCommandV::PushBytes {
                stream: *stream,
                attachment: *attachment,
            },
            HttpCommand::PushFile { stream, path, attachment } => HttpCommandV::PushFile {
                stream: *stream,
                path: path@,
                attachment: *attachment,
            },
            HttpCommand::PushJson { stream, json, attachment } => HttpCommandV::PushJson {
                stream: *stream,
                json: json.view(),
                attachment: *attachment,
            },
            HttpCommand::SetCode { stream, code } => HttpCommandV::SetCode { stream: *stream, code: *code },
            HttpCommand::SetCompression { stream, compression } => HttpCommandV::SetCompression {
                stream: *stream,
                compression: opt_bytes_view(*compression),
            },
            HttpCommand::SetHeaders { stream, headers } => HttpCommandV::SetHeaders {
                stream: *stream,
                headers: byte_pairs_view(headers@),
            },
        }
    }
}

/// The call that the arguments `args` ask of a response writer: nothing
/// unless they are an array; the stream is the first argument, and the rest
/// are read by position (see [`text_or_empty`], [`flag_of`],
/// [`compression_of`]); the status code is cut to 16 bits; the headers are
/// the members of the second argument when it is an object (see
/// [`header_texts`]), none otherwise.
pub open spec fn http_command_of(a: HttpAction, args: JsonV) -> Option<HttpCommandV> {
    match args {
        JsonV::Array(v) => Some(
            match a {
                HttpAction::AddHeader => HttpCommandV::AddHeader {
                    stream: stream_of(v),
                    key: text_or_empty(v[1]),
                    value: text_or_empty(v[2]),
                },
                HttpAction::End => HttpCommandV::End { stream: stream_of(v) },
                HttpAction::PushBytes => HttpCommandV::PushBytes {
                    stream: stream_of(v),
                    attachment: flag_of(v[1]),
                },
                HttpAction::PushFile => HttpCommandV::PushFile {
                    stream: stream_of(v),
                    path: text_or_empty(v[1]),
                    attachment: flag_of(v[2]),
                },
                HttpAction::PushJson => HttpCommandV::PushJson {
                    stream: stream_of(v),
                    json: v[1],
                    attachment: flag_of(v[2]),
                },
                HttpAction::SetCode => HttpCommandV::SetCode {
                    stream: stream_of(v),
                    code: u64_or_zero(v[1]) as u16,
                },
                HttpAction::SetCompression => HttpCommandV::SetCompression {
                    stream: stream_of(v),
                    compression: compression_of(v[1]),
                },
                HttpAction::SetHeaders => HttpCommandV::SetHeaders {
                    stream: stream_of(v),
                    headers: if v.len() > 1 {
                        match v[1] {
                            JsonV::Object(e) => header_texts(e),
                            _ => seq![],
                        }
                    } else {
                        seq![]
                    },
                },
            },
        ),
        _ => None,
    }
}

/// The arguments hold at least the positions that the action reads (when
/// they are an array).
pub open spec fn args_cover(args: JsonV, arity: nat) -> bool {
    args matches JsonV::Array(v) ==> v.len() >= arity
}

/// Reads the headers that the members of an object give (see
/// [`header_texts`]).
pub fn header_pairs(members: &Vec<(Vec<u8>, Json)>) -> (r: Vec<(Vec<u8>, Vec<u8>)>)
    ensures
        byte_pairs_view(r@) == header_texts(entries_view(members@)),
{
    let ghost e = entries_view(members@);
    let mut out: Vec<(Vec<u8>, Vec<u8>)> = Vec::new();
    let mut i: usize = 0;
    while i < members.len()
        invariant
            i <= members@.len(),
            e == entries_view(members@),
            byte_pairs_view(out@) == header_texts(e.take(i as int)),
        decreases members@.len() - i,
    {
        let ghost before = out@;
        assert(e.take(i as int + 1).drop_last() =~= e.take(i as int));
        let value: Option<Vec<u8>> = match &members[i].1 {
            Json::Str(s) => Some(copy_bytes(s)),
            Json::Number(t) => Some(copy_bytes(t)),
            Json::Bool(b) => {
                let mut t: Vec<u8> = Vec::new();
                if *b {
                    t.push(116u8);
                    t.push(114u8);
                    t.push(117u8);
                    t.push(101u8);
                    assert(t@ =~= true_text());
                } else {
                    t.push(102u8);
                    t.push(97u8);
                    t.push(108u8);
                    t.push(115u8);
                    t.push(101u8);
                    assert(t@ =~= false_text());
                }
                Some(t)
            },
            _ => None,
        };
        match value {
            Some(t) => {
                out.push((copy_bytes(&members[i].0), t));
                assert(byte_pairs_view(out@) =~= byte_pairs_view(before).push((e[i as int].0, t@)));
            },
            None => {},
        }
        i = i + 1;
    }
    assert(e.take(members@.len() as int) =~= e);
    out
}

/// Reads the call that the arguments ask of a response writer (see
/// [`http_command_of`]).
pub fn decode_http_command(a: HttpAction, args: &Json) -> (r: Option<HttpCommand>)
    requires
        args_cover(args.view(), http_arity(a)),
    ensures
        match r {
            Some(c) => http_command_of(a, args.view()) == Some(c.view()),
            None => http_command_of(a, args.view()) is None,
        },
{
    match args {
        Json::Array(v) => {
            let ghost items = args.view()->Array_0;
            assert(forall|i: int| 0 <= i < v@.len() ==> items[i] == #[trigger] v@[i].view());
            let stream = json_u64(&v[0]) as usize;
            let c = match a {
                HttpAction::AddHeader => HttpCommand::AddHeader {
                    stream,
                    key: json_text(&v[1]),
                    value: json_text(&v[2]),
                },
                HttpAction::End => HttpCommand::End { stream },
                HttpAction::PushBytes => HttpCommand::PushBytes {
                    stream,
                    attachment: json_u64(&v[1]) != 0,
                },
                HttpAction::PushFile => HttpCommand::PushFile {
                    stream,
                    path: json_text(&v[1]),
                    attachment: json_u64(&v[2]) != 0,
                },
                HttpAction::PushJson => HttpCommand::PushJson {
                    stream,
                    json: v[1].deep_clone(),
                    attachment: json_u64(&v[2]) != 0,
                },
                HttpAction::SetCode => HttpCommand::SetCode { stream, code: json_u64(&v[1]) as u16 },
                HttpAction::SetCompression => {
                    let t = json_text(&v[1]);
                    HttpCommand::SetCompression {
                        stream,
                        compression: if t.len() > 0 {
                            Some(t)
                        } else {
                            None
                        },
                    }
                },
                HttpAction::SetHeaders => {
                    let headers = if v.len() > 1 {
                        match &v[1] {
                            Json::Object(members) => {
                                proof {
                                    lemma_object_view(*members);
                                }
                                header_pairs(members)
                            },
                            _ => Vec::new(),
                        }
                    } else {
                        Vec::new()
                    };
                    proof {
                        if v@.len() <= 1 || !(v@[1] is Object) {
                            assert(byte_pairs_view(headers@) =~= Seq::<(Seq<u8>, Seq<u8>)>::empty());
                        }
                    }
                    HttpCommand::SetHeaders { stream, headers }
                },
            };
            Some(c)
        },
        _ => None,
    }
}

/// What a message writer (WebSocket or WebTransport) is asked to do.
#[derive(PartialEq, Eq, Structural, Clone, Copy, Debug)]
pub enum MessageAction {
    Close,
    Push,
    PushBytes,
    PushJson,
    SetCompression,
}

/// How many arguments an action reads by position.
pub open spec fn message_arity(a: MessageAction) -> nat {
    match a {
        MessageAction::Close => 1,
        MessageAction::Push => 2,
        MessageAction::PushBytes => 1,
        MessageAction::PushJson => 2,
        MessageAction::SetCompression => 2,
    }
}

/// A call on a message writer, with its arguments read.
pub enum MessageCommand {
    Close { stream: usize },
    Push { stream: usize, json: Json },
    PushBytes { stream: usize },
    PushJson { stream: usize, json: Json },
    SetCompression { stream: usize, compression: Option<Vec<u8>> },
}

/// A [`MessageCommand`], as values.
pub enum MessageCommandV {
    Close { stream: usize },
    Push { stream: usize, json: JsonV },
    PushBytes { stream: usize },
    PushJson { stream: usize, json: JsonV },
    SetCompression { stream: usize, compression: Option<Seq<u8>> },
}

impl MessageCommand {
    pub open spec fn view(&self) -> MessageCommandV {
        match self {
            MessageCommand::Close { stream } => MessageCommandV::Close { stream: *stream },
            MessageCommand::Push { stream, json } => MessageCommandV::Push { stream: *stream, json: json.view() },
            MessageCommand::PushBytes { stream } => MessageCommandV::PushBytes { stream: *stream },
            MessageCommand::PushJson { stream, json } => MessageCommandV::PushJson {
                stream: *stream,
                json: json.view(),
            },
            MessageCommand::SetCompression { stream, compression } => MessageCommandV::SetCompression {
                stream: *stream,
                compression: opt_bytes_view(*compression),
            },
        }
    }
}

/// The call that the arguments `args` ask of a message writer: nothing
/// unless they are an array; the stream is the first argument, the payload
/// or compression the second.
pub open spec fn message_command_of(a: MessageAction, args: JsonV) -> Option<MessageCommandV> {
    match args {
        JsonV::Array(v) => Some(
            match a {
                MessageAction::Close => MessageCommandV::Close { stream: stream_of(v) },
                MessageAction::Push => MessageCommandV::Push { stream: stream_of(v), json: v[1] },
                MessageAction::PushBytes => MessageCommandV::PushBytes { stream: stream_of(v) },
                MessageAction::PushJson => MessageCommandV::PushJson { stream: stream_of(v), json: v[1] },
                MessageAction::SetCompression => MessageCommandV::SetCompression {
                    stream: stream_of(v),
                    compression: compression_of(v[1]),
                },
            },
        ),
        _ => None,
    }
}

/// Reads the call that the arguments ask of a message writer (see
/// [`message_command_of`]).
pub fn decode_message_command(a: MessageAction, args: &Json) -> (r: Option<MessageCommand>)
    requires
        args_cover(args.view(), message_arity(a)),
    ensures
        match r {
            Some(c) => message_command_of(a, args.view()) == Some(c.view()),
            None => message_command_of(a, args.view()) is None,
        },
{
    match args {
        Json::Array(v) => {
            let ghost items = args.view()->Array_0;
            assert(forall|i: int| 0 <= i < v@.len() ==> items[i] == #[trigger] v@[i].view());
            let stream = json_u64(&v[0]) as usize;
            let c = match a {
                MessageAction::Close => MessageCommand::Close { stream },
                MessageAction::Push => MessageCommand::Push { stream, json: v[1].deep_clone() },
                MessageAction::PushBytes => MessageCommand::PushBytes { stream },
                MessageAction::PushJson => MessageCommand::PushJson { stream, json: v[1].deep_clone() },
                MessageAction::SetCompression => {
                    let t = json_text(&v[1]);
                    MessageCommand::SetCompression {
                        stream,
                        compression: if t.len() > 0 {
                            Some(t)
                        } else {
                            None
                        },
                    }
                },
            };
            Some(c)
        },
        _ => None,
    }
}

/// The integer types a setting may have to fit.
#[derive(PartialEq, Eq, Structural, Clone, Copy, Debug)]
pub enum IntWidth {
    Usize,
    U32,
    U16,
    U8,
}

/// What is wrong with a setting.
#[derive(PartialEq, Eq, Structural, Clone, Copy, Debug)]
pub enum OptProblem {
    /// Missing, or not a string.
    NotString,
    /// Missing, or not an unsigned integer.
    NotU64,
    /// Missing, or not a boolean.
    NotBool,
    /// An unsigned integer too large for its type.
    OutOfRange(IntWidth),
}

/// A setting that could not be read: its key and what is wrong with it.
pub struct OptError {
    pub key: Vec<u8>,
    pub problem: OptProblem,
}

/// The setting `key` as text (well-formed UTF-8).
pub open spec fn setting_text(opts: JsonV, key: Seq<u8>) -> Option<Seq<u8>> {
    match member(opts, key) {
        Some(JsonV::Str(s)) => if valid_utf8(s) {
            Some(s)
        } else {
            None
        },
        _ => None,
    }
}

/// The setting `key` as an unsigned integer (see [`arg_u64`]).
pub open spec fn setting_u64(opts: JsonV, key: Seq<u8>) -> Option<u64> {
    match member(opts, key) {
        Some(j) => arg_u64(j),
        None => None,
    }
}

/// The setting `key` as a boolean.
pub open spec fn setting_bool(opts: JsonV, key: Seq<u8>) -> Option<bool> {
    match member(opts, key) {
        Some(JsonV::Bool(b)) => Some(b),
        _ => None,
    }
}

/// The largest value of a width.
pub open spec fn width_max(w: IntWidth) -> int {
    match w {
        IntWidth::Usize => usize::MAX as int,
        IntWidth::U32 => u32::MAX as int,
        IntWidth::U16 => u16::MAX as int,
        IntWidth::U8 => u8::MAX as int,
    }
}

/// The setting `key` as an unsigned integer that fits `w`: `Err` says what
/// is wrong.
pub open spec fn setting_int(opts: JsonV, key: Seq<u8>, w: IntWidth) -> Result<u64, OptProblem> {
    match setting_u64(opts, key) {
        None => Err(OptProblem::NotU64),
        Some(x) => if x > width_max(w) {
            Err(OptProblem::OutOfRange(w))
        } else {
            Ok(x)
        },
    }
}

/// The words after the key in the message of a problem.
pub open spec fn problem_text(p: OptProblem) -> Seq<u8> {
    match p {
        OptProblem::NotString => "missing or not a string.".spec_bytes(),
        OptProblem::NotU64 => "missing or not a u64.".spec_bytes(),
        OptProblem::NotBool => "missing or not a bool.".spec_bytes(),
        OptProblem::OutOfRange(IntWidth::Usize) => "out of usize range.".spec_bytes(),
        OptProblem::OutOfRange(IntWidth::U32) => "out of u32 range.".spec_bytes(),
        OptProblem::OutOfRange(IntWidth::U16) => "out of u16 range.".spec_bytes(),
        OptProblem::OutOfRange(IntWidth::U8) => "out of u8 range.".spec_bytes(),
    }
}

/// The message of a setting that could not be read.
pub open spec fn opt_error_text(key: Seq<u8>, p: OptProblem) -> Seq<u8> {
    "[Arnelify Server]: Rust PYO3 error: '".spec_bytes() + key + "' ".spec_bytes() + problem_text(p)
}

impl OptError {
    /// The message that names the setting and what is wrong with it.
    pub fn message(&self) -> (r: Vec<u8>)
        ensures
            r@ == opt_error_text(self.key@, self.problem),
    {
        let tail: &str = match self.problem {
            OptProblem::NotString => "missing or not a string.",
            OptProblem::NotU64 => "missing or not a u64.",
            OptProblem::NotBool => "missing or not a bool.",
            OptProblem::OutOfRange(IntWidth::Usize) => "out of usize range.",
            OptProblem::OutOfRange(IntWidth::U32) => "out of u32 range.",
            OptProblem::OutOfRange(IntWidth::U16) => "out of u16 range.",
            OptProblem::OutOfRange(IntWidth::U8) => "out of u8 range.",
        };
        let mut r = vstd::slice::slice_to_vec("[Arnelify Server]: Rust PYO3 error: '".as_bytes());
        r.extend_from_slice(self.key.as_slice());
        r.extend_from_slice("' ".as_bytes());
        r.extend_from_slice(tail.as_bytes());
        r
    }
}

/// Reads the setting `key` as text.
pub fn get_str(opts: &Json, key: &str) -> (r: Result<String, OptError>)
    ensures
        match r {
            Ok(s) => setting_text(opts.view(), key.spec_bytes()) == Some(encode_utf8(s@)),
            Err(e) => setting_text(opts.view(), key.spec_bytes()) is None && e.key@ == key.spec_bytes()
                && e.problem == OptProblem::NotString,
        },
{
    let fail = OptError { key: vstd::slice::slice_to_vec(key.as_bytes()), problem: OptProblem::NotString };
    match member_of(opts, key.as_bytes()) {
        Some(Json::Str(b)) => match utf8_str(b.as_slice()) {
            Some(t) => Ok(t.to_owned()),
            None => Err(fail),
        },
        _ => Err(fail),
    }
}

/// Reads the setting `key` as an unsigned integer.
pub fn get_u64(opts: &Json, key: &str) -> (r: Result<u64, OptError>)
    ensures
        match r {
            Ok(v) => setting_u64(opts.view(), key.spec_bytes()) == Some(v),
            Err(e) => setting_u64(opts.view(), key.spec_bytes()) is None && e.key@ == key.spec_bytes()
                && e.problem == OptProblem::NotU64,
        },
{
    match member_of(opts, key.as_bytes()) {
        Some(Json::Number(t)) => match number_text_u64(t.as_slice()) {
            Some(v) => Ok(v),
            None => Err(OptError { key: vstd::slice::slice_to_vec(key.as_bytes()), problem: OptProblem::NotU64 }),
        },
        _ => Err(OptError { key: vstd::slice::slice_to_vec(key.as_bytes()), problem: OptProblem::NotU64 }),
    }
}

/// Reads the setting `key` as an unsigned integer that fits `w`.
pub fn get_int(opts: &Json, key: &str, w: IntWidth) -> (r: Result<u64, OptError>)
    ensures
        match r {
            Ok(v) => setting_int(opts.view(), key.spec_bytes(), w) == Ok::<u64, OptProblem>(v),
            Err(e) => setting_int(opts.view(), key.spec_bytes(), w) == Err::<u64, OptProblem>(e.problem)
                && e.key@ == key.spec_bytes(),
        },
{
    let x = get_u64(opts, key)?;
    let max: u64 = match w {
        IntWidth::Usize => usize::MAX as u64,
        IntWidth::U32 => 4294967295u64,
        IntWidth::U16 => 65535u64,
        IntWidth::U8 => 255u64,
    };
    if x > max {
        Err(OptError { key: vstd::slice::slice_to_vec(key.as_bytes()), problem: OptProblem::OutOfRange(w) })
    } else {
        Ok(x)
    }
}

/// Reads the setting `key` as a boolean.
pub fn get_bool(opts: &Json, key: &str) -> (r: Result<bool, OptError>)
    ensures
        match r {
            Ok(b) => setting_bool(opts.view(), key.spec_bytes()) == Some(b),
            Err(e) => setting_bool(opts.view(), key.spec_bytes()) is None && e.key@ == key.spec_bytes()
                && e.problem == OptProblem::NotBool,
        },
{
    match member_of(opts, key.as_bytes()) {
        Some(Json::Bool(b)) => Ok(b),
        _ => Err(OptError { key: vstd::slice::slice_to_vec(key.as_bytes()), problem: OptProblem::NotBool }),
    }
}

} // verus!
