//! Why a request reader refused its input.
use vstd::prelude::*;

verus! {

/// The class of a refusal, as the server's connection loops tell them apart:
/// `InvalidData` ends the connection, the others are answered with a 409.
#[derive(PartialEq, Eq, Structural, Clone, Copy, Debug)]
pub enum ErrorKind {
    InvalidData,
    InvalidInput,
    PermissionDenied,
    WriteZero,
}

/// What was wrong with the input.
#[derive(PartialEq, Eq, Structural, Clone, Copy, Debug)]
pub enum Reason {
    /// The length prefix of a framed message has no `+` (session channel).
    MetaSeparatorMissing,
    /// The length prefix of a framed message has no `+` (WebSocket and
    /// WebTransport).
    MetaPlusMissing,
    InvalidUtf8,
    InvalidMeta,
    MetaTooLarge,
    MessageTooLarge,
    InvalidJson,
    InvalidMessage,
    InvalidApplicationJson,
    MethodTooLong,
    UnknownMethod,
    UrlTooLong,
    ProtocolTooLong,
    HeadersTooLarge,
    ChunkedUnsupported,
    ContentLengthNotNumber,
    BodyTooLarge,
    /// The HTTP/2 wording of [`Reason::BodyTooLarge`].
    BodyTooLargeShort,
    FieldsTooLarge,
    InvalidFieldName,
    InvalidQuery,
    InvalidContentDisposition,
    FieldNameTooLong,
    TooManyFields,
    InvalidFilename,
    FilenameTooLong,
    TooManyFiles,
    InvalidPartContentType,
    EmptyFile,
    FileTooLarge,
    FilesTooLarge,
    FileSaveError,
    FileWriteError,
}

/// The text that the server reports for a reason.
pub open spec fn reason_text(reason: Reason) -> Seq<char> {
    match reason {
        Reason::MetaSeparatorMissing => "Missing '+' in meta."@,
        Reason::MetaPlusMissing => "Missing '+' in meta"@,
        Reason::InvalidUtf8 => "Invalid UTF-8."@,
        Reason::InvalidMeta => "Invalid meta."@,
        Reason::MetaTooLarge => "The maximum size of the meta has been exceeded."@,
        Reason::MessageTooLarge => "The maximum size of the message has been exceeded."@,
        Reason::InvalidJson => "Invalid JSON."@,
        Reason::InvalidMessage => "Invalid message."@,
        Reason::InvalidApplicationJson => "Invalid application/json."@,
        Reason::MethodTooLong => "The maximum size of the method has been exceeded."@,
        Reason::UnknownMethod => "Unknown request method."@,
        Reason::UrlTooLong => "The maximum size of the URL has been exceeded."@,
        Reason::ProtocolTooLong => "The maximum size of the protocol type has been exceeded."@,
        Reason::HeadersTooLarge => "The maximum size of headers has been exceeded."@,
        Reason::ChunkedUnsupported => "Chunked encoding is not supported."@,
        Reason::ContentLengthNotNumber => "Content-Length must be a number."@,
        Reason::BodyTooLarge => "The maximum size of the body has been exceeded."@,
        Reason::BodyTooLargeShort => "The maximum size of body has been exceeded."@,
        Reason::FieldsTooLarge => "The maximum size of fields has been exceeded."@,
        Reason::InvalidFieldName => "Invalid field name."@,
        Reason::InvalidQuery => "Invalid query."@,
        Reason::InvalidContentDisposition => "Invalid Content-Disposition detected in multipart/form-data."@,
        Reason::FieldNameTooLong => "The maximum size of the field name has been exceeded."@,
        Reason::TooManyFields => "The maximum number of fields has been exceeded."@,
        Reason::InvalidFilename => "Invalid filename detected in multipart/form-data."@,
        Reason::FilenameTooLong => "The maximum filename length has been exceeded."@,
        Reason::TooManyFiles => "The maximum number of files has been exceeded."@,
        Reason::InvalidPartContentType => "Invalid Content-Type detected in multipart/form-data."@,
        Reason::EmptyFile => "Empty files are not allowed."@,
        Reason::FileTooLarge => "The maximum size of the file has been exceeded."@,
        Reason::FilesTooLarge => "The maximum size of files has been exceeded."@,
        Reason::FileSaveError => "File save error."@,
        Reason::FileWriteError => "File write error."@,
    }
}

/// A refusal: its class and its reason.
#[derive(PartialEq, Eq, Structural, Clone, Copy, Debug)]
pub struct ReqError {
    pub kind: ErrorKind,
    pub reason: Reason,
}

impl ReqError {
    pub fn new(kind: ErrorKind, reason: Reason) -> (r: ReqError)
        ensures
            r.kind == kind,
            r.reason == reason,
    {
        ReqError { kind, reason }
    }

    /// The text that the server reports for this refusal.
    pub fn message(&self) -> (r: &'static str)
        ensures
            r@ == reason_text(self.reason),
    {
        match self.reason {
            Reason::MetaSeparatorMissing => "Missing '+' in meta.",
            Reason::MetaPlusMissing => "Missing '+' in meta",
            Reason::InvalidUtf8 => "Invalid UTF-8.",
            Reason::InvalidMeta => "Invalid meta.",
            Reason::MetaTooLarge => "The maximum size of the meta has been exceeded.",
            Reason::MessageTooLarge => "The maximum size of the message has been exceeded.",
            Reason::InvalidJson => "Invalid JSON.",
            Reason::InvalidMessage => "Invalid message.",
            Reason::InvalidApplicationJson => "Invalid application/json.",
            Reason::MethodTooLong => "The maximum size of the method has been exceeded.",
            Reason::UnknownMethod => "Unknown request method.",
            Reason::UrlTooLong => "The maximum size of the URL has been exceeded.",
            Reason::ProtocolTooLong => "The maximum size of the protocol type has been exceeded.",
            Reason::HeadersTooLarge => "The maximum size of headers has been exceeded.",
            Reason::ChunkedUnsupported => "Chunked encoding is not supported.",
            Reason::ContentLengthNotNumber => "Content-Length must be a number.",
            Reason::BodyTooLarge => "The maximum size of the body has been exceeded.",
            Reason::BodyTooLargeShort => "The maximum size of body has been exceeded.",
            Reason::FieldsTooLarge => "The maximum size of fields has been exceeded.",
            Reason::InvalidFieldName => "Invalid field name.",
            Reason::InvalidQuery => "Invalid query.",
            Reason::InvalidContentDisposition => "Invalid Content-Disposition detected in multipart/form-data.",
            Reason::FieldNameTooLong => "The maximum size of the field name has been exceeded.",
            Reason::TooManyFields => "The maximum number of fields has been exceeded.",
            Reason::InvalidFilename => "Invalid filename detected in multipart/form-data.",
            Reason::FilenameTooLong => "The maximum filename length has been exceeded.",
            Reason::TooManyFiles => "The maximum number of files has been exceeded.",
            Reason::InvalidPartContentType => "Invalid Content-Type detected in multipart/form-data.",
            Reason::EmptyFile => "Empty files are not allowed.",
            Reason::FileTooLarge => "The maximum size of the file has been exceeded.",
            Reason::FilesTooLarge => "The maximum size of files has been exceeded.",
            Reason::FileSaveError => "File save error.",
            Reason::FileWriteError => "File write error.",
        }
    }
}

/// The refusal with this class and reason.
pub open spec fn err(kind: ErrorKind, reason: Reason) -> ReqError {
    ReqError { kind, reason }
}


/// The JSON answer `{"code": <code>, "error": <error>}`.
pub open spec fn answer_view(code_text: Seq<u8>, error: Seq<u8>) -> crate::json::JsonV {
    crate::json::JsonV::Object(
        seq![
            (seq![99u8, 111u8, 100u8, 101u8], crate::json::JsonV::Number(code_text)),
            (seq![101u8, 114u8, 114u8, 111u8, 114u8], crate::json::JsonV::Str(error)),
        ],
    )
}

/// The JSON answer `{"code": <code>, "error": <error>}` (see
/// [`answer_view`]).
pub fn answer_json(code_text: Vec<u8>, error: Vec<u8>) -> (r: crate::json::Json)
    ensures
        r.view() == answer_view(code_text@, error@),
{
    let k1: Vec<u8> = vec![99u8, 111u8, 100u8, 101u8];
    let k2: Vec<u8> = vec![101u8, 114u8, 114u8, 111u8, 114u8];
    let mut members: Vec<(Vec<u8>, crate::json::Json)> = Vec::new();
    members.push((k1, crate::json::Json::Number(code_text)));
    members.push((k2, crate::json::Json::Str(error)));
    proof {
        crate::json::lemma_object_view(members);
        assert(crate::json::entries_view(members@) =~= seq![
            (seq![99u8, 111u8, 100u8, 101u8], crate::json::JsonV::Number(code_text@)),
            (seq![101u8, 114u8, 114u8, 111u8, 114u8], crate::json::JsonV::Str(error@)),
        ]);
    }
    crate::json::Json::Object(members)
}

/// What the server answers a refused request: nothing for a refusal of the
/// request's framing (`InvalidData`), which ends the connection; otherwise
/// status 409 with `{"code": 409, "error": <the refusal's text>}`.
pub fn refusal_answer(e: &ReqError) -> (r: Option<(u16, crate::json::Json)>)
    ensures
        match r {
            None => e.kind == ErrorKind::InvalidData,
            Some((code, j)) => e.kind != ErrorKind::InvalidData && code == 409 && j.view() == answer_view(
                seq![52u8, 48u8, 57u8],
                vstd::utf8::encode_utf8(reason_text(e.reason)),
            ),
        },
{
    if e.kind == ErrorKind::InvalidData {
        return None;
    }
    let text = e.message();
    Some((409, answer_json(vec![52u8, 48u8, 57u8], vstd::slice::slice_to_vec(text.as_bytes()))))
}

} // verus!
