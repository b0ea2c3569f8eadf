//! The state of an HTTP response being written, shared by HTTP/1.1 and
//! HTTP/2: status, headers, and whether the body is bytes or a file.
use vstd::prelude::*;
use vstd::string::{StringSliceAdditionalSpecFns, StringExecFns};
use vstd::utf8::*;
use crate::sys::{path_extension, path_extension_of, path_file_name, path_file_name_of};
use crate::text::{
    bytes_equal, decimal, decimal_u64, eq_ignore_case, lemma_decimal_parses, lemma_decimal_text,
    parse_usize_spec, str_eq_ignore_case,
    utf8_str,
};

verus! {

/// The state of a response, as values.
pub struct RespV {
    pub body: Option<Seq<u8>>,
    pub code: u16,
    pub compression: Option<String>,
    pub content_length: usize,
    pub content_type: Seq<char>,
    pub encoding: Seq<char>,
    pub file_path: Option<Seq<char>>,
    pub headers: Seq<(Seq<char>, Seq<char>)>,
    pub headers_sent: bool,
    pub is_attachment: bool,
}

/// A fresh response: `200`, a JSON body in UTF-8, no headers yet.
pub open spec fn fresh_resp() -> RespV {
    RespV {
        body: None,
        code: 200,
        compression: None,
        content_length: 0,
        content_type: "application/json"@,
        encoding: "utf-8"@,
        file_path: None,
        headers: seq![],
        headers_sent: false,
        is_attachment: false,
    }
}

/// `key` names this header, ignoring ASCII case.
pub open spec fn names(key: Seq<char>, name: Seq<u8>) -> bool {
    eq_ignore_case(encode_utf8(key), name)
}

/// `Content-Disposition`
pub open spec fn disposition_header() -> Seq<u8> {
    "Content-Disposition".spec_bytes()
}

/// `Content-Length`
pub open spec fn length_header() -> Seq<u8> {
    "Content-Length".spec_bytes()
}

/// `Content-Type`
pub open spec fn type_header() -> Seq<u8> {
    "Content-Type".spec_bytes()
}

/// The headers that a response carries once.
pub open spec fn is_single_header(name: Seq<u8>) -> bool {
    name == disposition_header() || name == length_header() || name == type_header()
}

/// Both keys name the same header that is carried once.
pub open spec fn same_single(a: Seq<char>, b: Seq<char>) -> bool {
    ||| names(a, disposition_header()) && names(b, disposition_header())
    ||| names(a, length_header()) && names(b, length_header())
    ||| names(a, type_header()) && names(b, type_header())
}

/// The headers already hold the header that `key` names, if that one is
/// carried once.
pub open spec fn header_taken(h: Seq<(Seq<char>, Seq<char>)>, key: Seq<char>) -> bool {
    exists|i: int| 0 <= i < h.len() && same_single(key, #[trigger] h[i].0)
}

/// Adding a header: a header carried once is not added twice.
pub open spec fn with_header(h: Seq<(Seq<char>, Seq<char>)>, key: Seq<char>, value: Seq<char>) -> Seq<(Seq<char>, Seq<char>)> {
    if header_taken(h, key) {
        h
    } else {
        h.push((key, value))
    }
}

/// At most one header of `h` is named `name`.
pub open spec fn at_most_one(h: Seq<(Seq<char>, Seq<char>)>, name: Seq<u8>) -> bool {
    forall|i: int, j: int|
        0 <= i < h.len() && 0 <= j < h.len() && names(#[trigger] h[i].0, name) && names(
            #[trigger] h[j].0,
            name,
        ) ==> i == j
}

/// Adding a header never makes a header that is carried once appear twice.
pub proof fn lemma_single_headers_stay_single(
    h: Seq<(Seq<char>, Seq<char>)>,
    key: Seq<char>,
    value: Seq<char>,
    name: Seq<u8>,
)
    requires
        is_single_header(name),
        at_most_one(h, name),
    ensures
        at_most_one(with_header(h, key, value), name),
{
    let r = with_header(h, key, value);
    if !header_taken(h, key) {
        assert forall|i: int, j: int|
            0 <= i < r.len() && 0 <= j < r.len() && names(#[trigger] r[i].0, name) && names(
                #[trigger] r[j].0,
                name,
            ) implies i == j by {
            if i == h.len() || j == h.len() {
                let other = if i == h.len() {
                    j
                } else {
                    i
                };
                if other < h.len() {
                    assert(r[other] == h[other]);
                    assert(same_single(key, h[other].0));
                }
            } else {
                assert(r[i] == h[i] && r[j] == h[j]);
            }
        }
    }
}

/// The reason phrase of a status code this server knows.
pub open spec fn status_text(code: u16) -> Option<Seq<char>> {
    if code == 100 {
        Some("Continue"@)
    } else if code == 101 {
        Some("Switching Protocols"@)
    } else if code == 102 {
        Some("Processing"@)
    } else if code == 200 {
        Some("OK"@)
    } else if code == 201 {
        Some("Created"@)
    } else if code == 202 {
        Some("Accepted"@)
    } else if code == 204 {
        Some("No Content"@)
    } else if code == 206 {
        Some("Partial Content"@)
    } else if code == 301 {
        Some("Moved Permanently"@)
    } else if code == 302 {
        Some("Found"@)
    } else if code == 304 {
        Some("Not Modified"@)
    } else if code == 400 {
        Some("Bad Request"@)
    } else if code == 401 {
        Some("Unauthorized"@)
    } else if code == 403 {
        Some("Forbidden"@)
    } else if code == 404 {
        Some("Not Found"@)
    } else if code == 409 {
        Some("Conflict"@)
    } else if code == 500 {
        Some("Internal Server Error"@)
    } else if code == 502 {
        Some("Bad Gateway"@)
    } else if code == 503 {
        Some("Service Unavailable"@)
    } else {
        None
    }
}

/// The reason phrase of a status code (see [`status_text`]).
pub fn status_text_exec(code: u16) -> (r: Option<&'static str>)
    ensures
        match r {
            Some(t) => status_text(code) == Some(t@),
            None => status_text(code) is None,
        },
{
    match code {
        100 => Some("Continue"),
        101 => Some("Switching Protocols"),
        102 => Some("Processing"),
        200 => Some("OK"),
        201 => Some("Created"),
        202 => Some("Accepted"),
        204 => Some("No Content"),
        206 => Some("Partial Content"),
        301 => Some("Moved Permanently"),
        302 => Some("Found"),
        304 => Some("Not Modified"),
        400 => Some("Bad Request"),
        401 => Some("Unauthorized"),
        403 => Some("Forbidden"),
        404 => Some("Not Found"),
        409 => Some("Conflict"),
        500 => Some("Internal Server Error"),
        502 => Some("Bad Gateway"),
        503 => Some("Service Unavailable"),
        _ => None,
    }
}

/// `\r\n`
pub open spec fn line_end() -> Seq<u8> {
    seq![13u8, 10u8]
}

/// The header lines `key: value\r\n`, in order.
pub open spec fn header_lines(h: Seq<(Seq<char>, Seq<char>)>) -> Seq<u8>
    decreases h.len(),
{
    if h.len() == 0 {
        seq![]
    } else {
        header_lines(h.drop_last()) + encode_utf8(h.last().0) + seq![58u8, 32u8] + encode_utf8(
            h.last().1,
        ) + line_end()
    }
}

/// The head of an HTTP/1.1 response: the status line, `Connection`, the
/// headers, `Server`, and an empty line.
pub open spec fn head_bytes(code: u16, status: Seq<char>, h: Seq<(Seq<char>, Seq<char>)>) -> Seq<u8> {
    "HTTP/1.1 ".spec_bytes() + decimal(code as nat) + seq![32u8] + encode_utf8(status) + line_end()
        + "Connection: keep-alive\r\n".spec_bytes() + header_lines(h)
        + "Server: Arnelify Server\r\n".spec_bytes() + line_end()
}

/// The headers of an HTTP/2 response: the response's, then `Server`.
pub open spec fn head_pairs(h: Seq<(Seq<char>, Seq<char>)>) -> Seq<(Seq<char>, Seq<char>)> {
    h.push(("Server"@, "Arnelify Server"@))
}

/// The media type of a file extension (with its dot); text types carry
/// the charset.
pub open spec fn mime_of(ext: Seq<u8>, charset: Seq<char>) -> Seq<char> {
    if ext == ".avi".spec_bytes() {
        "video/x-msvideo"@
    } else if ext == ".css".spec_bytes() {
        "text/css; charset="@ + charset
    } else if ext == ".csv".spec_bytes() {
        "text/csv; charset="@ + charset
    } else if ext == ".eot".spec_bytes() {
        "font/eot"@
    } else if ext == ".gif".spec_bytes() {
        "image/gif"@
    } else if ext == ".htm".spec_bytes() || ext == ".html".spec_bytes() {
        "text/html; charset="@ + charset
    } else if ext == ".ico".spec_bytes() {
        "image/x-icon"@
    } else if ext == ".jpeg".spec_bytes() || ext == ".jpg".spec_bytes() {
        "image/jpeg"@
    } else if ext == ".js".spec_bytes() {
        "application/javascript; charset="@ + charset
    } else if ext == ".json".spec_bytes() {
        "application/json; charset="@ + charset
    } else if ext == ".mkv".spec_bytes() {
        "video/x-matroska"@
    } else if ext == ".mov".spec_bytes() {
        "video/quicktime"@
    } else if ext == ".mp3".spec_bytes() {
        "audio/mpeg"@
    } else if ext == ".mp4".spec_bytes() {
        "video/mp4"@
    } else if ext == ".otf".spec_bytes() {
        "font/otf"@
    } else if ext == ".png".spec_bytes() {
        "image/png"@
    } else if ext == ".svg".spec_bytes() {
        "image/svg+xml; charset="@ + charset
    } else if ext == ".ttf".spec_bytes() {
        "font/ttf"@
    } else if ext == ".txt".spec_bytes() {
        "text/plain; charset="@ + charset
    } else if ext == ".wasm".spec_bytes() {
        "application/wasm"@
    } else if ext == ".wav".spec_bytes() {
        "audio/wav"@
    } else if ext == ".weba".spec_bytes() {
        "audio/webm"@
    } else if ext == ".webp".spec_bytes() {
        "image/webp"@
    } else if ext == ".woff".spec_bytes() {
        "font/woff"@
    } else if ext == ".woff2".spec_bytes() {
        "font/woff2"@
    } else if ext == ".xml".spec_bytes() {
        "application/xml; charset="@ + charset
    } else {
        "application/octet-stream"@
    }
}

/// The bytes of each extension the media-type table knows.
proof fn lemma_ext_bytes()
    ensures
        ".avi".spec_bytes() == seq![46u8, 97u8, 118u8, 105u8],
        ".css".spec_bytes() == seq![46u8, 99u8, 115u8, 115u8],
        ".csv".spec_bytes() == seq![46u8, 99u8, 115u8, 118u8],
        ".eot".spec_bytes() == seq![46u8, 101u8, 111u8, 116u8],
        ".gif".spec_bytes() == seq![46u8, 103u8, 105u8, 102u8],
        ".htm".spec_bytes() == seq![46u8, 104u8, 116u8, 109u8],
        ".html".spec_bytes() == seq![46u8, 104u8, 116u8, 109u8, 108u8],
        ".ico".spec_bytes() == seq![46u8, 105u8, 99u8, 111u8],
        ".jpeg".spec_bytes() == seq![46u8, 106u8, 112u8, 101u8, 103u8],
        ".jpg".spec_bytes() == seq![46u8, 106u8, 112u8, 103u8],
        ".js".spec_bytes() == seq![46u8, 106u8, 115u8],
        ".json".spec_bytes() == seq![46u8, 106u8, 115u8, 111u8, 110u8],
        ".mkv".spec_bytes() == seq![46u8, 109u8, 107u8, 118u8],
        ".mov".spec_bytes() == seq![46u8, 109u8, 111u8, 118u8],
        ".mp3".spec_bytes() == seq![46u8, 109u8, 112u8, 51u8],
        ".mp4".spec_bytes() == seq![46u8, 109u8, 112u8, 52u8],
        ".otf".spec_bytes() == seq![46u8, 111u8, 116u8, 102u8],
        ".png".spec_bytes() == seq![46u8, 112u8, 110u8, 103u8],
        ".svg".spec_bytes() == seq![46u8, 115u8, 118u8, 103u8],
        ".ttf".spec_bytes() == seq![46u8, 116u8, 116u8, 102u8],
        ".txt".spec_bytes() == seq![46u8, 116u8, 120u8, 116u8],
        ".wasm".spec_bytes() == seq![46u8, 119u8, 97u8, 115u8, 109u8],
        ".wav".spec_bytes() == seq![46u8, 119u8, 97u8, 118u8],
        ".weba".spec_bytes() == seq![46u8, 119u8, 101u8, 98u8, 97u8],
        ".webp".spec_bytes() == seq![46u8, 119u8, 101u8, 98u8, 112u8],
        ".woff".spec_bytes() == seq![46u8, 119u8, 111u8, 102u8, 102u8],
        ".woff2".spec_bytes() == seq![46u8, 119u8, 111u8, 102u8, 102u8, 50u8],
        ".xml".spec_bytes() == seq![46u8, 120u8, 109u8, 108u8],
{
    reveal_strlit(".avi");
    vstd::string::is_ascii_spec_bytes(".avi");
    assert(".avi".spec_bytes() =~= seq![46u8, 97u8, 118u8, 105u8]);
    reveal_strlit(".css");
    vstd::string::is_ascii_spec_bytes(".css");
    assert(".css".spec_bytes() =~= seq![46u8, 99u8, 115u8, 115u8]);
    reveal_strlit(".csv");
    vstd::string::is_ascii_spec_bytes(".csv");
    assert(".csv".spec_bytes() =~= seq![46u8, 99u8, 115u8, 118u8]);
    reveal_strlit(".eot");
    vstd::string::is_ascii_spec_bytes(".eot");
    assert(".eot".spec_bytes() =~= seq![46u8, 101u8, 111u8, 116u8]);
    reveal_strlit(".gif");
    vstd::string::is_ascii_spec_bytes(".gif");
    assert(".gif".spec_bytes() =~= seq![46u8, 103u8, 105u8, 102u8]);
    reveal_strlit(".htm");
    vstd::string::is_ascii_spec_bytes(".htm");
    assert(".htm".spec_bytes() =~= seq![46u8, 104u8, 116u8, 109u8]);
    reveal_strlit(".html");
    vstd::string::is_ascii_spec_bytes(".html");
    assert(".html".spec_bytes() =~= seq![46u8, 104u8, 116u8, 109u8, 108u8]);
    reveal_strlit(".ico");
    vstd::string::is_ascii_spec_bytes(".ico");
    assert(".ico".spec_bytes() =~= seq![46u8, 105u8, 99u8, 111u8]);
    reveal_strlit(".jpeg");
    vstd::string::is_ascii_spec_bytes(".jpeg");
    assert(".jpeg".spec_bytes() =~= seq![46u8, 106u8, 112u8, 101u8, 103u8]);
    reveal_strlit(".jpg");
    vstd::string::is_ascii_spec_bytes(".jpg");
    assert(".jpg".spec_bytes() =~= seq![46u8, 106u8, 112u8, 103u8]);
    reveal_strlit(".js");
    vstd::string::is_ascii_spec_bytes(".js");
    assert(".js".spec_bytes() =~= seq![46u8, 106u8, 115u8]);
    reveal_strlit(".json");
    vstd::string::is_ascii_spec_bytes(".json");
    assert(".json".spec_bytes() =~= seq![46u8, 106u8, 115u8, 111u8, 110u8]);
    reveal_strlit(".mkv");
    vstd::string::is_ascii_spec_bytes(".mkv");
    assert(".mkv".spec_bytes() =~= seq![46u8, 109u8, 107u8, 118u8]);
    reveal_strlit(".mov");
    vstd::string::is_ascii_spec_bytes(".mov");
    assert(".mov".spec_bytes() =~= seq![46u8, 109u8, 111u8, 118u8]);
    reveal_strlit(".mp3");
    vstd::string::is_ascii_spec_bytes(".mp3");
    assert(".mp3".spec_bytes() =~= seq![46u8, 109u8, 112u8, 51u8]);
    reveal_strlit(".mp4");
    vstd::string::is_ascii_spec_bytes(".mp4");
    assert(".mp4".spec_bytes() =~= seq![46u8, 109u8, 112u8, 52u8]);
    reveal_strlit(".otf");
    vstd::string::is_ascii_spec_bytes(".otf");
    assert(".otf".spec_bytes() =~= seq![46u8, 111u8, 116u8, 102u8]);
    reveal_strlit(".png");
    vstd::string::is_ascii_spec_bytes(".png");
    assert(".png".spec_bytes() =~= seq![46u8, 112u8, 110u8, 103u8]);
    reveal_strlit(".svg");
    vstd::string::is_ascii_spec_bytes(".svg");
    assert(".svg".spec_bytes() =~= seq![46u8, 115u8, 118u8, 103u8]);
    reveal_strlit(".ttf");
    vstd::string::is_ascii_spec_bytes(".ttf");
    assert(".ttf".spec_bytes() =~= seq![46u8, 116u8, 116u8, 102u8]);
    reveal_strlit(".txt");
    vstd::string::is_ascii_spec_bytes(".txt");
    assert(".txt".spec_bytes() =~= seq![46u8, 116u8, 120u8, 116u8]);
    reveal_strlit(".wasm");
    vstd::string::is_ascii_spec_bytes(".wasm");
    assert(".wasm".spec_bytes() =~= seq![46u8, 119u8, 97u8, 115u8, 109u8]);
    reveal_strlit(".wav");
    vstd::string::is_ascii_spec_bytes(".wav");
    assert(".wav".spec_bytes() =~= seq![46u8, 119u8, 97u8, 118u8]);
    reveal_strlit(".weba");
    vstd::string::is_ascii_spec_bytes(".weba");
    assert(".weba".spec_bytes() =~= seq![46u8, 119u8, 101u8, 98u8, 97u8]);
    reveal_strlit(".webp");
    vstd::string::is_ascii_spec_bytes(".webp");
    assert(".webp".spec_bytes() =~= seq![46u8, 119u8, 101u8, 98u8, 112u8]);
    reveal_strlit(".woff");
    vstd::string::is_ascii_spec_bytes(".woff");
    assert(".woff".spec_bytes() =~= seq![46u8, 119u8, 111u8, 102u8, 102u8]);
    reveal_strlit(".woff2");
    vstd::string::is_ascii_spec_bytes(".woff2");
    assert(".woff2".spec_bytes() =~= seq![46u8, 119u8, 111u8, 102u8, 102u8, 50u8]);
    reveal_strlit(".xml");
    vstd::string::is_ascii_spec_bytes(".xml");
    assert(".xml".spec_bytes() =~= seq![46u8, 120u8, 109u8, 108u8]);
}

proof fn lemma_mime_avi(charset: Seq<char>)
    ensures
        mime_of(".avi".spec_bytes(), charset) == "video/x-msvideo"@,
{
    lemma_ext_bytes();
}

proof fn lemma_mime_css(charset: Seq<char>)
    ensures
        mime_of(".css".spec_bytes(), charset) == "text/css; charset="@ + charset,
{
    lemma_ext_bytes();
    assert(".css".spec_bytes()[1] != ".avi".spec_bytes()[1]);
}

proof fn lemma_mime_csv(charset: Seq<char>)
    ensures
        mime_of(".csv".spec_bytes(), charset) == "text/csv; charset="@ + charset,
{
    lemma_ext_bytes();
    assert(".csv".spec_bytes()[1] != ".avi".spec_bytes()[1]);
    assert(".csv".spec_bytes()[3] != ".css".spec_bytes()[3]);
}

proof fn lemma_mime_eot(charset: Seq<char>)
    ensures
        mime_of(".eot".spec_bytes(), charset) == "font/eot"@,
{
    lemma_ext_bytes();
    assert(".eot".spec_bytes()[1] != ".avi".spec_bytes()[1]);
    assert(".eot".spec_bytes()[1] != ".css".spec_bytes()[1]);
    assert(".eot".spec_bytes()[1] != ".csv".spec_bytes()[1]);
}

proof fn lemma_mime_gif(charset: Seq<char>)
    ensures
        mime_of(".gif".spec_bytes(), charset) == "image/gif"@,
{
    lemma_ext_bytes();
    assert(".gif".spec_bytes()[1] != ".avi".spec_bytes()[1]);
    assert(".gif".spec_bytes()[1] != ".css".spec_bytes()[1]);
    assert(".gif".spec_bytes()[1] != ".csv".spec_bytes()[1]);
    assert(".gif".spec_bytes()[1] != ".eot".spec_bytes()[1]);
}

proof fn lemma_mime_htm(charset: Seq<char>)
    ensures
        mime_of(".htm".spec_bytes(), charset) == "text/html; charset="@ + charset,
{
    lemma_ext_bytes();
    assert(".htm".spec_bytes()[1] != ".avi".spec_bytes()[1]);
    assert(".htm".spec_bytes()[1] != ".css".spec_bytes()[1]);
    assert(".htm".spec_bytes()[1] != ".csv".spec_bytes()[1]);
    assert(".htm".spec_bytes()[1] != ".eot".spec_bytes()[1]);
    assert(".htm".spec_bytes()[1] != ".gif".spec_bytes()[1]);
}

proof fn lemma_mime_html(charset: Seq<char>)
    ensures
        mime_of(".html".spec_bytes(), charset) == "text/html; charset="@ + charset,
{
    lemma_ext_bytes();
}

proof fn lemma_mime_ico(charset: Seq<char>)
    ensures
        mime_of(".ico".spec_bytes(), charset) == "image/x-icon"@,
{
    lemma_ext_bytes();
    assert(".ico".spec_bytes()[1] != ".avi".spec_bytes()[1]);
    assert(".ico".spec_bytes()[1] != ".css".spec_bytes()[1]);
    assert(".ico".spec_bytes()[1] != ".csv".spec_bytes()[1]);
    assert(".ico".spec_bytes()[1] != ".eot".spec_bytes()[1]);
    assert(".ico".spec_bytes()[1] != ".gif".spec_bytes()[1]);
    assert(".ico".spec_bytes()[1] != ".htm".spec_bytes()[1]);
}

proof fn lemma_mime_jpeg(charset: Seq<char>)
    ensures
        mime_of(".jpeg".spec_bytes(), charset) == "image/jpeg"@,
{
    lemma_ext_bytes();
    assert(".jpeg".spec_bytes()[1] != ".html".spec_bytes()[1]);
}

proof fn lemma_mime_jpg(charset: Seq<char>)
    ensures
        mime_of(".jpg".spec_bytes(), charset) == "image/jpeg"@,
{
    lemma_ext_bytes();
    assert(".jpg".spec_bytes()[1] != ".avi".spec_bytes()[1]);
    assert(".jpg".spec_bytes()[1] != ".css".spec_bytes()[1]);
    assert(".jpg".spec_bytes()[1] != ".csv".spec_bytes()[1]);
    assert(".jpg".spec_bytes()[1] != ".eot".spec_bytes()[1]);
    assert(".jpg".spec_bytes()[1] != ".gif".spec_bytes()[1]);
    assert(".jpg".spec_bytes()[1] != ".htm".spec_bytes()[1]);
    assert(".jpg".spec_bytes()[1] != ".ico".spec_bytes()[1]);
}

proof fn lemma_mime_js(charset: Seq<char>)
    ensures
        mime_of(".js".spec_bytes(), charset) == "application/javascript; charset="@ + charset,
{
    lemma_ext_bytes();
}

#[verifier::rlimit(50)]
proof fn lemma_mime_json(charset: Seq<char>)
    ensures
        mime_of(".json".spec_bytes(), charset) == "application/json; charset="@ + charset,
{
    lemma_ext_bytes();
    assert(".json".spec_bytes().len() == 5);
    assert(".avi".spec_bytes().len() == 4);
    assert(".json".spec_bytes() != ".avi".spec_bytes());
    assert(".css".spec_bytes().len() == 4);
    assert(".json".spec_bytes() != ".css".spec_bytes());
    assert(".csv".spec_bytes().len() == 4);
    assert(".json".spec_bytes() != ".csv".spec_bytes());
    assert(".eot".spec_bytes().len() == 4);
    assert(".json".spec_bytes() != ".eot".spec_bytes());
    assert(".gif".spec_bytes().len() == 4);
    assert(".json".spec_bytes() != ".gif".spec_bytes());
    assert(".htm".spec_bytes().len() == 4);
    assert(".json".spec_bytes() != ".htm".spec_bytes());
    assert(".html".spec_bytes().len() == 5);
    assert(".json".spec_bytes()[1] != ".html".spec_bytes()[1]);
    assert(".json".spec_bytes() != ".html".spec_bytes());
    assert(".ico".spec_bytes().len() == 4);
    assert(".json".spec_bytes() != ".ico".spec_bytes());
    assert(".jpeg".spec_bytes().len() == 5);
    assert(".json".spec_bytes()[2] != ".jpeg".spec_bytes()[2]);
    assert(".json".spec_bytes() != ".jpeg".spec_bytes());
    assert(".jpg".spec_bytes().len() == 4);
    assert(".json".spec_bytes() != ".jpg".spec_bytes());
    assert(".js".spec_bytes().len() == 3);
    assert(".json".spec_bytes() != ".js".spec_bytes());
}

proof fn lemma_mime_mkv(charset: Seq<char>)
    ensures
        mime_of(".mkv".spec_bytes(), charset) == "video/x-matroska"@,
{
    lemma_ext_bytes();
    assert(".mkv".spec_bytes()[1] != ".avi".spec_bytes()[1]);
    assert(".mkv".spec_bytes()[1] != ".css".spec_bytes()[1]);
    assert(".mkv".spec_bytes()[1] != ".csv".spec_bytes()[1]);
    assert(".mkv".spec_bytes()[1] != ".eot".spec_bytes()[1]);
    assert(".mkv".spec_bytes()[1] != ".gif".spec_bytes()[1]);
    assert(".mkv".spec_bytes()[1] != ".htm".spec_bytes()[1]);
    assert(".mkv".spec_bytes()[1] != ".ico".spec_bytes()[1]);
    assert(".mkv".spec_bytes()[1] != ".jpg".spec_bytes()[1]);
}

proof fn lemma_mime_mov(charset: Seq<char>)
    ensures
        mime_of(".mov".spec_bytes(), charset) == "video/quicktime"@,
{
    lemma_ext_bytes();
    assert(".mov".spec_bytes()[1] != ".avi".spec_bytes()[1]);
    assert(".mov".spec_bytes()[1] != ".css".spec_bytes()[1]);
    assert(".mov".spec_bytes()[1] != ".csv".spec_bytes()[1]);
    assert(".mov".spec_bytes()[1] != ".eot".spec_bytes()[1]);
    assert(".mov".spec_bytes()[1] != ".gif".spec_bytes()[1]);
    assert(".mov".spec_bytes()[1] != ".htm".spec_bytes()[1]);
    assert(".mov".spec_bytes()[1] != ".ico".spec_bytes()[1]);
    assert(".mov".spec_bytes()[1] != ".jpg".spec_bytes()[1]);
    assert(".mov".spec_bytes()[2] != ".mkv".spec_bytes()[2]);
}

proof fn lemma_mime_mp3(charset: Seq<char>)
    ensures
        mime_of(".mp3".spec_bytes(), charset) == "audio/mpeg"@,
{
    lemma_ext_bytes();
    assert(".mp3".spec_bytes()[1] != ".avi".spec_bytes()[1]);
    assert(".mp3".spec_bytes()[1] != ".css".spec_bytes()[1]);
    assert(".mp3".spec_bytes()[1] != ".csv".spec_bytes()[1]);
    assert(".mp3".spec_bytes()[1] != ".eot".spec_bytes()[1]);
    assert(".mp3".spec_bytes()[1] != ".gif".spec_bytes()[1]);
    assert(".mp3".spec_bytes()[1] != ".htm".spec_bytes()[1]);
    assert(".mp3".spec_bytes()[1] != ".ico".spec_bytes()[1]);
    assert(".mp3".spec_bytes()[1] != ".jpg".spec_bytes()[1]);
    assert(".mp3".spec_bytes()[2] != ".mkv".spec_bytes()[2]);
    assert(".mp3".spec_bytes()[2] != ".mov".spec_bytes()[2]);
}

proof fn lemma_mime_mp4(charset: Seq<char>)
    ensures
        mime_of(".mp4".spec_bytes(), charset) == "video/mp4"@,
{
    lemma_ext_bytes();
    assert(".mp4".spec_bytes()[1] != ".avi".spec_bytes()[1]);
    assert(".mp4".spec_bytes()[1] != ".css".spec_bytes()[1]);
    assert(".mp4".spec_bytes()[1] != ".csv".spec_bytes()[1]);
    assert(".mp4".spec_bytes()[1] != ".eot".spec_bytes()[1]);
    assert(".mp4".spec_bytes()[1] != ".gif".spec_bytes()[1]);
    assert(".mp4".spec_bytes()[1] != ".htm".spec_bytes()[1]);
    assert(".mp4".spec_bytes()[1] != ".ico".spec_bytes()[1]);
    assert(".mp4".spec_bytes()[1] != ".jpg".spec_bytes()[1]);
    assert(".mp4".spec_bytes()[2] != ".mkv".spec_bytes()[2]);
    assert(".mp4".spec_bytes()[2] != ".mov".spec_bytes()[2]);
    assert(".mp4".spec_bytes()[3] != ".mp3".spec_bytes()[3]);
}

proof fn lemma_mime_otf(charset: Seq<char>)
    ensures
        mime_of(".otf".spec_bytes(), charset) == "font/otf"@,
{
    lemma_ext_bytes();
    assert(".otf".spec_bytes()[1] != ".avi".spec_bytes()[1]);
    assert(".otf".spec_bytes()[1] != ".css".spec_bytes()[1]);
    assert(".otf".spec_bytes()[1] != ".csv".spec_bytes()[1]);
    assert(".otf".spec_bytes()[1] != ".eot".spec_bytes()[1]);
    assert(".otf".spec_bytes()[1] != ".gif".spec_bytes()[1]);
    assert(".otf".spec_bytes()[1] != ".htm".spec_bytes()[1]);
    assert(".otf".spec_bytes()[1] != ".ico".spec_bytes()[1]);
    assert(".otf".spec_bytes()[1] != ".jpg".spec_bytes()[1]);
    assert(".otf".spec_bytes()[1] != ".mkv".spec_bytes()[1]);
    assert(".otf".spec_bytes()[1] != ".mov".spec_bytes()[1]);
    assert(".otf".spec_bytes()[1] != ".mp3".spec_bytes()[1]);
    assert(".otf".spec_bytes()[1] != ".mp4".spec_bytes()[1]);
}

proof fn lemma_mime_png(charset: Seq<char>)
    ensures
        mime_of(".png".spec_bytes(), charset) == "image/png"@,
{
    lemma_ext_bytes();
    assert(".png".spec_bytes()[1] != ".avi".spec_bytes()[1]);
    assert(".png".spec_bytes()[1] != ".css".spec_bytes()[1]);
    assert(".png".spec_bytes()[1] != ".csv".spec_bytes()[1]);
    assert(".png".spec_bytes()[1] != ".eot".spec_bytes()[1]);
    assert(".png".spec_bytes()[1] != ".gif".spec_bytes()[1]);
    assert(".png".spec_bytes()[1] != ".htm".spec_bytes()[1]);
    assert(".png".spec_bytes()[1] != ".ico".spec_bytes()[1]);
    assert(".png".spec_bytes()[1] != ".jpg".spec_bytes()[1]);
    assert(".png".spec_bytes()[1] != ".mkv".spec_bytes()[1]);
    assert(".png".spec_bytes()[1] != ".mov".spec_bytes()[1]);
    assert(".png".spec_bytes()[1] != ".mp3".spec_bytes()[1]);
    assert(".png".spec_bytes()[1] != ".mp4".spec_bytes()[1]);
    assert(".png".spec_bytes()[1] != ".otf".spec_bytes()[1]);
}

proof fn lemma_mime_svg(charset: Seq<char>)
    ensures
        mime_of(".svg".spec_bytes(), charset) == "image/svg+xml; charset="@ + charset,
{
    lemma_ext_bytes();
    assert(".svg".spec_bytes()[1] != ".avi".spec_bytes()[1]);
    assert(".svg".spec_bytes()[1] != ".css".spec_bytes()[1]);
    assert(".svg".spec_bytes()[1] != ".csv".spec_bytes()[1]);
    assert(".svg".spec_bytes()[1] != ".eot".spec_bytes()[1]);
    assert(".svg".spec_bytes()[1] != ".gif".spec_bytes()[1]);
    assert(".svg".spec_bytes()[1] != ".htm".spec_bytes()[1]);
    assert(".svg".spec_bytes()[1] != ".ico".spec_bytes()[1]);
    assert(".svg".spec_bytes()[1] != ".jpg".spec_bytes()[1]);
    assert(".svg".spec_bytes()[1] != ".mkv".spec_bytes()[1]);
    assert(".svg".spec_bytes()[1] != ".mov".spec_bytes()[1]);
    assert(".svg".spec_bytes()[1] != ".mp3".spec_bytes()[1]);
    assert(".svg".spec_bytes()[1] != ".mp4".spec_bytes()[1]);
    assert(".svg".spec_bytes()[1] != ".otf".spec_bytes()[1]);
    assert(".svg".spec_bytes()[1] != ".png".spec_bytes()[1]);
}

proof fn lemma_mime_ttf(charset: Seq<char>)
    ensures
        mime_of(".ttf".spec_bytes(), charset) == "font/ttf"@,
{
    lemma_ext_bytes();
    assert(".ttf".spec_bytes()[1] != ".avi".spec_bytes()[1]);
    assert(".ttf".spec_bytes()[1] != ".css".spec_bytes()[1]);
    assert(".ttf".spec_bytes()[1] != ".csv".spec_bytes()[1]);
    assert(".ttf".spec_bytes()[1] != ".eot".spec_bytes()[1]);
    assert(".ttf".spec_bytes()[1] != ".gif".spec_bytes()[1]);
    assert(".ttf".spec_bytes()[1] != ".htm".spec_bytes()[1]);
    assert(".ttf".spec_bytes()[1] != ".ico".spec_bytes()[1]);
    assert(".ttf".spec_bytes()[1] != ".jpg".spec_bytes()[1]);
    assert(".ttf".spec_bytes()[1] != ".mkv".spec_bytes()[1]);
    assert(".ttf".spec_bytes()[1] != ".mov".spec_bytes()[1]);
    assert(".ttf".spec_bytes()[1] != ".mp3".spec_bytes()[1]);
    assert(".ttf".spec_bytes()[1] != ".mp4".spec_bytes()[1]);
    assert(".ttf".spec_bytes()[1] != ".otf".spec_bytes()[1]);
    assert(".ttf".spec_bytes()[1] != ".png".spec_bytes()[1]);
    assert(".ttf".spec_bytes()[1] != ".svg".spec_bytes()[1]);
}

proof fn lemma_mime_txt(charset: Seq<char>)
    ensures
        mime_of(".txt".spec_bytes(), charset) == "text/plain; charset="@ + charset,
{
    lemma_ext_bytes();
    assert(".txt".spec_bytes()[1] != ".avi".spec_bytes()[1]);
    assert(".txt".spec_bytes()[1] != ".css".spec_bytes()[1]);
    assert(".txt".spec_bytes()[1] != ".csv".spec_bytes()[1]);
    assert(".txt".spec_bytes()[1] != ".eot".spec_bytes()[1]);
    assert(".txt".spec_bytes()[1] != ".gif".spec_bytes()[1]);
    assert(".txt".spec_bytes()[1] != ".htm".spec_bytes()[1]);
    assert(".txt".spec_bytes()[1] != ".ico".spec_bytes()[1]);
    assert(".txt".spec_bytes()[1] != ".jpg".spec_bytes()[1]);
    assert(".txt".spec_bytes()[1] != ".mkv".spec_bytes()[1]);
    assert(".txt".spec_bytes()[1] != ".mov".spec_bytes()[1]);
    assert(".txt".spec_bytes()[1] != ".mp3".spec_bytes()[1]);
    assert(".txt".spec_bytes()[1] != ".mp4".spec_bytes()[1]);
    assert(".txt".spec_bytes()[1] != ".otf".spec_bytes()[1]);
    assert(".txt".spec_bytes()[1] != ".png".spec_bytes()[1]);
    assert(".txt".spec_bytes()[1] != ".svg".spec_bytes()[1]);
    assert(".txt".spec_bytes()[2] != ".ttf".spec_bytes()[2]);
}

proof fn lemma_mime_wasm(charset: Seq<char>)
    ensures
        mime_of(".wasm".spec_bytes(), charset) == "application/wasm"@,
{
    lemma_ext_bytes();
    assert(".wasm".spec_bytes()[1] != ".html".spec_bytes()[1]);
    assert(".wasm".spec_bytes()[1] != ".jpeg".spec_bytes()[1]);
    assert(".wasm".spec_bytes()[1] != ".json".spec_bytes()[1]);
}

proof fn lemma_mime_wav(charset: Seq<char>)
    ensures
        mime_of(".wav".spec_bytes(), charset) == "audio/wav"@,
{
    lemma_ext_bytes();
    assert(".wav".spec_bytes()[1] != ".avi".spec_bytes()[1]);
    assert(".wav".spec_bytes()[1] != ".css".spec_bytes()[1]);
    assert(".wav".spec_bytes()[1] != ".csv".spec_bytes()[1]);
    assert(".wav".spec_bytes()[1] != ".eot".spec_bytes()[1]);
    assert(".wav".spec_bytes()[1] != ".gif".spec_bytes()[1]);
    assert(".wav".spec_bytes()[1] != ".htm".spec_bytes()[1]);
    assert(".wav".spec_bytes()[1] != ".ico".spec_bytes()[1]);
    assert(".wav".spec_bytes()[1] != ".jpg".spec_bytes()[1]);
    assert(".wav".spec_bytes()[1] != ".mkv".spec_bytes()[1]);
    assert(".wav".spec_bytes()[1] != ".mov".spec_bytes()[1]);
    assert(".wav".spec_bytes()[1] != ".mp3".spec_bytes()[1]);
    assert(".wav".spec_bytes()[1] != ".mp4".spec_bytes()[1]);
    assert(".wav".spec_bytes()[1] != ".otf".spec_bytes()[1]);
    assert(".wav".spec_bytes()[1] != ".png".spec_bytes()[1]);
    assert(".wav".spec_bytes()[1] != ".svg".spec_bytes()[1]);
    assert(".wav".spec_bytes()[1] != ".ttf".spec_bytes()[1]);
    assert(".wav".spec_bytes()[1] != ".txt".spec_bytes()[1]);
}

proof fn lemma_mime_weba(charset: Seq<char>)
    ensures
        mime_of(".weba".spec_bytes(), charset) == "audio/webm"@,
{
    lemma_ext_bytes();
    assert(".weba".spec_bytes()[1] != ".html".spec_bytes()[1]);
    assert(".weba".spec_bytes()[1] != ".jpeg".spec_bytes()[1]);
    assert(".weba".spec_bytes()[1] != ".json".spec_bytes()[1]);
    assert(".weba".spec_bytes()[2] != ".wasm".spec_bytes()[2]);
}

proof fn lemma_mime_webp(charset: Seq<char>)
    ensures
        mime_of(".webp".spec_bytes(), charset) == "image/webp"@,
{
    lemma_ext_bytes();
    assert(".webp".spec_bytes()[1] != ".html".spec_bytes()[1]);
    assert(".webp".spec_bytes()[1] != ".jpeg".spec_bytes()[1]);
    assert(".webp".spec_bytes()[1] != ".json".spec_bytes()[1]);
    assert(".webp".spec_bytes()[2] != ".wasm".spec_bytes()[2]);
    assert(".webp".spec_bytes()[4] != ".weba".spec_bytes()[4]);
}

proof fn lemma_mime_woff(charset: Seq<char>)
    ensures
        mime_of(".woff".spec_bytes(), charset) == "font/woff"@,
{
    lemma_ext_bytes();
    assert(".woff".spec_bytes()[1] != ".html".spec_bytes()[1]);
    assert(".woff".spec_bytes()[1] != ".jpeg".spec_bytes()[1]);
    assert(".woff".spec_bytes()[1] != ".json".spec_bytes()[1]);
    assert(".woff".spec_bytes()[2] != ".wasm".spec_bytes()[2]);
    assert(".woff".spec_bytes()[2] != ".weba".spec_bytes()[2]);
    assert(".woff".spec_bytes()[2] != ".webp".spec_bytes()[2]);
}

#[verifier::rlimit(50)]
proof fn lemma_mime_woff2(charset: Seq<char>)
    ensures
        mime_of(".woff2".spec_bytes(), charset) == "font/woff2"@,
{
    lemma_ext_bytes();
    assert(".woff2".spec_bytes().len() == 6);
    assert(".avi".spec_bytes().len() == 4);
    assert(".woff2".spec_bytes() != ".avi".spec_bytes());
    assert(".css".spec_bytes().len() == 4);
    assert(".woff2".spec_bytes() != ".css".spec_bytes());
    assert(".csv".spec_bytes().len() == 4);
    assert(".woff2".spec_bytes() != ".csv".spec_bytes());
    assert(".eot".spec_bytes().len() == 4);
    assert(".woff2".spec_bytes() != ".eot".spec_bytes());
    assert(".gif".spec_bytes().len() == 4);
    assert(".woff2".spec_bytes() != ".gif".spec_bytes());
    assert(".htm".spec_bytes().len() == 4);
    assert(".woff2".spec_bytes() != ".htm".spec_bytes());
    assert(".html".spec_bytes().len() == 5);
    assert(".woff2".spec_bytes() != ".html".spec_bytes());
    assert(".ico".spec_bytes().len() == 4);
    assert(".woff2".spec_bytes() != ".ico".spec_bytes());
    assert(".jpeg".spec_bytes().len() == 5);
    assert(".woff2".spec_bytes() != ".jpeg".spec_bytes());
    assert(".jpg".spec_bytes().len() == 4);
    assert(".woff2".spec_bytes() != ".jpg".spec_bytes());
    assert(".js".spec_bytes().len() == 3);
    assert(".woff2".spec_bytes() != ".js".spec_bytes());
    assert(".json".spec_bytes().len() == 5);
    assert(".woff2".spec_bytes() != ".json".spec_bytes());
    assert(".mkv".spec_bytes().len() == 4);
    assert(".woff2".spec_bytes() != ".mkv".spec_bytes());
    assert(".mov".spec_bytes().len() == 4);
    assert(".woff2".spec_bytes() != ".mov".spec_bytes());
    assert(".mp3".spec_bytes().len() == 4);
    assert(".woff2".spec_bytes() != ".mp3".spec_bytes());
    assert(".mp4".spec_bytes().len() == 4);
    assert(".woff2".spec_bytes() != ".mp4".spec_bytes());
    assert(".otf".spec_bytes().len() == 4);
    assert(".woff2".spec_bytes() != ".otf".spec_bytes());
    assert(".png".spec_bytes().len() == 4);
    assert(".woff2".spec_bytes() != ".png".spec_bytes());
    assert(".svg".spec_bytes().len() == 4);
    assert(".woff2".spec_bytes() != ".svg".spec_bytes());
    assert(".ttf".spec_bytes().len() == 4);
    assert(".woff2".spec_bytes() != ".ttf".spec_bytes());
    assert(".txt".spec_bytes().len() == 4);
    assert(".woff2".spec_bytes() != ".txt".spec_bytes());
    assert(".wasm".spec_bytes().len() == 5);
    assert(".woff2".spec_bytes() != ".wasm".spec_bytes());
    assert(".wav".spec_bytes().len() == 4);
    assert(".woff2".spec_bytes() != ".wav".spec_bytes());
    assert(".weba".spec_bytes().len() == 5);
    assert(".woff2".spec_bytes() != ".weba".spec_bytes());
    assert(".webp".spec_bytes().len() == 5);
    assert(".woff2".spec_bytes() != ".webp".spec_bytes());
    assert(".woff".spec_bytes().len() == 5);
    assert(".woff2".spec_bytes() != ".woff".spec_bytes());
}

proof fn lemma_mime_xml(charset: Seq<char>)
    ensures
        mime_of(".xml".spec_bytes(), charset) == "application/xml; charset="@ + charset,
{
    lemma_ext_bytes();
    assert(".xml".spec_bytes()[1] != ".avi".spec_bytes()[1]);
    assert(".xml".spec_bytes()[1] != ".css".spec_bytes()[1]);
    assert(".xml".spec_bytes()[1] != ".csv".spec_bytes()[1]);
    assert(".xml".spec_bytes()[1] != ".eot".spec_bytes()[1]);
    assert(".xml".spec_bytes()[1] != ".gif".spec_bytes()[1]);
    assert(".xml".spec_bytes()[1] != ".htm".spec_bytes()[1]);
    assert(".xml".spec_bytes()[1] != ".ico".spec_bytes()[1]);
    assert(".xml".spec_bytes()[1] != ".jpg".spec_bytes()[1]);
    assert(".xml".spec_bytes()[1] != ".mkv".spec_bytes()[1]);
    assert(".xml".spec_bytes()[1] != ".mov".spec_bytes()[1]);
    assert(".xml".spec_bytes()[1] != ".mp3".spec_bytes()[1]);
    assert(".xml".spec_bytes()[1] != ".mp4".spec_bytes()[1]);
    assert(".xml".spec_bytes()[1] != ".otf".spec_bytes()[1]);
    assert(".xml".spec_bytes()[1] != ".png".spec_bytes()[1]);
    assert(".xml".spec_bytes()[1] != ".svg".spec_bytes()[1]);
    assert(".xml".spec_bytes()[1] != ".ttf".spec_bytes()[1]);
    assert(".xml".spec_bytes()[1] != ".txt".spec_bytes()[1]);
    assert(".xml".spec_bytes()[1] != ".wav".spec_bytes()[1]);
}

/// The media type announced for each file extension the server knows:
/// text types name the charset.
pub proof fn lemma_mime_table(charset: Seq<char>)
    ensures
        mime_of(".avi".spec_bytes(), charset) == "video/x-msvideo"@,
        mime_of(".css".spec_bytes(), charset) == "text/css; charset="@ + charset,
        mime_of(".csv".spec_bytes(), charset) == "text/csv; charset="@ + charset,
        mime_of(".eot".spec_bytes(), charset) == "font/eot"@,
        mime_of(".gif".spec_bytes(), charset) == "image/gif"@,
        mime_of(".htm".spec_bytes(), charset) == "text/html; charset="@ + charset,
        mime_of(".html".spec_bytes(), charset) == "text/html; charset="@ + charset,
        mime_of(".ico".spec_bytes(), charset) == "image/x-icon"@,
        mime_of(".jpeg".spec_bytes(), charset) == "image/jpeg"@,
        mime_of(".jpg".spec_bytes(), charset) == "image/jpeg"@,
        mime_of(".js".spec_bytes(), charset) == "application/javascript; charset="@ + charset,
        mime_of(".json".spec_bytes(), charset) == "application/json; charset="@ + charset,
        mime_of(".mkv".spec_bytes(), charset) == "video/x-matroska"@,
        mime_of(".mov".spec_bytes(), charset) == "video/quicktime"@,
        mime_of(".mp3".spec_bytes(), charset) == "audio/mpeg"@,
        mime_of(".mp4".spec_bytes(), charset) == "video/mp4"@,
        mime_of(".otf".spec_bytes(), charset) == "font/otf"@,
        mime_of(".png".spec_bytes(), charset) == "image/png"@,
        mime_of(".svg".spec_bytes(), charset) == "image/svg+xml; charset="@ + charset,
        mime_of(".ttf".spec_bytes(), charset) == "font/ttf"@,
        mime_of(".txt".spec_bytes(), charset) == "text/plain; charset="@ + charset,
        mime_of(".wasm".spec_bytes(), charset) == "application/wasm"@,
        mime_of(".wav".spec_bytes(), charset) == "audio/wav"@,
        mime_of(".weba".spec_bytes(), charset) == "audio/webm"@,
        mime_of(".webp".spec_bytes(), charset) == "image/webp"@,
        mime_of(".woff".spec_bytes(), charset) == "font/woff"@,
        mime_of(".woff2".spec_bytes(), charset) == "font/woff2"@,
        mime_of(".xml".spec_bytes(), charset) == "application/xml; charset="@ + charset,
{
    lemma_mime_avi(charset);
    lemma_mime_css(charset);
    lemma_mime_csv(charset);
    lemma_mime_eot(charset);
    lemma_mime_gif(charset);
    lemma_mime_htm(charset);
    lemma_mime_html(charset);
    lemma_mime_ico(charset);
    lemma_mime_jpeg(charset);
    lemma_mime_jpg(charset);
    lemma_mime_js(charset);
    lemma_mime_json(charset);
    lemma_mime_mkv(charset);
    lemma_mime_mov(charset);
    lemma_mime_mp3(charset);
    lemma_mime_mp4(charset);
    lemma_mime_otf(charset);
    lemma_mime_png(charset);
    lemma_mime_svg(charset);
    lemma_mime_ttf(charset);
    lemma_mime_txt(charset);
    lemma_mime_wasm(charset);
    lemma_mime_wav(charset);
    lemma_mime_weba(charset);
    lemma_mime_webp(charset);
    lemma_mime_woff(charset);
    lemma_mime_woff2(charset);
    lemma_mime_xml(charset);
}

/// A name that does not begin with a dot, or is longer than six bytes, is
/// no extension the table knows: it is served as bytes.
pub proof fn lemma_mime_unknown(ext: Seq<u8>, charset: Seq<char>)
    requires
        ext.len() == 0 || ext[0] != 46u8 || ext.len() > 6,
    ensures
        mime_of(ext, charset) == "application/octet-stream"@,
{
    lemma_ext_bytes();
}

/// `lit` followed by the charset.
fn with_charset(lit: &str, charset: &String) -> (r: String)
    ensures
        r@ == lit@ + charset@,
{
    let mut r = String::from_str(lit);
    r.append(charset.as_str());
    r
}

/// The media type of a file extension (see [`mime_of`]).
pub fn mime_exec(ext: &str, charset: &String) -> (r: String)
    ensures
        r@ == mime_of(ext.spec_bytes(), charset@),
{
    let e = ext.as_bytes();
    if bytes_equal(e, ".avi".as_bytes()) {
        String::from_str("video/x-msvideo")
    } else if bytes_equal(e, ".css".as_bytes()) {
        with_charset("text/css; charset=", charset)
    } else if bytes_equal(e, ".csv".as_bytes()) {
        with_charset("text/csv; charset=", charset)
    } else if bytes_equal(e, ".eot".as_bytes()) {
        String::from_str("font/eot")
    } else if bytes_equal(e, ".gif".as_bytes()) {
        String::from_str("image/gif")
    } else if bytes_equal(e, ".htm".as_bytes()) || bytes_equal(e, ".html".as_bytes()) {
        with_charset("text/html; charset=", charset)
    } else if bytes_equal(e, ".ico".as_bytes()) {
        String::from_str("image/x-icon")
    } else if bytes_equal(e, ".jpeg".as_bytes()) || bytes_equal(e, ".jpg".as_bytes()) {
        String::from_str("image/jpeg")
    } else if bytes_equal(e, ".js".as_bytes()) {
        with_charset("application/javascript; charset=", charset)
    } else if bytes_equal(e, ".json".as_bytes()) {
        with_charset("application/json; charset=", charset)
    } else if bytes_equal(e, ".mkv".as_bytes()) {
        String::from_str("video/x-matroska")
    } else if bytes_equal(e, ".mov".as_bytes()) {
        String::from_str("video/quicktime")
    } else if bytes_equal(e, ".mp3".as_bytes()) {
        String::from_str("audio/mpeg")
    } else if bytes_equal(e, ".mp4".as_bytes()) {
        String::from_str("video/mp4")
    } else if bytes_equal(e, ".otf".as_bytes()) {
        String::from_str("font/otf")
    } else if bytes_equal(e, ".png".as_bytes()) {
        String::from_str("image/png")
    } else if bytes_equal(e, ".svg".as_bytes()) {
        with_charset("image/svg+xml; charset=", charset)
    } else if bytes_equal(e, ".ttf".as_bytes()) {
        String::from_str("font/ttf")
    } else if bytes_equal(e, ".txt".as_bytes()) {
        with_charset("text/plain; charset=", charset)
    } else if bytes_equal(e, ".wasm".as_bytes()) {
        String::from_str("application/wasm")
    } else if bytes_equal(e, ".wav".as_bytes()) {
        String::from_str("audio/wav")
    } else if bytes_equal(e, ".weba".as_bytes()) {
        String::from_str("audio/webm")
    } else if bytes_equal(e, ".webp".as_bytes()) {
        String::from_str("image/webp")
    } else if bytes_equal(e, ".woff".as_bytes()) {
        String::from_str("font/woff")
    } else if bytes_equal(e, ".woff2".as_bytes()) {
        String::from_str("font/woff2")
    } else if bytes_equal(e, ".xml".as_bytes()) {
        with_charset("application/xml; charset=", charset)
    } else {
        String::from_str("application/octet-stream")
    }
}

/// Decimal digits, as text.
pub open spec fn decimal_text(n: nat) -> Seq<char> {
    decode_utf8(decimal(n))
}

/// Writes `n` in decimal, as text.
pub fn decimal_string(n: u64) -> (r: String)
    ensures
        r@ == decimal_text(n as nat),
{
    let d = decimal_u64(n);
    proof {
        lemma_decimal_text(n as nat);
    }
    match utf8_str(d.as_slice()) {
        Some(t) => {
            proof {
                encode_utf8_decode_utf8(t@);
            }
            String::from_str(t)
        },
        None => {
            proof {
                assert(false);
            }
            String::new()
        },
    }
}

/// The `Content-Length` that a response announces reads back, with the
/// parser that request heads are read with, as the body's length.
pub proof fn lemma_content_length_roundtrip(n: usize)
    ensures
        parse_usize_spec(encode_utf8(decimal_text(n as nat))) == Some(n),
{
    lemma_decimal_parses(n);
    decode_utf8_encode_utf8(decimal(n as nat));
}

/// `attachment; filename="<name>"`
pub open spec fn attachment_value(name: Seq<char>) -> Seq<char> {
    "attachment; filename=\""@ + name + "\""@
}

/// Before a body of bytes is sent: the headers that announce it (a
/// download name from the clock when it is an attachment, its length, its
/// type).
pub open spec fn announce_body(s: RespV, millis: u64) -> RespV {
    let h1 = if s.is_attachment {
        with_header(s.headers, "Content-Disposition"@, attachment_value(decimal_text(millis as nat)))
    } else {
        s.headers
    };
    let h2 = with_header(h1, "Content-Length"@, decimal_text(s.content_length as nat));
    RespV { headers: with_header(h2, "Content-Type"@, s.content_type), ..s }
}

/// Before a file is sent: its length, its type by extension, and, when it
/// is an attachment, its download name.
pub open spec fn announce_file(s: RespV, path: Seq<char>, file_len: u64) -> RespV {
    let ext = match path_extension_of(path) {
        Some(e) => e,
        None => seq![],
    };
    let name = match path_file_name_of(path) {
        Some(n) => n,
        None => "file"@,
    };
    let s1 = RespV {
        content_length: #[verifier::truncate] (file_len as usize),
        content_type: mime_of(encode_utf8("."@ + ext), s.encoding),
        ..s
    };
    let h1 = if s.is_attachment {
        with_header(s.headers, "Content-Disposition"@, attachment_value(name + "."@ + ext))
    } else {
        s.headers
    };
    let h2 = with_header(h1, "Content-Length"@, decimal_text(s1.content_length as nat));
    RespV { headers: with_header(h2, "Content-Type"@, s1.content_type), ..s1 }
}

/// Taking a body to send: the attachment flag is fixed by the first push,
/// and the length is the body's.
pub open spec fn take_body(s: RespV, bytes: Seq<u8>, is_attachment: bool) -> RespV {
    let s1 = if s.headers_sent {
        s
    } else {
        RespV { is_attachment, ..s }
    };
    RespV { body: Some(bytes), content_length: bytes.len() as usize, ..s1 }
}

/// Taking a file to send (see [`take_body`]).
pub open spec fn take_file(s: RespV, path: Seq<char>, is_attachment: bool) -> RespV {
    let s1 = if s.headers_sent {
        s
    } else {
        RespV { is_attachment, ..s }
    };
    RespV { file_path: Some(path), ..s1 }
}

/// A push may follow: the attachment flag matches the one already sent.
pub open spec fn push_allowed(s: RespV, is_attachment: bool) -> bool {
    s.headers_sent ==> s.is_attachment == is_attachment
}

/// The response being written.
pub struct Response {
    body: Option<Vec<u8>>,
    code: u16,
    compression: Option<String>,
    content_length: usize,
    content_type: String,
    encoding: String,
    file_path: Option<String>,
    headers: Vec<(String, String)>,
    headers_sent: bool,
    is_attachment: bool,
}

/// The views of a list of headers.
pub open spec fn pairs_view(h: Seq<(String, String)>) -> Seq<(Seq<char>, Seq<char>)> {
    Seq::new(h.len(), |i: int| (h[i].0@, h[i].1@))
}

impl Response {
    pub closed spec fn view(&self) -> RespV {
        RespV {
            body: match self.body {
                Some(b) => Some(b@),
                None => None,
            },
            code: self.code,
            compression: self.compression,
            content_length: self.content_length,
            content_type: self.content_type@,
            encoding: self.encoding@,
            file_path: match self.file_path {
                Some(p) => Some(p@),
                None => None,
            },
            headers: pairs_view(self.headers@),
            headers_sent: self.headers_sent,
            is_attachment: self.is_attachment,
        }
    }

    pub fn new() -> (r: Response)
        ensures
            r@ == fresh_resp(),
    {
        let r = Response {
            body: None,
            code: 200,
            compression: None,
            content_length: 0,
            content_type: String::from_str("application/json"),
            encoding: String::from_str("utf-8"),
            file_path: None,
            headers: Vec::new(),
            headers_sent: false,
            is_attachment: false,
        };
        assert(pairs_view(r.headers@) =~= Seq::<(Seq<char>, Seq<char>)>::empty());
        r
    }

    /// Adds a header, unless it is one carried once and already there (see
    /// [`with_header`]).
    pub fn add_header(&mut self, key: &str, value: &str)
        ensures
            final(self)@ == (RespV { headers: with_header(old(self)@.headers, key@, value@), ..old(self)@ }),
    {
        let ghost h = pairs_view(self.headers@);
        let mut i: usize = 0;
        while i < self.headers.len()
            invariant
                i <= self.headers@.len(),
                self@ == old(self)@,
                h == pairs_view(self.headers@),
                forall|j: int| 0 <= j < i ==> !same_single(key@, #[trigger] h[j].0),
            decreases self.headers@.len() - i,
        {
            let k = self.headers[i].0.as_str();
            assert(h[i as int].0 == k@);
            let hit = (str_eq_ignore_case(key, "Content-Disposition") && str_eq_ignore_case(
                k,
                "Content-Disposition",
            )) || (str_eq_ignore_case(key, "Content-Length") && str_eq_ignore_case(
                k,
                "Content-Length",
            )) || (str_eq_ignore_case(key, "Content-Type") && str_eq_ignore_case(k, "Content-Type"));
            if hit {
                assert(same_single(key@, h[i as int].0));
                return;
            }
            i = i + 1;
        }
        self.headers.push((key.to_owned(), value.to_owned()));
        assert(pairs_view(self.headers@) =~= h.push((key@, value@)));
    }

    pub fn set_encoding(&mut self, encoding: String)
        ensures
            final(self)@ == (RespV { encoding: encoding@, ..old(self)@ }),
    {
        self.encoding = encoding;
    }

    pub fn set_code(&mut self, code: u16)
        ensures
            final(self)@ == (RespV { code, ..old(self)@ }),
    {
        self.code = code;
    }

    pub fn set_compression(&mut self, compression: Option<String>)
        ensures
            final(self)@ == (RespV { compression, ..old(self)@ }),
    {
        self.compression = compression;
    }

    pub fn set_headers(&mut self, headers: Vec<(String, String)>)
        ensures
            final(self)@ == (RespV { headers: pairs_view(headers@), ..old(self)@ }),
    {
        self.headers = headers;
    }

    /// Back to a fresh response (see [`fresh_resp`]).
    pub fn reset(&mut self)
        ensures
            final(self)@ == fresh_resp(),
    {
        *self = Response::new();
    }

    /// The media type of a file extension, in this response's charset.
    pub fn get_mime(&self, ext: &str) -> (r: String)
        ensures
            r@ == mime_of(ext.spec_bytes(), self@.encoding),
    {
        mime_exec(ext, &self.encoding)
    }

    /// The head of an HTTP/1.1 response (see [`head_bytes`]).
    pub fn head_http1(&self) -> (r: Vec<u8>)
        requires
            status_text(self@.code) is Some,
        ensures
            r@ == head_bytes(self@.code, status_text(self@.code)->0, self@.headers),
    {
        let status = match status_text_exec(self.code) {
            Some(t) => t,
            None => "",
        };
        let mut out: Vec<u8> = Vec::new();
        out.extend_from_slice("HTTP/1.1 ".as_bytes());
        let code_digits = decimal_u64(self.code as u64);
        out.extend_from_slice(code_digits.as_slice());
        out.push(32u8);
        out.extend_from_slice(status.as_bytes());
        out.push(13u8);
        out.push(10u8);
        out.extend_from_slice("Connection: keep-alive\r\n".as_bytes());
        let ghost start = out@;
        let ghost h = pairs_view(self.headers@);
        let mut i: usize = 0;
        while i < self.headers.len()
            invariant
                i <= self.headers@.len(),
                h == pairs_view(self.headers@),
                out@ == start + header_lines(h.subrange(0, i as int)),
            decreases self.headers@.len() - i,
        {
            let ghost before = out@;
            out.extend_from_slice(self.headers[i].0.as_str().as_bytes());
            out.push(58u8);
            out.push(32u8);
            out.extend_from_slice(self.headers[i].1.as_str().as_bytes());
            out.push(13u8);
            out.push(10u8);
            proof {
                let hs = h.subrange(0, i + 1);
                assert(hs.drop_last() =~= h.subrange(0, i as int));
                assert(hs.last() == h[i as int]);
                assert(out@ =~= before + encode_utf8(h[i as int].0) + seq![58u8, 32u8] + encode_utf8(
                    h[i as int].1,
                ) + line_end());
            }
            i = i + 1;
        }
        assert(h.subrange(0, h.len() as int) =~= h);
        out.extend_from_slice("Server: Arnelify Server\r\n".as_bytes());
        out.push(13u8);
        out.push(10u8);
        proof {
            assert(code_digits@ == decimal(self.code as nat));
            assert(out@ =~= head_bytes(self@.code, status_text(self@.code)->0, self@.headers));
        }
        out
    }

    /// The headers of an HTTP/2 response (see [`head_pairs`]).
    pub fn head_http2(&self) -> (r: Vec<(String, String)>)
        ensures
            pairs_view(r@) == head_pairs(self@.headers),
    {
        let mut out: Vec<(String, String)> = Vec::new();
        let mut i: usize = 0;
        while i < self.headers.len()
            invariant
                i <= self.headers@.len(),
                out@.len() == i,
                pairs_view(out@) == pairs_view(self.headers@).subrange(0, i as int),
            decreases self.headers@.len() - i,
        {
            let k = self.headers[i].0.clone();
            let v = self.headers[i].1.clone();
            let ghost prev = out@;
            out.push((k, v));
            proof {
                assert(out@ == prev.push((k, v)));
                assert(k@ == self.headers@[i as int].0@);
                assert(v@ == self.headers@[i as int].1@);
                assert forall|j: int| 0 <= j < i + 1 implies #[trigger] pairs_view(out@)[j]
                    == pairs_view(self.headers@).subrange(0, i + 1)[j] by {
                    if j < i {
                        assert(out@[j] == prev[j]);
                        assert(pairs_view(prev)[j] == pairs_view(self.headers@).subrange(0, i as int)[j]);
                    }
                }
                assert(pairs_view(out@) =~= pairs_view(self.headers@).subrange(0, i + 1));
            }
            i = i + 1;
        }
        let ghost prev = out@;
        let sk = String::from_str("Server");
        let sv = String::from_str("Arnelify Server");
        out.push((sk, sv));
        proof {
            assert(pairs_view(self.headers@).subrange(0, self.headers@.len() as int) =~= pairs_view(self.headers@));
            assert forall|j: int| 0 <= j < out@.len() implies #[trigger] pairs_view(out@)[j]
                == head_pairs(self@.headers)[j] by {
                if j < prev.len() {
                    assert(out@[j] == prev[j]);
                    assert(pairs_view(prev)[j] == pairs_view(self.headers@)[j]);
                }
            }
            assert(pairs_view(out@) =~= head_pairs(self@.headers));
        }
        out
    }

    /// Takes a body to send (see [`take_body`]).
    pub fn take_body(&mut self, bytes: &[u8], is_attachment: bool)
        ensures
            final(self)@ == take_body(old(self)@, bytes@, is_attachment),
    {
        if !self.headers_sent {
            self.is_attachment = is_attachment;
        }
        self.body = Some(vstd::slice::slice_to_vec(bytes));
        self.content_length = bytes.len();
    }

    /// Takes a file to send (see [`take_file`]).
    pub fn take_file(&mut self, path: &str, is_attachment: bool)
        ensures
            final(self)@ == take_file(old(self)@, path@, is_attachment),
    {
        if !self.headers_sent {
            self.is_attachment = is_attachment;
        }
        self.file_path = Some(path.to_owned());
    }

    /// Adds the headers that announce a body (see [`announce_body`]).
    pub fn announce_body(&mut self, millis: u64)
        ensures
            final(self)@ == announce_body(old(self)@, millis),
    {
        if self.is_attachment {
            let name = decimal_string(millis);
            let mut v = String::from_str("attachment; filename=\"");
            v.append(name.as_str());
            v.append("\"");
            self.add_header("Content-Disposition", v.as_str());
        }
        let len = decimal_string(self.content_length as u64);
        self.add_header("Content-Length", len.as_str());
        let ct = self.content_type.clone();
        self.add_header("Content-Type", ct.as_str());
    }

    /// Sets the length and type of a file and adds the headers that
    /// announce it (see [`announce_file`]).
    pub fn announce_file(&mut self, path: &str, file_len: u64)
        ensures
            final(self)@ == announce_file(old(self)@, path@, file_len),
    {
        let ext = match path_extension(path) {
            Some(e) => e,
            None => String::new(),
        };
        let name = match path_file_name(path) {
            Some(n) => n,
            None => String::from_str("file"),
        };
        self.content_length = #[verifier::truncate] (file_len as usize);
        let mut dotted = String::from_str(".");
        dotted.append(ext.as_str());
        self.content_type = mime_exec(dotted.as_str(), &self.encoding);
        if self.is_attachment {
            let mut v = String::from_str("attachment; filename=\"");
            v.append(name.as_str());
            v.append(".");
            v.append(ext.as_str());
            v.append("\"");
            assert(v@ =~= attachment_value(name@ + "."@ + ext@));
            self.add_header("Content-Disposition", v.as_str());
        }
        let len = decimal_string(self.content_length as u64);
        self.add_header("Content-Length", len.as_str());
        let ct = self.content_type.clone();
        self.add_header("Content-Type", ct.as_str());
    }

    /// The headers were sent.
    pub fn mark_sent(&mut self)
        ensures
            final(self)@ == (RespV { headers_sent: true, ..old(self)@ }),
    {
        self.headers_sent = true;
    }

    /// Takes the body out to send it.
    pub fn take_out_body(&mut self) -> (r: Vec<u8>)
        ensures
            r@ == match old(self)@.body {
                Some(b) => b,
                None => seq![],
            },
            final(self)@ == (RespV { body: None, ..old(self)@ }),
    {
        match self.body.take() {
            Some(b) => b,
            None => Vec::new(),
        }
    }

    /// A copy of the body, which stays.
    pub fn body_copy(&self) -> (r: Vec<u8>)
        ensures
            r@ == match self@.body {
                Some(b) => b,
                None => seq![],
            },
    {
        match &self.body {
            Some(b) => vstd::slice::slice_to_vec(b.as_slice()),
            None => Vec::new(),
        }
    }

    pub fn code(&self) -> (r: u16)
        ensures
            r == self@.code,
    {
        self.code
    }

    pub fn headers_sent(&self) -> (r: bool)
        ensures
            r == self@.headers_sent,
    {
        self.headers_sent
    }
}

} // verus!
