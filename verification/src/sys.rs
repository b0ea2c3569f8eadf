//! What the readers take from the standard library beyond vstd: the clock
//! that names stored files, and the file-name rules of `std::path`.
use vstd::prelude::*;
use vstd::utf8::*;
use crate::text::{decimal, decimal_u64, lemma_decimal_text, utf8_str};

verus! {

/// `SystemTime::now().duration_since(UNIX_EPOCH)`: the whole milliseconds
/// (cut to 64 bits) and the nanoseconds within the current second, `None`
/// when the clock reads before the epoch. Of the values only what
/// `Duration::subsec_nanos` documents is claimed: the nanoseconds are below
/// one billion.
#[verifier::external_body]
pub(crate) fn since_epoch() -> (r: Option<(u64, u32)>)
    ensures
        r matches Some((_, n)) ==> n < 1_000_000_000,
{
    match std::time::SystemTime::now().duration_since(std::time::UNIX_EPOCH) {
        Ok(d) => Some((d.as_millis() as u64, d.subsec_nanos())),
        Err(_) => None,
    }
}

/// The name of a stored file: milliseconds since the Unix epoch and the
/// nanoseconds within that second, in decimal, one after the other.
pub open spec fn stamp_text(millis: u64, nanos: u32) -> Seq<u8> {
    decimal(millis as nat) + decimal(nanos as nat)
}

/// `st` is a stamp that the clock can give.
pub open spec fn is_stamp(st: Seq<char>) -> bool {
    exists|m: u64, n: u32| n < 1_000_000_000 && encode_utf8(st) == #[trigger] stamp_text(m, n)
}

/// The stamp for a file stored now (zeros for a clock before the epoch).
pub fn clock_stamp() -> (r: String)
    ensures
        is_stamp(r@),
{
    let (m, n): (u64, u32) = match since_epoch() {
        Some(t) => t,
        None => (0, 0),
    };
    let mut v = decimal_u64(m);
    let w = decimal_u64(n as u64);
    v.extend_from_slice(w.as_slice());
    proof {
        lemma_decimal_text(m as nat);
        lemma_decimal_text(n as nat);
        valid_utf8_concat(decimal(m as nat), decimal(n as nat));
        assert(v@ =~= stamp_text(m, n));
    }
    match utf8_str(v.as_slice()) {
        Some(t) => {
            let r = t.to_owned();
            assert(encode_utf8(r@) == stamp_text(m, n));
            r
        },
        None => {
            proof {
                assert(false);
            }
            String::new()
        },
    }
}

/// The milliseconds since the Unix epoch (zero for a clock before the
/// epoch), which name an attachment.
pub(crate) fn clock_millis() -> (r: u64) {
    match since_epoch() {
        Some((m, _)) => m,
        None => 0,
    }
}

/// What `std::path::Path::extension` gives for a path, as text.
pub uninterp spec fn path_extension_of(p: Seq<char>) -> Option<Seq<char>>;

/// What `std::path::Path::file_stem` gives for a path, as text.
pub uninterp spec fn path_stem_of(p: Seq<char>) -> Option<Seq<char>>;

/// `Path::new(p).extension()`, as text (the path is text, so the extension
/// is too). Its value is named, not stated.
#[verifier::external_body]
pub(crate) fn path_extension(p: &str) -> (r: Option<String>)
    ensures
        match r {
            Some(e) => path_extension_of(p@) == Some(e@),
            None => path_extension_of(p@) is None,
        },
{
    match std::path::Path::new(p).extension() {
        Some(e) => Some(e.to_string_lossy().into_owned()),
        None => None,
    }
}

/// `Path::new(p).file_stem()`, as text. Its value is named, not stated.
#[verifier::external_body]
pub(crate) fn path_stem(p: &str) -> (r: Option<String>)
    ensures
        match r {
            Some(e) => path_stem_of(p@) == Some(e@),
            None => path_stem_of(p@) is None,
        },
{
    match std::path::Path::new(p).file_stem() {
        Some(e) => Some(e.to_string_lossy().into_owned()),
        None => None,
    }
}

/// What `std::path::Path::file_name` gives for a path, as text.
pub uninterp spec fn path_file_name_of(p: Seq<char>) -> Option<Seq<char>>;

/// `Path::new(p).file_name()`, as text. Its value is named, not stated.
#[verifier::external_body]
pub(crate) fn path_file_name(p: &str) -> (r: Option<String>)
    ensures
        match r {
            Some(e) => path_file_name_of(p@) == Some(e@),
            None => path_file_name_of(p@) is None,
        },
{
    match std::path::Path::new(p).file_name() {
        Some(e) => Some(e.to_string_lossy().into_owned()),
        None => None,
    }
}

} // verus!
