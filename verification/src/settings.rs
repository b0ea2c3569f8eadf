//! What the body settings of a request reader promise, proved of the
//! reading steps: the form limits (how many fields and files, how large each
//! file, the fields and the files in all) are kept whenever a step does not
//! refuse; empty files are refused only where the settings say so; stored
//! files go under the storage path, with their extension where the settings
//! keep extensions.
use vstd::prelude::*;
use crate::request::{
    file_path_for, has_prefix, sanitized, trim_end_byte,
    at_closing, body_same, body_step, chunk_written, crlf, crlf2, disposition_meta, fresh_req,
    head_step, header_meta, headers_step, json_accept, lemma_headers_fold_keeps, mb, meta_fold,
    method_step, mp_loop, mp_turn, path_step, protocol_step, req_step, stage_if, write_step,
    BodyOpts, Dialect, HttpReqV, MetaOut, MpOut, WriteAt, header_entry, headers_fold, line_step,
    LineOut, StageOut,
};
use crate::error::Reason;
use crate::head::{pair_parts, query_fold, QueryOut};
use crate::json::{ensure_path, push_at, PushOutcome};
use crate::split::{pattern_keys, split_on, trim_bytes};
use crate::text::{byte_pos, percent_decode};
use crate::sys::path_extension_of;
use vstd::utf8::*;
use crate::error::ReqError;
use crate::json::JsonV;
use crate::text::{lemma_contains_iff_pos, seq_pos};
use crate::uds::ReadOut;

verus! {

/// The counters of fields and files are within the limits of the settings.
pub open spec fn within_limits(s: HttpReqV) -> bool {
    &&& s.fields <= s.opts.max_fields
    &&& s.files <= s.opts.max_files
    &&& s.file_size <= mb(s.opts.max_file_size_mb)
    &&& s.files_size_total <= mb(s.opts.max_files_size_total_mb)
    &&& s.fields_size_total <= mb(s.opts.max_fields_size_total_mb)
}

/// An outcome that is not a refusal.
pub open spec fn goes_on(o: ReadOut) -> bool {
    !(o is Fail) && !(o is Panic)
}

/// Reading the head leaves the counters and the settings alone.
pub proof fn lemma_head_same(s: HttpReqV)
    ensures
        body_same(s, head_step(s).0),
{
    let (s1, o1) = stage_if(s.has_method, s, method_step(s));
    assert(body_same(s, s1));
    if o1 is Next {
        let (s2, o2) = stage_if(s1.has_path, s1, path_step(s1));
        assert(body_same(s1, s2));
        if o2 is Next {
            let (s3, o3) = stage_if(s2.has_protocol, s2, protocol_step(s2));
            assert(body_same(s2, s3));
            if o3 is Next && !s3.has_headers {
                match seq_pos(s3.buff, crlf2()) {
                    None => {},
                    Some(e) => if e <= 8192 {
                        lemma_headers_fold_keeps(s3, e, 0);
                    },
                }
                assert(body_same(s3, headers_step(s3).0));
            }
        }
    }
}

/// A header line of a part that is read keeps the counters within the
/// limits: a field or file over the count is refused, and a new file starts
/// empty.
proof fn lemma_header_meta_limits(s: HttpReqV, header: Seq<u8>, stamp: Seq<char>)
    requires
        within_limits(s),
    ensures
        match header_meta(s, header, stamp) {
            MetaOut::Done(t) => within_limits(t) && t.opts == s.opts,
            MetaOut::Fail(t, _) => t.opts == s.opts,
            MetaOut::Panic => true,
        },
{
    reveal(header_meta);
    reveal(disposition_meta);
}

/// The header lines of a part that are read keep the counters within the
/// limits.
proof fn lemma_meta_fold_limits(s: HttpReqV, meta: Seq<u8>, start: int, stamp: Seq<char>)
    requires
        within_limits(s),
    ensures
        match meta_fold(s, meta, start, stamp) {
            MetaOut::Done(t) => within_limits(t) && t.opts == s.opts,
            MetaOut::Fail(t, _) => t.opts == s.opts,
            MetaOut::Panic => true,
        },
    decreases meta.len() - start,
{
    if start < 0 || start > meta.len() {
    } else {
        let w = meta.subrange(start, meta.len() as int);
        match seq_pos(w, crlf()) {
            None => {},
            Some(pos) => {
                lemma_contains_iff_pos(w, crlf());
                lemma_header_meta_limits(s, meta.subrange(start, start + pos), stamp);
                match header_meta(s, meta.subrange(start, start + pos), stamp) {
                    MetaOut::Done(t) => lemma_meta_fold_limits(t, meta, start + pos + 2, stamp),
                    _ => {},
                }
            },
        }
    }
}

/// One turn of the multipart loop that does not refuse keeps the counters
/// within the limits.
proof fn lemma_turn_limits(s: HttpReqV, stamp: Seq<char>)
    requires
        within_limits(s),
    ensures
        match mp_turn(s, stamp) {
            MpOut::Next(t) => within_limits(t) && t.opts == s.opts,
            MpOut::Stop(t, o) => t.opts == s.opts && (goes_on(o) ==> within_limits(t)),
        },
{
    match seq_pos(s.buff, s.boundary) {
        None => {},
        Some(bs) => if bs > 0 {
        } else if !at_closing(s) {
            match seq_pos(s.buff, crlf()) {
                None => {},
                Some(be) => match seq_pos(s.buff.subrange(be + 2, s.buff.len() as int), crlf2()) {
                    None => {},
                    Some(m) => {
                        let me = m + be + 2;
                        if s.size + me + 4 < s.content_length {
                            let s1 = HttpReqV { size: (s.size + me + 4) as usize, ..s };
                            let meta = s.buff.subrange(be + 2, me + 2);
                            lemma_meta_fold_limits(s1, meta, 0, stamp);
                        }
                    },
                },
            }
        },
    }
}

/// The multipart loop, where it does not refuse, keeps the counters within
/// the limits.
proof fn lemma_loop_limits(s: HttpReqV, stamp: Seq<char>)
    requires
        within_limits(s),
    ensures
        mp_loop(s, stamp).0.opts == s.opts,
        goes_on(mp_loop(s, stamp).1) ==> within_limits(mp_loop(s, stamp).0),
    decreases s.buff.len(),
{
    lemma_turn_limits(s, stamp);
    match mp_turn(s, stamp) {
        MpOut::Stop(t, o) => {},
        MpOut::Next(t) => if t.buff.len() < s.buff.len() {
            lemma_loop_limits(t, stamp);
        },
    }
}

/// Reading the body, where it does not refuse, keeps the counters within
/// the limits.
proof fn lemma_body_limits(s: HttpReqV, stamp: Seq<char>)
    requires
        within_limits(s),
    ensures
        body_step(s, stamp).0.opts == s.opts,
        goes_on(body_step(s, stamp).1) ==> within_limits(body_step(s, stamp).0),
{
    lemma_loop_limits(s, stamp);
}

/// A fresh reader has counted no field and no file: it is within the
/// limits of its settings.
pub proof fn lemma_fresh_within_limits(d: Dialect, o: BodyOpts)
    ensures
        fresh_req(d, o).opts == o,
        within_limits(fresh_req(d, o)),
{
}

/// Reading keeps within the form limits of the settings: a reading step
/// that does not refuse leaves at most `max_fields` fields and `max_files`
/// files counted, the current file no larger than `max_file_size_mb`, and
/// the fields and the files in all no larger than
/// `max_fields_size_total_mb` and `max_files_size_total_mb`. No step
/// changes the settings.
pub proof fn lemma_step_within_limits(s: HttpReqV, stamp: Seq<char>)
    requires
        within_limits(s),
    ensures
        req_step(s, stamp).0.opts == s.opts,
        goes_on(req_step(s, stamp).1) ==> within_limits(req_step(s, stamp).0),
{
    lemma_head_same(s);
    lemma_body_limits(head_step(s).0, stamp);
}

/// The answer to a handed-out file write keeps within the limits in the
/// same way: where the reading that follows does not refuse, the counters
/// stay within the limits, and the settings do not change.
pub proof fn lemma_write_within_limits(s: HttpReqV, failed: Option<ReqError>, stamp: Seq<char>)
    requires
        within_limits(s),
    ensures
        write_step(s, failed, stamp).0.opts == s.opts,
        goes_on(write_step(s, failed, stamp).1) ==> within_limits(write_step(s, failed, stamp).0),
{
    match s.pending {
        Some(WriteAt::Chunk(bs)) => match chunk_written(s, bs as int, failed) {
            MpOut::Next(t) => lemma_loop_limits(t, stamp),
            MpOut::Stop(_, _) => {},
        },
        _ => {},
    }
}

/// Judging a parsed JSON body counts no field and no file: the counters
/// and the settings stay as they were.
pub proof fn lemma_json_within_limits(s: HttpReqV, parsed: Option<JsonV>)
    requires
        within_limits(s),
    ensures
        json_accept(s, parsed).0.opts == s.opts,
        within_limits(json_accept(s, parsed).0),
{
}

// ---------------------------------------------------------------------------
// Empty files
// ---------------------------------------------------------------------------

/// The outcome is a refusal for the reason `r`.
pub open spec fn refused_with(o: ReadOut, r: Reason) -> bool {
    o matches ReadOut::Fail(e) && e.reason == r
}

proof fn lemma_query_not_empty_file(q: JsonV, keys: Seq<Seq<u8>>, pairs: Seq<Seq<u8>>, k: int)
    ensures
        query_fold(q, keys, pairs, k) matches QueryOut::Fail(_, _, e, _) ==> e.reason != Reason::EmptyFile,
    decreases pairs.len() - k,
{
    if k < 0 || k >= pairs.len() {
    } else {
        let (pattern, value) = pair_parts(pairs[k]);
        if valid_utf8(pattern) && valid_utf8(value) {
            let ks = pattern_keys(pattern);
            match ensure_path(q, ks) {
                None => {},
                Some(q1) => match push_at(q1, ks, JsonV::Str(value)) {
                    PushOutcome::Pushed(q2) => lemma_query_not_empty_file(q2, ks, pairs, k + 1),
                    _ => {},
                },
            }
        }
    }
}

proof fn lemma_entry_not_empty_file(s: HttpReqV, key: Seq<u8>, value: Seq<u8>)
    ensures
        header_entry(s, key, value) matches LineOut::Fail(_, er) ==> er.reason != Reason::EmptyFile,
{
    reveal(header_entry);
}

proof fn lemma_line_not_empty_file(s: HttpReqV, line: Seq<u8>)
    ensures
        line_step(s, line) matches LineOut::Fail(_, er) ==> er.reason != Reason::EmptyFile,
{
    reveal(line_step);
    match byte_pos(line, 58) {
        None => {},
        Some(c) => {
            let kb = line.subrange(0, c);
            let vb = line.subrange(c + 1, line.len() as int);
            lemma_entry_not_empty_file(s, trim_bytes(kb), trim_bytes(vb));
        },
    }
}

proof fn lemma_headers_not_empty_file(s: HttpReqV, e: int, start: int)
    ensures
        headers_fold(s, e, start) matches LineOut::Fail(_, er) ==> er.reason != Reason::EmptyFile,
    decreases e + 2 - start,
{
    if start < 0 || start >= e || e + 2 > s.buff.len() {
    } else {
        let w = s.buff.subrange(start, e + 2);
        match seq_pos(w, crlf()) {
            None => {},
            Some(pos) => {
                lemma_contains_iff_pos(w, crlf());
                let line = s.buff.subrange(start, start + pos);
                lemma_line_not_empty_file(s, line);
                match line_step(s, line) {
                    LineOut::Cont(t) => lemma_headers_not_empty_file(t, e, start + pos + 2),
                    _ => {},
                }
            },
        }
    }
}

/// Reading the head never refuses for an empty file.
proof fn lemma_head_not_empty_file(s: HttpReqV)
    ensures
        !(head_step(s).1 matches StageOut::Fail(e) && e.reason == Reason::EmptyFile),
{
    let (s1, o1) = stage_if(s.has_method, s, method_step(s));
    if o1 is Next {
        let (s2, o2) = stage_if(s1.has_path, s1, path_step(s1));
        if !s1.has_path {
            match byte_pos(s1.buff, 32) {
                None => {},
                Some(e) => {
                    let loc = s1.buff.subrange(0, e);
                    match byte_pos(loc, 63) {
                        Some(q) => lemma_query_not_empty_file(
                            s1.ctx.query,
                            s1.keys,
                            split_on(percent_decode(loc.subrange(q + 1, loc.len() as int)), 38),
                            0,
                        ),
                        None => {},
                    }
                },
            }
        }
        if o2 is Next {
            let (s3, o3) = stage_if(s2.has_protocol, s2, protocol_step(s2));
            if o3 is Next && !s3.has_headers {
                match seq_pos(s3.buff, crlf2()) {
                    None => {},
                    Some(e) => lemma_headers_not_empty_file(s3, e, 0),
                }
            }
        }
    }
}

/// The header lines of a part never refuse for an empty file, and keep the
/// settings.
proof fn lemma_meta_not_empty_file(s: HttpReqV, meta: Seq<u8>, start: int, stamp: Seq<char>)
    ensures
        match meta_fold(s, meta, start, stamp) {
            MetaOut::Done(t) => t.opts == s.opts,
            MetaOut::Fail(t, e) => t.opts == s.opts && e.reason != Reason::EmptyFile,
            MetaOut::Panic => true,
        },
    decreases meta.len() - start,
{
    if start < 0 || start > meta.len() {
    } else {
        let w = meta.subrange(start, meta.len() as int);
        match seq_pos(w, crlf()) {
            None => {},
            Some(pos) => {
                lemma_contains_iff_pos(w, crlf());
                reveal(header_meta);
                reveal(disposition_meta);
                match header_meta(s, meta.subrange(start, start + pos), stamp) {
                    MetaOut::Done(t) => lemma_meta_not_empty_file(t, meta, start + pos + 2, stamp),
                    _ => {},
                }
            },
        }
    }
}

/// A turn of the multipart loop refuses for an empty file only where the
/// settings do not allow empty files; it keeps the settings.
proof fn lemma_turn_not_empty_file(s: HttpReqV, stamp: Seq<char>)
    ensures
        match mp_turn(s, stamp) {
            MpOut::Next(t) => t.opts == s.opts,
            MpOut::Stop(t, o) => t.opts == s.opts && (refused_with(o, Reason::EmptyFile) ==> !s.opts.allow_empty_files),
        },
{
    match seq_pos(s.buff, s.boundary) {
        None => {},
        Some(bs) => if bs > 0 {
        } else if !at_closing(s) {
            match seq_pos(s.buff, crlf()) {
                None => {},
                Some(be) => match seq_pos(s.buff.subrange(be + 2, s.buff.len() as int), crlf2()) {
                    None => {},
                    Some(m) => {
                        let me = m + be + 2;
                        if s.size + me + 4 < s.content_length {
                            let s1 = HttpReqV { size: (s.size + me + 4) as usize, ..s };
                            let meta = s.buff.subrange(be + 2, me + 2);
                            lemma_meta_not_empty_file(s1, meta, 0, stamp);
                        }
                    },
                },
            }
        },
    }
}

proof fn lemma_loop_not_empty_file(s: HttpReqV, stamp: Seq<char>)
    ensures
        refused_with(mp_loop(s, stamp).1, Reason::EmptyFile) ==> !s.opts.allow_empty_files,
    decreases s.buff.len(),
{
    lemma_turn_not_empty_file(s, stamp);
    match mp_turn(s, stamp) {
        MpOut::Stop(_, _) => {},
        MpOut::Next(t) => if t.buff.len() < s.buff.len() {
            lemma_loop_not_empty_file(t, stamp);
        },
    }
}

/// Empty files are refused only where the settings say so: with
/// `allow_empty_files` set, no reading step refuses a request for an empty
/// file.
pub proof fn lemma_empty_files_allowed(s: HttpReqV, stamp: Seq<char>)
    requires
        s.opts.allow_empty_files,
    ensures
        !refused_with(req_step(s, stamp).1, Reason::EmptyFile),
{
    lemma_head_not_empty_file(s);
    lemma_head_same(s);
    lemma_loop_not_empty_file(head_step(s).0, stamp);
}

/// The same holds of the answer to a handed-out file write.
pub proof fn lemma_empty_files_allowed_after_write(s: HttpReqV, failed: Option<ReqError>, stamp: Seq<char>)
    requires
        s.opts.allow_empty_files,
        failed matches Some(e) ==> e.reason != Reason::EmptyFile,
    ensures
        !refused_with(write_step(s, failed, stamp).1, Reason::EmptyFile),
{
    match s.pending {
        Some(WriteAt::Chunk(bs)) => match chunk_written(s, bs as int, failed) {
            MpOut::Next(t) => lemma_loop_not_empty_file(t, stamp),
            MpOut::Stop(_, _) => {},
        },
        _ => {},
    }
}

// ---------------------------------------------------------------------------
// Where files are stored
// ---------------------------------------------------------------------------

/// The storage directory of the settings, as the prefix of a stored file's
/// path: the storage path without trailing `/`, then one `/`.
pub open spec fn storage_dir(o: BodyOpts) -> Seq<u8> {
    trim_end_byte(encode_utf8(o.storage_path@), 47) + seq![47u8]
}

/// The extension that a stored file keeps: with `keep_extensions` set, the
/// extension of the client's file name, when it has a non-empty one.
pub open spec fn kept_extension(o: BodyOpts, given: Seq<u8>) -> Option<Seq<char>> {
    if o.keep_extensions {
        match path_extension_of(decode_utf8(given)) {
            Some(e) => if e.len() > 0 {
                Some(e)
            } else {
                None
            },
            None => None,
        }
    } else {
        None
    }
}

/// Stored files go into the storage directory, named by their stamp; with
/// `keep_extensions` set and a client file name that has an extension, a `.`
/// and that extension follow (each character that is not an ASCII letter
/// or digit made `_`); otherwise nothing follows.
pub proof fn lemma_storage_path(o: BodyOpts, stamp: Seq<char>, given: Seq<u8>)
    ensures
        has_prefix(file_path_for(o, stamp, given), storage_dir(o) + encode_utf8(stamp)),
        match kept_extension(o, given) {
            Some(e) => file_path_for(o, stamp, given) == storage_dir(o) + encode_utf8(stamp) + seq![46u8]
                + sanitized(e),
            None => file_path_for(o, stamp, given) == storage_dir(o) + encode_utf8(stamp),
        },
{
    let base = storage_dir(o) + encode_utf8(stamp);
    assert(trim_end_byte(encode_utf8(o.storage_path@), 47) + seq![47u8] + encode_utf8(stamp) =~= base);
    let p = file_path_for(o, stamp, given);
    match path_extension_of(decode_utf8(given)) {
        Some(e) => {
            if o.keep_extensions && e.len() > 0 {
                assert(sanitized(e).len() == e.len());
                assert(p.subrange(0, base.len() as int) =~= base);
            } else if o.keep_extensions {
                assert(sanitized(e).len() == 0);
                assert(p.subrange(0, base.len() as int) =~= base);
            } else {
                assert(p.subrange(0, base.len() as int) =~= base);
            }
        },
        None => {
            assert(p.subrange(0, base.len() as int) =~= base);
        },
    }
}

} // verus!
