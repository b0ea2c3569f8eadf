//! HTTP/1.1 and HTTP/2 read `multipart/form-data` bodies alike: the two
//! dialects differ in one refusal's wording only.
use vstd::prelude::*;
use crate::error::Reason;
use crate::request::{
    at_closing, chunk_step, crlf, crlf2, disposition_meta, header_meta, meta_fold, mp_loop, mp_turn,
    part_step, tail_step, Dialect, HttpReqV, MetaOut, MpOut, chunk_written, head_step, lemma_head_shape,
    read_step, req_step, write_step, WriteAt, body_step, multipart_step, multipart_type, json_type,
    form_type, lemma_loop_no_text, StageOut,
};
use crate::error::ReqError;
use crate::text::{lemma_contains_iff_pos, seq_pos};
use crate::uds::ReadOut;

verus! {

/// The reader `s` in the dialect `d`.
pub open spec fn in_dialect(s: HttpReqV, d: Dialect) -> HttpReqV {
    HttpReqV { dialect: d, ..s }
}

/// Two outcomes are the same but for the wording of an overlong body: the
/// HTTP/1.1 outcome `o1` and the HTTP/2 outcome `o2`.
pub open spec fn alike(o1: ReadOut, o2: ReadOut) -> bool {
    ||| o1 == o2
    ||| (o1 matches ReadOut::Fail(e1) && o2 matches ReadOut::Fail(e2) && e1.kind == e2.kind
        && e1.reason == Reason::BodyTooLarge && e2.reason == Reason::BodyTooLargeShort)
}

#[verifier::rlimit(60)]
proof fn lemma_header_meta_dialect(s: HttpReqV, header: Seq<u8>, stamp: Seq<char>)
    ensures
        header_meta(in_dialect(s, Dialect::Http2), header, stamp) == match header_meta(s, header, stamp) {
            MetaOut::Done(t) => MetaOut::Done(in_dialect(t, Dialect::Http2)),
            MetaOut::Fail(t, e) => MetaOut::Fail(in_dialect(t, Dialect::Http2), e),
            MetaOut::Panic => MetaOut::Panic,
        },
        header_meta(s, header, stamp) matches MetaOut::Done(t) ==> t.dialect == s.dialect,
        header_meta(s, header, stamp) matches MetaOut::Fail(t, _) ==> t.dialect == s.dialect,
{
    reveal(header_meta);
    reveal(disposition_meta);
}

proof fn lemma_meta_fold_dialect(s: HttpReqV, meta: Seq<u8>, start: int, stamp: Seq<char>)
    ensures
        meta_fold(in_dialect(s, Dialect::Http2), meta, start, stamp) == match meta_fold(s, meta, start, stamp) {
            MetaOut::Done(t) => MetaOut::Done(in_dialect(t, Dialect::Http2)),
            MetaOut::Fail(t, e) => MetaOut::Fail(in_dialect(t, Dialect::Http2), e),
            MetaOut::Panic => MetaOut::Panic,
        },
        meta_fold(s, meta, start, stamp) matches MetaOut::Done(t) ==> t.dialect == s.dialect,
        meta_fold(s, meta, start, stamp) matches MetaOut::Fail(t, _) ==> t.dialect == s.dialect,
    decreases meta.len() - start,
{
    if start < 0 || start > meta.len() {
    } else {
        let w = meta.subrange(start, meta.len() as int);
        match seq_pos(w, crlf()) {
            None => {},
            Some(pos) => {
                lemma_contains_iff_pos(w, crlf());
                lemma_header_meta_dialect(s, meta.subrange(start, start + pos), stamp);
                match header_meta(s, meta.subrange(start, start + pos), stamp) {
                    MetaOut::Done(t) => lemma_meta_fold_dialect(t, meta, start + pos + 2, stamp),
                    _ => {},
                }
            },
        }
    }
}

/// The outcomes of a turn in the two dialects correspond.
pub open spec fn turns_alike(m1: MpOut, m2: MpOut) -> bool {
    match m1 {
        MpOut::Next(t) => t.dialect == Dialect::Http1 && m2 == MpOut::Next(in_dialect(t, Dialect::Http2)),
        MpOut::Stop(t, o) => {
            &&& t.dialect == Dialect::Http1
            &&& m2 matches MpOut::Stop(t2, o2) && t2 == in_dialect(t, Dialect::Http2) && alike(o, o2)
        },
    }
}

proof fn lemma_tail_dialect(s: HttpReqV)
    requires
        s.dialect == Dialect::Http1,
    ensures
        tail_step(in_dialect(s, Dialect::Http2)) == (in_dialect(tail_step(s).0, Dialect::Http2), tail_step(s).1),
{
}

#[verifier::rlimit(40)]
proof fn lemma_chunk_dialect(s: HttpReqV, bs: int)
    requires
        s.dialect == Dialect::Http1,
    ensures
        turns_alike(chunk_step(s, bs), chunk_step(in_dialect(s, Dialect::Http2), bs)),
{
}

#[verifier::rlimit(40)]
proof fn lemma_part_dialect(s: HttpReqV, stamp: Seq<char>)
    requires
        s.dialect == Dialect::Http1,
    ensures
        turns_alike(part_step(s, stamp), part_step(in_dialect(s, Dialect::Http2), stamp)),
{
    if !at_closing(s) {
        match seq_pos(s.buff, crlf()) {
            None => {},
            Some(be) => match seq_pos(s.buff.subrange(be + 2, s.buff.len() as int), crlf2()) {
                None => {},
                Some(m) => {
                    let me = m + be + 2;
                    if s.size + me + 4 < s.content_length {
                        let s1 = HttpReqV { size: (s.size + me + 4) as usize, ..s };
                        let meta = s.buff.subrange(be + 2, me + 2);
                        lemma_meta_fold_dialect(s1, meta, 0, stamp);
                    }
                },
            },
        }
    }
}

proof fn lemma_turn_dialect(s: HttpReqV, stamp: Seq<char>)
    requires
        s.dialect == Dialect::Http1,
    ensures
        turns_alike(mp_turn(s, stamp), mp_turn(in_dialect(s, Dialect::Http2), stamp)),
{
    match seq_pos(s.buff, s.boundary) {
        None => lemma_tail_dialect(s),
        Some(bs) => if bs > 0 {
            lemma_chunk_dialect(s, bs);
        } else {
            lemma_part_dialect(s, stamp);
        },
    }
}

/// HTTP/1.1 and HTTP/2 read a multipart body alike: from the same state in
/// either dialect, the multipart loop ends in the same state (but for the
/// dialect) with the same outcome, but for the wording of an overlong body.
pub proof fn lemma_multipart_dialects_alike(s: HttpReqV, stamp: Seq<char>)
    requires
        s.dialect == Dialect::Http1,
    ensures
        mp_loop(in_dialect(s, Dialect::Http2), stamp).0 == in_dialect(mp_loop(s, stamp).0, Dialect::Http2),
        mp_loop(s, stamp).0.dialect == Dialect::Http1,
        alike(mp_loop(s, stamp).1, mp_loop(in_dialect(s, Dialect::Http2), stamp).1),
    decreases s.buff.len(),
{
    lemma_turn_dialect(s, stamp);
    match mp_turn(s, stamp) {
        MpOut::Stop(_, _) => {},
        MpOut::Next(t) => if t.buff.len() < s.buff.len() {
            lemma_multipart_dialects_alike(t, stamp);
        },
    }
}

/// The multipart loop keeps the dialect of an HTTP reader.
proof fn lemma_loop_keeps_dialect(s: HttpReqV, stamp: Seq<char>)
    requires
        s.dialect == Dialect::Http1 || s.dialect == Dialect::Http2,
    ensures
        mp_loop(s, stamp).0.dialect == s.dialect,
{
    if s.dialect == Dialect::Http1 {
        lemma_multipart_dialects_alike(s, stamp);
    } else {
        let s1 = in_dialect(s, Dialect::Http1);
        lemma_multipart_dialects_alike(s1, stamp);
        assert(in_dialect(s1, Dialect::Http2) == s);
    }
}

/// A reading step keeps the dialect of an HTTP reader.
#[verifier::rlimit(40)]
proof fn lemma_req_step_dialect(s: HttpReqV, stamp: Seq<char>)
    requires
        s.dialect == Dialect::Http1 || s.dialect == Dialect::Http2,
    ensures
        req_step(s, stamp).0.dialect == s.dialect,
{
    if s.skip == 0 {
        lemma_head_shape(s);
        let h = head_step(s).0;
        if head_step(s).1 is Next && !h.has_body {
            lemma_loop_keeps_dialect(h, stamp);
            assert(multipart_step(h, stamp).0.dialect == h.dialect);
            assert(body_step(h, stamp).0.dialect == h.dialect);
        }
    }
}

/// The answer to a handed-out write keeps the dialect of an HTTP reader.
proof fn lemma_write_step_dialect(s: HttpReqV, failed: Option<ReqError>, stamp: Seq<char>)
    requires
        s.dialect == Dialect::Http1 || s.dialect == Dialect::Http2,
    ensures
        write_step(s, failed, stamp).0.dialect == s.dialect,
{
    match s.pending {
        Some(WriteAt::Chunk(bs)) => match chunk_written(s, bs as int, failed) {
            MpOut::Stop(t, o) => {},
            MpOut::Next(t) => lemma_loop_keeps_dialect(t, stamp),
        },
        _ => {},
    }
}

/// An HTTP/1.1 reader stays one, and so does an HTTP/2 reader: no reading
/// step and no answer to a handed-out write changes the dialect.
pub proof fn lemma_steps_keep_dialect(s: HttpReqV, failed: Option<ReqError>, stamp: Seq<char>)
    requires
        s.dialect == Dialect::Http1 || s.dialect == Dialect::Http2,
    ensures
        req_step(s, stamp).0.dialect == s.dialect,
        read_step(s, stamp).0.dialect == s.dialect,
        write_step(s, failed, stamp).0.dialect == s.dialect,
{
    lemma_req_step_dialect(s, stamp);
    lemma_write_step_dialect(s, failed, stamp);
}

/// HTTP/1.1 and HTTP/2 read a `multipart/form-data` body alike once its
/// head is read: from the same reader state in either dialect, a reading
/// step, and the answer to a handed-out file write, end in the same state
/// (but for the dialect) with the same outcome, but for the wording of an
/// overlong body.
pub proof fn lemma_multipart_steps_alike(s: HttpReqV, failed: Option<ReqError>, stamp: Seq<char>)
    requires
        s.dialect == Dialect::Http1,
        s.has_method && s.has_path && s.has_protocol && s.has_headers,
        s.content_type == multipart_type(),
    ensures
        read_step(in_dialect(s, Dialect::Http2), stamp).0 == in_dialect(read_step(s, stamp).0, Dialect::Http2),
        alike(read_step(s, stamp).1, read_step(in_dialect(s, Dialect::Http2), stamp).1),
        write_step(in_dialect(s, Dialect::Http2), failed, stamp).0 == in_dialect(
            write_step(s, failed, stamp).0,
            Dialect::Http2,
        ),
        alike(write_step(s, failed, stamp).1, write_step(in_dialect(s, Dialect::Http2), failed, stamp).1),
{
    lemma_multipart_read_alike(s, stamp);
    lemma_multipart_write_alike(s, failed, stamp);
}

pub(crate) proof fn lemma_multipart_type_distinct()
    ensures
        multipart_type() != json_type(),
        multipart_type() != form_type(),
{
    reveal_strlit("multipart/form-data");
    reveal_strlit("application/json");
    reveal_strlit("application/x-www-form-urlencoded");
    vstd::string::is_ascii_spec_bytes("multipart/form-data");
    vstd::string::is_ascii_spec_bytes("application/json");
    vstd::string::is_ascii_spec_bytes("application/x-www-form-urlencoded");
    assert(multipart_type().len() != json_type().len());
    assert(multipart_type().len() != form_type().len());
}

#[verifier::rlimit(40)]
proof fn lemma_multipart_read_alike(s: HttpReqV, stamp: Seq<char>)
    requires
        s.dialect == Dialect::Http1,
        s.has_method && s.has_path && s.has_protocol && s.has_headers,
        s.content_type == multipart_type(),
    ensures
        read_step(in_dialect(s, Dialect::Http2), stamp).0 == in_dialect(read_step(s, stamp).0, Dialect::Http2),
        alike(read_step(s, stamp).1, read_step(in_dialect(s, Dialect::Http2), stamp).1),
{
    let s2 = in_dialect(s, Dialect::Http2);
    lemma_multipart_type_distinct();
    if s.skip == 0 {
        assert(head_step(s) == (s, StageOut::Next));
        assert(head_step(s2) == (s2, StageOut::Next));
        if !s.has_body && s.size <= s.content_length && s.boundary.len() > 0 {
            lemma_multipart_dialects_alike(s, stamp);
            lemma_loop_no_text(s, stamp);
            lemma_loop_no_text(s2, stamp);
            assert(req_step(s, stamp) == multipart_step(s, stamp));
            assert(req_step(s2, stamp) == multipart_step(s2, stamp));
        }
    }
}

proof fn lemma_multipart_write_alike(s: HttpReqV, failed: Option<ReqError>, stamp: Seq<char>)
    requires
        s.dialect == Dialect::Http1,
    ensures
        write_step(in_dialect(s, Dialect::Http2), failed, stamp).0 == in_dialect(
            write_step(s, failed, stamp).0,
            Dialect::Http2,
        ),
        alike(write_step(s, failed, stamp).1, write_step(in_dialect(s, Dialect::Http2), failed, stamp).1),
{
    match s.pending {
        Some(WriteAt::Chunk(bs)) => {
            lemma_chunk_written_dialect(s, bs as int, failed);
            match chunk_written(s, bs as int, failed) {
                MpOut::Stop(t, o) => {},
                MpOut::Next(t) => lemma_multipart_dialects_alike(t, stamp),
            }
        },
        _ => {},
    }
}

proof fn lemma_chunk_written_dialect(s: HttpReqV, bs: int, failed: Option<ReqError>)
    requires
        s.dialect == Dialect::Http1,
    ensures
        turns_alike(chunk_written(s, bs, failed), chunk_written(in_dialect(s, Dialect::Http2), bs, failed)),
{
}

} // verus!
