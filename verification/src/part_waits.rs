//! Reading a multipart body on the fly: a body whose reading goes on part
//! by part and then waits, without taking anything in, for the header lines
//! of the next part is read, once more bytes come, as if they had come with
//! it.
use vstd::prelude::*;
use crate::ctx::CtxV;
use crate::on_the_fly::with_more;
use crate::request::{
    at_closing, chunk_step, crlf, crlf2, disposition_meta, drop_front, field_store, has_prefix, header_meta,
    meta_fold, mp_loop, mp_turn, part_step, HttpReqV, MetaOut, MpOut, StoreOut, has_suffix, head_step,
    multipart_step, multipart_type, read_step, req_step, StageOut,
};
use crate::dialects::lemma_multipart_type_distinct;
use crate::text::{lemma_contains_iff_pos, lemma_seq_pos_extend, seq_pos};

verus! {

/// What the multipart loop leaves alone: the head flags, the content type
/// and length, the boundary and its endings, and the skip count.
pub open spec fn part_frame_same(a: HttpReqV, b: HttpReqV) -> bool {
    &&& b.has_method == a.has_method
    &&& b.has_path == a.has_path
    &&& b.has_protocol == a.has_protocol
    &&& b.has_headers == a.has_headers
    &&& b.has_body == a.has_body
    &&& b.skip == a.skip
    &&& b.content_type == a.content_type
    &&& b.content_length == a.content_length
    &&& b.boundary == a.boundary
    &&& b.endings == a.endings
}

#[verifier::rlimit(60)]
proof fn lemma_header_meta_more(s: HttpReqV, b: Seq<u8>, header: Seq<u8>, stamp: Seq<char>)
    ensures
        header_meta(with_more(s, b), header, stamp) == match header_meta(s, header, stamp) {
            MetaOut::Done(t) => MetaOut::Done(with_more(t, b)),
            MetaOut::Fail(t, e) => MetaOut::Fail(with_more(t, b), e),
            MetaOut::Panic => MetaOut::Panic,
        },
        header_meta(s, header, stamp) matches MetaOut::Done(t) ==> t.buff == s.buff && t.size == s.size
            && part_frame_same(s, t),
{
    reveal(header_meta);
    reveal(disposition_meta);
}

proof fn lemma_meta_fold_more(s: HttpReqV, b: Seq<u8>, meta: Seq<u8>, start: int, stamp: Seq<char>)
    ensures
        meta_fold(with_more(s, b), meta, start, stamp) == match meta_fold(s, meta, start, stamp) {
            MetaOut::Done(t) => MetaOut::Done(with_more(t, b)),
            MetaOut::Fail(t, e) => MetaOut::Fail(with_more(t, b), e),
            MetaOut::Panic => MetaOut::Panic,
        },
        meta_fold(s, meta, start, stamp) matches MetaOut::Done(t) ==> t.buff == s.buff && t.size == s.size
            && part_frame_same(s, t),
    decreases meta.len() - start,
{
    if start < 0 || start > meta.len() {
    } else {
        let w = meta.subrange(start, meta.len() as int);
        match seq_pos(w, crlf()) {
            None => {},
            Some(pos) => {
                lemma_contains_iff_pos(w, crlf());
                lemma_header_meta_more(s, b, meta.subrange(start, start + pos), stamp);
                match header_meta(s, meta.subrange(start, start + pos), stamp) {
                    MetaOut::Done(t) => lemma_meta_fold_more(t, b, meta, start + pos + 2, stamp),
                    _ => {},
                }
            },
        }
    }
}

proof fn lemma_drop_more(s: HttpReqV, b: Seq<u8>, n: int)
    requires
        0 <= n <= s.buff.len(),
    ensures
        drop_front(with_more(s, b), n) == with_more(drop_front(s, n), b),
{
    assert((s.buff + b).subrange(n, (s.buff + b).len() as int) =~= s.buff.subrange(n, s.buff.len() as int) + b);
}

#[verifier::rlimit(40)]
proof fn lemma_chunk_more(s: HttpReqV, b: Seq<u8>, bs: int)
    requires
        0 < bs <= s.buff.len(),
        chunk_step(s, bs) is Next,
    ensures
        chunk_step(with_more(s, b), bs) == MpOut::Next(with_more(chunk_step(s, bs)->Next_0, b)),
        part_frame_same(s, chunk_step(s, bs)->Next_0),
        chunk_step(s, bs)->Next_0.size < s.content_length,
{
    let f = with_more(s, b);
    assert(f.buff.subrange(0, bs - 2) =~= s.buff.subrange(0, bs - 2));
    let s1 = HttpReqV { size: (s.size + bs) as usize, ..s };
    if s.is_write {
        let s2 = HttpReqV {
            file_size: (s.file_size + bs - 2) as usize,
            files_size_total: (s.files_size_total + bs - 2) as usize,
            ..s1
        };
        lemma_drop_more(s2, b, bs);
    } else {
        let chunk = s.buff.subrange(0, bs - 2);
        let s2 = HttpReqV { fields_size_total: (s.fields_size_total + bs - 2) as usize, ..s1 };
        let s3 = HttpReqV { body: s2.body + chunk, ..s2 };
        assert(field_store(with_more(s3, b)) == field_store(s3));
        match field_store(s3) {
            StoreOut::Stored(x) => lemma_drop_more(HttpReqV { ctx: CtxV { body: x, ..s3.ctx }, ..s3 }, b, bs),
            _ => {},
        }
    }
}

#[verifier::rlimit(40)]
proof fn lemma_part_more(s: HttpReqV, b: Seq<u8>, stamp: Seq<char>)
    requires
        s.buff.len() >= s.boundary.len() + 4,
        has_prefix(s.buff, s.boundary),
        part_step(s, stamp) is Next,
    ensures
        part_step(with_more(s, b), stamp) == MpOut::Next(with_more(part_step(s, stamp)->Next_0, b)),
        part_frame_same(s, part_step(s, stamp)->Next_0),
        part_step(s, stamp)->Next_0.size < s.content_length,
{
    let f = with_more(s, b);
    let bl = s.boundary.len() as int;
    assert(f.buff.subrange(bl, f.buff.len() as int).subrange(0, 4) =~= s.buff.subrange(bl, s.buff.len() as int).subrange(0, 4));
    assert(f.buff.subrange(0, bl) =~= s.buff.subrange(0, bl));
    assert(at_closing(f) == at_closing(s));
    let be = seq_pos(s.buff, crlf())->0;
    lemma_contains_iff_pos(s.buff, crlf());
    lemma_seq_pos_extend(s.buff, b, crlf(), be);
    let rest = s.buff.subrange(be + 2, s.buff.len() as int);
    assert(f.buff.subrange(be + 2, f.buff.len() as int) =~= rest + b);
    let m = seq_pos(rest, crlf2())->0;
    lemma_contains_iff_pos(rest, crlf2());
    lemma_seq_pos_extend(rest, b, crlf2(), m);
    let me = m + be + 2;
    assert(f.buff.subrange(be + 2, me + 2) =~= s.buff.subrange(be + 2, me + 2));
    let s1 = HttpReqV { size: (s.size + me + 4) as usize, ..s };
    let meta = s.buff.subrange(be + 2, me + 2);
    lemma_meta_fold_more(s1, b, meta, 0, stamp);
    match meta_fold(s1, meta, 0, stamp) {
        MetaOut::Done(t) => lemma_drop_more(t, b, me + 4),
        _ => {},
    }
}

/// The multipart loop goes on turn by turn, each turn taking bytes in (with
/// at least the boundary and four bytes buffered where a part begins), and
/// then waits without taking anything in: for the header lines of the next
/// part, or for more bytes after bytes that may begin a boundary.
pub open spec fn waits_in_place(s: HttpReqV, stamp: Seq<char>) -> bool
    decreases s.buff.len(),
{
    match mp_turn(s, stamp) {
        MpOut::Stop(t, o) => t == s && o is Pending,
        MpOut::Next(t) => if t.buff.len() < s.buff.len() && s.buff.len() >= s.boundary.len() + 4 {
            waits_in_place(t, stamp)
        } else {
            false
        },
    }
}

proof fn lemma_turn_more(s: HttpReqV, b: Seq<u8>, stamp: Seq<char>)
    requires
        mp_turn(s, stamp) is Next,
        s.buff.len() >= s.boundary.len() + 4,
    ensures
        mp_turn(with_more(s, b), stamp) == MpOut::Next(with_more(mp_turn(s, stamp)->Next_0, b)),
        part_frame_same(s, mp_turn(s, stamp)->Next_0),
        mp_turn(s, stamp)->Next_0.size < s.content_length,
{
    lemma_contains_iff_pos(s.buff, s.boundary);
    let bs = seq_pos(s.buff, s.boundary)->0;
    lemma_seq_pos_extend(s.buff, b, s.boundary, bs);
    if bs > 0 {
        lemma_chunk_more(s, b, bs);
    } else {
        assert(crate::text::first_occurrence(s.buff, s.boundary, 0));
        assert forall|k: int| 0 <= k < s.boundary.len() implies #[trigger] s.buff.subrange(
            0,
            s.boundary.len() as int,
        )[k] == s.boundary[k] by {
            assert(s.buff[0 + k] == s.boundary[k]);
        }
        assert(s.buff.subrange(0, s.boundary.len() as int) =~= s.boundary);
        lemma_part_more(s, b, stamp);
    }
}

/// A multipart body whose reading waits in place (see [`waits_in_place`])
/// loses nothing: the loop after the bytes `b` arrive gives what the loop on
/// all the bytes gives, whatever stamp names stored files.
pub proof fn lemma_parts_wait_on_the_fly(s: HttpReqV, b: Seq<u8>, stamp: Seq<char>)
    requires
        waits_in_place(s, stamp),
    ensures
        mp_loop(s, stamp).1 is Pending,
        mp_loop(with_more(mp_loop(s, stamp).0, b), stamp) == mp_loop(with_more(s, b), stamp),
        part_frame_same(s, mp_loop(s, stamp).0),
        s.size <= s.content_length ==> mp_loop(s, stamp).0.size <= s.content_length,
    decreases s.buff.len(),
{
    match mp_turn(s, stamp) {
        MpOut::Stop(t, o) => {},
        MpOut::Next(t) => {
            lemma_turn_more(s, b, stamp);
            lemma_parts_wait_on_the_fly(t, b, stamp);
        },
    }
}

proof fn lemma_suffix_in_tail(a: Seq<u8>, b: Seq<u8>, e: Seq<u8>)
    requires
        e.len() <= b.len(),
    ensures
        has_suffix(a + b, e) == has_suffix(b, e),
{
    let ab = a + b;
    assert(ab.subrange(ab.len() - e.len(), ab.len() as int) =~= b.subrange(b.len() - e.len(), b.len() as int));
}

/// A multipart body whose reading waits in place (see [`waits_in_place`])
/// loses nothing at the step level either: when the bytes `b` that come
/// next are at least as long as each prefix of the closing delimiter that
/// the reader waits on, and do not end with one, the step after `b` arrives
/// gives what one step on all the bytes gives.
pub proof fn lemma_multipart_wait_on_the_fly(s: HttpReqV, b: Seq<u8>, stamp: Seq<char>)
    requires
        s.skip == 0,
        s.has_method && s.has_path && s.has_protocol && s.has_headers,
        !s.has_body,
        s.size <= s.content_length,
        s.content_type == multipart_type(),
        s.boundary.len() > 0,
        !(exists|k: int| 0 <= k < s.endings.len() && has_suffix(s.buff, #[trigger] s.endings[k])),
        !(exists|k: int| 0 <= k < s.endings.len() && has_suffix(b, #[trigger] s.endings[k])),
        forall|k: int| 0 <= k < s.endings.len() ==> #[trigger] s.endings[k].len() <= b.len(),
        waits_in_place(s, stamp),
    ensures
        req_step(s, stamp).1 is Pending,
        req_step(with_more(req_step(s, stamp).0, b), stamp) == req_step(with_more(s, b), stamp),
        read_step(with_more(req_step(s, stamp).0, b), stamp) == read_step(with_more(s, b), stamp),
{
    lemma_multipart_type_distinct();
    lemma_parts_wait_on_the_fly(s, b, stamp);
    let t = mp_loop(s, stamp).0;
    let tb = with_more(t, b);
    let sb = with_more(s, b);
    assert(head_step(s) == (s, StageOut::Next));
    assert(req_step(s, stamp) == mp_loop(s, stamp));
    assert(head_step(tb) == (tb, StageOut::Next));
    assert(head_step(sb) == (sb, StageOut::Next));
    assert forall|k: int| 0 <= k < s.endings.len() implies has_suffix(tb.buff, #[trigger] s.endings[k]) == has_suffix(
        b,
        s.endings[k],
    ) && has_suffix(sb.buff, s.endings[k]) == has_suffix(b, s.endings[k]) by {
        lemma_suffix_in_tail(t.buff, b, s.endings[k]);
        lemma_suffix_in_tail(s.buff, b, s.endings[k]);
    }
    assert(multipart_step(tb, stamp) == mp_loop(tb, stamp));
    assert(multipart_step(sb, stamp) == mp_loop(sb, stamp));
}

} // verus!
