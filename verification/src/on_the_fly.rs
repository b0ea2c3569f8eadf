//! Reading on the fly: a request whose head, or whose JSON or form body, or
//! whose multipart body cut inside a boundary, is still incomplete when a
//! block ends waits, and is read as if the next block had come with it.
use vstd::prelude::*;
use crate::request::{
    content_type_after, crlf, crlf2, head_step, header_entry, headers_fold, headers_step, ip_after,
    lemma_headers_fold_keeps, line_step, method_step, multipart_type, path_step, protocol_step,
    body_step, json_type, multipart_step, read_step, req_step, stage_if, drop_front, has_suffix, Dialect, HttpReqV, LineOut, StageOut,
};
use crate::uds::ReadOut;
use crate::ctx::CtxV;
use crate::json::{upsert, JsonV};
use crate::split::trim_bytes;
use crate::text::{
    byte_pos, first_occurrence, lemma_byte_pos_extend, lemma_contains_iff_pos, lemma_seq_pos_extend, occurs_at, seq_pos,
};

verus! {

/// The reader `s` with the bytes `b` added to its buffer.
pub open spec fn with_more(s: HttpReqV, b: Seq<u8>) -> HttpReqV {
    HttpReqV { buff: s.buff + b, ..s }
}

proof fn lemma_method_more(s: HttpReqV, b: Seq<u8>)
    requires
        method_step(s).1 is Next,
    ensures
        method_step(with_more(s, b)) == (with_more(method_step(s).0, b), StageOut::Next),
{
    let e = byte_pos(s.buff, 32)->0;
    lemma_byte_pos_extend(s.buff, b, 32, e);
    assert((s.buff + b).subrange(0, e) =~= s.buff.subrange(0, e));
    assert((s.buff + b).subrange(e + 1, (s.buff + b).len() as int) =~= s.buff.subrange(e + 1, s.buff.len() as int)
        + b);
}

proof fn lemma_path_more(s: HttpReqV, b: Seq<u8>)
    requires
        path_step(s).1 is Next,
    ensures
        path_step(with_more(s, b)) == (with_more(path_step(s).0, b), StageOut::Next),
{
    let e = byte_pos(s.buff, 32)->0;
    lemma_byte_pos_extend(s.buff, b, 32, e);
    assert((s.buff + b).subrange(0, e) =~= s.buff.subrange(0, e));
    assert((s.buff + b).subrange(e + 1, (s.buff + b).len() as int) =~= s.buff.subrange(e + 1, s.buff.len() as int)
        + b);
}

proof fn lemma_protocol_more(s: HttpReqV, b: Seq<u8>)
    requires
        protocol_step(s).1 is Next,
    ensures
        protocol_step(with_more(s, b)) == (with_more(protocol_step(s).0, b), StageOut::Next),
{
    let e = seq_pos(s.buff, crlf())->0;
    lemma_seq_pos_extend(s.buff, b, crlf(), e);
    assert((s.buff + b).subrange(e + 2, (s.buff + b).len() as int) =~= s.buff.subrange(e + 2, s.buff.len() as int)
        + b);
}

/// A head that is incomplete when a block ends is read, once the bytes `b`
/// come, as if they had come with the block: reading the head after `b` is
/// added gives what reading the head of all the bytes at once gives.
#[verifier::spinoff_prover]
#[verifier::rlimit(40)]
pub proof fn lemma_head_on_the_fly(s: HttpReqV, b: Seq<u8>)
    requires
        head_step(s).1 is Pending,
    ensures
        head_step(with_more(head_step(s).0, b)) == head_step(with_more(s, b)),
{
    let (s1, o1) = stage_if(s.has_method, s, method_step(s));
    if o1 is Next {
        if !s.has_method {
            lemma_method_more(s, b);
        }
        let (s2, o2) = stage_if(s1.has_path, s1, path_step(s1));
        if o2 is Next {
            if !s1.has_path {
                lemma_path_more(s1, b);
            }
            let (s3, o3) = stage_if(s2.has_protocol, s2, protocol_step(s2));
            if o3 is Next {
                if !s2.has_protocol {
                    lemma_protocol_more(s2, b);
                }
            }
        }
    }
}

proof fn lemma_entry_more(s: HttpReqV, b: Seq<u8>, key: Seq<u8>, value: Seq<u8>)
    requires
        header_entry(s, key, value) is Cont,
    ensures
        header_entry(with_more(s, b), key, value) == LineOut::Cont(with_more(header_entry(s, key, value)->Cont_0, b)),
{
    reveal(header_entry);
    let s0 = if s.dialect == Dialect::WebSocket {
        HttpReqV { ip: ip_after(s.ip, key, value), ..s }
    } else {
        s
    };
    let s1 = HttpReqV {
        ctx: CtxV { headers: upsert(s0.ctx.headers, key, JsonV::Str(value)), ..s0.ctx },
        ..s0
    };
    assert(content_type_after(with_more(s1, b), value) == with_more(content_type_after(s1, value), b));
}

proof fn lemma_line_more(s: HttpReqV, b: Seq<u8>, line: Seq<u8>)
    requires
        line_step(s, line) is Cont,
    ensures
        line_step(with_more(s, b), line) == LineOut::Cont(with_more(line_step(s, line)->Cont_0, b)),
{
    reveal(line_step);
    match byte_pos(line, 58) {
        None => {},
        Some(c) => {
            let kb = line.subrange(0, c);
            let vb = line.subrange(c + 1, line.len() as int);
            lemma_entry_more(s, b, trim_bytes(kb), trim_bytes(vb));
        },
    }
}

proof fn lemma_fold_more(s: HttpReqV, b: Seq<u8>, e: int, start: int)
    requires
        e + 2 <= s.buff.len(),
        headers_fold(s, e, start) is Cont,
    ensures
        headers_fold(with_more(s, b), e, start) == LineOut::Cont(with_more(headers_fold(s, e, start)->Cont_0, b)),
    decreases e + 2 - start,
{
    let t = with_more(s, b);
    if start < 0 || start >= e {
    } else {
        assert(t.buff.subrange(start, e + 2) =~= s.buff.subrange(start, e + 2));
        let w = s.buff.subrange(start, e + 2);
        match seq_pos(w, crlf()) {
            None => {},
            Some(pos) => {
                lemma_contains_iff_pos(w, crlf());
                assert(t.buff.subrange(start, start + pos) =~= s.buff.subrange(start, start + pos));
                let line = s.buff.subrange(start, start + pos);
                lemma_line_more(s, b, line);
                crate::request::lemma_line_keeps_buff(s, line);
                lemma_fold_more(line_step(s, line)->Cont_0, b, e, start + pos + 2);
            },
        }
    }
}

proof fn lemma_headers_more(s: HttpReqV, b: Seq<u8>)
    requires
        headers_step(s).1 is Next,
    ensures
        headers_step(with_more(s, b)) == (with_more(headers_step(s).0, b), StageOut::Next),
{
    let e = seq_pos(s.buff, crlf2())->0;
    lemma_seq_pos_extend(s.buff, b, crlf2(), e);
    assert(exists|k: int| first_occurrence(s.buff, crlf2(), k));
    assert(first_occurrence(s.buff, crlf2(), e));
    lemma_fold_more(s, b, e, 0);
    lemma_headers_fold_keeps(s, e, 0);
    let t = headers_fold(s, e, 0)->Cont_0;
    assert((t.buff + b).subrange(e + 4, (t.buff + b).len() as int) =~= t.buff.subrange(e + 4, t.buff.len() as int)
        + b);
}

/// A head complete within a block stays complete, with the same result,
/// when more bytes come with the block: they stay in the buffer after it.
pub proof fn lemma_head_complete_more(s: HttpReqV, b: Seq<u8>)
    requires
        head_step(s).1 is Next,
    ensures
        head_step(with_more(s, b)) == (with_more(head_step(s).0, b), StageOut::Next),
{
    let (s1, o1) = stage_if(s.has_method, s, method_step(s));
    if !s.has_method {
        lemma_method_more(s, b);
    }
    let (s2, o2) = stage_if(s1.has_path, s1, path_step(s1));
    if !s1.has_path {
        lemma_path_more(s1, b);
    }
    let (s3, o3) = stage_if(s2.has_protocol, s2, protocol_step(s2));
    if !s2.has_protocol {
        lemma_protocol_more(s2, b);
    }
    if !s3.has_headers {
        lemma_headers_more(s3, b);
    }
}

/// A reading step that waits, in the head, for the rest of an
/// `application/json` or form body, or for the rest of a refused body that
/// it skips, loses nothing: the step after the bytes `b` arrive gives what
/// one step on all the bytes gives, whatever stamp names stored files; so
/// does a reader's call, which parses a JSON body at once.
pub proof fn lemma_wait_on_the_fly(s: HttpReqV, b: Seq<u8>, stamp: Seq<char>)
    requires
        req_step(s, stamp).1 is Pending,
        !(s.skip == 0 && head_step(s).1 is Next && head_step(s).0.content_type == multipart_type()
            && head_step(s).0.boundary.len() > 0),
    ensures
        req_step(with_more(req_step(s, stamp).0, b), stamp) == req_step(with_more(s, b), stamp),
        read_step(s, stamp) == req_step(s, stamp),
        read_step(with_more(req_step(s, stamp).0, b), stamp) == read_step(with_more(s, b), stamp),
{
    if s.skip > 0 {
        let t = req_step(s, stamp).0;
        let tb = with_more(t, b);
        let sb = with_more(s, b);
        assert(tb.buff =~= b);
        if sb.buff.len() >= s.skip {
            assert(drop_front(sb, s.skip as int).buff =~= drop_front(tb, tb.skip as int).buff);
            assert(HttpReqV { skip: 0, ..drop_front(sb, s.skip as int) } == HttpReqV {
                skip: 0,
                ..drop_front(tb, tb.skip as int)
            });
        } else {
            assert(HttpReqV { buff: seq![], skip: (sb.skip - sb.buff.len()) as usize, ..sb } == HttpReqV {
                buff: seq![],
                skip: (tb.skip - tb.buff.len()) as usize,
                ..tb
            });
        }
    } else {
        lemma_wait_head(s, b, stamp);
    }
}

/// A multipart body cut inside what may be its closing boundary waits, and
/// loses nothing: the step after the bytes `b` arrive gives what one step on
/// all the bytes gives.
pub proof fn lemma_boundary_cut_on_the_fly(s: HttpReqV, b: Seq<u8>, stamp: Seq<char>)
    requires
        s.skip == 0,
        head_step(s).1 is Next,
        !head_step(s).0.has_body,
        head_step(s).0.size <= head_step(s).0.content_length,
        head_step(s).0.content_type == multipart_type(),
        head_step(s).0.boundary.len() > 0,
        exists|k: int|
            0 <= k < head_step(s).0.endings.len() && has_suffix(
                head_step(s).0.buff,
                #[trigger] head_step(s).0.endings[k],
            ),
    ensures
        req_step(s, stamp) == (head_step(s).0, ReadOut::Pending),
        req_step(with_more(req_step(s, stamp).0, b), stamp) == req_step(with_more(s, b), stamp),
        read_step(with_more(req_step(s, stamp).0, b), stamp) == read_step(with_more(s, b), stamp),
{
    crate::settings::lemma_head_same(s);
    crate::request::lemma_head_shape(s);
    let h = head_step(s).0;
    assert(multipart_step(h, stamp) == (h, ReadOut::Pending));
    assert(multipart_type() != json_type()) by {
        reveal_strlit("multipart/form-data");
        reveal_strlit("application/json");
        vstd::string::is_ascii_spec_bytes("multipart/form-data");
        vstd::string::is_ascii_spec_bytes("application/json");
        assert(multipart_type().len() != json_type().len());
    }
    assert(body_step(h, stamp) == multipart_step(h, stamp));
    lemma_head_complete_more(s, b);
    lemma_head_flags(s);
    let hb = with_more(h, b);
    assert(head_step(hb) == (hb, StageOut::Next));
}

proof fn lemma_wait_head(s: HttpReqV, b: Seq<u8>, stamp: Seq<char>)
    requires
        s.skip == 0,
        req_step(s, stamp).1 is Pending,
        !(head_step(s).1 is Next && head_step(s).0.content_type == multipart_type()
            && head_step(s).0.boundary.len() > 0),
    ensures
        req_step(with_more(req_step(s, stamp).0, b), stamp) == req_step(with_more(s, b), stamp),
{
    crate::settings::lemma_head_same(s);
    crate::request::lemma_head_shape(s);
    if head_step(s).1 is Pending {
        lemma_head_on_the_fly(s, b);
    } else {
        let h = head_step(s).0;
        lemma_head_complete_more(s, b);
        lemma_head_flags(s);
        assert(req_step(s, stamp).0 == h);
        let hb = with_more(h, b);
        assert(head_step(hb) == (hb, StageOut::Next));
    }
}

/// Where a pattern first occurs in `a + b`, it first occurs in `a` too if
/// it fits there, and not at all in `a` otherwise.
proof fn lemma_seq_pos_cut(a: Seq<u8>, b: Seq<u8>, pat: Seq<u8>)
    requires
        pat.len() > 0,
        seq_pos(a + b, pat) is Some,
    ensures
        seq_pos(a, pat) is Some ==> seq_pos(a, pat) == seq_pos(a + b, pat),
        seq_pos(a, pat) is None ==> a.len() < seq_pos(a + b, pat)->0 + pat.len(),
{
    lemma_contains_iff_pos(a + b, pat);
    lemma_contains_iff_pos(a, pat);
    let i = seq_pos(a + b, pat)->0;
    if seq_pos(a, pat) is Some {
        lemma_seq_pos_extend(a, b, pat, seq_pos(a, pat)->0);
    } else if a.len() >= i + pat.len() {
        assert forall|k: int| 0 <= k < pat.len() implies #[trigger] a[i + k] == pat[k] by {
            assert((a + b)[i + k] == pat[k]);
        }
        assert(occurs_at(a, pat, i));
    }
}

proof fn lemma_method_cut(s: HttpReqV, b: Seq<u8>)
    requires
        method_step(with_more(s, b)).1 is Next,
    ensures
        method_step(s).1 is Next || method_step(s) == (s, StageOut::Pending),
{
    let f = with_more(s, b);
    lemma_seq_pos_cut(s.buff, b, seq![32u8]);
    if byte_pos(s.buff, 32) is Some {
        let e = byte_pos(s.buff, 32)->0;
        assert(f.buff.subrange(0, e) =~= s.buff.subrange(0, e));
    }
}

proof fn lemma_path_cut(s: HttpReqV, b: Seq<u8>)
    requires
        path_step(with_more(s, b)).1 is Next,
    ensures
        path_step(s).1 is Next || path_step(s) == (s, StageOut::Pending),
{
    let f = with_more(s, b);
    lemma_seq_pos_cut(s.buff, b, seq![32u8]);
    if byte_pos(s.buff, 32) is Some {
        let e = byte_pos(s.buff, 32)->0;
        assert(f.buff.subrange(0, e) =~= s.buff.subrange(0, e));
    }
}

proof fn lemma_protocol_cut(s: HttpReqV, b: Seq<u8>)
    requires
        protocol_step(with_more(s, b)).1 is Next,
        seq_pos(with_more(s, b).buff, crlf())->0 < 12,
    ensures
        protocol_step(s).1 is Next || protocol_step(s) == (s, StageOut::Pending),
{
    lemma_seq_pos_cut(s.buff, b, crlf());
}

proof fn lemma_headers_cut(s: HttpReqV, b: Seq<u8>)
    requires
        headers_step(with_more(s, b)).1 is Next,
        seq_pos(with_more(s, b).buff, crlf2())->0 < 8190,
        headers_step(with_more(s, b)).0.buff.len() < b.len(),
    ensures
        headers_step(s) == (s, StageOut::Pending),
{
    let f = with_more(s, b);
    lemma_seq_pos_cut(s.buff, b, crlf2());
    let e = seq_pos(f.buff, crlf2())->0;
    lemma_headers_fold_keeps(f, e, 0);
    if seq_pos(s.buff, crlf2()) is Some {
        assert(s.buff.len() >= e + 4) by {
            lemma_contains_iff_pos(s.buff, crlf2());
        }
    }
}

/// The protocol line of a head is at least a byte, and its header block at
/// least three bytes, short of their limits: no part of it cut short of its
/// line end is then over a limit.
pub open spec fn head_slack(f: HttpReqV) -> bool {
    let f1 = stage_if(f.has_method, f, method_step(f)).0;
    let f2 = stage_if(f1.has_path, f1, path_step(f1)).0;
    let f3 = stage_if(f2.has_protocol, f2, protocol_step(f2)).0;
    &&& !f2.has_protocol ==> seq_pos(f2.buff, crlf())->0 < 12
    &&& seq_pos(f3.buff, crlf2())->0 < 8190
}

/// A request head cut before its end waits, and is not refused: when the
/// head of all the bytes reads completely and ends within the bytes `b`
/// still to come (see [`head_slack`] for the limits), reading the first part
/// is pending; the rest then reads as the whole would (see
/// [`lemma_head_on_the_fly`]).
pub proof fn lemma_head_cut_waits(s: HttpReqV, b: Seq<u8>)
    requires
        !s.has_headers,
        head_step(with_more(s, b)).1 is Next,
        head_step(with_more(s, b)).0.buff.len() < b.len(),
        head_slack(with_more(s, b)),
    ensures
        head_step(s).1 is Pending,
{
    let f = with_more(s, b);
    let (s1, o1) = stage_if(s.has_method, s, method_step(s));
    let (f1, p1) = stage_if(f.has_method, f, method_step(f));
    crate::request::lemma_head_shape(f);
    if !s.has_method {
        lemma_method_cut(s, b);
    }
    if o1 is Next {
        if !s.has_method {
            lemma_method_more(s, b);
        }
        assert(f1 == with_more(s1, b));
        let (s2, o2) = stage_if(s1.has_path, s1, path_step(s1));
        let (f2, p2) = stage_if(f1.has_path, f1, path_step(f1));
        if !s1.has_path {
            lemma_path_cut(s1, b);
        }
        if o2 is Next {
            if !s1.has_path {
                lemma_path_more(s1, b);
            }
            assert(f2 == with_more(s2, b));
            let (s3, o3) = stage_if(s2.has_protocol, s2, protocol_step(s2));
            let (f3, p3) = stage_if(f2.has_protocol, f2, protocol_step(f2));
            if !s2.has_protocol {
                lemma_protocol_cut(s2, b);
            }
            if o3 is Next {
                if !s2.has_protocol {
                    lemma_protocol_more(s2, b);
                }
                assert(f3 == with_more(s3, b));
                lemma_headers_cut(s3, b);
            }
        }
    }
}

/// A complete head has gone through every stage.
proof fn lemma_head_flags(s: HttpReqV)
    requires
        head_step(s).1 is Next,
    ensures
        head_step(s).0.has_method,
        head_step(s).0.has_path,
        head_step(s).0.has_protocol,
        head_step(s).0.has_headers,
{
    crate::request::lemma_head_shape(s);
    let (s1, o1) = stage_if(s.has_method, s, method_step(s));
    let (s2, o2) = stage_if(s1.has_path, s1, path_step(s1));
    let (s3, o3) = stage_if(s2.has_protocol, s2, protocol_step(s2));
    assert(s3.has_method && s3.has_path && s3.has_protocol);
    if !s3.has_headers {
        let e = seq_pos(s3.buff, crlf2())->0;
        lemma_fold_flags(s3, e, 0);
    }
}

proof fn lemma_entry_flags(s: HttpReqV, key: Seq<u8>, value: Seq<u8>)
    ensures
        header_entry(s, key, value) matches LineOut::Cont(t) ==> t.has_method == s.has_method
            && t.has_path == s.has_path && t.has_protocol == s.has_protocol,
{
    reveal(header_entry);
    let s0 = if s.dialect == Dialect::WebSocket {
        HttpReqV { ip: ip_after(s.ip, key, value), ..s }
    } else {
        s
    };
    let s1 = HttpReqV {
        ctx: CtxV { headers: upsert(s0.ctx.headers, key, JsonV::Str(value)), ..s0.ctx },
        ..s0
    };
    let c = content_type_after(s1, value);
    assert(c.has_method == s.has_method && c.has_path == s.has_path && c.has_protocol == s.has_protocol);
}

proof fn lemma_line_flags(s: HttpReqV, line: Seq<u8>)
    ensures
        line_step(s, line) matches LineOut::Cont(t) ==> t.has_method == s.has_method
            && t.has_path == s.has_path && t.has_protocol == s.has_protocol,
{
    reveal(line_step);
    match byte_pos(line, 58) {
        None => {},
        Some(c) => {
            lemma_entry_flags(s, trim_bytes(line.subrange(0, c)), trim_bytes(line.subrange(c + 1, line.len() as int)));
        },
    }
}

proof fn lemma_fold_flags(s: HttpReqV, e: int, start: int)
    ensures
        headers_fold(s, e, start) matches LineOut::Cont(t) ==> t.has_method == s.has_method
            && t.has_path == s.has_path && t.has_protocol == s.has_protocol,
    decreases e + 2 - start,
{
    if start < 0 || start >= e || e + 2 > s.buff.len() {
    } else {
        let w = s.buff.subrange(start, e + 2);
        match seq_pos(w, crlf()) {
            None => {},
            Some(pos) => {
                lemma_contains_iff_pos(w, crlf());
                let line = s.buff.subrange(start, start + pos);
                lemma_line_flags(s, line);
                match line_step(s, line) {
                    LineOut::Cont(t) => lemma_fold_flags(t, e, start + pos + 2),
                    _ => {},
                }
            },
        }
    }
}

} // verus!
