//! What reading a header records: the content type of a body, and the
//! client address that a WebSocket handshake's forwarding headers announce.
use vstd::prelude::*;
use vstd::string::StringSliceAdditionalSpecFns;
use crate::request::{content_type_after, header_entry, ip_after, Dialect, HttpReqV, LineOut};
use crate::text::{byte_pos, eq_ignore_case, lemma_byte_occurs, lemma_byte_pos_is, lemma_contains_iff_pos};

verus! {

/// `Content-Type`
pub open spec fn content_type_name() -> Seq<u8> {
    "Content-Type".spec_bytes()
}

/// `X-Forwarded-For`
pub open spec fn forwarded_for() -> Seq<u8> {
    "X-Forwarded-For".spec_bytes()
}

/// The forwarding headers that give the client address only while none is
/// known: `X-Real-IP`, `CF-Connecting-IP`, `CF-Connecting-IPv6`.
pub open spec fn fallback_forwarding(key: Seq<u8>) -> bool {
    ||| key == "X-Real-IP".spec_bytes()
    ||| key == "CF-Connecting-IP".spec_bytes()
    ||| key == "CF-Connecting-IPv6".spec_bytes()
}

proof fn lemma_name_lengths()
    ensures
        content_type_name().len() == 12,
        forwarded_for().len() == 15,
        "X-Real-IP".spec_bytes().len() == 9,
        "CF-Connecting-IP".spec_bytes().len() == 16,
        "CF-Connecting-IPv6".spec_bytes().len() == 18,
        "Transfer-Encoding".spec_bytes().len() == 17,
        "Cookie".spec_bytes().len() == 6,
        "Content-Length".spec_bytes().len() == 14,
{
    reveal_strlit("Content-Type");
    reveal_strlit("X-Forwarded-For");
    reveal_strlit("X-Real-IP");
    reveal_strlit("CF-Connecting-IP");
    reveal_strlit("CF-Connecting-IPv6");
    reveal_strlit("Transfer-Encoding");
    reveal_strlit("Cookie");
    reveal_strlit("Content-Length");
    vstd::string::is_ascii_spec_bytes("Content-Type");
    vstd::string::is_ascii_spec_bytes("X-Forwarded-For");
    vstd::string::is_ascii_spec_bytes("X-Real-IP");
    vstd::string::is_ascii_spec_bytes("CF-Connecting-IP");
    vstd::string::is_ascii_spec_bytes("CF-Connecting-IPv6");
    vstd::string::is_ascii_spec_bytes("Transfer-Encoding");
    vstd::string::is_ascii_spec_bytes("Cookie");
    vstd::string::is_ascii_spec_bytes("Content-Length");
}

/// A `Content-Type` value read before a body is known to follow records
/// exactly the bytes before its first `;`, whatever parameters follow it
/// (a multipart boundary or any other).
pub proof fn lemma_content_type_before_parameters(s: HttpReqV, value: Seq<u8>, pos: int)
    requires
        !s.has_body,
        0 <= pos < value.len(),
        value[pos] == 59,
        forall|i: int| 0 <= i < pos ==> value[i] != 59,
    ensures
        content_type_after(s, value).content_type == s.content_type + value.subrange(0, pos),
{
    lemma_byte_pos_is(value, 59, pos);
}

/// A `Content-Type` value without `;`, or one read once a body is known to
/// follow, is recorded whole, and sets no boundary.
pub proof fn lemma_content_type_whole(s: HttpReqV, value: Seq<u8>)
    requires
        s.has_body || forall|i: int| 0 <= i < value.len() ==> value[i] != 59,
    ensures
        content_type_after(s, value).content_type == s.content_type + value,
        content_type_after(s, value).boundary == s.boundary,
{
    if !s.has_body {
        lemma_contains_iff_pos(value, seq![59u8]);
        if byte_pos(value, 59) is Some {
            let p = byte_pos(value, 59)->0;
            lemma_byte_occurs(value, 59, p);
        }
    }
}

/// An HTTP reader reading the header line `Content-Type: value` (the name
/// in any case) before a body is known to follow goes on, having recorded
/// the bytes of the value before its first `;`.
pub proof fn lemma_content_type_header(s: HttpReqV, key: Seq<u8>, value: Seq<u8>, pos: int)
    requires
        s.dialect != Dialect::WebSocket,
        eq_ignore_case(key, content_type_name()),
        !s.has_body,
        0 <= pos < value.len(),
        value[pos] == 59,
        forall|i: int| 0 <= i < pos ==> value[i] != 59,
    ensures
        header_entry(s, key, value) matches LineOut::Cont(t) && t.content_type == s.content_type
            + value.subrange(0, pos),
{
    reveal(header_entry);
    lemma_name_lengths();
    lemma_byte_pos_is(value, 59, pos);
}

/// `X-Forwarded-For` always sets the client address to its value, whatever
/// address was known before.
pub proof fn lemma_forwarded_for_wins(ip: Option<Seq<u8>>, value: Seq<u8>)
    ensures
        ip_after(ip, forwarded_for(), value) == Some(value),
{
}

/// `X-Real-IP`, `CF-Connecting-IP` and `CF-Connecting-IPv6` give the client
/// address only while none is known; a known address stays.
pub proof fn lemma_fallback_forwarding(ip: Option<Seq<u8>>, key: Seq<u8>, value: Seq<u8>)
    requires
        fallback_forwarding(key),
    ensures
        ip is Some ==> ip_after(ip, key, value) == ip,
        ip is None ==> ip_after(ip, key, value) == Some(value),
{
    lemma_name_lengths();
}

/// Any other header leaves the client address as it was.
pub proof fn lemma_other_header_keeps_ip(ip: Option<Seq<u8>>, key: Seq<u8>, value: Seq<u8>)
    requires
        key != forwarded_for(),
        !fallback_forwarding(key),
    ensures
        ip_after(ip, key, value) == ip,
{
}

/// The client address after the headers `hs` (names and values, in order),
/// starting from `ip`.
pub open spec fn ip_after_headers(ip: Option<Seq<u8>>, hs: Seq<(Seq<u8>, Seq<u8>)>) -> Option<Seq<u8>>
    decreases hs.len(),
{
    if hs.len() == 0 {
        ip
    } else {
        ip_after_headers(ip_after(ip, hs[0].0, hs[0].1), hs.drop_first())
    }
}

/// After headers that include `X-Forwarded-For`, the client address is the
/// value of the last `X-Forwarded-For`, whatever forwarding headers came
/// before or after it.
pub proof fn lemma_last_forwarded_for(ip: Option<Seq<u8>>, hs: Seq<(Seq<u8>, Seq<u8>)>, i: int)
    requires
        0 <= i < hs.len(),
        hs[i].0 == forwarded_for(),
        forall|j: int| i < j < hs.len() ==> hs[j].0 != forwarded_for(),
    ensures
        ip_after_headers(ip, hs) == Some(hs[i].1),
    decreases hs.len(),
{
    if i == 0 {
        lemma_forwarded_for_wins(ip, hs[0].1);
        lemma_known_ip_stays(Some(hs[0].1), hs.drop_first());
    } else {
        lemma_last_forwarded_for(ip_after(ip, hs[0].0, hs[0].1), hs.drop_first(), i - 1);
    }
}

/// A known client address stays through headers without `X-Forwarded-For`.
proof fn lemma_known_ip_stays(ip: Option<Seq<u8>>, hs: Seq<(Seq<u8>, Seq<u8>)>)
    requires
        ip is Some,
        forall|j: int| 0 <= j < hs.len() ==> hs[j].0 != forwarded_for(),
    ensures
        ip_after_headers(ip, hs) == ip,
    decreases hs.len(),
{
    if hs.len() > 0 {
        assert(hs[0].0 != forwarded_for());
        lemma_known_ip_stays(ip_after(ip, hs[0].0, hs[0].1), hs.drop_first());
    }
}

/// A WebSocket reader reading the header line `X-Forwarded-For: value` goes
/// on with the value as the client address.
pub proof fn lemma_forwarded_for_header(s: HttpReqV, value: Seq<u8>)
    requires
        s.dialect == Dialect::WebSocket,
    ensures
        header_entry(s, forwarded_for(), value) matches LineOut::Cont(t) && t.ip == Some(value),
{
    reveal(header_entry);
    lemma_name_lengths();
}

} // verus!
