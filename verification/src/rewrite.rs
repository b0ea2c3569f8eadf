//! Request heads that arrive already parsed (HTTP/2 frames, WebSocket
//! handshakes) are written back in HTTP/1.1 form for the head reader.
use vstd::prelude::*;
use vstd::string::StringSliceAdditionalSpecFns;

verus! {

/// The header lines `name: value\r\n`, in order.
pub open spec fn raw_header_lines(h: Seq<(Seq<u8>, Seq<u8>)>) -> Seq<u8>
    decreases h.len(),
{
    if h.len() == 0 {
        seq![]
    } else {
        raw_header_lines(h.drop_last()) + h.last().0 + seq![58u8, 32u8] + h.last().1 + seq![13u8, 10u8]
    }
}

/// `<method> <location> HTTP/1.1\r\n`, the header lines, and an empty
/// line.
pub open spec fn rewritten_head(method: Seq<u8>, location: Seq<u8>, h: Seq<(Seq<u8>, Seq<u8>)>) -> Seq<u8> {
    method + seq![32u8] + location + " HTTP/1.1\r\n".spec_bytes() + raw_header_lines(h) + seq![13u8, 10u8]
}

/// The views of a list of header name and value bytes.
pub open spec fn raw_pairs_view(h: Seq<(Vec<u8>, Vec<u8>)>) -> Seq<(Seq<u8>, Seq<u8>)> {
    Seq::new(h.len(), |i: int| (h[i].0@, h[i].1@))
}

/// Writes a parsed request head in HTTP/1.1 form (see [`rewritten_head`]).
pub fn rewrite_head(method: &[u8], location: &[u8], headers: &[(Vec<u8>, Vec<u8>)]) -> (r: Vec<u8>)
    ensures
        r@ == rewritten_head(method@, location@, raw_pairs_view(headers@)),
{
    let mut out: Vec<u8> = Vec::new();
    out.extend_from_slice(method);
    out.push(32u8);
    out.extend_from_slice(location);
    out.extend_from_slice(" HTTP/1.1\r\n".as_bytes());
    let ghost start = out@;
    let ghost h = raw_pairs_view(headers@);
    let mut i: usize = 0;
    while i < headers.len()
        invariant
            i <= headers@.len(),
            h == raw_pairs_view(headers@),
            out@ == start + raw_header_lines(h.subrange(0, i as int)),
        decreases headers@.len() - i,
    {
        let ghost before = out@;
        out.extend_from_slice(headers[i].0.as_slice());
        out.push(58u8);
        out.push(32u8);
        out.extend_from_slice(headers[i].1.as_slice());
        out.push(13u8);
        out.push(10u8);
        proof {
            let hs = h.subrange(0, i + 1);
            assert(hs.drop_last() =~= h.subrange(0, i as int));
            assert(hs.last() == h[i as int]);
            assert(out@ =~= before + h[i as int].0 + seq![58u8, 32u8] + h[i as int].1 + seq![13u8, 10u8]);
        }
        i = i + 1;
    }
    assert(h.subrange(0, h.len() as int) =~= h);
    out.push(13u8);
    out.push(10u8);
    assert(out@ =~= rewritten_head(method@, location@, h));
    out
}

} // verus!
