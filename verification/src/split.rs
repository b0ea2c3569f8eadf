//! Splitting byte text: at a separator (`split`), at brackets with empty
//! pieces dropped (field-name patterns such as `a[b][]`), and UTF-8 text
//! trimming.
use vstd::prelude::*;
use vstd::string::StringSliceAdditionalSpecFns;
use vstd::utf8::{decode_utf8, encode_utf8, encode_utf8_decode_utf8, valid_utf8};
use crate::text::{trim_chars, trim_str, utf8_str};

verus! {

/// The pieces of `s` from index `i` on, split at every `sep`, the current
/// piece so far being `cur` (what `s.split(|b| *b == sep)` yields).
pub open spec fn split_from(s: Seq<u8>, sep: u8, i: int, cur: Seq<u8>) -> Seq<Seq<u8>>
    decreases s.len() - i,
{
    if i < 0 || i >= s.len() {
        seq![cur]
    } else if s[i] == sep {
        seq![cur] + split_from(s, sep, i + 1, seq![])
    } else {
        split_from(s, sep, i + 1, cur.push(s[i]))
    }
}

/// The pieces of `s` between the occurrences of `sep`; there is always at
/// least one.
pub open spec fn split_on(s: Seq<u8>, sep: u8) -> Seq<Seq<u8>> {
    split_from(s, sep, 0, seq![])
}

pub proof fn lemma_split_from_nonempty(s: Seq<u8>, sep: u8, i: int, cur: Seq<u8>)
    ensures
        split_from(s, sep, i, cur).len() >= 1,
    decreases s.len() - i,
{
    if 0 <= i < s.len() {
        lemma_split_from_nonempty(s, sep, i + 1, if s[i] == sep {
            seq![]
        } else {
            cur.push(s[i])
        });
    }
}

/// Splits `s` at every `sep`.
pub fn split_bytes(s: &[u8], sep: u8) -> (r: Vec<Vec<u8>>)
    ensures
        pieces_view(r@) == split_on(s@, sep),
        r@.len() >= 1,
{
    let mut out: Vec<Vec<u8>> = Vec::new();
    let mut cur: Vec<u8> = Vec::new();
    let mut i: usize = 0;
    while i < s.len()
        invariant
            i <= s@.len(),
            pieces_view(out@) + split_from(s@, sep, i as int, cur@) == split_on(s@, sep),
        decreases s@.len() - i,
    {
        let ghost before = pieces_view(out@);
        if s[i] == sep {
            let piece = cur;
            cur = Vec::new();
            let ghost pv = piece@;
            out.push(piece);
            proof {
                assert(pieces_view(out@) =~= before.push(pv));
                assert(split_from(s@, sep, i as int, pv) == seq![pv] + split_from(
                    s@,
                    sep,
                    i + 1,
                    seq![],
                ));
                assert(before.push(pv) + split_from(s@, sep, i + 1, seq![]) =~= before + (seq![pv]
                    + split_from(s@, sep, i + 1, seq![])));
                assert(cur@ =~= Seq::<u8>::empty());
            }
        } else {
            cur.push(s[i]);
        }
        i = i + 1;
    }
    let ghost before = pieces_view(out@);
    let ghost cv = cur@;
    out.push(cur);
    proof {
        assert(pieces_view(out@) =~= before.push(cv));
        assert(before + seq![cv] =~= before.push(cv));
    }
    out
}

/// The views of a list of byte vectors.
pub open spec fn pieces_view(v: Seq<Vec<u8>>) -> Seq<Seq<u8>> {
    Seq::new(v.len(), |i: int| v[i]@)
}

pub open spec fn is_bracket(b: u8) -> bool {
    b == 91 || b == 93
}

/// The non-empty pieces of `s` from index `i` on, split at `[` and `]`, the
/// current piece so far being `cur`.
pub open spec fn bracket_pieces_from(s: Seq<u8>, i: int, cur: Seq<u8>) -> Seq<Seq<u8>>
    decreases s.len() - i,
{
    if i < 0 || i >= s.len() {
        if cur.len() > 0 {
            seq![cur]
        } else {
            seq![]
        }
    } else if is_bracket(s[i]) {
        (if cur.len() > 0 {
            seq![cur]
        } else {
            seq![]
        }) + bracket_pieces_from(s, i + 1, seq![])
    } else {
        bracket_pieces_from(s, i + 1, cur.push(s[i]))
    }
}

/// The member path that a field-name pattern names: `a[b][c]` names
/// `a`, `b`, `c`; a pattern without `[` names itself.
pub open spec fn pattern_keys(p: Seq<u8>) -> Seq<Seq<u8>> {
    if exists|i: int| 0 <= i < p.len() && p[i] == 91 {
        bracket_pieces_from(p, 0, seq![])
    } else {
        seq![p]
    }
}

/// The member path that a field-name pattern names (see [`pattern_keys`]).
pub fn pattern_keys_exec(p: &[u8]) -> (r: Vec<Vec<u8>>)
    ensures
        pieces_view(r@) == pattern_keys(p@),
{
    let mut has_open = false;
    let mut j: usize = 0;
    while j < p.len()
        invariant
            j <= p@.len(),
            has_open <==> exists|k: int| 0 <= k < j && p@[k] == 91,
        decreases p@.len() - j,
    {
        if p[j] == 91u8 {
            has_open = true;
        }
        j = j + 1;
    }
    if !has_open {
        let mut out: Vec<Vec<u8>> = Vec::new();
        out.push(vstd::slice::slice_to_vec(p));
        assert(pieces_view(out@) =~= seq![p@]);
        return out;
    }
    let mut out: Vec<Vec<u8>> = Vec::new();
    let mut cur: Vec<u8> = Vec::new();
    let mut i: usize = 0;
    while i < p.len()
        invariant
            i <= p@.len(),
            pieces_view(out@) + bracket_pieces_from(p@, i as int, cur@) == bracket_pieces_from(
                p@,
                0,
                seq![],
            ),
        decreases p@.len() - i,
    {
        let ghost before = pieces_view(out@);
        let ghost cv = cur@;
        if p[i] == 91u8 || p[i] == 93u8 {
            if cur.len() > 0 {
                let piece = cur;
                out.push(piece);
                proof {
                    assert(pieces_view(out@) =~= before + seq![cv]);
                }
            } else {
                proof {
                    assert(pieces_view(out@) =~= before + Seq::<Seq<u8>>::empty());
                }
            }
            cur = Vec::new();
            proof {
                assert(cur@ =~= Seq::<u8>::empty());
                assert(pieces_view(out@) + bracket_pieces_from(p@, i + 1, seq![]) =~= before + ((
                if cv.len() > 0 {
                    seq![cv]
                } else {
                    seq![]
                }) + bracket_pieces_from(p@, i + 1, seq![])));
            }
        } else {
            cur.push(p[i]);
        }
        i = i + 1;
    }
    let ghost before = pieces_view(out@);
    let ghost cv = cur@;
    if cur.len() > 0 {
        out.push(cur);
        assert(pieces_view(out@) =~= before + seq![cv]);
    } else {
        assert(before + Seq::<Seq<u8>>::empty() =~= before);
    }
    out
}

/// `text.trim()`, on the UTF-8 bytes of the text.
pub open spec fn trim_bytes(b: Seq<u8>) -> Seq<u8> {
    encode_utf8(trim_chars(decode_utf8(b)))
}

/// Checks that `b` is UTF-8 text and trims it (`str::from_utf8(b)?.trim()`).
pub fn utf8_trim(b: &[u8]) -> (r: Option<Vec<u8>>)
    ensures
        r is Some <==> valid_utf8(b@),
        r matches Some(t) ==> t@ == trim_bytes(b@),
{
    match utf8_str(b) {
        None => None,
        Some(s) => {
            proof {
                encode_utf8_decode_utf8(s@);
            }
            let t = trim_str(s);
            Some(vstd::slice::slice_to_vec(t.as_bytes()))
        },
    }
}

} // verus!
