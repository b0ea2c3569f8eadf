//! Pieces of an HTTP request head: cookies, field-name paths in the query
//! tree, and the `Content-Type` boundary of multipart bodies.
use vstd::prelude::*;
use vstd::utf8::valid_utf8;
use crate::json::{
    ensure_path, ensure_path_exec, entries_view, keys_view, push_at, push_at_exec, upsert,
    upsert_entry, Json, JsonV, PushOutcome,
};
use crate::split::{
    pattern_keys, pattern_keys_exec, pieces_view, split_bytes, split_on, trim_bytes, utf8_trim,
};
use crate::text::{byte_pos, find_byte, find_seq, seq_pos};

verus! {

// ---------------------------------------------------------------------------
// Cookies
// ---------------------------------------------------------------------------

/// The cookie members after the `;`-separated pieces `params[k..]` of a
/// `Cookie` value. The first piece with a `=` reads `name=value`; each later
/// one drops its first byte before the name (the space after `;`). `None`
/// where a later piece starts with `=`, or where a name or value is cut
/// inside a UTF-8 character (the server's string slicing fails there).
pub open spec fn cookie_fold(
    cookie: Seq<(Seq<u8>, JsonV)>,
    params: Seq<Seq<u8>>,
    k: int,
    is_first: bool,
) -> Option<Seq<(Seq<u8>, JsonV)>>
    decreases params.len() - k,
{
    if k < 0 || k >= params.len() {
        Some(cookie)
    } else {
        let p = params[k];
        match byte_pos(p, 61) {
            None => cookie_fold(cookie, params, k + 1, is_first),
            Some(eq) => {
                let name = if is_first {
                    p.subrange(0, eq)
                } else {
                    p.subrange(1, eq)
                };
                let data = p.subrange(eq + 1, p.len() as int);
                if (!is_first && eq == 0) || !valid_utf8(name) || !valid_utf8(data) {
                    None
                } else {
                    cookie_fold(
                        upsert(cookie, trim_bytes(name), JsonV::Str(trim_bytes(data))),
                        params,
                        k + 1,
                        false,
                    )
                }
            },
        }
    }
}

/// The cookie members after reading the `Cookie` value `value`.
pub open spec fn cookie_after(cookie: Seq<(Seq<u8>, JsonV)>, value: Seq<u8>) -> Option<
    Seq<(Seq<u8>, JsonV)>,
> {
    cookie_fold(cookie, split_on(value, 59), 0, true)
}

/// Reads a `Cookie` value into the cookie members.
pub fn set_cookie(cookie: &mut Vec<(Vec<u8>, Json)>, value: &[u8])
    requires
        cookie_after(entries_view(old(cookie)@), value@) is Some,
    ensures
        cookie_after(entries_view(old(cookie)@), value@) == Some(entries_view(final(cookie)@)),
{
    let params = split_bytes(value, 59u8);
    let ghost pv = pieces_view(params@);
    let mut is_first = true;
    let mut k: usize = 0;
    while k < params.len()
        invariant
            k <= params@.len(),
            pv == pieces_view(params@),
            pv == split_on(value@, 59),
            cookie_fold(entries_view(cookie@), pv, k as int, is_first) == cookie_after(
                entries_view(old(cookie)@),
                value@,
            ),
            cookie_after(entries_view(old(cookie)@), value@) is Some,
        decreases params@.len() - k,
    {
        let p = params[k].as_slice();
        assert(p@ == pv[k as int]);
        match find_byte(p, 61u8) {
            None => {},
            Some(eq) => {
                if !is_first && eq == 0 {
                    assert(false);
                }
                let start: usize = if is_first {
                    0
                } else {
                    1
                };
                let name = utf8_trim(&p[start..eq]);
                let data = utf8_trim(&p[eq + 1..p.len()]);
                match (name, data) {
                    (Some(n), Some(d)) => {
                        upsert_entry(cookie, n, Json::Str(d));
                    },
                    _ => {
                        assert(false);
                    },
                }
                is_first = false;
            },
        }
        k = k + 1;
    }
}

// ---------------------------------------------------------------------------
// Multipart boundary
// ---------------------------------------------------------------------------

/// `boundary=`
pub open spec fn boundary_marker() -> Seq<u8> {
    seq![98u8, 111u8, 117u8, 110u8, 100u8, 97u8, 114u8, 121u8, 61u8]
}

/// The delimiter of a multipart body whose `Content-Type` is `value`: `--`
/// and what follows `boundary=`.
pub open spec fn boundary_of(value: Seq<u8>) -> Option<Seq<u8>> {
    match seq_pos(value, boundary_marker()) {
        Some(b) => Some(seq![45u8, 45u8] + value.subrange(b + 9, value.len() as int)),
        None => None,
    }
}

/// The proper non-empty prefixes of `b`, shortest first: the tails that
/// may begin a delimiter still on its way.
pub open spec fn endings_of(b: Seq<u8>) -> Seq<Seq<u8>> {
    Seq::new((b.len() - 1) as nat, |i: int| b.subrange(0, i + 1))
}

/// Reads the boundary of a multipart `Content-Type` value.
pub fn boundary_exec(value: &[u8]) -> (r: Option<(Vec<u8>, Vec<Vec<u8>>)>)
    ensures
        match r {
            Some((b, e)) => boundary_of(value@) == Some(b@) && pieces_view(e@) == endings_of(b@),
            None => boundary_of(value@) is None,
        },
{
    let marker: [u8; 9] = [98u8, 111u8, 117u8, 110u8, 100u8, 97u8, 114u8, 121u8, 61u8];
    assert(marker@ =~= boundary_marker());
    match find_seq(value, marker.as_slice()) {
        None => None,
        Some(b) => {
            let vlen: usize = value.len();
            assert(b + 9 <= vlen);
            let mut bound: Vec<u8> = Vec::new();
            bound.push(45u8);
            bound.push(45u8);
            bound.extend_from_slice(&value[b + 9..value.len()]);
            assert(bound@ =~= seq![45u8, 45u8] + value@.subrange(b + 9, value@.len() as int));
            let mut endings: Vec<Vec<u8>> = Vec::new();
            let mut i: usize = 1;
            while i < bound.len()
                invariant
                    1 <= i <= bound@.len(),
                    pieces_view(endings@) =~= Seq::new(
                        (i - 1) as nat,
                        |j: int| bound@.subrange(0, j + 1),
                    ),
                decreases bound@.len() - i,
            {
                let ghost before = pieces_view(endings@);
                let piece = vstd::slice::slice_to_vec(&bound.as_slice()[0..i]);
                let ghost pc = piece@;
                endings.push(piece);
                assert(pieces_view(endings@) =~= before.push(pc));
                i = i + 1;
            }
            Some((bound, endings))
        },
    }
}

// ---------------------------------------------------------------------------
// Query strings
// ---------------------------------------------------------------------------

/// What reading the pairs of a query string comes to.
pub enum QueryOut {
    /// Every pair was stored: the tree and the last member path.
    Done(JsonV, Seq<Seq<u8>>),
    /// A pair was refused: the tree and the member path as they stand, the
    /// refusal, and whether the reader drops its buffer.
    Fail(JsonV, Seq<Seq<u8>>, crate::error::ReqError, bool),
    /// A pair names a path through a value that is not an object (the
    /// server's walk fails there).
    Stuck,
}

/// The name pattern and the value of a `name=value` pair (the value is
/// empty without `=`, and stops at a second `=`).
pub open spec fn pair_parts(pair: Seq<u8>) -> (Seq<u8>, Seq<u8>) {
    let parts = split_on(pair, 61);
    (parts[0], if parts.len() > 1 {
        parts[1]
    } else {
        seq![]
    })
}

/// Stores the pairs `pairs[k..]` of a query string into the tree `q`: each
/// value is appended to the array that the pattern names, the path being
/// created where missing.
pub open spec fn query_fold(q: JsonV, keys: Seq<Seq<u8>>, pairs: Seq<Seq<u8>>, k: int) -> QueryOut
    decreases pairs.len() - k,
{
    if k < 0 || k >= pairs.len() {
        QueryOut::Done(q, keys)
    } else {
        let (pattern, value) = pair_parts(pairs[k]);
        if !valid_utf8(pattern) || !valid_utf8(value) {
            QueryOut::Fail(
                q,
                keys,
                crate::error::err(
                    crate::error::ErrorKind::InvalidData,
                    crate::error::Reason::InvalidUtf8,
                ),
                true,
            )
        } else {
            let ks = pattern_keys(pattern);
            match ensure_path(q, ks) {
                None => QueryOut::Stuck,
                Some(q1) => match push_at(q1, ks, JsonV::Str(value)) {
                    PushOutcome::Stuck => QueryOut::Stuck,
                    PushOutcome::NotArray(q2) => QueryOut::Fail(
                        q2,
                        ks,
                        crate::error::err(
                            crate::error::ErrorKind::InvalidInput,
                            crate::error::Reason::InvalidQuery,
                        ),
                        false,
                    ),
                    PushOutcome::Pushed(q2) => query_fold(q2, ks, pairs, k + 1),
                },
            }
        }
    }
}

/// Stores the decoded query string `decoded` into the tree `q`
/// (see [`query_fold`]).
pub open spec fn query_after(q: JsonV, keys: Seq<Seq<u8>>, decoded: Seq<u8>) -> QueryOut {
    query_fold(q, keys, split_on(decoded, 38), 0)
}

/// Stores the decoded query string `decoded` into the tree `q`. On success
/// the tree and the last member path; on refusal also the refusal and
/// whether to drop the buffer.
pub fn store_query(q: Json, keys: Vec<Vec<u8>>, decoded: &[u8]) -> (r: (Json, Vec<Vec<u8>>, Option<(crate::error::ReqError, bool)>))
    requires
        !(query_after(q.view(), pieces_view(keys@), decoded@) is Stuck),
    ensures
        match query_after(q.view(), pieces_view(keys@), decoded@) {
            QueryOut::Done(t, k) => r.0.view() == t && pieces_view(r.1@) == k && r.2 is None,
            QueryOut::Fail(t, k, e, c) => r.0.view() == t && pieces_view(r.1@) == k && r.2 == Some(
                (e, c),
            ),
            QueryOut::Stuck => false,
        },
{
    let pairs = split_bytes(decoded, 38u8);
    let ghost pv = pieces_view(pairs@);
    let ghost goal = query_after(q.view(), pieces_view(keys@), decoded@);
    let mut tree = q;
    let mut cur_keys = keys;
    let mut k: usize = 0;
    while k < pairs.len()
        invariant
            k <= pairs@.len(),
            pv == pieces_view(pairs@),
            pv == split_on(decoded@, 38),
            query_fold(tree.view(), pieces_view(cur_keys@), pv, k as int) == goal,
            goal == query_after(q.view(), pieces_view(keys@), decoded@),
            !(goal is Stuck),
        decreases pairs@.len() - k,
    {
        let parts = split_bytes(pairs[k].as_slice(), 61u8);
        proof {
            assert(pairs@[k as int]@ == pv[k as int]);
        }
        let pattern = parts[0].as_slice();
        proof {
            assert(pieces_view(parts@)[0] == parts@[0]@);
            assert(pattern@ == pair_parts(pv[k as int]).0);
            if parts@.len() > 1 {
                assert(pieces_view(parts@)[1] == parts@[1]@);
            }
        }
        let empty: [u8; 0] = [];
        let value: &[u8] = if parts.len() > 1 {
            parts[1].as_slice()
        } else {
            empty.as_slice()
        };
        assert(value@ == pair_parts(pv[k as int]).1);
        if crate::text::utf8_str(pattern).is_none() || crate::text::utf8_str(value).is_none() {
            assert(goal == QueryOut::Fail(
                tree.view(),
                pieces_view(cur_keys@),
                crate::error::err(
                    crate::error::ErrorKind::InvalidData,
                    crate::error::Reason::InvalidUtf8,
                ),
                true,
            ));
            let e = crate::error::ReqError::new(
                crate::error::ErrorKind::InvalidData,
                crate::error::Reason::InvalidUtf8,
            );
            assert(e == crate::error::err(
                crate::error::ErrorKind::InvalidData,
                crate::error::Reason::InvalidUtf8,
            ));
            return (tree, cur_keys, Some((e, true)));
        }
        let ks = pattern_keys_exec(pattern);
        proof {
            assert(keys_view(ks@) =~= pieces_view(ks@));
        }
        let t1 = ensure_path_exec(tree, ks.as_slice());
        let item = Json::Str(vstd::slice::slice_to_vec(value));
        let (t2, ok) = push_at_exec(t1, ks.as_slice(), item);
        tree = t2;
        cur_keys = ks;
        if !ok {
            let e = crate::error::ReqError::new(
                crate::error::ErrorKind::InvalidInput,
                crate::error::Reason::InvalidQuery,
            );
            assert(e == crate::error::err(
                crate::error::ErrorKind::InvalidInput,
                crate::error::Reason::InvalidQuery,
            ));
            return (tree, cur_keys, Some((e, false)));
        }
        k = k + 1;
    }
    (tree, cur_keys, None)
}


// ---------------------------------------------------------------------------
// URL-encoded form bodies
// ---------------------------------------------------------------------------

/// What reading the pairs of a form body comes to; each carries the body
/// tree, the last member path and the last field text as they stand.
pub enum FormOut {
    Done(JsonV, Seq<Seq<u8>>, Seq<u8>),
    /// A name or value is not UTF-8 text.
    BadUtf8(JsonV, Seq<Seq<u8>>, Seq<u8>),
    /// The node that a name leads to is not an array.
    NotArray(JsonV, Seq<Seq<u8>>, Seq<u8>),
    /// A name leads through a value that is not an object.
    Stuck,
}

/// Text that is empty once trimmed.
#[verifier::opaque]
pub open spec fn blank_text(t: Seq<u8>) -> bool {
    trim_bytes(t).len() == 0
}

/// What storing one pair of a form body comes to.
pub enum PairOut {
    /// Go on with this tree, member path and field text.
    Next(JsonV, Seq<Seq<u8>>, Seq<u8>),
    /// Stop here.
    End(FormOut),
}

/// Storing `value` under the member path `ks`: the path is created, and a
/// value that is not blank is appended to the array there.
pub open spec fn form_value(b: JsonV, ks: Seq<Seq<u8>>, value: Seq<u8>) -> PairOut {
    match ensure_path(b, ks) {
        None => PairOut::End(FormOut::Stuck),
        Some(b1) => if blank_text(value) {
            PairOut::Next(b1, ks, value)
        } else {
            match push_at(b1, ks, JsonV::Str(value)) {
                PushOutcome::Stuck => PairOut::End(FormOut::Stuck),
                PushOutcome::NotArray(b2) => PairOut::End(FormOut::NotArray(b2, ks, value)),
                PushOutcome::Pushed(b2) => PairOut::Next(b2, ks, value),
            }
        },
    }
}

/// Storing the pair `pair` (see [`form_value`]); its name and value must be
/// UTF-8 text.
pub open spec fn form_pair(b: JsonV, keys: Seq<Seq<u8>>, text: Seq<u8>, pair: Seq<u8>) -> PairOut {
    let (pattern, value) = pair_parts(pair);
    if !valid_utf8(pattern) || !valid_utf8(value) {
        PairOut::End(FormOut::BadUtf8(b, keys, text))
    } else {
        form_value(b, pattern_keys(pattern), value)
    }
}

/// Stores the pairs `pairs[k..]` of a form body (see [`form_pair`]).
pub open spec fn form_fold(
    b: JsonV,
    keys: Seq<Seq<u8>>,
    text: Seq<u8>,
    pairs: Seq<Seq<u8>>,
    k: int,
) -> FormOut
    decreases pairs.len() - k,
{
    if k < 0 || k >= pairs.len() {
        FormOut::Done(b, keys, text)
    } else {
        match form_pair(b, keys, text, pairs[k]) {
            PairOut::Next(b1, k1, t1) => form_fold(b1, k1, t1, pairs, k + 1),
            PairOut::End(o) => o,
        }
    }
}

/// The text is empty once trimmed (`false` for bytes that are not text).
pub fn is_blank(value: &[u8]) -> (r: bool)
    ensures
        valid_utf8(value@) ==> r == blank_text(value@),
{
    reveal(blank_text);
    match utf8_trim(value) {
        Some(t) => t.len() == 0,
        None => false,
    }
}

/// Stores `value` under the member path `ks` (see [`form_value`]).
fn store_value(b: Json, ks: Vec<Vec<u8>>, value: &[u8]) -> (r: (Json, Vec<Vec<u8>>, Vec<u8>, Option<FormEnd>))
    requires
        valid_utf8(value@),
        !(form_value(b.view(), pieces_view(ks@), value@) matches PairOut::End(FormOut::Stuck)),
    ensures
        match form_value(b.view(), pieces_view(ks@), value@) {
            PairOut::Next(t, k, x) => r.0.view() == t && pieces_view(r.1@) == k && r.2@ == x
                && r.3 is None,
            PairOut::End(FormOut::NotArray(t, k, x)) => r.0.view() == t && pieces_view(r.1@) == k
                && r.2@ == x && r.3 == Some(FormEnd::NotArray),
            _ => false,
        },
{
    proof {
        assert(keys_view(ks@) =~= pieces_view(ks@));
    }
    let t1 = ensure_path_exec(b, ks.as_slice());
    let blank = is_blank(value);
    let v = vstd::slice::slice_to_vec(value);
    if blank {
        return (t1, ks, v, None);
    }
    let item = Json::Str(vstd::slice::slice_to_vec(value));
    let (t2, ok) = push_at_exec(t1, ks.as_slice(), item);
    if !ok {
        return (t2, ks, v, Some(FormEnd::NotArray));
    }
    (t2, ks, v, None)
}

/// Stores one pair (see [`form_pair`]); `None` to go on.
fn store_pair(b: Json, keys: Vec<Vec<u8>>, text: Vec<u8>, pair: &[u8]) -> (r: (Json, Vec<Vec<u8>>, Vec<u8>, Option<FormEnd>))
    requires
        !(form_pair(b.view(), pieces_view(keys@), text@, pair@) matches PairOut::End(FormOut::Stuck)),
    ensures
        match form_pair(b.view(), pieces_view(keys@), text@, pair@) {
            PairOut::Next(t, k, x) => r.0.view() == t && pieces_view(r.1@) == k && r.2@ == x
                && r.3 is None,
            PairOut::End(FormOut::BadUtf8(t, k, x)) => r.0.view() == t && pieces_view(r.1@) == k
                && r.2@ == x && r.3 == Some(FormEnd::BadUtf8),
            PairOut::End(FormOut::NotArray(t, k, x)) => r.0.view() == t && pieces_view(r.1@) == k
                && r.2@ == x && r.3 == Some(FormEnd::NotArray),
            _ => false,
        },
{
    let parts = split_bytes(pair, 61u8);
    let pattern = parts[0].as_slice();
    proof {
        assert(pieces_view(parts@)[0] == parts@[0]@);
        if parts@.len() > 1 {
            assert(pieces_view(parts@)[1] == parts@[1]@);
        }
    }
    let empty: [u8; 0] = [];
    let value: &[u8] = if parts.len() > 1 {
        parts[1].as_slice()
    } else {
        empty.as_slice()
    };
    assert(pattern@ == pair_parts(pair@).0);
    assert(value@ == pair_parts(pair@).1);
    if crate::text::utf8_str(pattern).is_none() || crate::text::utf8_str(value).is_none() {
        return (b, keys, text, Some(FormEnd::BadUtf8));
    }
    let ks = pattern_keys_exec(pattern);
    store_value(b, ks, value)
}

/// Stores the decoded form body `decoded` (see [`form_fold`]).
pub open spec fn form_after(b: JsonV, keys: Seq<Seq<u8>>, text: Seq<u8>, decoded: Seq<u8>) -> FormOut {
    form_fold(b, keys, text, split_on(decoded, 38), 0)
}

/// How storing a form body ended.
pub enum FormEnd {
    Done,
    BadUtf8,
    NotArray,
}

/// Stores the decoded form body `decoded` into the tree `b`; gives the
/// tree, the last member path, the last field text and how it ended.
pub fn store_form(b: Json, keys: Vec<Vec<u8>>, text: Vec<u8>, decoded: &[u8]) -> (r: (Json, Vec<Vec<u8>>, Vec<u8>, FormEnd))
    requires
        !(form_after(b.view(), pieces_view(keys@), text@, decoded@) is Stuck),
    ensures
        match form_after(b.view(), pieces_view(keys@), text@, decoded@) {
            FormOut::Done(t, k, x) => r.0.view() == t && pieces_view(r.1@) == k && r.2@ == x
                && r.3 is Done,
            FormOut::BadUtf8(t, k, x) => r.0.view() == t && pieces_view(r.1@) == k && r.2@ == x
                && r.3 is BadUtf8,
            FormOut::NotArray(t, k, x) => r.0.view() == t && pieces_view(r.1@) == k && r.2@ == x
                && r.3 is NotArray,
            FormOut::Stuck => false,
        },
{
    let pairs = split_bytes(decoded, 38u8);
    let ghost pv = pieces_view(pairs@);
    let ghost goal = form_after(b.view(), pieces_view(keys@), text@, decoded@);
    let mut tree = b;
    let mut cur_keys = keys;
    let mut cur_text = text;
    let mut k: usize = 0;
    while k < pairs.len()
        invariant
            k <= pairs@.len(),
            pv == pieces_view(pairs@),
            pv == split_on(decoded@, 38),
            form_fold(tree.view(), pieces_view(cur_keys@), cur_text@, pv, k as int) == goal,
            goal == form_after(b.view(), pieces_view(keys@), text@, decoded@),
            !(goal is Stuck),
        decreases pairs@.len() - k,
    {
        proof {
            assert(pairs@[k as int]@ == pv[k as int]);
        }
        let (t, ks, x, end) = store_pair(tree, cur_keys, cur_text, pairs[k].as_slice());
        tree = t;
        cur_keys = ks;
        cur_text = x;
        match end {
            Some(e) => {
                return (tree, cur_keys, cur_text, e);
            },
            None => {},
        }
        k = k + 1;
    }
    (tree, cur_keys, cur_text, FormEnd::Done)
}

} // verus!
