//! The context that a request reader hands to a handler:
//! `{"_state": {addr, cookie, headers, method, path, protocol, topic},
//!   "params": {files, body, query}}`.
use vstd::prelude::*;
use vstd::string::StringSliceAdditionalSpecFns;
use crate::json::{entries_view, lemma_object_view, Json, JsonV};

verus! {

/// The context of a request or message.
pub struct RequestCtx {
    /// `None` where the protocol's context has no `addr` member.
    pub addr: Option<Json>,
    /// Members of `cookie`, each a string.
    pub cookie: Vec<(Vec<u8>, Json)>,
    /// Members of `headers`, each a string.
    pub headers: Vec<(Vec<u8>, Json)>,
    pub method: Json,
    pub path: Json,
    pub protocol: Vec<u8>,
    pub topic: Json,
    pub files: Json,
    pub body: Json,
    pub query: Json,
}

/// [`RequestCtx`] as values.
pub struct CtxV {
    pub addr: Option<JsonV>,
    pub cookie: Seq<(Seq<u8>, JsonV)>,
    pub headers: Seq<(Seq<u8>, JsonV)>,
    pub method: JsonV,
    pub path: JsonV,
    pub protocol: Seq<u8>,
    pub topic: JsonV,
    pub files: JsonV,
    pub body: JsonV,
    pub query: JsonV,
}

impl RequestCtx {
    pub open spec fn view(&self) -> CtxV {
        CtxV {
            addr: match self.addr {
                Some(a) => Some(a.view()),
                None => None,
            },
            cookie: entries_view(self.cookie@),
            headers: entries_view(self.headers@),
            method: self.method.view(),
            path: self.path.view(),
            protocol: self.protocol@,
            topic: self.topic.view(),
            files: self.files.view(),
            body: self.body.view(),
            query: self.query.view(),
        }
    }

    /// A copy.
    pub fn deep_clone(&self) -> (r: RequestCtx)
        ensures
            r@ == self@,
    {
        RequestCtx {
            addr: match &self.addr {
                Some(a) => Some(a.deep_clone()),
                None => None,
            },
            cookie: clone_entries(&self.cookie),
            headers: clone_entries(&self.headers),
            method: self.method.deep_clone(),
            path: self.path.deep_clone(),
            protocol: vstd::slice::slice_to_vec(self.protocol.as_slice()),
            topic: self.topic.deep_clone(),
            files: self.files.deep_clone(),
            body: self.body.deep_clone(),
            query: self.query.deep_clone(),
        }
    }
}

fn clone_entries(e: &Vec<(Vec<u8>, Json)>) -> (r: Vec<(Vec<u8>, Json)>)
    ensures
        entries_view(r@) == entries_view(e@),
{
    let mut out: Vec<(Vec<u8>, Json)> = Vec::new();
    let mut i: usize = 0;
    while i < e.len()
        invariant
            i <= e@.len(),
            out@.len() == i,
            forall|k: int|
                0 <= k < i ==> (#[trigger] out@[k]).0@ == e@[k].0@ && out@[k].1.view() == e@[k].1.view(),
        decreases e@.len() - i,
    {
        out.push((vstd::slice::slice_to_vec(e[i].0.as_slice()), e[i].1.deep_clone()));
        i = i + 1;
    }
    assert(entries_view(out@) =~= entries_view(e@));
    out
}

/// The bytes of a text.
pub fn text_bytes(s: &str) -> (r: Vec<u8>)
    ensures
        r@ == s.spec_bytes(),
{
    vstd::slice::slice_to_vec(s.as_bytes())
}

/// A string value.
pub fn str_json(s: &str) -> (r: Json)
    ensures
        r.view() == JsonV::Str(s.spec_bytes()),
{
    Json::Str(text_bytes(s))
}

/// The empty object.
pub fn empty_object_json() -> (r: Json)
    ensures
        r.view() == JsonV::Object(Seq::empty()),
{
    let e: Vec<(Vec<u8>, Json)> = Vec::new();
    proof {
        lemma_object_view(e);
        assert(entries_view(e@) =~= Seq::<(Seq<u8>, JsonV)>::empty());
    }
    Json::Object(e)
}

/// A context with empty cookie, headers and parameters.
pub open spec fn fresh_ctx(
    addr: Option<JsonV>,
    method: JsonV,
    path: JsonV,
    protocol: Seq<u8>,
    topic: JsonV,
) -> CtxV {
    CtxV {
        addr,
        cookie: seq![],
        headers: seq![],
        method,
        path,
        protocol,
        topic,
        files: JsonV::Object(seq![]),
        body: JsonV::Object(seq![]),
        query: JsonV::Object(seq![]),
    }
}

/// Builds a context with empty cookie, headers and parameters.
pub fn make_ctx(addr: Option<Json>, method: Json, path: Json, protocol: &str, topic: Json) -> (r: RequestCtx)
    ensures
        r@ == fresh_ctx(
            match addr {
                Some(a) => Some(a.view()),
                None => None,
            },
            method.view(),
            path.view(),
            protocol.spec_bytes(),
            topic.view(),
        ),
{
    let r = RequestCtx {
        addr,
        cookie: Vec::new(),
        headers: Vec::new(),
        method,
        path,
        protocol: text_bytes(protocol),
        topic,
        files: empty_object_json(),
        body: empty_object_json(),
        query: empty_object_json(),
    };
    assert(entries_view(r.cookie@) =~= Seq::<(Seq<u8>, JsonV)>::empty());
    assert(entries_view(r.headers@) =~= Seq::<(Seq<u8>, JsonV)>::empty());
    r
}

} // verus!
