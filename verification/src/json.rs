//! JSON values as the request readers build them: the query, body and file
//! trees of a request context, and the payloads of framed messages.
//!
//! Text is kept as UTF-8 bytes. Objects keep their members in insertion
//! order; assigning to a member that exists replaces its value in place.
use vstd::prelude::*;

verus! {

/// A JSON value. Numbers keep the text they were written with.
#[derive(Debug, PartialEq, Eq)]
pub enum Json {
    Null,
    Bool(bool),
    Number(Vec<u8>),
    Str(Vec<u8>),
    Array(Vec<Json>),
    Object(Vec<(Vec<u8>, Json)>),
}

/// The mathematical picture of a [`Json`] value.
pub enum JsonV {
    Null,
    Bool(bool),
    Number(Seq<u8>),
    Str(Seq<u8>),
    Array(Seq<JsonV>),
    Object(Seq<(Seq<u8>, JsonV)>),
}

impl Json {
    pub open spec fn view(self) -> JsonV
        decreases self,
    {
        match self {
            Json::Null => JsonV::Null,
            Json::Bool(b) => JsonV::Bool(b),
            Json::Number(n) => JsonV::Number(n@),
            Json::Str(s) => JsonV::Str(s@),
            Json::Array(v) => JsonV::Array(
                Seq::new(
                    v@.len(),
                    |i: int|
                        if 0 <= i < v@.len() {
                            v@[i].view()
                        } else {
                            JsonV::Null
                        },
                ),
            ),
            Json::Object(v) => JsonV::Object(
                Seq::new(
                    v@.len(),
                    |i: int|
                        if 0 <= i < v@.len() {
                            (v@[i].0@, v@[i].1.view())
                        } else {
                            (Seq::empty(), JsonV::Null)
                        },
                ),
            ),
        }
    }
}

/// The members of an object, as views.
pub open spec fn entries_view(v: Seq<(Vec<u8>, Json)>) -> Seq<(Seq<u8>, JsonV)> {
    Seq::new(v.len(), |i: int| (v[i].0@, v[i].1.view()))
}

/// The items of an array, as views.
pub open spec fn items_view(v: Seq<Json>) -> Seq<JsonV> {
    Seq::new(v.len(), |i: int| v[i].view())
}

pub proof fn lemma_object_view(v: Vec<(Vec<u8>, Json)>)
    ensures
        Json::Object(v).view() == JsonV::Object(entries_view(v@)),
{
    if let JsonV::Object(e) = Json::Object(v).view() {
        assert(e =~= entries_view(v@));
    }
}

pub proof fn lemma_array_view(v: Vec<Json>)
    ensures
        Json::Array(v).view() == JsonV::Array(items_view(v@)),
{
    if let JsonV::Array(e) = Json::Array(v).view() {
        assert(e =~= items_view(v@));
    }
}

/// The empty object `{}`.
pub open spec fn empty_object() -> JsonV {
    JsonV::Object(Seq::empty())
}

// ---------------------------------------------------------------------------
// Members of an object
// ---------------------------------------------------------------------------

pub open spec fn is_first_key(e: Seq<(Seq<u8>, JsonV)>, k: Seq<u8>, i: int) -> bool {
    &&& 0 <= i < e.len()
    &&& e[i].0 == k
    &&& forall|j: int| 0 <= j < i ==> (#[trigger] e[j]).0 != k
}

/// Index of the member named `k`.
pub open spec fn key_pos(e: Seq<(Seq<u8>, JsonV)>, k: Seq<u8>) -> Option<int> {
    if exists|i: int| is_first_key(e, k, i) {
        Some(choose|i: int| is_first_key(e, k, i))
    } else {
        None
    }
}

pub proof fn lemma_key_pos_is(e: Seq<(Seq<u8>, JsonV)>, k: Seq<u8>, i: int)
    requires
        is_first_key(e, k, i),
    ensures
        key_pos(e, k) == Some(i),
{
    let c = choose|c: int| is_first_key(e, k, c);
    assert(is_first_key(e, k, c));
    if c < i {
        assert(e[c].0 != k);
    } else if i < c {
        assert(e[i].0 != k);
    }
}

pub proof fn lemma_key_pos_none(e: Seq<(Seq<u8>, JsonV)>, k: Seq<u8>)
    requires
        forall|j: int| 0 <= j < e.len() ==> (#[trigger] e[j]).0 != k,
    ensures
        key_pos(e, k) is None,
{
}

/// The member named `k`, if any.
pub open spec fn member(v: JsonV, k: Seq<u8>) -> Option<JsonV> {
    match v {
        JsonV::Object(e) => match key_pos(e, k) {
            Some(i) => Some(e[i].1),
            None => None,
        },
        _ => None,
    }
}

/// `map[k] = v` on the members `e`: replaces the value of `k`, or appends it.
pub open spec fn upsert(e: Seq<(Seq<u8>, JsonV)>, k: Seq<u8>, v: JsonV) -> Seq<(Seq<u8>, JsonV)> {
    match key_pos(e, k) {
        Some(i) => e.update(i, (k, v)),
        None => e.push((k, v)),
    }
}

/// Finds the member named `k`.
pub fn key_index(e: &Vec<(Vec<u8>, Json)>, k: &[u8]) -> (r: Option<usize>)
    ensures
        r matches Some(i) ==> key_pos(entries_view(e@), k@) == Some(i as int) && i < e@.len(),
        r is None ==> key_pos(entries_view(e@), k@) is None,
{
    let ghost ev = entries_view(e@);
    let mut i: usize = 0;
    while i < e.len()
        invariant
            i <= e@.len(),
            ev == entries_view(e@),
            forall|j: int| 0 <= j < i ==> (#[trigger] ev[j]).0 != k@,
        decreases e@.len() - i,
    {
        if crate::text::bytes_equal(e[i].0.as_slice(), k) {
            proof {
                assert(ev[i as int].0 == e@[i as int].0@);
                lemma_key_pos_is(ev, k@, i as int);
            }
            return Some(i);
        }
        assert(ev[i as int].0 == e@[i as int].0@);
        i = i + 1;
    }
    proof {
        lemma_key_pos_none(ev, k@);
    }
    None
}

/// Sets the member `k` of the members `e` to `v` (`map[k] = v`).
pub fn upsert_entry(e: &mut Vec<(Vec<u8>, Json)>, k: Vec<u8>, v: Json)
    ensures
        entries_view(final(e)@) == upsert(entries_view(old(e)@), k@, v.view()),
{
    let ghost kv = k@;
    let ghost vv = v.view();
    match key_index(e, &k) {
        Some(i) => {
            let _old = e.remove(i);
            e.insert(i, (k, v));
            proof {
                assert(entries_view(e@) =~= entries_view(old(e)@).update(i as int, (kv, vv)));
            }
        },
        None => {
            e.push((k, v));
            proof {
                assert(entries_view(e@) =~= entries_view(old(e)@).push((kv, vv)));
            }
        },
    }
}

// ---------------------------------------------------------------------------
// Copies
// ---------------------------------------------------------------------------

/// Copies a byte vector.
pub fn copy_bytes(b: &Vec<u8>) -> (r: Vec<u8>)
    ensures
        r@ == b@,
{
    vstd::slice::slice_to_vec(b.as_slice())
}

impl Json {
    /// A deep copy.
    pub fn deep_clone(&self) -> (r: Json)
        ensures
            r.view() == self.view(),
        decreases self,
    {
        match self {
            Json::Null => Json::Null,
            Json::Bool(b) => Json::Bool(*b),
            Json::Number(n) => Json::Number(copy_bytes(n)),
            Json::Str(s) => Json::Str(copy_bytes(s)),
            Json::Array(items) => {
                let mut out: Vec<Json> = Vec::new();
                let mut i: usize = 0;
                while i < items.len()
                    invariant
                        *self == Json::Array(*items),
                        i <= items@.len(),
                        out@.len() == i,
                        forall|j: int| 0 <= j < i ==> (#[trigger] out@[j]).view() == items@[j].view(),
                    decreases items@.len() - i,
                {
                    proof {
                        assert(decreases_to!(*self => (*self)->Array_0));
                        assert(decreases_to!(*items => items@));
                        assert(decreases_to!(items@ => items@[i as int]));
                        assert(decreases_to!(*self => items@[i as int]));
                    }
                    let c = items[i].deep_clone();
                    out.push(c);
                    i = i + 1;
                }
                proof {
                    lemma_array_view(out);
                    lemma_array_view(*items);
                    assert(items_view(out@) =~= items_view(items@));
                }
                Json::Array(out)
            },
            Json::Object(entries) => {
                let mut out: Vec<(Vec<u8>, Json)> = Vec::new();
                let mut i: usize = 0;
                while i < entries.len()
                    invariant
                        *self == Json::Object(*entries),
                        i <= entries@.len(),
                        out@.len() == i,
                        forall|j: int|
                            0 <= j < i ==> (#[trigger] out@[j]).0@ == entries@[j].0@ && out@[j].1.view()
                                == entries@[j].1.view(),
                    decreases entries@.len() - i,
                {
                    let k = copy_bytes(&entries[i].0);
                    proof {
                        assert(decreases_to!(*self => (*self)->Object_0));
                        assert(decreases_to!(*entries => entries@));
                        assert(decreases_to!(entries@ => entries@[i as int]));
                        assert(decreases_to!(entries@[i as int] => entries@[i as int].1));
                        assert(decreases_to!(*self => entries@[i as int].1));
                    }
                    let c = entries[i].1.deep_clone();
                    out.push((k, c));
                    i = i + 1;
                }
                proof {
                    lemma_object_view(out);
                    lemma_object_view(*entries);
                    assert(entries_view(out@) =~= entries_view(entries@));
                }
                Json::Object(out)
            },
        }
    }
}

// ---------------------------------------------------------------------------
// Nested member paths
// ---------------------------------------------------------------------------

/// The views of a list of keys.
pub open spec fn keys_view(keys: Seq<Vec<u8>>) -> Seq<Seq<u8>> {
    Seq::new(keys.len(), |i: int| keys[i]@)
}

/// Walks `keys` from the object `t`, creating each missing member as an
/// empty object and the last one, if missing, as an empty array; every node
/// walked through must be an object (`None` where that fails, or where
/// `keys` is empty).
pub open spec fn ensure_path(t: JsonV, keys: Seq<Seq<u8>>) -> Option<JsonV>
    decreases keys.len(),
{
    if keys.len() == 0 {
        None
    } else {
        match t {
            JsonV::Object(e) => {
                let k = keys[0];
                if keys.len() == 1 {
                    match key_pos(e, k) {
                        Some(_) => Some(t),
                        None => Some(JsonV::Object(e.push((k, JsonV::Array(Seq::empty()))))),
                    }
                } else {
                    let child = match key_pos(e, k) {
                        Some(i) => e[i].1,
                        None => empty_object(),
                    };
                    match ensure_path(child, keys.drop_first()) {
                        Some(c) => Some(JsonV::Object(upsert(e, k, c))),
                        None => None,
                    }
                }
            },
            _ => None,
        }
    }
}

/// Outcome of appending an item at a member path.
pub enum PushOutcome {
    /// The node at the path was an array and got the item.
    Pushed(JsonV),
    /// The node at the path is not an array; the tree as it stands after
    /// the walk.
    NotArray(JsonV),
    /// The walk met a node that is neither an object nor null.
    Stuck,
}

/// Walks `keys` from `t` as `value[key]` does for assignment (a null node
/// becomes an object, a missing member becomes null), then appends `item`
/// to the array found there.
pub open spec fn push_at(t: JsonV, keys: Seq<Seq<u8>>, item: JsonV) -> PushOutcome
    decreases keys.len(),
{
    if keys.len() == 0 {
        match t {
            JsonV::Array(a) => PushOutcome::Pushed(JsonV::Array(a.push(item))),
            _ => PushOutcome::NotArray(t),
        }
    } else {
        let e = match t {
            JsonV::Null => Some(Seq::<(Seq<u8>, JsonV)>::empty()),
            JsonV::Object(e) => Some(e),
            _ => None,
        };
        match e {
            None => PushOutcome::Stuck,
            Some(e) => {
                let k = keys[0];
                let child = match key_pos(e, k) {
                    Some(i) => e[i].1,
                    None => JsonV::Null,
                };
                match push_at(child, keys.drop_first(), item) {
                    PushOutcome::Pushed(c) => PushOutcome::Pushed(JsonV::Object(upsert(e, k, c))),
                    PushOutcome::NotArray(c) => PushOutcome::NotArray(
                        JsonV::Object(upsert(e, k, c)),
                    ),
                    PushOutcome::Stuck => PushOutcome::Stuck,
                }
            },
        }
    }
}

proof fn lemma_keys_view_tail(keys: Seq<Vec<u8>>)
    requires
        keys.len() > 0,
    ensures
        keys_view(keys.subrange(1, keys.len() as int)) == keys_view(keys).drop_first(),
        keys_view(keys)[0] == keys[0]@,
{
    assert(keys_view(keys.subrange(1, keys.len() as int)) =~= keys_view(keys).drop_first());
}

/// Walks `keys` from `t`, creating missing members (see [`ensure_path`]).
pub fn ensure_path_exec(t: Json, keys: &[Vec<u8>]) -> (r: Json)
    requires
        ensure_path(t.view(), keys_view(keys@)) is Some,
    ensures
        r.view() == ensure_path(t.view(), keys_view(keys@))->0,
    decreases keys@.len(),
{
    let ghost kv = keys_view(keys@);
    proof {
        lemma_keys_view_tail(keys@);
    }
    match t {
        Json::Object(mut e) => {
            proof {
                lemma_object_view(e);
            }
            let ghost ev = entries_view(e@);
            let idx = key_index(&e, keys[0].as_slice());
            if keys.len() == 1 {
                match idx {
                    Some(_) => Json::Object(e),
                    None => {
                        let fresh: Vec<Json> = Vec::new();
                        proof {
                            lemma_array_view(fresh);
                        }
                        e.push((copy_bytes(&keys[0]), Json::Array(fresh)));
                        proof {
                            lemma_object_view(e);
                            assert(items_view(Seq::<Json>::empty()) =~= Seq::<JsonV>::empty());
                            assert(entries_view(e@) =~= ev.push(
                                (kv[0], JsonV::Array(Seq::empty())),
                            ));
                        }
                        Json::Object(e)
                    },
                }
            } else {
                let rest = &keys[1..keys.len()];
                assert(rest@ == keys@.subrange(1, keys@.len() as int));
                match idx {
                    Some(i) => {
                        let (k, child) = e.remove(i);
                        let c2 = ensure_path_exec(child, rest);
                        e.insert(i, (k, c2));
                        proof {
                            lemma_object_view(e);
                            assert(entries_view(e@) =~= upsert(ev, kv[0], c2.view()));
                        }
                        Json::Object(e)
                    },
                    None => {
                        let fresh: Vec<(Vec<u8>, Json)> = Vec::new();
                        proof {
                            lemma_object_view(fresh);
                        }
                        let empty: Json = Json::Object(fresh);
                        proof {
                            assert(entries_view(Seq::<(Vec<u8>, Json)>::empty()) =~= Seq::<
                                (Seq<u8>, JsonV),
                            >::empty());
                        }
                        let c2 = ensure_path_exec(empty, rest);
                        e.push((copy_bytes(&keys[0]), c2));
                        proof {
                            lemma_object_view(e);
                            assert(entries_view(e@) =~= upsert(ev, kv[0], c2.view()));
                        }
                        Json::Object(e)
                    },
                }
            }
        },
        _ => {
            proof {
                assert(false);
            }
            Json::Null
        },
    }
}

/// Walks `keys` from `t` and appends `item` to the array there
/// (see [`push_at`]). The flag tells whether the item was appended.
pub fn push_at_exec(t: Json, keys: &[Vec<u8>], item: Json) -> (r: (Json, bool))
    requires
        !(push_at(t.view(), keys_view(keys@), item.view()) is Stuck),
    ensures
        r.1 ==> push_at(t.view(), keys_view(keys@), item.view()) == PushOutcome::Pushed(r.0.view()),
        !r.1 ==> push_at(t.view(), keys_view(keys@), item.view()) == PushOutcome::NotArray(
            r.0.view(),
        ),
    decreases keys@.len(),
{
    let ghost kv = keys_view(keys@);
    let ghost iv = item.view();
    if keys.len() == 0 {
        match t {
            Json::Array(mut a) => {
                proof {
                    lemma_array_view(a);
                }
                let ghost av = items_view(a@);
                a.push(item);
                proof {
                    lemma_array_view(a);
                    assert(items_view(a@) =~= av.push(iv));
                }
                (Json::Array(a), true)
            },
            other => (other, false),
        }
    } else {
        proof {
            lemma_keys_view_tail(keys@);
        }
        let mut e: Vec<(Vec<u8>, Json)> = match t {
            Json::Null => Vec::new(),
            Json::Object(e) => e,
            _ => {
                proof {
                    assert(false);
                }
                Vec::new()
            },
        };
        proof {
            lemma_object_view(e);
            assert(entries_view(Seq::<(Vec<u8>, Json)>::empty()) =~= Seq::<(Seq<u8>, JsonV)>::empty());
        }
        let ghost ev = entries_view(e@);
        let rest = &keys[1..keys.len()];
        assert(rest@ == keys@.subrange(1, keys@.len() as int));
        match key_index(&e, keys[0].as_slice()) {
            Some(i) => {
                let (k, child) = e.remove(i);
                let (c2, ok) = push_at_exec(child, rest, item);
                e.insert(i, (k, c2));
                proof {
                    lemma_object_view(e);
                    assert(entries_view(e@) =~= upsert(ev, kv[0], c2.view()));
                }
                (Json::Object(e), ok)
            },
            None => {
                let (c2, ok) = push_at_exec(Json::Null, rest, item);
                e.push((copy_bytes(&keys[0]), c2));
                proof {
                    lemma_object_view(e);
                    assert(entries_view(e@) =~= upsert(ev, kv[0], c2.view()));
                }
                (Json::Object(e), ok)
            },
        }
    }
}

} // verus!
