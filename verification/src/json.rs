use vstd::prelude::*;

verus! {

/// Mathematical image of a [`Json`] document.  Numbers that fit 64 bits
/// are integers; any other number — fractional, exponent-bearing or out
/// of range — is kept as its literal text, printed back verbatim and
/// compared textually, so that no rounding ever touches a payload.
#[verifier::ext_equal]
pub enum JsonV {
    Null,
    Bool(bool),
    Int(int),
    Num(Seq<char>),
    Str(Seq<char>),
    Arr(Seq<JsonV>),
    Obj(Seq<(Seq<char>, JsonV)>),
}

/// A generic JSON document tree: the form in which the store is persisted
/// and over which the generic resolver evaluates.  Object members keep
/// their order; lookups take the first binding of a key.
#[derive(Debug, PartialEq)]
pub enum Json {
    Null,
    Bool(bool),
    Int(i64),
    Num(String),
    Str(String),
    Arr(Vec<Json>),
    Obj(Vec<(String, Json)>),
}

/// The views of the elements of a JSON array.  The range guard keeps the
/// recursion inside the sequence, where elements are smaller than the whole.
pub open spec fn arr_views(items: Seq<Json>) -> Seq<JsonV>
    decreases items,
{
    Seq::new(
        items.len(),
        |i: int|
            if 0 <= i < items.len() {
                items[i]@
            } else {
                JsonV::Null
            },
    )
}

/// The views of the members of a JSON object.
pub open spec fn obj_views(members: Seq<(String, Json)>) -> Seq<(Seq<char>, JsonV)>
    decreases members,
{
    Seq::new(
        members.len(),
        |i: int|
            if 0 <= i < members.len() {
                (members[i].0@, members[i].1@)
            } else {
                (Seq::empty(), JsonV::Null)
            },
    )
}

impl View for Json {
    type V = JsonV;

    open spec fn view(&self) -> JsonV
        decreases self,
    {
        match self {
            Json::Null => JsonV::Null,
            Json::Bool(b) => JsonV::Bool(*b),
            Json::Int(i) => JsonV::Int(*i as int),
            Json::Num(t) => JsonV::Num(t@),
            Json::Str(s) => JsonV::Str(s@),
            Json::Arr(items) => JsonV::Arr(arr_views(items@)),
            Json::Obj(members) => JsonV::Obj(obj_views(members@)),
        }
    }
}

/// The first binding of `key` among `members`, if any.
pub open spec fn obj_lookup(members: Seq<(Seq<char>, JsonV)>, key: Seq<char>) -> Option<JsonV>
    decreases members.len(),
{
    if members.len() == 0 {
        None
    } else if members[0].0 == key {
        Some(members[0].1)
    } else {
        obj_lookup(members.drop_first(), key)
    }
}

/// The value bound to `key` where `doc` is an object that binds it.
pub open spec fn doc_lookup(doc: JsonV, key: Seq<char>) -> Option<JsonV> {
    match doc {
        JsonV::Obj(members) => obj_lookup(members, key),
        _ => None,
    }
}

/// Superset match: every binding of `fields` is present in `doc` with an
/// equal value.  A document that is not an object matches only an empty
/// list of fields.
pub open spec fn superset_match(doc: JsonV, fields: Seq<(Seq<char>, JsonV)>) -> bool {
    forall|i: int|
        0 <= i < fields.len() ==> doc_lookup(doc, (#[trigger] fields[i]).0) == Some(fields[i].1)
}

impl Json {
    /// Structural equality of two documents.
    #[verifier::loop_isolation(false)]
    pub fn same_as(&self, other: &Json) -> (r: bool)
        ensures
            r == (self@ == other@),
        decreases *self,
    {
        match self {
            Json::Null => {
                let r = matches!(other, Json::Null);
                proof {
                    if r {
                        assert(self@ =~= other@);
                    }
                }
                r
            },
            Json::Bool(a) => {
                let r = match other {
                    Json::Bool(b) => *a == *b,
                    _ => false,
                };
                proof {
                    if r {
                        assert(self@ =~= other@);
                    }
                }
                r
            },
            Json::Int(a) => {
                let r = match other {
                    Json::Int(b) => *a == *b,
                    _ => false,
                };
                proof {
                    if r {
                        assert(self@ =~= other@);
                    }
                }
                r
            },
            Json::Num(a) => {
                let r = match other {
                    Json::Num(b) => *a == *b,
                    _ => false,
                };
                proof {
                    if r {
                        assert(self@ =~= other@);
                    }
                }
                r
            },
            Json::Str(a) => {
                let r = match other {
                    Json::Str(b) => *a == *b,
                    _ => false,
                };
                proof {
                    if r {
                        assert(self@ =~= other@);
                    }
                }
                r
            },
            Json::Arr(a) => {
                let b = match other {
                    Json::Arr(b) => b,
                    _ => {
                        proof {
                            assert(self@ != other@);
                        }
                        return false;
                    },
                };
                if a.len() != b.len() {
                    proof {
                        assert(self@->Arr_0.len() != other@->Arr_0.len());
                    }
                    return false;
                }
                let mut i: usize = 0;
                while i < a.len()
                    invariant
                        i <= a@.len(),
                        a@.len() == b@.len(),
                        self@ == JsonV::Arr(arr_views(a@)),
                        other@ == JsonV::Arr(arr_views(b@)),
                        forall|k: int| 0 <= k < i ==> #[trigger] a@[k]@ == b@[k]@,
                    decreases a@.len() - i,
                {
                    proof {
                        assert(*a == self->Arr_0);
                        assert(decreases_to!(*self => self->Arr_0));
                        assert(decreases_to!(*a => a@));
                        assert(decreases_to!(a@ => a@[i as int]));
                    }
                    if !a[i].same_as(&b[i]) {
                        proof {
                            assert(arr_views(a@)[i as int] != arr_views(b@)[i as int]);
                        }
                        return false;
                    }
                    i = i + 1;
                }
                proof {
                    assert forall|k: int| 0 <= k < a@.len() implies arr_views(a@)[k] == arr_views(
                        b@,
                    )[k] by {
                        assert(a@[k]@ == b@[k]@);
                    }
                    assert(arr_views(a@) =~= arr_views(b@));
                }
                true
            },
            Json::Obj(a) => {
                let b = match other {
                    Json::Obj(b) => b,
                    _ => {
                        proof {
                            assert(self@ != other@);
                        }
                        return false;
                    },
                };
                if a.len() != b.len() {
                    proof {
                        assert(*a == self->Obj_0 && *b == other->Obj_0);
                        assert(self@->Obj_0 == obj_views(a@));
                        assert(other@->Obj_0 == obj_views(b@));
                        assert(obj_views(a@).len() == a@.len());
                        assert(obj_views(b@).len() == b@.len());
                        assert(self@->Obj_0.len() != other@->Obj_0.len());
                    }
                    return false;
                }
                let mut i: usize = 0;
                while i < a.len()
                    invariant
                        i <= a@.len(),
                        a@.len() == b@.len(),
                        self@ == JsonV::Obj(obj_views(a@)),
                        other@ == JsonV::Obj(obj_views(b@)),
                        forall|k: int|
                            0 <= k < i ==> (#[trigger] a@[k]).0@ == b@[k].0@ && a@[k].1@
                                == b@[k].1@,
                    decreases a@.len() - i,
                {
                    if !(a[i].0 == b[i].0) {
                        proof {
                            assert(obj_views(a@)[i as int].0 != obj_views(b@)[i as int].0);
                        }
                        return false;
                    }
                    proof {
                        assert(*a == self->Obj_0);
                        assert(decreases_to!(*self => self->Obj_0));
                        assert(decreases_to!(*a => a@));
                        assert(decreases_to!(a@ => a@[i as int]));
                        assert(decreases_to!(a@[i as int] => a@[i as int].1));
                    }
                    if !a[i].1.same_as(&b[i].1) {
                        proof {
                            assert(obj_views(a@)[i as int].1 != obj_views(b@)[i as int].1);
                        }
                        return false;
                    }
                    proof {
                        let ghost prev = i as int;
                        assert(a@[prev].0@ == b@[prev].0@ && a@[prev].1@ == b@[prev].1@);
                    }
                    i = i + 1;
                }
                proof {
                    assert forall|k: int| 0 <= k < a@.len() implies obj_views(a@)[k] == obj_views(
                        b@,
                    )[k] by {
                        assert(a@[k].0@ == b@[k].0@ && a@[k].1@ == b@[k].1@);
                    }
                    assert(obj_views(a@) =~= obj_views(b@));
                }
                true
            },
        }
    }

    /// The first value bound to `key` where this document is an object.
    #[verifier::loop_isolation(false)]
    pub fn get<'a>(&'a self, key: &String) -> (r: Option<&'a Json>)
        ensures
            match r {
                Some(v) => doc_lookup(self@, key@) == Some(v@),
                None => doc_lookup(self@, key@) is None,
            },
    {
        match self {
            Json::Obj(members) => {
                let ghost ms = obj_views(members@);
                proof {
                    assert(ms.skip(0) =~= ms);
                }
                let mut i: usize = 0;
                while i < members.len()
                    invariant
                        i <= members@.len(),
                        ms == obj_views(members@),
                        ms.len() == members@.len(),
                        obj_lookup(ms, key@) == obj_lookup(ms.skip(i as int), key@),
                    decreases members@.len() - i,
                {
                    if members[i].0 == *key {
                        proof {
                            assert(ms.skip(i as int)[0] == ms[i as int]);
                            assert(ms[i as int] == (members@[i as int].0@, members@[i as int].1@));
                            reveal_with_fuel(obj_lookup, 2);
                            assert(obj_lookup(ms.skip(i as int), key@) == Some(ms[i as int].1));
                            assert(*self is Obj);
                            assert(self->Obj_0 == *members);
                            assert(self@ == JsonV::Obj(ms));
                        }
                        return Some(&members[i].1);
                    }
                    proof {
                        assert(ms.skip(i as int)[0] == ms[i as int]);
                        assert(ms.skip(i as int).drop_first() =~= ms.skip(i as int + 1));
                        reveal_with_fuel(obj_lookup, 2);
                    }
                    i = i + 1;
                }
                proof {
                    assert(ms.skip(ms.len() as int).len() == 0);
                }
                None
            },
            _ => None,
        }
    }

    /// Whether every binding of `fields` occurs in this document with an
    /// equal value.
    #[verifier::loop_isolation(false)]
    pub fn matches_fields(&self, fields: &Vec<(String, Json)>) -> (r: bool)
        ensures
            r == superset_match(self@, obj_views(fields@)),
    {
        let ghost fs = obj_views(fields@);
        let mut i: usize = 0;
        while i < fields.len()
            invariant
                i <= fields@.len(),
                fs == obj_views(fields@),
                fs.len() == fields@.len(),
                forall|k: int|
                    0 <= k < i ==> doc_lookup(self@, (#[trigger] fs[k]).0) == Some(fs[k].1),
            decreases fields@.len() - i,
        {
            match self.get(&fields[i].0) {
                Some(v) => {
                    if !v.same_as(&fields[i].1) {
                        proof {
                            assert(doc_lookup(self@, fs[i as int].0) != Some(fs[i as int].1));
                        }
                        return false;
                    }
                },
                None => {
                    proof {
                        assert(doc_lookup(self@, fs[i as int].0) != Some(fs[i as int].1));
                    }
                    return false;
                },
            }
            i = i + 1;
        }
        true
    }
}

impl Clone for Json {
    /// A structurally equal copy of the document.
    #[verifier::loop_isolation(false)]
    fn clone(&self) -> (r: Self)
        ensures
            r@ == self@,
        decreases *self,
    {
        match self {
            Json::Null => Json::Null,
            Json::Bool(b) => Json::Bool(*b),
            Json::Int(i) => Json::Int(*i),
            Json::Num(t) => Json::Num(t.clone()),
            Json::Str(s) => Json::Str(s.clone()),
            Json::Arr(items) => {
                let mut out: Vec<Json> = Vec::new();
                let mut i: usize = 0;
                while i < items.len()
                    invariant
                        i <= items@.len(),
                        out@.len() == i,
                        forall|k: int| 0 <= k < i ==> (#[trigger] out@[k])@ == items@[k]@,
                    decreases items@.len() - i,
                {
                    proof {
                        assert(*items == self->Arr_0);
                        assert(decreases_to!(*self => self->Arr_0));
                        assert(decreases_to!(*items => items@));
                        assert(decreases_to!(items@ => items@[i as int]));
                    }
                    let c = items[i].clone();
                    out.push(c);
                    i = i + 1;
                }
                let r = Json::Arr(out);
                proof {
                    assert(arr_views(r->Arr_0@) =~= arr_views(items@));
                    assert(r@ =~= self@);
                }
                r
            },
            Json::Obj(members) => {
                let mut out: Vec<(String, Json)> = Vec::new();
                let mut i: usize = 0;
                while i < members.len()
                    invariant
                        i <= members@.len(),
                        out@.len() == i,
                        forall|k: int|
                            0 <= k < i ==> (#[trigger] out@[k]).0@ == members@[k].0@
                                && out@[k].1@ == members@[k].1@,
                    decreases members@.len() - i,
                {
                    proof {
                        assert(*members == self->Obj_0);
                        assert(decreases_to!(*self => self->Obj_0));
                        assert(decreases_to!(*members => members@));
                        assert(decreases_to!(members@ => members@[i as int]));
                        assert(decreases_to!(members@[i as int] => members@[i as int].1));
                    }
                    let k = members[i].0.clone();
                    let v = members[i].1.clone();
                    out.push((k, v));
                    i = i + 1;
                }
                let r = Json::Obj(out);
                proof {
                    assert(obj_views(r->Obj_0@) =~= obj_views(members@));
                    assert(r@ =~= self@);
                }
                r
            },
        }
    }
}

/// The length of an array's view.
pub broadcast proof fn arr_views_len(items: Seq<Json>)
    ensures
        #[trigger] arr_views(items).len() == items.len(),
{
}

/// One element of an array's view.
pub broadcast proof fn arr_views_index(items: Seq<Json>, i: int)
    requires
        0 <= i < items.len(),
    ensures
        #[trigger] arr_views(items)[i] == items[i]@,
{
}

/// The length of an object's view.
pub broadcast proof fn obj_views_len(members: Seq<(String, Json)>)
    ensures
        #[trigger] obj_views(members).len() == members.len(),
{
}

/// One member of an object's view.
pub broadcast proof fn obj_views_index(members: Seq<(String, Json)>, i: int)
    requires
        0 <= i < members.len(),
    ensures
        #[trigger] obj_views(members)[i] == (members[i].0@, members[i].1@),
{
}

/// How the views of executable documents index.
pub broadcast group group_json_views {
    arr_views_len,
    arr_views_index,
    obj_views_len,
    obj_views_index,
}


} // verus!
