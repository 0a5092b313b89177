//! The JSON values that the Responses protocol exchanges, held as plain
//! library values so that the logic reading them can be verified. Numbers
//! that are not `i64` keep their text.
use vstd::prelude::*;
use crate::text::{chars_of, seq_equals, string_of};

verus! {

#[derive(Debug)]
pub enum Json {
    Null,
    Bool(bool),
    Int(i64),
    /// A number outside `i64` (a float or a large unsigned), as written.
    Number(String),
    Str(String),
    Array(Vec<Json>),
    /// Members in order; keys are distinct.
    Object(Vec<(String, Json)>),
}

/// The mathematical value of a JSON document.
pub enum JsonV {
    Null,
    Bool(bool),
    Int(i64),
    Number(Seq<char>),
    Str(Seq<char>),
    Array(Seq<JsonV>),
    Object(Seq<(Seq<char>, JsonV)>),
}

/// The mathematical value of a JSON document.
pub open spec fn json_view(j: Json) -> JsonV
    decreases j,
{
    match j {
        Json::Null => JsonV::Null,
        Json::Bool(b) => JsonV::Bool(b),
        Json::Int(n) => JsonV::Int(n),
        Json::Number(t) => JsonV::Number(t@),
        Json::Str(s) => JsonV::Str(s@),
        Json::Array(items) => JsonV::Array(
            Seq::new(
                items@.len(),
                |i: int|
                    {
                        if 0 <= i < items@.len() {
                            json_view(items@[i])
                        } else {
                            JsonV::Null
                        }
                    },
            ),
        ),
        Json::Object(members) => JsonV::Object(
            Seq::new(
                members@.len(),
                |i: int|
                    {
                        if 0 <= i < members@.len() {
                            (members@[i].0@, json_view(members@[i].1))
                        } else {
                            (Seq::empty(), JsonV::Null)
                        }
                    },
            ),
        ),
    }
}

impl View for Json {
    type V = JsonV;

    open spec fn view(&self) -> JsonV {
        json_view(*self)
    }
}

/// Index of the first member named `key`.
pub open spec fn member_index(members: Seq<(Seq<char>, JsonV)>, key: Seq<char>, k: int) -> bool {
    &&& 0 <= k < members.len()
    &&& members[k].0 == key
    &&& forall|j: int| 0 <= j < k ==> members[j].0 != key
}

/// A key has at most one first position.
pub proof fn lemma_member_index_unique(members: Seq<(Seq<char>, JsonV)>, key: Seq<char>, a: int, b: int)
    requires
        member_index(members, key, a),
        member_index(members, key, b),
    ensures
        a == b,
{
    if a < b {
        assert(members[a].0 == key);
    } else if b < a {
        assert(members[b].0 == key);
    }
}

/// The member `key` of an object (`Value::get` with a string key).
pub open spec fn get_spec(v: JsonV, key: Seq<char>) -> Option<JsonV> {
    match v {
        JsonV::Object(members) => if exists|k: int| member_index(members, key, k) {
            Some(members[choose|k: int| member_index(members, key, k)].1)
        } else {
            None
        },
        _ => None,
    }
}

/// The member `key` of an object whose members hold `key` at `k` first.
pub proof fn lemma_get_at(members: Seq<(Seq<char>, JsonV)>, key: Seq<char>, k: int)
    requires
        member_index(members, key, k),
    ensures
        get_spec(JsonV::Object(members), key) == Some(members[k].1),
{
    let c = choose|c: int| member_index(members, key, c);
    lemma_member_index_unique(members, key, c, k);
}

/// An object without a member `key` gives none.
pub proof fn lemma_get_absent(members: Seq<(Seq<char>, JsonV)>, key: Seq<char>)
    requires
        forall|i: int| 0 <= i < members.len() ==> #[trigger] members[i].0 != key,
    ensures
        get_spec(JsonV::Object(members), key) is None,
{
}

/// Members before the first `key` do not matter.
pub proof fn lemma_get_skip(a: Seq<(Seq<char>, JsonV)>, b: Seq<(Seq<char>, JsonV)>, key: Seq<char>)
    requires
        forall|i: int| 0 <= i < a.len() ==> #[trigger] a[i].0 != key,
    ensures
        get_spec(JsonV::Object(a + b), key) == get_spec(JsonV::Object(b), key),
{
    let ab = a + b;
    if exists|k: int| member_index(b, key, k) {
        let k = choose|k: int| member_index(b, key, k);
        assert forall|j: int| 0 <= j < a.len() + k implies ab[j].0 != key by {
            if j < a.len() {
                assert(ab[j] == a[j]);
            } else {
                assert(ab[j] == b[j - a.len()]);
            }
        }
        assert(member_index(ab, key, a.len() + k));
        lemma_get_at(ab, key, a.len() + k);
        lemma_get_at(b, key, k);
    } else {
        if exists|k: int| member_index(ab, key, k) {
            let k = choose|k: int| member_index(ab, key, k);
            if k < a.len() {
                assert(ab[k] == a[k]);
            } else {
                assert forall|j: int| 0 <= j < k - a.len() implies b[j].0 != key by {
                    assert(ab[j + a.len()] == b[j]);
                }
                assert(ab[k] == b[k - a.len()]);
                assert(member_index(b, key, k - a.len()));
            }
        }
    }
}

/// Members after the first `key` do not matter.
pub proof fn lemma_get_keep(a: Seq<(Seq<char>, JsonV)>, b: Seq<(Seq<char>, JsonV)>, key: Seq<char>)
    requires
        get_spec(JsonV::Object(a), key) is Some,
    ensures
        get_spec(JsonV::Object(a + b), key) == get_spec(JsonV::Object(a), key),
{
    let k = choose|k: int| member_index(a, key, k);
    let ab = a + b;
    assert forall|j: int| 0 <= j < k implies ab[j].0 != key by {
        assert(ab[j] == a[j]);
    }
    assert(ab[k] == a[k]);
    assert(member_index(ab, key, k));
    lemma_get_at(ab, key, k);
    lemma_get_at(a, key, k);
}

/// Replacing the value of one member leaves every other key's member.
pub proof fn lemma_get_update_other(
    members: Seq<(Seq<char>, JsonV)>,
    j: int,
    v: (Seq<char>, JsonV),
    key: Seq<char>,
)
    requires
        0 <= j < members.len(),
        v.0 == members[j].0,
        key != members[j].0,
    ensures
        get_spec(JsonV::Object(members.update(j, v)), key) == get_spec(JsonV::Object(members), key),
{
    let u = members.update(j, v);
    assert forall|k: int| member_index(u, key, k) <==> member_index(members, key, k) by {
        assert forall|i: int| 0 <= i < members.len() implies u[i].0 == members[i].0 by {}
    }
    if exists|k: int| member_index(members, key, k) {
        let k = choose|k: int| member_index(members, key, k);
        assert(member_index(u, key, k));
        lemma_get_at(u, key, k);
        lemma_get_at(members, key, k);
    }
}

/// The string held by a value (`Value::as_str`).
pub open spec fn as_str_spec(v: JsonV) -> Option<Seq<char>> {
    match v {
        JsonV::Str(s) => Some(s),
        _ => None,
    }
}

/// The string member `key` of an object, if it is one.
pub open spec fn str_member(v: JsonV, key: Seq<char>) -> Option<Seq<char>> {
    match get_spec(v, key) {
        Some(m) => as_str_spec(m),
        None => None,
    }
}

/// The integer member `key`, if it is an `i64`.
pub open spec fn int_member(v: JsonV, key: Seq<char>) -> Option<i64> {
    match get_spec(v, key) {
        Some(JsonV::Int(n)) => Some(n),
        _ => None,
    }
}

impl Json {
    /// The member `key` of an object.
    pub fn get(&self, key: &str) -> (r: Option<&Json>)
        ensures
            match (r, get_spec(self@, key@)) {
                (None, None) => true,
                (Some(x), Some(y)) => x@ == y,
                _ => false,
            },
    {
        match self {
            Json::Object(members) => {
                let k = chars_of(key);
                let mut i: usize = 0;
                let ghost mv = match self@ {
                    JsonV::Object(m) => m,
                    _ => Seq::empty(),
                };
                assert(mv.len() == members@.len());
                while i < members.len()
                    invariant
                        i <= members.len(),
                        mv.len() == members@.len(),
                        k@ == key@,
                        self@ == JsonV::Object(mv),
                        forall|j: int| 0 <= j < members@.len() ==> mv[j] == (#[trigger] members@[j].0@, members@[j].1@),
                        forall|j: int| 0 <= j < i ==> mv[j].0 != key@,
                    decreases members.len() - i,
                {
                    let name = chars_of(members[i].0.as_str());
                    assert(mv[i as int] == (members@[i as int].0@, members@[i as int].1@));
                    assert(mv[i as int].0 == name@);
                    if seq_equals(name.as_slice(), k.as_slice()) {
                        assert(name@ == k@);
                        assert(k@ == key@);
                        assert(mv[i as int].0 == key@);
                        assert(member_index(mv, key@, i as int));
                        proof {
                            let c = choose|c: int| member_index(mv, key@, c);
                            if c < i {
                            } else if c > i {
                                assert(mv[i as int].0 == key@);
                            }
                        }
                        return Some(&members[i].1);
                    }
                    i += 1;
                }
                None
            },
            _ => None,
        }
    }

    /// The string held by this value.
    pub fn as_str(&self) -> (r: Option<&String>)
        ensures
            match (r, as_str_spec(self@)) {
                (None, None) => true,
                (Some(x), Some(y)) => x@ == y,
                _ => false,
            },
    {
        match self {
            Json::Str(s) => Some(s),
            _ => None,
        }
    }

    /// The string member `key`, if there is one.
    pub fn str_member(&self, key: &str) -> (r: Option<&String>)
        ensures
            match (r, str_member(self@, key@)) {
                (None, None) => true,
                (Some(x), Some(y)) => x@ == y,
                _ => false,
            },
    {
        match self.get(key) {
            Some(m) => m.as_str(),
            None => None,
        }
    }

    /// Whether the string member `key` equals `expected`.
    pub fn str_member_is(&self, key: &str, expected: &str) -> (r: bool)
        ensures
            r == (str_member(self@, key@) == Some(expected@)),
    {
        match self.str_member(key) {
            Some(s) => {
                let a = chars_of(s.as_str());
                let b = chars_of(expected);
                seq_equals(a.as_slice(), b.as_slice())
            },
            None => false,
        }
    }

    /// The integer member `key`, if it is an `i64`.
    pub fn int_member(&self, key: &str) -> (r: Option<i64>)
        ensures
            r == int_member(self@, key@),
    {
        match self.get(key) {
            Some(Json::Int(n)) => Some(*n),
            _ => None,
        }
    }

    /// A copy of this value.
    pub fn copy(&self) -> (r: Json)
        ensures
            r@ == self@,
        decreases self,
    {
        match self {
            Json::Null => Json::Null,
            Json::Bool(b) => Json::Bool(*b),
            Json::Int(n) => Json::Int(*n),
            Json::Number(t) => Json::Number(t.clone()),
            Json::Str(s) => Json::Str(s.clone()),
            Json::Array(items) => {
                let mut out: Vec<Json> = Vec::new();
                let mut i: usize = 0;
                proof {
                    assert forall|j: int| 0 <= j < items@.len() implies decreases_to!(*self => items@[j]) by {
                        assert(decreases_to!(*self => *items));
                        assert(decreases_to!(*items => items@));
                        assert(decreases_to!(items@ => items@[j]));
                    }
                }
                while i < items.len()
                    invariant
                        forall|j: int| 0 <= j < items@.len() ==> decreases_to!(*self => items@[j]),
                        i <= items.len(),
                        out@.len() == i,
                        forall|j: int| 0 <= j < i ==> (#[trigger] out@[j])@ == items@[j]@,
                    decreases items.len() - i,
                {
                    proof {
                        assert(decreases_to!(*self => items@[i as int]));
                    }
                    let c = items[i].copy();
                    out.push(c);
                    i += 1;
                }
                let r = Json::Array(out);
                assert(r@ == self@) by {
                    let a = match r@ {
                        JsonV::Array(x) => x,
                        _ => Seq::empty(),
                    };
                    let b = match self@ {
                        JsonV::Array(x) => x,
                        _ => Seq::empty(),
                    };
                    assert(a =~= b);
                }
                r
            },
            Json::Object(members) => {
                let mut out: Vec<(String, Json)> = Vec::new();
                let mut i: usize = 0;
                proof {
                    assert forall|j: int| 0 <= j < members@.len() implies decreases_to!(*self => members@[j].1) by {
                        assert(decreases_to!(*self => *members));
                        assert(decreases_to!(*members => members@));
                        assert(decreases_to!(members@ => members@[j]));
                        assert(decreases_to!(members@[j] => members@[j].1));
                    }
                }
                while i < members.len()
                    invariant
                        forall|j: int| 0 <= j < members@.len() ==> decreases_to!(*self => members@[j].1),
                        i <= members.len(),
                        out@.len() == i,
                        forall|j: int|
                            0 <= j < i ==> (#[trigger] out@[j]).0@ == members@[j].0@ && out@[j].1@
                                == members@[j].1@,
                    decreases members.len() - i,
                {
                    proof {
                        assert(decreases_to!(*self => members@[i as int].1));
                    }
                    let c = members[i].1.copy();
                    out.push((members[i].0.clone(), c));
                    i += 1;
                }
                let r = Json::Object(out);
                assert(r@ == self@) by {
                    let a = match r@ {
                        JsonV::Object(x) => x,
                        _ => Seq::empty(),
                    };
                    let b = match self@ {
                        JsonV::Object(x) => x,
                        _ => Seq::empty(),
                    };
                    assert(a =~= b);
                }
                r
            },
        }
    }
}

/// A JSON string.
pub fn json_str(s: &str) -> (r: Json)
    ensures
        r@ == JsonV::Str(s@),
{
    Json::Str(string_of(chars_of(s).as_slice()))
}

/// The value at a path of object keys (`Value::pointer` without array steps).
pub open spec fn pointer_spec(v: JsonV, path: Seq<Seq<char>>) -> Option<JsonV>
    decreases path.len(),
{
    if path.len() == 0 {
        Some(v)
    } else {
        match get_spec(v, path[0]) {
            Some(m) => pointer_spec(m, path.drop_first()),
            None => None,
        }
    }
}

impl Json {
    /// The value reached by following object keys.
    pub fn pointer(&self, path: &[&str]) -> (r: Option<&Json>)
        ensures
            match (r, pointer_spec(self@, path@.map_values(|s: &str| s@))) {
                (None, None) => true,
                (Some(x), Some(y)) => x@ == y,
                _ => false,
            },
    {
        let ghost p = path@.map_values(|s: &str| s@);
        let mut cur: &Json = self;
        let mut i: usize = 0;
        assert(p.skip(0) =~= p);
        while i < path.len()
            invariant
                i <= path@.len(),
                p == path@.map_values(|s: &str| s@),
                pointer_spec(self@, p) == pointer_spec(cur@, p.skip(i as int)),
            decreases path@.len() - i,
        {
            assert(p.skip(i as int)[0] == path@[i as int]@);
            assert(p.skip(i as int).drop_first() =~= p.skip(i + 1));
            match cur.get(path[i]) {
                Some(next) => {
                    cur = next;
                },
                None => {
                    return None;
                },
            }
            i += 1;
        }
        assert(p.skip(i as int) =~= Seq::<Seq<char>>::empty());
        Some(cur)
    }

    /// The object members of this value, if it is an object.
    pub fn is_object(&self) -> (r: bool)
        ensures
            r == (self@ is Object),
    {
        match self {
            Json::Object(_) => true,
            _ => false,
        }
    }
}

pub open spec fn views(items: Seq<Json>) -> Seq<JsonV> {
    items.map_values(|j: Json| j@)
}

/// Members of an object as a sequence of views.
pub open spec fn member_views(m: Seq<(String, Json)>) -> Seq<(Seq<char>, JsonV)> {
    m.map_values(|e: (String, Json)| (e.0@, e.1@))
}

pub proof fn lemma_array_view(v: Vec<Json>)
    ensures
        Json::Array(v)@ == JsonV::Array(views(v@)),
{
    assert(views(v@) =~= match Json::Array(v)@ {
        JsonV::Array(x) => x,
        _ => Seq::empty(),
    });
}

pub proof fn lemma_object_view(m: Vec<(String, Json)>)
    ensures
        Json::Object(m)@ == JsonV::Object(member_views(m@)),
{
    assert(member_views(m@) =~= match Json::Object(m)@ {
        JsonV::Object(x) => x,
        _ => Seq::empty(),
    });
}

} // verus!
