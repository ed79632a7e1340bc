//! JSON values as the library reads and changes them, with their model.
//!
//! An object is a list of entries; a lookup finds the first entry with the key, and
//! an insertion replaces that entry's value or appends a new entry, as a JSON map does.
use vstd::prelude::*;
use vstd::string::*;
use crate::text::str_equal;

verus! {

broadcast use vstd::std_specs::vec::group_vec_axioms;

/// A JSON value. A number is held as its JSON text.
#[derive(Debug)]
pub enum Json {
    Null,
    Bool(bool),
    Number(String),
    String(String),
    Array(Vec<Json>),
    Object(Vec<(String, Json)>),
}

/// A JSON value as plain values.
pub enum JsonView {
    Null,
    Bool(bool),
    Number(Seq<char>),
    String(Seq<char>),
    Array(Seq<JsonView>),
    Object(Seq<(Seq<char>, JsonView)>),
}

/// The entries of a JSON object, as plain values.
pub type ObjectView = Seq<(Seq<char>, JsonView)>;

pub open spec fn json_view(j: Json) -> JsonView
    decreases j,
{
    match j {
        Json::Null => JsonView::Null,
        Json::Bool(b) => JsonView::Bool(b),
        Json::Number(n) => JsonView::Number(n@),
        Json::String(s) => JsonView::String(s@),
        Json::Array(a) => JsonView::Array(
            Seq::new(a@.len(), |i: int| if 0 <= i < a@.len() { json_view(a@[i]) } else { JsonView::Null }),
        ),
        Json::Object(o) => JsonView::Object(
            Seq::new(
                o@.len(),
                |i: int|
                    if 0 <= i < o@.len() {
                        (o@[i].0@, json_view(o@[i].1))
                    } else {
                        (Seq::empty(), JsonView::Null)
                    },
            ),
        ),
    }
}

impl View for Json {
    type V = JsonView;

    open spec fn view(&self) -> JsonView {
        json_view(*self)
    }
}

/// The entries of an object, as plain values.
pub open spec fn entries_view(o: Seq<(String, Json)>) -> ObjectView {
    Seq::new(o.len(), |i: int| (o[i].0@, json_view(o[i].1)))
}

pub proof fn lemma_object_view(o: Vec<(String, Json)>)
    ensures
        json_view(Json::Object(o)) == JsonView::Object(entries_view(o@)),
{
    if let JsonView::Object(e) = json_view(Json::Object(o)) {
        assert(e =~= entries_view(o@));
    }
}

/// Index of the first entry with key `k`, or the number of entries where there is none.
pub open spec fn object_index(e: ObjectView, k: Seq<char>) -> int
    decreases e.len(),
{
    if e.len() == 0 {
        0
    } else if e[0].0 == k {
        0
    } else {
        1 + object_index(e.drop_first(), k)
    }
}

pub proof fn lemma_object_index(e: ObjectView, k: Seq<char>)
    ensures
        0 <= object_index(e, k) <= e.len(),
        object_index(e, k) < e.len() ==> e[object_index(e, k)].0 == k,
        forall|j: int| 0 <= j < object_index(e, k) ==> e[j].0 != k,
    decreases e.len(),
{
    if e.len() > 0 && e[0].0 != k {
        lemma_object_index(e.drop_first(), k);
        assert forall|j: int| 0 <= j < object_index(e, k) implies e[j].0 != k by {
            if j > 0 {
                assert(e[j] == e.drop_first()[j - 1]);
            }
        }
    }
}

/// The value of the first entry with key `k`.
pub open spec fn object_get(e: ObjectView, k: Seq<char>) -> Option<JsonView> {
    let i = object_index(e, k);
    if i < e.len() {
        Some(e[i].1)
    } else {
        None
    }
}

/// `e` with `k` mapped to `v`: the first entry with key `k` gets the value, or a new
/// entry is appended where there is none.
pub open spec fn object_insert(e: ObjectView, k: Seq<char>, v: JsonView) -> ObjectView {
    let i = object_index(e, k);
    if i < e.len() {
        e.update(i, (k, v))
    } else {
        e.push((k, v))
    }
}

/// Whether no two entries of an object share a name.
pub open spec fn unique_keys(e: ObjectView) -> bool {
    forall|i: int, j: int| 0 <= i < j < e.len() ==> #[trigger] e[i].0 != #[trigger] e[j].0
}

/// Whether a JSON value is as a JSON map keeps it: at every level, no object has two
/// members of one name.
pub open spec fn json_wf(v: JsonView) -> bool
    decreases v,
{
    match v {
        JsonView::Array(a) => forall|i: int| 0 <= i < a.len() ==> json_wf(#[trigger] a[i]),
        JsonView::Object(e) => unique_keys(e) && forall|i: int| 0 <= i < e.len() ==> json_wf(#[trigger] e[i].1),
        _ => true,
    }
}

/// A member of a well-formed value is well-formed.
pub proof fn lemma_json_get_wf(v: JsonView, k: Seq<char>)
    requires
        json_wf(v),
    ensures
        json_get(v, k) matches Some(m) ==> json_wf(m),
{
    if let JsonView::Object(e) = v {
        lemma_object_index(e, k);
        if object_index(e, k) < e.len() {
            assert(json_wf(e[object_index(e, k)].1));
        }
    }
}

/// In an object without repeated names, the member that a name reads is the one of that name.
pub proof fn lemma_object_get_unique(e: ObjectView, k: Seq<char>, i: int)
    requires
        unique_keys(e),
        0 <= i < e.len(),
        e[i].0 == k,
    ensures
        object_index(e, k) == i,
        object_get(e, k) == Some(e[i].1),
{
    lemma_object_index(e, k);
    let j = object_index(e, k);
    if j < i {
        assert(e[j].0 != e[i].0);
    }
}

/// `value.get(key)`: the member `key` of an object; nothing for other values.
pub open spec fn json_get(v: JsonView, k: Seq<char>) -> Option<JsonView> {
    match v {
        JsonView::Object(e) => object_get(e, k),
        _ => None,
    }
}

/// `value.as_str()`: the text of a JSON string.
pub open spec fn json_str(v: Option<JsonView>) -> Option<Seq<char>> {
    match v {
        Some(JsonView::String(s)) => Some(s),
        _ => None,
    }
}

impl Json {
    /// A copy of the value.
    pub fn copy(&self) -> (r: Json)
        ensures
            r@ == self@,
        decreases self,
    {
        match self {
            Json::Null => Json::Null,
            Json::Bool(b) => Json::Bool(*b),
            Json::Number(n) => Json::Number(n.clone()),
            Json::String(s) => Json::String(s.clone()),
            Json::Array(a) => {
                let n = a.len();
                let mut out: Vec<Json> = Vec::new();
                let mut i: usize = 0;
                while i < n
                    invariant
                        n == a@.len(),
                        *self == Json::Array(*a),
                        i <= n,
                        out@.len() == i,
                        forall|j: int| 0 <= j < i ==> (#[trigger] out@[j])@ == a@[j]@,
                    decreases n - i,
                {
                    proof {
                        assert(decreases_to!(*self => (*self)->Array_0));
                        assert(decreases_to!(*a => a@));
                        assert(decreases_to!(a@ => a@[i as int]));
                    }
                    let c = a[i].copy();
                    out.push(c);
                    i = i + 1;
                }
                let r = Json::Array(out);
                proof {
                    if let JsonView::Array(x) = r@ {
                        if let JsonView::Array(y) = self@ {
                            assert(x =~= y);
                        }
                    }
                }
                r
            },
            Json::Object(o) => {
                let n = o.len();
                let mut out: Vec<(String, Json)> = Vec::new();
                let mut i: usize = 0;
                while i < n
                    invariant
                        n == o@.len(),
                        *self == Json::Object(*o),
                        i <= n,
                        out@.len() == i,
                        forall|j: int| 0 <= j < i ==> (#[trigger] out@[j]).0@ == o@[j].0@ && out@[j].1@ == o@[j].1@,
                    decreases n - i,
                {
                    proof {
                        assert(decreases_to!(*self => (*self)->Object_0));
                        assert(decreases_to!(*o => o@));
                        assert(decreases_to!(o@ => o@[i as int]));
                        assert(decreases_to!(o@[i as int] => o@[i as int].1));
                    }
                    let k = o[i].0.clone();
                    let v = o[i].1.copy();
                    out.push((k, v));
                    i = i + 1;
                }
                let r = Json::Object(out);
                proof {
                    if let JsonView::Object(x) = r@ {
                        if let JsonView::Object(y) = self@ {
                            assert(x =~= y);
                        }
                    }
                }
                r
            },
        }
    }

    /// `value.is_object()`.
    pub fn is_object(&self) -> (r: bool)
        ensures
            r == self@ is Object,
    {
        match self {
            Json::Object(_) => true,
            _ => false,
        }
    }

    /// `value.as_str()`.
    pub fn as_str(&self) -> (r: Option<&str>)
        ensures
            match r {
                Some(s) => self@ == JsonView::String(s@),
                None => !(self@ is String),
            },
    {
        match self {
            Json::String(s) => Some(s.as_str()),
            _ => None,
        }
    }

    /// `value.get(key)`: of a well-formed object, the one member named `key`.
    pub fn get(&self, key: &str) -> (r: Option<&Json>)
        ensures
            match r {
                Some(v) => json_get(self@, key@) == Some(v@),
                None => json_get(self@, key@) is None,
            },
            json_wf(self@) ==> match self@ {
                JsonView::Object(e) => (r is Some <==> exists|i: int| 0 <= i < e.len() && e[i].0 == key@)
                    && forall|i: int| 0 <= i < e.len() && #[trigger] e[i].0 == key@ ==> (r matches Some(v) && v@ == e[i].1),
                _ => r is None,
            },
            json_wf(self@) ==> (r matches Some(v) ==> json_wf(v@)),
    {
        match self {
            Json::Object(o) => {
                proof {
                    lemma_object_view(*o);
                }
                let i = find_key(o, key);
                proof {
                    let e = entries_view(o@);
                    lemma_object_index(e, key@);
                    if json_wf(self@) {
                        assert forall|j: int| 0 <= j < e.len() && #[trigger] e[j].0 == key@ implies j == i by {
                            lemma_object_get_unique(e, key@, j);
                        }
                        if i < o.len() {
                            assert(json_wf(e[i as int].1));
                        }
                    }
                }
                if i < o.len() {
                    Some(&o[i].1)
                } else {
                    None
                }
            },
            _ => None,
        }
    }
}

impl Clone for Json {
    fn clone(&self) -> (r: Self)
        ensures
            r@ == self@,
    {
        self.copy()
    }
}

/// The index of the first entry of `o` with key `key`, or `o.len()`.
pub fn find_key(o: &Vec<(String, Json)>, key: &str) -> (i: usize)
    ensures
        i == object_index(entries_view(o@), key@),
        i <= o@.len(),
{
    let n = o.len();
    let ghost e = entries_view(o@);
    let mut i: usize = 0;
    assert(e.skip(0) =~= e);
    while i < n
        invariant
            n == o@.len(),
            e == entries_view(o@),
            i <= n,
            object_index(e, key@) == i + object_index(e.skip(i as int), key@),
        decreases n - i,
    {
        if str_equal(o[i].0.as_str(), key) {
            return i;
        }
        assert(e.skip(i as int).drop_first() =~= e.skip(i + 1));
        i = i + 1;
    }
    i
}

} // verus!
