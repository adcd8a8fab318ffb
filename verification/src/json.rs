//! JSON documents as the engine's data files, rule files and script boundary carry them.
//!
//! Numbers keep serde_json's three shapes: a non-negative integer, a negative integer, or a
//! finite float carried as its IEEE-754 bit pattern (the engine never computes with those
//! here; it only carries them, compares them and checks their bit shape). An object keeps its
//! entries in key order, each key once.
use vstd::prelude::*;

verus! {

/// A JSON number.
#[derive(Debug, Clone, Copy, PartialEq, Eq)]
pub enum JsonNumber {
    /// An integer >= 0.
    PosInt(u64),
    /// An integer < 0.
    NegInt(i64),
    /// A finite float, as its IEEE-754 bit pattern.
    Float(u64),
}

/// A JSON value.
#[derive(Debug, PartialEq, Eq)]
pub enum Json {
    Null,
    Bool(bool),
    Number(JsonNumber),
    Str(String),
    Array(Vec<Json>),
    Object(Vec<(String, Json)>),
}

/// The mathematical content of a JSON value (what equality of documents means).
pub enum JsonV {
    Null,
    Bool(bool),
    Number(JsonNumber),
    Str(Seq<char>),
    Array(Seq<JsonV>),
    Object(Seq<(Seq<char>, JsonV)>),
}

/// The content of a value.
pub open spec fn json_view(j: Json) -> JsonV
    decreases j,
{
    match j {
        Json::Null => JsonV::Null,
        Json::Bool(b) => JsonV::Bool(b),
        Json::Number(n) => JsonV::Number(n),
        Json::Str(s) => JsonV::Str(s@),
        Json::Array(a) => JsonV::Array(seq_view(a@)),
        Json::Object(m) => JsonV::Object(entries_view(m@)),
    }
}

/// The contents of a sequence of values.
pub open spec fn seq_view(s: Seq<Json>) -> Seq<JsonV>
    decreases s,
{
    if s.len() == 0 {
        Seq::empty()
    } else {
        seq_view(s.drop_last()).push(json_view(s.last()))
    }
}

/// The contents of object entries.
pub open spec fn entries_view(s: Seq<(String, Json)>) -> Seq<(Seq<char>, JsonV)>
    decreases s,
{
    if s.len() == 0 {
        Seq::empty()
    } else {
        entries_view(s.drop_last()).push((s.last().0@, json_view(s.last().1)))
    }
}

impl View for Json {
    type V = JsonV;

    open spec fn view(&self) -> JsonV {
        json_view(*self)
    }
}

/// `seq_view` is element-wise.
pub proof fn lemma_seq_view(s: Seq<Json>)
    ensures
        seq_view(s).len() == s.len(),
        forall|i: int| 0 <= i < s.len() ==> #[trigger] seq_view(s)[i] == json_view(s[i]),
    decreases s.len(),
{
    if s.len() > 0 {
        lemma_seq_view(s.drop_last());
    }
}

/// `entries_view` is element-wise.
pub proof fn lemma_entries_view(s: Seq<(String, Json)>)
    ensures
        entries_view(s).len() == s.len(),
        forall|i: int| 0 <= i < s.len() ==> #[trigger] entries_view(s)[i] == (s[i].0@, json_view(s[i].1)),
    decreases s.len(),
{
    if s.len() > 0 {
        lemma_entries_view(s.drop_last());
    }
}

/// The value stored under `key` among object entries (the first entry with that key).
pub open spec fn entries_get(entries: Seq<(Seq<char>, JsonV)>, key: Seq<char>) -> Option<JsonV>
    decreases entries.len(),
{
    if entries.len() == 0 {
        None
    } else if entries[0].0 == key {
        Some(entries[0].1)
    } else {
        entries_get(entries.drop_first(), key)
    }
}

/// The first entry with `key` is the one that is found.
pub proof fn lemma_entries_get_at(m: Seq<(Seq<char>, JsonV)>, i: int, key: Seq<char>)
    requires
        0 <= i < m.len(),
        m[i].0 == key,
        forall|j: int| 0 <= j < i ==> #[trigger] m[j].0 != key,
    ensures
        entries_get(m, key) == Some(m[i].1),
    decreases i,
{
    if i > 0 {
        assert(m[0].0 != key);
        let rest = m.drop_first();
        assert forall|j: int| 0 <= j < i - 1 implies #[trigger] rest[j].0 != key by {
            assert(rest[j] == m[j + 1]);
        }
        lemma_entries_get_at(rest, i - 1, key);
    }
}

/// `v.get(key)` for an object; `None` for anything else.
pub open spec fn get_spec(v: JsonV, key: Seq<char>) -> Option<JsonV> {
    match v {
        JsonV::Object(m) => entries_get(m, key),
        _ => None,
    }
}

/// The text of a string value.
pub open spec fn str_spec(v: JsonV) -> Option<Seq<char>> {
    match v {
        JsonV::Str(s) => Some(s),
        _ => None,
    }
}

/// The text of `v.get(key)` when it is a string.
pub open spec fn get_str_spec(v: JsonV, key: Seq<char>) -> Option<Seq<char>> {
    match get_spec(v, key) {
        Some(x) => str_spec(x),
        None => None,
    }
}

/// The elements of an array value.
pub open spec fn array_spec(v: JsonV) -> Option<Seq<JsonV>> {
    match v {
        JsonV::Array(a) => Some(a),
        _ => None,
    }
}

/// The value as an `i64`, when it is an integer in range (serde_json's `as_i64`).
pub open spec fn i64_spec(v: JsonV) -> Option<i64> {
    match v {
        JsonV::Number(JsonNumber::PosInt(u)) => if u <= i64::MAX { Some(u as i64) } else { None },
        JsonV::Number(JsonNumber::NegInt(n)) => Some(n),
        _ => None,
    }
}

/// The value as a `u64`, when it is a non-negative integer (serde_json's `as_u64`).
pub open spec fn u64_spec(v: JsonV) -> Option<u64> {
    match v {
        JsonV::Number(JsonNumber::PosInt(u)) => Some(u),
        _ => None,
    }
}

/// The value as a `bool`.
pub open spec fn bool_spec(v: JsonV) -> Option<bool> {
    match v {
        JsonV::Bool(b) => Some(b),
        _ => None,
    }
}

impl JsonNumber {
    /// An exact copy.
    pub fn copy(&self) -> (r: JsonNumber)
        ensures
            r == *self,
    {
        match self {
            JsonNumber::PosInt(u) => JsonNumber::PosInt(*u),
            JsonNumber::NegInt(n) => JsonNumber::NegInt(*n),
            JsonNumber::Float(b) => JsonNumber::Float(*b),
        }
    }
}

/// Look up `key` among object entries.
pub fn entries_lookup<'a>(entries: &'a Vec<(String, Json)>, key: &str) -> (r: Option<&'a Json>)
    ensures
        match r {
            Some(x) => entries_get(entries_view(entries@), key@) == Some(x@),
            None => entries_get(entries_view(entries@), key@) is None,
        },
{
    let ghost ev = entries_view(entries@);
    proof {
        lemma_entries_view(entries@);
        assert(ev.subrange(0, ev.len() as int) =~= ev);
    }
    let mut i: usize = 0;
    while i < entries.len()
        invariant
            i <= entries@.len(),
            ev == entries_view(entries@),
            ev.len() == entries@.len(),
            forall|k: int| 0 <= k < entries@.len() ==> #[trigger] ev[k] == (entries@[k].0@, json_view(entries@[k].1)),
            entries_get(ev, key@) == entries_get(ev.subrange(i as int, ev.len() as int), key@),
        decreases entries@.len() - i,
    {
        let ghost rest = ev.subrange(i as int, ev.len() as int);
        assert(rest.drop_first() =~= ev.subrange(i + 1, ev.len() as int));
        assert(rest[0] == ev[i as int]);
        if crate::text::str_eq(entries[i].0.as_str(), key) {
            return Some(&entries[i].1);
        }
        i += 1;
    }
    None
}

impl Json {
    /// `self.get(key)`: the value under `key` when `self` is an object.
    pub fn get(&self, key: &str) -> (r: Option<&Json>)
        ensures
            match r {
                Some(x) => get_spec(self@, key@) == Some(x@),
                None => get_spec(self@, key@) is None,
            },
    {
        match self {
            Json::Object(m) => entries_lookup(m, key),
            _ => None,
        }
    }

    /// The text, when `self` is a string.
    pub fn as_str(&self) -> (r: Option<&str>)
        ensures
            match r {
                Some(s) => str_spec(self@) == Some(s@),
                None => str_spec(self@) is None,
            },
    {
        match self {
            Json::Str(s) => Some(s.as_str()),
            _ => None,
        }
    }

    /// The elements, when `self` is an array.
    pub fn as_array(&self) -> (r: Option<&Vec<Json>>)
        ensures
            match r {
                Some(a) => array_spec(self@) == Some(seq_view(a@)),
                None => array_spec(self@) is None,
            },
    {
        match self {
            Json::Array(a) => Some(a),
            _ => None,
        }
    }

    /// The entries, when `self` is an object.
    pub fn as_object(&self) -> (r: Option<&Vec<(String, Json)>>)
        ensures
            match r {
                Some(m) => self@ == JsonV::Object(entries_view(m@)),
                None => !(self@ is Object),
            },
    {
        match self {
            Json::Object(m) => Some(m),
            _ => None,
        }
    }

    /// The integer, when it is one that fits an `i64`.
    pub fn as_i64(&self) -> (r: Option<i64>)
        ensures
            r == i64_spec(self@),
    {
        match self {
            Json::Number(JsonNumber::PosInt(u)) => if *u <= i64::MAX as u64 { Some(*u as i64) } else { None },
            Json::Number(JsonNumber::NegInt(n)) => Some(*n),
            _ => None,
        }
    }

    /// The integer, when it is a non-negative one.
    pub fn as_u64(&self) -> (r: Option<u64>)
        ensures
            r == u64_spec(self@),
    {
        match self {
            Json::Number(JsonNumber::PosInt(u)) => Some(*u),
            _ => None,
        }
    }

    /// The boolean, when `self` is one.
    pub fn as_bool(&self) -> (r: Option<bool>)
        ensures
            r == bool_spec(self@),
    {
        match self {
            Json::Bool(b) => Some(*b),
            _ => None,
        }
    }

    /// Whether `self` is a string.
    pub fn is_string(&self) -> (r: bool)
        ensures
            r == (self@ is Str),
    {
        match self {
            Json::Str(_) => true,
            _ => false,
        }
    }

    /// Whether `self` is null.
    pub fn is_null(&self) -> (r: bool)
        ensures
            r == (self@ is Null),
    {
        match self {
            Json::Null => true,
            _ => false,
        }
    }

    /// Whether `self` is a number.
    pub fn is_number(&self) -> (r: bool)
        ensures
            r == (self@ is Number),
    {
        match self {
            Json::Number(_) => true,
            _ => false,
        }
    }

    /// A deep copy, with the same content as `self`.
    pub fn deep_clone(&self) -> (r: Json)
        ensures
            r@ == self@,
        decreases self,
    {
        match self {
            Json::Null => Json::Null,
            Json::Bool(b) => Json::Bool(*b),
            Json::Number(n) => Json::Number(n.copy()),
            Json::Str(s) => Json::Str(s.clone()),
            Json::Array(a) => {
                let mut out: Vec<Json> = Vec::new();
                let mut i: usize = 0;
                proof {
                    assert(decreases_to!(*self => *a));
                }
                while i < a.len()
                    invariant
                        decreases_to!(*self => *a),
                        i <= a@.len(),
                        out@.len() == i,
                        forall|k: int| 0 <= k < i ==> #[trigger] json_view(out@[k]) == json_view(a@[k]),
                    decreases a@.len() - i,
                {
                    proof {
                        vstd::std_specs::vec::axiom_vec_index_decreases(*a, i as int);
                        assert(decreases_to!(*self => a[i as int]));
                    }
                    let x = a[i].deep_clone();
                    out.push(x);
                    i += 1;
                }
                proof {
                    lemma_seq_view(out@);
                    lemma_seq_view(a@);
                    assert(seq_view(out@) =~= seq_view(a@));
                }
                Json::Array(out)
            },
            Json::Object(m) => {
                let out = clone_entries(m);
                Json::Object(out)
            },
        }
    }
}

/// A deep copy of object entries.
pub fn clone_entries(m: &Vec<(String, Json)>) -> (out: Vec<(String, Json)>)
    ensures
        entries_view(out@) == entries_view(m@),
    decreases m,
{
    let mut out: Vec<(String, Json)> = Vec::new();
    let mut i: usize = 0;
    while i < m.len()
        invariant
            i <= m@.len(),
            out@.len() == i,
            forall|k: int| 0 <= k < i ==> out@[k].0@ == m@[k].0@ && #[trigger] json_view(out@[k].1) == json_view(m@[k].1),
        decreases m@.len() - i,
    {
        proof {
            vstd::std_specs::vec::axiom_vec_index_decreases(*m, i as int);
            assert(decreases_to!(m@[i as int] => m@[i as int].1));
        }
        let v = m[i].1.deep_clone();
        out.push((m[i].0.clone(), v));
        i += 1;
    }
    proof {
        lemma_entries_view(out@);
        lemma_entries_view(m@);
        assert(entries_view(out@) =~= entries_view(m@));
    }
    out
}

} // verus!
