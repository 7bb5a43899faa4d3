//! A small JSON document model: the values that flow between the
//! configuration files, the data files and the user interface.
use vstd::prelude::*;
use crate::text::text_eq;

verus! {

/// A JSON number as the document holds it: a signed integer, an unsigned
/// integer above `i64::MAX`, or a floating-point number given by its IEEE-754
/// bit pattern (the library never computes with it, it only carries it).
#[derive(Clone, Copy, Debug, PartialEq, Eq, Structural)]
pub enum JsonNumber {
    Int(i64),
    Big(u64),
    Float(u64),
}

/// A JSON value.  Objects are lists of entries; lookups take the first entry
/// with a given key, and insertion replaces that entry in place.
#[derive(Debug)]
pub enum JsonValue {
    Null,
    Bool(bool),
    Number(JsonNumber),
    Str(String),
    Array(Vec<JsonValue>),
    Object(Vec<(String, JsonValue)>),
}

/// The mathematical model of a JSON value: strings are sequences of chars.
pub enum JsonView {
    Null,
    Bool(bool),
    Number(JsonNumber),
    Str(Seq<char>),
    Array(Seq<JsonView>),
    Object(Seq<(Seq<char>, JsonView)>),
}

pub open spec fn view_values(s: Seq<JsonValue>) -> Seq<JsonView>
    decreases s,
{
    if s.len() == 0 {
        Seq::empty()
    } else {
        view_values(s.drop_last()).push(view_value(s.last()))
    }
}

pub open spec fn view_entries(s: Seq<(String, JsonValue)>) -> Seq<(Seq<char>, JsonView)>
    decreases s,
{
    if s.len() == 0 {
        Seq::empty()
    } else {
        view_entries(s.drop_last()).push((s.last().0@, view_value(s.last().1)))
    }
}

pub open spec fn view_value(v: JsonValue) -> JsonView
    decreases v,
{
    match v {
        JsonValue::Null => JsonView::Null,
        JsonValue::Bool(b) => JsonView::Bool(b),
        JsonValue::Number(n) => JsonView::Number(n),
        JsonValue::Str(s) => JsonView::Str(s@),
        JsonValue::Array(items) => {
            proof { broadcast use vstd::std_specs::vec::axiom_vec_decreases_to_view; }
            JsonView::Array(view_values(items@))
        },
        JsonValue::Object(entries) => {
            proof { broadcast use vstd::std_specs::vec::axiom_vec_decreases_to_view; }
            JsonView::Object(view_entries(entries@))
        },
    }
}

impl View for JsonValue {
    type V = JsonView;

    open spec fn view(&self) -> JsonView {
        view_value(*self)
    }
}


/// Length and elements of the viewed list of values.
pub proof fn lemma_view_values(s: Seq<JsonValue>)
    ensures
        view_values(s).len() == s.len(),
        forall|i: int| 0 <= i < s.len() ==> #[trigger] view_values(s)[i] == view_value(s[i]),
    decreases s.len(),
{
    if s.len() > 0 {
        lemma_view_values(s.drop_last());
        assert forall|i: int| 0 <= i < s.len() implies #[trigger] view_values(s)[i] == view_value(s[i]) by {
            if i < s.len() - 1 {
                assert(s.drop_last()[i] == s[i]);
            }
        }
    }
}

/// Length and elements of the viewed list of entries.
pub proof fn lemma_view_entries(s: Seq<(String, JsonValue)>)
    ensures
        view_entries(s).len() == s.len(),
        forall|i: int|
            0 <= i < s.len() ==> #[trigger] view_entries(s)[i] == (s[i].0@, view_value(s[i].1)),
    decreases s.len(),
{
    if s.len() > 0 {
        lemma_view_entries(s.drop_last());
        assert forall|i: int| 0 <= i < s.len() implies #[trigger] view_entries(s)[i] == (
        s[i].0@, view_value(s[i].1)) by {
            if i < s.len() - 1 {
                assert(s.drop_last()[i] == s[i]);
            }
        }
    }
}

/// Index of the first entry with the given key, if any.
pub open spec fn first_key_index(entries: Seq<(Seq<char>, JsonView)>, key: Seq<char>) -> Option<int>
    decreases entries.len(),
{
    if entries.len() == 0 {
        None
    } else {
        match first_key_index(entries.drop_last(), key) {
            Some(i) => Some(i),
            None => if entries.last().0 == key {
                Some(entries.len() - 1)
            } else {
                None
            },
        }
    }
}

/// `first_key_index` finds the first entry with the key, and only it.
pub proof fn lemma_first_key_index(entries: Seq<(Seq<char>, JsonView)>, key: Seq<char>)
    ensures
        first_key_index(entries, key) matches Some(i) ==> {
            &&& 0 <= i < entries.len()
            &&& entries[i].0 == key
            &&& forall|j: int| 0 <= j < i ==> #[trigger] entries[j].0 != key
        },
        first_key_index(entries, key) is None ==> forall|j: int|
            0 <= j < entries.len() ==> #[trigger] entries[j].0 != key,
    decreases entries.len(),
{
    if entries.len() > 0 {
        let d = entries.drop_last();
        lemma_first_key_index(d, key);
        match first_key_index(d, key) {
            Some(i) => {
                assert forall|j: int| 0 <= j < i implies #[trigger] entries[j].0 != key by {
                    assert(d[j] == entries[j]);
                }
            },
            None => {
                assert forall|j: int| 0 <= j < d.len() implies #[trigger] entries[j].0 != key by {
                    assert(d[j] == entries[j]);
                }
            },
        }
    }
}

/// The value stored under a key of an object's entries.
pub open spec fn lookup(entries: Seq<(Seq<char>, JsonView)>, key: Seq<char>) -> Option<JsonView> {
    match first_key_index(entries, key) {
        Some(i) => Some(entries[i].1),
        None => None,
    }
}

impl JsonView {
    /// `value.get(key)` of serde_json: the member of an object, `None` otherwise.
    pub open spec fn get(self, key: Seq<char>) -> Option<JsonView> {
        match self {
            JsonView::Object(entries) => lookup(entries, key),
            _ => None,
        }
    }

    pub open spec fn as_i64(self) -> Option<i64> {
        match self {
            JsonView::Number(JsonNumber::Int(i)) => Some(i),
            JsonView::Number(JsonNumber::Big(u)) => if u <= i64::MAX {
                Some(u as i64)
            } else {
                None
            },
            _ => None,
        }
    }

    pub open spec fn as_u64(self) -> Option<u64> {
        match self {
            JsonView::Number(JsonNumber::Int(i)) => if i >= 0 {
                Some(i as u64)
            } else {
                None
            },
            JsonView::Number(JsonNumber::Big(u)) => Some(u),
            _ => None,
        }
    }

    pub open spec fn as_number(self) -> Option<JsonNumber> {
        match self {
            JsonView::Number(n) => Some(n),
            _ => None,
        }
    }

    pub open spec fn as_bool(self) -> Option<bool> {
        match self {
            JsonView::Bool(b) => Some(b),
            _ => None,
        }
    }

    pub open spec fn as_str(self) -> Option<Seq<char>> {
        match self {
            JsonView::Str(s) => Some(s),
            _ => None,
        }
    }

    pub open spec fn as_array(self) -> Option<Seq<JsonView>> {
        match self {
            JsonView::Array(a) => Some(a),
            _ => None,
        }
    }

    pub open spec fn as_object(self) -> Option<Seq<(Seq<char>, JsonView)>> {
        match self {
            JsonView::Object(o) => Some(o),
            _ => None,
        }
    }
}


/// If the entry at `i` carries the key and none before it does, it is the first.
pub proof fn lemma_first_key_at(entries: Seq<(Seq<char>, JsonView)>, key: Seq<char>, i: int)
    requires
        0 <= i < entries.len(),
        entries[i].0 == key,
        forall|j: int| 0 <= j < i ==> #[trigger] entries[j].0 != key,
    ensures
        first_key_index(entries, key) == Some(i),
{
    lemma_first_key_index(entries, key);
}

/// Position of the first entry whose key is `key`.
pub fn find_key(entries: &Vec<(String, JsonValue)>, key: &str) -> (r: Option<usize>)
    ensures
        r matches Some(i) ==> i < entries.len() && entries@[i as int].0@ == key@
            && first_key_index(view_entries(entries@), key@) == Some(i as int),
        r is None ==> first_key_index(view_entries(entries@), key@) is None,
{
    proof {
        lemma_view_entries(entries@);
        lemma_first_key_index(view_entries(entries@), key@);
    }
    let mut i: usize = 0;
    while i < entries.len()
        invariant
            i <= entries.len(),
            view_entries(entries@).len() == entries@.len(),
            forall|j: int|
                0 <= j < entries@.len() ==> #[trigger] view_entries(entries@)[j] == (
                entries@[j].0@, view_value(entries@[j].1)),
            forall|j: int| 0 <= j < i ==> #[trigger] view_entries(entries@)[j].0 != key@,
        decreases entries.len() - i,
    {
        if text_eq(entries[i].0.as_str(), key) {
            proof {
                lemma_first_key_at(view_entries(entries@), key@, i as int);
            }
            return Some(i);
        }
        i = i + 1;
    }
    None
}

impl JsonValue {
    /// The member stored under `key` when this is an object.
    pub fn get(&self, key: &str) -> (r: Option<&JsonValue>)
        ensures
            r matches Some(x) ==> self@.get(key@) == Some(x@),
            r is None ==> self@.get(key@) is None,
    {
        match self {
            JsonValue::Object(entries) => {
                proof {
                    lemma_view_entries(entries@);
                }
                match find_key(entries, key) {
                    Some(i) => {
                        assert(view_entries(entries@)[i as int].1 == view_value(entries@[i as int].1));
                        Some(&entries[i].1)
                    },
                    None => None,
                }
            },
            _ => None,
        }
    }

    pub fn as_i64(&self) -> (r: Option<i64>)
        ensures
            r == self@.as_i64(),
    {
        match self {
            JsonValue::Number(JsonNumber::Int(i)) => Some(*i),
            JsonValue::Number(JsonNumber::Big(u)) => if *u <= 9223372036854775807u64 {
                Some(*u as i64)
            } else {
                None
            },
            _ => None,
        }
    }

    pub fn as_u64(&self) -> (r: Option<u64>)
        ensures
            r == self@.as_u64(),
    {
        match self {
            JsonValue::Number(JsonNumber::Int(i)) => if *i >= 0 {
                Some(*i as u64)
            } else {
                None
            },
            JsonValue::Number(JsonNumber::Big(u)) => Some(*u),
            _ => None,
        }
    }

    pub fn as_number(&self) -> (r: Option<JsonNumber>)
        ensures
            r == self@.as_number(),
    {
        match self {
            JsonValue::Number(n) => Some(*n),
            _ => None,
        }
    }

    pub fn as_bool(&self) -> (r: Option<bool>)
        ensures
            r == self@.as_bool(),
    {
        match self {
            JsonValue::Bool(b) => Some(*b),
            _ => None,
        }
    }

    pub fn as_str(&self) -> (r: Option<&str>)
        ensures
            r matches Some(t) ==> self@.as_str() == Some(t@),
            r is None ==> self@.as_str() is None,
    {
        match self {
            JsonValue::Str(s) => Some(s.as_str()),
            _ => None,
        }
    }

    pub fn as_array(&self) -> (r: Option<&Vec<JsonValue>>)
        ensures
            r matches Some(items) ==> self@.as_array() == Some(view_values(items@)),
            r is None ==> self@.as_array() is None,
    {
        match self {
            JsonValue::Array(items) => Some(items),
            _ => None,
        }
    }

    pub fn as_object(&self) -> (r: Option<&Vec<(String, JsonValue)>>)
        ensures
            r matches Some(entries) ==> self@.as_object() == Some(view_entries(entries@)),
            r is None ==> self@.as_object() is None,
    {
        match self {
            JsonValue::Object(entries) => Some(entries),
            _ => None,
        }
    }

    pub fn is_number(&self) -> (r: bool)
        ensures
            r == (self@ is Number),
    {
        match self {
            JsonValue::Number(_) => true,
            _ => false,
        }
    }

    pub fn is_null(&self) -> (r: bool)
        ensures
            r == (self@ is Null),
    {
        match self {
            JsonValue::Null => true,
            _ => false,
        }
    }
}


impl JsonValue {
    /// A copy of this value with the same view.
    #[verifier::loop_isolation(false)]
    pub fn deep_clone(&self) -> (r: JsonValue)
        ensures
            r@ == self@,
        decreases self,
    {
        match self {
            JsonValue::Null => JsonValue::Null,
            JsonValue::Bool(b) => JsonValue::Bool(*b),
            JsonValue::Number(n) => JsonValue::Number(*n),
            JsonValue::Str(s) => JsonValue::Str(s.clone()),
            JsonValue::Array(items) => {
                let mut out: Vec<JsonValue> = Vec::new();
                let mut i: usize = 0;
                while i < items.len()
                    invariant
                        i <= items.len(),
                        out@.len() == i,
                        forall|j: int| 0 <= j < i ==> #[trigger] view_value(out@[j]) == view_value(items@[j]),
                    decreases items.len() - i,
                {
                    proof {
                        broadcast use vstd::std_specs::vec::axiom_vec_index_decreases;
                        assert(decreases_to!(items => items[i as int]));
                    }
                    let c = items[i].deep_clone();
                    out.push(c);
                    i = i + 1;
                }
                proof {
                    lemma_view_values(out@);
                    lemma_view_values(items@);
                    assert(view_values(out@) =~= view_values(items@));
                }
                JsonValue::Array(out)
            },
            JsonValue::Object(entries) => {
                let mut out: Vec<(String, JsonValue)> = Vec::new();
                let mut i: usize = 0;
                while i < entries.len()
                    invariant
                        i <= entries.len(),
                        out@.len() == i,
                        forall|j: int|
                            0 <= j < i ==> #[trigger] out@[j].0@ == entries@[j].0@ && view_value(out@[j].1)
                                == view_value(entries@[j].1),
                    decreases entries.len() - i,
                {
                    proof {
                        broadcast use vstd::std_specs::vec::axiom_vec_index_decreases;
                        assert(decreases_to!(entries => entries[i as int]));
                    }
                    let k = entries[i].0.clone();
                    let c = entries[i].1.deep_clone();
                    out.push((k, c));
                    i = i + 1;
                }
                proof {
                    lemma_view_entries(out@);
                    lemma_view_entries(entries@);
                    assert(view_entries(out@) =~= view_entries(entries@));
                }
                JsonValue::Object(out)
            },
        }
    }

    /// Whether two values are equal as JSON documents (entry order included).
    #[verifier::loop_isolation(false)]
    pub fn same_as(&self, other: &JsonValue) -> (r: bool)
        ensures
            r == (self@ == other@),
        decreases self,
    {
        match (self, other) {
            (JsonValue::Null, JsonValue::Null) => true,
            (JsonValue::Bool(a), JsonValue::Bool(b)) => *a == *b,
            (JsonValue::Number(a), JsonValue::Number(b)) => *a == *b,
            (JsonValue::Str(a), JsonValue::Str(b)) => text_eq(a.as_str(), b.as_str()),
            (JsonValue::Array(a), JsonValue::Array(b)) => {
                proof {
                    lemma_view_values(a@);
                    lemma_view_values(b@);
                }
                if a.len() != b.len() {
                    return false;
                }
                let mut i: usize = 0;
                while i < a.len()
                    invariant
                        i <= a.len(),
                        a.len() == b.len(),
                        view_values(a@).len() == a.len(),
                        view_values(b@).len() == b.len(),
                        forall|j: int| 0 <= j < a.len() ==> #[trigger] view_values(a@)[j] == view_value(a@[j]),
                        forall|j: int| 0 <= j < b.len() ==> #[trigger] view_values(b@)[j] == view_value(b@[j]),
                        forall|j: int| 0 <= j < i ==> view_value(#[trigger] a@[j]) == view_value(b@[j]),
                    decreases a.len() - i,
                {
                    proof {
                        broadcast use vstd::std_specs::vec::axiom_vec_index_decreases;
                        assert(decreases_to!(a => a[i as int]));
                    }
                    if !a[i].same_as(&b[i]) {
                        assert(view_values(a@)[i as int] != view_values(b@)[i as int]);
                        return false;
                    }
                    i = i + 1;
                }
                assert(view_values(a@) =~= view_values(b@));
                true
            },
            (JsonValue::Object(a), JsonValue::Object(b)) => {
                proof {
                    lemma_view_entries(a@);
                    lemma_view_entries(b@);
                }
                if a.len() != b.len() {
                    return false;
                }
                let mut i: usize = 0;
                while i < a.len()
                    invariant
                        i <= a.len(),
                        a.len() == b.len(),
                        view_entries(a@).len() == a.len(),
                        view_entries(b@).len() == b.len(),
                        forall|j: int|
                            0 <= j < a.len() ==> #[trigger] view_entries(a@)[j] == (a@[j].0@, view_value(a@[j].1)),
                        forall|j: int|
                            0 <= j < b.len() ==> #[trigger] view_entries(b@)[j] == (b@[j].0@, view_value(b@[j].1)),
                        forall|j: int| 0 <= j < i ==> #[trigger] view_entries(a@)[j] == view_entries(b@)[j],
                    decreases a.len() - i,
                {
                    proof {
                        broadcast use vstd::std_specs::vec::axiom_vec_index_decreases;
                        assert(decreases_to!(a => a[i as int]));
                    }
                    if !text_eq(a[i].0.as_str(), b[i].0.as_str()) {
                        assert(view_entries(a@)[i as int] != view_entries(b@)[i as int]);
                        return false;
                    }
                    if !a[i].1.same_as(&b[i].1) {
                        assert(view_entries(a@)[i as int] != view_entries(b@)[i as int]);
                        return false;
                    }
                    i = i + 1;
                }
                assert(view_entries(a@) =~= view_entries(b@));
                true
            },
            _ => false,
        }
    }
}

} // verus!
