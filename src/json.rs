//! The JSON value that the library reads and edits, and its mathematical view.
use vstd::prelude::*;

verus! {

broadcast use vstd::std_specs::vec::group_vec_axioms;

/// A JSON value.
///
/// A floating-point number is held as its decimal numeral (`"1.5"`, `"-3.0"`),
/// the text that a JSON serializer writes for it: an optional `-`, digits,
/// a point and digits (`is_numeral`), with no leading zeros and no trailing
/// zeros but one as coercion writes them. Coercion to a string or an integer
/// refuses a float whose text is no numeral. A numeral is exact: an integer above 2^53 coerced to a float
/// keeps all its digits, where a 64-bit float would round it. Integers keep
/// their signed or unsigned representation. Object entries keep their order; keys are expected
/// to be unique.
pub enum Json {
    I64(i64),
    U64(u64),
    F64(String),
    String(String),
    Boolean(bool),
    Array(Vec<Json>),
    Object(Vec<(String, Json)>),
    Null,
}

/// The mathematical value of a [`Json`]: strings become sequences of characters.
pub enum JValue {
    I64(i64),
    U64(u64),
    F64(Seq<char>),
    Str(Seq<char>),
    Boolean(bool),
    Array(Seq<JValue>),
    Object(Seq<(Seq<char>, JValue)>),
    Null,
}

impl Json {
    pub open spec fn view(&self) -> JValue
        decreases self,
    {
        match self {
            Json::I64(n) => JValue::I64(*n),
            Json::U64(n) => JValue::U64(*n),
            Json::F64(t) => JValue::F64(t@),
            Json::String(s) => JValue::Str(s@),
            Json::Boolean(b) => JValue::Boolean(*b),
            Json::Array(items) => JValue::Array(
                Seq::new(
                    items.len() as nat,
                    |i: int|
                        if 0 <= i < items.len() {
                            items[i].view()
                        } else {
                            JValue::Null
                        },
                ),
            ),
            Json::Object(entries) => JValue::Object(
                Seq::new(
                    entries.len() as nat,
                    |i: int|
                        if 0 <= i < entries.len() {
                            (entries[i].0@, entries[i].1.view())
                        } else {
                            (Seq::empty(), JValue::Null)
                        },
                ),
            ),
            Json::Null => JValue::Null,
        }
    }
}

/// The mathematical values of a list of elements.
pub open spec fn items_view(items: Seq<Json>) -> Seq<JValue> {
    Seq::new(items.len(), |i: int| items[i]@)
}

/// The mathematical values of a list of object entries.
pub open spec fn entries_view(entries: Seq<(String, Json)>) -> Seq<(Seq<char>, JValue)> {
    Seq::new(entries.len(), |i: int| (entries[i].0@, entries[i].1@))
}

pub proof fn lemma_array_view(items: Vec<Json>)
    ensures
        Json::Array(items)@ == JValue::Array(items_view(items@)),
{
    assert(Json::Array(items)@->Array_0 =~= items_view(items@));
}

pub proof fn lemma_object_view(entries: Vec<(String, Json)>)
    ensures
        Json::Object(entries)@ == JValue::Object(entries_view(entries@)),
{
    assert(Json::Object(entries)@->Object_0 =~= entries_view(entries@));
}

/// The index of the first entry with key `key`.
pub open spec fn find_key(entries: Seq<(Seq<char>, JValue)>, key: Seq<char>) -> Option<int>
    decreases entries.len(),
{
    if entries.len() == 0 {
        None
    } else {
        match find_key(entries.drop_last(), key) {
            Some(i) => Some(i),
            None => if entries.last().0 == key {
                Some(entries.len() - 1)
            } else {
                None
            },
        }
    }
}

pub proof fn lemma_find_key(entries: Seq<(Seq<char>, JValue)>, key: Seq<char>)
    ensures
        match find_key(entries, key) {
            Some(i) => 0 <= i < entries.len() && entries[i].0 == key && forall|j: int|
                0 <= j < i ==> (#[trigger] entries[j]).0 != key,
            None => forall|j: int| 0 <= j < entries.len() ==> (#[trigger] entries[j]).0 != key,
        },
    decreases entries.len(),
{
    if entries.len() > 0 {
        lemma_find_key(entries.drop_last(), key);
        assert forall|j: int| 0 <= j < entries.len() - 1 implies entries.drop_last()[j]
            == #[trigger] entries[j] by {}
    }
}

/// Finds the first entry with key `key`.
pub fn find_entry(entries: &Vec<(String, Json)>, key: &String) -> (r: Option<usize>)
    ensures
        r is Some <==> find_key(entries_view(entries@), key@) is Some,
        r is Some ==> find_key(entries_view(entries@), key@) == Some(r->0 as int),
{
    let ghost ev = entries_view(entries@);
    proof {
        lemma_find_key(ev, key@);
    }
    let mut i: usize = 0;
    while i < entries.len()
        invariant
            0 <= i <= entries.len(),
            ev == entries_view(entries@),
            forall|j: int| 0 <= j < i ==> (#[trigger] ev[j]).0 != key@,
        decreases entries.len() - i,
    {
        if entries[i].0 == *key {
            assert(ev[i as int].0 == key@);
            proof {
                lemma_find_key(ev, key@);
                match find_key(ev, key@) {
                    Some(f) => {
                        if f < i {
                        } else if f > i {
                        }
                    },
                    None => {},
                }
            }
            return Some(i);
        }
        i = i + 1;
    }
    None
}

/// Whether two values are equal.
pub fn json_equal(a: &Json, b: &Json) -> (r: bool)
    ensures
        r == (a@ == b@),
    decreases a,
{
    match a {
        Json::I64(x) => match b {
            Json::I64(y) => *x == *y,
            _ => false,
        },
        Json::U64(x) => match b {
            Json::U64(y) => *x == *y,
            _ => false,
        },
        Json::F64(x) => match b {
            Json::F64(y) => *x == *y,
            _ => false,
        },
        Json::String(x) => match b {
            Json::String(y) => *x == *y,
            _ => false,
        },
        Json::Boolean(x) => match b {
            Json::Boolean(y) => *x == *y,
            _ => false,
        },
        Json::Null => match b {
            Json::Null => true,
            _ => false,
        },
        Json::Array(x) => {
            let y = if let Json::Array(y) = b {
                y
            } else {
                return false;
            };
            assert(*b == Json::Array(*y));
            proof {
                lemma_array_view(*x);
                lemma_array_view(*y);
            }
            if x.len() != y.len() {
                assert(items_view(x@).len() != items_view(y@).len());
                return false;
            }
            let mut i: usize = 0;
            while i < x.len()
                invariant
                    *a == Json::Array(*x),
                    *b == Json::Array(*y),
                    a@ == JValue::Array(items_view(x@)),
                    b@ == JValue::Array(items_view(y@)),
                    x.len() == y.len(),
                    0 <= i <= x.len(),
                    forall|j: int| 0 <= j < i ==> (#[trigger] x@[j])@ == y@[j]@,
                decreases x.len() - i,
            {
                assert(decreases_to!(*a => x[i as int]));
                if !json_equal(&x[i], &y[i]) {
                    assert(items_view(x@)[i as int] != items_view(y@)[i as int]);
                    assert(items_view(x@) != items_view(y@));
                    return false;
                }
                i = i + 1;
            }
            assert(items_view(x@) =~= items_view(y@));
            true
        },
        Json::Object(x) => {
            let y = if let Json::Object(y) = b {
                y
            } else {
                return false;
            };
            assert(*b == Json::Object(*y));
            proof {
                lemma_object_view(*x);
                lemma_object_view(*y);
            }
            if x.len() != y.len() {
                assert(entries_view(x@).len() != entries_view(y@).len());
                return false;
            }
            let mut i: usize = 0;
            while i < x.len()
                invariant
                    *a == Json::Object(*x),
                    *b == Json::Object(*y),
                    a@ == JValue::Object(entries_view(x@)),
                    b@ == JValue::Object(entries_view(y@)),
                    x.len() == y.len(),
                    0 <= i <= x.len(),
                    forall|j: int|
                        0 <= j < i ==> (#[trigger] x@[j]).0@ == y@[j].0@ && x@[j].1@ == y@[j].1@,
                decreases x.len() - i,
            {
                if x[i].0 != y[i].0 {
                    assert(entries_view(x@)[i as int] != entries_view(y@)[i as int]);
                    assert(entries_view(x@) != entries_view(y@));
                    return false;
                }
                assert(decreases_to!(*a => x[i as int].1));
                if !json_equal(&x[i].1, &y[i].1) {
                    assert(entries_view(x@)[i as int] != entries_view(y@)[i as int]);
                    assert(entries_view(x@) != entries_view(y@));
                    return false;
                }
                i = i + 1;
            }
            assert(entries_view(x@) =~= entries_view(y@));
            true
        },
    }
}

/// A copy of a value.
pub fn json_clone(a: &Json) -> (r: Json)
    ensures
        r@ == a@,
    decreases a,
{
    match a {
        Json::I64(x) => Json::I64(*x),
        Json::U64(x) => Json::U64(*x),
        Json::F64(x) => Json::F64(x.clone()),
        Json::String(x) => Json::String(x.clone()),
        Json::Boolean(x) => Json::Boolean(*x),
        Json::Null => Json::Null,
        Json::Array(x) => {
            proof {
                lemma_array_view(*x);
            }
            let mut out: Vec<Json> = Vec::new();
            let mut i: usize = 0;
            while i < x.len()
                invariant
                    *a == Json::Array(*x),
                    a@ == JValue::Array(items_view(x@)),
                    0 <= i <= x.len(),
                    out@.len() == i,
                    forall|j: int| 0 <= j < i ==> (#[trigger] out@[j])@ == x@[j]@,
                decreases x.len() - i,
            {
                assert(decreases_to!(*a => x[i as int]));
                out.push(json_clone(&x[i]));
                i = i + 1;
            }
            proof {
                lemma_array_view(*x);
                lemma_array_view(out);
                assert(items_view(x@) =~= items_view(out@));
            }
            Json::Array(out)
        },
        Json::Object(x) => {
            proof {
                lemma_object_view(*x);
            }
            let mut out: Vec<(String, Json)> = Vec::new();
            let mut i: usize = 0;
            while i < x.len()
                invariant
                    *a == Json::Object(*x),
                    a@ == JValue::Object(entries_view(x@)),
                    0 <= i <= x.len(),
                    out@.len() == i,
                    forall|j: int|
                        0 <= j < i ==> (#[trigger] out@[j]).0@ == x@[j].0@ && out@[j].1@ == x@[j].1@,
                decreases x.len() - i,
            {
                assert(decreases_to!(*a => x[i as int].1));
                let v = json_clone(&x[i].1);
                out.push((x[i].0.clone(), v));
                i = i + 1;
            }
            proof {
                lemma_object_view(*x);
                lemma_object_view(out);
                assert(entries_view(x@) =~= entries_view(out@));
            }
            Json::Object(out)
        },
    }
}

} // verus!
