use vstd::prelude::*;

verus! {

/// A JSON document as the gateway reads it: the scalars, arrays and objects
/// of a response or of the arguments of a query.
///
/// A number is kept as the text that denotes it, an object as its entries in
/// the order in which they were written.
#[derive(Debug, PartialEq)]
pub enum JsonValue {
    Null,
    Bool(bool),
    Number(String),
    Str(String),
    Array(Vec<JsonValue>),
    Object(Vec<(String, JsonValue)>),
}

/// The mathematical form of a [`JsonValue`]: texts as sequences of
/// characters, arrays and objects as sequences.
pub enum Json {
    Null,
    Bool(bool),
    Number(Seq<char>),
    Str(Seq<char>),
    Array(Seq<Json>),
    Object(Seq<(Seq<char>, Json)>),
}

impl JsonValue {
    /// The mathematical form of the value.
    pub open spec fn json(self) -> Json
        decreases self,
    {
        match self {
            JsonValue::Null => Json::Null,
            JsonValue::Bool(b) => Json::Bool(b),
            JsonValue::Number(n) => Json::Number(n@),
            JsonValue::Str(s) => Json::Str(s@),
            JsonValue::Array(items) => Json::Array(
                Seq::new(
                    items.len() as nat,
                    |i: int|
                        if 0 <= i < items.len() {
                            items@[i].json()
                        } else {
                            Json::Null
                        },
                ),
            ),
            JsonValue::Object(entries) => Json::Object(
                Seq::new(
                    entries.len() as nat,
                    |i: int|
                        if 0 <= i < entries.len() {
                            (entries@[i].0@, entries@[i].1.json())
                        } else {
                            (Seq::empty(), Json::Null)
                        },
                ),
            ),
        }
    }
}

/// The mathematical form of the entries of an object.
pub open spec fn entries_json(entries: Seq<(String, JsonValue)>) -> Seq<(Seq<char>, Json)> {
    Seq::new(entries.len(), |i: int| (entries[i].0@, entries[i].1@))
}

/// The mathematical form of the items of an array.
pub open spec fn items_json(items: Seq<JsonValue>) -> Seq<Json> {
    Seq::new(items.len(), |i: int| items[i]@)
}

impl View for JsonValue {
    type V = Json;

    open spec fn view(&self) -> Json {
        self.json()
    }
}

/// The value of the first entry of `entries` whose key is `key`.
pub open spec fn entries_get(entries: Seq<(Seq<char>, Json)>, key: Seq<char>) -> Option<Json>
    decreases entries.len(),
{
    if entries.len() == 0 {
        None
    } else if entries[0].0 == key {
        Some(entries[0].1)
    } else {
        entries_get(entries.drop_first(), key)
    }
}

/// Setting a key that first appears at `i` replaces the entry at `i`.
proof fn lemma_entries_insert_at(entries: Seq<(Seq<char>, Json)>, key: Seq<char>, value: Json, i: int)
    requires
        0 <= i < entries.len(),
        entries[i].0 == key,
        forall|j: int| 0 <= j < i ==> #[trigger] entries[j].0 != key,
    ensures
        entries_insert(entries, key, value) == entries.update(i, (key, value)),
    decreases entries.len(),
{
    if i > 0 {
        assert forall|j: int| 0 <= j < i - 1 implies #[trigger] entries.drop_first()[j].0 != key by {
            assert(entries.drop_first()[j] == entries[j + 1]);
        }
        lemma_entries_insert_at(entries.drop_first(), key, value, i - 1);
        assert(entries[0].0 != key);
        assert(seq![entries[0]] + entries.drop_first().update(i - 1, (key, value)) =~= entries.update(i, (key, value)));
    }
}

/// Setting a key that no entry has adds an entry at the end.
proof fn lemma_entries_insert_absent(entries: Seq<(Seq<char>, Json)>, key: Seq<char>, value: Json)
    requires
        forall|j: int| 0 <= j < entries.len() ==> #[trigger] entries[j].0 != key,
    ensures
        entries_insert(entries, key, value) == entries.push((key, value)),
    decreases entries.len(),
{
    if entries.len() > 0 {
        assert forall|j: int| 0 <= j < entries.drop_first().len() implies #[trigger] entries.drop_first()[j].0 != key by {
            assert(entries.drop_first()[j] == entries[j + 1]);
        }
        lemma_entries_insert_absent(entries.drop_first(), key, value);
        assert(entries[0].0 != key);
        assert(seq![entries[0]] + entries.drop_first().push((key, value)) =~= entries.push((key, value)));
    } else {
        assert(seq![(key, value)] =~= entries.push((key, value)));
    }
}

/// `entries_get` on the entries that start at index `i`.
proof fn lemma_entries_get_skip(entries: Seq<(Seq<char>, Json)>, key: Seq<char>, i: int)
    requires
        0 <= i < entries.len(),
        entries[i].0 != key,
    ensures
        entries_get(entries.skip(i), key) == entries_get(entries.skip(i + 1), key),
{
    assert(entries.skip(i).drop_first() =~= entries.skip(i + 1));
}

impl JsonValue {
    /// Looks up `key` among the entries of an object: the value of the first
    /// entry with that key.
    pub fn object_get<'a>(entries: &'a Vec<(String, JsonValue)>, key: &String) -> (r: Option<
        &'a JsonValue,
    >)
        ensures
            match r {
                Some(v) => entries_get(entries_json(entries@), key@) == Some(v@),
                None => entries_get(entries_json(entries@), key@) is None,
            },
    {
        let ghost all = entries_json(entries@);
        let mut i: usize = 0;
        assert(all.skip(0) =~= all);
        while i < entries.len()
            invariant
                i <= entries.len(),
                all == entries_json(entries@),
                all.len() == entries.len(),
                entries_get(all, key@) == entries_get(all.skip(i as int), key@),
            decreases entries.len() - i,
        {
            assert(all[i as int] == (entries@[i as int].0@, entries@[i as int].1@));
            if entries[i].0 == *key {
                assert(all.skip(i as int)[0] == all[i as int]);
                return Some(&entries[i].1);
            }
            proof {
                lemma_entries_get_skip(all, key@, i as int);
            }
            i = i + 1;
        }
        None
    }
}

impl JsonValue {
    /// The mathematical form of an array is the sequence of the forms of its items.
    pub proof fn lemma_array_view(items: Vec<JsonValue>)
        ensures
            JsonValue::Array(items)@ == Json::Array(items_json(items@)),
    {
        assert(JsonValue::Array(items)@->Array_0 =~= items_json(items@));
    }

    /// The mathematical form of an object is the sequence of the forms of its entries.
    pub proof fn lemma_object_view(entries: Vec<(String, JsonValue)>)
        ensures
            JsonValue::Object(entries)@ == Json::Object(entries_json(entries@)),
    {
        assert(JsonValue::Object(entries)@->Object_0 =~= entries_json(entries@));
    }

    /// A copy of the value, entry for entry.
    pub fn deep_clone(&self) -> (res: Self)
        ensures
            res@ == self@,
        decreases *self,
    {
        match self {
            JsonValue::Null => JsonValue::Null,
            JsonValue::Bool(b) => JsonValue::Bool(*b),
            JsonValue::Number(n) => JsonValue::Number(n.clone()),
            JsonValue::Str(s) => JsonValue::Str(s.clone()),
            JsonValue::Array(items) => {
                let mut out: Vec<JsonValue> = Vec::new();
                let mut i: usize = 0;
                while i < items.len()
                    invariant
                        *self == JsonValue::Array(*items),
                        i <= items.len(),
                        out.len() == i,
                        forall|j: int| 0 <= j < i ==> out@[j]@ == items@[j]@,
                    decreases items.len() - i,
                {
                    proof {
                        assert(decreases_to!(*self => self->Array_0));
                        assert(decreases_to!(self->Array_0 => self->Array_0@[i as int]));
                    }
                    let c = items[i].deep_clone();
                    out.push(c);
                    i = i + 1;
                }
                proof {
                    Self::lemma_array_view(out);
                    Self::lemma_array_view(*items);
                    assert(items_json(out@) =~= items_json(items@));
                }
                JsonValue::Array(out)
            },
            JsonValue::Object(entries) => {
                let mut out: Vec<(String, JsonValue)> = Vec::new();
                let mut i: usize = 0;
                while i < entries.len()
                    invariant
                        *self == JsonValue::Object(*entries),
                        i <= entries.len(),
                        out.len() == i,
                        forall|j: int|
                            0 <= j < i ==> out@[j].0@ == entries@[j].0@ && out@[j].1@
                                == entries@[j].1@,
                    decreases entries.len() - i,
                {
                    proof {
                        assert(decreases_to!(*self => self->Object_0));
                        assert(decreases_to!(self->Object_0 => self->Object_0@[i as int]));
                        assert(decreases_to!(self->Object_0@[i as int] => self->Object_0@[i as int].1));
                    }
                    let k = entries[i].0.clone();
                    let v = entries[i].1.deep_clone();
                    out.push((k, v));
                    i = i + 1;
                }
                proof {
                    Self::lemma_object_view(out);
                    Self::lemma_object_view(*entries);
                    assert(entries_json(out@) =~= entries_json(entries@));
                }
                JsonValue::Object(out)
            },
        }
    }
}

/// The entries of an object after `key` is set to `value`: the value of the
/// first entry with that key is replaced, else an entry is added at the end.
pub open spec fn entries_insert(entries: Seq<(Seq<char>, Json)>, key: Seq<char>, value: Json) -> Seq<
    (Seq<char>, Json),
>
    decreases entries.len(),
{
    if entries.len() == 0 {
        seq![(key, value)]
    } else if entries[0].0 == key {
        entries.update(0, (key, value))
    } else {
        seq![entries[0]] + entries_insert(entries.drop_first(), key, value)
    }
}

/// Reading an object after setting a key gives the value set for that key,
/// and what it gave before for every other key.
pub proof fn lemma_entries_get_insert(entries: Seq<(Seq<char>, Json)>, key: Seq<char>, value: Json, other: Seq<char>)
    ensures
        entries_get(entries_insert(entries, key, value), key) == Some(value),
        other != key ==> entries_get(entries_insert(entries, key, value), other) == entries_get(entries, other),
    decreases entries.len(),
{
    let r = entries_insert(entries, key, value);
    if entries.len() == 0 {
        assert(r =~= seq![(key, value)]);
        assert(r.drop_first() =~= Seq::<(Seq<char>, Json)>::empty());
        assert(entries_get(r.drop_first(), other) is None);
    } else if entries[0].0 == key {
        assert(r == entries.update(0, (key, value)));
        assert(r.drop_first() =~= entries.drop_first());
        assert(r[0] == (key, value));
    } else {
        lemma_entries_get_insert(entries.drop_first(), key, value, other);
        assert(r == seq![entries[0]] + entries_insert(entries.drop_first(), key, value));
        assert(r.drop_first() =~= entries_insert(entries.drop_first(), key, value));
        assert(r[0] == entries[0]);
    }
}

impl JsonValue {
    /// Sets `key` to `value` in the entries of an object: the value of the
    /// first entry with that key is replaced, else an entry is added at the end.
    pub fn object_insert(entries: &mut Vec<(String, JsonValue)>, key: String, value: JsonValue)
        ensures
            entries_json(final(entries)@) == entries_insert(entries_json(old(entries)@), key@, value@),
    {
        let ghost all = entries_json(entries@);
        let ghost kv = key@;
        let ghost vv = value@;
        let mut i: usize = 0;
        while i < entries.len()
            invariant
                all == entries_json(entries@),
                entries@ == old(entries)@,
                i <= entries.len(),
                forall|j: int| 0 <= j < i ==> #[trigger] entries@[j].0@ != kv,
                kv == key@,
                vv == value@,
            decreases entries.len() - i,
        {
            if entries[i].0 == key {
                entries.set(i, (key, value));
                proof {
                    lemma_entries_insert_at(all, kv, vv, i as int);
                    assert(entries_json(entries@) =~= all.update(i as int, (kv, vv)));
                }
                return;
            }
            i = i + 1;
        }
        entries.push((key, value));
        proof {
            lemma_entries_insert_absent(all, kv, vv);
            assert(entries_json(entries@) =~= all.push((kv, vv)));
        }
    }

    /// A copy of the entries of an object.
    pub fn clone_entries(entries: &Vec<(String, JsonValue)>) -> (r: Vec<(String, JsonValue)>)
        ensures
            entries_json(r@) == entries_json(entries@),
    {
        let mut out: Vec<(String, JsonValue)> = Vec::new();
        let mut i: usize = 0;
        while i < entries.len()
            invariant
                i <= entries.len(),
                out.len() == i,
                forall|j: int|
                    0 <= j < i ==> out@[j].0@ == entries@[j].0@ && out@[j].1@ == entries@[j].1@,
            decreases entries.len() - i,
        {
            let k = entries[i].0.clone();
            let v = entries[i].1.deep_clone();
            out.push((k, v));
            i = i + 1;
        }
        assert(entries_json(out@) =~= entries_json(entries@));
        out
    }
}

impl Clone for JsonValue {
    fn clone(&self) -> (res: Self)
        ensures
            res@ == self@,
    {
        self.deep_clone()
    }
}

/// A JSON value as it travels through the evaluation of a query.
pub struct Value {
    serde: JsonValue,
}

impl View for Value {
    type V = Json;

    closed spec fn view(&self) -> Json {
        self.serde@
    }
}

impl Value {
    /// Wraps a JSON document.
    pub fn new(serde: JsonValue) -> (r: Value)
        ensures
            r@ == serde@,
    {
        Value { serde }
    }

    /// The JSON document that the value holds.
    pub fn serde(&self) -> (r: &JsonValue)
        ensures
            r@ == self@,
    {
        &self.serde
    }

    /// Gives the JSON document back.
    pub fn into_serde(self) -> (r: JsonValue)
        ensures
            r@ == self@,
    {
        self.serde
    }
}

impl Clone for Value {
    fn clone(&self) -> (res: Self)
        ensures
            res@ == self@,
    {
        Value { serde: self.serde.deep_clone() }
    }
}

} // verus!
