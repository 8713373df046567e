//! The document model: a value is null, a boolean, a number, a string, an array of values
//! or an object whose keys keep the order in which they were inserted.

use vstd::prelude::*;
use crate::number::{number_as_i64, NumberView, TiNumber};
use crate::statics::TI_REF_FIELD_VALUE;
use crate::text::str_eq;

verus! {

/// Mathematical content of a [`TiValue`]: strings are character sequences, arrays are
/// sequences, and an object is the sequence of its entries in insertion order.
pub enum ValueView {
    Null,
    Bool(bool),
    Number(NumberView),
    String(Seq<char>),
    Array(Seq<ValueView>),
    Object(Seq<(Seq<char>, ValueView)>),
}

/// A value of a save document.
#[derive(Debug, PartialEq)]
pub enum TiValue {
    Null,
    Bool(bool),
    Number(TiNumber),
    String(String),
    Array(Vec<TiValue>),
    Object(ObjectMap),
}

/// The entries of an object: string keys, each at most once, in insertion order.
#[derive(Debug, PartialEq)]
pub struct ObjectMap {
    keys: Vec<String>,
    values: Vec<TiValue>,
}

/// The mathematical content of a value.
pub open spec fn value_view(v: TiValue) -> ValueView
    decreases v,
{
    match v {
        TiValue::Null => ValueView::Null,
        TiValue::Bool(b) => ValueView::Bool(b),
        TiValue::Number(n) => ValueView::Number(n@),
        TiValue::String(s) => ValueView::String(s@),
        TiValue::Array(items) => ValueView::Array(
            Seq::new(
                items@.len(),
                |i: int|
                    if 0 <= i < items@.len() {
                        value_view(items@[i])
                    } else {
                        ValueView::Null
                    },
            ),
        ),
        TiValue::Object(map) => ValueView::Object(map_view(map)),
    }
}

/// The entries of an object, in insertion order.
pub closed spec fn map_view(m: ObjectMap) -> Seq<(Seq<char>, ValueView)>
    decreases m,
{
    Seq::new(
        m.values@.len(),
        |i: int|
            if 0 <= i < m.values@.len() {
                (m.keys@[i]@, value_view(m.values@[i]))
            } else {
                (Seq::empty(), ValueView::Null)
            },
    )
}

impl View for TiValue {
    type V = ValueView;

    open spec fn view(&self) -> ValueView {
        value_view(*self)
    }
}

impl View for ObjectMap {
    type V = Seq<(Seq<char>, ValueView)>;

    open spec fn view(&self) -> Seq<(Seq<char>, ValueView)> {
        map_view(*self)
    }
}

/// The views of a run of values, in order.
pub open spec fn views(items: Seq<TiValue>) -> Seq<ValueView> {
    items.map_values(|v: TiValue| v@)
}

/// Position of the first entry with key `key`, or `entries.len()` where there is none.
pub open spec fn key_position(entries: Seq<(Seq<char>, ValueView)>, key: Seq<char>) -> int
    decreases entries.len(),
{
    if entries.len() == 0 || entries[0].0 == key {
        0
    } else {
        1 + key_position(entries.drop_first(), key)
    }
}

/// The value stored under `key`, if any.
pub open spec fn lookup(entries: Seq<(Seq<char>, ValueView)>, key: Seq<char>) -> Option<
    ValueView,
> {
    let k = key_position(entries, key);
    if k < entries.len() {
        Some(entries[k].1)
    } else {
        None
    }
}

/// No key occurs twice.
pub open spec fn keys_unique(entries: Seq<(Seq<char>, ValueView)>) -> bool {
    forall|i: int, j: int|
        0 <= i < j < entries.len() ==> (#[trigger] entries[i]).0 != (#[trigger] entries[j]).0
}

/// The entries after storing `value` under `key`: an existing entry keeps its place and
/// gets the new value, a new key goes to the end.
pub open spec fn with_entry(
    entries: Seq<(Seq<char>, ValueView)>,
    key: Seq<char>,
    value: ValueView,
) -> Seq<(Seq<char>, ValueView)> {
    let k = key_position(entries, key);
    if k < entries.len() {
        entries.update(k, (key, value))
    } else {
        entries.push((key, value))
    }
}

/// The entries after removing `key`: the entries behind it move up by one.
pub open spec fn without_key(entries: Seq<(Seq<char>, ValueView)>, key: Seq<char>) -> Seq<
    (Seq<char>, ValueView),
> {
    let k = key_position(entries, key);
    if k < entries.len() {
        entries.remove(k)
    } else {
        entries
    }
}

/// The member `key` of an object; `None` for anything that is no object or lacks the key.
pub open spec fn field(v: ValueView, key: Seq<char>) -> Option<ValueView> {
    match v {
        ValueView::Object(entries) => lookup(entries, key),
        _ => None,
    }
}

/// The ID that a relational reference points to: the member `value` of an object, where
/// that is an integer which fits in 64 signed bits. A fractional `value` is no reference.
pub open spec fn reference_target(v: ValueView) -> Option<i64> {
    match field(v, TI_REF_FIELD_VALUE@) {
        Some(ValueView::Number(n)) => number_as_i64(n),
        _ => None,
    }
}

/// What `key_position` finds is where the key first occurs.
pub proof fn lemma_key_position(entries: Seq<(Seq<char>, ValueView)>, key: Seq<char>)
    ensures
        0 <= key_position(entries, key) <= entries.len(),
        key_position(entries, key) < entries.len() ==> entries[key_position(entries, key)].0
            == key,
        forall|i: int| 0 <= i < key_position(entries, key) ==> (#[trigger] entries[i]).0 != key,
    decreases entries.len(),
{
    if entries.len() == 0 || entries[0].0 == key {
    } else {
        let rest = entries.drop_first();
        lemma_key_position(rest, key);
        let k = key_position(rest, key);
        assert forall|i: int| 0 <= i < 1 + k implies (#[trigger] entries[i]).0 != key by {
            if i > 0 {
                assert(entries[i] == rest[i - 1]);
            }
        }
    }
}

/// A position that holds the key, with no earlier one that does, is what `key_position`
/// finds.
pub proof fn lemma_key_position_is(entries: Seq<(Seq<char>, ValueView)>, key: Seq<char>, k: int)
    requires
        0 <= k <= entries.len(),
        k < entries.len() ==> entries[k].0 == key,
        forall|i: int| 0 <= i < k ==> (#[trigger] entries[i]).0 != key,
    ensures
        key_position(entries, key) == k,
{
    lemma_key_position(entries, key);
}

impl Clone for TiValue {
    fn clone(&self) -> (r: Self)
        ensures
            r@ == self@,
    {
        self.duplicate()
    }
}

impl Clone for ObjectMap {
    fn clone(&self) -> (r: Self)
        ensures
            r@ == self@,
    {
        self.duplicate()
    }
}

impl TiValue {
    /// A deep copy.
    pub fn duplicate(&self) -> (r: TiValue)
        ensures
            r@ == self@,
        decreases self@,
    {
        match self {
            TiValue::Null => TiValue::Null,
            TiValue::Bool(b) => TiValue::Bool(*b),
            TiValue::Number(n) => TiValue::Number(n.clone()),
            TiValue::String(s) => TiValue::String(s.clone()),
            TiValue::Array(items) => {
                let mut copies: Vec<TiValue> = Vec::new();
                let mut i: usize = 0;
                while i < items.len()
                    invariant
                        i <= items@.len(),
                        copies@.len() == i,
                        self@ == value_view(TiValue::Array(*items)),
                        forall|k: int| 0 <= k < i ==> (#[trigger] copies@[k])@ == items@[k]@,
                    decreases items@.len() - i,
                {
                    assert(self@->Array_0[i as int] == items@[i as int]@);
                    assert(decreases_to!(self@ => self@->Array_0));
                    copies.push(items[i].duplicate());
                    i = i + 1;
                }
                let r = TiValue::Array(copies);
                assert(r@->Array_0 =~= self@->Array_0);
                r
            },
            TiValue::Object(map) => {
                assert(decreases_to!(self@ => self@->Object_0));
                TiValue::Object(map.duplicate())
            },
        }
    }
}

impl ObjectMap {
    #[verifier::type_invariant]
    spec fn well_formed(self) -> bool {
        &&& self.keys@.len() == self.values@.len()
        &&& forall|i: int, j: int|
            0 <= i < j < self.keys@.len() ==> (#[trigger] self.keys@[i])@ != (
            #[trigger] self.keys@[j])@
    }

    /// A deep copy.
    pub fn duplicate(&self) -> (r: ObjectMap)
        ensures
            r@ == self@,
        decreases self@,
    {
        proof {
            use_type_invariant(self);
        }
        let mut keys: Vec<String> = Vec::new();
        let mut values: Vec<TiValue> = Vec::new();
        let mut i: usize = 0;
        while i < self.values.len()
            invariant
                i <= self.values@.len(),
                self.keys@.len() == self.values@.len(),
                keys@.len() == i,
                values@.len() == i,
                forall|k: int| 0 <= k < i ==> (#[trigger] keys@[k])@ == self.keys@[k]@,
                forall|k: int| 0 <= k < i ==> (#[trigger] values@[k])@ == self.values@[k]@,
            decreases self.values@.len() - i,
        {
            assert(self@[i as int].1 == self.values@[i as int]@);
            assert(decreases_to!(self@[i as int] => self@[i as int].1));
            keys.push(self.keys[i].clone());
            values.push(self.values[i].duplicate());
            i = i + 1;
        }
        let r = ObjectMap { keys, values };
        assert(r@ =~= self@);
        r
    }

    /// An object without entries.
    pub fn new() -> (r: ObjectMap)
        ensures
            r@ == Seq::<(Seq<char>, ValueView)>::empty(),
    {
        let r = ObjectMap { keys: Vec::new(), values: Vec::new() };
        assert(r@ =~= Seq::<(Seq<char>, ValueView)>::empty());
        r
    }

    /// Number of entries.
    pub fn len(&self) -> (n: usize)
        ensures
            n == self@.len(),
            keys_unique(self@),
    {
        proof {
            use_type_invariant(self);
        }
        self.values.len()
    }

    /// Whether the object has no entries.
    pub fn is_empty(&self) -> (r: bool)
        ensures
            r == (self@.len() == 0),
    {
        self.values.len() == 0
    }

    /// Position of the entry with key `key`.
    pub fn get_index_of(&self, key: &str) -> (r: Option<usize>)
        ensures
            match r {
                Some(k) => k == key_position(self@, key@) && k < self@.len(),
                None => key_position(self@, key@) == self@.len(),
            },
    {
        proof {
            use_type_invariant(self);
        }
        let mut k: usize = 0;
        while k < self.keys.len()
            invariant
                k <= self.keys@.len(),
                self.keys@.len() == self.values@.len(),
                forall|i: int| 0 <= i < k ==> (#[trigger] self@[i]).0 != key@,
            decreases self.keys@.len() - k,
        {
            if str_eq(self.keys[k].as_str(), key) {
                proof {
                    lemma_key_position_is(self@, key@, k as int);
                }
                return Some(k);
            }
            k = k + 1;
        }
        proof {
            lemma_key_position_is(self@, key@, k as int);
        }
        None
    }

    /// Whether an entry with key `key` exists.
    pub fn contains_key(&self, key: &str) -> (r: bool)
        ensures
            r == lookup(self@, key@).is_some(),
    {
        self.get_index_of(key).is_some()
    }

    /// The value stored under `key`.
    pub fn get(&self, key: &str) -> (r: Option<&TiValue>)
        ensures
            match r {
                Some(v) => lookup(self@, key@) == Some(v@),
                None => lookup(self@, key@).is_none(),
            },
    {
        proof {
            use_type_invariant(self);
        }
        match self.get_index_of(key) {
            Some(k) => Some(&self.values[k]),
            None => None,
        }
    }

    /// Key and value of the entry at position `i`.
    pub fn get_index(&self, i: usize) -> (r: Option<(&String, &TiValue)>)
        ensures
            match r {
                Some((k, v)) => i < self@.len() && self@[i as int] == (k@, v@),
                None => i >= self@.len(),
            },
    {
        proof {
            use_type_invariant(self);
        }
        if i < self.values.len() {
            Some((&self.keys[i], &self.values[i]))
        } else {
            None
        }
    }
    /// The key at position `i`.
    pub fn key_at(&self, i: usize) -> (k: &String)
        requires
            i < self@.len(),
        ensures
            k@ == self@[i as int].0,
    {
        proof {
            use_type_invariant(self);
        }
        &self.keys[i]
    }

    /// The value at position `i`.
    pub fn value_at(&self, i: usize) -> (v: &TiValue)
        requires
            i < self@.len(),
        ensures
            v@ == self@[i as int].1,
    {
        proof {
            use_type_invariant(self);
        }
        &self.values[i]
    }

    /// The value at position `i`, for changing it in place.
    pub fn get_index_mut(&mut self, i: usize) -> (r: Option<&mut TiValue>)
        ensures
            match r {
                Some(v) => i < old(self)@.len() && v@ == old(self)@[i as int].1 && final(self)@
                    == old(self)@.update(i as int, (old(self)@[i as int].0, final(v)@)),
                None => i >= old(self)@.len() && final(self)@ == old(self)@,
            },
    {
        proof {
            use_type_invariant(&*self);
        }
        if i < self.values.len() {
            Some(&mut self.values[i])
        } else {
            None
        }
    }

    /// The value stored under `key`, for changing it in place.
    pub fn get_mut(&mut self, key: &str) -> (r: Option<&mut TiValue>)
        ensures
            match r {
                Some(v) => lookup(old(self)@, key@) == Some(v@) && final(self)@ == with_entry(
                    old(self)@,
                    key@,
                    final(v)@,
                ),
                None => lookup(old(self)@, key@).is_none() && final(self)@ == old(self)@,
            },
    {
        match self.get_index_of(key) {
            Some(k) => {
                proof {
                    lemma_key_position(self@, key@);
                }
                self.get_index_mut(k)
            },
            None => None,
        }
    }

    /// Stores `value` under `key` and returns the value that was there before. An existing
    /// entry keeps its place; a new key goes to the end.
    pub fn insert(&mut self, key: String, value: TiValue) -> (r: Option<TiValue>)
        ensures
            final(self)@ == with_entry(old(self)@, key@, value@),
            match r {
                Some(v) => lookup(old(self)@, key@) == Some(v@),
                None => lookup(old(self)@, key@).is_none(),
            },
    {
        proof {
            use_type_invariant(&*self);
        }
        match self.get_index_of(key.as_str()) {
            Some(k) => {
                proof {
                    lemma_key_position(self@, key@);
                }
                let ghost before = self@;
                let mut held = value;
                std::mem::swap(&mut self.values[k], &mut held);
                assert(self@ =~= before.update(k as int, (key@, value@)));
                Some(held)
            },
            None => {
                proof {
                    lemma_key_position(self@, key@);
                }
                let ghost before = self@;
                let mut taken = ObjectMap::new();
                std::mem::swap(self, &mut taken);
                proof {
                    use_type_invariant(&taken);
                }
                let ObjectMap { keys: mut keys, values: mut values } = taken;
                let ghost old_keys = keys@;
                keys.push(key);
                values.push(value);
                assert forall|i: int, j: int| 0 <= i < j < keys@.len() implies (
                #[trigger] keys@[i])@ != (#[trigger] keys@[j])@ by {
                    if j == old_keys.len() {
                        assert(before[i].0 == old_keys[i]@);
                    } else {
                        assert(old_keys[i]@ != old_keys[j]@);
                    }
                }
                *self = ObjectMap { keys, values };
                assert(self@ =~= before.push((key@, value@)));
                None
            },
        }
    }

    /// Removes `key` and returns its value; the entries behind it move up by one.
    pub fn shift_remove(&mut self, key: &str) -> (r: Option<TiValue>)
        ensures
            final(self)@ == without_key(old(self)@, key@),
            match r {
                Some(v) => lookup(old(self)@, key@) == Some(v@),
                None => lookup(old(self)@, key@).is_none(),
            },
    {
        proof {
            use_type_invariant(&*self);
        }
        match self.get_index_of(key) {
            Some(k) => {
                let ghost before = self@;
                let mut taken = ObjectMap::new();
                std::mem::swap(self, &mut taken);
                proof {
                    use_type_invariant(&taken);
                }
                let ObjectMap { keys: mut keys, values: mut values } = taken;
                let ghost old_keys = keys@;
                let _ = keys.remove(k);
                let v = values.remove(k);
                assert forall|i: int, j: int| 0 <= i < j < keys@.len() implies (
                #[trigger] keys@[i])@ != (#[trigger] keys@[j])@ by {
                    let a = if i < k { i } else { i + 1 };
                    let b = if j < k { j } else { j + 1 };
                    assert(old_keys[a]@ != old_keys[b]@);
                }
                *self = ObjectMap { keys, values };
                assert(self@ =~= before.remove(k as int));
                Some(v)
            },
            None => None,
        }
    }
}

/// The view of an array is the sequence of the views of its elements.
pub proof fn lemma_array_view(items: Vec<TiValue>)
    ensures
        TiValue::Array(items)@ == ValueView::Array(views(items@)),
{
    assert(TiValue::Array(items)@ is Array);
    assert(TiValue::Array(items)@->Array_0.len() == items@.len());
    assert(TiValue::Array(items)@->Array_0 =~= views(items@));
}

/// Name of the kind of value, for display.
pub open spec fn kind_name_of(v: ValueView) -> Seq<char> {
    match v {
        ValueView::Null => "null"@,
        ValueView::Bool(_) => "bool"@,
        ValueView::Number(_) => "number"@,
        ValueView::String(_) => "string"@,
        ValueView::Array(_) => "array"@,
        ValueView::Object(_) => "object"@,
    }
}

/// `v` with the member `key` set to `value`, where `v` is an object; `v` itself otherwise.
pub open spec fn with_field(v: ValueView, key: Seq<char>, value: ValueView) -> ValueView {
    match v {
        ValueView::Object(entries) => ValueView::Object(with_entry(entries, key, value)),
        _ => v,
    }
}

impl TiValue {
    /// The entries, where the value is an object.
    pub fn as_object(&self) -> (r: Option<&ObjectMap>)
        ensures
            match r {
                Some(m) => self@ == ValueView::Object(m@),
                None => !(self@ is Object),
            },
    {
        match self {
            TiValue::Object(map) => Some(map),
            _ => None,
        }
    }

    /// The entries, where the value is an object, for changing them in place.
    pub fn as_object_mut(&mut self) -> (r: Option<&mut ObjectMap>)
        ensures
            match r {
                Some(m) => old(self)@ == ValueView::Object(m@) && final(self)@
                    == ValueView::Object(final(m)@),
                None => !(old(self)@ is Object) && final(self)@ == old(self)@,
            },
    {
        match self {
            TiValue::Object(map) => Some(map),
            _ => None,
        }
    }

    /// The elements, where the value is an array.
    pub fn as_array(&self) -> (r: Option<&[TiValue]>)
        ensures
            match r {
                Some(items) => self@ == ValueView::Array(views(items@)),
                None => !(self@ is Array),
            },
    {
        match self {
            TiValue::Array(items) => {
                proof {
                    lemma_array_view(*items);
                }
                Some(items.as_slice())
            },
            _ => None,
        }
    }

    /// The elements, where the value is an array, for changing them in place.
    pub fn as_array_mut(&mut self) -> (r: Option<&mut Vec<TiValue>>)
        ensures
            match r {
                Some(items) => old(self)@ == ValueView::Array(views(items@)) && final(self)@
                    == ValueView::Array(views(final(items)@)),
                None => !(old(self)@ is Array) && final(self)@ == old(self)@,
            },
    {
        match self {
            TiValue::Array(items) => {
                proof {
                    lemma_array_view(*items);
                    lemma_array_view(*final(items));
                }
                Some(items)
            },
            _ => None,
        }
    }

    /// The text, where the value is a string.
    pub fn as_str(&self) -> (r: Option<&str>)
        ensures
            match r {
                Some(s) => self@ == ValueView::String(s@),
                None => !(self@ is String),
            },
    {
        match self {
            TiValue::String(s) => Some(s.as_str()),
            _ => None,
        }
    }

    /// The member `key`, where the value is an object that has it.
    pub fn get(&self, key: &str) -> (r: Option<&TiValue>)
        ensures
            match r {
                Some(v) => field(self@, key@) == Some(v@),
                None => field(self@, key@).is_none(),
            },
    {
        match self {
            TiValue::Object(map) => map.get(key),
            _ => None,
        }
    }

    /// The member `key`, where the value is an object that has it, for changing it in
    /// place.
    pub fn get_mut(&mut self, key: &str) -> (r: Option<&mut TiValue>)
        ensures
            match r {
                Some(v) => field(old(self)@, key@) == Some(v@) && final(self)@ == with_field(
                    old(self)@,
                    key@,
                    final(v)@,
                ),
                None => field(old(self)@, key@).is_none() && final(self)@ == old(self)@,
            },
    {
        match self {
            TiValue::Object(map) => map.get_mut(key),
            _ => None,
        }
    }

    /// Name of the kind of value: `null`, `bool`, `number`, `string`, `array` or `object`.
    pub fn kind_name(&self) -> (r: &'static str)
        ensures
            r@ == kind_name_of(self@),
    {
        match self {
            TiValue::Null => "null",
            TiValue::Bool(_) => "bool",
            TiValue::Number(_) => "number",
            TiValue::String(_) => "string",
            TiValue::Array(_) => "array",
            TiValue::Object(_) => "object",
        }
    }

    /// The ID this value refers to, where it has the shape of a relational reference: an
    /// object whose member `value` is an integer. Other members, such as a type tag, are
    /// ignored.
    pub fn is_relational_ref(&self) -> (r: Option<i64>)
        ensures
            r == reference_target(self@),
    {
        match self.get(TI_REF_FIELD_VALUE) {
            Some(TiValue::Number(n)) => n.as_i64(),
            _ => None,
        }
    }
}

/// What was stored under a key is what a lookup of that key finds.
pub proof fn lemma_lookup_finds_stored(
    entries: Seq<(Seq<char>, ValueView)>,
    key: Seq<char>,
    value: ValueView,
)
    ensures
        lookup(with_entry(entries, key, value), key) == Some(value),
{
    lemma_key_position(entries, key);
    let k = key_position(entries, key);
    let after = with_entry(entries, key, value);
    assert forall|i: int| 0 <= i < k implies (#[trigger] after[i]).0 != key by {
        assert(after[i] == entries[i]);
    }
    lemma_key_position_is(after, key, k);
}

/// Storing under one key leaves the lookups of every other key as they were.
pub proof fn lemma_lookup_ignores_other_keys(
    entries: Seq<(Seq<char>, ValueView)>,
    key: Seq<char>,
    value: ValueView,
    other: Seq<char>,
)
    requires
        other != key,
    ensures
        lookup(with_entry(entries, key, value), other) == lookup(entries, other),
{
    lemma_key_position(entries, key);
    lemma_key_position(entries, other);
    let k = key_position(entries, key);
    let j = key_position(entries, other);
    let after = with_entry(entries, key, value);
    assert forall|i: int| 0 <= i < j implies (#[trigger] after[i]).0 != other by {
        if i != k {
            assert(after[i] == entries[i]);
        }
    }
    if j < entries.len() {
        assert(after[j] == entries[j]);
        lemma_key_position_is(after, other, j);
    } else {
        assert forall|i: int| 0 <= i < after.len() implies (#[trigger] after[i]).0 != other by {
            if i < entries.len() && i != k {
                assert(after[i] == entries[i]);
            }
        }
        lemma_key_position_is(after, other, after.len() as int);
    }
}

/// Storing keeps the keys unique and the order of the entries: a known key keeps its
/// place, a new one goes to the end.
pub proof fn lemma_with_entry_keeps_order(
    entries: Seq<(Seq<char>, ValueView)>,
    key: Seq<char>,
    value: ValueView,
)
    requires
        keys_unique(entries),
    ensures
        keys_unique(with_entry(entries, key, value)),
        lookup(entries, key).is_some() ==> with_entry(entries, key, value).len()
            == entries.len(),
        lookup(entries, key).is_none() ==> with_entry(entries, key, value).len()
            == entries.len() + 1,
        forall|i: int|
            0 <= i < entries.len() ==> (#[trigger] with_entry(entries, key, value)[i]).0
                == entries[i].0,
{
    lemma_key_position(entries, key);
    let k = key_position(entries, key);
    let after = with_entry(entries, key, value);
    assert forall|i: int, j: int| 0 <= i < j < after.len() implies (#[trigger] after[i]).0 != (
    #[trigger] after[j]).0 by {
        if j < entries.len() {
            assert(entries[i].0 != entries[j].0);
        } else {
            assert(entries[i].0 != key);
        }
    }
}

/// With unique keys, a removed key is gone.
pub proof fn lemma_removed_key_is_gone(entries: Seq<(Seq<char>, ValueView)>, key: Seq<char>)
    requires
        keys_unique(entries),
    ensures
        lookup(without_key(entries, key), key).is_none(),
{
    lemma_key_position(entries, key);
    let k = key_position(entries, key);
    let after = without_key(entries, key);
    assert forall|i: int| 0 <= i < after.len() implies (#[trigger] after[i]).0 != key by {
        if k < entries.len() {
            if i < k {
                assert(after[i] == entries[i]);
            } else {
                assert(after[i] == entries[i + 1]);
                assert(entries[k].0 != entries[i + 1].0);
            }
        }
    }
    lemma_key_position_is(after, key, after.len() as int);
}

/// A relational reference is an object whose member `value` is an integer: a float there,
/// whatever its value, makes no reference, nor does any other kind of value.
pub proof fn lemma_reference_needs_integer(v: ValueView)
    ensures
        reference_target(v).is_some() ==> (v is Object) && (field(v, TI_REF_FIELD_VALUE@)
            matches Some(ValueView::Number(n)) && !(n is F64)),
        field(v, TI_REF_FIELD_VALUE@) matches Some(ValueView::Number(NumberView::I64(id)))
            ==> reference_target(v) == Some(id),
{
}

} // verus!
