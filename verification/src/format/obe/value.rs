//! OBE values, the ordered field map that holds document fields, and the
//! mathematical model both are specified against.

use vstd::prelude::*;
use vstd::utf8::encode_utf8;

verus! {

/// A typed value in the OBE format.
///
/// `Float64` carries the IEEE-754 bit pattern of the float (what the format
/// stores), so that every value is a plain bit-exact datum.
#[derive(Debug, PartialEq)]
pub enum ObeValue {
    Null,
    Bool(bool),
    Int32(i32),
    Int64(i64),
    Float64(u64),
    String(String),
    Binary(Vec<u8>),
    Document(FieldMap<ObeValue>),
    Array(Vec<ObeValue>),
    Timestamp(u64),
    ObjectId([u8; 12]),
    Decimal128([u8; 16]),
}

/// A single named field of a document.
#[derive(Debug, PartialEq)]
pub struct ObeField {
    /// Field name (UTF-8 string).
    pub name: String,
    /// Field value.
    pub value: ObeValue,
}

/// A string-keyed ordered map.
///
/// Its entries are kept sorted strictly by the UTF-8 bytes of their keys (the
/// order of `str`), so iteration visits keys in ascending order and no key
/// occurs twice; every operation keeps that invariant (`keys_sorted`).
#[derive(Debug, Clone, PartialEq)]
pub struct FieldMap<V> {
    pub entries: Vec<(String, V)>,
}

// ── Key order ─────────────────────────────────────────────────────────────

/// The UTF-8 bytes of a key.
pub open spec fn key_bytes(k: Seq<char>) -> Seq<u8> {
    encode_utf8(k)
}

/// Lexicographic order on byte strings (a proper prefix is smaller).
pub open spec fn bytes_lt(a: Seq<u8>, b: Seq<u8>) -> bool
    decreases a.len(),
{
    if a.len() == 0 {
        b.len() > 0
    } else if b.len() == 0 {
        false
    } else if a[0] != b[0] {
        a[0] < b[0]
    } else {
        bytes_lt(a.drop_first(), b.drop_first())
    }
}

/// Keys strictly ascending by their UTF-8 bytes.
pub open spec fn keys_sorted<V>(s: Seq<(String, V)>) -> bool {
    forall|i: int, j: int|
        0 <= i < j < s.len() ==> bytes_lt(key_bytes(#[trigger] s[i].0@), key_bytes(#[trigger] s[j].0@))
}

/// Index of the first entry whose key is not below `k`, searching from `i`.
pub open spec fn lower_bound<V>(s: Seq<(String, V)>, k: Seq<u8>, i: nat) -> nat
    decreases s.len() - i,
{
    if i >= s.len() || !bytes_lt(key_bytes(s[i as int].0@), k) {
        i
    } else {
        lower_bound(s, k, i + 1)
    }
}

/// Index of the first entry whose key has the bytes `k`, searching from `i`.
pub open spec fn find_key<V>(s: Seq<(String, V)>, k: Seq<u8>, i: nat) -> Option<nat>
    decreases s.len() - i,
{
    if i >= s.len() {
        None
    } else if key_bytes(s[i as int].0@) == k {
        Some(i)
    } else {
        find_key(s, k, i + 1)
    }
}

/// The entries after inserting `(key, value)` the way an ordered map does:
/// an entry with the same key has its value replaced, otherwise the pair is
/// placed before the first larger key.
pub open spec fn map_insert<V>(s: Seq<(String, V)>, key: String, value: V) -> Seq<(String, V)> {
    let j = lower_bound(s, key_bytes(key@), 0);
    if j < s.len() && key_bytes(s[j as int].0@) == key_bytes(key@) {
        s.update(j as int, (s[j as int].0, value))
    } else {
        s.insert(j as int, (key, value))
    }
}

// ── Mathematical model ────────────────────────────────────────────────────

/// What an OBE value denotes: strings as character sequences, byte strings,
/// fixed arrays and collections as sequences, document fields in map order.
pub enum ValueModel {
    Null,
    Bool(bool),
    Int32(i32),
    Int64(i64),
    Float64(u64),
    Str(Seq<char>),
    Binary(Seq<u8>),
    Document(Seq<(Seq<char>, ValueModel)>),
    Array(Seq<ValueModel>),
    Timestamp(u64),
    ObjectId(Seq<u8>),
    Decimal128(Seq<u8>),
}

/// The model of a value.
pub open spec fn value_model(v: ObeValue) -> ValueModel
    decreases v,
{
    match v {
        ObeValue::Null => ValueModel::Null,
        ObeValue::Bool(b) => ValueModel::Bool(b),
        ObeValue::Int32(x) => ValueModel::Int32(x),
        ObeValue::Int64(x) => ValueModel::Int64(x),
        ObeValue::Float64(x) => ValueModel::Float64(x),
        ObeValue::String(s) => ValueModel::Str(s@),
        ObeValue::Binary(b) => ValueModel::Binary(b@),
        ObeValue::Document(m) => ValueModel::Document(fields_model(m.entries@)),
        ObeValue::Array(a) => ValueModel::Array(items_model(a@)),
        ObeValue::Timestamp(t) => ValueModel::Timestamp(t),
        ObeValue::ObjectId(o) => ValueModel::ObjectId(o@),
        ObeValue::Decimal128(d) => ValueModel::Decimal128(d@),
    }
}

/// The model of a sequence of fields: each key by its characters, each
/// value by its model, in the same order.
pub open spec fn fields_model(s: Seq<(String, ObeValue)>) -> Seq<(Seq<char>, ValueModel)>
    decreases s,
{
    if s.len() == 0 {
        Seq::empty()
    } else {
        fields_model(s.drop_last()).push((s.last().0@, value_model(s.last().1)))
    }
}

/// The models of a sequence of values, in order.
pub open spec fn items_model(s: Seq<ObeValue>) -> Seq<ValueModel>
    decreases s,
{
    if s.len() == 0 {
        Seq::empty()
    } else {
        items_model(s.drop_last()).push(value_model(s.last()))
    }
}

/// `fields_model` works entry by entry.
pub proof fn lemma_fields_model(s: Seq<(String, ObeValue)>)
    ensures
        fields_model(s).len() == s.len(),
        forall|i: int|
            0 <= i < s.len() ==> #[trigger] fields_model(s)[i] == (s[i].0@, value_model(s[i].1)),
    decreases s.len(),
{
    if s.len() > 0 {
        lemma_fields_model(s.drop_last());
    }
}

/// `items_model` works item by item.
pub proof fn lemma_items_model(s: Seq<ObeValue>)
    ensures
        items_model(s).len() == s.len(),
        forall|i: int| 0 <= i < s.len() ==> #[trigger] items_model(s)[i] == value_model(s[i]),
    decreases s.len(),
{
    if s.len() > 0 {
        lemma_items_model(s.drop_last());
    }
}

/// Model keys strictly ascending by their UTF-8 bytes.
pub open spec fn model_keys_sorted(s: Seq<(Seq<char>, ValueModel)>) -> bool {
    forall|i: int, j: int|
        0 <= i < j < s.len() ==> bytes_lt(key_bytes(#[trigger] s[i].0), key_bytes(#[trigger] s[j].0))
}

/// Index of the first model entry whose key is not below `k`, from `i`.
pub open spec fn model_lower_bound(s: Seq<(Seq<char>, ValueModel)>, k: Seq<u8>, i: nat) -> nat
    decreases s.len() - i,
{
    if i >= s.len() || !bytes_lt(key_bytes(s[i as int].0), k) {
        i
    } else {
        model_lower_bound(s, k, i + 1)
    }
}

/// Ordered-map insertion on a model field sequence (see `map_insert`).
pub open spec fn model_insert(s: Seq<(Seq<char>, ValueModel)>, k: Seq<char>, v: ValueModel) -> Seq<
    (Seq<char>, ValueModel),
> {
    let j = model_lower_bound(s, key_bytes(k), 0);
    if j < s.len() && key_bytes(s[j as int].0) == key_bytes(k) {
        s.update(j as int, (s[j as int].0, v))
    } else {
        s.insert(j as int, (k, v))
    }
}

/// The model of a map after an insertion is the model insertion.
pub proof fn lemma_insert_model(s: Seq<(String, ObeValue)>, key: String, value: ObeValue)
    ensures
        fields_model(map_insert(s, key, value)) == model_insert(fields_model(s), key@, value_model(value)),
{
    let k = key_bytes(key@);
    let m = fields_model(s);
    lemma_fields_model(s);
    lemma_lower_bound_model(s, k, 0);
    let j = lower_bound(s, k, 0);
    lemma_lower_bound(s, k, 0);
    let t = map_insert(s, key, value);
    lemma_fields_model(t);
    if j < s.len() && key_bytes(s[j as int].0@) == k {
        assert(fields_model(t) =~= m.update(j as int, (m[j as int].0, value_model(value))));
    } else {
        assert(fields_model(t) =~= m.insert(j as int, (key@, value_model(value))));
    }
}

/// The lower bound of a key is the same in a map and in its model.
proof fn lemma_lower_bound_model(s: Seq<(String, ObeValue)>, k: Seq<u8>, i: nat)
    requires
        i <= s.len(),
    ensures
        lower_bound(s, k, i) == model_lower_bound(fields_model(s), k, i),
    decreases s.len() - i,
{
    lemma_fields_model(s);
    if i < s.len() {
        assert(fields_model(s)[i as int].0 == s[i as int].0@);
        lemma_lower_bound_model(s, k, i + 1);
    }
}

/// Byte-wise comparison of two slices, as `<` on `[u8]`.
pub fn bytes_less(a: &[u8], b: &[u8]) -> (r: bool)
    ensures
        r == bytes_lt(a@, b@),
{
    let mut i: usize = 0;
    assert(a@.skip(0) =~= a@ && b@.skip(0) =~= b@);
    while i < a.len() && i < b.len()
        invariant
            i <= a@.len(),
            i <= b@.len(),
            bytes_lt(a@, b@) == bytes_lt(a@.skip(i as int), b@.skip(i as int)),
        decreases a@.len() - i,
    {
        if a[i] != b[i] {
            return a[i] < b[i];
        }
        proof {
            assert(a@.skip(i as int).drop_first() =~= a@.skip(i + 1));
            assert(b@.skip(i as int).drop_first() =~= b@.skip(i + 1));
        }
        i = i + 1;
    }
    i < b.len()
}

/// Byte-wise equality of two slices.
pub fn bytes_equal(a: &[u8], b: &[u8]) -> (r: bool)
    ensures
        r == (a@ == b@),
{
    if a.len() != b.len() {
        return false;
    }
    let mut i: usize = 0;
    while i < a.len()
        invariant
            a@.len() == b@.len(),
            i <= a@.len(),
            a@.take(i as int) == b@.take(i as int),
        decreases a@.len() - i,
    {
        if a[i] != b[i] {
            assert(a@[i as int] != b@[i as int]);
            return false;
        }
        proof {
            assert(a@.take(i + 1) =~= a@.take(i as int).push(a@[i as int]));
            assert(b@.take(i + 1) =~= b@.take(i as int).push(b@[i as int]));
        }
        i = i + 1;
    }
    assert(a@ =~= a@.take(i as int));
    assert(b@ =~= b@.take(i as int));
    true
}

impl<V> FieldMap<V> {
    /// An empty map.
    pub fn new() -> (m: Self)
        ensures
            m.entries@ == Seq::<(String, V)>::empty(),
    {
        FieldMap { entries: Vec::new() }
    }

    /// Number of entries.
    pub fn len(&self) -> (n: usize)
        ensures
            n == self.entries@.len(),
    {
        self.entries.len()
    }

    /// Whether the map has no entries.
    pub fn is_empty(&self) -> (b: bool)
        ensures
            b == (self.entries@.len() == 0),
    {
        self.entries.len() == 0
    }

    /// Position of the first entry whose key is not below `key`.
    fn lower_bound_of(&self, key: &[u8]) -> (j: usize)
        ensures
            j == lower_bound(self.entries@, key@, 0),
            j <= self.entries@.len(),
    {
        proof {
            lemma_lower_bound(self.entries@, key@, 0);
        }
        let mut i: usize = 0;
        while i < self.entries.len()
            invariant
                i <= self.entries@.len(),
                lower_bound(self.entries@, key@, 0) == lower_bound(self.entries@, key@, i as nat),
            decreases self.entries@.len() - i,
        {
            let k = self.entries[i].0.as_str().as_bytes();
            if !bytes_less(k, key) {
                return i;
            }
            i = i + 1;
        }
        i
    }

    /// Position of the entry whose key has the bytes `key`, if any.
    pub fn position(&self, key: &[u8]) -> (r: Option<usize>)
        ensures
            match find_key(self.entries@, key@, 0) {
                Some(i) => r matches Some(x) && x == i,
                None => r is None,
            },
    {
        proof {
            lemma_find_key(self.entries@, key@, 0);
        }
        let mut i: usize = 0;
        while i < self.entries.len()
            invariant
                i <= self.entries@.len(),
                find_key(self.entries@, key@, 0) == find_key(self.entries@, key@, i as nat),
            decreases self.entries@.len() - i,
        {
            let k = self.entries[i].0.as_str().as_bytes();
            if bytes_equal(k, key) {
                return Some(i);
            }
            i = i + 1;
        }
        None
    }

    /// The value stored under `key`.
    pub fn get(&self, key: &str) -> (r: Option<&V>)
        ensures
            match find_key(self.entries@, key_bytes(key@), 0) {
                Some(i) => r == Some(&self.entries@[i as int].1),
                None => r is None,
            },
    {
        proof {
            lemma_find_key(self.entries@, key_bytes(key@), 0);
        }
        let kb = key.as_bytes();
        assert(kb@ == key_bytes(key@));
        match self.position(kb) {
            Some(i) => Some(&self.entries[i].1),
            None => None,
        }
    }

    /// Whether `key` is present.
    pub fn contains_key(&self, key: &str) -> (b: bool)
        ensures
            b == find_key(self.entries@, key_bytes(key@), 0) is Some,
    {
        self.position(key.as_bytes()).is_some()
    }

    /// Insert `value` under `key`, returning the value it replaces.
    pub fn insert(&mut self, key: String, value: V) -> (old_value: Option<V>)
        ensures
            final(self).entries@ == map_insert(old(self).entries@, key, value),
            ({
                let s = old(self).entries@;
                let j = lower_bound(s, key_bytes(key@), 0);
                if j < s.len() && key_bytes(s[j as int].0@) == key_bytes(key@) {
                    old_value == Some(s[j as int].1)
                } else {
                    old_value is None
                }
            }),
            keys_sorted(old(self).entries@) ==> keys_sorted(final(self).entries@),
    {
        let ghost s = self.entries@;
        let j = self.lower_bound_of(key.as_str().as_bytes());
        if j < self.entries.len() && bytes_equal(
            self.entries[j].0.as_str().as_bytes(),
            key.as_str().as_bytes(),
        ) {
            let (k, v) = self.entries.remove(j);
            self.entries.insert(j, (k, value));
            proof {
                assert(self.entries@ =~= s.update(j as int, (s[j as int].0, value)));
                assert(keys_sorted(s) ==> keys_sorted(self.entries@)) by {
                    if keys_sorted(s) {
                        assert forall|a: int, b: int| 0 <= a < b < self.entries@.len() implies bytes_lt(
                            key_bytes(#[trigger] self.entries@[a].0@),
                            key_bytes(#[trigger] self.entries@[b].0@),
                        ) by {
                            assert(self.entries@[a].0 == s[a].0);
                            assert(self.entries@[b].0 == s[b].0);
                        }
                    }
                }
            }
            Some(v)
        } else {
            self.entries.insert(j, (key, value));
            proof {
                lemma_insert_keeps_sorted(s, key, value, j as nat);
            }
            None
        }
    }

    /// Remove the entry under `key`, returning its value.
    pub fn remove(&mut self, key: &str) -> (r: Option<V>)
        ensures
            match find_key(old(self).entries@, key_bytes(key@), 0) {
                Some(i) => r == Some(old(self).entries@[i as int].1) && final(self).entries@
                    == old(self).entries@.remove(i as int),
                None => r is None && final(self).entries@ == old(self).entries@,
            },
            keys_sorted(old(self).entries@) ==> keys_sorted(final(self).entries@),
    {
        proof {
            lemma_find_key(self.entries@, key_bytes(key@), 0);
        }
        match self.position(key.as_bytes()) {
            Some(i) => {
                let ghost s = self.entries@;
                let (_, v) = self.entries.remove(i);
                proof {
                    assert(keys_sorted(s) ==> keys_sorted(self.entries@)) by {
                        if keys_sorted(s) {
                            assert forall|a: int, b: int| 0 <= a < b < self.entries@.len() implies bytes_lt(
                                key_bytes(#[trigger] self.entries@[a].0@),
                                key_bytes(#[trigger] self.entries@[b].0@),
                            ) by {
                                let a2 = if a < i { a } else { a + 1 };
                                let b2 = if b < i { b } else { b + 1 };
                                assert(self.entries@[a] == s[a2]);
                                assert(self.entries@[b] == s[b2]);
                            }
                        }
                    }
                }
                Some(v)
            },
            None => None,
        }
    }
}

/// Inserting a key that is absent at its lower bound keeps a sorted map
/// sorted.
proof fn lemma_insert_keeps_sorted<V>(s: Seq<(String, V)>, key: String, value: V, j: nat)
    requires
        j == lower_bound(s, key_bytes(key@), 0),
        !(j < s.len() && key_bytes(s[j as int].0@) == key_bytes(key@)),
    ensures
        keys_sorted(s) ==> keys_sorted(s.insert(j as int, (key, value))),
{
    let k = key_bytes(key@);
    lemma_lower_bound(s, k, 0);
    if keys_sorted(s) {
        let t = s.insert(j as int, (key, value));
        if j < s.len() {
            lemma_bytes_lt_total(key_bytes(s[j as int].0@), k);
        }
        assert forall|a: int, b: int| 0 <= a < b < t.len() implies bytes_lt(
            key_bytes(#[trigger] t[a].0@),
            key_bytes(#[trigger] t[b].0@),
        ) by {
            if a < j && b < j {
                assert(t[a] == s[a] && t[b] == s[b]);
            } else if a < j && b == j {
                assert(t[a] == s[a]);
            } else if a < j {
                assert(t[a] == s[a] && t[b] == s[b - 1]);
                assert(bytes_lt(key_bytes(s[a].0@), k));
                if b - 1 > j {
                    assert(bytes_lt(key_bytes(s[j as int].0@), key_bytes(s[b - 1].0@)));
                    lemma_bytes_lt_transitive(k, key_bytes(s[j as int].0@), key_bytes(s[b - 1].0@));
                }
                lemma_bytes_lt_transitive(key_bytes(s[a].0@), k, key_bytes(s[b - 1].0@));
            } else if a == j {
                assert(t[b] == s[b - 1]);
                if b - 1 > j {
                    assert(bytes_lt(key_bytes(s[j as int].0@), key_bytes(s[b - 1].0@)));
                    lemma_bytes_lt_transitive(k, key_bytes(s[j as int].0@), key_bytes(s[b - 1].0@));
                }
            } else {
                assert(t[a] == s[a - 1] && t[b] == s[b - 1]);
            }
        }
    }
}

/// The value a map holds under the key bytes `k`.
pub open spec fn lookup<V>(s: Seq<(String, V)>, k: Seq<u8>) -> Option<V> {
    match find_key(s, k, 0) {
        Some(i) => Some(s[i as int].1),
        None => None,
    }
}

/// In a sorted map, an entry holding `k` is the one `find_key` finds.
pub proof fn lemma_find_sorted<V>(s: Seq<(String, V)>, k: Seq<u8>, i: int)
    requires
        keys_sorted(s),
        0 <= i < s.len(),
        key_bytes(s[i].0@) == k,
    ensures
        find_key(s, k, 0) == Some(i as nat),
{
    lemma_find_key(s, k, 0);
    match find_key(s, k, 0) {
        Some(m) => {
            if m < i {
                lemma_bytes_lt_irreflexive(k);
            }
        },
        None => {},
    }
}

/// Ordered-map law: after inserting `value` under `key`, the key maps to
/// `value` and every other key maps to what it did before.
pub proof fn lemma_lookup_after_insert<V>(s: Seq<(String, V)>, key: String, value: V, other: Seq<u8>)
    requires
        keys_sorted(s),
    ensures
        keys_sorted(map_insert(s, key, value)),
        lookup(map_insert(s, key, value), key_bytes(key@)) == Some(value),
        other != key_bytes(key@) ==> lookup(map_insert(s, key, value), other) == lookup(s, other),
{
    let k = key_bytes(key@);
    let t = map_insert(s, key, value);
    let j = lower_bound(s, k, 0);
    lemma_lower_bound(s, k, 0);
    let hit = j < s.len() && key_bytes(s[j as int].0@) == k;
    if !hit {
        lemma_insert_keeps_sorted(s, key, value, j);
    } else {
        assert forall|a: int, b: int| 0 <= a < b < t.len() implies bytes_lt(
            key_bytes(#[trigger] t[a].0@),
            key_bytes(#[trigger] t[b].0@),
        ) by {
            assert(t[a].0 == s[a].0 && t[b].0 == s[b].0);
        }
    }
    lemma_find_sorted(t, k, j as int);
    if other != k {
        lemma_find_key(s, other, 0);
        lemma_find_key(t, other, 0);
        match find_key(s, other, 0) {
            Some(i) => {
                let i2: int = if hit || i < j {
                    i as int
                } else {
                    (i + 1) as int
                };
                assert(t[i2] == s[i as int]);
                lemma_find_sorted(t, other, i2);
            },
            None => {
                match find_key(t, other, 0) {
                    Some(i2) => {
                        let i: int = if hit || i2 < j {
                            i2 as int
                        } else {
                            i2 - 1
                        };
                        assert(t[i2 as int] == s[i]);
                    },
                    None => {},
                }
            },
        }
    }
}

/// Ordered-map law: after removing `key`, it maps to nothing and every
/// other key maps to what it did before.
pub proof fn lemma_lookup_after_remove<V>(s: Seq<(String, V)>, k: Seq<u8>, other: Seq<u8>)
    requires
        keys_sorted(s),
        find_key(s, k, 0) is Some,
    ensures
        lookup(s.remove(find_key(s, k, 0)->0 as int), k) is None,
        other != k ==> lookup(s.remove(find_key(s, k, 0)->0 as int), other) == lookup(s, other),
{
    let j = find_key(s, k, 0)->0 as int;
    let t = s.remove(j);
    lemma_find_key(s, k, 0);
    assert(keys_sorted(t)) by {
        assert forall|a: int, b: int| 0 <= a < b < t.len() implies bytes_lt(
            key_bytes(#[trigger] t[a].0@),
            key_bytes(#[trigger] t[b].0@),
        ) by {
            let a2 = if a < j { a } else { a + 1 };
            let b2 = if b < j { b } else { b + 1 };
            assert(t[a] == s[a2] && t[b] == s[b2]);
        }
    }
    lemma_find_key(t, k, 0);
    match find_key(t, k, 0) {
        Some(i) => {
            let i2: int = if i < j { i as int } else { (i + 1) as int };
            assert(t[i as int] == s[i2]);
            if i2 < j {
            } else {
                assert(bytes_lt(key_bytes(s[j].0@), key_bytes(s[i2].0@)));
                lemma_bytes_lt_irreflexive(k);
            }
        },
        None => {},
    }
    if other != k {
        lemma_find_key(s, other, 0);
        lemma_find_key(t, other, 0);
        match find_key(s, other, 0) {
            Some(i) => {
                let i2: int = if i < j { i as int } else { i - 1 };
                assert(t[i2] == s[i as int]);
                lemma_find_sorted(t, other, i2);
            },
            None => {
                match find_key(t, other, 0) {
                    Some(i2) => {
                        let i: int = if i2 < j { i2 as int } else { (i2 + 1) as int };
                        assert(t[i2 as int] == s[i]);
                    },
                    None => {},
                }
            },
        }
    }
}

/// `find_key` only ever returns an index at or after its start, holding the
/// key, with no earlier match.
pub proof fn lemma_find_key<V>(s: Seq<(String, V)>, k: Seq<u8>, i: nat)
    ensures
        match find_key(s, k, i) {
            Some(j) => i <= j < s.len() && key_bytes(s[j as int].0@) == k && forall|m: int|
                i <= m < j ==> key_bytes(#[trigger] s[m].0@) != k,
            None => forall|m: int| i <= m < s.len() ==> key_bytes(#[trigger] s[m].0@) != k,
        },
    decreases s.len() - i,
{
    if i < s.len() && key_bytes(s[i as int].0@) != k {
        lemma_find_key(s, k, i + 1);
    }
}

/// `lower_bound` lies between its start and the length, and every entry it
/// skips is below `k`.
pub proof fn lemma_lower_bound<V>(s: Seq<(String, V)>, k: Seq<u8>, i: nat)
    requires
        i <= s.len(),
    ensures
        i <= lower_bound(s, k, i) <= s.len(),
        forall|m: int|
            i <= m < lower_bound(s, k, i) ==> bytes_lt(key_bytes(#[trigger] s[m].0@), k),
        lower_bound(s, k, i) < s.len() ==> !bytes_lt(key_bytes(s[lower_bound(s, k, i) as int].0@), k),
    decreases s.len() - i,
{
    if i < s.len() && bytes_lt(key_bytes(s[i as int].0@), k) {
        lemma_lower_bound(s, k, i + 1);
    }
}

/// No byte string is below itself.
pub proof fn lemma_bytes_lt_irreflexive(a: Seq<u8>)
    ensures
        !bytes_lt(a, a),
    decreases a.len(),
{
    if a.len() > 0 {
        lemma_bytes_lt_irreflexive(a.drop_first());
    }
}

/// Byte order is transitive.
pub proof fn lemma_bytes_lt_transitive(a: Seq<u8>, b: Seq<u8>, c: Seq<u8>)
    requires
        bytes_lt(a, b),
        bytes_lt(b, c),
    ensures
        bytes_lt(a, c),
    decreases a.len(),
{
    if a.len() > 0 && b.len() > 0 && c.len() > 0 && a[0] == b[0] && b[0] == c[0] {
        lemma_bytes_lt_transitive(a.drop_first(), b.drop_first(), c.drop_first());
    }
}

/// Byte order is total on distinct strings.
pub proof fn lemma_bytes_lt_total(a: Seq<u8>, b: Seq<u8>)
    requires
        a != b,
    ensures
        bytes_lt(a, b) || bytes_lt(b, a),
    decreases a.len(),
{
    if a.len() > 0 && b.len() > 0 && a[0] == b[0] {
        if a.drop_first() == b.drop_first() {
            assert(a =~= seq![a[0]] + a.drop_first());
            assert(b =~= seq![b[0]] + b.drop_first());
        }
        lemma_bytes_lt_total(a.drop_first(), b.drop_first());
    } else if a.len() == 0 && b.len() == 0 {
        assert(a =~= b);
    }
}

/// In a sorted map, the key at the lower bound of `k` is the only one that
/// can hold `k`.
proof fn lemma_find_at_lower_bound<V>(s: Seq<(String, V)>, k: Seq<u8>, j: nat)
    requires
        j == lower_bound(s, k, 0),
        j < s.len(),
        key_bytes(s[j as int].0@) == k,
    ensures
        find_key(s, k, 0) == Some(j),
{
    lemma_lower_bound(s, k, 0);
    lemma_find_key(s, k, 0);
    match find_key(s, k, 0) {
        Some(m) => {
            if m < j {
                lemma_bytes_lt_irreflexive(k);
            }
        },
        None => {},
    }
}

/// When the key at the lower bound differs from `k`, a sorted map holds no
/// `k` at all; an unsorted one may, and the insert then adds a second entry.
proof fn lemma_find_absent<V>(s: Seq<(String, V)>, k: Seq<u8>, j: nat)
    requires
        j == lower_bound(s, k, 0),
        !(j < s.len() && key_bytes(s[j as int].0@) == k),
    ensures
        keys_sorted(s) ==> find_key(s, k, 0) is None,
{
    lemma_lower_bound(s, k, 0);
    lemma_find_key(s, k, 0);
    if keys_sorted(s) {
        match find_key(s, k, 0) {
            Some(m) => {
                if m < j {
                    lemma_bytes_lt_irreflexive(k);
                } else {
                    // s[j] is not below k, and differs from it, so it is above it
                    let kj = key_bytes(s[j as int].0@);
                    lemma_bytes_lt_total(kj, k);
                    lemma_bytes_lt_transitive(k, kj, key_bytes(s[m as int].0@));
                    lemma_bytes_lt_irreflexive(k);
                }
            },
            None => {},
        }
    }
}

} // verus!
