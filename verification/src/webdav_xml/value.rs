//! Generic element content: the value of an XML element and the map of the
//! child elements of an element.

use vstd::prelude::*;

use super::{result_model, Element, FromValue, XmlError};

verus! {

/// A qualified element name: its namespace URI, if any, and its local name
/// (its qualified name when the namespace is not known).
#[derive(Debug)]
pub struct ElementName {
    pub namespace: Option<String>,
    pub local_name: String,
}

/// The content of an XML element.
#[derive(Debug)]
pub enum Value {
    /// The element is empty, e.g. `<foo />`.
    Empty,
    /// The element holds a text node, e.g. `<foo>bar</foo>`.
    Text(String),
    /// The element holds child elements, e.g. `<foo><bar /></foo>`.
    Elements(ValueMap),
    /// The parent element holds several elements of this name, in order.
    List(Vec<Value>),
}

/// The child elements of an element, grouped by name in the order their
/// names first appeared.
#[derive(Debug)]
pub struct ValueMap {
    pub entries: Vec<(ElementName, Value)>,
}

/// The key of an element name: its namespace and local name.
pub type NameKey = (Option<Seq<char>>, Seq<char>);

/// The model of a value: what it holds, with names as keys.
pub enum ValueModel {
    Empty,
    Text(Seq<char>),
    Elements(Seq<(NameKey, ValueModel)>),
    List(Seq<ValueModel>),
}

/// The key an element name is looked up by: the prefix of a name plays no
/// part.
pub open spec fn name_key(name: ElementName) -> NameKey {
    (
        match name.namespace {
            Some(ns) => Some(ns@),
            None => None,
        },
        name.local_name@,
    )
}

/// The key of an element of the `DAV:` namespace.
pub open spec fn dav_key(local_name: Seq<char>) -> NameKey {
    (Some("DAV:"@), local_name)
}

/// The model of a value.
pub open spec fn value_model(v: Value) -> ValueModel
    decreases v,
{
    match v {
        Value::Empty => ValueModel::Empty,
        Value::Text(s) => ValueModel::Text(s@),
        Value::Elements(m) => ValueModel::Elements(entries_model(m.entries@)),
        Value::List(vs) => ValueModel::List(values_model(vs@)),
    }
}

/// The model of a sequence of map entries.
pub open spec fn entries_model(es: Seq<(ElementName, Value)>) -> Seq<(NameKey, ValueModel)>
    decreases es,
{
    if es.len() == 0 {
        Seq::empty()
    } else {
        seq![(name_key(es[0].0), value_model(es[0].1))] + entries_model(es.drop_first())
    }
}

/// The model of a sequence of values.
pub open spec fn values_model(vs: Seq<Value>) -> Seq<ValueModel>
    decreases vs,
{
    if vs.len() == 0 {
        Seq::empty()
    } else {
        seq![value_model(vs[0])] + values_model(vs.drop_first())
    }
}

/// The index of the first entry of `m` named `key`.
pub open spec fn model_find(m: Seq<(NameKey, ValueModel)>, key: NameKey) -> Option<int>
    decreases m.len(),
{
    if m.len() == 0 {
        None
    } else if m[0].0 == key {
        Some(0)
    } else {
        match model_find(m.drop_first(), key) {
            Some(i) => Some(i + 1),
            None => None,
        }
    }
}

/// The value of the first entry of `m` named `key`.
pub open spec fn model_get(m: Seq<(NameKey, ValueModel)>, key: NameKey) -> Option<ValueModel> {
    match model_find(m, key) {
        Some(i) => Some(m[i].1),
        None => None,
    }
}

/// The occurrences a value stands for: each element of a list, or the value
/// itself.
pub open spec fn model_occurrences(v: ValueModel) -> Seq<ValueModel> {
    match v {
        ValueModel::List(vs) => vs,
        _ => seq![v],
    }
}

/// The occurrences of the elements named `key` in `m`, in document order.
pub open spec fn occurrences_of(m: Seq<(NameKey, ValueModel)>, key: NameKey) -> Seq<ValueModel> {
    match model_get(m, key) {
        Some(v) => model_occurrences(v),
        None => Seq::empty(),
    }
}

/// A value a map holds under a name: a list holds at least two values and
/// no list.
pub open spec fn is_entry_model(v: ValueModel) -> bool {
    match v {
        ValueModel::List(vs) => vs.len() >= 2 && forall|i: int|
            0 <= i < vs.len() ==> !(#[trigger] vs[i] is List),
        _ => true,
    }
}

/// A well-formed map model: names are distinct and every value is an
/// entry value.
pub open spec fn wf_model(m: Seq<(NameKey, ValueModel)>) -> bool {
    &&& forall|i: int, j: int| 0 <= i < j < m.len() ==> (#[trigger] m[i]).0 != (#[trigger] m[j]).0
    &&& forall|i: int| 0 <= i < m.len() ==> is_entry_model((#[trigger] m[i]).1)
}

pub proof fn lemma_entries_model(es: Seq<(ElementName, Value)>)
    ensures
        entries_model(es).len() == es.len(),
        forall|i: int|
            0 <= i < es.len() ==> #[trigger] entries_model(es)[i] == (
                name_key(es[i].0),
                value_model(es[i].1),
            ),
    decreases es.len(),
{
    if es.len() > 0 {
        lemma_entries_model(es.drop_first());
        assert forall|i: int| 0 <= i < es.len() implies #[trigger] entries_model(es)[i] == (
            name_key(es[i].0),
            value_model(es[i].1),
        ) by {
            if i > 0 {
                assert(entries_model(es)[i] == entries_model(es.drop_first())[i - 1]);
            }
        }
    }
}

pub proof fn lemma_values_model(vs: Seq<Value>)
    ensures
        values_model(vs).len() == vs.len(),
        forall|i: int| 0 <= i < vs.len() ==> #[trigger] values_model(vs)[i] == value_model(vs[i]),
    decreases vs.len(),
{
    if vs.len() > 0 {
        lemma_values_model(vs.drop_first());
        assert forall|i: int| 0 <= i < vs.len() implies #[trigger] values_model(vs)[i]
            == value_model(vs[i]) by {
            if i > 0 {
                assert(values_model(vs)[i] == values_model(vs.drop_first())[i - 1]);
            }
        }
    }
}

/// `model_find` gives the first entry named `key`, or `None` when no entry
/// is named so.
pub proof fn lemma_model_find(m: Seq<(NameKey, ValueModel)>, key: NameKey)
    ensures
        match model_find(m, key) {
            Some(i) => 0 <= i < m.len() && m[i].0 == key && forall|j: int|
                0 <= j < i ==> (#[trigger] m[j]).0 != key,
            None => forall|j: int| 0 <= j < m.len() ==> (#[trigger] m[j]).0 != key,
        },
    decreases m.len(),
{
    if m.len() > 0 && m[0].0 != key {
        lemma_model_find(m.drop_first(), key);
        match model_find(m.drop_first(), key) {
            Some(i) => {
                assert forall|j: int| 0 <= j < i + 1 implies (#[trigger] m[j]).0 != key by {
                    if j > 0 {
                        assert(m[j] == m.drop_first()[j - 1]);
                    }
                }
            },
            None => {
                assert forall|j: int| 0 <= j < m.len() implies (#[trigger] m[j]).0 != key by {
                    if j > 0 {
                        assert(m[j] == m.drop_first()[j - 1]);
                    }
                }
            },
        }
    }
}

/// The first index named `key` is what `model_find` gives.
proof fn lemma_model_find_first(m: Seq<(NameKey, ValueModel)>, key: NameKey, i: int)
    requires
        0 <= i < m.len(),
        m[i].0 == key,
        forall|j: int| 0 <= j < i ==> (#[trigger] m[j]).0 != key,
    ensures
        model_find(m, key) == Some(i),
{
    lemma_model_find(m, key);
}

/// Maps whose names agree position by position find every name at the same
/// index.
proof fn lemma_model_find_same_keys(
    m1: Seq<(NameKey, ValueModel)>,
    m2: Seq<(NameKey, ValueModel)>,
    key: NameKey,
)
    requires
        m1.len() == m2.len(),
        forall|i: int| 0 <= i < m1.len() ==> (#[trigger] m1[i]).0 == m2[i].0,
    ensures
        model_find(m1, key) == model_find(m2, key),
{
    lemma_model_find(m1, key);
    lemma_model_find(m2, key);
    match model_find(m1, key) {
        Some(i) => {
            assert forall|j: int| 0 <= j < i implies (#[trigger] m2[j]).0 != key by {
                assert(m1[j].0 == m2[j].0);
            }
            lemma_model_find_first(m2, key, i);
        },
        None => {
            match model_find(m2, key) {
                Some(i) => {
                    assert(m1[i].0 == m2[i].0);
                },
                None => {},
            }
        },
    }
}

/// Clones a name.
pub fn copy_name(name: &ElementName) -> (r: ElementName)
    ensures
        name_key(r) == name_key(*name),
{
    let namespace = match &name.namespace {
        Some(ns) => Some(ns.clone()),
        None => None,
    };
    ElementName { namespace, local_name: name.local_name.clone() }
}

/// Clones a value.
pub fn copy_value(v: &Value) -> (r: Value)
    ensures
        value_model(r) == value_model(*v),
    decreases v,
{
    match v {
        Value::Empty => Value::Empty,
        Value::Text(s) => Value::Text(s.clone()),
        Value::Elements(m) => Value::Elements(copy_map(m)),
        Value::List(vs) => Value::List(copy_values(vs)),
    }
}

/// Clones a sequence of values.
pub fn copy_values(vs: &Vec<Value>) -> (r: Vec<Value>)
    ensures
        values_model(r@) == values_model(vs@),
    decreases vs,
{
    let mut out: Vec<Value> = Vec::new();
    let n = vs.len();
    for i in 0..n
        invariant
            n == vs@.len(),
            values_model(out@) == values_model(vs@.take(i as int)),
    {
        proof {
            assert(decreases_to!(*vs => vs@));
            assert(decreases_to!(vs@ => vs@[i as int]));
        }
        let c = copy_value(&vs[i]);
        proof {
            lemma_values_model(out@);
            lemma_values_model(vs@.take(i as int));
            lemma_values_model(out@.push(c));
            lemma_values_model(vs@.take(i + 1));
            assert forall|j: int| 0 <= j < i + 1 implies values_model(out@.push(c))[j]
                == values_model(vs@.take(i + 1))[j] by {
                if j < i {
                    assert(values_model(out@)[j] == values_model(vs@.take(i as int))[j]);
                    assert(out@.push(c)[j] == out@[j]);
                    assert(vs@.take(i + 1)[j] == vs@.take(i as int)[j]);
                }
            }
            assert(values_model(out@.push(c)) =~= values_model(vs@.take(i + 1)));
        }
        out.push(c);
    }
    assert(vs@.take(n as int) == vs@);
    out
}

/// Clones a map.
pub fn copy_map(m: &ValueMap) -> (r: ValueMap)
    ensures
        entries_model(r.entries@) == entries_model(m.entries@),
    decreases m,
{
    let mut out: Vec<(ElementName, Value)> = Vec::new();
    let n = m.entries.len();
    for i in 0..n
        invariant
            n == m.entries@.len(),
            entries_model(out@) == entries_model(m.entries@.take(i as int)),
    {
        proof {
            assert(decreases_to!(*m => m.entries));
            assert(decreases_to!(m.entries => m.entries@));
            assert(decreases_to!(m.entries@ => m.entries@[i as int]));
            assert(decreases_to!(m.entries@[i as int] => m.entries@[i as int].1));
        }
        let name = copy_name(&m.entries[i].0);
        let value = copy_value(&m.entries[i].1);
        proof {
            lemma_entries_model(out@);
            lemma_entries_model(m.entries@.take(i as int));
            lemma_entries_model(out@.push((name, value)));
            lemma_entries_model(m.entries@.take(i + 1));
            assert forall|j: int| 0 <= j < i + 1 implies entries_model(out@.push((name, value)))[j]
                == entries_model(m.entries@.take(i + 1))[j] by {
                if j < i {
                    assert(entries_model(out@)[j] == entries_model(m.entries@.take(i as int))[j]);
                    assert(out@.push((name, value))[j] == out@[j]);
                    assert(m.entries@.take(i + 1)[j] == m.entries@.take(i as int)[j]);
                }
            }
            assert(entries_model(out@.push((name, value))) =~= entries_model(
                m.entries@.take(i + 1),
            ));
        }
        out.push((name, value));
    }
    assert(m.entries@.take(n as int) == m.entries@);
    ValueMap { entries: out }
}

/// The map after one more element named `key` with a value that is not a
/// list: a new name is appended, and the occurrences of a known name grow
/// into a list.
pub open spec fn spec_insert_one(m: Seq<(NameKey, ValueModel)>, key: NameKey, v: ValueModel) -> Seq<
    (NameKey, ValueModel),
> {
    match model_find(m, key) {
        None => m.push((key, v)),
        Some(i) => m.update(i, (key, ValueModel::List(model_occurrences(m[i].1).push(v)))),
    }
}

/// The map after elements named `key` with each of `vs`, in order.
pub open spec fn spec_insert_all(m: Seq<(NameKey, ValueModel)>, key: NameKey, vs: Seq<ValueModel>) -> Seq<
    (NameKey, ValueModel),
>
    decreases vs.len(),
{
    if vs.len() == 0 {
        m
    } else {
        spec_insert_one(spec_insert_all(m, key, vs.drop_last()), key, vs.last())
    }
}

/// The values an inserted value stands for: each element of a list,
/// itself flattened, or the value itself.
pub open spec fn flatten(v: ValueModel) -> Seq<ValueModel>
    decreases v,
{
    match v {
        ValueModel::List(vs) => flatten_all(vs),
        _ => seq![v],
    }
}

/// The values that the elements of `vs` stand for, in order.
pub open spec fn flatten_all(vs: Seq<ValueModel>) -> Seq<ValueModel>
    decreases vs,
{
    if vs.len() == 0 {
        Seq::empty()
    } else {
        flatten_all(vs.drop_last()) + flatten(vs.last())
    }
}

/// The map after `insert_raw(key, v)`: the values `v` stands for are
/// inserted one by one.
pub open spec fn spec_insert_raw(m: Seq<(NameKey, ValueModel)>, key: NameKey, v: ValueModel) -> Seq<
    (NameKey, ValueModel),
> {
    spec_insert_all(m, key, flatten(v))
}

/// Whether two names have the same key.
pub fn same_name(a: &ElementName, b: &ElementName) -> (r: bool)
    ensures
        r == (name_key(*a) == name_key(*b)),
{
    let same_namespace = match (&a.namespace, &b.namespace) {
        (Some(x), Some(y)) => *x == *y,
        (None, None) => true,
        _ => false,
    };
    same_namespace && a.local_name == b.local_name
}

impl ValueMap {
    /// The model of the map: each name's key with its value's model.
    pub open spec fn model(&self) -> Seq<(NameKey, ValueModel)> {
        entries_model(self.entries@)
    }

    /// Well-formedness: names are distinct and lists hold two values or more
    /// and no list.
    pub open spec fn wf(&self) -> bool {
        wf_model(self.model())
    }

    /// An empty map.
    pub fn new() -> (m: ValueMap)
        ensures
            m.model().len() == 0,
            m.wf(),
    {
        ValueMap { entries: Vec::new() }
    }

    /// The number of distinct names in the map.
    pub fn len(&self) -> (n: usize)
        ensures
            n == self.model().len(),
    {
        proof {
            lemma_entries_model(self.entries@);
        }
        self.entries.len()
    }

    /// The index of the entry named like `key`.
    pub fn find(&self, key: &ElementName) -> (r: Option<usize>)
        ensures
            match r {
                Some(i) => model_find(self.model(), name_key(*key)) == Some(i as int) && i
                    < self.entries@.len(),
                None => model_find(self.model(), name_key(*key)) is None,
            },
    {
        proof {
            lemma_entries_model(self.entries@);
            lemma_model_find(self.model(), name_key(*key));
        }
        let n = self.entries.len();
        for i in 0..n
            invariant
                n == self.entries@.len(),
                n == self.model().len(),
                forall|j: int|
                    0 <= j < self.entries@.len() ==> #[trigger] self.model()[j] == (
                        name_key(self.entries@[j].0),
                        value_model(self.entries@[j].1),
                    ),
                forall|j: int| 0 <= j < i ==> (#[trigger] self.model()[j]).0 != name_key(*key),
        {
            if same_name(&self.entries[i].0, key) {
                proof {
                    lemma_model_find_first(self.model(), name_key(*key), i as int);
                }
                return Some(i);
            }
        }
        None
    }

    /// The value of the entry named like `key`.
    pub fn get_value(&self, key: &ElementName) -> (r: Option<&Value>)
        ensures
            match r {
                Some(v) => model_get(self.model(), name_key(*key)) == Some(value_model(*v)),
                None => model_get(self.model(), name_key(*key)) is None,
            },
    {
        proof {
            lemma_entries_model(self.entries@);
        }
        match self.find(key) {
            Some(i) => Some(&self.entries[i].1),
            None => None,
        }
    }

    fn insert_one(&mut self, key: ElementName, value: Value)
        requires
            !(value_model(value) is List),
        ensures
            final(self).model() == spec_insert_one(old(self).model(), name_key(key), value_model(value)),
    {
        proof {
            lemma_entries_model(self.entries@);
        }
        match self.find(&key) {
            None => {
                let ghost before = self.entries@;
                self.entries.push((key, value));
                proof {
                    lemma_entries_model(self.entries@);
                    assert(self.model() =~= entries_model(before).push((name_key(key), value_model(value))));
                }
            },
            Some(i) => {
                let ghost before = self.entries@;
                let ghost m = self.model();
                let (name, old_value) = self.entries.remove(i);
                proof {
                    lemma_model_find(m, name_key(key));
                }
                let grouped = match old_value {
                    Value::List(mut vs) => {
                        let ghost old_vs = vs@;
                        vs.push(value);
                        proof {
                            lemma_values_model(old_vs);
                            lemma_values_model(vs@);
                            assert(values_model(vs@) =~= values_model(old_vs).push(value_model(value)));
                        }
                        Value::List(vs)
                    },
                    other => {
                        let vs = vec![other, value];
                        proof {
                            lemma_values_model(vs@);
                            assert(values_model(vs@) =~= seq![value_model(other)].push(value_model(value)));
                        }
                        Value::List(vs)
                    },
                };
                self.entries.insert(i, (name, grouped));
                proof {
                    assert(self.entries@ =~= before.update(i as int, (name, grouped)));
                    lemma_entries_model(self.entries@);
                    assert(self.model() =~= m.update(
                        i as int,
                        (name_key(key), ValueModel::List(model_occurrences(m[i as int].1).push(value_model(value)))),
                    ));
                }
            },
        }
    }

    /// Appends a child element: a name seen before groups its values into a
    /// list in document order, and a list is appended element by element,
    /// a nested list flattened in turn.
    pub fn insert_raw(&mut self, key: ElementName, value: Value)
        ensures
            final(self).model() == spec_insert_raw(old(self).model(), name_key(key), value_model(value)),
        decreases value,
    {
        let ghost whole = value;
        match value {
            Value::List(vs) => {
                let ghost all = vs@;
                let ghost start = self.model();
                proof {
                    lemma_values_model(all);
                    assert forall|j: int| 0 <= j < all.len() implies decreases_to!(whole => #[trigger] all[j]) by {
                        assert(decreases_to!(whole => vs));
                        assert(decreases_to!(vs => vs@));
                        assert(decreases_to!(vs@ => vs@[j]));
                    }
                }
                let mut vs = vs;
                let mut i: usize = 0;
                let n = vs.len();
                while vs.len() > 0
                    invariant
                        i + vs@.len() == n,
                        n == all.len(),
                        vs@ == all.skip(i as int),
                        values_model(all).len() == all.len(),
                        forall|j: int| 0 <= j < all.len() ==> #[trigger] values_model(all)[j] == value_model(all[j]),
                        whole == value,
                        forall|j: int| 0 <= j < all.len() ==> decreases_to!(whole => #[trigger] all[j]),
                        self.model() == spec_insert_all(start, name_key(key), flatten_all(values_model(all).take(i as int))),
                    decreases vs.len(),
                {
                    let v = vs.remove(0);
                    assert(v == all[i as int]);
                    let k = copy_name(&key);
                    let ghost before = self.model();
                    self.insert_raw(k, v);
                    proof {
                        let t = values_model(all).take(i + 1);
                        assert(t.drop_last() == values_model(all).take(i as int));
                        assert(t.last() == value_model(v));
                        lemma_insert_all_append(start, name_key(key), flatten_all(t.drop_last()), flatten(t.last()));
                    }
                    i = i + 1;
                    assert(vs@ =~= all.skip(i as int));
                }
                assert(values_model(all).take(n as int) == values_model(all));
                assert(flatten(value_model(whole)) == flatten_all(values_model(all)));
            },
            other => {
                self.insert_one(key, other);
                proof {
                    let v = value_model(other);
                    assert(seq![v].drop_last() =~= Seq::<ValueModel>::empty());
                    assert(spec_insert_all(old(self).model(), name_key(key), Seq::empty()) == old(self).model());
                }
            },
        }
    }
}

proof fn lemma_insert_one(m: Seq<(NameKey, ValueModel)>, key: NameKey, v: ValueModel)
    requires
        wf_model(m),
        !(v is List),
    ensures
        wf_model(spec_insert_one(m, key, v)),
        occurrences_of(spec_insert_one(m, key, v), key) == occurrences_of(m, key).push(v),
        forall|k: NameKey| k != key ==> #[trigger] model_get(spec_insert_one(m, key, v), k) == model_get(m, k),
{
    let r = spec_insert_one(m, key, v);
    lemma_model_find(m, key);
    match model_find(m, key) {
        None => {
            assert forall|i: int, j: int| 0 <= i < j < r.len() implies (#[trigger] r[i]).0 != (#[trigger] r[j]).0 by {
                if j == m.len() {
                    assert(m[i].0 != key);
                } else {
                    assert(r[i] == m[i] && r[j] == m[j]);
                }
            }
            assert forall|i: int| 0 <= i < r.len() implies is_entry_model((#[trigger] r[i]).1) by {
                if i < m.len() {
                    assert(r[i] == m[i]);
                }
            }
            assert forall|j: int| 0 <= j < m.len() implies (#[trigger] r[j]).0 != key by {
                assert(r[j] == m[j]);
            }
            lemma_model_find_first(r, key, m.len() as int);
            assert(occurrences_of(m, key) == Seq::<ValueModel>::empty());
            assert(seq![v] =~= Seq::<ValueModel>::empty().push(v));
            assert forall|k: NameKey| k != key implies #[trigger] model_get(r, k) == model_get(m, k) by {
                lemma_model_find(m, k);
                lemma_model_find(r, k);
                match model_find(m, k) {
                    Some(i) => {
                        assert forall|j: int| 0 <= j < i implies (#[trigger] r[j]).0 != k by {
                            assert(r[j] == m[j]);
                        }
                        lemma_model_find_first(r, k, i);
                    },
                    None => {
                        match model_find(r, k) {
                            Some(i) => {
                                if i < m.len() {
                                    assert(r[i] == m[i]);
                                }
                            },
                            None => {},
                        }
                    },
                }
            }
        },
        Some(i) => {
            let occ = model_occurrences(m[i].1);
            assert(is_entry_model(m[i].1));
            assert forall|a: int| 0 <= a < r.len() implies (#[trigger] r[a]).0 == m[a].0 by {}
            assert forall|a: int, b: int| 0 <= a < b < r.len() implies (#[trigger] r[a]).0 != (#[trigger] r[b]).0 by {
                assert(m[a].0 != m[b].0);
            }
            assert forall|a: int| 0 <= a < r.len() implies is_entry_model((#[trigger] r[a]).1) by {
                if a == i {
                    let l = occ.push(v);
                    assert forall|x: int| 0 <= x < l.len() implies !(#[trigger] l[x] is List) by {
                        if x < occ.len() {
                            assert(l[x] == occ[x]);
                        }
                    }
                } else {
                    assert(r[a] == m[a]);
                }
            }
            assert forall|k: NameKey| #[trigger] model_find(r, k) == model_find(m, k) by {
                lemma_model_find_same_keys(r, m, k);
            }
            assert forall|k: NameKey| k != key implies #[trigger] model_get(r, k) == model_get(m, k) by {
                assert(model_find(r, k) == model_find(m, k));
                lemma_model_find(m, k);
                match model_find(m, k) {
                    Some(j) => {
                        assert(j != i);
                        assert(r[j] == m[j]);
                    },
                    None => {},
                }
            }
            assert(model_find(r, key) == Some(i));
        },
    }
}

proof fn lemma_insert_all(m: Seq<(NameKey, ValueModel)>, key: NameKey, vs: Seq<ValueModel>)
    requires
        wf_model(m),
        forall|i: int| 0 <= i < vs.len() ==> !(#[trigger] vs[i] is List),
    ensures
        wf_model(spec_insert_all(m, key, vs)),
        occurrences_of(spec_insert_all(m, key, vs), key) == occurrences_of(m, key) + vs,
        forall|k: NameKey|
            k != key ==> #[trigger] model_get(spec_insert_all(m, key, vs), k) == model_get(m, k),
    decreases vs.len(),
{
    if vs.len() == 0 {
        assert(occurrences_of(m, key) + vs == occurrences_of(m, key));
    } else {
        let front = vs.drop_last();
        assert forall|i: int| 0 <= i < front.len() implies !(#[trigger] front[i] is List) by {
            assert(front[i] == vs[i]);
        }
        lemma_insert_all(m, key, front);
        let mid = spec_insert_all(m, key, front);
        assert(!(vs[vs.len() - 1] is List));
        lemma_insert_one(mid, key, vs.last());
        assert(occurrences_of(m, key) + front.push(vs.last()) == (occurrences_of(m, key) + front).push(vs.last()));
        assert(front.push(vs.last()) == vs);
        assert forall|k: NameKey| k != key implies #[trigger] model_get(spec_insert_all(m, key, vs), k)
            == model_get(m, k) by {
            assert(model_get(spec_insert_one(mid, key, vs.last()), k) == model_get(mid, k));
            assert(model_get(mid, k) == model_get(m, k));
        }
    }
}

proof fn lemma_insert_all_append(
    m: Seq<(NameKey, ValueModel)>,
    key: NameKey,
    a: Seq<ValueModel>,
    b: Seq<ValueModel>,
)
    ensures
        spec_insert_all(m, key, a + b) == spec_insert_all(spec_insert_all(m, key, a), key, b),
    decreases b.len(),
{
    if b.len() == 0 {
        assert(a + b =~= a);
    } else {
        lemma_insert_all_append(m, key, a, b.drop_last());
        assert((a + b).drop_last() =~= a + b.drop_last());
        assert((a + b).last() == b.last());
    }
}

proof fn lemma_flatten_no_list(v: ValueModel)
    ensures
        forall|i: int| 0 <= i < flatten(v).len() ==> !(#[trigger] flatten(v)[i] is List),
    decreases v,
{
    match v {
        ValueModel::List(vs) => lemma_flatten_all_no_list(vs),
        _ => {},
    }
}

proof fn lemma_flatten_all_no_list(vs: Seq<ValueModel>)
    ensures
        forall|i: int| 0 <= i < flatten_all(vs).len() ==> !(#[trigger] flatten_all(vs)[i] is List),
    decreases vs,
{
    if vs.len() > 0 {
        lemma_flatten_all_no_list(vs.drop_last());
        lemma_flatten_no_list(vs.last());
        let a = flatten_all(vs.drop_last());
        let b = flatten(vs.last());
        assert forall|i: int| 0 <= i < (a + b).len() implies !(#[trigger] (a + b)[i] is List) by {
            if i < a.len() {
                assert((a + b)[i] == a[i]);
            } else {
                assert((a + b)[i] == b[i - a.len()]);
            }
        }
    }
}

/// Inserting into a well-formed map keeps it well-formed; the elements
/// named `key` read back as the earlier ones followed by the values the new
/// one stands for, in document order, and every other name keeps its value.
pub proof fn lemma_insert_raw_groups(m: Seq<(NameKey, ValueModel)>, key: NameKey, v: ValueModel)
    requires
        wf_model(m),
    ensures
        wf_model(spec_insert_raw(m, key, v)),
        occurrences_of(spec_insert_raw(m, key, v), key) == occurrences_of(m, key) + flatten(v),
        forall|i: int| 0 <= i < flatten(v).len() ==> !(#[trigger] flatten(v)[i] is List),
        forall|k: NameKey|
            k != key ==> #[trigger] model_get(spec_insert_raw(m, key, v), k) == model_get(m, k),
{
    lemma_flatten_no_list(v);
    lemma_insert_all(m, key, flatten(v));
}

/// The map after setting the element named `key` to `v`: a known name
/// gets the new value in place, a new name is appended.
pub open spec fn spec_insert(m: Seq<(NameKey, ValueModel)>, key: NameKey, v: ValueModel) -> Seq<
    (NameKey, ValueModel),
> {
    match model_find(m, key) {
        Some(i) => m.update(i, (key, v)),
        None => m.push((key, v)),
    }
}

/// The value of the elements `vs` of one name: nothing is an empty value,
/// one element its own value, more a list.
pub open spec fn spec_list_value(vs: Seq<ValueModel>) -> ValueModel {
    if vs.len() == 0 {
        ValueModel::Empty
    } else if vs.len() == 1 {
        vs[0]
    } else {
        ValueModel::List(vs)
    }
}

/// The value of the elements `values` of one name.
pub fn list_value(values: Vec<Value>) -> (v: Value)
    ensures
        value_model(v) == spec_list_value(values_model(values@)),
{
    proof {
        lemma_values_model(values@);
    }
    if values.len() == 0 {
        Value::Empty
    } else if values.len() == 1 {
        let mut values = values;
        values.remove(0)
    } else {
        Value::List(values)
    }
}

impl ValueMap {
    /// Sets the child element `E` to `value`, replacing the value of an
    /// element of that name.
    pub fn insert<E: Element>(&mut self, value: Value)
        ensures
            final(self).model() == spec_insert(
                old(self).model(),
                dav_key(E::spec_local_name()),
                value_model(value),
            ),
    {
        let key = Self::dav_name::<E>();
        let ghost k = name_key(key);
        let ghost vm = value_model(value);
        proof {
            lemma_entries_model(self.entries@);
        }
        match self.find(&key) {
            Some(i) => {
                self.entries[i] = (key, value);
                proof {
                    lemma_entries_model(self.entries@);
                    assert(self.model() =~= old(self).model().update(i as int, (k, vm)));
                }
            },
            None => {
                self.entries.push((key, value));
                proof {
                    lemma_entries_model(self.entries@);
                    assert(self.model() =~= old(self).model().push((k, vm)));
                }
            },
        }
    }
}

/// Setting a name that a map does not hold appends it.
pub proof fn lemma_insert_new(m: Seq<(NameKey, ValueModel)>, key: NameKey, v: ValueModel)
    requires
        forall|j: int| 0 <= j < m.len() ==> (#[trigger] m[j]).0 != key,
    ensures
        spec_insert(m, key, v) == m.push((key, v)),
{
    lemma_model_find(m, key);
}

/// Looking up a name gives the value of its first entry.
pub proof fn lemma_model_get_at(m: Seq<(NameKey, ValueModel)>, key: NameKey, i: int)
    requires
        0 <= i < m.len(),
        m[i].0 == key,
        forall|j: int| 0 <= j < i ==> (#[trigger] m[j]).0 != key,
    ensures
        model_get(m, key) == Some(m[i].1),
{
    lemma_model_find(m, key);
}

/// Looking up a name that a map does not hold gives nothing.
pub proof fn lemma_model_get_none(m: Seq<(NameKey, ValueModel)>, key: NameKey)
    requires
        forall|j: int| 0 <= j < m.len() ==> (#[trigger] m[j]).0 != key,
    ensures
        model_get(m, key) is None,
{
    lemma_model_find(m, key);
}

/// Reading each of `vs` as a `P` gives `xs` when each value reads as the
/// model at its place.
pub proof fn lemma_read_all_each<P: FromValue>(vs: Seq<ValueModel>, xs: Seq<P::Model>)
    requires
        vs.len() == xs.len(),
        forall|i: int| 0 <= i < vs.len() ==> P::spec_from_value(#[trigger] vs[i]) == Ok::<
            P::Model,
            XmlError,
        >(xs[i]),
    ensures
        spec_read_all::<P>(vs) == Ok::<Seq<P::Model>, XmlError>(xs),
    decreases vs.len(),
{
    if vs.len() > 0 {
        assert forall|i: int| 0 <= i < vs.drop_last().len() implies P::spec_from_value(
            #[trigger] vs.drop_last()[i],
        ) == Ok::<P::Model, XmlError>(xs.drop_last()[i]) by {
            assert(vs.drop_last()[i] == vs[i]);
        }
        lemma_read_all_each::<P>(vs.drop_last(), xs.drop_last());
        assert(P::spec_from_value(vs.last()) == Ok::<P::Model, XmlError>(xs.last()));
        assert(xs.drop_last().push(xs.last()) =~= xs);
    } else {
        assert(xs =~= Seq::<P::Model>::empty());
    }
}

/// The occurrences of a list value that holds values which are not lists
/// are those values.
pub proof fn lemma_list_value_occurrences(vs: Seq<ValueModel>)
    requires
        vs.len() > 0,
        forall|i: int| 0 <= i < vs.len() ==> !(#[trigger] vs[i] is List),
    ensures
        model_occurrences(spec_list_value(vs)) == vs,
{
    if vs.len() == 1 {
        assert(seq![vs[0]] =~= vs);
    }
}

/// Reading each of `vs` as a `P`: the models of all of them, or the first
/// error in order.
pub open spec fn spec_read_all<P: FromValue>(vs: Seq<ValueModel>) -> Result<Seq<P::Model>, XmlError>
    decreases vs.len(),
{
    if vs.len() == 0 {
        Ok(Seq::empty())
    } else {
        match spec_read_all::<P>(vs.drop_last()) {
            Err(e) => Err(e),
            Ok(xs) => match P::spec_from_value(vs.last()) {
                Err(e) => Err(e),
                Ok(x) => Ok(xs.push(x)),
            },
        }
    }
}

/// The models of a sequence of elements.
pub open spec fn models<P: FromValue>(xs: Seq<P>) -> Seq<P::Model> {
    xs.map_values(|x: P| x.model())
}

/// The model of an optional read.
pub open spec fn option_result_model<P: FromValue>(r: Option<Result<P, XmlError>>) -> Option<
    Result<P::Model, XmlError>,
> {
    match r {
        Some(x) => Some(result_model(x)),
        None => None,
    }
}

/// The model of an optional read of a property that may be empty.
pub open spec fn optional_model<P: FromValue>(r: Option<Option<Result<P, XmlError>>>) -> Option<
    Option<Result<P::Model, XmlError>>,
> {
    match r {
        Some(Some(x)) => Some(Some(result_model(x))),
        Some(None) => Some(None),
        None => None,
    }
}

/// What reading the child element `P` of a map gives: nothing when it is
/// absent, the result of reading it otherwise.
pub open spec fn spec_get<P: FromValue>(m: Seq<(NameKey, ValueModel)>) -> Option<Result<P::Model, XmlError>> {
    match model_get(m, dav_key(P::spec_local_name())) {
        Some(v) => Some(P::spec_from_value(v)),
        None => None,
    }
}

/// What reading the child element `P` of a map gives when an empty element
/// counts as present but empty.
pub open spec fn spec_get_optional<P: FromValue>(m: Seq<(NameKey, ValueModel)>) -> Option<
    Option<Result<P::Model, XmlError>>,
> {
    match model_get(m, dav_key(P::spec_local_name())) {
        Some(ValueModel::Empty) => Some(None),
        Some(v) => Some(Some(P::spec_from_value(v))),
        None => None,
    }
}

fn read_values<P: FromValue>(vs: &Vec<Value>) -> (r: Result<Vec<P>, XmlError>)
    ensures
        match r {
            Ok(xs) => spec_read_all::<P>(values_model(vs@)) == Ok::<Seq<P::Model>, XmlError>(models(xs@)),
            Err(e) => spec_read_all::<P>(values_model(vs@)) == Err::<Seq<P::Model>, XmlError>(e),
        },
{
    proof {
        lemma_values_model(vs@);
    }
    let mut out: Vec<P> = Vec::new();
    let n = vs.len();
    assert(values_model(vs@).take(0) =~= Seq::<ValueModel>::empty());
    assert(models(out@) =~= Seq::<P::Model>::empty());
    for i in 0..n
        invariant
            n == vs@.len(),
            values_model(vs@).len() == n,
            forall|j: int| 0 <= j < n ==> #[trigger] values_model(vs@)[j] == value_model(vs@[j]),
            spec_read_all::<P>(values_model(vs@).take(i as int)) == Ok::<Seq<P::Model>, XmlError>(models(out@)),
    {
        let ghost prefix = values_model(vs@).take(i + 1);
        proof {
            assert(prefix.drop_last() == values_model(vs@).take(i as int));
            assert(prefix.last() == value_model(vs@[i as int]));
        }
        match P::from_value(&vs[i]) {
            Ok(x) => {
                proof {
                    assert(models(out@.push(x)) =~= models(out@).push(x.model()));
                }
                out.push(x);
            },
            Err(e) => {
                proof {
                    lemma_read_all_error::<P>(values_model(vs@), i + 1);
                }
                return Err(e);
            },
        }
    }
    assert(values_model(vs@).take(n as int) == values_model(vs@));
    Ok(out)
}

/// An error in a prefix is the error of the whole sequence.
proof fn lemma_read_all_error<P: FromValue>(vs: Seq<ValueModel>, k: int)
    requires
        0 <= k <= vs.len(),
        spec_read_all::<P>(vs.take(k)) is Err,
    ensures
        spec_read_all::<P>(vs) == spec_read_all::<P>(vs.take(k)),
    decreases vs.len() - k,
{
    if k < vs.len() {
        let t = vs.take(k + 1);
        assert(t.drop_last() == vs.take(k));
        lemma_read_all_error::<P>(vs, k + 1);
    } else {
        assert(vs.take(k) == vs);
    }
}

impl ValueMap {
    fn dav_name<P: Element>() -> (name: ElementName)
        ensures
            name_key(name) == dav_key(P::spec_local_name()),
    {
        ElementName { namespace: Some("DAV:".to_owned()), local_name: P::local_name() }
    }

    /// Reads the child element `P`: `None` when it is absent, the result of
    /// reading it otherwise.
    pub fn get<P: FromValue>(&self) -> (r: Option<Result<P, XmlError>>)
        ensures
            option_result_model(r) == spec_get::<P>(self.model()),
    {
        let key = Self::dav_name::<P>();
        match self.get_value(&key) {
            Some(v) => Some(P::from_value(v)),
            None => None,
        }
    }

    /// Reads the child element `P`: `None` when it is absent, `Some(None)`
    /// when it is empty, and the result of reading it otherwise.
    pub fn get_optional<P: FromValue>(&self) -> (r: Option<Option<Result<P, XmlError>>>)
        ensures
            optional_model(r) == spec_get_optional::<P>(self.model()),
    {
        let key = Self::dav_name::<P>();
        match self.get_value(&key) {
            Some(Value::Empty) => Some(None),
            Some(v) => Some(Some(P::from_value(v))),
            None => None,
        }
    }

    /// Reads the required child element `P`; its absence is a
    /// `MissingElement` error.
    pub fn get_required<P: FromValue>(&self) -> (r: Result<P, XmlError>)
        ensures
            result_model(r) == match spec_get::<P>(self.model()) {
                Some(x) => x,
                None => Err(XmlError::MissingElement),
            },
    {
        match self.get::<P>() {
            Some(x) => x,
            None => Err(XmlError::MissingElement),
        }
    }

    /// Reads every child element `P`, in document order, or the first
    /// error.
    pub fn get_all<P: FromValue>(&self) -> (r: Result<Vec<P>, XmlError>)
        ensures
            match r {
                Ok(xs) => spec_read_all::<P>(occurrences_of(self.model(), dav_key(P::spec_local_name())))
                    == Ok::<Seq<P::Model>, XmlError>(models(xs@)),
                Err(e) => spec_read_all::<P>(occurrences_of(self.model(), dav_key(P::spec_local_name())))
                    == Err::<Seq<P::Model>, XmlError>(e),
            },
    {
        let key = Self::dav_name::<P>();
        match self.get_value(&key) {
            None => {
                assert(models(Seq::<P>::empty()) =~= Seq::<P::Model>::empty());
                Ok(Vec::new())
            },
            Some(Value::List(vs)) => read_values::<P>(vs),
            Some(v) => {
                assert(!(*v is List));
                let ghost vm = value_model(*v);
                assert(!(vm is List));
                let ghost one = seq![vm];
                proof {
                    assert(one.drop_last() =~= Seq::<ValueModel>::empty());
                    assert(one.last() == vm);
                    assert(occurrences_of(self.model(), dav_key(P::spec_local_name())) == one);
                    assert(spec_read_all::<P>(Seq::<ValueModel>::empty()) == Ok::<
                        Seq<P::Model>,
                        XmlError,
                    >(Seq::empty()));
                }
                match P::from_value(v) {
                    Err(e) => {
                        return Err(e);
                    },
                    Ok(x) => {
                        let mut out: Vec<P> = Vec::new();
                        out.push(x);
                        proof {
                            assert(models(out@) =~= seq![x.model()]);
                            assert(Seq::<P::Model>::empty().push(x.model()) =~= seq![x.model()]);
                        }
                        return Ok(out);
                    },
                }
            },
        }
    }
}

} // verus!
