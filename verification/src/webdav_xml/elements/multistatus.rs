//! The `multistatus` element.

use vstd::prelude::*;

use nonempty::NonEmpty;

use super::super::value::{
    dav_key, lemma_entries_model, lemma_insert_new, lemma_model_get_at, lemma_model_get_none,
    lemma_read_all_each, lemma_values_model, models, spec_get, spec_insert, spec_read_all,
    value_model, values_model, NameKey, Value, ValueMap, ValueModel,
};
use super::super::{Element, FromValue, XmlError};
use super::response::{
    description_model, insert_description, response_value, transpose, with_description, Response,
    ResponseDescription, ResponseModel,
};

verus! {

/// The `response` items a child element holds: a map, or the items of a
/// list, nested lists flattened in order; text and empty values hold none.
pub open spec fn response_items(v: ValueModel) -> Seq<ValueModel>
    decreases v,
{
    match v {
        ValueModel::List(vs) => list_items(vs),
        ValueModel::Elements(_) => seq![v],
        _ => Seq::empty(),
    }
}

/// The `response` items an item of a list holds: a nested list's items,
/// or the item itself, whatever it is.
pub open spec fn list_item(v: ValueModel) -> Seq<ValueModel>
    decreases v,
{
    match v {
        ValueModel::List(vs) => list_items(vs),
        _ => seq![v],
    }
}

/// The `response` items of the items `vs` of a list, in order.
pub open spec fn list_items(vs: Seq<ValueModel>) -> Seq<ValueModel>
    decreases vs,
{
    if vs.len() == 0 {
        Seq::empty()
    } else {
        list_items(vs.drop_last()) + list_item(vs.last())
    }
}

/// The `response` items of the child elements `m`, in order.
pub open spec fn entry_items(m: Seq<(NameKey, ValueModel)>) -> Seq<ValueModel>
    decreases m.len(),
{
    if m.len() == 0 {
        Seq::empty()
    } else {
        entry_items(m.drop_last()) + response_items(m.last().1)
    }
}

/// What a `multistatus` element holds.
pub struct MultistatusModel {
    pub response: Seq<ResponseModel>,
    pub description: Option<Seq<char>>,
}

/// Reading each of `a + b` as a `P` reads `a`, then `b`.
proof fn lemma_read_all_append<P: FromValue>(a: Seq<ValueModel>, b: Seq<ValueModel>)
    ensures
        spec_read_all::<P>(a + b) == match spec_read_all::<P>(a) {
            Err(e) => Err(e),
            Ok(xs) => match spec_read_all::<P>(b) {
                Err(e) => Err(e),
                Ok(ys) => Ok(xs + ys),
            },
        },
    decreases b.len(),
{
    if b.len() == 0 {
        assert(a + b == a);
        match spec_read_all::<P>(a) {
            Ok(xs) => {
                assert(xs + Seq::<P::Model>::empty() == xs);
            },
            Err(_) => {},
        }
    } else {
        lemma_read_all_append::<P>(a, b.drop_last());
        assert((a + b).drop_last() == a + b.drop_last());
        assert((a + b).last() == b.last());
        match spec_read_all::<P>(a) {
            Ok(xs) => match spec_read_all::<P>(b.drop_last()) {
                Ok(ys) => {
                    match P::spec_from_value(b.last()) {
                        Ok(x) => {
                            assert((xs + ys).push(x) == xs + ys.push(x));
                        },
                        Err(_) => {},
                    }
                },
                Err(_) => {},
            },
            Err(_) => {},
        }
    }
}

proof fn lemma_list_items_split(vs: Seq<ValueModel>, k: int)
    requires
        0 <= k <= vs.len(),
    ensures
        list_items(vs) == list_items(vs.take(k)) + list_items(vs.skip(k)),
    decreases vs.len(),
{
    if k == vs.len() {
        assert(vs.take(k) == vs);
        assert(vs.skip(k) =~= Seq::<ValueModel>::empty());
        assert(list_items(vs) + Seq::<ValueModel>::empty() == list_items(vs));
    } else {
        lemma_list_items_split(vs.drop_last(), k);
        assert(vs.drop_last().take(k) == vs.take(k));
        assert(vs.skip(k).drop_last() == vs.drop_last().skip(k));
        assert(vs.skip(k).last() == vs.last());
        assert(list_items(vs.take(k)) + list_items(vs.drop_last().skip(k)) + list_item(vs.last())
            == list_items(vs.take(k)) + (list_items(vs.drop_last().skip(k)) + list_item(vs.last())));
    }
}

proof fn lemma_entry_items_split(m: Seq<(NameKey, ValueModel)>, k: int)
    requires
        0 <= k <= m.len(),
    ensures
        entry_items(m) == entry_items(m.take(k)) + entry_items(m.skip(k)),
    decreases m.len(),
{
    if k == m.len() {
        assert(m.take(k) == m);
        assert(m.skip(k) =~= Seq::<(NameKey, ValueModel)>::empty());
        assert(entry_items(m) + Seq::<ValueModel>::empty() == entry_items(m));
    } else {
        lemma_entry_items_split(m.drop_last(), k);
        assert(m.drop_last().take(k) == m.take(k));
        assert(m.skip(k).drop_last() == m.drop_last().skip(k));
        assert(m.skip(k).last() == m.last());
        assert(entry_items(m.take(k)) + entry_items(m.drop_last().skip(k)) + response_items(m.last().1)
            == entry_items(m.take(k)) + (entry_items(m.drop_last().skip(k)) + response_items(m.last().1)));
    }
}

/// The `multistatus` element: a `response` for each resource, and a
/// description of the whole answer.
#[derive(Debug)]
pub struct Multistatus {
    pub response: Vec<Response>,
    pub responsedescription: Option<ResponseDescription>,
}

fn collect_items(value: &Value, acc: &mut Vec<Response>) -> (r: Result<(), XmlError>)
    ensures
        match spec_read_all::<Response>(response_items(value_model(*value))) {
            Ok(xs) => r is Ok && models(final(acc)@) == models(old(acc)@) + xs,
            Err(e) => r == Err::<(), XmlError>(e),
        },
    decreases value,
{
    match value {
        Value::List(vs) => collect_list(vs, acc),
        Value::Elements(_) => {
            let ghost vm = value_model(*value);
            proof {
                let one = seq![vm];
                assert(response_items(vm) == one);
                assert(one.drop_last() =~= Seq::<ValueModel>::empty());
                assert(one.last() == vm);
                assert(spec_read_all::<Response>(Seq::<ValueModel>::empty()) == Ok::<
                    Seq<ResponseModel>,
                    XmlError,
                >(Seq::empty()));
            }
            let item = Response::from_value(value)?;
            proof {
                assert(Seq::<ResponseModel>::empty().push(item.model()) =~= seq![item.model()]);
            }
            let ghost before = acc@;
            acc.push(item);
            proof {
                assert(models(acc@) =~= models(before) + seq![item.model()]);
            }
            Ok(())
        },
        _ => {
            proof {
                assert(models(acc@) =~= models(acc@) + Seq::<ResponseModel>::empty());
            }
            Ok(())
        },
    }
}

fn collect_list_item(value: &Value, acc: &mut Vec<Response>) -> (r: Result<(), XmlError>)
    ensures
        match spec_read_all::<Response>(list_item(value_model(*value))) {
            Ok(xs) => r is Ok && models(final(acc)@) == models(old(acc)@) + xs,
            Err(e) => r == Err::<(), XmlError>(e),
        },
    decreases value,
{
    match value {
        Value::List(vs) => collect_list(vs, acc),
        _ => {
            let ghost vm = value_model(*value);
            proof {
                let one = seq![vm];
                assert(list_item(vm) == one);
                assert(one.drop_last() =~= Seq::<ValueModel>::empty());
                assert(one.last() == vm);
                assert(spec_read_all::<Response>(Seq::<ValueModel>::empty()) == Ok::<
                    Seq<ResponseModel>,
                    XmlError,
                >(Seq::empty()));
            }
            let item = Response::from_value(value)?;
            proof {
                assert(Seq::<ResponseModel>::empty().push(item.model()) =~= seq![item.model()]);
            }
            let ghost before = acc@;
            acc.push(item);
            proof {
                assert(models(acc@) =~= models(before) + seq![item.model()]);
            }
            Ok(())
        },
    }
}

fn collect_list(vs: &Vec<Value>, acc: &mut Vec<Response>) -> (r: Result<(), XmlError>)
    ensures
        match spec_read_all::<Response>(list_items(values_model(vs@))) {
            Ok(xs) => r is Ok && models(final(acc)@) == models(old(acc)@) + xs,
            Err(e) => r == Err::<(), XmlError>(e),
        },
    decreases vs,
{
    proof {
        lemma_values_model(vs@);
    }
    let ghost start = models(acc@);
    let ghost vms = values_model(vs@);
    let n = vs.len();
    assert(vms.take(0) =~= Seq::<ValueModel>::empty());
    assert(start + Seq::<ResponseModel>::empty() == start);
    for i in 0..n
        invariant
            n == vs@.len(),
            vms == values_model(vs@),
            vms.len() == n,
            forall|j: int| 0 <= j < n ==> #[trigger] vms[j] == value_model(vs@[j]),
            spec_read_all::<Response>(list_items(vms.take(i as int))) matches Ok(xs) && models(acc@)
                == start + xs,
    {
        proof {
            assert(decreases_to!(*vs => vs@));
            assert(decreases_to!(vs@ => vs@[i as int]));
        }
        let ghost prefix = vms.take(i as int);
        let ghost next = vms.take(i + 1);
        proof {
            assert(next.drop_last() == prefix);
            assert(next.last() == value_model(vs@[i as int]));
            lemma_read_all_append::<Response>(list_items(prefix), list_item(next.last()));
            lemma_list_items_split(vms, i + 1);
            lemma_read_all_append::<Response>(list_items(next), list_items(vms.skip(i + 1)));
        }
        collect_list_item(&vs[i], acc)?;
        proof {
            let xs = spec_read_all::<Response>(list_items(prefix))->Ok_0;
            let ys = spec_read_all::<Response>(list_item(next.last()))->Ok_0;
            assert(start + xs + ys == start + (xs + ys));
        }
    }
    assert(vms.take(n as int) == vms);
    Ok(())
}

fn collect_entries(m: &ValueMap, acc: &mut Vec<Response>) -> (r: Result<(), XmlError>)
    ensures
        match spec_read_all::<Response>(entry_items(m.model())) {
            Ok(xs) => r is Ok && models(final(acc)@) == models(old(acc)@) + xs,
            Err(e) => r == Err::<(), XmlError>(e),
        },
{
    proof {
        lemma_entries_model(m.entries@);
    }
    let ghost start = models(acc@);
    let ghost es = m.model();
    let n = m.entries.len();
    assert(es.take(0) =~= Seq::<(NameKey, ValueModel)>::empty());
    assert(start + Seq::<ResponseModel>::empty() == start);
    for i in 0..n
        invariant
            n == m.entries@.len(),
            es == m.model(),
            es.len() == n,
            forall|j: int|
                0 <= j < n ==> #[trigger] es[j] == (
                    super::super::value::name_key(m.entries@[j].0),
                    value_model(m.entries@[j].1),
                ),
            spec_read_all::<Response>(entry_items(es.take(i as int))) matches Ok(xs) && models(acc@)
                == start + xs,
    {
        let ghost prefix = es.take(i as int);
        let ghost next = es.take(i + 1);
        proof {
            assert(next.drop_last() == prefix);
            assert(next.last().1 == value_model(m.entries@[i as int].1));
            lemma_read_all_append::<Response>(entry_items(prefix), response_items(next.last().1));
            lemma_entry_items_split(es, i + 1);
            lemma_read_all_append::<Response>(entry_items(next), entry_items(es.skip(i + 1)));
        }
        collect_items(&m.entries[i].1, acc)?;
        proof {
            let xs = spec_read_all::<Response>(entry_items(prefix))->Ok_0;
            let ys = spec_read_all::<Response>(response_items(next.last().1))->Ok_0;
            assert(start + xs + ys == start + (xs + ys));
        }
    }
    assert(es.take(n as int) == es);
    Ok(())
}

impl Element for Multistatus {
    open spec fn spec_local_name() -> Seq<char> {
        "multistatus"@
    }

    fn local_name() -> (name: String) {
        "multistatus".to_owned()
    }
}

impl FromValue for Multistatus {
    type Model = MultistatusModel;

    open spec fn model(&self) -> MultistatusModel {
        MultistatusModel {
            response: models(self.response@),
            description: description_model(self.responsedescription),
        }
    }

    /// Child elements: every map among them, lists flattened, is read as a
    /// `response` in document order, and an optional `responsedescription`
    /// is read after them.
    open spec fn spec_from_value(value: ValueModel) -> Result<MultistatusModel, XmlError> {
        match value {
            ValueModel::Elements(m) => match spec_read_all::<Response>(entry_items(m)) {
                Err(e) => Err(e),
                Ok(response) => match transpose(spec_get::<ResponseDescription>(m)) {
                    Err(e) => Err(e),
                    Ok(description) => Ok(MultistatusModel { response, description }),
                },
            },
            _ => Err(XmlError::InvalidValueType),
        }
    }

    fn from_value(value: &Value) -> (r: Result<Self, XmlError>) {
        match value {
            Value::Elements(m) => {
                let mut response: Vec<Response> = Vec::new();
                assert(models(response@) =~= Seq::<ResponseModel>::empty());
                collect_entries(m, &mut response)?;
                assert(Seq::<ResponseModel>::empty() + models(response@) == models(response@));
                let responsedescription = match m.get::<ResponseDescription>() {
                    None => None,
                    Some(Ok(d)) => Some(d),
                    Some(Err(e)) => {
                        return Err(e);
                    },
                };
                Ok(Multistatus { response, responsedescription })
            },
            _ => Err(XmlError::InvalidValueType),
        }
    }
}

/// The values written for `response` elements.
pub open spec fn response_values(rs: Seq<ResponseModel>) -> Seq<ValueModel> {
    rs.map_values(|r: ResponseModel| response_value(r))
}

/// The value written for a `multistatus` element: its `response` elements
/// as a list (an empty value when there is none), and its
/// `responsedescription` when it has one.
pub open spec fn multistatus_value(m: MultistatusModel) -> ValueModel {
    ValueModel::Elements(
        with_description(
            spec_insert(
                Seq::empty(),
                dav_key(Response::spec_local_name()),
                if m.response.len() == 0 {
                    ValueModel::Empty
                } else {
                    ValueModel::List(response_values(m.response))
                },
            ),
            m.description,
        ),
    )
}

/// `NonEmpty::collect` of the `nonempty` crate, turned back into a `Vec`:
/// nothing for no values, the values in order otherwise.
#[verifier::external_body]
fn collect_nonempty(values: Vec<Value>) -> (r: Option<Vec<Value>>)
    ensures
        r is Some <==> values@.len() > 0,
        r matches Some(vs) ==> vs@ == values@,
{
    NonEmpty::collect(values).map(Vec::from)
}

/// The values of `response` elements, in order.
fn values_of_responses(responses: Vec<Response>) -> (values: Vec<Value>)
    ensures
        values_model(values@) == response_values(models(responses@)),
{
    let ghost all = responses@;
    let mut rest = responses;
    let mut values: Vec<Value> = Vec::new();
    let ghost mut k: int = 0;
    while rest.len() > 0
        invariant
            0 <= k <= all.len(),
            rest@ == all.skip(k),
            values_model(values@) == response_values(models(all.take(k))),
        decreases rest.len(),
    {
        let r = rest.remove(0);
        assert(r == all[k]);
        let ghost before = values@;
        let value = Value::from(r);
        values.push(value);
        proof {
            lemma_values_model(before);
            lemma_values_model(values@);
            let want = response_values(models(all.take(k + 1)));
            assert forall|j: int| 0 <= j < k + 1 implies values_model(values@)[j] == want[j] by {
                if j < k {
                    assert(values@[j] == before[j]);
                    assert(values_model(before)[j] == response_values(models(all.take(k)))[j]);
                } else {
                    assert(values@[j] == value);
                }
            }
            assert(values_model(values@) =~= want);
            k = k + 1;
        }
        assert(rest@ =~= all.skip(k));
    }
    assert(all.take(k) =~= all);
    values
}

impl From<Multistatus> for Value {
    fn from(multistatus: Multistatus) -> (v: Value)
        ensures
            value_model(v) == multistatus_value(multistatus.model()),
    {
        let Multistatus { response, responsedescription } = multistatus;
        let ghost rs = models(response@);
        let mut map = ValueMap::new();
        assert(map.model() =~= Seq::<(NameKey, ValueModel)>::empty());
        let values = values_of_responses(response);
        proof {
            lemma_values_model(values@);
        }
        let responses = match collect_nonempty(values) {
            Some(values) => Value::List(values),
            None => Value::Empty,
        };
        map.insert::<Response>(responses);
        insert_description(&mut map, responsedescription);
        Value::Elements(map)
    }
}

impl vstd::std_specs::convert::FromSpecImpl<Multistatus> for Value {
    /// The value is given by the `ensures` of `from`, over its model; no
    /// exact value is given here.
    open spec fn obeys_from_spec() -> bool {
        false
    }

    open spec fn from_spec(multistatus: Multistatus) -> Value {
        Value::Empty
    }
}

/// The `response` items of a list of maps are the maps.
proof fn lemma_list_items_of_maps(vs: Seq<ValueModel>)
    requires
        forall|i: int| 0 <= i < vs.len() ==> (#[trigger] vs[i]) is Elements,
    ensures
        list_items(vs) == vs,
    decreases vs.len(),
{
    if vs.len() > 0 {
        assert forall|i: int| 0 <= i < vs.drop_last().len() implies (
        #[trigger] vs.drop_last()[i]) is Elements by {
            assert(vs.drop_last()[i] == vs[i]);
        }
        lemma_list_items_of_maps(vs.drop_last());
        assert(vs.last() is Elements);
        assert(list_item(vs.last()) == seq![vs.last()]);
        assert(vs.drop_last() + seq![vs.last()] =~= vs);
    } else {
        assert(vs =~= Seq::<ValueModel>::empty());
    }
}

/// Reading back the value written for a `multistatus` element gives the
/// element, its responses complete and in order, whenever each response
/// reads back from the value written for it (which holds of every response
/// that `is_writable_response` admits, by `lemma_response_round_trip`):
/// `Multistatus::from_value` undoes `Value::from`.
pub proof fn lemma_multistatus_round_trip(m: MultistatusModel)
    requires
        forall|i: int|
            0 <= i < m.response.len() ==> Response::spec_from_value(response_value(#[trigger] m.response[i]))
                == Ok::<ResponseModel, XmlError>(m.response[i]),
    ensures
        Multistatus::spec_from_value(multistatus_value(m)) == Ok::<MultistatusModel, XmlError>(m),
{
    reveal_strlit("response");
    reveal_strlit("responsedescription");
    assert(Response::spec_local_name().len() == 8);
    assert(ResponseDescription::spec_local_name().len() == 19);
    let kr = dav_key(Response::spec_local_name());
    let kd = dav_key(ResponseDescription::spec_local_name());
    let rs = m.response;
    let vs = response_values(rs);
    let x = if rs.len() == 0 {
        ValueModel::Empty
    } else {
        ValueModel::List(vs)
    };
    let m0 = Seq::<(NameKey, ValueModel)>::empty();
    lemma_insert_new(m0, kr, x);
    let m1 = m0.push((kr, x));
    let map = with_description(spec_insert(m0, kr, x), m.description);
    assert(m1.drop_last() =~= m0);
    assert(m1.last() == (kr, x));
    assert(entry_items(m0) == Seq::<ValueModel>::empty());
    assert(Seq::<ValueModel>::empty() + response_items(x) =~= response_items(x));
    assert(entry_items(m1) == response_items(x));
    match m.description {
        Some(t) => {
            lemma_insert_new(m1, kd, ValueModel::Text(t));
            lemma_model_get_at(map, kd, 1);
            assert(map.drop_last() =~= m1);
            assert(map.last() == (kd, ValueModel::Text(t)));
            assert(response_items(ValueModel::Text(t)) == Seq::<ValueModel>::empty());
            assert(entry_items(map) =~= response_items(x));
        },
        None => {
            lemma_model_get_none(map, kd);
        },
    }
    assert forall|i: int| 0 <= i < vs.len() implies (#[trigger] vs[i]) is Elements by {
        assert(vs[i] == response_value(rs[i]));
    }
    assert forall|i: int| 0 <= i < vs.len() implies Response::spec_from_value(#[trigger] vs[i])
        == Ok::<ResponseModel, XmlError>(rs[i]) by {
        assert(vs[i] == response_value(rs[i]));
    }
    lemma_read_all_each::<Response>(vs, rs);
    if rs.len() == 0 {
        assert(response_items(x) == Seq::<ValueModel>::empty());
        assert(vs =~= Seq::<ValueModel>::empty());
    } else {
        lemma_list_items_of_maps(vs);
    }
}

} // verus!
