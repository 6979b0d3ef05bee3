//! Structured payload data: the JSON-like values that experiments and
//! variations carry, the deep merge that combines them, and the textual JSON
//! rendering handed to the script evaluator.
//!
//! Numbers are carried as their literal text, so the type stays exact for
//! any JSON number.

use vstd::prelude::*;

verus! {

broadcast use vstd::seq::group_seq_axioms, vstd::std_specs::vec::group_vec_axioms;

/// A JSON-like payload value.  A number holds its literal text.
#[derive(Debug)]
pub enum DataValue {
    Null,
    Bool(bool),
    Number(String),
    Text(String),
    Array(Vec<DataValue>),
    Object(Vec<(String, DataValue)>),
}

/// The mathematical content of a payload value.
pub ghost enum DataModel {
    Null,
    Bool(bool),
    Number(Seq<char>),
    Text(Seq<char>),
    Array(Seq<DataModel>),
    Object(Seq<(Seq<char>, DataModel)>),
}

/// The models of a sequence of array elements.
pub open spec fn array_model(items: Seq<DataValue>) -> Seq<DataModel>
    decreases items,
{
    if items.len() == 0 {
        Seq::<DataModel>::empty()
    } else {
        seq![data_model(items[0])] + array_model(items.subrange(1, items.len() as int))
    }
}

/// The models of a sequence of object entries.
pub open spec fn entries_model(entries: Seq<(String, DataValue)>) -> Seq<(Seq<char>, DataModel)>
    decreases entries,
{
    if entries.len() == 0 {
        Seq::<(Seq<char>, DataModel)>::empty()
    } else {
        seq![(entries[0].0@, data_model(entries[0].1))] + entries_model(
            entries.subrange(1, entries.len() as int),
        )
    }
}

/// The model denoted by a payload value.
pub open spec fn data_model(v: DataValue) -> DataModel
    decreases v,
{
    match v {
        DataValue::Null => DataModel::Null,
        DataValue::Bool(b) => DataModel::Bool(b),
        DataValue::Number(s) => DataModel::Number(s@),
        DataValue::Text(s) => DataModel::Text(s@),
        DataValue::Array(items) => DataModel::Array(array_model(items@)),
        DataValue::Object(entries) => DataModel::Object(entries_model(entries@)),
    }
}

impl View for DataValue {
    type V = DataModel;

    open spec fn view(&self) -> DataModel {
        data_model(*self)
    }
}

pub proof fn lemma_array_model(items: Seq<DataValue>)
    ensures
        array_model(items).len() == items.len(),
        forall|j: int|
            0 <= j < items.len() ==> #[trigger] array_model(items)[j] == data_model(items[j]),
    decreases items.len(),
{
    if items.len() > 0 {
        let tail = items.subrange(1, items.len() as int);
        lemma_array_model(tail);
        assert(forall|j: int| 0 <= j < tail.len() ==> tail[j] == items[j + 1]);
    }
}

pub proof fn lemma_entries_model(entries: Seq<(String, DataValue)>)
    ensures
        entries_model(entries).len() == entries.len(),
        forall|j: int|
            0 <= j < entries.len() ==> #[trigger] entries_model(entries)[j] == (
                entries[j].0@,
                data_model(entries[j].1),
            ),
    decreases entries.len(),
{
    if entries.len() > 0 {
        let tail = entries.subrange(1, entries.len() as int);
        lemma_entries_model(tail);
        assert(forall|j: int| 0 <= j < tail.len() ==> tail[j] == entries[j + 1]);
    }
}

/// The value at the first occurrence of a key among object entries.
pub open spec fn lookup_entry(es: Seq<(Seq<char>, DataModel)>, k: Seq<char>) -> Option<DataModel>
    decreases es.len(),
{
    if es.len() == 0 {
        None
    } else if es[0].0 == k {
        Some(es[0].1)
    } else {
        lookup_entry(es.subrange(1, es.len() as int), k)
    }
}

pub open spec fn has_key(es: Seq<(Seq<char>, DataModel)>, k: Seq<char>) -> bool {
    lookup_entry(es, k) is Some
}

/// The first value's entries after the merge: each key keeps its place, its
/// value merged with the second value's entry at that key, where one exists.
pub open spec fn merge_front(
    ea: Seq<(Seq<char>, DataModel)>,
    eb: Seq<(Seq<char>, DataModel)>,
) -> Seq<(Seq<char>, DataModel)>
    decreases ea,
{
    if ea.len() == 0 {
        Seq::<(Seq<char>, DataModel)>::empty()
    } else {
        let merged = match lookup_entry(eb, ea[0].0) {
            Some(vb) => merge_model(ea[0].1, vb),
            None => ea[0].1,
        };
        seq![(ea[0].0, merged)] + merge_front(ea.subrange(1, ea.len() as int), eb)
    }
}

/// The deep merge of two values, the second overriding the first: two
/// objects merge key by key, recursively; anything else is replaced by the
/// second value outright.  Keys keep the first value's order; keys only in
/// the second value follow, in its order.
pub open spec fn merge_model(a: DataModel, b: DataModel) -> DataModel
    decreases a,
{
    match (a, b) {
        (DataModel::Object(ea), DataModel::Object(eb)) => DataModel::Object(
            merge_front(ea, eb) + eb.filter(|e: (Seq<char>, DataModel)| !has_key(ea, e.0)),
        ),
        (_, _) => b,
    }
}

pub proof fn lemma_merge_front(ea: Seq<(Seq<char>, DataModel)>, eb: Seq<(Seq<char>, DataModel)>)
    ensures
        merge_front(ea, eb).len() == ea.len(),
        forall|j: int|
            0 <= j < ea.len() ==> #[trigger] merge_front(ea, eb)[j] == (
                ea[j].0,
                match lookup_entry(eb, ea[j].0) {
                    Some(vb) => merge_model(ea[j].1, vb),
                    None => ea[j].1,
                },
            ),
    decreases ea.len(),
{
    if ea.len() > 0 {
        let tail = ea.subrange(1, ea.len() as int);
        lemma_merge_front(tail, eb);
        assert(forall|j: int| 0 <= j < tail.len() ==> tail[j] == ea[j + 1]);
    }
}

/// The merge of two optional payloads: an absent side passes the other
/// through unchanged.
pub open spec fn merge_opt(a: Option<DataModel>, b: Option<DataModel>) -> Option<DataModel> {
    match (a, b) {
        (None, None) => None,
        (Some(d), None) => Some(d),
        (None, Some(d)) => Some(d),
        (Some(da), Some(db)) => Some(merge_model(da, db)),
    }
}

/// Merging an absent side passes the other side through unchanged.
pub proof fn lemma_merge_none(d: DataModel)
    ensures
        merge_opt(None, Some(d)) == Some(d),
        merge_opt(Some(d), None) == Some(d),
        merge_opt(None, None) == Option::<DataModel>::None,
{
}

impl DataValue {
    /// A structurally identical copy of the value.
    pub fn duplicate(&self) -> (r: DataValue)
        ensures
            r@ == self@,
        decreases self,
    {
        match self {
            DataValue::Null => DataValue::Null,
            DataValue::Bool(b) => DataValue::Bool(*b),
            DataValue::Number(s) => DataValue::Number(s.clone()),
            DataValue::Text(s) => DataValue::Text(s.clone()),
            DataValue::Array(items) => {
                let mut out: Vec<DataValue> = Vec::new();
                let n = items.len();
                let mut i: usize = 0;
                while i < n
                    invariant
                        *self == DataValue::Array(*items),
                        i <= n == items@.len(),
                        out@.len() == i,
                        forall|j: int| 0 <= j < i ==> (#[trigger] out@[j])@ == items@[j]@,
                    decreases n - i,
                {
                    proof {
                        assert(decreases_to!(*self => (*self)->Array_0));
                        assert(decreases_to!(*items => items@));
                        assert(decreases_to!(items@ => items@[i as int]));
                    }
                    let c = items[i].duplicate();
                    out.push(c);
                    i = i + 1;
                }
                let r = DataValue::Array(out);
                proof {
                    lemma_array_model(out@);
                    lemma_array_model(items@);
                    assert(array_model(out@) =~= array_model(items@));
                }
                r
            },
            DataValue::Object(entries) => {
                let mut out: Vec<(String, DataValue)> = Vec::new();
                let n = entries.len();
                let mut i: usize = 0;
                while i < n
                    invariant
                        *self == DataValue::Object(*entries),
                        i <= n == entries@.len(),
                        out@.len() == i,
                        forall|j: int|
                            0 <= j < i ==> (#[trigger] out@[j]).0@ == entries@[j].0@ && out@[j].1@
                                == entries@[j].1@,
                    decreases n - i,
                {
                    proof {
                        assert(decreases_to!(*self => (*self)->Object_0));
                        assert(decreases_to!(*entries => entries@));
                        assert(decreases_to!(entries@ => entries@[i as int]));
                        assert(decreases_to!(entries@[i as int] => entries@[i as int].1));
                    }
                    let k = entries[i].0.clone();
                    let c = entries[i].1.duplicate();
                    out.push((k, c));
                    i = i + 1;
                }
                let r = DataValue::Object(out);
                proof {
                    lemma_entries_model(out@);
                    lemma_entries_model(entries@);
                    assert(entries_model(out@) =~= entries_model(entries@));
                }
                r
            },
        }
    }
}

/// The first entry with the given key, if any.
fn lookup<'a>(es: &'a Vec<(String, DataValue)>, k: &String) -> (r: Option<&'a DataValue>)
    ensures
        match r {
            Some(v) => lookup_entry(entries_model(es@), k@) == Some(data_model(*v)),
            None => lookup_entry(entries_model(es@), k@) is None,
        },
{
    let ghost model = entries_model(es@);
    proof {
        lemma_entries_model(es@);
    }
    let n = es.len();
    let mut i: usize = 0;
    proof {
        assert(model.subrange(0, model.len() as int) =~= model);
    }
    while i < n
        invariant
            i <= n == es@.len(),
            model == entries_model(es@),
            model.len() == n,
            forall|j: int|
                0 <= j < n ==> #[trigger] model[j] == (es@[j].0@, data_model(es@[j].1)),
            lookup_entry(model, k@) == lookup_entry(
                model.subrange(i as int, model.len() as int),
                k@,
            ),
        decreases n - i,
    {
        let ghost tail = model.subrange(i as int, model.len() as int);
        proof {
            assert(tail[0] == model[i as int]);
            assert(tail.subrange(1, tail.len() as int) =~= model.subrange(
                i + 1,
                model.len() as int,
            ));
        }
        if es[i].0.eq(k) {
            assert(model[i as int].0 == k@);
            return Some(&es[i].1);
        }
        assert(model[i as int].0 != k@);
        i = i + 1;
    }
    proof {
        assert(model.subrange(n as int, model.len() as int) =~= Seq::<(
            Seq<char>,
            DataModel,
        )>::empty());
    }
    None
}

/// The deep merge of two values, `b` overriding `a`.
fn merge_value(a: &DataValue, b: &DataValue) -> (r: DataValue)
    ensures
        r@ == merge_model(a@, b@),
    decreases a,
{
    match (a, b) {
        (DataValue::Object(ea), DataValue::Object(eb)) => {
            let ghost ma = entries_model(ea@);
            let ghost mb = entries_model(eb@);
            proof {
                lemma_entries_model(ea@);
                lemma_entries_model(eb@);
                lemma_merge_front(ma, mb);
            }
            let ghost front = merge_front(ma, mb);
            let mut out: Vec<(String, DataValue)> = Vec::new();
            let na = ea.len();
            let mut i: usize = 0;
            while i < na
                invariant
                    *a == DataValue::Object(*ea),
                    *b == DataValue::Object(*eb),
                    i <= na == ea@.len(),
                    ma == entries_model(ea@),
                    mb == entries_model(eb@),
                    ma.len() == na,
                    forall|j: int|
                        0 <= j < na ==> #[trigger] ma[j] == (ea@[j].0@, data_model(ea@[j].1)),
                    front == merge_front(ma, mb),
                    front.len() == na,
                    forall|j: int|
                        0 <= j < na ==> #[trigger] front[j] == (
                            ma[j].0,
                            match lookup_entry(mb, ma[j].0) {
                                Some(vb) => merge_model(ma[j].1, vb),
                                None => ma[j].1,
                            },
                        ),
                    out@.len() == i,
                    forall|j: int|
                        0 <= j < i ==> (#[trigger] out@[j]).0@ == front[j].0 && out@[j].1@
                            == front[j].1,
                decreases na - i,
            {
                proof {
                    assert(decreases_to!(*a => (*a)->Object_0));
                    assert(decreases_to!(*ea => ea@));
                    assert(decreases_to!(ea@ => ea@[i as int]));
                    assert(decreases_to!(ea@[i as int] => ea@[i as int].1));
                }
                let k = ea[i].0.clone();
                let va = &ea[i].1;
                assert(k@ == ma[i as int].0 && va@ == ma[i as int].1);
                match lookup(eb, &k) {
                    Some(vb) => {
                        let m = merge_value(va, vb);
                        out.push((k, m));
                    },
                    None => {
                        out.push((k, va.duplicate()));
                    },
                }
                i = i + 1;
            }
            let nb = eb.len();
            let mut j: usize = 0;
            let ghost keep = |e: (Seq<char>, DataModel)| !has_key(ma, e.0);
            proof {
                assert(mb.subrange(0, 0) =~= Seq::<(Seq<char>, DataModel)>::empty());
                reveal_with_fuel(Seq::filter, 1);
                assert(Seq::<(Seq<char>, DataModel)>::empty().filter(keep) =~= Seq::<(
                    Seq<char>,
                    DataModel,
                )>::empty());
            }
            while j < nb
                invariant
                    j <= nb == eb@.len(),
                    ma == entries_model(ea@),
                    mb == entries_model(eb@),
                    ea@.len() == ma.len(),
                    mb.len() == nb,
                    forall|jj: int|
                        0 <= jj < ma.len() ==> #[trigger] ma[jj] == (
                            ea@[jj].0@,
                            data_model(ea@[jj].1),
                        ),
                    forall|jj: int|
                        0 <= jj < nb ==> #[trigger] mb[jj] == (eb@[jj].0@, data_model(eb@[jj].1)),
                    keep == (|e: (Seq<char>, DataModel)| !has_key(ma, e.0)),
                    front == merge_front(ma, mb),
                    front.len() == ma.len(),
                    out@.len() == front.len() + mb.subrange(0, j as int).filter(keep).len(),
                    forall|jj: int|
                        0 <= jj < front.len() ==> (#[trigger] out@[jj]).0@ == front[jj].0
                            && out@[jj].1@ == front[jj].1,
                    forall|jj: int|
                        front.len() <= jj < out@.len() ==> (#[trigger] out@[jj]).0@
                            == mb.subrange(0, j as int).filter(keep)[jj - front.len()].0
                            && out@[jj].1@ == mb.subrange(0, j as int).filter(keep)[jj
                            - front.len()].1,
                decreases nb - j,
            {
                let ghost prefix = mb.subrange(0, j as int);
                let ghost prefix1 = mb.subrange(0, j + 1);
                proof {
                    assert(prefix1.drop_last() =~= prefix);
                    assert(prefix1.last() == mb[j as int]);
                    reveal_with_fuel(Seq::filter, 2);
                    assert(prefix1.filter(keep) == if keep(mb[j as int]) {
                        prefix.filter(keep).push(mb[j as int])
                    } else {
                        prefix.filter(keep)
                    });
                }
                let k = eb[j].0.clone();
                assert(k@ == mb[j as int].0);
                let present = match lookup(ea, &k) {
                    Some(_) => true,
                    None => false,
                };
                if !present {
                    assert(keep(mb[j as int]));
                    let dup = eb[j].1.duplicate();
                    out.push((k, dup));
                } else {
                    assert(!keep(mb[j as int]));
                }
                j = j + 1;
            }
            proof {
                assert(mb.subrange(0, nb as int) =~= mb);
            }
            let r = DataValue::Object(out);
            proof {
                lemma_entries_model(out@);
                assert(entries_model(out@) =~= front + mb.filter(keep));
            }
            r
        },
        (_, _) => {
            let r = b.duplicate();
            r
        },
    }
}

/// Structural equality of two payload values.
pub fn data_eq(a: &DataValue, b: &DataValue) -> (r: bool)
    ensures
        r == (a@ == b@),
    decreases a,
{
    match (a, b) {
        (DataValue::Null, DataValue::Null) => true,
        (DataValue::Bool(x), DataValue::Bool(y)) => x == y,
        (DataValue::Number(x), DataValue::Number(y)) => crate::nums::str_eq(
            x.as_str(),
            y.as_str(),
        ),
        (DataValue::Text(x), DataValue::Text(y)) => crate::nums::str_eq(x.as_str(), y.as_str()),
        (DataValue::Array(xs), DataValue::Array(ys)) => {
            proof {
                lemma_array_model(xs@);
                lemma_array_model(ys@);
            }
            if xs.len() != ys.len() {
                assert(array_model(xs@).len() != array_model(ys@).len());
                return false;
            }
            let n = xs.len();
            let mut i: usize = 0;
            while i < n
                invariant
                    *a == DataValue::Array(*xs),
                    *b == DataValue::Array(*ys),
                    i <= n == xs@.len() == ys@.len(),
                    forall|j: int| 0 <= j < i ==> (#[trigger] xs@[j])@ == ys@[j]@,
                decreases n - i,
            {
                proof {
                    assert(decreases_to!(*a => (*a)->Array_0));
                    assert(decreases_to!(*xs => xs@));
                    assert(decreases_to!(xs@ => xs@[i as int]));
                }
                if !data_eq(&xs[i], &ys[i]) {
                    proof {
                        lemma_array_model(xs@);
                        lemma_array_model(ys@);
                        assert(array_model(xs@)[i as int] != array_model(ys@)[i as int]);
                    }
                    return false;
                }
                i = i + 1;
            }
            proof {
                lemma_array_model(xs@);
                lemma_array_model(ys@);
                assert(array_model(xs@) =~= array_model(ys@));
            }
            true
        },
        (DataValue::Object(xs), DataValue::Object(ys)) => {
            proof {
                lemma_entries_model(xs@);
                lemma_entries_model(ys@);
            }
            if xs.len() != ys.len() {
                assert(entries_model(xs@).len() != entries_model(ys@).len());
                return false;
            }
            let n = xs.len();
            let mut i: usize = 0;
            while i < n
                invariant
                    *a == DataValue::Object(*xs),
                    *b == DataValue::Object(*ys),
                    i <= n == xs@.len() == ys@.len(),
                    forall|j: int|
                        0 <= j < i ==> (#[trigger] xs@[j]).0@ == ys@[j].0@ && xs@[j].1@
                            == ys@[j].1@,
                decreases n - i,
            {
                proof {
                    lemma_entries_model(xs@);
                    lemma_entries_model(ys@);
                    assert(decreases_to!(*a => (*a)->Object_0));
                    assert(decreases_to!(*xs => xs@));
                    assert(decreases_to!(xs@ => xs@[i as int]));
                    assert(decreases_to!(xs@[i as int] => xs@[i as int].1));
                }
                if !crate::nums::str_eq(xs[i].0.as_str(), ys[i].0.as_str()) {
                    proof {
                        assert(entries_model(xs@)[i as int].0 != entries_model(ys@)[i as int].0);
                    }
                    return false;
                }
                if !data_eq(&xs[i].1, &ys[i].1) {
                    proof {
                        assert(entries_model(xs@)[i as int].1 != entries_model(ys@)[i as int].1);
                    }
                    return false;
                }
                i = i + 1;
            }
            proof {
                lemma_entries_model(xs@);
                lemma_entries_model(ys@);
                assert(entries_model(xs@) =~= entries_model(ys@));
            }
            true
        },
        (_, _) => {
            assert(a@ != b@);
            false
        },
    }
}

/// Structural equality of two optional payload values.
pub fn opt_data_eq(a: &Option<DataValue>, b: &Option<DataValue>) -> (r: bool)
    ensures
        r == (match (a, b) {
            (Some(x), Some(y)) => x@ == y@,
            (None, None) => true,
            _ => false,
        }),
{
    match (a, b) {
        (Some(x), Some(y)) => data_eq(x, y),
        (None, None) => true,
        (_, _) => false,
    }
}

/// Merges an experiment's base data with a selected variation's data, the
/// variation overriding at every matching key.
pub fn merge_data(experiment_data: Option<DataValue>, variation_data: Option<DataValue>) -> (r:
    Option<DataValue>)
    ensures
        ({
            let ma = match experiment_data {
                Some(d) => Some(d@),
                None => None,
            };
            let mb = match variation_data {
                Some(d) => Some(d@),
                None => None,
            };
            match r {
                Some(d) => merge_opt(ma, mb) == Some(d@),
                None => merge_opt(ma, mb) is None,
            }
        }),
{
    match (experiment_data, variation_data) {
        (None, None) => None,
        (Some(d), None) => Some(d),
        (None, Some(d)) => Some(d),
        (Some(da), Some(db)) => Some(merge_value(&da, &db)),
    }
}

} // verus!
