//! Values: what a document writes as input and what a response carries.

use vstd::prelude::*;

verus! {

/// An input value as written in a document, and a resolved value in a response.
#[derive(Debug, PartialEq)]
pub enum Value {
    Variable(String),
    Int(i64),
    /// The IEEE-754 bits of a double.
    Float(u64),
    String(String),
    Boolean(bool),
    Null,
    Enum(String),
    List(Vec<Value>),
    /// Name/value pairs in order.
    Object(Vec<(String, Value)>),
}

/// The mathematical form of a [`Value`]: strings are sequences of characters,
/// lists and objects are sequences.
pub enum ValueView {
    Variable(Seq<char>),
    Int(i64),
    Float(u64),
    String(Seq<char>),
    Boolean(bool),
    Null,
    Enum(Seq<char>),
    List(Seq<ValueView>),
    Object(Seq<(Seq<char>, ValueView)>),
}

/// The mathematical form of a value.
pub open spec fn value_view(value: Value) -> ValueView
    decreases value,
{
    match value {
        Value::Variable(n) => ValueView::Variable(n@),
        Value::Int(i) => ValueView::Int(i),
        Value::Float(bits) => ValueView::Float(bits),
        Value::String(s) => ValueView::String(s@),
        Value::Boolean(b) => ValueView::Boolean(b),
        Value::Null => ValueView::Null,
        Value::Enum(n) => ValueView::Enum(n@),
        Value::List(items) => ValueView::List(values_view(items@)),
        Value::Object(fields) => ValueView::Object(pairs_view(fields@)),
    }
}

/// The views of a sequence of values.
pub open spec fn values_view(values: Seq<Value>) -> Seq<ValueView>
    decreases values,
{
    if values.len() == 0 {
        Seq::empty()
    } else {
        values_view(values.drop_last()).push(value_view(values.last()))
    }
}

/// The views of a sequence of name/value pairs.
pub open spec fn pairs_view(pairs: Seq<(String, Value)>) -> Seq<(Seq<char>, ValueView)>
    decreases pairs,
{
    if pairs.len() == 0 {
        Seq::empty()
    } else {
        pairs_view(pairs.drop_last()).push((pairs.last().0@, value_view(pairs.last().1)))
    }
}

impl View for Value {
    type V = ValueView;

    open spec fn view(&self) -> ValueView {
        value_view(*self)
    }
}

/// The views of a sequence of values are the views of its elements, one for one.
pub proof fn lemma_values_view(values: Seq<Value>)
    ensures
        values_view(values).len() == values.len(),
        forall|i: int| 0 <= i < values.len() ==> #[trigger] values_view(values)[i] == values[i]@,
    decreases values.len(),
{
    if values.len() > 0 {
        lemma_values_view(values.drop_last());
    }
}

/// The views of a sequence of pairs are the views of its pairs, one for one.
pub proof fn lemma_pairs_view(pairs: Seq<(String, Value)>)
    ensures
        pairs_view(pairs).len() == pairs.len(),
        forall|i: int|
            0 <= i < pairs.len() ==> #[trigger] pairs_view(pairs)[i] == (pairs[i].0@, pairs[i].1@),
    decreases pairs.len(),
{
    if pairs.len() > 0 {
        lemma_pairs_view(pairs.drop_last());
    }
}

/// The views of a sequence with one more value.
pub proof fn lemma_values_view_push(values: Seq<Value>, value: Value)
    ensures
        values_view(values.push(value)) == values_view(values).push(value@),
{
    assert(values.push(value).drop_last() =~= values);
}

/// The views of a sequence with one more pair.
pub proof fn lemma_pairs_view_push(pairs: Seq<(String, Value)>, pair: (String, Value))
    ensures
        pairs_view(pairs.push(pair)) == pairs_view(pairs).push((pair.0@, pair.1@)),
{
    assert(pairs.push(pair).drop_last() =~= pairs);
}

impl Clone for Value {
    #[verifier::loop_isolation(false)]
    fn clone(&self) -> (copy: Value)
        ensures
            copy@ == self@,
        decreases self,
    {
        match self {
            Value::Variable(n) => Value::Variable(n.clone()),
            Value::Int(i) => Value::Int(*i),
            Value::Float(bits) => Value::Float(*bits),
            Value::String(s) => Value::String(s.clone()),
            Value::Boolean(b) => Value::Boolean(*b),
            Value::Null => Value::Null,
            Value::Enum(n) => Value::Enum(n.clone()),
            Value::List(items) => {
                let mut out: Vec<Value> = Vec::new();
                let mut i: usize = 0;
                while i < items.len()
                    invariant
                        i <= items.len(),
                        values_view(out@) == values_view(items@.take(i as int)),
                    decreases items.len() - i,
                {
                    let item = items[i].clone();
                    proof {
                        lemma_values_view_push(out@, item);
                        lemma_values_view_push(items@.take(i as int), items@[i as int]);
                        assert(items@.take(i as int).push(items@[i as int]) =~= items@.take(i + 1));
                    }
                    out.push(item);
                    i += 1;
                }
                assert(items@.take(i as int) =~= items@);
                Value::List(out)
            },
            Value::Object(fields) => {
                let mut out: Vec<(String, Value)> = Vec::new();
                let mut i: usize = 0;
                while i < fields.len()
                    invariant
                        i <= fields.len(),
                        pairs_view(out@) == pairs_view(fields@.take(i as int)),
                    decreases fields.len() - i,
                {
                    let pair = (fields[i].0.clone(), fields[i].1.clone());
                    proof {
                        lemma_pairs_view_push(out@, pair);
                        lemma_pairs_view_push(fields@.take(i as int), fields@[i as int]);
                        assert(fields@.take(i as int).push(fields@[i as int]) =~= fields@.take(
                            i + 1,
                        ));
                    }
                    out.push(pair);
                    i += 1;
                }
                assert(fields@.take(i as int) =~= fields@);
                Value::Object(out)
            },
        }
    }
}

/// Whether two values have the same mathematical form.
#[verifier::loop_isolation(false)]
pub fn same_value(a: &Value, b: &Value) -> (same: bool)
    ensures
        same == (a@ == b@),
    decreases a,
{
    match (a, b) {
        (Value::Variable(x), Value::Variable(y)) => *x == *y,
        (Value::Int(x), Value::Int(y)) => *x == *y,
        (Value::Float(x), Value::Float(y)) => *x == *y,
        (Value::String(x), Value::String(y)) => *x == *y,
        (Value::Boolean(x), Value::Boolean(y)) => *x == *y,
        (Value::Null, Value::Null) => true,
        (Value::Enum(x), Value::Enum(y)) => *x == *y,
        (Value::List(x), Value::List(y)) => {
            proof {
                lemma_values_view(x@);
                lemma_values_view(y@);
            }
            if x.len() != y.len() {
                return false;
            }
            let mut i: usize = 0;
            while i < x.len()
                invariant
                    i <= x.len(),
                    x.len() == y.len(),
                    forall|j: int| 0 <= j < i ==> x@[j]@ == y@[j]@,
                decreases x.len() - i,
            {
                if !same_value(&x[i], &y[i]) {
                    assert(values_view(x@)[i as int] != values_view(y@)[i as int]);
                    return false;
                }
                i += 1;
            }
            assert(values_view(x@) =~= values_view(y@));
            true
        },
        (Value::Object(x), Value::Object(y)) => {
            proof {
                lemma_pairs_view(x@);
                lemma_pairs_view(y@);
            }
            if x.len() != y.len() {
                return false;
            }
            let mut i: usize = 0;
            while i < x.len()
                invariant
                    i <= x.len(),
                    x.len() == y.len(),
                    forall|j: int|
                        0 <= j < i ==> x@[j].0@ == y@[j].0@ && x@[j].1@ == y@[j].1@,
                decreases x.len() - i,
            {
                if !(x[i].0 == y[i].0) || !same_value(&x[i].1, &y[i].1) {
                    assert(pairs_view(x@)[i as int] != pairs_view(y@)[i as int]);
                    return false;
                }
                i += 1;
            }
            assert(pairs_view(x@) =~= pairs_view(y@));
            true
        },
        _ => false,
    }
}

/// The first index at or after `start` of a pair with the name `key`.
pub open spec fn key_index(pairs: Seq<(Seq<char>, ValueView)>, key: Seq<char>, start: int) -> Option<
    int,
>
    decreases pairs.len() - start,
{
    if start < 0 || start >= pairs.len() {
        None
    } else if pairs[start].0 == key {
        Some(start)
    } else {
        key_index(pairs, key, start + 1)
    }
}

/// The value under the first pair of `pairs` named `name`.
pub open spec fn value_named(pairs: Seq<(Seq<char>, ValueView)>, name: Seq<char>) -> Option<
    ValueView,
> {
    match key_index(pairs, name, 0) {
        Some(i) => Some(pairs[i].1),
        None => None,
    }
}

/// The attribute `field` of an object: null where it has none of that name.
pub open spec fn attribute(attributes: Seq<(Seq<char>, ValueView)>, field: Seq<char>) -> ValueView {
    match value_named(attributes, field) {
        Some(value) => value,
        None => ValueView::Null,
    }
}

/// Finds the value of the first pair named `name`.
pub fn find_value<'a>(pairs: &'a Vec<(String, Value)>, name: &String) -> (found: Option<&'a Value>)
    ensures
        match found {
            Some(value) => value_named(pairs_view(pairs@), name@) == Some(value@),
            None => value_named(pairs_view(pairs@), name@) is None,
        },
{
    proof {
        lemma_pairs_view(pairs@);
    }
    let mut i: usize = 0;
    while i < pairs.len()
        invariant
            i <= pairs.len(),
            pairs_view(pairs@).len() == pairs@.len(),
            forall|j: int|
                0 <= j < pairs@.len() ==> #[trigger] pairs_view(pairs@)[j] == (
                    pairs@[j].0@,
                    pairs@[j].1@,
                ),
            key_index(pairs_view(pairs@), name@, 0) == key_index(
                pairs_view(pairs@),
                name@,
                i as int,
            ),
        decreases pairs.len() - i,
    {
        assert(pairs_view(pairs@)[i as int].0 == pairs@[i as int].0@);
        if pairs[i].0 == *name {
            return Some(&pairs[i].1);
        }
        i += 1;
    }
    None
}

} // verus!
