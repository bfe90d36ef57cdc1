//! Dynamically typed document values.
//!
//! A [`Value`] is the JSON-like datum a caller hands to the evaluator: null,
//! boolean, number, string, ordered array, or string-keyed object. Numbers
//! are split into 64-bit integers and floating-point numerals; a
//! floating-point number is carried as its decimal numeral text and compared
//! textually, so that no float arithmetic enters the crate.
//!
//! An object is a list of key/value pairs. Lookup takes the first pair
//! carrying the key, and equality compares objects as the maps they
//! denote — same key set, equal value per key — so the order in which
//! fields were inserted never matters.

use vstd::prelude::*;

verus! {

/// A JSON-like document value. [`Value::deep_copy`] takes the place of
/// `Clone`.
#[derive(Debug, PartialEq, Eq)]
pub enum Value {
    Null,
    Bool(bool),
    /// A 64-bit integer number.
    Int(i64),
    /// A floating-point number, carried as its decimal numeral text.
    Float(String),
    Str(String),
    Array(Vec<Value>),
    /// String-keyed fields, one pair per key.
    Object(Vec<(String, Value)>),
}

/// The mathematical shape of a [`Value`]: strings become character
/// sequences, integers unbounded integers. Contracts throughout the crate
/// speak of this view.
pub enum SpecValue {
    Null,
    Bool(bool),
    Int(int),
    Float(Seq<char>),
    Str(Seq<char>),
    Array(Seq<SpecValue>),
    Object(Seq<(Seq<char>, SpecValue)>),
}

/// The view of a single value.
pub open spec fn value_view(v: Value) -> SpecValue
    decreases v,
{
    match v {
        Value::Null => SpecValue::Null,
        Value::Bool(b) => SpecValue::Bool(b),
        Value::Int(n) => SpecValue::Int(n as int),
        Value::Float(t) => SpecValue::Float(t@),
        Value::Str(s) => SpecValue::Str(s@),
        Value::Array(items) => SpecValue::Array(values_view(items@)),
        Value::Object(fields) => SpecValue::Object(fields_view(fields@)),
    }
}

/// The views of a sequence of values, element by element.
pub open spec fn values_view(s: Seq<Value>) -> Seq<SpecValue>
    decreases s,
{
    Seq::new(
        s.len(),
        |i: int|
            if 0 <= i < s.len() {
                value_view(s[i])
            } else {
                SpecValue::Null
            },
    )
}

/// The views of a field list, pair by pair.
pub open spec fn fields_view(s: Seq<(String, Value)>) -> Seq<(Seq<char>, SpecValue)>
    decreases s,
{
    Seq::new(
        s.len(),
        |i: int|
            if 0 <= i < s.len() {
                (s[i].0@, value_view(s[i].1))
            } else {
                (Seq::<char>::empty(), SpecValue::Null)
            },
    )
}

impl View for Value {
    type V = SpecValue;

    open spec fn view(&self) -> SpecValue {
        value_view(*self)
    }
}

/// The value stored under `key`, looking at the first pair that carries it.
pub open spec fn spec_fields_get(fields: Seq<(Seq<char>, SpecValue)>, key: Seq<char>) -> Option<
    SpecValue,
>
    decreases fields.len(),
{
    if fields.len() == 0 {
        None
    } else if fields[0].0 == key {
        Some(fields[0].1)
    } else {
        spec_fields_get(fields.drop_first(), key)
    }
}

/// Field lookup on a value: the field of an object, `None` on anything else.
pub open spec fn spec_get(v: SpecValue, key: Seq<char>) -> Option<SpecValue> {
    match v {
        SpecValue::Object(fields) => spec_fields_get(fields, key),
        _ => None,
    }
}

/// No earlier pair carries the same key: position `i` is the one lookup
/// finds.
pub open spec fn first_key_at(fields: Seq<(Seq<char>, SpecValue)>, i: int) -> bool {
    forall|m: int| 0 <= m < i ==> (#[trigger] fields[m]).0 != fields[i].0
}

/// Deep value equality: scalars by value (floats by their numeral text),
/// arrays element by element in order, objects by key set and per-key
/// values with field order irrelevant. This is the equality the
/// evaluator's `Eq`/`Neq` use.
pub open spec fn sv_eq(a: SpecValue, b: SpecValue) -> bool
    decreases a, 1int,
{
    match (a, b) {
        (SpecValue::Null, SpecValue::Null) => true,
        (SpecValue::Bool(x), SpecValue::Bool(y)) => x == y,
        (SpecValue::Int(x), SpecValue::Int(y)) => x == y,
        (SpecValue::Float(x), SpecValue::Float(y)) => x == y,
        (SpecValue::Str(x), SpecValue::Str(y)) => x == y,
        (SpecValue::Array(x), SpecValue::Array(y)) => x.len() == y.len() && sv_seq_eq(x, y),
        (SpecValue::Object(fa), SpecValue::Object(fb)) => sv_fields_eq(fa, fb)
            && sv_keys_subset(fb, fa),
        _ => false,
    }
}

/// Equality of two equally long value sequences, element by element.
pub open spec fn sv_seq_eq(x: Seq<SpecValue>, y: Seq<SpecValue>) -> bool
    decreases x, 0int,
{
    forall|i: int| 0 <= i < x.len() ==> sv_eq(#[trigger] x[i], y[i])
}

/// Every key of `fa` (at its first occurrence, the one lookup finds) is
/// present in `fb` with an equal value.
pub open spec fn sv_fields_eq(
    fa: Seq<(Seq<char>, SpecValue)>,
    fb: Seq<(Seq<char>, SpecValue)>,
) -> bool
    decreases fa, 0int,
{
    forall|i: int|
        0 <= i < fa.len() && first_key_at(fa, i) ==> (match spec_fields_get(
            fb,
            (#[trigger] fa[i]).0,
        ) {
            Some(bv) => sv_eq(fa[i].1, bv),
            None => false,
        })
}

/// Every key of `fb` is present in `fa`.
pub open spec fn sv_keys_subset(
    fb: Seq<(Seq<char>, SpecValue)>,
    fa: Seq<(Seq<char>, SpecValue)>,
) -> bool {
    forall|j: int| 0 <= j < fb.len() ==> spec_fields_get(fa, (#[trigger] fb[j]).0) is Some
}

/// Every key of a field list appears once.
pub open spec fn unique_keys(fields: Seq<(Seq<char>, SpecValue)>) -> bool {
    forall|i: int, j: int|
        0 <= i < j < fields.len() ==> (#[trigger] fields[i]).0 != (#[trigger] fields[j]).0
}

/// With unique keys, lookup returns the value paired with a key no matter
/// where in the list the pair sits: the order in which an object's fields
/// were inserted is irrelevant to every read the evaluator makes.
pub proof fn lemma_fields_get_order_irrelevant(fields: Seq<(Seq<char>, SpecValue)>, i: int)
    requires
        unique_keys(fields),
        0 <= i < fields.len(),
    ensures
        spec_fields_get(fields, fields[i].0) == Some(fields[i].1),
    decreases fields.len(),
{
    if i > 0 {
        assert(fields.drop_first()[i - 1] == fields[i]);
        let rest = fields.drop_first();
        assert(unique_keys(rest)) by {
            assert forall|a: int, b: int|
                0 <= a < b < rest.len() implies (#[trigger] rest[a]).0 != (
            #[trigger] rest[b]).0 by {
                assert(rest[a] == fields[a + 1]);
                assert(rest[b] == fields[b + 1]);
            }
        }
        lemma_fields_get_order_irrelevant(fields.drop_first(), i - 1);
    }
}

/// Look up `key` in a field list, taking the first pair that carries it.
#[verifier::loop_isolation(false)]
fn get_field<'a>(fields: &'a Vec<(String, Value)>, key: &str) -> (r: Option<&'a Value>)
    ensures
        match r {
            Some(f) => spec_fields_get(fields_view(fields@), key@) == Some(f@),
            None => spec_fields_get(fields_view(fields@), key@) is None,
        },
{
    let ghost fview = fields_view(fields@);
    proof {
        assert(fview.skip(0) =~= fview);
    }
    let mut i: usize = 0;
    while i < fields.len()
        invariant
            0 <= i <= fields.len(),
            spec_fields_get(fview, key@) == spec_fields_get(fview.skip(i as int), key@),
        decreases fields.len() - i,
    {
        if crate::text::str_eq(fields[i].0.as_str(), key) {
            proof {
                assert(fview.skip(i as int)[0] == fview[i as int]);
            }
            return Some(&fields[i].1);
        }
        proof {
            assert(fview.skip(i as int)[0] == fview[i as int]);
            assert(fview.skip(i as int).drop_first() =~= fview.skip(i + 1));
        }
        i = i + 1;
    }
    None
}

impl Value {
    /// A deep copy whose view is unchanged.
    #[verifier::loop_isolation(false)]
    pub fn deep_copy(&self) -> (r: Value)
        ensures
            r@ == self@,
        decreases self,
    {
        match self {
            Value::Null => Value::Null,
            Value::Bool(b) => Value::Bool(*b),
            Value::Int(n) => Value::Int(*n),
            Value::Float(t) => Value::Float(t.clone()),
            Value::Str(s) => Value::Str(s.clone()),
            Value::Array(items) => {
                let mut out: Vec<Value> = Vec::new();
                let mut i: usize = 0;
                while i < items.len()
                    invariant
                        0 <= i <= items.len(),
                        values_view(out@).len() == i,
                        forall|j: int| 0 <= j < i ==> values_view(out@)[j] == values_view(items@)[j],
                    decreases items.len() - i,
                {
                    proof {
                        assert(decreases_to!(*items => items@));
                        assert(decreases_to!(items@ => items@[i as int]));
                        assert(decreases_to!(*self => items@[i as int]));
                    }
                    let c = items[i].deep_copy();
                    out.push(c);
                    i = i + 1;
                }
                let r = Value::Array(out);
                proof {
                    assert(values_view(out@) =~= values_view(items@));
                }
                r
            },
            Value::Object(fields) => {
                let mut out: Vec<(String, Value)> = Vec::new();
                let mut i: usize = 0;
                while i < fields.len()
                    invariant
                        0 <= i <= fields.len(),
                        fields_view(out@).len() == i,
                        forall|j: int| 0 <= j < i ==> fields_view(out@)[j] == fields_view(fields@)[j],
                    decreases fields.len() - i,
                {
                    proof {
                        assert(decreases_to!(*fields => fields@));
                        assert(decreases_to!(fields@ => fields@[i as int]));
                        assert(decreases_to!(fields@[i as int] => fields@[i as int].1));
                        assert(decreases_to!(*self => fields@[i as int].1));
                    }
                    let k = fields[i].0.clone();
                    let v = fields[i].1.deep_copy();
                    out.push((k, v));
                    i = i + 1;
                }
                let r = Value::Object(out);
                proof {
                    assert(fields_view(out@) =~= fields_view(fields@));
                }
                r
            },
        }
    }

    /// Field lookup: the field named `key` of an object, `None` on any other
    /// value or when the key is absent.
    pub fn get<'a>(&'a self, key: &str) -> (r: Option<&'a Value>)
        ensures
            match r {
                Some(f) => spec_get(self@, key@) == Some(f@),
                None => spec_get(self@, key@) is None,
            },
    {
        match self {
            Value::Object(fields) => get_field(fields, key),
            _ => None,
        }
    }

    /// Deep value equality, as [`sv_eq`] states it: scalars by value
    /// (floats by their numeral text), arrays element by element in order,
    /// objects by key set and per-key values with field order irrelevant.
    #[verifier::loop_isolation(false)]
    #[verifier::rlimit(100)]
    pub fn value_eq(a: &Value, b: &Value) -> (r: bool)
        ensures
            r == sv_eq(a@, b@),
        decreases a,
    {
        match (a, b) {
            (Value::Null, Value::Null) => true,
            (Value::Bool(x), Value::Bool(y)) => x == y,
            (Value::Int(x), Value::Int(y)) => x == y,
            (Value::Float(x), Value::Float(y)) => crate::text::str_eq(x.as_str(), y.as_str()),
            (Value::Str(x), Value::Str(y)) => crate::text::str_eq(x.as_str(), y.as_str()),
            (Value::Array(x), Value::Array(y)) => {
                let ghost xs = values_view(x@);
                let ghost ys = values_view(y@);
                if x.len() != y.len() {
                    proof {
                        assert(xs.len() == x@.len());
                        assert(ys.len() == y@.len());
                    }
                    return false;
                }
                let mut i: usize = 0;
                while i < x.len()
                    invariant
                        x@.len() == y@.len(),
                        0 <= i <= x@.len(),
                        forall|j: int| 0 <= j < i ==> sv_eq(#[trigger] xs[j], ys[j]),
                    decreases x@.len() - i,
                {
                    proof {
                        assert(decreases_to!(*x => x@));
                        assert(decreases_to!(x@ => x@[i as int]));
                        assert(decreases_to!(*a => x@[i as int]));
                        assert(xs[i as int] == value_view(x@[i as int]));
                        assert(ys[i as int] == value_view(y@[i as int]));
                    }
                    if !Value::value_eq(&x[i], &y[i]) {
                        proof {
                            assert(!sv_seq_eq(xs, ys));
                        }
                        return false;
                    }
                    i = i + 1;
                }
                proof {
                    assert(sv_seq_eq(xs, ys));
                }
                true
            },
            (Value::Object(x), Value::Object(y)) => {
                let ghost fa = fields_view(x@);
                let ghost fb = fields_view(y@);
                let mut i: usize = 0;
                while i < x.len()
                    invariant
                        0 <= i <= x@.len(),
                        forall|i2: int|
                            0 <= i2 < i && first_key_at(fa, i2) ==> (match spec_fields_get(
                                fb,
                                (#[trigger] fa[i2]).0,
                            ) {
                                Some(bv) => sv_eq(fa[i2].1, bv),
                                None => false,
                            }),
                    decreases x@.len() - i,
                {
                    proof {
                        assert(fa[i as int] == (x@[i as int].0@, value_view(x@[i as int].1)));
                    }
                    let mut m: usize = 0;
                    let mut first: bool = true;
                    while m < i
                        invariant
                            0 <= m <= i,
                            i < x@.len(),
                            first == (forall|m2: int|
                                0 <= m2 < m ==> (#[trigger] fa[m2]).0 != fa[i as int].0),
                        decreases i - m,
                    {
                        proof {
                            assert(fa[m as int] == (
                                x@[m as int].0@,
                                value_view(x@[m as int].1),
                            ));
                        }
                        if crate::text::str_eq(x[m].0.as_str(), x[i].0.as_str()) {
                            first = false;
                        }
                        m = m + 1;
                    }
                    proof {
                        assert(first == first_key_at(fa, i as int));
                    }
                    if first {
                        match get_field(y, x[i].0.as_str()) {
                            Some(bv) => {
                                proof {
                                    assert(decreases_to!(*x => x@));
                                    assert(decreases_to!(x@ => x@[i as int]));
                                    assert(decreases_to!(x@[i as int] => x@[i as int].1));
                                    assert(decreases_to!(*a => x@[i as int].1));
                                }
                                if !Value::value_eq(&x[i].1, bv) {
                                    proof {
                                        assert(!sv_fields_eq(fa, fb));
                                    }
                                    return false;
                                }
                            },
                            None => {
                                proof {
                                    assert(!sv_fields_eq(fa, fb));
                                }
                                return false;
                            },
                        }
                    }
                    i = i + 1;
                }
                let mut j: usize = 0;
                while j < y.len()
                    invariant
                        0 <= j <= y@.len(),
                        forall|j2: int|
                            0 <= j2 < j ==> spec_fields_get(fa, (#[trigger] fb[j2]).0) is Some,
                    decreases y@.len() - j,
                {
                    proof {
                        assert(fb[j as int] == (y@[j as int].0@, value_view(y@[j as int].1)));
                    }
                    match get_field(x, y[j].0.as_str()) {
                        Some(_) => {},
                        None => {
                            proof {
                                assert(!sv_keys_subset(fb, fa));
                            }
                            return false;
                        },
                    }
                    j = j + 1;
                }
                proof {
                    assert(fa.len() == x@.len());
                    assert(fb.len() == y@.len());
                    assert(sv_fields_eq(fa, fb));
                    assert(sv_keys_subset(fb, fa));
                }
                true
            },
            _ => false,
        }
    }
}

} // verus!
