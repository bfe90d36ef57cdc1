//! Built-in GROQ functions.
//!
//! [`call_builtin`] dispatches a named function over already-evaluated
//! argument values: `count`, `defined`, `length` and `references`. New
//! builtins can be added here by name without touching the evaluator's
//! dispatch.

use vstd::prelude::*;
use crate::eval::{EvalError, SpecEvalError};
use crate::text::str_eq;
use crate::value::{fields_view, spec_fields_get, value_view, values_view, SpecValue, Value};

verus! {

/// Does `v` contain, at any depth, an object whose `_ref` field is the
/// string `id`?
pub open spec fn spec_references(v: SpecValue, id: Seq<char>) -> bool
    decreases v, 1int,
{
    match v {
        SpecValue::Object(fields) => (match spec_fields_get(fields, "_ref"@) {
            Some(SpecValue::Str(r)) => r == id,
            _ => false,
        }) || spec_any_field_references(fields, id),
        SpecValue::Array(items) => spec_any_references(items, id),
        _ => false,
    }
}

/// Does some element of `vs` contain a `_ref` to `id`?
pub open spec fn spec_any_references(vs: Seq<SpecValue>, id: Seq<char>) -> bool
    decreases vs, 0int,
{
    exists|i: int| 0 <= i < vs.len() && spec_references(#[trigger] vs[i], id)
}

/// Does some field value of `fields` contain a `_ref` to `id`?
pub open spec fn spec_any_field_references(
    fields: Seq<(Seq<char>, SpecValue)>,
    id: Seq<char>,
) -> bool
    decreases fields, 0int,
{
    exists|i: int| 0 <= i < fields.len() && spec_references(#[trigger] fields[i].1, id)
}

/// What `count` returns: the length of an array, `0` for `null`, and a type
/// error for anything else (including a missing argument, or a length
/// beyond the integer range).
pub open spec fn spec_count(args: Seq<SpecValue>) -> Result<SpecValue, SpecEvalError> {
    if args.len() == 0 {
        Err(SpecEvalError::TypeError("count() expects an array"@))
    } else {
        match args[0] {
            SpecValue::Array(a) => if a.len() <= i64::MAX {
                Ok(SpecValue::Int(a.len() as int))
            } else {
                Err(SpecEvalError::TypeError("count() length does not fit in an integer"@))
            },
            SpecValue::Null => Ok(SpecValue::Int(0)),
            _ => Err(SpecEvalError::TypeError("count() expects an array"@)),
        }
    }
}

/// What `defined` returns: `false` for `null` or a missing argument, `true`
/// for anything else.
pub open spec fn spec_defined(args: Seq<SpecValue>) -> Result<SpecValue, SpecEvalError> {
    if args.len() == 0 {
        Ok(SpecValue::Bool(false))
    } else {
        match args[0] {
            SpecValue::Null => Ok(SpecValue::Bool(false)),
            _ => Ok(SpecValue::Bool(true)),
        }
    }
}

/// What `length` returns: the character count of a string, the element
/// count of an array, `null` for anything else (not an error; a length
/// beyond the integer range is one).
pub open spec fn spec_length(args: Seq<SpecValue>) -> Result<SpecValue, SpecEvalError> {
    if args.len() == 0 {
        Ok(SpecValue::Null)
    } else {
        match args[0] {
            SpecValue::Str(s) => if s.len() <= i64::MAX {
                Ok(SpecValue::Int(s.len() as int))
            } else {
                Err(SpecEvalError::TypeError("length() does not fit in an integer"@))
            },
            SpecValue::Array(a) => if a.len() <= i64::MAX {
                Ok(SpecValue::Int(a.len() as int))
            } else {
                Err(SpecEvalError::TypeError("length() does not fit in an integer"@))
            },
            _ => Ok(SpecValue::Null),
        }
    }
}

/// What `references` returns: whether the first argument contains a `_ref`
/// to the second. A non-string reference id yields `false`, not an error;
/// fewer than two arguments are a type error.
pub open spec fn spec_references_builtin(args: Seq<SpecValue>) -> Result<
    SpecValue,
    SpecEvalError,
> {
    if args.len() < 2 {
        Err(SpecEvalError::TypeError("references() needs 2 args"@))
    } else {
        match args[1] {
            SpecValue::Str(id) => Ok(SpecValue::Bool(spec_references(args[0], id))),
            _ => Ok(SpecValue::Bool(false)),
        }
    }
}

/// What [`call_builtin`] returns for each function name; an unknown name is
/// a type error.
pub open spec fn spec_call_builtin(name: Seq<char>, args: Seq<SpecValue>) -> Result<
    SpecValue,
    SpecEvalError,
> {
    if name == "count"@ {
        spec_count(args)
    } else if name == "defined"@ {
        spec_defined(args)
    } else if name == "length"@ {
        spec_length(args)
    } else if name == "references"@ {
        spec_references_builtin(args)
    } else {
        Err(SpecEvalError::TypeError("unknown function: "@ + name))
    }
}

/// Does `val` contain, at any depth, an object whose `_ref` field is the
/// string `ref_id`?
fn value_references(val: &Value, ref_id: &str) -> (r: bool)
    ensures
        r == spec_references(val@, ref_id@),
    decreases val,
{
    match val {
        Value::Object(fields) => {
            match val.get("_ref") {
                Some(v) => match v {
                    Value::Str(s) => if str_eq(s.as_str(), ref_id) {
                        return true;
                    },
                    _ => (),
                },
                None => (),
            }
            let mut i: usize = 0;
            #[verifier::loop_isolation(false)]
            while i < fields.len()
                invariant
                    0 <= i <= fields.len(),
                    forall|j: int|
                        0 <= j < i ==> !spec_references(#[trigger] fields_view(fields@)[j].1, ref_id@),
                decreases fields.len() - i,
            {
                proof {
                    assert(decreases_to!(*fields => fields@));
                    assert(decreases_to!(fields@ => fields@[i as int]));
                    assert(decreases_to!(fields@[i as int] => fields@[i as int].1));
                    assert(decreases_to!(*val => fields@[i as int].1));
                }
                if value_references(&fields[i].1, ref_id) {
                    proof {
                        assert(fields_view(fields@).len() == fields@.len());
                        assert(fields_view(fields@)[i as int].1 == value_view(fields@[i as int].1));
                        assert(spec_any_field_references(fields_view(fields@), ref_id@));
                    }
                    return true;
                }
                proof {
                    assert(fields_view(fields@)[i as int].1 == value_view(fields@[i as int].1));
                }
                i = i + 1;
            }
            false
        },
        Value::Array(items) => {
            let mut i: usize = 0;
            #[verifier::loop_isolation(false)]
            while i < items.len()
                invariant
                    0 <= i <= items.len(),
                    forall|j: int|
                        0 <= j < i ==> !spec_references(#[trigger] values_view(items@)[j], ref_id@),
                decreases items.len() - i,
            {
                proof {
                    assert(decreases_to!(*items => items@));
                    assert(decreases_to!(items@ => items@[i as int]));
                    assert(decreases_to!(*val => items@[i as int]));
                }
                if value_references(&items[i], ref_id) {
                    proof {
                        assert(values_view(items@).len() == items@.len());
                        assert(values_view(items@)[i as int] == value_view(items@[i as int]));
                        let s = values_view(items@);
                        assert(spec_any_references(s, ref_id@));
                        assert(val@ == SpecValue::Array(s));
                    }
                    return true;
                }
                proof {
                    assert(values_view(items@)[i as int] == value_view(items@[i as int]));
                }
                i = i + 1;
            }
            false
        },
        _ => false,
    }
}

fn builtin_count(args: &[Value]) -> (r: Result<Value, EvalError>)
    ensures
        match r {
            Ok(v) => spec_count(values_view(args@)) == Ok::<SpecValue, SpecEvalError>(v@),
            Err(e) => spec_count(values_view(args@)) == Err::<SpecValue, SpecEvalError>(e@),
        },
{
    if args.len() == 0 {
        return Err(EvalError::TypeError(String::from_str("count() expects an array")));
    }
    match &args[0] {
        Value::Array(arr) => {
            let n = arr.len();
            if n as u64 <= i64::MAX as u64 {
                proof {
                    assert(values_view(args@)[0] == value_view(args@[0]));
                    assert(values_view(arr@).len() == arr@.len());
                }
                Ok(Value::Int(n as i64))
            } else {
                Err(EvalError::TypeError(
                    String::from_str("count() length does not fit in an integer"),
                ))
            }
        },
        Value::Null => {
            proof {
                assert(values_view(args@)[0] == value_view(args@[0]));
            }
            Ok(Value::Int(0))
        },
        _ => {
            proof {
                assert(values_view(args@)[0] == value_view(args@[0]));
            }
            Err(EvalError::TypeError(String::from_str("count() expects an array")))
        },
    }
}

fn builtin_defined(args: &[Value]) -> (r: Result<Value, EvalError>)
    ensures
        match r {
            Ok(v) => spec_defined(values_view(args@)) == Ok::<SpecValue, SpecEvalError>(v@),
            Err(e) => spec_defined(values_view(args@)) == Err::<SpecValue, SpecEvalError>(e@),
        },
{
    if args.len() == 0 {
        return Ok(Value::Bool(false));
    }
    proof {
        assert(values_view(args@)[0] == value_view(args@[0]));
    }
    match &args[0] {
        Value::Null => Ok(Value::Bool(false)),
        _ => Ok(Value::Bool(true)),
    }
}

fn builtin_length(args: &[Value]) -> (r: Result<Value, EvalError>)
    ensures
        match r {
            Ok(v) => spec_length(values_view(args@)) == Ok::<SpecValue, SpecEvalError>(v@),
            Err(e) => spec_length(values_view(args@)) == Err::<SpecValue, SpecEvalError>(e@),
        },
{
    if args.len() == 0 {
        return Ok(Value::Null);
    }
    proof {
        assert(values_view(args@)[0] == value_view(args@[0]));
    }
    match &args[0] {
        Value::Str(s) => {
            let n = s.as_str().unicode_len();
            if n as u64 <= i64::MAX as u64 {
                Ok(Value::Int(n as i64))
            } else {
                Err(EvalError::TypeError(
                    String::from_str("length() does not fit in an integer"),
                ))
            }
        },
        Value::Array(arr) => {
            let n = arr.len();
            if n as u64 <= i64::MAX as u64 {
                proof {
                    assert(values_view(arr@).len() == arr@.len());
                }
                Ok(Value::Int(n as i64))
            } else {
                Err(EvalError::TypeError(
                    String::from_str("length() does not fit in an integer"),
                ))
            }
        },
        _ => Ok(Value::Null),
    }
}

fn builtin_references(args: &[Value]) -> (r: Result<Value, EvalError>)
    ensures
        match r {
            Ok(v) => spec_references_builtin(values_view(args@)) == Ok::<
                SpecValue,
                SpecEvalError,
            >(v@),
            Err(e) => spec_references_builtin(values_view(args@)) == Err::<
                SpecValue,
                SpecEvalError,
            >(e@),
        },
{
    if args.len() < 2 {
        return Err(EvalError::TypeError(String::from_str("references() needs 2 args")));
    }
    proof {
        assert(values_view(args@)[0] == value_view(args@[0]));
        assert(values_view(args@)[1] == value_view(args@[1]));
    }
    match &args[1] {
        Value::Str(ref_id) => {
            let found = value_references(&args[0], ref_id.as_str());
            Ok(Value::Bool(found))
        },
        _ => Ok(Value::Bool(false)),
    }
}

/// Evaluate a built-in GROQ function by name over already-evaluated
/// argument values.
pub fn call_builtin(name: &str, args: &[Value]) -> (r: Result<Value, EvalError>)
    ensures
        match r {
            Ok(v) => spec_call_builtin(name@, values_view(args@)) == Ok::<
                SpecValue,
                SpecEvalError,
            >(v@),
            Err(e) => spec_call_builtin(name@, values_view(args@)) == Err::<
                SpecValue,
                SpecEvalError,
            >(e@),
        },
{
    if str_eq(name, "count") {
        builtin_count(args)
    } else if str_eq(name, "defined") {
        builtin_defined(args)
    } else if str_eq(name, "length") {
        builtin_length(args)
    } else if str_eq(name, "references") {
        builtin_references(args)
    } else {
        let mut m = String::from_str("unknown function: ");
        m.append(name);
        Err(EvalError::TypeError(m))
    }
}

} // verus!
