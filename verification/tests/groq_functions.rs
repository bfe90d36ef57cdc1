use content_lake::eval::EvalError;
use content_lake::functions::call_builtin;
use content_lake::value::Value;

fn obj(fields: Vec<(&str, Value)>) -> Value {
    Value::Object(
        fields
            .into_iter()
            .map(|(k, v)| (k.to_string(), v))
            .collect(),
    )
}

fn s(text: &str) -> Value {
    Value::Str(text.to_string())
}

#[test]
fn test_count() {
    let r = call_builtin(
        "count",
        &[Value::Array(vec![Value::Int(1), Value::Int(2), Value::Int(3)])],
    )
    .unwrap();
    assert_eq!(r, Value::Int(3));
}

#[test]
fn test_defined() {
    assert_eq!(
        call_builtin("defined", &[Value::Null]).unwrap(),
        Value::Bool(false)
    );
    assert_eq!(
        call_builtin("defined", &[s("x")]).unwrap(),
        Value::Bool(true)
    );
}

#[test]
fn test_length() {
    assert_eq!(call_builtin("length", &[s("hello")]).unwrap(), Value::Int(5));
    assert_eq!(
        call_builtin("length", &[Value::Array(vec![Value::Int(1), Value::Int(2)])]).unwrap(),
        Value::Int(2)
    );
}

#[test]
fn test_references() {
    let doc = obj(vec![
        ("author", obj(vec![("_ref", s("user-1"))])),
        ("tags", Value::Array(vec![obj(vec![("_ref", s("tag-2"))])])),
    ]);
    let doc2 = obj(vec![
        ("author", obj(vec![("_ref", s("user-1"))])),
        ("tags", Value::Array(vec![obj(vec![("_ref", s("tag-2"))])])),
    ]);
    assert_eq!(
        call_builtin("references", &[doc, s("user-1")]).unwrap(),
        Value::Bool(true)
    );
    assert_eq!(
        call_builtin("references", &[doc2.deep_copy(), s("nope")]).unwrap(),
        Value::Bool(false)
    );
    assert_eq!(
        call_builtin("references", &[doc2, s("tag-2")]).unwrap(),
        Value::Bool(true)
    );
}

#[test]
fn count_of_null_and_non_array() {
    assert_eq!(call_builtin("count", &[Value::Null]).unwrap(), Value::Int(0));
    assert!(matches!(
        call_builtin("count", &[s("x")]),
        Err(EvalError::TypeError(_))
    ));
    assert!(matches!(
        call_builtin("count", &[]),
        Err(EvalError::TypeError(_))
    ));
}

#[test]
fn length_of_other_values_is_null() {
    assert_eq!(call_builtin("length", &[Value::Int(7)]).unwrap(), Value::Null);
    assert_eq!(call_builtin("length", &[Value::Null]).unwrap(), Value::Null);
}

#[test]
fn references_argument_shapes() {
    // Fewer than two arguments is a type error; a non-string reference id
    // is simply no match.
    assert!(matches!(
        call_builtin("references", &[Value::Null]),
        Err(EvalError::TypeError(_))
    ));
    assert_eq!(
        call_builtin("references", &[obj(vec![]), Value::Int(3)]).unwrap(),
        Value::Bool(false)
    );
}

#[test]
fn references_matches_at_top_level() {
    let doc = obj(vec![("_ref", s("user-1"))]);
    assert_eq!(
        call_builtin("references", &[doc, s("user-1")]).unwrap(),
        Value::Bool(true)
    );
}

#[test]
fn unknown_function_is_type_error() {
    match call_builtin("nope", &[]) {
        Err(EvalError::TypeError(msg)) => {
            assert_eq!(msg, "unknown function: nope");
        }
        other => panic!("expected TypeError, got {other:?}"),
    }
}
