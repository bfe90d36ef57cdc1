use content_lake::ast::Expr;
use content_lake::eval::{eval_expr, eval_filter, EvalError};
use content_lake::parser::parse;
use content_lake::value::Value;

fn obj(fields: Vec<(&str, Value)>) -> Value {
    Value::Object(
        fields
            .into_iter()
            .map(|(k, v)| (k.to_string(), v))
            .collect(),
    )
}

fn s(text: &str) -> Value {
    Value::Str(text.to_string())
}

#[test]
fn eval_simple_eq() {
    let expr = Expr::Eq(
        Box::new(Expr::Ident("_type".into())),
        Box::new(Expr::StringLiteral("post".into())),
    );
    let doc = obj(vec![("_type", s("post"))]);
    assert!(eval_filter(&expr, &doc, &obj(vec![])).unwrap());
}

#[test]
fn eval_and() {
    let expr = Expr::And(
        Box::new(Expr::Eq(
            Box::new(Expr::Ident("_type".into())),
            Box::new(Expr::StringLiteral("post".into())),
        )),
        Box::new(Expr::Eq(
            Box::new(Expr::Ident("published".into())),
            Box::new(Expr::BoolLiteral(true)),
        )),
    );
    let doc = obj(vec![("_type", s("post")), ("published", Value::Bool(true))]);
    assert!(eval_filter(&expr, &doc, &obj(vec![])).unwrap());
}

#[test]
fn eval_dot_access() {
    let expr = Expr::Eq(
        Box::new(Expr::DotAccess(
            Box::new(Expr::Ident("author".into())),
            "_ref".into(),
        )),
        Box::new(Expr::StringLiteral("user1".into())),
    );
    let doc = obj(vec![("author", obj(vec![("_ref", s("user1"))]))]);
    assert!(eval_filter(&expr, &doc, &obj(vec![])).unwrap());
}

#[test]
fn eval_parsed_filter_against_documents() {
    // A parsed `*[...]` tree evaluates its filter stage against one
    // document at a time.
    let expr = parse("*[_type == \"post\"]").unwrap();
    let filter = match &expr {
        Expr::Pipeline(stages) => match &stages[1] {
            Expr::Filter(inner) => inner.as_ref(),
            _ => panic!("expected Filter"),
        },
        _ => panic!("expected Pipeline"),
    };
    let post = obj(vec![("_type", s("post"))]);
    let page = obj(vec![("_type", s("page"))]);
    let params = obj(vec![]);
    assert!(eval_filter(filter, &post, &params).unwrap());
    assert!(!eval_filter(filter, &page, &params).unwrap());
}

#[test]
fn eval_is_deterministic() {
    let expr = parse("a.b == 3 || c == \"x\"").unwrap();
    let doc = obj(vec![("a", obj(vec![("b", Value::Int(3))])), ("c", s("y"))]);
    let params = obj(vec![]);
    let first = eval_filter(&expr, &doc, &params);
    let second = eval_filter(&expr, &doc, &params);
    assert_eq!(first, second);
    assert!(first.unwrap());
}

#[test]
fn eval_and_short_circuits_past_errors() {
    // The right operand would report Unsupported, but a false left operand
    // decides the conjunction first.
    let bad = Expr::Deref(Box::new(Expr::Ident("a".into())), "b".into());
    assert_eq!(
        eval_filter(&bad, &obj(vec![]), &obj(vec![])),
        Err(EvalError::Unsupported)
    );
    let expr = Expr::And(Box::new(Expr::BoolLiteral(false)), Box::new(bad));
    assert_eq!(eval_filter(&expr, &obj(vec![]), &obj(vec![])), Ok(false));
}

#[test]
fn eval_or_short_circuits_past_errors() {
    let bad = Expr::Parent;
    let expr = Expr::Or(Box::new(Expr::BoolLiteral(true)), Box::new(bad));
    assert_eq!(eval_filter(&expr, &obj(vec![]), &obj(vec![])), Ok(true));
}

#[test]
fn eval_coerces_non_boolean_to_false() {
    let expr = Expr::StringLiteral("words".into());
    assert_eq!(eval_filter(&expr, &obj(vec![]), &obj(vec![])), Ok(false));
}

#[test]
fn eval_missing_field_is_null() {
    let expr = Expr::Eq(
        Box::new(Expr::Ident("missing".into())),
        Box::new(Expr::Null),
    );
    assert_eq!(eval_filter(&expr, &obj(vec![]), &obj(vec![])), Ok(true));
}

#[test]
fn eval_param_lookup() {
    let expr = Expr::Eq(
        Box::new(Expr::Ident("owner".into())),
        Box::new(Expr::Param("$me".into())),
    );
    let doc = obj(vec![("owner", s("user-7"))]);
    let params = obj(vec![("$me", s("user-7"))]);
    assert!(eval_filter(&expr, &doc, &params).unwrap());
}

#[test]
fn eval_this_returns_document() {
    let doc = obj(vec![("k", Value::Int(1))]);
    let got = eval_expr(&Expr::This, &doc, &obj(vec![])).unwrap();
    assert_eq!(got, doc);
}

#[test]
fn eval_unsupported_nodes_report_unsupported() {
    let doc = obj(vec![]);
    let params = obj(vec![]);
    for expr in [
        Expr::Lt(Box::new(Expr::IntLiteral(1)), Box::new(Expr::IntLiteral(2))),
        Expr::FuncCall("count".into(), vec![]),
        Expr::Parent,
        Expr::Array(vec![]),
    ] {
        assert_eq!(eval_expr(&expr, &doc, &params), Err(EvalError::Unsupported));
    }
}

#[test]
fn eval_float_literal_is_its_value() {
    // A float literal evaluates to the float value carrying its numeral
    // text; two literals compare by that text.
    let doc = obj(vec![]);
    let params = obj(vec![]);
    let got = eval_expr(&Expr::FloatLiteral("1.5".into()), &doc, &params).unwrap();
    assert_eq!(got, Value::Float("1.5".to_string()));
    let expr = Expr::Eq(
        Box::new(Expr::FloatLiteral("1.5".into())),
        Box::new(Expr::FloatLiteral("1.5".into())),
    );
    assert_eq!(eval_filter(&expr, &doc, &params), Ok(true));
}

#[test]
fn eval_object_equality_ignores_field_order() {
    // Objects compare as the maps they denote: same key set, equal value
    // per key, whatever order the fields were inserted in.
    let expr = Expr::Eq(
        Box::new(Expr::Ident("x".into())),
        Box::new(Expr::Ident("y".into())),
    );
    let doc = obj(vec![
        ("x", obj(vec![("a", Value::Int(1)), ("b", Value::Int(2))])),
        ("y", obj(vec![("b", Value::Int(2)), ("a", Value::Int(1))])),
    ]);
    assert_eq!(eval_filter(&expr, &doc, &obj(vec![])), Ok(true));
    // A differing value or a missing key still distinguishes them.
    let doc2 = obj(vec![
        ("x", obj(vec![("a", Value::Int(1)), ("b", Value::Int(2))])),
        ("y", obj(vec![("b", Value::Int(3)), ("a", Value::Int(1))])),
    ]);
    assert_eq!(eval_filter(&expr, &doc2, &obj(vec![])), Ok(false));
    let doc3 = obj(vec![
        ("x", obj(vec![("a", Value::Int(1))])),
        ("y", obj(vec![("a", Value::Int(1)), ("b", Value::Int(2))])),
    ]);
    assert_eq!(eval_filter(&expr, &doc3, &obj(vec![])), Ok(false));
}

#[test]
fn eval_array_equality_is_order_sensitive() {
    let expr = Expr::Eq(
        Box::new(Expr::Ident("x".into())),
        Box::new(Expr::Ident("y".into())),
    );
    let doc = obj(vec![
        ("x", Value::Array(vec![Value::Int(1), Value::Int(2)])),
        ("y", Value::Array(vec![Value::Int(2), Value::Int(1)])),
    ]);
    assert_eq!(eval_filter(&expr, &doc, &obj(vec![])), Ok(false));
}

#[test]
fn eval_neq_is_structural() {
    let expr = Expr::Neq(
        Box::new(Expr::Ident("tags".into())),
        Box::new(Expr::Ident("tags".into())),
    );
    let doc = obj(vec![(
        "tags",
        Value::Array(vec![s("a"), Value::Int(2), Value::Null]),
    )]);
    assert_eq!(eval_filter(&expr, &doc, &obj(vec![])), Ok(false));
}
