use content_lake::ast::Expr;
use content_lake::lexer::{LexError, Token};
use content_lake::parser::{parse, ParseError};

#[test]
fn parse_everything() {
    let expr = parse("*").unwrap();
    assert!(matches!(expr, Expr::Everything));
}

#[test]
fn parse_simple_filter() {
    let expr = parse("*[_type == \"post\"]").unwrap();
    match expr {
        Expr::Pipeline(stages) => {
            assert_eq!(stages.len(), 2);
            assert!(matches!(stages[0], Expr::Everything));
            match &stages[1] {
                Expr::Filter(inner) => match inner.as_ref() {
                    Expr::Eq(left, right) => {
                        assert!(matches!(left.as_ref(), Expr::Ident(n) if n == "_type"));
                        assert!(matches!(right.as_ref(), Expr::StringLiteral(s) if s == "post"));
                    }
                    _ => panic!("expected Eq"),
                },
                _ => panic!("expected Filter"),
            }
        }
        _ => panic!("expected Pipeline"),
    }
}

#[test]
fn parse_boolean_logic() {
    let expr = parse("*[_type == \"post\" && published == true]").unwrap();
    match expr {
        Expr::Pipeline(stages) => {
            assert_eq!(stages.len(), 2);
            match &stages[1] {
                Expr::Filter(inner) => {
                    assert!(matches!(inner.as_ref(), Expr::And(_, _)));
                }
                _ => panic!("expected Filter"),
            }
        }
        _ => panic!("expected Pipeline"),
    }
}

#[test]
fn parse_dot_access() {
    let expr = parse("slug.current").unwrap();
    match expr {
        Expr::DotAccess(base, field) => {
            assert!(matches!(*base, Expr::Ident(n) if n == "slug"));
            assert_eq!(field, "current");
        }
        _ => panic!("expected DotAccess, got {expr:?}"),
    }
}

#[test]
fn parse_function_call() {
    let expr = parse("count(*)").unwrap();
    match expr {
        Expr::FuncCall(name, args) => {
            assert_eq!(name, "count");
            assert_eq!(args.len(), 1);
        }
        _ => panic!("expected FuncCall"),
    }
}

#[test]
fn parse_logic_is_right_recursive() {
    // `&&` and `||` share one precedence tier and associate to the right:
    // "a && b || c" is And(a, Or(b, c)), not a left-to-right chain.
    let expr = parse("a && b || c").unwrap();
    match expr {
        Expr::And(left, right) => {
            assert!(matches!(left.as_ref(), Expr::Ident(n) if n == "a"));
            match right.as_ref() {
                Expr::Or(mid, last) => {
                    assert!(matches!(mid.as_ref(), Expr::Ident(n) if n == "b"));
                    assert!(matches!(last.as_ref(), Expr::Ident(n) if n == "c"));
                }
                _ => panic!("expected Or on the right"),
            }
        }
        _ => panic!("expected And at the top"),
    }
}

#[test]
fn parse_unterminated_string_reports_lex_error() {
    let err = parse("\"hello").unwrap_err();
    assert_eq!(err, ParseError::Lex(LexError::UnterminatedString(0)));
}

#[test]
fn parse_eof_mid_construct() {
    let err = parse("(").unwrap_err();
    assert_eq!(err, ParseError::UnexpectedEof);
}

#[test]
fn parse_missing_bracket_reports_expected_token() {
    let err = parse("*[a").unwrap_err();
    assert_eq!(
        err,
        ParseError::UnexpectedToken {
            found: Token::Eof,
            expected: Some(Token::RBracket),
        }
    );
}

#[test]
fn parse_non_expression_token() {
    let err = parse("]").unwrap_err();
    assert_eq!(
        err,
        ParseError::UnexpectedToken {
            found: Token::RBracket,
            expected: None,
        }
    );
}

#[test]
fn parse_projection_fields() {
    let expr = parse("*[x == 1]{title, \"alias\": body.text, ...}").unwrap();
    match expr {
        Expr::Pipeline(stages) => {
            assert_eq!(stages.len(), 3);
            match &stages[2] {
                Expr::Projection(fields) => {
                    assert_eq!(fields.len(), 3);
                    assert_eq!(fields[0].0, "title");
                    assert!(matches!(&fields[0].1, Expr::Ident(n) if n == "title"));
                    assert_eq!(fields[1].0, "alias");
                    assert!(matches!(&fields[1].1, Expr::DotAccess(_, f) if f == "text"));
                    assert_eq!(fields[2].0, "...");
                    assert!(matches!(&fields[2].1, Expr::Everything));
                }
                _ => panic!("expected Projection"),
            }
        }
        _ => panic!("expected Pipeline"),
    }
}

#[test]
fn parse_order_pipe_stage() {
    let expr = parse("*[x == 1] | order(publishedAt desc)").unwrap();
    match expr {
        Expr::Pipeline(stages) => {
            assert_eq!(stages.len(), 3);
            match &stages[2] {
                Expr::Order(field, ascending) => {
                    assert!(matches!(field.as_ref(), Expr::Ident(n) if n == "publishedAt"));
                    assert!(!ascending);
                }
                _ => panic!("expected Order"),
            }
        }
        _ => panic!("expected Pipeline"),
    }
}

#[test]
fn parse_array_literal() {
    let expr = parse("[1, 2, 3]").unwrap();
    match expr {
        Expr::Array(items) => {
            assert_eq!(items.len(), 3);
            assert!(matches!(items[0], Expr::IntLiteral(1)));
            assert!(matches!(items[2], Expr::IntLiteral(3)));
        }
        _ => panic!("expected Array"),
    }
}

#[test]
fn parse_dereference() {
    let expr = parse("author->name").unwrap();
    match expr {
        Expr::Deref(base, field) => {
            assert!(matches!(base.as_ref(), Expr::Ident(n) if n == "author"));
            assert_eq!(field, "name");
        }
        _ => panic!("expected Deref"),
    }
}

#[test]
fn parse_unrecognized_pipe_stage_falls_back_to_filter() {
    // Only `order(...)` is a recognized pipe stage; any other stage is
    // parsed as a plain filter expression rather than rejected.
    let expr = parse("*[x == 1] | score == 2").unwrap();
    match expr {
        Expr::Pipeline(stages) => {
            assert_eq!(stages.len(), 3);
            assert!(matches!(&stages[2], Expr::Eq(_, _)));
        }
        _ => panic!("expected Pipeline"),
    }
}

#[test]
fn parse_trailing_dot_and_arrow_are_consumed() {
    // A `.` or `->` not followed by an identifier ends the access chain
    // but stays consumed.
    let expr = parse("a.").unwrap();
    assert!(matches!(expr, Expr::Ident(n) if n == "a"));
    let expr = parse("a->").unwrap();
    assert!(matches!(expr, Expr::Ident(n) if n == "a"));
}

#[test]
fn parse_param_and_literals() {
    let expr = parse("$who == \"me\"").unwrap();
    // `$who` lexes as an identifier starting with `$`.
    match expr {
        Expr::Eq(left, right) => {
            assert!(matches!(left.as_ref(), Expr::Ident(n) if n == "$who"));
            assert!(matches!(right.as_ref(), Expr::StringLiteral(s) if s == "me"));
        }
        _ => panic!("expected Eq"),
    }
}
